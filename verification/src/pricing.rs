//! The pricing resolver: a table of per-model rates, a memory cache and a
//! disk-cache document with read-time TTL checks, conversion of a fetched
//! catalog, the built-in fallback table, and the fuzzy model-name lookup.
//!
//! The caller owns the cache object and drives the tiers: it consults the
//! memory cache, then hands in a disk snapshot, then a network catalog,
//! and falls back to the built-in table when all of those fail.

use vstd::prelude::*;
use crate::text::{
    contains_sub, lower_bytes, spec_contains_sub, spec_lex_less, spec_lower_bytes, str_eq,
};
use crate::types::{ModelPricing, RATE_LIMIT};

verus! {

/// Memory-cache lifetime in seconds: about five minutes.
pub const MEMORY_CACHE_TTL_SECONDS: i64 = 300;

/// Disk-cache lifetime in seconds: about one day.
pub const FILE_CACHE_TTL_SECONDS: i64 = 86400;

/// The bytes a model name consists of.
pub open spec fn spec_name_bytes(name: Seq<char>) -> Seq<u8> {
    vstd::utf8::encode_utf8(name)
}

/// A pricing table: one entry per model, names distinct, rates bounded.
#[derive(Debug, Clone, PartialEq)]
pub struct PricingTable {
    pub entries: Vec<ModelPricing>,
}

impl PricingTable {
    /// Every entry's rates are bounded and no two entries share a name.
    pub open spec fn wf(&self) -> bool {
        &&& forall|i: int| 0 <= i < self.entries@.len() ==> (#[trigger] self.entries@[i]).wf()
        &&& forall|i: int, j: int|
            0 <= i < j < self.entries@.len() ==> self.entries@[i].model_name@
                != self.entries@[j].model_name@
    }

    /// Whether some entry carries exactly this model name.
    pub open spec fn spec_has_name(&self, name: Seq<char>) -> bool {
        exists|i: int|
            0 <= i < self.entries@.len() && (#[trigger] self.entries@[i]).model_name@ == name
    }

    /// An empty table.
    pub fn new() -> (r: Self)
        ensures
            r.wf(),
            r.entries@.len() == 0,
    {
        PricingTable { entries: Vec::new() }
    }

    /// The number of models priced.
    pub fn len(&self) -> (r: usize)
        ensures
            r == self.entries@.len(),
    {
        self.entries.len()
    }

    /// Add pricing for a model not yet in the table.
    pub fn insert(&mut self, pricing: ModelPricing)
        requires
            old(self).wf(),
            pricing.wf(),
            !old(self).spec_has_name(pricing.model_name@),
        ensures
            final(self).wf(),
            final(self).entries@ == old(self).entries@.push(pricing),
    {
        self.entries.push(pricing);
    }

    /// The index of the entry with exactly this name, if any.
    pub fn find_exact(&self, model_name: &str) -> (r: Option<usize>)
        ensures
            r matches Some(i) ==> i < self.entries@.len() && self.entries@[i as int].model_name@
                == model_name@,
            r is None ==> !self.spec_has_name(model_name@),
    {
        let n = self.entries.len();
        let mut i: usize = 0;
        while i < n
            invariant
                n == self.entries@.len(),
                i <= n,
                forall|k: int|
                    0 <= k < i ==> (#[trigger] self.entries@[k]).model_name@ != model_name@,
            decreases n - i,
        {
            if str_eq(self.entries[i].model_name.as_str(), model_name) {
                return Some(i);
            }
            i = i + 1;
        }
        None
    }
}

/// Whether a pricing key and a looked-up model name match fuzzily:
/// case-insensitive substring containment in either direction, over bytes.
pub open spec fn spec_is_candidate(key: Seq<u8>, model: Seq<u8>) -> bool {
    ||| spec_contains_sub(spec_lower_bytes(model), spec_lower_bytes(key))
    ||| spec_contains_sub(spec_lower_bytes(key), spec_lower_bytes(model))
}

/// Whether key `a` beats key `b` in the fuzzy tie-break: longer wins, and
/// among equal lengths the lexicographically smaller key wins.
pub open spec fn spec_better_key(a: Seq<u8>, b: Seq<u8>) -> bool {
    ||| a.len() > b.len()
    ||| (a.len() == b.len() && spec_lex_less(a, b))
}

/// The index of the fuzzy winner among the first `n` entries: scanning
/// left to right, an entry replaces the current winner only when its key
/// strictly beats the winner's key.
pub open spec fn spec_fuzzy_winner(
    entries: Seq<ModelPricing>,
    model: Seq<u8>,
    n: int,
) -> Option<int>
    decreases n,
{
    if n <= 0 {
        None
    } else {
        let prev = spec_fuzzy_winner(entries, model, n - 1);
        let key = spec_name_bytes(entries[n - 1].model_name@);
        if !spec_is_candidate(key, model) {
            prev
        } else {
            match prev {
                None => Some(n - 1),
                Some(w) => if spec_better_key(key, spec_name_bytes(entries[w].model_name@)) {
                    Some(n - 1)
                } else {
                    prev
                },
            }
        }
    }
}

/// The tie-break order on keys is transitive, so a winner that beat the
/// previous winner also beats everything the previous winner beat.
proof fn lemma_better_key_trans(a: Seq<u8>, b: Seq<u8>, c: Seq<u8>)
    requires
        spec_better_key(a, b),
        spec_better_key(b, c),
    ensures
        spec_better_key(a, c),
{
    if a.len() == b.len() && b.len() == c.len() {
        crate::text::lemma_lex_less_trans(a, b, c);
    }
}

/// The fuzzy match resolves to the most specific candidate: the winner
/// is itself a candidate, and no candidate's key strictly beats the
/// winner's key; when there is no winner, nothing was a candidate. This
/// is the determinism the tie-break buys: longest key first, then the
/// lexicographically smaller one.
pub proof fn law_fuzzy_winner_most_specific(entries: Seq<ModelPricing>, model: Seq<u8>, n: int)
    requires
        0 <= n <= entries.len(),
    ensures
        match spec_fuzzy_winner(entries, model, n) {
            Some(w) => {
                &&& 0 <= w < n
                &&& spec_is_candidate(spec_name_bytes(entries[w].model_name@), model)
                &&& forall|j: int|
                    0 <= j < n && spec_is_candidate(
                        spec_name_bytes((#[trigger] entries[j]).model_name@),
                        model,
                    ) ==> !spec_better_key(
                        spec_name_bytes(entries[j].model_name@),
                        spec_name_bytes(entries[w].model_name@),
                    )
            },
            None => forall|j: int|
                0 <= j < n ==> !spec_is_candidate(
                    spec_name_bytes((#[trigger] entries[j]).model_name@),
                    model,
                ),
        },
    decreases n,
{
    if n > 0 {
        law_fuzzy_winner_most_specific(entries, model, n - 1);
        let prev = spec_fuzzy_winner(entries, model, n - 1);
        let key = spec_name_bytes(entries[n - 1].model_name@);
        if spec_is_candidate(key, model) {
            match prev {
                None => {
                    assert forall|j: int|
                        0 <= j < n && spec_is_candidate(
                            spec_name_bytes((#[trigger] entries[j]).model_name@),
                            model,
                        ) implies !spec_better_key(
                        spec_name_bytes(entries[j].model_name@),
                        key,
                    ) by {
                        if j == n - 1 {
                            crate::text::lemma_lex_less_irrefl(key);
                        }
                    }
                },
                Some(w0) => {
                    let key_w0 = spec_name_bytes(entries[w0].model_name@);
                    if spec_better_key(key, key_w0) {
                        assert forall|j: int|
                            0 <= j < n && spec_is_candidate(
                                spec_name_bytes((#[trigger] entries[j]).model_name@),
                                model,
                            ) implies !spec_better_key(
                            spec_name_bytes(entries[j].model_name@),
                            key,
                        ) by {
                            let key_j = spec_name_bytes(entries[j].model_name@);
                            if j == n - 1 {
                                crate::text::lemma_lex_less_irrefl(key);
                            } else if spec_better_key(key_j, key) {
                                lemma_better_key_trans(key_j, key, key_w0);
                            }
                        }
                    }
                },
            }
        }
    }
}

/// What a lookup resolves to: the uniquely named entry on an exact match,
/// else the fuzzy winner, else nothing. Well defined whenever the table
/// is well formed, since names are then distinct.
pub open spec fn spec_lookup(table: PricingTable, name: Seq<char>) -> Option<ModelPricing> {
    if table.spec_has_name(name) {
        Some(
            table.entries@[choose|i: int|
                0 <= i < table.entries@.len() && (#[trigger] table.entries@[i]).model_name@
                    == name],
        )
    } else {
        match spec_fuzzy_winner(
            table.entries@,
            spec_name_bytes(name),
            table.entries@.len() as int,
        ) {
            Some(w) => Some(table.entries@[w]),
            None => None,
        }
    }
}

/// Resolve a model name to its pricing: an exact name match first, else
/// the fuzzy match over case-insensitive substring containment, the
/// longest key winning and ties broken toward the lexicographically
/// smaller key, so that equal inputs always resolve alike.
pub fn get_model_pricing<'a>(table: &'a PricingTable, model_name: &str) -> (r: Option<
    &'a ModelPricing,
>)
    requires
        table.wf(),
    ensures
        table.spec_has_name(model_name@) ==> (r matches Some(p) && p.model_name@ == model_name@),
        !table.spec_has_name(model_name@) ==> match spec_fuzzy_winner(
            table.entries@,
            spec_name_bytes(model_name@),
            table.entries@.len() as int,
        ) {
            Some(w) => r == Some(&table.entries@[w]),
            None => r is None,
        },
        match spec_lookup(*table, model_name@) {
            Some(p) => r matches Some(q) && *q == p,
            None => r is None,
        },
        r matches Some(p) ==> p.wf(),
{
    if let Some(i) = table.find_exact(model_name) {
        proof {
            let j = choose|j: int|
                0 <= j < table.entries@.len() && (#[trigger] table.entries@[j]).model_name@
                    == model_name@;
            if i as int != j {
                if (i as int) < j {
                    assert(table.entries@[i as int].model_name@ != table.entries@[j].model_name@);
                } else {
                    assert(table.entries@[j].model_name@ != table.entries@[i as int].model_name@);
                }
            }
            assert(table.entries@[i as int].wf());
        }
        return Some(&table.entries[i]);
    }
    let model_lower = lower_bytes(model_name.as_bytes());
    let ghost model_bytes = spec_name_bytes(model_name@);

    let n = table.entries.len();
    let mut best: Option<usize> = None;
    let mut i: usize = 0;
    while i < n
        invariant
            n == table.entries@.len(),
            i <= n,
            model_lower@ == spec_lower_bytes(model_bytes),
            match best {
                Some(b) => b < i && Some(b as int) == spec_fuzzy_winner(
                    table.entries@,
                    model_bytes,
                    i as int,
                ),
                None => spec_fuzzy_winner(table.entries@, model_bytes, i as int) is None,
            },
        decreases n - i,
    {
        let key_bytes = self_key_bytes(&table.entries[i]);
        let key_lower = lower_bytes(key_bytes.as_slice());
        let is_candidate = contains_sub(&model_lower, &key_lower) || contains_sub(
            &key_lower,
            &model_lower,
        );
        if is_candidate {
            match best {
                None => {
                    best = Some(i);
                },
                Some(b) => {
                    let best_key = self_key_bytes(&table.entries[b]);
                    if better_key(&key_bytes, &best_key) {
                        best = Some(i);
                    }
                },
            }
        }
        i = i + 1;
    }
    match best {
        Some(b) => {
            proof {
                assert(table.entries@[b as int].wf());
            }
            Some(&table.entries[b])
        },
        None => None,
    }
}

/// The bytes of an entry's model name.
fn self_key_bytes(p: &ModelPricing) -> (r: Vec<u8>)
    ensures
        r@ == spec_name_bytes(p.model_name@),
{
    p.model_name.as_str().as_bytes_vec()
}

/// Whether key `a` beats key `b`: longer, or equally long and
/// lexicographically smaller.
fn better_key(a: &Vec<u8>, b: &Vec<u8>) -> (r: bool)
    ensures
        r == spec_better_key(a@, b@),
{
    if a.len() > b.len() {
        true
    } else if a.len() == b.len() {
        crate::text::lex_less(a, b)
    } else {
        false
    }
}

/// The in-process pricing cache: the newest fetched table and when it was
/// fetched. Expiry is a read-time comparison, not a background task.
#[derive(Debug, Clone, PartialEq)]
pub struct PricingCache {
    pub data: Option<PricingTable>,
    pub fetched_at: i64,
}

impl PricingCache {
    /// An empty cache.
    pub fn new() -> (r: Self)
        ensures
            r.data is None,
    {
        PricingCache { data: None, fetched_at: 0 }
    }

    /// Whether the cached table, if any, is still fresh at `now`.
    pub open spec fn spec_fresh(&self, now: int) -> bool {
        self.data is Some && now - self.fetched_at <= MEMORY_CACHE_TTL_SECONDS
    }

    /// The cached table when it is present and not yet expired.
    pub fn lookup(&self, now: i64) -> (r: Option<&PricingTable>)
        requires
            crate::time::ts_in_range(now as int),
            crate::time::ts_in_range(self.fetched_at as int),
        ensures
            self.spec_fresh(now as int) ==> r == Some(&self.data.unwrap()),
            !self.spec_fresh(now as int) ==> r is None,
    {
        match &self.data {
            Some(table) => {
                if now - self.fetched_at <= MEMORY_CACHE_TTL_SECONDS {
                    Some(table)
                } else {
                    None
                }
            },
            None => None,
        }
    }

    /// Replace the cached table with a newly obtained one.
    pub fn store(&mut self, table: PricingTable, fetched_at: i64)
        ensures
            final(self).data == Some(table),
            final(self).fetched_at == fetched_at,
    {
        self.data = Some(table);
        self.fetched_at = fetched_at;
    }
}

/// Drop whatever the cache holds, forcing the next resolution to go to
/// the slower tiers.
pub fn clear_pricing_cache(cache: &mut PricingCache)
    ensures
        final(cache).data is None,
        final(cache).fetched_at == old(cache).fetched_at,
{
    cache.data = None;
}

/// A disk-cache snapshot as stored beside the logs: the table plus the
/// fetch timestamp it was taken at.
#[derive(Debug, Clone, PartialEq)]
pub struct FileCachePricing {
    pub fetched_at: i64,
    pub ttl_hours: u32,
    pub data: PricingTable,
}

impl FileCachePricing {
    /// Whether the snapshot is older than the one-day disk TTL at `now`.
    pub open spec fn spec_expired(&self, now: int) -> bool {
        now - self.fetched_at > FILE_CACHE_TTL_SECONDS
    }

    /// Whether the snapshot is expired at `now`.
    pub fn is_expired(&self, now: i64) -> (r: bool)
        requires
            crate::time::ts_in_range(now as int),
            crate::time::ts_in_range(self.fetched_at as int),
        ensures
            r == self.spec_expired(now as int),
    {
        now - self.fetched_at > FILE_CACHE_TTL_SECONDS
    }
}

/// One model's entry in a fetched pricing catalog, already scaled to
/// micros per 1000 tokens; a rate is `None` where the catalog had no
/// per-token price for it.
#[derive(Debug, Clone, PartialEq)]
pub struct CatalogEntry {
    pub model_name: String,
    pub input_cost_per_1k: Option<u64>,
    pub output_cost_per_1k: Option<u64>,
    pub cache_creation_cost_per_1k: Option<u64>,
    pub cache_read_cost_per_1k: Option<u64>,
}

impl CatalogEntry {
    /// Whether a catalog entry survives the filter: it prices both input
    /// and output tokens — entries without either, such as image models,
    /// are dropped — and no rate is beyond the bound cost arithmetic
    /// needs.
    pub open spec fn spec_accepted(&self) -> bool {
        &&& self.input_cost_per_1k is Some
        &&& self.output_cost_per_1k is Some
        &&& self.input_cost_per_1k.unwrap() <= RATE_LIMIT
        &&& self.output_cost_per_1k.unwrap() <= RATE_LIMIT
        &&& self.cache_creation_cost_per_1k.unwrap_or(0) <= RATE_LIMIT
        &&& self.cache_read_cost_per_1k.unwrap_or(0) <= RATE_LIMIT
    }

    /// The pricing an accepted entry converts to: absent cache rates
    /// default to zero.
    pub open spec fn spec_pricing_view(&self) -> (Seq<char>, int, int, int, int) {
        (
            self.model_name@,
            self.input_cost_per_1k.unwrap() as int,
            self.output_cost_per_1k.unwrap() as int,
            self.cache_creation_cost_per_1k.unwrap_or(0) as int,
            self.cache_read_cost_per_1k.unwrap_or(0) as int,
        )
    }
}

/// Whether one of the first `n` catalog entries is accepted and converts
/// to exactly this pricing.
pub open spec fn spec_entry_from_catalog(
    catalog: Seq<CatalogEntry>,
    n: int,
    p: ModelPricing,
) -> bool {
    exists|i: int|
        0 <= i < n <= catalog.len() && (#[trigger] catalog[i]).spec_accepted()
            && catalog[i].spec_pricing_view() == (
            p.model_name@,
            p.input_cost_per_1k as int,
            p.output_cost_per_1k as int,
            p.cache_creation_cost_per_1k as int,
            p.cache_read_cost_per_1k as int,
        )
}

/// Build a pricing table from a fetched catalog: entries that do not
/// price both input and output tokens are dropped (non-text models), as
/// are entries with out-of-bound rates and later duplicates of a name
/// already taken.
pub fn convert_catalog(catalog: &Vec<CatalogEntry>) -> (r: PricingTable)
    ensures
        r.wf(),
        forall|i: int|
            0 <= i < catalog@.len() && (#[trigger] catalog@[i]).spec_accepted() ==> r.spec_has_name(
                catalog@[i].model_name@,
            ),
        forall|j: int|
            0 <= j < r.entries@.len() ==> spec_entry_from_catalog(
                catalog@,
                catalog@.len() as int,
                #[trigger] r.entries@[j],
            ),
{
    let mut table = PricingTable::new();
    let n = catalog.len();
    let mut i: usize = 0;
    while i < n
        invariant
            n == catalog@.len(),
            i <= n,
            table.wf(),
            forall|k: int|
                0 <= k < i && (#[trigger] catalog@[k]).spec_accepted() ==> table.spec_has_name(
                    catalog@[k].model_name@,
                ),
            forall|j: int|
                0 <= j < table.entries@.len() ==> spec_entry_from_catalog(
                    catalog@,
                    i as int,
                    #[trigger] table.entries@[j],
                ),
        decreases n - i,
    {
        let ghost pre = table.entries@;
        let entry = &catalog[i];
        {
            if let (Some(input), Some(output)) = (
                &entry.input_cost_per_1k,
                &entry.output_cost_per_1k,
            ) {
                let cache_creation = unwrap_rate(&entry.cache_creation_cost_per_1k);
                let cache_read = unwrap_rate(&entry.cache_read_cost_per_1k);
                if *input <= RATE_LIMIT && *output <= RATE_LIMIT && cache_creation <= RATE_LIMIT
                    && cache_read <= RATE_LIMIT {
                    match table.find_exact(entry.model_name.as_str()) {
                        None => {
                            let pricing = ModelPricing {
                                model_name: entry.model_name.clone(),
                                input_cost_per_1k: *input,
                                output_cost_per_1k: *output,
                                cache_creation_cost_per_1k: cache_creation,
                                cache_read_cost_per_1k: cache_read,
                            };
                            table.insert(pricing);
                            proof {
                                let last = table.entries@.len() - 1;
                                assert(table.entries@[last] == pricing);
                                assert(catalog@[i as int].spec_accepted());
                                assert(spec_entry_from_catalog(catalog@, i + 1, pricing));
                                assert(table.spec_has_name(catalog@[i as int].model_name@));
                            }
                        },
                        Some(dup) => {
                            proof {
                                assert(table.entries@[dup as int].model_name@
                                    == entry.model_name@);
                                assert(table.spec_has_name(catalog@[i as int].model_name@));
                            }
                        },
                    }
                } else {
                    proof {
                        assert(!catalog@[i as int].spec_accepted());
                    }
                }
            } else {
                proof {
                    assert(!catalog@[i as int].spec_accepted());
                }
            }
        }
        proof {
            lemma_table_step(pre, table.entries@, catalog@, i as int);
            assert forall|k: int|
                0 <= k < i + 1 && (#[trigger] catalog@[k]).spec_accepted() implies table
                .spec_has_name(catalog@[k].model_name@) by {
                if k < i {
                    let idx = choose|idx: int|
                        0 <= idx < pre.len() && (#[trigger] pre[idx]).model_name@
                            == catalog@[k].model_name@;
                    assert(table.entries@[idx] == pre[idx]);
                }
            }
        }
        i = i + 1;
    }
    table
}

/// One loop step of the catalog conversion preserves the invariant that
/// every table entry comes from an accepted catalog prefix entry, and
/// names already present stay present.
proof fn lemma_table_step(
    pre: Seq<ModelPricing>,
    post: Seq<ModelPricing>,
    catalog: Seq<CatalogEntry>,
    i: int,
)
    requires
        0 <= i < catalog.len(),
        pre == post || post == pre.push(post.last()),
        forall|j: int|
            0 <= j < pre.len() ==> spec_entry_from_catalog(catalog, i, #[trigger] pre[j]),
        pre != post ==> spec_entry_from_catalog(catalog, i + 1, post.last()),
    ensures
        forall|j: int|
            0 <= j < post.len() ==> spec_entry_from_catalog(catalog, i + 1, #[trigger] post[j]),
{
    assert forall|j: int| 0 <= j < post.len() implies spec_entry_from_catalog(
        catalog,
        i + 1,
        #[trigger] post[j],
    ) by {
        if j < pre.len() {
            assert(post[j] == pre[j]);
            assert(spec_entry_from_catalog(catalog, i, pre[j]));
            let k = choose|k: int|
                0 <= k < i <= catalog.len() && (#[trigger] catalog[k]).spec_accepted()
                    && catalog[k].spec_pricing_view() == (
                    pre[j].model_name@,
                    pre[j].input_cost_per_1k as int,
                    pre[j].output_cost_per_1k as int,
                    pre[j].cache_creation_cost_per_1k as int,
                    pre[j].cache_read_cost_per_1k as int,
                );
            assert(spec_entry_from_catalog(catalog, i + 1, post[j]));
        } else {
            assert(post[j] == post.last());
        }
    }
}

/// One fallback entry, rates in micros per 1000 tokens.
fn fallback_entry(name: &str, input: u64, output: u64, cache_creation: u64, cache_read: u64) -> (r:
    ModelPricing)
    requires
        input <= RATE_LIMIT,
        output <= RATE_LIMIT,
        cache_creation <= RATE_LIMIT,
        cache_read <= RATE_LIMIT,
    ensures
        r.wf(),
        r.model_name@ == name@,
        r.input_cost_per_1k == input,
        r.output_cost_per_1k == output,
        r.cache_creation_cost_per_1k == cache_creation,
        r.cache_read_cost_per_1k == cache_read,
{
    ModelPricing {
        model_name: name.to_owned(),
        input_cost_per_1k: input,
        output_cost_per_1k: output,
        cache_creation_cost_per_1k: cache_creation,
        cache_read_cost_per_1k: cache_read,
    }
}

/// The built-in static pricing table used when every cache tier and the
/// network fetch fail: a handful of known models with their rates in
/// micros per 1000 tokens. Each entry is keyed by the distinguishing
/// tail of the model identifier, without the vendor prefix, so that the
/// dated and the undated forms of a known identifier both resolve to it
/// by fuzzy containment.
pub fn fallback_pricing() -> (r: PricingTable)
    ensures
        r.wf(),
        r.entries@.len() == 7,
        r.entries@[0].model_name@ == "sonnet-4"@,
        r.entries@[1].model_name@ == "opus-4-1-20250805"@,
        r.entries@[2].model_name@ == "opus-4-1"@,
        r.entries@[3].model_name@ == "3-5-sonnet-20241022"@,
        r.entries@[4].model_name@ == "3-5-sonnet"@,
        r.entries@[5].model_name@ == "3-opus"@,
        r.entries@[6].model_name@ == "3-5-haiku"@,
        r.entries@[0] == (ModelPricing {
            model_name: r.entries@[0].model_name,
            input_cost_per_1k: 3000u64,
            output_cost_per_1k: 15000u64,
            cache_creation_cost_per_1k: 3750u64,
            cache_read_cost_per_1k: 300u64,
        }),
        r.entries@[1] == (ModelPricing {
            model_name: r.entries@[1].model_name,
            input_cost_per_1k: 15000u64,
            output_cost_per_1k: 75000u64,
            cache_creation_cost_per_1k: 18750u64,
            cache_read_cost_per_1k: 1500u64,
        }),
        r.entries@[2] == (ModelPricing {
            model_name: r.entries@[2].model_name,
            input_cost_per_1k: 15000u64,
            output_cost_per_1k: 75000u64,
            cache_creation_cost_per_1k: 18750u64,
            cache_read_cost_per_1k: 1500u64,
        }),
        r.entries@[3] == (ModelPricing {
            model_name: r.entries@[3].model_name,
            input_cost_per_1k: 3000u64,
            output_cost_per_1k: 15000u64,
            cache_creation_cost_per_1k: 3750u64,
            cache_read_cost_per_1k: 300u64,
        }),
        r.entries@[4] == (ModelPricing {
            model_name: r.entries@[4].model_name,
            input_cost_per_1k: 3000u64,
            output_cost_per_1k: 15000u64,
            cache_creation_cost_per_1k: 3750u64,
            cache_read_cost_per_1k: 300u64,
        }),
        r.entries@[5] == (ModelPricing {
            model_name: r.entries@[5].model_name,
            input_cost_per_1k: 15000u64,
            output_cost_per_1k: 75000u64,
            cache_creation_cost_per_1k: 18750u64,
            cache_read_cost_per_1k: 1500u64,
        }),
        r.entries@[6] == (ModelPricing {
            model_name: r.entries@[6].model_name,
            input_cost_per_1k: 800u64,
            output_cost_per_1k: 4000u64,
            cache_creation_cost_per_1k: 1000u64,
            cache_read_cost_per_1k: 80u64,
        }),
{
    let mut entries: Vec<ModelPricing> = Vec::new();
    entries.push(fallback_entry("sonnet-4", 3000, 15000, 3750, 300));
    entries.push(fallback_entry("opus-4-1-20250805", 15000, 75000, 18750, 1500));
    entries.push(fallback_entry("opus-4-1", 15000, 75000, 18750, 1500));
    entries.push(fallback_entry("3-5-sonnet-20241022", 3000, 15000, 3750, 300));
    entries.push(fallback_entry("3-5-sonnet", 3000, 15000, 3750, 300));
    entries.push(fallback_entry("3-opus", 15000, 75000, 18750, 1500));
    entries.push(fallback_entry("3-5-haiku", 800, 4000, 1000, 80));
    proof {
        reveal_strlit("sonnet-4");
        reveal_strlit("opus-4-1-20250805");
        reveal_strlit("opus-4-1");
        reveal_strlit("3-5-sonnet-20241022");
        reveal_strlit("3-5-sonnet");
        reveal_strlit("3-opus");
        reveal_strlit("3-5-haiku");
        assert(forall|i: int| 0 <= i < entries@.len() ==> (#[trigger] entries@[i]).wf());
        assert forall|i: int, j: int|
            0 <= i < j < entries@.len() implies entries@[i].model_name@
            != entries@[j].model_name@ by {
            assert(entries@.len() == 7);
            assert(entries@[i].model_name@.len() != entries@[j].model_name@.len()
                || entries@[i].model_name@[7] != entries@[j].model_name@[7]
                || entries@[i].model_name@[9] != entries@[j].model_name@[9]
                || entries@[i].model_name@[14] != entries@[j].model_name@[14]);
        }
    }
    PricingTable { entries }
}

/// The rate a field holds, or zero when it is absent.
fn unwrap_rate(v: &Option<u64>) -> (r: u64)
    ensures
        r == v.unwrap_or(0),
{
    match v {
        Some(n) => *n,
        None => 0,
    }
}

} // verus!
