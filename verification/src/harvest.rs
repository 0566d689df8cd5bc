//! The transcript harvester's core: log lines become raw records, raw
//! records become usage entries, duplicates are dropped on the composite
//! (message id, request id) key, and the collected entries come out
//! time-sorted. Reading files and walking directories is the
//! application's concern; everything from bytes onward is verified here.

use vstd::prelude::*;
use vstd::string::StringSliceAdditionalSpecFns;
use crate::text::{lemma_find_byte_at, lemma_find_byte_none, spec_find_byte, str_eq};
use crate::time::{parse_rfc3339_utc, rfc3339_epoch};
use crate::types::{sort_entries_by_time, spec_sorted_by_time, UsageEntry};
use crate::usage::{
    spec_cache_read, NormalizedUsage, PromptTokensDetails, RawUsage,
};

verus! {

/// One log line's usage-relevant content, as plain values: the record's
/// author type, its identifiers, its timestamp string, its model name,
/// and its raw usage object if it carries one.
#[derive(Debug, Clone, PartialEq)]
pub struct RawRecord {
    pub rec_type: Option<String>,
    pub message_id: Option<String>,
    pub request_id: Option<String>,
    pub timestamp: Option<String>,
    pub model: Option<String>,
    pub usage: Option<RawUsage>,
}

/// Whether a record contributes an entry at all: assistant-authored and
/// carrying a usage object.
pub open spec fn spec_eligible(r: RawRecord) -> bool {
    &&& r.rec_type matches Some(t) && t@ == "assistant"@
    &&& r.usage is Some
}

/// The record's composite deduplication key, present only when both the
/// message id and the request id are.
pub open spec fn spec_pair(r: RawRecord) -> Option<(Seq<char>, Seq<char>)> {
    match (r.message_id, r.request_id) {
        (Some(m), Some(q)) => Some((m@, q@)),
        _ => None,
    }
}

/// Whether a record survives harvesting against the given set of keys
/// already seen: it must be eligible, and its key, when it has one, must
/// be fresh. Records lacking either id have no key and are never dropped
/// as duplicates.
pub open spec fn spec_keep(r: RawRecord, seen: Set<(Seq<char>, Seq<char>)>) -> bool {
    spec_eligible(r) && match spec_pair(r) {
        Some(p) => !seen.contains(p),
        None => true,
    }
}

/// The seen-key set after a record: an eligible record's key joins it.
pub open spec fn spec_seen_after(r: RawRecord, seen: Set<(Seq<char>, Seq<char>)>) -> Set<
    (Seq<char>, Seq<char>),
> {
    if spec_eligible(r) && spec_pair(r) is Some {
        seen.insert(spec_pair(r).unwrap())
    } else {
        seen
    }
}

/// The seen-key set after a whole batch of records.
pub open spec fn spec_seen_state(rs: Seq<RawRecord>, seen0: Set<(Seq<char>, Seq<char>)>) -> Set<
    (Seq<char>, Seq<char>),
>
    decreases rs.len(),
{
    if rs.len() == 0 {
        seen0
    } else {
        spec_seen_after(rs.last(), spec_seen_state(rs.drop_last(), seen0))
    }
}

/// The records a batch yields, in order: each record is kept exactly when
/// it survives against the keys seen over the records before it.
pub open spec fn spec_kept(rs: Seq<RawRecord>, seen0: Set<(Seq<char>, Seq<char>)>) -> Seq<
    RawRecord,
>
    decreases rs.len(),
{
    if rs.len() == 0 {
        Seq::empty()
    } else {
        let p = spec_kept(rs.drop_last(), seen0);
        if spec_keep(rs.last(), spec_seen_state(rs.drop_last(), seen0)) {
            p.push(rs.last())
        } else {
            p
        }
    }
}

/// How many records of a batch carry the given key.
pub open spec fn spec_count_pair(rs: Seq<RawRecord>, pr: (Seq<char>, Seq<char>)) -> int
    decreases rs.len(),
{
    if rs.len() == 0 {
        0
    } else {
        spec_count_pair(rs.drop_last(), pr) + if spec_pair(rs.last()) == Some(pr) {
            1int
        } else {
            0int
        }
    }
}

/// Whether some eligible record of the batch carries the key.
pub open spec fn spec_has_eligible_pair(rs: Seq<RawRecord>, pr: (Seq<char>, Seq<char>)) -> bool {
    exists|k: int|
        0 <= k < rs.len() && spec_eligible(#[trigger] rs[k]) && spec_pair(rs[k]) == Some(pr)
}

/// How many records of a batch are eligible but carry no key.
pub open spec fn spec_count_eligible_keyless(rs: Seq<RawRecord>) -> int
    decreases rs.len(),
{
    if rs.len() == 0 {
        0
    } else {
        spec_count_eligible_keyless(rs.drop_last()) + if spec_eligible(rs.last()) && spec_pair(
            rs.last(),
        ) is None {
            1int
        } else {
            0int
        }
    }
}

/// Exactly-once harvesting: starting from no seen keys, the kept records
/// carry each distinct key exactly once — once when some eligible record
/// carries it, and never otherwise. This holds of the batch in whatever
/// order its records arrive.
pub proof fn law_dedup_exactly_once(rs: Seq<RawRecord>, pr: (Seq<char>, Seq<char>))
    ensures
        spec_count_pair(spec_kept(rs, Set::empty()), pr) == if spec_has_eligible_pair(rs, pr) {
            1int
        } else {
            0int
        },
{
    lemma_dedup(rs, Set::empty(), pr);
}

/// Keys never seen are kept once if present; keys already seen are never
/// kept again; and the final seen set records exactly the keys of the
/// eligible records plus what was seen before.
proof fn lemma_dedup(rs: Seq<RawRecord>, seen0: Set<(Seq<char>, Seq<char>)>, pr: (Seq<
    char,
>, Seq<char>))
    ensures
        spec_seen_state(rs, seen0).contains(pr) <==> (seen0.contains(pr) || spec_has_eligible_pair(
            rs,
            pr,
        )),
        seen0.contains(pr) ==> spec_count_pair(spec_kept(rs, seen0), pr) == 0,
        !seen0.contains(pr) ==> spec_count_pair(spec_kept(rs, seen0), pr) == (
        if spec_has_eligible_pair(rs, pr) {
            1int
        } else {
            0int
        }),
    decreases rs.len(),
{
    broadcast use vstd::set::group_set_axioms;

    if rs.len() == 0 {
        assert(!spec_has_eligible_pair(rs, pr));
    } else {
        let s0 = rs.drop_last();
        let r = rs.last();
        lemma_dedup(s0, seen0, pr);
        lemma_count_pair_push(spec_kept(s0, seen0), r, pr);
        assert(s0.push(r) =~= rs);
        if spec_has_eligible_pair(rs, pr) {
            let k = choose|k: int|
                0 <= k < rs.len() && spec_eligible(#[trigger] rs[k]) && spec_pair(rs[k]) == Some(
                    pr,
                );
            if k < s0.len() {
                assert(s0[k] == rs[k]);
                assert(spec_has_eligible_pair(s0, pr));
            }
        }
        if spec_has_eligible_pair(s0, pr) {
            let k = choose|k: int|
                0 <= k < s0.len() && spec_eligible(#[trigger] s0[k]) && spec_pair(s0[k]) == Some(
                    pr,
                );
            assert(rs[k] == s0[k]);
            assert(spec_has_eligible_pair(rs, pr));
        }
        if spec_eligible(r) && spec_pair(r) == Some(pr) {
            assert(spec_has_eligible_pair(rs, pr));
        }
    }
}

/// Pushing one record adds its key's occurrences to the count.
proof fn lemma_count_pair_push(s: Seq<RawRecord>, r: RawRecord, pr: (Seq<char>, Seq<char>))
    ensures
        spec_count_pair(s.push(r), pr) == spec_count_pair(s, pr) + if spec_pair(r) == Some(pr) {
            1int
        } else {
            0int
        },
{
    assert(s.push(r).drop_last() =~= s);
}

/// Records lacking either id are never deduplicated against each other:
/// every eligible keyless record of the batch is kept.
pub proof fn law_keyless_records_all_kept(rs: Seq<RawRecord>, seen0: Set<(Seq<char>, Seq<char>)>)
    ensures
        spec_count_eligible_keyless(spec_kept(rs, seen0)) == spec_count_eligible_keyless(rs),
    decreases rs.len(),
{
    if rs.len() > 0 {
        let s0 = rs.drop_last();
        let r = rs.last();
        law_keyless_records_all_kept(s0, seen0);
        if spec_keep(r, spec_seen_state(s0, seen0)) {
            assert(spec_kept(rs, seen0).drop_last() =~= spec_kept(s0, seen0));
        }
    }
}

/// The set of composite keys already seen, held as a list of id pairs.
#[derive(Debug, Clone, PartialEq)]
pub struct DedupSet {
    pub pairs: Vec<(String, String)>,
}

/// The keys a pair list holds.
pub open spec fn spec_pair_set(s: Seq<(String, String)>) -> Set<(Seq<char>, Seq<char>)>
    decreases s.len(),
{
    if s.len() == 0 {
        Set::empty()
    } else {
        spec_pair_set(s.drop_last()).insert((s.last().0@, s.last().1@))
    }
}

/// A key is in the pair list's set exactly when some pair of the list
/// spells it.
proof fn lemma_pair_set_contains(s: Seq<(String, String)>, pr: (Seq<char>, Seq<char>))
    ensures
        spec_pair_set(s).contains(pr) <==> exists|k: int|
            0 <= k < s.len() && ((#[trigger] s[k]).0@, s[k].1@) == pr,
    decreases s.len(),
{
    broadcast use vstd::set::group_set_axioms;

    if s.len() > 0 {
        lemma_pair_set_contains(s.drop_last(), pr);
        if spec_pair_set(s).contains(pr) {
            if (s.last().0@, s.last().1@) == pr {
                assert(((s[s.len() - 1]).0@, s[s.len() - 1].1@) == pr);
            } else {
                let k = choose|k: int|
                    0 <= k < s.len() - 1 && ((#[trigger] s.drop_last()[k]).0@, s.drop_last()[k].1@)
                        == pr;
                assert((s[k].0@, s[k].1@) == pr);
            }
        }
        if exists|k: int| 0 <= k < s.len() && ((#[trigger] s[k]).0@, s[k].1@) == pr {
            let k = choose|k: int| 0 <= k < s.len() && ((#[trigger] s[k]).0@, s[k].1@) == pr;
            if k < s.len() - 1 {
                assert((s.drop_last()[k].0@, s.drop_last()[k].1@) == pr);
                assert(spec_pair_set(s.drop_last()).contains(pr));
            }
        }
    }
}

impl View for DedupSet {
    type V = Set<(Seq<char>, Seq<char>)>;

    /// The keys seen so far.
    open spec fn view(&self) -> Set<(Seq<char>, Seq<char>)> {
        spec_pair_set(self.pairs@)
    }
}

impl DedupSet {
    /// An empty set.
    pub fn new() -> (r: Self)
        ensures
            r@ == Set::<(Seq<char>, Seq<char>)>::empty(),
    {
        DedupSet { pairs: Vec::new() }
    }

    /// Whether the key spelled by the two ids was seen.
    pub fn contains(&self, message_id: &str, request_id: &str) -> (r: bool)
        ensures
            r == self@.contains((message_id@, request_id@)),
    {
        let n = self.pairs.len();
        let mut i: usize = 0;
        while i < n
            invariant
                n == self.pairs@.len(),
                i <= n,
                forall|k: int|
                    0 <= k < i ==> ((#[trigger] self.pairs@[k]).0@, self.pairs@[k].1@) != (
                        message_id@,
                        request_id@,
                    ),
            decreases n - i,
        {
            if str_eq(self.pairs[i].0.as_str(), message_id) && str_eq(
                self.pairs[i].1.as_str(),
                request_id,
            ) {
                proof {
                    lemma_pair_set_contains(self.pairs@, (message_id@, request_id@));
                }
                return true;
            }
            i = i + 1;
        }
        proof {
            lemma_pair_set_contains(self.pairs@, (message_id@, request_id@));
        }
        false
    }

    /// Record the key spelled by the two ids.
    pub fn insert(&mut self, message_id: &str, request_id: &str)
        ensures
            final(self)@ == old(self)@.insert((message_id@, request_id@)),
    {
        let p = (message_id.to_owned(), request_id.to_owned());
        let ghost pre = self.pairs@;
        self.pairs.push(p);
        proof {
            assert(self.pairs@.drop_last() =~= pre);
        }
    }
}

/// Convert a normalized usage record into a usage entry. The timestamp
/// string is read as RFC 3339 when it parses; otherwise, or when absent,
/// `now` stands in. A missing model becomes the empty name, and the cost
/// stays unset for the pricing pass.
pub fn extract_usage_entry(
    normalized: &NormalizedUsage,
    session_id: &str,
    timestamp_str: Option<&str>,
    model: Option<&str>,
    now: i64,
) -> (r: Option<UsageEntry>)
    ensures
        r matches Some(e) && {
            &&& e.timestamp == (match timestamp_str {
                Some(ts) => match rfc3339_epoch(ts@) {
                    Some(t) => t,
                    None => now,
                },
                None => now,
            })
            &&& e.input_tokens == normalized.input_tokens
            &&& e.output_tokens == normalized.output_tokens
            &&& e.cache_creation_tokens == normalized.cache_creation_input_tokens
            &&& e.cache_read_tokens == normalized.cache_read_input_tokens
            &&& e.model@ == (match model {
                Some(m) => m@,
                None => Seq::<char>::empty(),
            })
            &&& e.cost is None
            &&& e.session_id@ == session_id@
        },
{
    let timestamp = match timestamp_str {
        Some(ts) => match parse_rfc3339_utc(ts) {
            Some(t) => t,
            None => now,
        },
        None => now,
    };
    let model_name = match model {
        Some(m) => m.to_owned(),
        None => new_string(),
    };
    Some(
        UsageEntry {
            timestamp,
            input_tokens: normalized.input_tokens,
            output_tokens: normalized.output_tokens,
            cache_creation_tokens: normalized.cache_creation_input_tokens,
            cache_read_tokens: normalized.cache_read_input_tokens,
            model: model_name,
            cost: None,
            session_id: session_id.to_owned(),
        },
    )
}

/// An empty string.
fn new_string() -> (r: String)
    ensures
        r@ == Seq::<char>::empty(),
{
    String::new()
}

/// Copy a raw usage record.
fn clone_raw_usage(u: &RawUsage) -> (r: RawUsage)
    ensures
        r == *u,
{
    RawUsage {
        input_tokens: clone_opt_u32(&u.input_tokens),
        output_tokens: clone_opt_u32(&u.output_tokens),
        total_tokens: clone_opt_u32(&u.total_tokens),
        cache_creation_input_tokens: clone_opt_u32(&u.cache_creation_input_tokens),
        cache_read_input_tokens: clone_opt_u32(&u.cache_read_input_tokens),
        prompt_tokens_details: match &u.prompt_tokens_details {
            Some(d) => Some(
                PromptTokensDetails {
                    cached_tokens: clone_opt_u32(&d.cached_tokens),
                    audio_tokens: clone_opt_u32(&d.audio_tokens),
                },
            ),
            None => None,
        },
    }
}

/// Copy an optional count.
fn clone_opt_u32(v: &Option<u32>) -> (r: Option<u32>)
    ensures
        r == *v,
{
    match v {
        Some(n) => Some(*n),
        None => None,
    }
}

/// Whether a usage entry is exactly what a kept record converts to.
pub open spec fn spec_entry_matches(e: UsageEntry, rec: RawRecord, sid: Seq<char>, now: int) -> bool {
    &&& e.timestamp == (match rec.timestamp {
        Some(ts) => match rfc3339_epoch(ts@) {
            Some(t) => t,
            None => now as i64,
        },
        None => now as i64,
    })
    &&& e.input_tokens == rec.usage.unwrap().input_tokens.unwrap_or(0)
    &&& e.output_tokens == rec.usage.unwrap().output_tokens.unwrap_or(0)
    &&& e.cache_creation_tokens == rec.usage.unwrap().cache_creation_input_tokens.unwrap_or(0)
    &&& e.cache_read_tokens == spec_cache_read(rec.usage.unwrap())
    &&& e.model@ == (match rec.model {
        Some(m) => m@,
        None => Seq::<char>::empty(),
    })
    &&& e.cost is None
    &&& e.session_id@ == sid
}

/// Turn one raw record into a usage entry, against the seen-key set:
/// ineligible records and records whose key was already seen yield
/// nothing; everything else yields its entry and records its key.
pub fn record_to_entry(rec: &RawRecord, session_id: &str, seen: &mut DedupSet, now: i64) -> (r:
    Option<UsageEntry>)
    ensures
        final(seen)@ == spec_seen_after(*rec, old(seen)@),
        r is Some <==> spec_keep(*rec, old(seen)@),
        spec_keep(*rec, old(seen)@) ==> (r matches Some(e) && spec_entry_matches(
            e,
            *rec,
            session_id@,
            now as int,
        )),
{
    let is_assistant = match &rec.rec_type {
        Some(t) => str_eq(t.as_str(), "assistant"),
        None => false,
    };
    if !is_assistant {
        proof {
            assert(!spec_eligible(*rec));
            assert(spec_seen_after(*rec, seen@) == seen@);
            assert(!spec_keep(*rec, seen@));
        }
        return None;
    }
    let raw_usage = match &rec.usage {
        Some(u) => u,
        None => {
            proof {
                assert(!spec_eligible(*rec));
                assert(spec_seen_after(*rec, seen@) == seen@);
                assert(!spec_keep(*rec, seen@));
            }
            return None;
        },
    };
    if let (Some(msg_id), Some(req_id)) = (&rec.message_id, &rec.request_id) {
        if seen.contains(msg_id.as_str(), req_id.as_str()) {
            return None;
        }
        seen.insert(msg_id.as_str(), req_id.as_str());
    }
    let normalized = clone_raw_usage(raw_usage).normalize();
    let ts: Option<&str> = match &rec.timestamp {
        Some(t) => Some(t.as_str()),
        None => None,
    };
    let model: Option<&str> = match &rec.model {
        Some(m) => Some(m.as_str()),
        None => None,
    };
    extract_usage_entry(&normalized, session_id, ts, model, now)
}

/// The harvester's accumulator: the seen-key set shared across the whole
/// batch, and the entries collected so far.
#[derive(Debug)]
pub struct DataLoader {
    pub seen: DedupSet,
    pub entries: Vec<UsageEntry>,
}

impl DataLoader {
    /// An empty accumulator.
    pub fn new() -> (r: Self)
        ensures
            r.seen@ == Set::<(Seq<char>, Seq<char>)>::empty(),
            r.entries@.len() == 0,
    {
        DataLoader { seen: DedupSet::new(), entries: Vec::new() }
    }

    /// Absorb a batch of already-extracted records for one session: the
    /// seen-key set advances over every record, exactly the surviving
    /// records' entries are appended, in order, and each appended entry
    /// carries its surviving record's converted fields.
    pub fn absorb_records(&mut self, records: &Vec<RawRecord>, session_id: &str, now: i64)
        ensures
            final(self).seen@ == spec_seen_state(records@, old(self).seen@),
            final(self).entries@.len() == old(self).entries@.len() + spec_kept(
                records@,
                old(self).seen@,
            ).len(),
            forall|k: int|
                0 <= k < old(self).entries@.len() ==> final(self).entries@[k] == old(
                    self,
                ).entries@[k],
            forall|k: int|
                0 <= k < spec_kept(records@, old(self).seen@).len() ==> spec_entry_matches(
                    final(self).entries@[old(self).entries@.len() + k],
                    #[trigger] spec_kept(records@, old(self).seen@)[k],
                    session_id@,
                    now as int,
                ),
    {
        let ghost seen0 = self.seen@;
        let ghost entries0 = self.entries@;
        let n = records.len();
        let mut i: usize = 0;
        while i < n
            invariant
                n == records@.len(),
                i <= n,
                self.seen@ == spec_seen_state(records@.take(i as int), seen0),
                self.entries@.len() == entries0.len() + spec_kept(
                    records@.take(i as int),
                    seen0,
                ).len(),
                forall|k: int| 0 <= k < entries0.len() ==> self.entries@[k] == entries0[k],
                forall|k: int|
                    0 <= k < spec_kept(records@.take(i as int), seen0).len()
                        ==> spec_entry_matches(
                        self.entries@[entries0.len() + k],
                        #[trigger] spec_kept(records@.take(i as int), seen0)[k],
                        session_id@,
                        now as int,
                    ),
            decreases n - i,
        {
            proof {
                assert(records@.take(i + 1).drop_last() =~= records@.take(i as int));
                assert(records@.take(i + 1).last() == records@[i as int]);
            }
            let r = record_to_entry(&records[i], session_id, &mut self.seen, now);
            match r {
                Some(e) => {
                    self.entries.push(e);
                    proof {
                        let kept_pre = spec_kept(records@.take(i as int), seen0);
                        let kept_now = spec_kept(records@.take(i + 1), seen0);
                        assert(kept_now == kept_pre.push(records@[i as int]));
                        assert(self.entries@.last() == e);
                    }
                },
                None => {},
            }
            i = i + 1;
        }
        proof {
            assert(records@.take(n as int) =~= records@);
        }
    }

    /// The collected entries, time-sorted.
    pub fn sorted_entries(&self) -> (r: Vec<UsageEntry>)
        ensures
            r@.to_multiset() == self.entries@.to_multiset(),
            spec_sorted_by_time(r@),
            spec_sorted_by_time(self.entries@) ==> r@ == self.entries@,
    {
        sort_entries_by_time(&self.entries)
    }

    /// Absorb one file's bytes for a session: each non-empty line is
    /// parsed and deduplicated. A line that is not valid JSON, is not an
    /// assistant record, or carries no usage object contributes nothing
    /// and never fails the batch; collected entries are only appended.
    /// The whole file behaves as one batch: the seen keys advance over
    /// exactly the records its lines denote, and the surviving records'
    /// entries are appended with their converted fields, as in
    /// `absorb_records`.
    pub fn process_file(&mut self, session_id: &str, bytes: &[u8], now: i64)
        ensures
            forall|k: int|
                0 <= k < old(self).entries@.len() ==> final(self).entries@[k] == old(
                    self,
                ).entries@[k],
            final(self).seen@ == spec_seen_state(
                spec_records_of_lines(spec_split_lines(bytes@)),
                old(self).seen@,
            ),
            final(self).entries@.len() == old(self).entries@.len() + spec_kept(
                spec_records_of_lines(spec_split_lines(bytes@)),
                old(self).seen@,
            ).len(),
            forall|k: int|
                0 <= k < spec_kept(
                    spec_records_of_lines(spec_split_lines(bytes@)),
                    old(self).seen@,
                ).len() ==> spec_entry_matches(
                    final(self).entries@[old(self).entries@.len() + k],
                    #[trigger] spec_kept(
                        spec_records_of_lines(spec_split_lines(bytes@)),
                        old(self).seen@,
                    )[k],
                    session_id@,
                    now as int,
                ),
    {
        let lines = split_lines(bytes);
        let n = lines.len();
        let ghost dv = lines.deep_view();
        let ghost entries0 = self.entries@;
        let ghost seen0 = self.seen@;
        let mut i: usize = 0;
        while i < n
            invariant
                n == lines@.len(),
                i <= n,
                dv == lines.deep_view(),
                dv.len() == n,
                self.seen@ == spec_seen_state(
                    spec_records_of_lines(dv.take(i as int)),
                    seen0,
                ),
                self.entries@.len() == entries0.len() + spec_kept(
                    spec_records_of_lines(dv.take(i as int)),
                    seen0,
                ).len(),
                forall|k: int| 0 <= k < entries0.len() ==> self.entries@[k] == entries0[k],
                forall|k: int|
                    0 <= k < spec_kept(spec_records_of_lines(dv.take(i as int)), seen0).len()
                        ==> spec_entry_matches(
                        self.entries@[entries0.len() + k],
                        #[trigger] spec_kept(
                            spec_records_of_lines(dv.take(i as int)),
                            seen0,
                        )[k],
                        session_id@,
                        now as int,
                    ),
            decreases n - i,
        {
            proof {
                assert(dv.take(i + 1).drop_last() =~= dv.take(i as int));
                assert(dv.take(i + 1).last() == dv[i as int]);
                assert(dv[i as int] =~= lines@[i as int]@);
            }
            let ghost pre_seen = self.seen@;
            let r = parse_line_bytes(lines[i].as_slice(), session_id, &mut self.seen, now);
            proof {
                let rol_pre = spec_records_of_lines(dv.take(i as int));
                let rol_now = spec_records_of_lines(dv.take(i + 1));
                let rec = record_of(dv[i as int]);
                assert(rol_now == rol_pre.push(rec));
                assert(rol_now.drop_last() =~= rol_pre);
                assert(spec_seen_state(rol_now, seen0) == spec_seen_after(
                    rec,
                    spec_seen_state(rol_pre, seen0),
                ));
                if spec_keep(rec, pre_seen) {
                    assert(spec_kept(rol_now, seen0) == spec_kept(rol_pre, seen0).push(rec));
                } else {
                    assert(spec_kept(rol_now, seen0) == spec_kept(rol_pre, seen0));
                }
            }
            match r {
                Some(e) => {
                    self.entries.push(e);
                    proof {
                        assert(self.entries@.last() == e);
                    }
                },
                None => {},
            }
            i = i + 1;
        }
        proof {
            assert(dv.take(n as int) =~= dv);
            assert(dv == spec_split_lines(bytes@));
        }
    }
}

/// The harvester's worker-pool size for given core counts: the physical
/// core count, raised by half (rounded) when the machine exposes more
/// logical than physical cores, clamped to the safe band.
pub open spec fn spec_pool_size(physical: int, logical: int) -> int {
    let base = if logical > physical {
        (3 * physical + 1) / 2
    } else {
        physical
    };
    if base < 2 {
        2
    } else if base > 16 {
        16
    } else {
        base
    }
}

/// The worker-pool size for the harvester's mixed reading-and-parsing
/// workload: an explicit positive thread-count setting wins; otherwise
/// the physical core count, times one and a half (rounded) when the
/// machine exposes more logical than physical cores, clamped to 2..=16.
pub fn optimal_thread_count(
    physical_cores: usize,
    logical_cores: usize,
    env_override: Option<usize>,
) -> (r: usize)
    ensures
        (env_override matches Some(n) && n > 0) ==> r == env_override.unwrap(),
        !(env_override matches Some(n) && n > 0) ==> r == spec_pool_size(
            physical_cores as int,
            logical_cores as int,
        ),
{
    match env_override {
        Some(n) => {
            if n > 0 {
                return n;
            }
        },
        None => {},
    }
    if physical_cores >= 16 {
        return 16;
    }
    let base: usize = if logical_cores > physical_cores {
        (3 * physical_cores + 1) / 2
    } else {
        physical_cores
    };
    if base < 2 {
        2
    } else if base > 16 {
        16
    } else {
        base
    }
}

/// The records a file's lines denote, in line order.
pub open spec fn spec_records_of_lines(lines: Seq<Seq<u8>>) -> Seq<RawRecord>
    decreases lines.len(),
{
    if lines.len() == 0 {
        Seq::empty()
    } else {
        spec_records_of_lines(lines.drop_last()).push(record_of(lines.last()))
    }
}

/// The author type a line's JSON carries under "type", absent for other
/// shapes or a line that is no JSON document; a function of the bytes
/// alone.
pub uninterp spec fn rec_type_of(line: Seq<u8>) -> Option<String>;

/// The message id under "message"."id"; a function of the bytes alone.
pub uninterp spec fn message_id_of(line: Seq<u8>) -> Option<String>;

/// The request id under "request_id", or its camel-case alias; a
/// function of the bytes alone.
pub uninterp spec fn request_id_of(line: Seq<u8>) -> Option<String>;

/// The timestamp string under "timestamp"; a function of the bytes
/// alone.
pub uninterp spec fn timestamp_of(line: Seq<u8>) -> Option<String>;

/// The model name under "message"."model"; a function of the bytes
/// alone.
pub uninterp spec fn model_of(line: Seq<u8>) -> Option<String>;

/// The five token counts of "message"."usage" — input, output, total,
/// cache creation, cache read, each under its name or its vendor alias —
/// absent as a whole when there is no usage object; a function of the
/// bytes alone.
pub uninterp spec fn usage_counts_of(line: Seq<u8>) -> Option<
    (Option<u32>, Option<u32>, Option<u32>, Option<u32>, Option<u32>),
>;

/// The nested token details under "message"."usage"."prompt_tokens_details";
/// a function of the bytes alone.
pub uninterp spec fn usage_details_of(line: Seq<u8>) -> Option<PromptTokensDetails>;

/// The record a log line denotes: the named field readings assembled.
/// A line that is no JSON document reads as a record with every field
/// absent, which nothing downstream keeps.
pub open spec fn record_of(line: Seq<u8>) -> RawRecord {
    RawRecord {
        rec_type: rec_type_of(line),
        message_id: message_id_of(line),
        request_id: request_id_of(line),
        timestamp: timestamp_of(line),
        model: model_of(line),
        usage: match usage_counts_of(line) {
            Some(c) => Some(
                RawUsage {
                    input_tokens: c.0,
                    output_tokens: c.1,
                    total_tokens: c.2,
                    cache_creation_input_tokens: c.3,
                    cache_read_input_tokens: c.4,
                    prompt_tokens_details: usage_details_of(line),
                },
            ),
            None => None,
        },
    }
}

/// The seen-key set after one line: the set after the line's record.
pub open spec fn spec_seen_after_line(line: Seq<u8>, seen: Set<(Seq<char>, Seq<char>)>) -> Set<
    (Seq<char>, Seq<char>),
> {
    spec_seen_after(record_of(line), seen)
}

/// Whether one line's record survives harvesting.
pub open spec fn spec_line_keep(line: Seq<u8>, seen: Set<(Seq<char>, Seq<char>)>) -> bool {
    spec_keep(record_of(line), seen)
}

/// Relies on `serde_json::from_slice::<Value>`, `Value::get` and
/// `Value::as_str`: reads the "type" field, a fixed function of the
/// line's bytes named `rec_type_of`.
#[verifier::external_body]
fn read_rec_type(line: &[u8]) -> (r: Option<String>)
    ensures
        r == rec_type_of(line@),
{
    let v: serde_json::Value = serde_json::from_slice(line).ok()?;
    Some(v.get("type")?.as_str()?.to_string())
}

/// Relies on `serde_json::from_slice::<Value>`, `Value::get` and
/// `Value::as_str`: reads "message"."id", a fixed function of the
/// line's bytes named `message_id_of`.
#[verifier::external_body]
fn read_message_id(line: &[u8]) -> (r: Option<String>)
    ensures
        r == message_id_of(line@),
{
    let v: serde_json::Value = serde_json::from_slice(line).ok()?;
    Some(v.get("message")?.get("id")?.as_str()?.to_string())
}

/// Relies on `serde_json::from_slice::<Value>`, `Value::get` and
/// `Value::as_str`: reads "request_id", falling back to the camel-case
/// alias, a fixed function of the line's bytes named `request_id_of`.
#[verifier::external_body]
fn read_request_id(line: &[u8]) -> (r: Option<String>)
    ensures
        r == request_id_of(line@),
{
    let v: serde_json::Value = serde_json::from_slice(line).ok()?;
    let field = v.get("request_id").or_else(|| v.get("requestId"))?;
    Some(field.as_str()?.to_string())
}

/// Relies on `serde_json::from_slice::<Value>`, `Value::get` and
/// `Value::as_str`: reads "timestamp", a fixed function of the line's
/// bytes named `timestamp_of`.
#[verifier::external_body]
fn read_timestamp(line: &[u8]) -> (r: Option<String>)
    ensures
        r == timestamp_of(line@),
{
    let v: serde_json::Value = serde_json::from_slice(line).ok()?;
    Some(v.get("timestamp")?.as_str()?.to_string())
}

/// Relies on `serde_json::from_slice::<Value>`, `Value::get` and
/// `Value::as_str`: reads "message"."model", a fixed function of the
/// line's bytes named `model_of`.
#[verifier::external_body]
fn read_model(line: &[u8]) -> (r: Option<String>)
    ensures
        r == model_of(line@),
{
    let v: serde_json::Value = serde_json::from_slice(line).ok()?;
    Some(v.get("message")?.get("model")?.as_str()?.to_string())
}

/// Relies on `serde_json::from_slice::<Value>`, `Value::get` and
/// `Value::as_u64`: moves the five token counts out of
/// "message"."usage", each under its name or its vendor alias, counts
/// converted through the checked `u32` conversion — a fixed function of
/// the line's bytes named `usage_counts_of`.
#[verifier::external_body]
fn read_usage_counts(line: &[u8]) -> (r: Option<
    (Option<u32>, Option<u32>, Option<u32>, Option<u32>, Option<u32>),
>)
    ensures
        r == usage_counts_of(line@),
{
    let v: serde_json::Value = serde_json::from_slice(line).ok()?;
    let u = v.get("message")?.get("usage")?;
    let nf = |k: &str| u.get(k).and_then(|x| x.as_u64()).and_then(|n| u32::try_from(n).ok());
    Some((
        nf("input_tokens").or_else(|| nf("prompt_tokens")),
        nf("output_tokens").or_else(|| nf("completion_tokens")),
        nf("total_tokens"),
        nf("cache_creation_input_tokens").or_else(|| nf("cache_creation_prompt_tokens")),
        nf("cache_read_input_tokens").or_else(|| nf("cache_read_prompt_tokens")),
    ))
}

/// Relies on `serde_json::from_slice::<Value>`, `Value::get` and
/// `Value::as_u64`: moves the nested cached and audio token counts out
/// of "prompt_tokens_details" — a fixed function of the line's bytes
/// named `usage_details_of`.
#[verifier::external_body]
fn read_usage_details(line: &[u8]) -> (r: Option<PromptTokensDetails>)
    ensures
        r == usage_details_of(line@),
{
    let v: serde_json::Value = serde_json::from_slice(line).ok()?;
    let d = v.get("message")?.get("usage")?.get("prompt_tokens_details")?;
    let nf = |k: &str| d.get(k).and_then(|x| x.as_u64()).and_then(|n| u32::try_from(n).ok());
    Some(PromptTokensDetails { cached_tokens: nf("cached_tokens"), audio_tokens: nf("audio_tokens") })
}

/// Read one log line into the record it denotes, assembling the named
/// field readings; every policy on the plain values — the author test,
/// deduplication, normalization — stands downstream in verified code.
pub(crate) fn extract_record(line: &[u8]) -> (r: RawRecord)
    ensures
        r == record_of(line@),
{
    let usage: Option<RawUsage> = match read_usage_counts(line) {
        Some(c) => Some(
            RawUsage {
                input_tokens: c.0,
                output_tokens: c.1,
                total_tokens: c.2,
                cache_creation_input_tokens: c.3,
                cache_read_input_tokens: c.4,
                prompt_tokens_details: read_usage_details(line),
            },
        ),
        None => None,
    };
    RawRecord {
        rec_type: read_rec_type(line),
        message_id: read_message_id(line),
        request_id: read_request_id(line),
        timestamp: read_timestamp(line),
        model: read_model(line),
        usage,
    }
}

/// Parse one log line and run it through deduplication: the outcome is
/// exactly that of the record the line denotes — the seen keys advance
/// over it, an entry comes out exactly when it survives, and the entry
/// carries its converted fields.
pub fn parse_line_bytes(line: &[u8], session_id: &str, seen: &mut DedupSet, now: i64) -> (r:
    Option<UsageEntry>)
    ensures
        final(seen)@ == spec_seen_after_line(line@, old(seen)@),
        r is Some <==> spec_line_keep(line@, old(seen)@),
        spec_line_keep(line@, old(seen)@) ==> (r matches Some(e) && spec_entry_matches(
            e,
            record_of(line@),
            session_id@,
            now as int,
        )),
{
    let rec = extract_record(line);
    record_to_entry(&rec, session_id, seen, now)
}

/// Parse one log line given as text; see `parse_line_bytes`.
pub fn parse_line_to_usage(line: &str, session_id: &str, seen: &mut DedupSet, now: i64) -> (r:
    Option<UsageEntry>)
    ensures
        final(seen)@ == spec_seen_after_line(line.spec_bytes(), old(seen)@),
        r is Some <==> spec_line_keep(line.spec_bytes(), old(seen)@),
        spec_line_keep(line.spec_bytes(), old(seen)@) ==> (r matches Some(e)
            && spec_entry_matches(
            e,
            record_of(line.spec_bytes()),
            session_id@,
            now as int,
        )),
{
    parse_line_bytes(line.as_bytes(), session_id, seen, now)
}

/// The lines of a byte buffer: newline-separated pieces, a trailing
/// carriage return stripped from each piece before a newline, empty
/// pieces dropped, and a final piece without a newline taken as it is.
pub open spec fn spec_split_lines(b: Seq<u8>) -> Seq<Seq<u8>>
    decreases b.len(),
    via spec_split_lines_decreases
{
    match spec_find_byte(b, 10, 0) {
        Some(k) => {
            let piece = b.take(k);
            let line = if piece.len() > 0 && piece.last() == 13 {
                piece.drop_last()
            } else {
                piece
            };
            let rest = spec_split_lines(b.skip(k + 1));
            if line.len() > 0 {
                seq![line] + rest
            } else {
                rest
            }
        },
        None => if b.len() > 0 {
            seq![b]
        } else {
            Seq::empty()
        },
    }
}

/// The recursion of line splitting shrinks past each newline found.
#[via_fn]
proof fn spec_split_lines_decreases(b: Seq<u8>) {
    crate::text::lemma_find_byte_range(b, 10, 0);
}

/// Split a byte buffer into its non-empty lines.
pub fn split_lines(bytes: &[u8]) -> (r: Vec<Vec<u8>>)
    ensures
        r.deep_view() == spec_split_lines(bytes@),
{
    let n = bytes.len();
    let mut out: Vec<Vec<u8>> = Vec::new();
    let mut start: usize = 0;
    let mut i: usize = 0;
    proof {
        assert(bytes@.skip(0) =~= bytes@);
        assert(out.deep_view() =~= Seq::<Seq<u8>>::empty());
        assert(spec_split_lines(bytes@) =~= out.deep_view() + spec_split_lines(bytes@.skip(0)));
    }
    while i < n
        invariant
            n == bytes@.len(),
            start <= i <= n,
            spec_split_lines(bytes@) == out.deep_view() + spec_split_lines(
                bytes@.skip(start as int),
            ),
            forall|k: int| start <= k < i ==> bytes@[k] != 10,
        decreases n - i,
    {
        if bytes[i] == 10 {
            proof {
                lemma_skip_find(bytes@, start as int, i as int);
            }
            let ghost pre = out.deep_view();
            let mut end = i;
            if end > start && bytes[end - 1] == 13 {
                end = end - 1;
            }
            if end > start {
                let line = copy_range(bytes, start, end);
                out.push(line);
                proof {
                    assert(out.deep_view() =~~= pre.push(line@));
                    let piece = bytes@.skip(start as int).take(i - start);
                    assert(piece =~= bytes@.subrange(start as int, i as int));
                    let stripped = if piece.len() > 0 && piece.last() == 13 {
                        piece.drop_last()
                    } else {
                        piece
                    };
                    assert(line@ =~= stripped);
                    assert(bytes@.skip(start as int).skip(i - start + 1) =~= bytes@.skip(i + 1));
                    assert(out.deep_view() + spec_split_lines(bytes@.skip(i + 1)) =~~= pre
                        + spec_split_lines(bytes@.skip(start as int)));
                }
            } else {
                proof {
                    let piece = bytes@.skip(start as int).take(i - start);
                    assert(piece =~= bytes@.subrange(start as int, i as int));
                    let stripped = if piece.len() > 0 && piece.last() == 13 {
                        piece.drop_last()
                    } else {
                        piece
                    };
                    assert(stripped.len() == 0);
                    assert(bytes@.skip(start as int).skip(i - start + 1) =~= bytes@.skip(i + 1));
                }
            }
            start = i + 1;
        }
        i = i + 1;
    }
    proof {
        lemma_no_newline_tail(bytes@, start as int);
    }
    if start < n {
        let line = copy_range(bytes, start, n);
        let ghost pre = out.deep_view();
        out.push(line);
        proof {
            assert(line@ =~= bytes@.skip(start as int));
            assert(out.deep_view() =~~= pre.push(line@));
            assert(out.deep_view() =~~= pre + seq![bytes@.skip(start as int)]);
        }
    } else {
        proof {
            assert(bytes@.skip(start as int).len() == 0);
        }
    }
    out
}

/// At a newline with none before it since the scan start, the suffix
/// splits into its first piece and the rest.
proof fn lemma_skip_find(b: Seq<u8>, start: int, i: int)
    requires
        0 <= start <= i < b.len(),
        b[i] == 10,
        forall|k: int| start <= k < i ==> b[k] != 10,
    ensures
        spec_find_byte(b.skip(start), 10, 0) == Some(i - start),
{
    let s = b.skip(start);
    assert(s[i - start] == b[i]);
    assert forall|k: int| 0 <= k < i - start implies s[k] != 10 by {
        assert(s[k] == b[start + k]);
    }
    lemma_find_byte_at(s, 10, 0, i - start);
}

/// A suffix without newlines is a single line, or nothing when empty.
proof fn lemma_no_newline_tail(b: Seq<u8>, start: int)
    requires
        0 <= start <= b.len(),
        forall|k: int| start <= k < b.len() ==> b[k] != 10,
    ensures
        spec_find_byte(b.skip(start), 10, 0) is None,
{
    let s = b.skip(start);
    assert forall|k: int| 0 <= k < s.len() implies s[k] != 10 by {
        assert(s[k] == b[start + k]);
    }
    lemma_find_byte_none(s, 10, 0);
}

/// Copy a byte range out of a slice.
fn copy_range(bytes: &[u8], from: usize, to: usize) -> (r: Vec<u8>)
    requires
        from <= to <= bytes@.len(),
    ensures
        r@ == bytes@.subrange(from as int, to as int),
{
    let mut out: Vec<u8> = Vec::new();
    let mut i: usize = from;
    while i < to
        invariant
            from <= i <= to <= bytes@.len(),
            out@ =~= bytes@.subrange(from as int, i as int),
        decreases to - i,
    {
        out.push(bytes[i]);
        proof {
            assert(out@ =~= bytes@.subrange(from as int, i + 1));
        }
        i = i + 1;
    }
    out
}

/// The last position of a character in a string.
pub open spec fn spec_rfind(s: Seq<char>, c: char) -> Option<int>
    decreases s.len(),
{
    if s.len() == 0 {
        None
    } else if s.last() == c {
        Some(s.len() - 1)
    } else {
        spec_rfind(s.drop_last(), c)
    }
}

/// The file stem of a path string: the part after the last slash, and
/// before the last dot when that dot is not the name's first character.
pub open spec fn spec_file_stem(s: Seq<char>) -> Seq<char> {
    let name_start: int = match spec_rfind(s, '/') {
        Some(k) => k + 1,
        None => 0,
    };
    let name = s.skip(name_start);
    match spec_rfind(name, '.') {
        Some(j) => if j > 0 {
            name.take(j)
        } else {
            name
        },
        None => name,
    }
}

/// The last position of a character, found by a forward scan.
fn rfind_char(s: &str, c: char) -> (r: Option<usize>)
    ensures
        match r {
            Some(k) => k < s@.len() && spec_rfind(s@, c) == Some(k as int),
            None => spec_rfind(s@, c) is None,
        },
{
    let n = s.unicode_len();
    let mut best: Option<usize> = None;
    let mut i: usize = 0;
    proof {
        assert(s@.take(0) =~= Seq::<char>::empty());
    }
    while i < n
        invariant
            n == s@.len(),
            i <= n,
            match best {
                Some(k) => k < i && spec_rfind(s@.take(i as int), c) == Some(k as int),
                None => spec_rfind(s@.take(i as int), c) is None,
            },
        decreases n - i,
    {
        proof {
            assert(s@.take(i + 1).drop_last() =~= s@.take(i as int));
            assert(s@.take(i + 1).last() == s@[i as int]);
        }
        if s.get_char(i) == c {
            best = Some(i);
        }
        i = i + 1;
    }
    proof {
        assert(s@.take(n as int) =~= s@);
    }
    best
}

/// The session identifier a transcript path names: the file's stem, the
/// name "unknown" standing in where the stem is empty.
pub fn extract_session_id(path: &str) -> (r: String)
    ensures
        spec_file_stem(path@).len() > 0 ==> r@ == spec_file_stem(path@),
        spec_file_stem(path@).len() == 0 ==> r@ == "unknown"@,
{
    let n = path.unicode_len();
    let name_start = match rfind_char(path, '/') {
        Some(k) => k + 1,
        None => 0,
    };
    let name = path.substring_char(name_start, n);
    proof {
        assert(name@ =~= path@.skip(name_start as int));
    }
    let name_len = name.unicode_len();
    let stem = match rfind_char(name, '.') {
        Some(j) => {
            if j > 0 {
                name.substring_char(0, j)
            } else {
                name
            }
        },
        None => name,
    };
    proof {
        assert(match spec_rfind(name@, '.') {
            Some(j) => if j > 0 {
                stem@ =~= name@.take(j)
            } else {
                stem@ =~= name@
            },
            None => stem@ =~= name@,
        });
    }
    if stem.unicode_len() == 0 {
        "unknown".to_owned()
    } else {
        stem.to_owned()
    }
}

} // verus!
