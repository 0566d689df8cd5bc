//! The block segmentation engine: partitioning the sorted, priced entry
//! stream into five-hour billing windows. The fixed strategy buckets
//! entries on a five-hour UTC grid and merges adjacent buckets; the
//! dynamic strategy walks entries keeping one open block, closing it when
//! either the block has run five hours or the stream has been idle five
//! hours, emitting an explicit gap block for the idle span, and anchoring
//! block starts on user overrides where one is valid.

use vstd::prelude::*;
use crate::calculator::spec_sum_tokens;
use crate::overrides::{lemma_get_is_entry, BlockOverride, BlockOverrideManager};
use crate::time::{
    day_of, spec_day_of, spec_floor_to_hour, spec_hour_of_day, ts_in_range, ts_stored,
    SECONDS_PER_DAY, SECONDS_PER_HOUR, SESSION_DURATION_SECONDS,
};
use crate::types::{
    clone_usage_entry, sat_add_u64, sort_entries_by_time, spec_entry_total_tokens,
    spec_sat_add_u64, spec_sorted_by_time, BillingBlock, BlockStartSource, UsageEntry,
};

verus! {

/// The start of the five-hour grid window containing `t`: the hour of
/// day floored to a multiple of five, on the same UTC day.
pub open spec fn spec_block_start(t: int) -> int {
    t - t % (SECONDS_PER_DAY as int) + (spec_hour_of_day(t) / 5) * 5 * (SECONDS_PER_HOUR as int)
}

/// The start of the five-hour grid window containing the timestamp: its
/// hour of day is the next multiple of five at or below the timestamp's,
/// and the window covers the timestamp.
pub fn get_block_start(timestamp: i64) -> (r: i64)
    requires
        ts_in_range(timestamp as int),
    ensures
        r == spec_block_start(timestamp as int),
        spec_hour_of_day(r as int) == (spec_hour_of_day(timestamp as int) / 5) * 5,
        r <= timestamp < r + SESSION_DURATION_SECONDS,
        crate::time::MIN_TIMESTAMP - SECONDS_PER_DAY <= r <= crate::time::MAX_TIMESTAMP,
{
    let hour = crate::time::hour_of_day(timestamp);
    let block_hour = (hour / 5) * 5;
    let rem = timestamp_rem_day(timestamp);
    let r = timestamp - rem + block_hour * SECONDS_PER_HOUR;
    proof {
        let t = timestamp as int;
        let rr = t % 86400int;
        let hh = rr / 3600;
        assert(0 <= hh < 24 && hh * 3600 <= rr < hh * 3600 + 3600) by (nonlinear_arith)
            requires
                0 <= rr < 86400,
                hh == rr / 3600,
        ;
        let bh = (hh / 5) * 5;
        assert(bh <= hh < bh + 5 && 0 <= bh <= 20) by (nonlinear_arith)
            requires
                0 <= hh < 24,
                bh == (hh / 5) * 5,
        ;
        assert(bh * 3600 <= rr) by (nonlinear_arith)
            requires
                bh <= hh,
                hh * 3600 <= rr,
        ;
        assert(rr < bh * 3600 + 18000) by (nonlinear_arith)
            requires
                hh < bh + 5,
                rr < hh * 3600 + 3600,
        ;
        let q = t / 86400int;
        assert(t == 86400 * q + rr) by (nonlinear_arith)
            requires
                q == t / 86400int,
                rr == t % 86400int,
        ;
        assert((86400 * q + bh * 3600) % 86400int == bh * 3600) by (nonlinear_arith)
            requires
                0 <= bh * 3600 < 86400,
        ;
        assert((bh * 3600) / 3600int == bh) by (nonlinear_arith);
        assert(spec_hour_of_day(r as int) == bh);
    }
    r
}

/// The timestamp's offset into its UTC day.
fn timestamp_rem_day(timestamp: i64) -> (r: i64)
    ensures
        r == timestamp as int % (SECONDS_PER_DAY as int),
        0 <= r < SECONDS_PER_DAY,
{
    match timestamp.checked_rem_euclid(SECONDS_PER_DAY) {
        Some(q) => q,
        None => {
            proof {
                assert(0 <= (timestamp as int % (SECONDS_PER_DAY as int)) < SECONDS_PER_DAY)
                    by (nonlinear_arith)
                    requires
                        (SECONDS_PER_DAY as int) > 0,
                ;
            }
            0
        },
    }
}

/// The summed per-entry cost of a run of entries, saturating; entries
/// not yet priced contribute nothing.
pub open spec fn spec_block_cost(s: Seq<UsageEntry>) -> int
    decreases s.len(),
{
    if s.len() == 0 {
        0
    } else {
        spec_sat_add_u64(spec_block_cost(s.drop_last()), s.last().cost.unwrap_or(0) as int)
    }
}

/// The distinct session identifiers of a run of entries.
pub open spec fn spec_session_set(s: Seq<UsageEntry>) -> Set<Seq<char>>
    decreases s.len(),
{
    if s.len() == 0 {
        Set::empty()
    } else {
        spec_session_set(s.drop_last()).insert(s.last().session_id@)
    }
}

/// The number of distinct sessions in a run of entries.
pub open spec fn spec_session_count(s: Seq<UsageEntry>) -> int {
    spec_session_set(s).len() as int
}

/// The latest timestamp of a non-empty run of entries.
pub open spec fn spec_max_ts(s: Seq<UsageEntry>) -> int
    decreases s.len(),
{
    if s.len() <= 1 {
        s[0].timestamp as int
    } else if spec_max_ts(s.drop_last()) >= s.last().timestamp {
        spec_max_ts(s.drop_last())
    } else {
        s.last().timestamp as int
    }
}

/// Summed cost of the entries, saturating.
fn block_cost_of(es: &Vec<UsageEntry>) -> (r: u64)
    ensures
        r == spec_block_cost(es@),
{
    let mut acc: u64 = 0;
    let n = es.len();
    let mut i: usize = 0;
    while i < n
        invariant
            n == es@.len(),
            i <= n,
            acc == spec_block_cost(es@.take(i as int)),
        decreases n - i,
    {
        let c = match &es[i].cost {
            Some(c) => *c,
            None => 0,
        };
        acc = sat_add_u64(acc, c);
        proof {
            assert(es@.take(i + 1).drop_last() =~= es@.take(i as int));
            assert(es@.take(i + 1).last() == es@[i as int]);
        }
        i = i + 1;
    }
    proof {
        assert(es@.take(n as int) =~= es@);
    }
    acc
}

/// Summed tokens of the entries, saturating.
fn block_tokens_of(es: &Vec<UsageEntry>) -> (r: u64)
    ensures
        r == spec_sum_tokens(es@),
{
    let mut acc: u64 = 0;
    let n = es.len();
    let mut i: usize = 0;
    while i < n
        invariant
            n == es@.len(),
            i <= n,
            acc == spec_sum_tokens(es@.take(i as int)),
        decreases n - i,
    {
        acc = sat_add_u64(acc, crate::types::entry_total_tokens(&es[i]));
        proof {
            assert(es@.take(i + 1).drop_last() =~= es@.take(i as int));
            assert(es@.take(i + 1).last() == es@[i as int]);
        }
        i = i + 1;
    }
    proof {
        assert(es@.take(n as int) =~= es@);
    }
    acc
}

/// The number of distinct session identifiers among the entries.
fn session_count_of(es: &Vec<UsageEntry>) -> (r: usize)
    ensures
        r == spec_session_count(es@),
{
    broadcast use vstd::set::group_set_axioms;

    let mut seen: Vec<String> = Vec::new();
    let n = es.len();
    let mut i: usize = 0;
    while i < n
        invariant
            n == es@.len(),
            i <= n,
            forall|a: int, b: int| 0 <= a < b < seen@.len() ==> seen@[a]@ != seen@[b]@,
            forall|a: int|
                0 <= a < seen@.len() ==> spec_session_set(es@.take(i as int)).contains(
                    #[trigger] seen@[a]@,
                ),
            forall|x: Seq<char>|
                spec_session_set(es@.take(i as int)).contains(x) ==> exists|a: int|
                    0 <= a < seen@.len() && #[trigger] seen@[a]@ == x,
            spec_session_set(es@.take(i as int)).finite(),
            seen@.len() == spec_session_set(es@.take(i as int)).len(),
        decreases n - i,
    {
        proof {
            assert(es@.take(i + 1).drop_last() =~= es@.take(i as int));
            assert(es@.take(i + 1).last() == es@[i as int]);
        }
        let ghost pre_set = spec_session_set(es@.take(i as int));
        let id = &es[i].session_id;
        let mut found = false;
        let m = seen.len();
        let mut k: usize = 0;
        while k < m
            invariant
                m == seen@.len(),
                k <= m,
                found <==> exists|a: int| 0 <= a < k && #[trigger] seen@[a]@ == id@,
            decreases m - k,
        {
            if !found && crate::text::str_eq(seen[k].as_str(), id.as_str()) {
                found = true;
                proof {
                    assert(seen@[k as int]@ == id@);
                }
            }
            k = k + 1;
        }
        let ghost pre_seen = seen@;
        if !found {
            seen.push(id.clone());
            proof {
                assert(!pre_set.contains(id@)) by {
                    if pre_set.contains(id@) {
                        let a = choose|a: int|
                            0 <= a < pre_seen.len() && #[trigger] pre_seen[a]@ == id@;
                    }
                }
                assert(pre_set.insert(id@).len() == pre_set.len() + 1);
                assert forall|x: Seq<char>| #[trigger]
                    spec_session_set(es@.take(i + 1)).contains(x) implies exists|a: int|
                    0 <= a < seen@.len() && #[trigger] seen@[a]@ == x by {
                    if pre_set.contains(x) {
                        let a = choose|a: int|
                            0 <= a < pre_seen.len() && #[trigger] pre_seen[a]@ == x;
                        assert(seen@[a]@ == x);
                    } else {
                        assert(x == id@);
                        assert(seen@[seen@.len() - 1]@ == x);
                    }
                }
            }
        } else {
            proof {
                let a = choose|a: int| 0 <= a < seen@.len() && #[trigger] seen@[a]@ == id@;
                assert(pre_set.contains(id@));
                assert(pre_set.insert(id@) =~= pre_set);
            }
        }
        i = i + 1;
    }
    proof {
        assert(es@.take(n as int) =~= es@);
    }
    seen.len()
}

/// The latest timestamp among the entries.
fn max_ts_of(es: &Vec<UsageEntry>) -> (r: i64)
    requires
        es@.len() > 0,
    ensures
        r == spec_max_ts(es@),
{
    let mut acc: i64 = es[0].timestamp;
    let n = es.len();
    let mut i: usize = 1;
    while i < n
        invariant
            n == es@.len(),
            1 <= i <= n,
            acc == spec_max_ts(es@.take(i as int)),
        decreases n - i,
    {
        proof {
            assert(es@.take(i + 1).drop_last() =~= es@.take(i as int));
            assert(es@.take(i + 1).last() == es@[i as int]);
        }
        if es[i].timestamp > acc {
            acc = es[i].timestamp;
        }
        i = i + 1;
    }
    proof {
        assert(es@.take(n as int) =~= es@);
    }
    acc
}

/// The block the fixed strategy makes of one grid bucket. A bucket is
/// active exactly when now lies in `[start, end)`: the window is open at
/// its upper boundary, so a block stops being active at the very instant
/// its five hours are up.
pub open spec fn spec_fixed_block(start: int, s: Seq<UsageEntry>, now: int) -> BillingBlock {
    let end = start + SESSION_DURATION_SECONDS;
    let active = start <= now < end;
    BillingBlock {
        start_time: start as i64,
        end_time: end as i64,
        cost: spec_block_cost(s) as u64,
        remaining_minutes: if active {
            ((end - now) / 60) as i64
        } else {
            0
        },
        is_active: active,
        session_count: spec_session_count(s) as usize,
        total_tokens: spec_sum_tokens(s) as u64,
        start_time_source: BlockStartSource::Fixed,
        is_gap: false,
    }
}

/// The fixed strategy's fold state after a prefix of the sorted entries:
/// the closed blocks and the entries of the still-open grid bucket.
pub open spec fn spec_fixed_state(s: Seq<UsageEntry>, now: int) -> (Seq<BillingBlock>, Seq<
    UsageEntry,
>)
    decreases s.len(),
{
    if s.len() == 0 {
        (Seq::empty(), Seq::empty())
    } else {
        let (blocks, run) = spec_fixed_state(s.drop_last(), now);
        let e = s.last();
        if run.len() == 0 {
            (blocks, seq![e])
        } else if spec_block_start(run[0].timestamp as int) == spec_block_start(
            e.timestamp as int,
        ) {
            (blocks, run.push(e))
        } else {
            (
                blocks.push(spec_fixed_block(spec_block_start(run[0].timestamp as int), run, now)),
                seq![e],
            )
        }
    }
}

/// The fixed strategy's blocks over sorted entries, before merging.
pub open spec fn spec_fixed_blocks(s: Seq<UsageEntry>, now: int) -> Seq<BillingBlock> {
    let (blocks, run) = spec_fixed_state(s, now);
    if run.len() == 0 {
        blocks
    } else {
        blocks.push(spec_fixed_block(spec_block_start(run[0].timestamp as int), run, now))
    }
}

/// Two adjacent blocks merged into one: the union of the two windows,
/// summed cost and tokens, the larger session count, active when either
/// was, and the later block's remaining minutes when it is the active
/// one.
pub open spec fn spec_merged_pair(a: BillingBlock, b: BillingBlock) -> BillingBlock {
    BillingBlock {
        start_time: a.start_time,
        end_time: b.end_time,
        cost: spec_sat_add_u64(a.cost as int, b.cost as int) as u64,
        remaining_minutes: if b.is_active {
            b.remaining_minutes
        } else {
            a.remaining_minutes
        },
        is_active: a.is_active || b.is_active,
        session_count: if a.session_count >= b.session_count {
            a.session_count
        } else {
            b.session_count
        },
        total_tokens: spec_sat_add_u64(a.total_tokens as int, b.total_tokens as int) as u64,
        start_time_source: a.start_time_source,
        is_gap: a.is_gap,
    }
}

/// Blocks with chronologically adjacent windows folded together: a block
/// whose window begins exactly where the previous merged block's window
/// ends is absorbed into it.
pub open spec fn spec_merge_blocks(bs: Seq<BillingBlock>) -> Seq<BillingBlock>
    decreases bs.len(),
{
    if bs.len() <= 1 {
        bs
    } else {
        let p = spec_merge_blocks(bs.drop_last());
        let b = bs.last();
        if p.len() > 0 && p.last().end_time == b.start_time {
            p.drop_last().push(spec_merged_pair(p.last(), b))
        } else {
            p.push(b)
        }
    }
}

/// Copy one billing block.
pub fn clone_block(b: &BillingBlock) -> (r: BillingBlock)
    ensures
        r == *b,
{
    BillingBlock {
        start_time: b.start_time,
        end_time: b.end_time,
        cost: b.cost,
        remaining_minutes: b.remaining_minutes,
        is_active: b.is_active,
        session_count: b.session_count,
        total_tokens: b.total_tokens,
        start_time_source: b.start_time_source,
        is_gap: b.is_gap,
    }
}

/// Merge chronologically adjacent blocks, left to right.
pub fn merge_consecutive_blocks(blocks: Vec<BillingBlock>) -> (r: Vec<BillingBlock>)
    ensures
        r@ == spec_merge_blocks(blocks@),
{
    if blocks.len() <= 1 {
        return blocks;
    }
    let n = blocks.len();
    let mut out: Vec<BillingBlock> = Vec::new();
    let mut current = clone_block(&blocks[0]);
    let mut i: usize = 1;
    proof {
        assert(blocks@.take(1).drop_last() =~= Seq::<BillingBlock>::empty());
        assert(blocks@.take(1) =~= Seq::<BillingBlock>::empty().push(blocks@[0]));
        assert(spec_merge_blocks(blocks@.take(1)) =~= out@.push(current));
    }
    while i < n
        invariant
            n == blocks@.len(),
            1 <= i <= n,
            spec_merge_blocks(blocks@.take(i as int)) =~= out@.push(current),
        decreases n - i,
    {
        proof {
            assert(blocks@.take(i + 1).drop_last() =~= blocks@.take(i as int));
            assert(blocks@.take(i + 1).last() == blocks@[i as int]);
        }
        let b = &blocks[i];
        if b.start_time == current.end_time {
            let merged = BillingBlock {
                start_time: current.start_time,
                end_time: b.end_time,
                cost: sat_add_u64(current.cost, b.cost),
                remaining_minutes: if b.is_active {
                    b.remaining_minutes
                } else {
                    current.remaining_minutes
                },
                is_active: current.is_active || b.is_active,
                session_count: if current.session_count >= b.session_count {
                    current.session_count
                } else {
                    b.session_count
                },
                total_tokens: sat_add_u64(current.total_tokens, b.total_tokens),
                start_time_source: current.start_time_source,
                is_gap: current.is_gap,
            };
            proof {
                assert(out@.push(current).drop_last() =~= out@);
                assert(out@.push(current).last() == current);
            }
            current = merged;
            proof {
                assert(spec_merge_blocks(blocks@.take(i + 1)) =~= out@.push(current));
            }
        } else {
            proof {
                assert(out@.push(current).drop_last() =~= out@);
                assert(out@.push(current).last() == current);
            }
            out.push(current);
            current = clone_block(b);
            proof {
                assert(spec_merge_blocks(blocks@.take(i + 1)) =~= out@.push(current));
            }
        }
        i = i + 1;
    }
    out.push(current);
    proof {
        assert(blocks@.take(n as int) =~= blocks@);
    }
    out
}

/// Two blocks where the first ends exactly where the second starts merge
/// into a single block spanning both windows, whose cost and token total
/// are the sums of the two.
pub proof fn law_adjacent_blocks_merge(a: BillingBlock, b: BillingBlock)
    requires
        a.end_time == b.start_time,
    ensures
        spec_merge_blocks(seq![a, b]) == seq![spec_merged_pair(a, b)],
        spec_merge_blocks(seq![a, b])[0].cost == spec_sat_add_u64(a.cost as int, b.cost as int),
        spec_merge_blocks(seq![a, b])[0].total_tokens == spec_sat_add_u64(
            a.total_tokens as int,
            b.total_tokens as int,
        ),
        spec_merge_blocks(seq![a, b])[0].start_time == a.start_time,
        spec_merge_blocks(seq![a, b])[0].end_time == b.end_time,
{
    let s = seq![a, b];
    assert(s.drop_last() =~= seq![a]);
    assert(spec_merge_blocks(seq![a]) == seq![a]);
    assert(spec_merge_blocks(s) =~= seq![a].drop_last().push(spec_merged_pair(a, b)));
    assert(seq![a].drop_last().push(spec_merged_pair(a, b)) =~= seq![spec_merged_pair(a, b)]);
}

/// The fixed strategy: sort the entries, bucket them on the five-hour
/// grid, aggregate each bucket, and merge adjacent buckets. On input
/// that is already time-sorted — as the harvester produces it — the
/// result is exactly the merged grid blocks of that sequence; any input
/// is treated as its time-sorted permutation.
pub fn identify_session_blocks(entries: &Vec<UsageEntry>, now: i64) -> (r: Vec<BillingBlock>)
    requires
        ts_in_range(now as int),
        forall|k: int|
            0 <= k < entries@.len() ==> ts_in_range((#[trigger] entries@[k]).timestamp as int),
    ensures
        spec_sorted_by_time(entries@) ==> r@ == spec_merge_blocks(
            spec_fixed_blocks(entries@, now as int),
        ),
        exists|es: Seq<UsageEntry>|
            #[trigger] es.to_multiset() == entries@.to_multiset() && spec_sorted_by_time(es)
                && r@ == spec_merge_blocks(spec_fixed_blocks(es, now as int)),
{
    if entries.len() == 0 {
        let r: Vec<BillingBlock> = Vec::new();
        proof {
            assert(spec_sorted_by_time(entries@));
            assert(spec_fixed_state(entries@, now as int).0 =~= Seq::<BillingBlock>::empty());
            assert(r@ =~= spec_merge_blocks(spec_fixed_blocks(entries@, now as int)));
            let ghost es = entries@;
            assert(es.to_multiset() == entries@.to_multiset() && spec_sorted_by_time(es) && r@
                == spec_merge_blocks(spec_fixed_blocks(es, now as int)));
        }
        return r;
    }
    let sorted = sort_entries_by_time(entries);
    proof {
        assert forall|k: int| 0 <= k < sorted@.len() implies ts_in_range(
            (#[trigger] sorted@[k]).timestamp as int,
        ) by {
            broadcast use vstd::seq_lib::group_to_multiset_ensures;

            assert(sorted@.contains(sorted@[k]));
            assert(sorted@.to_multiset().count(sorted@[k]) > 0);
            assert(entries@.to_multiset().count(sorted@[k]) > 0);
            assert(entries@.contains(sorted@[k]));
            let j = choose|j: int| 0 <= j < entries@.len() && entries@[j] == sorted@[k];
        }
    }
    let n = sorted.len();
    let mut blocks: Vec<BillingBlock> = Vec::new();
    let mut run: Vec<UsageEntry> = Vec::new();
    let mut run_start: i64 = 0;
    let mut i: usize = 0;
    while i < n
        invariant
            n == sorted@.len(),
            i <= n,
            ts_in_range(now as int),
            forall|k: int|
                0 <= k < sorted@.len() ==> ts_in_range((#[trigger] sorted@[k]).timestamp as int),
            spec_fixed_state(sorted@.take(i as int), now as int) == (blocks@, run@),
            run@.len() > 0 ==> run_start == spec_block_start(run@[0].timestamp as int),
            run@.len() > 0 ==> crate::time::MIN_TIMESTAMP - SECONDS_PER_DAY <= run_start
                <= crate::time::MAX_TIMESTAMP,
        decreases n - i,
    {
        proof {
            assert(sorted@.take(i + 1).drop_last() =~= sorted@.take(i as int));
            assert(sorted@.take(i + 1).last() == sorted@[i as int]);
        }
        let e = &sorted[i];
        let ebs = get_block_start(e.timestamp);
        if run.len() == 0 {
            run.push(clone_usage_entry(e));
            run_start = ebs;
            proof {
                assert(run@ =~= Seq::<UsageEntry>::empty().push(sorted@[i as int]));
                assert(run@ =~= seq![sorted@[i as int]]);
            }
        } else if ebs == run_start {
            run.push(clone_usage_entry(e));
        } else {
            let block = build_fixed_block(run_start, &run, now);
            blocks.push(block);
            let mut new_run: Vec<UsageEntry> = Vec::new();
            new_run.push(clone_usage_entry(e));
            run = new_run;
            run_start = ebs;
            proof {
                assert(run@ =~= seq![sorted@[i as int]]);
            }
        }
        i = i + 1;
    }
    proof {
        assert(sorted@.take(n as int) =~= sorted@);
    }
    let result = if run.len() == 0 {
        blocks
    } else {
        let block = build_fixed_block(run_start, &run, now);
        let mut blocks2 = blocks;
        blocks2.push(block);
        blocks2
    };
    let merged = merge_consecutive_blocks(result);
    proof {
        if spec_sorted_by_time(entries@) {
            assert(sorted@ == entries@);
        }
        assert(sorted@.to_multiset() == entries@.to_multiset() && spec_sorted_by_time(sorted@)
            && merged@ == spec_merge_blocks(spec_fixed_blocks(sorted@, now as int)));
    }
    merged
}

/// Build the aggregated block of one grid bucket.
fn build_fixed_block(start: i64, es: &Vec<UsageEntry>, now: i64) -> (r: BillingBlock)
    requires
        crate::time::MIN_TIMESTAMP - SECONDS_PER_DAY <= start <= crate::time::MAX_TIMESTAMP,
        ts_in_range(now as int),
    ensures
        r == spec_fixed_block(start as int, es@, now as int),
{
    let end = start + SESSION_DURATION_SECONDS;
    let active = start <= now && now < end;
    let remaining: i64 = if active {
        (end - now) / 60
    } else {
        0
    };
    BillingBlock {
        start_time: start,
        end_time: end,
        cost: block_cost_of(es),
        remaining_minutes: remaining,
        is_active: active,
        session_count: session_count_of(es),
        total_tokens: block_tokens_of(es),
        start_time_source: BlockStartSource::Fixed,
        is_gap: false,
    }
}

/// The first active block of a list, if any.
pub open spec fn spec_first_active(s: Seq<BillingBlock>) -> Option<BillingBlock>
    decreases s.len(),
{
    if s.len() == 0 {
        None
    } else if s[0].is_active {
        Some(s[0])
    } else {
        spec_first_active(s.skip(1))
    }
}

/// The first active block, if any.
pub fn find_active_block(blocks: &Vec<BillingBlock>) -> (r: Option<&BillingBlock>)
    ensures
        match spec_first_active(blocks@) {
            Some(b) => r matches Some(q) && *q == b,
            None => r is None,
        },
        r matches Some(b) ==> b.is_active,
{
    let n = blocks.len();
    let mut i: usize = 0;
    proof {
        assert(blocks@.skip(0) =~= blocks@);
    }
    while i < n
        invariant
            n == blocks@.len(),
            i <= n,
            spec_first_active(blocks@) == spec_first_active(blocks@.skip(i as int)),
        decreases n - i,
    {
        proof {
            assert(blocks@.skip(i as int)[0] == blocks@[i as int]);
            assert(blocks@.skip(i as int).skip(1) =~= blocks@.skip(i + 1));
        }
        if blocks[i].is_active {
            return Some(&blocks[i]);
        }
        i = i + 1;
    }
    proof {
        assert(blocks@.skip(n as int).len() == 0);
    }
    None
}

/// The dynamic strategy's anchor for a block opened at an entry: a still
/// valid override for the entry's UTC calendar day — valid only when the
/// entry arrives within the five-hour window after the override's start —
/// or, failing that, the entry's timestamp floored to the hour.
pub open spec fn spec_anchor(mgr: BlockOverrideManager, t: int) -> int {
    match mgr.spec_get(spec_day_of(t)) {
        Some(ov) => if 0 <= t - ov.start_time < SESSION_DURATION_SECONDS {
            ov.start_time as int
        } else {
            spec_floor_to_hour(t)
        },
        None => spec_floor_to_hour(t),
    }
}

/// Where a closed block's start came from: manual exactly when the
/// block's anchor came from a user override — one exists for the first
/// entry's day and that entry arrived within the five-hour window after
/// the override's start, the same validity test the anchor makes — and
/// automatic detection otherwise.
pub open spec fn spec_source(mgr: BlockOverrideManager, first_ts: int) -> BlockStartSource {
    match mgr.spec_get(spec_day_of(first_ts)) {
        Some(ov) => if 0 <= first_ts - ov.start_time < SESSION_DURATION_SECONDS {
            BlockStartSource::Manual
        } else {
            BlockStartSource::Auto
        },
        None => BlockStartSource::Auto,
    }
}

/// The block the dynamic strategy makes of one run of entries. It is
/// active when the most recent entry lies within five hours of now and
/// now is before the block's nominal end; here the window is open at its
/// upper boundary, as in the fixed strategy.
pub open spec fn spec_dynamic_block(
    start: int,
    es: Seq<UsageEntry>,
    now: int,
    source: BlockStartSource,
) -> BillingBlock {
    let end = start + SESSION_DURATION_SECONDS;
    let actual_end = spec_max_ts(es);
    let active = now - actual_end < SESSION_DURATION_SECONDS && now < end;
    BillingBlock {
        start_time: start as i64,
        end_time: end as i64,
        cost: spec_block_cost(es) as u64,
        remaining_minutes: if active {
            ((end - now) / 60) as i64
        } else {
            0
        },
        is_active: active,
        session_count: spec_session_count(es) as usize,
        total_tokens: spec_sum_tokens(es) as u64,
        start_time_source: source,
        is_gap: false,
    }
}

/// The synthetic zero-activity block spanning an idle interval.
pub open spec fn spec_gap_block(gap_start: int, gap_end: int) -> BillingBlock {
    BillingBlock {
        start_time: gap_start as i64,
        end_time: gap_end as i64,
        cost: 0,
        remaining_minutes: 0,
        is_active: false,
        session_count: 0,
        total_tokens: 0,
        start_time_source: BlockStartSource::Auto,
        is_gap: true,
    }
}

/// One step of the dynamic walk: the first entry opens a block at its
/// anchor; a later entry closes the open block when either five hours
/// have passed since the block's anchor or since the previous entry (the
/// dual-condition trigger), emitting a gap block for an idle interval,
/// and opens a new block at its own anchor; otherwise it joins the open
/// block.
pub open spec fn spec_dyn_step(
    state: (Seq<BillingBlock>, Option<(i64, Seq<UsageEntry>)>),
    e: UsageEntry,
    mgr: BlockOverrideManager,
    now: int,
) -> (Seq<BillingBlock>, Option<(i64, Seq<UsageEntry>)>) {
    let (blocks, open) = state;
    match open {
        None => (blocks, Some((spec_anchor(mgr, e.timestamp as int) as i64, seq![e]))),
        Some((bs, es)) => {
            let last_ts = es.last().timestamp as int;
            if e.timestamp - bs > SESSION_DURATION_SECONDS || e.timestamp - last_ts
                > SESSION_DURATION_SECONDS {
                let closed = blocks.push(
                    spec_dynamic_block(
                        bs as int,
                        es,
                        now,
                        spec_source(mgr, es[0].timestamp as int),
                    ),
                );
                let with_gap = if e.timestamp - last_ts > SESSION_DURATION_SECONDS {
                    closed.push(
                        spec_gap_block(last_ts + SESSION_DURATION_SECONDS, e.timestamp as int),
                    )
                } else {
                    closed
                };
                (with_gap, Some((spec_anchor(mgr, e.timestamp as int) as i64, seq![e])))
            } else {
                (blocks, Some((bs, es.push(e))))
            }
        },
    }
}

/// The dynamic walk's state after a prefix of the sorted entries.
pub open spec fn spec_dyn_state(s: Seq<UsageEntry>, mgr: BlockOverrideManager, now: int) -> (Seq<
    BillingBlock,
>, Option<(i64, Seq<UsageEntry>)>)
    decreases s.len(),
{
    if s.len() == 0 {
        (Seq::empty(), None)
    } else {
        spec_dyn_step(spec_dyn_state(s.drop_last(), mgr, now), s.last(), mgr, now)
    }
}

/// The dynamic strategy's blocks over sorted entries: the walk's closed
/// blocks, with the still-open block closed at the end.
pub open spec fn spec_dynamic_blocks(
    s: Seq<UsageEntry>,
    mgr: BlockOverrideManager,
    now: int,
) -> Seq<BillingBlock> {
    let (blocks, open) = spec_dyn_state(s, mgr, now);
    match open {
        None => blocks,
        Some((bs, es)) => blocks.push(
            spec_dynamic_block(bs as int, es, now, spec_source(mgr, es[0].timestamp as int)),
        ),
    }
}

/// The anchor of a block opened at timestamp `t`.
fn anchor_for(mgr: &BlockOverrideManager, t: i64) -> (r: i64)
    requires
        mgr.wf(),
        ts_in_range(t as int),
    ensures
        r == spec_anchor(*mgr, t as int),
        ts_stored(r as int),
{
    let d = day_of(t);
    match mgr.get_override(d) {
        Some(ov) => {
            proof {
                lemma_get_is_entry(mgr.overrides@, d as int);
                let k = choose|k: int|
                    0 <= k < mgr.overrides@.len() && (#[trigger] mgr.overrides@[k]).0 == d as int
                        && mgr.overrides@[k].1 == mgr.spec_get(d as int).unwrap();
                assert(ts_stored(mgr.overrides@[k].1.start_time as int));
            }
            if t >= ov.start_time && t - ov.start_time < SESSION_DURATION_SECONDS {
                ov.start_time
            } else {
                crate::time::floor_to_hour(t)
            }
        },
        None => crate::time::floor_to_hour(t),
    }
}

/// Where a block whose first entry is at `t` got its start: manual only
/// when an override for that day actually supplied the anchor.
fn source_for(mgr: &BlockOverrideManager, t: i64) -> (r: BlockStartSource)
    requires
        mgr.wf(),
        ts_in_range(t as int),
    ensures
        r == spec_source(*mgr, t as int),
{
    let d = day_of(t);
    match mgr.get_override(d) {
        Some(ov) => {
            proof {
                lemma_get_is_entry(mgr.overrides@, d as int);
                let k = choose|k: int|
                    0 <= k < mgr.overrides@.len() && (#[trigger] mgr.overrides@[k]).0 == d as int
                        && mgr.overrides@[k].1 == mgr.spec_get(d as int).unwrap();
                assert(ts_stored(mgr.overrides@[k].1.start_time as int));
            }
            if t >= ov.start_time && t - ov.start_time < SESSION_DURATION_SECONDS {
                BlockStartSource::Manual
            } else {
                BlockStartSource::Auto
            }
        },
        None => BlockStartSource::Auto,
    }
}

/// Build the aggregated block the dynamic strategy closes.
pub fn create_dynamic_block(
    start: i64,
    es: &Vec<UsageEntry>,
    now: i64,
    source: BlockStartSource,
) -> (r: BillingBlock)
    requires
        es@.len() > 0,
        ts_stored(start as int),
        ts_in_range(now as int),
        forall|k: int| 0 <= k < es@.len() ==> ts_in_range((#[trigger] es@[k]).timestamp as int),
    ensures
        r == spec_dynamic_block(start as int, es@, now as int, source),
{
    let end = start + SESSION_DURATION_SECONDS;
    let actual_end = max_ts_of(es);
    proof {
        lemma_max_ts_in_range(es@);
    }
    let active = now - actual_end < SESSION_DURATION_SECONDS && now < end;
    let remaining: i64 = if active {
        (end - now) / 60
    } else {
        0
    };
    BillingBlock {
        start_time: start,
        end_time: end,
        cost: block_cost_of(es),
        remaining_minutes: remaining,
        is_active: active,
        session_count: session_count_of(es),
        total_tokens: block_tokens_of(es),
        start_time_source: source,
        is_gap: false,
    }
}

/// The latest timestamp of a run of in-range entries is in range.
proof fn lemma_max_ts_in_range(s: Seq<UsageEntry>)
    requires
        s.len() > 0,
        forall|k: int| 0 <= k < s.len() ==> ts_in_range((#[trigger] s[k]).timestamp as int),
    ensures
        ts_in_range(spec_max_ts(s)),
    decreases s.len(),
{
    if s.len() > 1 {
        lemma_max_ts_in_range(s.drop_last());
    }
}

/// Build the synthetic block spanning an idle interval, which is always
/// a positive span: a gap exists only between an earlier and a later
/// instant.
pub fn create_gap_block(gap_start: i64, gap_end: i64) -> (r: BillingBlock)
    requires
        gap_start < gap_end,
    ensures
        r == spec_gap_block(gap_start as int, gap_end as int),
        r.end_time > r.start_time,
{
    BillingBlock {
        start_time: gap_start,
        end_time: gap_end,
        cost: 0,
        remaining_minutes: 0,
        is_active: false,
        session_count: 0,
        total_tokens: 0,
        start_time_source: BlockStartSource::Auto,
        is_gap: true,
    }
}

/// The dynamic strategy: walk the time-sorted entries keeping one open
/// block, closing it on the dual-condition trigger and recording gaps.
/// On input that is already time-sorted the result is exactly the walk
/// over that sequence; any input is treated as its sorted permutation.
pub fn identify_dynamic_blocks(
    entries: &Vec<UsageEntry>,
    override_manager: &BlockOverrideManager,
    now: i64,
) -> (r: Vec<BillingBlock>)
    requires
        override_manager.wf(),
        ts_in_range(now as int),
        forall|k: int|
            0 <= k < entries@.len() ==> ts_in_range((#[trigger] entries@[k]).timestamp as int),
    ensures
        spec_sorted_by_time(entries@) ==> r@ == spec_dynamic_blocks(
            entries@,
            *override_manager,
            now as int,
        ),
        exists|es: Seq<UsageEntry>|
            #[trigger] es.to_multiset() == entries@.to_multiset() && spec_sorted_by_time(es)
                && r@ == spec_dynamic_blocks(es, *override_manager, now as int),
{
    let sorted = sort_entries_by_time(entries);
    proof {
        lemma_perm_ts_in_range(entries@, sorted@);
    }
    let n = sorted.len();
    let mut blocks: Vec<BillingBlock> = Vec::new();
    let mut cur: Vec<UsageEntry> = Vec::new();
    let mut cur_start: i64 = 0;
    let mut has_open: bool = false;
    let mut i: usize = 0;
    while i < n
        invariant
            n == sorted@.len(),
            i <= n,
            override_manager.wf(),
            ts_in_range(now as int),
            forall|k: int|
                0 <= k < sorted@.len() ==> ts_in_range((#[trigger] sorted@[k]).timestamp as int),
            spec_dyn_state(sorted@.take(i as int), *override_manager, now as int) == (
                blocks@,
                if has_open {
                    Some((cur_start, cur@))
                } else {
                    None::<(i64, Seq<UsageEntry>)>
                },
            ),
            has_open ==> cur@.len() > 0,
            !has_open ==> cur@.len() == 0,
            has_open ==> ts_stored(cur_start as int),
            forall|k: int| 0 <= k < cur@.len() ==> ts_in_range((#[trigger] cur@[k]).timestamp as int),
        decreases n - i,
    {
        proof {
            assert(sorted@.take(i + 1).drop_last() =~= sorted@.take(i as int));
            assert(sorted@.take(i + 1).last() == sorted@[i as int]);
        }
        let e = &sorted[i];
        if !has_open {
            cur.push(clone_usage_entry(e));
            cur_start = anchor_for(override_manager, e.timestamp);
            has_open = true;
            proof {
                assert(cur@ =~= seq![sorted@[i as int]]);
            }
        } else {
            let last_ts = cur[cur.len() - 1].timestamp;
            proof {
                assert(cur@.last() == cur@[cur@.len() - 1]);
            }
            if e.timestamp - cur_start > SESSION_DURATION_SECONDS || e.timestamp - last_ts
                > SESSION_DURATION_SECONDS {
                let src = source_for(override_manager, cur[0].timestamp);
                let block = create_dynamic_block(cur_start, &cur, now, src);
                blocks.push(block);
                if e.timestamp - last_ts > SESSION_DURATION_SECONDS {
                    let gap = create_gap_block(last_ts + SESSION_DURATION_SECONDS, e.timestamp);
                    blocks.push(gap);
                }
                let mut new_cur: Vec<UsageEntry> = Vec::new();
                new_cur.push(clone_usage_entry(e));
                cur = new_cur;
                cur_start = anchor_for(override_manager, e.timestamp);
                proof {
                    assert(cur@ =~= seq![sorted@[i as int]]);
                }
            } else {
                cur.push(clone_usage_entry(e));
            }
        }
        i = i + 1;
    }
    proof {
        assert(sorted@.take(n as int) =~= sorted@);
    }
    let result = if has_open {
        let src = source_for(override_manager, cur[0].timestamp);
        let block = create_dynamic_block(cur_start, &cur, now, src);
        let mut blocks2 = blocks;
        blocks2.push(block);
        blocks2
    } else {
        blocks
    };
    proof {
        if spec_sorted_by_time(entries@) {
            assert(sorted@ == entries@);
        }
        assert(sorted@.to_multiset() == entries@.to_multiset() && spec_sorted_by_time(sorted@)
            && result@ == spec_dynamic_blocks(sorted@, *override_manager, now as int));
    }
    result
}

/// Identify blocks with override support: the dynamic dual-condition
/// walk, consulting the given override store. Empty input yields no
/// blocks.
pub fn identify_session_blocks_with_overrides(
    entries: &Vec<UsageEntry>,
    override_manager: &BlockOverrideManager,
    now: i64,
) -> (r: Vec<BillingBlock>)
    requires
        override_manager.wf(),
        ts_in_range(now as int),
        forall|k: int|
            0 <= k < entries@.len() ==> ts_in_range((#[trigger] entries@[k]).timestamp as int),
    ensures
        spec_sorted_by_time(entries@) ==> r@ == spec_dynamic_blocks(
            entries@,
            *override_manager,
            now as int,
        ),
        entries@.len() == 0 ==> r@.len() == 0,
        exists|es: Seq<UsageEntry>|
            #[trigger] es.to_multiset() == entries@.to_multiset() && spec_sorted_by_time(es)
                && r@ == spec_dynamic_blocks(es, *override_manager, now as int),
{
    identify_dynamic_blocks(entries, override_manager, now)
}

/// Entries of a permuted sequence stay within the calendar range.
proof fn lemma_perm_ts_in_range(a: Seq<UsageEntry>, b: Seq<UsageEntry>)
    requires
        a.to_multiset() == b.to_multiset(),
        forall|k: int| 0 <= k < a.len() ==> ts_in_range((#[trigger] a[k]).timestamp as int),
    ensures
        forall|k: int| 0 <= k < b.len() ==> ts_in_range((#[trigger] b[k]).timestamp as int),
{
    broadcast use vstd::seq_lib::group_to_multiset_ensures;

    assert forall|k: int| 0 <= k < b.len() implies ts_in_range(
        (#[trigger] b[k]).timestamp as int,
    ) by {
        assert(b.contains(b[k]));
        assert(b.to_multiset().count(b[k]) > 0);
        assert(a.to_multiset().count(b[k]) > 0);
        assert(a.contains(b[k]));
        let j = choose|j: int| 0 <= j < a.len() && a[j] == b[k];
    }
}

/// Every gap block the dynamic walk ever emits spans a positive idle
/// interval: a gap is only recorded when the idle time exceeded the
/// five-hour window, so its end lies strictly after its start.
pub proof fn law_gap_blocks_positive(s: Seq<UsageEntry>, mgr: BlockOverrideManager, now: int)
    ensures
        forall|k: int|
            0 <= k < spec_dynamic_blocks(s, mgr, now).len() && (#[trigger] spec_dynamic_blocks(
                s,
                mgr,
                now,
            )[k]).is_gap ==> spec_dynamic_blocks(s, mgr, now)[k].end_time > spec_dynamic_blocks(
                s,
                mgr,
                now,
            )[k].start_time,
{
    lemma_dyn_state_gaps(s, mgr, now);
    let (blocks, open) = spec_dyn_state(s, mgr, now);
    match open {
        None => {},
        Some((bs, es)) => {
            assert(spec_dynamic_blocks(s, mgr, now).drop_last() =~= blocks);
        },
    }
}

/// All closed blocks of the dynamic walk state satisfy the gap bound,
/// and any gap block's timestamps come from in-walk arithmetic that
/// makes its span positive.
proof fn lemma_dyn_state_gaps(s: Seq<UsageEntry>, mgr: BlockOverrideManager, now: int)
    ensures
        forall|k: int|
            0 <= k < spec_dyn_state(s, mgr, now).0.len() && (#[trigger] spec_dyn_state(
                s,
                mgr,
                now,
            ).0[k]).is_gap ==> spec_dyn_state(s, mgr, now).0[k].end_time > spec_dyn_state(
                s,
                mgr,
                now,
            ).0[k].start_time,
    decreases s.len(),
{
    if s.len() > 0 {
        lemma_dyn_state_gaps(s.drop_last(), mgr, now);
    }
}

/// The blocks whose windows began at or after the cutoff, in order.
pub open spec fn spec_recent_blocks(s: Seq<BillingBlock>, cutoff: int) -> Seq<BillingBlock>
    decreases s.len(),
{
    if s.len() == 0 {
        Seq::empty()
    } else {
        let p = spec_recent_blocks(s.drop_last(), cutoff);
        if s.last().start_time >= cutoff {
            p.push(s.last())
        } else {
            p
        }
    }
}

/// The blocks whose windows began within the last `days` days.
pub fn get_recent_blocks(blocks: &Vec<BillingBlock>, days: i64, now: i64) -> (r: Vec<BillingBlock>)
    requires
        ts_in_range(now as int),
        0 <= days <= 100000,
    ensures
        r@ == spec_recent_blocks(blocks@, now - days * SECONDS_PER_DAY),
{
    proof {
        assert(0 <= days * (SECONDS_PER_DAY as int) <= 100000 * 86400) by (nonlinear_arith)
            requires
                0 <= days <= 100000,
        ;
    }
    let cutoff: i64 = now - days * SECONDS_PER_DAY;
    let n = blocks.len();
    let mut out: Vec<BillingBlock> = Vec::new();
    let mut i: usize = 0;
    while i < n
        invariant
            n == blocks@.len(),
            i <= n,
            cutoff == now - days * SECONDS_PER_DAY,
            out@ =~= spec_recent_blocks(blocks@.take(i as int), cutoff as int),
        decreases n - i,
    {
        proof {
            assert(blocks@.take(i + 1).drop_last() =~= blocks@.take(i as int));
            assert(blocks@.take(i + 1).last() == blocks@[i as int]);
        }
        if blocks[i].start_time >= cutoff {
            out.push(clone_block(&blocks[i]));
        }
        i = i + 1;
    }
    proof {
        assert(blocks@.take(n as int) =~= blocks@);
    }
    out
}

} // verus!
