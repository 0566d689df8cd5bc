//! The override store: per-calendar-day manual block-start pins. The
//! store itself is a map from day number (days since the epoch, UTC) to
//! an override record; reading and writing the backing file is the
//! application's concern, as is converting day numbers to date strings.

use vstd::prelude::*;
use vstd::string::StringSliceAdditionalSpecFns;
use crate::text::{parse_u32_digits, spec_all_digits, spec_digits_value, spec_find_byte};
use crate::time::{
    day_of, floor_to_hour, parse_rfc3339_utc, rfc3339_epoch, spec_day_of, spec_floor_to_hour,
    ts_in_range, SECONDS_PER_DAY, SECONDS_PER_HOUR,
};

verus! {

/// A manual block-start pin for one calendar day.
#[derive(Debug, Clone, PartialEq)]
pub struct BlockOverride {
    /// Block start time, UTC, floored to the hour.
    pub start_time: i64,
    /// Where the override came from, such as "manual".
    pub source: String,
    /// When the override was created.
    pub created_at: i64,
    /// Free-form notes.
    pub notes: Option<String>,
}

impl BlockOverride {
    /// A new override record created at `now`.
    pub fn new(start_time: i64, source: String, notes: Option<String>, now: i64) -> (r: Self)
        ensures
            r.start_time == start_time,
            r.source == source,
            r.created_at == now,
            r.notes == notes,
    {
        BlockOverride { start_time, source, created_at: now, notes }
    }
}

/// The distinct failures of override handling: the three time-input
/// rejections, a future time, and the two storage-level failures that the
/// application reports into the store's error type.
#[derive(Debug, Clone, PartialEq)]
pub enum BlockOverrideError {
    InvalidFormat,
    HourOutOfRange,
    TimeOutOfRange,
    FutureTime,
    FileAccess(String),
    CorruptedConfig(String),
}

impl BlockOverrideError {
    /// The user-facing description of the error.
    pub fn message(&self) -> (r: String)
        ensures
            self is InvalidFormat ==> r@ == "Invalid time format. Expected: hour (0-23), HH:MM, or ISO timestamp"@,
            self is HourOutOfRange ==> r@ == "Hour must be between 0 and 23"@,
            self is TimeOutOfRange ==> r@ == "Time values out of range"@,
            self is FutureTime ==> r@ == "Cannot set future time"@,
            self matches BlockOverrideError::FileAccess(e) ==> r@
                == "Failed to access configuration file: "@ + e@,
            self matches BlockOverrideError::CorruptedConfig(m) ==> r@
                == "Configuration file is corrupted: "@ + m@,
    {
        match self {
            BlockOverrideError::InvalidFormat => "Invalid time format. Expected: hour (0-23), HH:MM, or ISO timestamp".to_owned(),
            BlockOverrideError::HourOutOfRange => "Hour must be between 0 and 23".to_owned(),
            BlockOverrideError::TimeOutOfRange => "Time values out of range".to_owned(),
            BlockOverrideError::FutureTime => "Cannot set future time".to_owned(),
            BlockOverrideError::FileAccess(e) => {
                let mut s = "Failed to access configuration file: ".to_owned();
                s.append(e.as_str());
                s
            },
            BlockOverrideError::CorruptedConfig(m) => {
                let mut s = "Configuration file is corrupted: ".to_owned();
                s.append(m.as_str());
                s
            },
        }
    }
}

/// What a scan of an override list from the front finds for a day.
pub open spec fn spec_get_from(s: Seq<(i64, BlockOverride)>, day: int) -> Option<BlockOverride>
    decreases s.len(),
{
    if s.len() == 0 {
        None
    } else if s[0].0 == day {
        Some(s[0].1)
    } else {
        spec_get_from(s.skip(1), day)
    }
}

/// Appending an entry changes a front scan only for days it did not
/// already find.
proof fn lemma_get_from_push(s: Seq<(i64, BlockOverride)>, p: (i64, BlockOverride), day: int)
    ensures
        spec_get_from(s.push(p), day) == (if spec_get_from(s, day) is Some {
            spec_get_from(s, day)
        } else if p.0 == day {
            Some(p.1)
        } else {
            None
        }),
    decreases s.len(),
{
    if s.len() == 0 {
        assert(s.push(p)[0] == p);
        assert(s.push(p).skip(1) =~= Seq::<(i64, BlockOverride)>::empty());
        assert(spec_get_from(Seq::<(i64, BlockOverride)>::empty(), day) is None);
    } else {
        assert(s.push(p)[0] == s[0]);
        assert(s.push(p).skip(1) =~= s.skip(1).push(p));
        lemma_get_from_push(s.skip(1), p, day);
    }
}

/// The per-date manual block-start pins, kept as a small association
/// list with distinct day keys.
#[derive(Debug, Clone, PartialEq)]
pub struct BlockOverrideManager {
    pub overrides: Vec<(i64, BlockOverride)>,
}

impl BlockOverrideManager {
    /// Day keys are distinct, so a front scan is the map lookup; and
    /// every stored start time is within the storable calendar range.
    pub open spec fn wf(&self) -> bool {
        &&& forall|i: int, j: int|
            0 <= i < j < self.overrides@.len() ==> self.overrides@[i].0 != self.overrides@[j].0
        &&& forall|i: int|
            0 <= i < self.overrides@.len() ==> crate::time::ts_stored(
                (#[trigger] self.overrides@[i]).1.start_time as int,
            )
    }

    /// The override stored for a day, if any.
    pub open spec fn spec_get(&self, day: int) -> Option<BlockOverride> {
        spec_get_from(self.overrides@, day)
    }

    /// An empty store.
    pub fn new() -> (r: Self)
        ensures
            r.wf(),
            forall|d: int| r.spec_get(d) is None,
            r.overrides@.len() == 0,
    {
        let r = BlockOverrideManager { overrides: Vec::new() };
        proof {
            assert(forall|d: int| r.spec_get(d) is None);
        }
        r
    }

    /// The override for a day.
    pub fn get_override(&self, day: i64) -> (r: Option<&BlockOverride>)
        ensures
            match r {
                Some(ov) => self.spec_get(day as int) == Some(*ov),
                None => self.spec_get(day as int) is None,
            },
    {
        let n = self.overrides.len();
        let mut i: usize = 0;
        proof {
            assert(self.overrides@.skip(0) =~= self.overrides@);
        }
        while i < n
            invariant
                n == self.overrides@.len(),
                i <= n,
                spec_get_from(self.overrides@, day as int) == spec_get_from(
                    self.overrides@.skip(i as int),
                    day as int,
                ),
            decreases n - i,
        {
            proof {
                assert(self.overrides@.skip(i as int)[0] == self.overrides@[i as int]);
                assert(self.overrides@.skip(i as int).skip(1) =~= self.overrides@.skip(i + 1));
            }
            if self.overrides[i].0 == day {
                return Some(&self.overrides[i].1);
            }
            i = i + 1;
        }
        proof {
            assert(self.overrides@.skip(n as int).len() == 0);
        }
        None
    }

    /// Remove any entry for the day, keeping every other entry in order.
    fn remove_day(&mut self, day: i64) -> (removed: bool)
        requires
            old(self).wf(),
        ensures
            final(self).wf(),
            removed == (old(self).spec_get(day as int) is Some),
            final(self).spec_get(day as int) is None,
            forall|d: int| d != day ==> final(self).spec_get(d) == old(self).spec_get(d),
            final(self).overrides@.len() == old(self).overrides@.len() - (
            if old(self).spec_get(day as int) is Some {
                1int
            } else {
                0int
            }),
            forall|k: int|
                0 <= k < final(self).overrides@.len() ==> old(self).overrides@.contains(
                    #[trigger] final(self).overrides@[k],
                ),
    {
        let ghost olds = self.overrides@;
        let n = self.overrides.len();
        let mut out: Vec<(i64, BlockOverride)> = Vec::new();
        let mut found: bool = false;
        let mut i: usize = 0;
        while i < n
            invariant
                n == self.overrides@.len(),
                olds == self.overrides@,
                old(self).wf(),
                olds == old(self).overrides@,
                i <= n,
                forall|a: int, b: int| 0 <= a < b < out@.len() ==> out@[a].0 != out@[b].0,
                spec_get_from(out@, day as int) is None,
                found == (spec_get_from_prefix_found(olds, i as int, day as int)),
                forall|d: int|
                    d != day ==> spec_get_from(out@, d) == spec_get_from_prefix(
                        olds,
                        i as int,
                        d,
                    ),
                out@.len() == i - (if found {
                    1int
                } else {
                    0int
                }),
                forall|a: int|
                    0 <= a < out@.len() ==> exists|k: int|
                        0 <= k < i && olds[k] == #[trigger] out@[a],
            decreases n - i,
        {
            let entry_day = self.overrides[i].0;
            let ghost pre_out = out@;
            if entry_day == day {
                found = true;
            } else {
                proof {
                    assert forall|a: int| 0 <= a < out@.len() implies out@[a].0
                        != olds[i as int].0 by {
                        let k = choose|k: int| 0 <= k < i && olds[k] == out@[a];
                        assert(olds[k].0 != olds[i as int].0);
                    }
                }
                let e = clone_entry(&self.overrides[i]);
                out.push(e);
                proof {
                    assert(out@ == pre_out.push(olds[i as int]));
                    lemma_get_from_push(pre_out, olds[i as int], day as int);
                    assert(olds[i as int] == out@.last());
                }
            }
            proof {
                assert forall|d: int| d != day implies spec_get_from(out@, d)
                    == spec_get_from_prefix(olds, i + 1, d) by {
                    if entry_day != day {
                        lemma_get_from_push(pre_out, olds[i as int], d);
                    }
                }
            }
            i = i + 1;
        }
        proof {
            assert forall|d: int| d != day implies spec_get_from(out@, d) == spec_get_from(
                olds,
                d,
            ) by {
                lemma_prefix_is_get(olds, n as int, d);
            }
            lemma_prefix_found_is_get(olds, n as int, day as int);
            assert forall|k: int| 0 <= k < out@.len() implies olds.contains(
                #[trigger] out@[k],
            ) && crate::time::ts_stored(out@[k].1.start_time as int) by {
                let a = choose|a: int| 0 <= a < n && olds[a] == out@[k];
                assert(olds.contains(olds[a]));
                assert(crate::time::ts_stored(olds[a].1.start_time as int));
            }
        }
        self.overrides = out;
        found
    }

    /// Pin a start time for a day: the time is floored to the hour and
    /// any earlier pin for the day is replaced. Persisting the store is
    /// the application's concern.
    pub fn set_override(
        &mut self,
        day: i64,
        start_time: i64,
        source: String,
        notes: Option<String>,
        now: i64,
    )
        requires
            old(self).wf(),
            crate::time::ts_settable(start_time as int),
        ensures
            final(self).wf(),
            final(self).spec_get(day as int) == Some(
                BlockOverride {
                    start_time: spec_floor_to_hour(start_time as int) as i64,
                    source: source,
                    created_at: now,
                    notes: notes,
                },
            ),
            forall|d: int| d != day ==> final(self).spec_get(d) == old(self).spec_get(d),
    {
        self.remove_day(day);
        let ov = BlockOverride::new(floor_to_hour(start_time), source, notes, now);
        let ghost pre = self.overrides@;
        self.overrides.push((day, ov));
        proof {
            assert forall|d: int| true implies spec_get_from(self.overrides@, d) == (
            if spec_get_from(pre, d) is Some {
                spec_get_from(pre, d)
            } else if d == day {
                Some(self.overrides@.last().1)
            } else {
                None
            }) by {
                lemma_get_from_push(pre, self.overrides@.last(), d);
            }
            assert(self.wf()) by {
                assert forall|a: int, b: int|
                    0 <= a < b < self.overrides@.len() implies self.overrides@[a].0
                    != self.overrides@[b].0 by {
                    if b == self.overrides@.len() - 1 {
                        if self.overrides@[a].0 == day {
                            lemma_contains_key_get(pre, a, day as int);
                        }
                    }
                }
                assert(forall|a: int|
                    0 <= a < pre.len() ==> self.overrides@[a] == #[trigger] pre[a]);
            }
        }
    }

    /// Remove a day's pin if present; says whether anything was removed.
    /// Persisting the change is the application's concern.
    pub fn clear_override(&mut self, day: i64) -> (removed: bool)
        requires
            old(self).wf(),
        ensures
            final(self).wf(),
            removed == (old(self).spec_get(day as int) is Some),
            final(self).spec_get(day as int) is None,
            forall|d: int| d != day ==> final(self).spec_get(d) == old(self).spec_get(d),
    {
        self.remove_day(day)
    }

    /// The number of days with a pin.
    pub fn override_count(&self) -> (r: usize)
        ensures
            r == self.overrides@.len(),
    {
        self.overrides.len()
    }

    /// Purge pins created on or before the retention cutoff; says how
    /// many were removed. Persisting the change is the application's
    /// concern.
    pub fn cleanup_expired(&mut self, retention_days: u32, now: i64) -> (removed: usize)
        requires
            old(self).wf(),
            ts_in_range(now as int),
        ensures
            final(self).wf(),
            forall|d: int|
                final(self).spec_get(d) == spec_cleaned(
                    old(self).spec_get(d),
                    now - retention_days * SECONDS_PER_DAY,
                ),
            removed == old(self).overrides@.len() - final(self).overrides@.len(),
    {
        let cutoff: i64 = now - (retention_days as i64) * SECONDS_PER_DAY;
        let ghost olds = self.overrides@;
        let n = self.overrides.len();
        let mut out: Vec<(i64, BlockOverride)> = Vec::new();
        let mut i: usize = 0;
        while i < n
            invariant
                n == self.overrides@.len(),
                olds == self.overrides@,
                old(self).wf(),
                olds == old(self).overrides@,
                cutoff == now - retention_days * SECONDS_PER_DAY,
                i <= n,
                out@.len() <= i,
                forall|a: int, b: int| 0 <= a < b < out@.len() ==> out@[a].0 != out@[b].0,
                forall|d: int|
                    spec_get_from(out@, d) == spec_cleaned(
                        spec_get_from_prefix(olds, i as int, d),
                        cutoff as int,
                    ),
                forall|a: int|
                    0 <= a < out@.len() ==> exists|k: int|
                        0 <= k < i && olds[k] == #[trigger] out@[a],
            decreases n - i,
        {
            let ghost pre_out = out@;
            let keep = self.overrides[i].1.created_at > cutoff;
            if keep {
                proof {
                    assert forall|a: int| 0 <= a < out@.len() implies out@[a].0
                        != olds[i as int].0 by {
                        let k = choose|k: int| 0 <= k < i && olds[k] == out@[a];
                        assert(olds[k].0 != olds[i as int].0);
                    }
                }
                let e = clone_entry(&self.overrides[i]);
                out.push(e);
            }
            proof {
                assert forall|d: int| true implies spec_get_from(out@, d) == spec_cleaned(
                    spec_get_from_prefix(olds, i + 1, d),
                    cutoff as int,
                ) by {
                    if keep {
                        assert(out@ == pre_out.push(olds[i as int]));
                        lemma_get_from_push(pre_out, olds[i as int], d);
                        if spec_get_from_prefix(olds, i as int, d) is Some && olds[i as int].0
                            == d {
                            lemma_prefix_vs_front(olds, i as int, d);
                            lemma_prefix_found_is_get(olds.take(i as int), i as int, d);
                            let k = choose|k: int|
                                0 <= k < i && (#[trigger] olds.take(i as int)[k]).0 == d;
                            assert(olds[k].0 == olds[i as int].0);
                        }
                    } else {
                        if spec_get_from_prefix(olds, i as int, d) is Some && olds[i as int].0
                            == d {
                            lemma_prefix_vs_front(olds, i as int, d);
                            lemma_prefix_found_is_get(olds.take(i as int), i as int, d);
                            let k = choose|k: int|
                                0 <= k < i && (#[trigger] olds.take(i as int)[k]).0 == d;
                            assert(olds[k].0 == olds[i as int].0);
                        }
                    }
                }
            }
            i = i + 1;
        }
        let removed = n - out.len();
        proof {
            assert forall|d: int| true implies spec_get_from(out@, d) == spec_cleaned(
                spec_get_from(olds, d),
                cutoff as int,
            ) by {
                lemma_prefix_is_get(olds, n as int, d);
            }
            assert forall|k: int| 0 <= k < out@.len() implies crate::time::ts_stored(
                (#[trigger] out@[k]).1.start_time as int,
            ) by {
                let a = choose|a: int| 0 <= a < n && olds[a] == out@[k];
                assert(crate::time::ts_stored(olds[a].1.start_time as int));
            }
        }
        self.overrides = out;
        removed
    }

    /// The pinned days, in store order.
    pub fn get_all_dates(&self) -> (r: Vec<i64>)
        ensures
            r@.len() == self.overrides@.len(),
            forall|k: int| 0 <= k < r@.len() ==> r@[k] == (#[trigger] self.overrides@[k]).0,
    {
        let mut out: Vec<i64> = Vec::new();
        let n = self.overrides.len();
        let mut i: usize = 0;
        while i < n
            invariant
                n == self.overrides@.len(),
                i <= n,
                out@.len() == i,
                forall|k: int| 0 <= k < i ==> out@[k] == (#[trigger] self.overrides@[k]).0,
            decreases n - i,
        {
            out.push(self.overrides[i].0);
            i = i + 1;
        }
        out
    }
}

/// Whether the first `n` entries contain the day.
pub open spec fn spec_get_from_prefix_found(s: Seq<(i64, BlockOverride)>, n: int, day: int) -> bool {
    exists|k: int| 0 <= k < n && (#[trigger] s[k]).0 == day
}

/// What a front scan of the first `n` entries finds for a day.
pub open spec fn spec_get_from_prefix(s: Seq<(i64, BlockOverride)>, n: int, day: int) -> Option<
    BlockOverride,
>
    decreases n,
{
    if n <= 0 {
        None
    } else if spec_get_from_prefix(s, n - 1, day) is Some {
        spec_get_from_prefix(s, n - 1, day)
    } else if 0 <= n - 1 < s.len() && s[n - 1].0 == day {
        Some(s[n - 1].1)
    } else {
        None
    }
}

/// A full-prefix scan finds what the front scan finds.
proof fn lemma_prefix_is_get(s: Seq<(i64, BlockOverride)>, n: int, day: int)
    requires
        n == s.len(),
        forall|i: int, j: int| 0 <= i < j < s.len() ==> s[i].0 != s[j].0,
    ensures
        spec_get_from_prefix(s, n, day) == spec_get_from(s, day),
{
    lemma_prefix_vs_front(s, n, day);
    assert(s.take(n) =~= s);
}

/// For distinct keys, the prefix scan agrees with the front scan on the
/// prefix it covers, and misses days outside it.
proof fn lemma_prefix_vs_front(s: Seq<(i64, BlockOverride)>, n: int, day: int)
    requires
        0 <= n <= s.len(),
        forall|i: int, j: int| 0 <= i < j < s.len() ==> s[i].0 != s[j].0,
    ensures
        spec_get_from_prefix(s, n, day) == spec_get_from(s.take(n), day),
    decreases n,
{
    if n > 0 {
        lemma_prefix_vs_front(s, n - 1, day);
        assert(s.take(n).drop_last() =~= s.take(n - 1));
        lemma_get_from_push(s.take(n - 1), s[n - 1], day);
        assert(s.take(n - 1).push(s[n - 1]) =~= s.take(n));
    }
}

/// The found flag of a full prefix agrees with the front scan.
proof fn lemma_prefix_found_is_get(s: Seq<(i64, BlockOverride)>, n: int, day: int)
    requires
        n == s.len(),
    ensures
        spec_get_from_prefix_found(s, n, day) == (spec_get_from(s, day) is Some),
    decreases s.len(),
{
    if s.len() > 0 {
        lemma_prefix_found_is_get(s.skip(1), s.len() - 1, day);
        assert forall|k: int| 0 <= k < s.len() - 1 implies s.skip(1)[k] == s[k + 1] by {}
        if spec_get_from_prefix_found(s.skip(1), s.len() - 1, day) {
            let k = choose|k: int| 0 <= k < s.len() - 1 && (#[trigger] s.skip(1)[k]).0 == day;
            assert(s[k + 1].0 == day);
        }
        if spec_get_from_prefix_found(s, n, day) {
            let k = choose|k: int| 0 <= k < n && (#[trigger] s[k]).0 == day;
            if k > 0 {
                assert(s.skip(1)[k - 1].0 == day);
            }
        }
    }
}

/// What a front scan finds is one of the list's own records, under its
/// own day.
pub proof fn lemma_get_is_entry(s: Seq<(i64, BlockOverride)>, day: int)
    requires
        spec_get_from(s, day) is Some,
    ensures
        exists|k: int|
            0 <= k < s.len() && (#[trigger] s[k]).0 == day && s[k].1 == spec_get_from(
                s,
                day,
            ).unwrap(),
    decreases s.len(),
{
    if s[0].0 == day {
        assert(s[0].0 == day && s[0].1 == spec_get_from(s, day).unwrap());
    } else {
        lemma_get_is_entry(s.skip(1), day);
        let k = choose|k: int|
            0 <= k < s.skip(1).len() && (#[trigger] s.skip(1)[k]).0 == day && s.skip(1)[k].1
                == spec_get_from(s.skip(1), day).unwrap();
        assert(s[k + 1] == s.skip(1)[k]);
    }
}

/// If an entry of the list carries a key the front scan misses, the scan
/// would have found it: contrapositive used for well-formedness.
proof fn lemma_contains_key_get(s: Seq<(i64, BlockOverride)>, idx: int, day: int)
    requires
        0 <= idx < s.len(),
        s[idx].0 == day,
    ensures
        spec_get_from(s, day) is Some,
    decreases s.len(),
{
    if idx == 0 {
    } else {
        assert(s.skip(1)[idx - 1] == s[idx]);
        lemma_contains_key_get(s.skip(1), idx - 1, day);
    }
}

/// What survives the retention cutoff: a pin created after the cutoff.
pub open spec fn spec_cleaned(ov: Option<BlockOverride>, cutoff: int) -> Option<BlockOverride> {
    match ov {
        Some(o) => if o.created_at > cutoff {
            Some(o)
        } else {
            None
        },
        None => None,
    }
}

/// Whether a digit string denotes a number no larger than `u32::MAX`.
pub open spec fn spec_u32_digits(b: Seq<u8>) -> bool {
    spec_all_digits(b) && spec_digits_value(b) <= u32::MAX
}

/// The UTC epoch second of hour `h` on the local day containing `now`,
/// for a zone `off` seconds east of UTC.
pub open spec fn spec_local_hour_utc(now: int, off: int, h: int) -> int {
    spec_day_of(now + off) * (SECONDS_PER_DAY as int) + h * (SECONDS_PER_HOUR as int) - off
}

/// What time-input parsing yields for a byte string `b` whose RFC 3339
/// reading is `iso`: a bare hour 0 to 23 names that hour today, local
/// time; two all-digit fields split by a colon name an hour whose
/// minutes are discarded; anything else is read as a full timestamp and
/// floored to the hour. A time later than `now` is refused.
pub open spec fn spec_parse_time_input(b: Seq<u8>, iso: Option<i64>, now: int, off: int) -> Result<
    i64,
    BlockOverrideError,
> {
    if spec_u32_digits(b) {
        let h = spec_digits_value(b);
        if h <= 23 {
            if spec_local_hour_utc(now, off, h) > now {
                Err(BlockOverrideError::FutureTime)
            } else {
                Ok(spec_local_hour_utc(now, off, h) as i64)
            }
        } else {
            Err(BlockOverrideError::HourOutOfRange)
        }
    } else if spec_find_byte(b, 58, 0) matches Some(k) && spec_u32_digits(b.take(k))
        && spec_u32_digits(b.skip(k + 1)) {
        let k = spec_find_byte(b, 58, 0).unwrap();
        let h = spec_digits_value(b.take(k));
        let m = spec_digits_value(b.skip(k + 1));
        if h <= 23 && m <= 59 {
            if spec_local_hour_utc(now, off, h) > now {
                Err(BlockOverrideError::FutureTime)
            } else {
                Ok(spec_local_hour_utc(now, off, h) as i64)
            }
        } else {
            Err(BlockOverrideError::TimeOutOfRange)
        }
    } else {
        match iso {
            Some(t) => if t > now {
                Err(BlockOverrideError::FutureTime)
            } else {
                Ok(spec_floor_to_hour(t as int) as i64)
            },
            None => Err(BlockOverrideError::InvalidFormat),
        }
    }
}

impl BlockOverrideManager {
    /// Parse a user-entered time: a bare hour 0 to 23, "HH:MM" with the
    /// minutes discarded, or a full RFC 3339 timestamp floored to the
    /// hour. The first two forms name today in local time, given the
    /// zone's offset east of UTC in seconds; the result is UTC, and a
    /// future time is refused.
    pub fn parse_time_input(input: &str, now: i64, tz_offset_seconds: i64) -> (r: Result<
        i64,
        BlockOverrideError,
    >)
        requires
            ts_in_range(now as int),
            -86400 <= tz_offset_seconds <= 86400,
        ensures
            r == spec_parse_time_input(
                input.spec_bytes(),
                rfc3339_epoch(input@),
                now as int,
                tz_offset_seconds as int,
            ),
            r matches Ok(t) ==> crate::time::ts_settable(t as int),
    {
        let bytes = input.as_bytes_vec();
        match parse_u32_digits(&bytes) {
            Some(h) => {
                if h <= 23 {
                    local_hour_to_utc(now, tz_offset_seconds, h as i64)
                } else {
                    Err(BlockOverrideError::HourOutOfRange)
                }
            },
            None => {
                match find_colon(&bytes) {
                    Some(k) => {
                        let blen = bytes.len();
                        let left = sub_vec(&bytes, 0, k);
                        let right = sub_vec(&bytes, k + 1, blen);
                        proof {
                            assert(left@ =~= bytes@.take(k as int));
                            assert(right@ =~= bytes@.skip(k + 1));
                        }
                        match (parse_u32_digits(&left), parse_u32_digits(&right)) {
                            (Some(h), Some(m)) => {
                                if h <= 23 && m <= 59 {
                                    local_hour_to_utc(now, tz_offset_seconds, h as i64)
                                } else {
                                    Err(BlockOverrideError::TimeOutOfRange)
                                }
                            },
                            _ => parse_iso_input(input, now),
                        }
                    },
                    None => parse_iso_input(input, now),
                }
            },
        }
    }
}

/// The UTC epoch second of hour `h` today, local time, refused when it
/// lies in the future.
fn local_hour_to_utc(now: i64, off: i64, h: i64) -> (r: Result<i64, BlockOverrideError>)
    requires
        ts_in_range(now as int),
        -86400 <= off <= 86400,
        0 <= h <= 23,
    ensures
        spec_local_hour_utc(now as int, off as int, h as int) > now ==> r == Err::<
            i64,
            BlockOverrideError,
        >(BlockOverrideError::FutureTime),
        spec_local_hour_utc(now as int, off as int, h as int) <= now ==> r == Ok::<
            i64,
            BlockOverrideError,
        >(spec_local_hour_utc(now as int, off as int, h as int) as i64),
        r matches Ok(t) ==> crate::time::ts_settable(t as int),
{
    let local_day = day_of(now + off);
    proof {
        assert(-103079215105i64 <= (now + off) as int / (SECONDS_PER_DAY as int)
            <= 103079215105i64) by (nonlinear_arith)
            requires
                -0x800_0000_0000 - 86400 <= now + off <= 0x800_0000_0000 + 86400,
        ;
        assert(local_day * (SECONDS_PER_DAY as int) - 86400 <= now + off) by (nonlinear_arith)
            requires
                local_day == (now + off) as int / (SECONDS_PER_DAY as int),
        ;
        assert(now + off - (SECONDS_PER_DAY as int) < local_day * (SECONDS_PER_DAY as int))
            by (nonlinear_arith)
            requires
                local_day == (now + off) as int / (SECONDS_PER_DAY as int),
        ;
    }
    let local_target: i64 = local_day * SECONDS_PER_DAY + h * SECONDS_PER_HOUR;
    let utc = local_target - off;
    if utc > now {
        Err(BlockOverrideError::FutureTime)
    } else {
        Ok(utc)
    }
}

/// Read the input as an RFC 3339 timestamp: refused when it is in the
/// future, floored to the hour otherwise.
fn parse_iso_input(input: &str, now: i64) -> (r: Result<i64, BlockOverrideError>)
    ensures
        r == (match rfc3339_epoch(input@) {
            Some(t) => if t > now {
                Err::<i64, BlockOverrideError>(BlockOverrideError::FutureTime)
            } else {
                Ok::<i64, BlockOverrideError>(spec_floor_to_hour(t as int) as i64)
            },
            None => Err::<i64, BlockOverrideError>(BlockOverrideError::InvalidFormat),
        }),
        r matches Ok(t) ==> crate::time::ts_settable(t as int),
{
    match parse_rfc3339_utc(input) {
        Some(t) => {
            if t > now {
                Err(BlockOverrideError::FutureTime)
            } else {
                Ok(floor_to_hour(t))
            }
        },
        None => Err(BlockOverrideError::InvalidFormat),
    }
}

/// The first colon of a byte string.
fn find_colon(bytes: &Vec<u8>) -> (r: Option<usize>)
    ensures
        r matches Some(k) ==> k < bytes@.len() && spec_find_byte(bytes@, 58, 0) == Some(k as int),
        r is None ==> spec_find_byte(bytes@, 58, 0) is None,
{
    let n = bytes.len();
    let mut i: usize = 0;
    while i < n
        invariant
            n == bytes@.len(),
            i <= n,
            spec_find_byte(bytes@, 58, 0) == spec_find_byte(bytes@, 58, i as int),
        decreases n - i,
    {
        if bytes[i] == 58 {
            return Some(i);
        }
        i = i + 1;
    }
    None
}

/// Copy a byte range out of a vector.
fn sub_vec(v: &Vec<u8>, from: usize, to: usize) -> (r: Vec<u8>)
    requires
        from <= to <= v@.len(),
    ensures
        r@ == v@.subrange(from as int, to as int),
{
    let mut out: Vec<u8> = Vec::new();
    let mut i: usize = from;
    while i < to
        invariant
            from <= i <= to <= v@.len(),
            out@ =~= v@.subrange(from as int, i as int),
        decreases to - i,
    {
        out.push(v[i]);
        proof {
            assert(out@ =~= v@.subrange(from as int, i + 1));
        }
        i = i + 1;
    }
    out
}

/// Clone one stored entry.
fn clone_entry(e: &(i64, BlockOverride)) -> (r: (i64, BlockOverride))
    ensures
        r == *e,
{
    (
        e.0,
        BlockOverride {
            start_time: e.1.start_time,
            source: e.1.source.clone(),
            created_at: e.1.created_at,
            notes: clone_notes(&e.1.notes),
        },
    )
}

/// Clone optional notes.
fn clone_notes(n: &Option<String>) -> (r: Option<String>)
    ensures
        r == *n,
{
    match n {
        Some(s) => Some(s.clone()),
        None => None,
    }
}

} // verus!
