//! The per-year index by minute: one slot per minute of the year,
//! holding the smallest message id whose creation time fell in that
//! minute, or `-1` while none has.

use vstd::prelude::*;

verus! {

/// Slots one year's index holds: 366 days of minutes.
pub const MINUTES_PER_YEAR: u32 = 527_040;

/// Microseconds in one minute.
pub const MICROS_PER_MINUTE: i64 = 60_000_000;

/// The leap-year rule of the calendar.
pub open spec fn is_leap(y: int) -> bool {
    y % 4 == 0 && (y % 100 != 0 || y % 400 == 0)
}

/// Minutes a given year spans.
pub open spec fn minutes_in_year(y: int) -> int {
    if is_leap(y) {
        527_040
    } else {
        525_600
    }
}

/// The year and minute-of-year a total minute count since the epoch
/// falls in, counting years from 1970.
pub open spec fn year_minute_of(total: int, y: int) -> (int, int)
    decreases total,
{
    if total < minutes_in_year(y) || total < 0 {
        (y, total)
    } else {
        year_minute_of(total - minutes_in_year(y), y + 1)
    }
}

/// Minutes the given calendar year spans.
pub fn span_of_year(y: i64) -> (r: i64)
    ensures
        r == minutes_in_year(y as int),
{
    if y % 4 == 0 && (y % 100 != 0 || y % 400 == 0) {
        527_040
    } else {
        525_600
    }
}

/// Splits a creation time in microseconds since the epoch into the
/// calendar year and the minute within that year.
pub fn year_and_minute(created: i64) -> (r: (u32, u32))
    requires
        0 <= created,
    ensures
        (r.0 as int, r.1 as int) == year_minute_of(created as int / MICROS_PER_MINUTE as int, 1970),
        r.1 < MINUTES_PER_YEAR,
{
    let mut total = created / MICROS_PER_MINUTE;
    let mut y: i64 = 1970;
    proof {
        assert(created as int / MICROS_PER_MINUTE as int >= 0);
    }
    while total >= span_of_year(y)
        invariant
            0 <= total,
            1970 <= y,
            525_600 * (y - 1970) + total <= created as int / MICROS_PER_MINUTE as int,
            year_minute_of(created as int / MICROS_PER_MINUTE as int, 1970) == year_minute_of(
                total as int,
                y as int,
            ),
        decreases total,
    {
        let span = span_of_year(y);
        total = total - span;
        y = y + 1;
    }
    (y as u32, total as u32)
}

/// One year's index.
pub struct YearlyIndex {
    pub year: u32,
    pub slots: Vec<i64>,
    pub observed: Ghost<Seq<(i64, u32)>>,
}

impl YearlyIndex {
    /// The slots summarize the observed `(message id, minute)` pairs:
    /// ids and minutes arrive in order, a `-1` slot has seen nothing,
    /// and any other slot holds the least id seen in its minute.
    pub open spec fn wf(&self) -> bool {
        &&& self.slots.len() == MINUTES_PER_YEAR
        &&& forall|j: int, k: int|
            0 <= j < k < self.observed@.len() ==> self.observed@[j].0 < self.observed@[k].0
                && self.observed@[j].1 <= self.observed@[k].1
        &&& forall|j: int|
            0 <= j < self.observed@.len() ==> 0 <= (#[trigger] self.observed@[j]).0
                && self.observed@[j].1 < MINUTES_PER_YEAR
        &&& forall|m: int|
            0 <= m < self.slots.len() && self.slots@[m] == -1 ==> forall|j: int|
                0 <= j < self.observed@.len() ==> (#[trigger] self.observed@[j]).1 != m
        &&& forall|m: int|
            0 <= m < self.slots.len() && self.slots@[m] != -1 ==> (exists|j: int|
                0 <= j < self.observed@.len() && (#[trigger] self.observed@[j]) == (
                self.slots@[m],
                m as u32,
            )) && (forall|j: int|
                0 <= j < self.observed@.len() && (#[trigger] self.observed@[j]).1 == m
                    ==> self.observed@[j].0 >= self.slots@[m])
    }

    /// A fresh index: every minute's slot at `-1`.
    pub fn new(year: u32) -> (r: YearlyIndex)
        ensures
            r.wf(),
            r.year == year,
            r.observed@.len() == 0,
            forall|m: int| 0 <= m < MINUTES_PER_YEAR ==> r.slots@[m] == -1,
    {
        let mut slots: Vec<i64> = Vec::new();
        while slots.len() < MINUTES_PER_YEAR as usize
            invariant
                slots.len() <= MINUTES_PER_YEAR,
                forall|m: int| 0 <= m < slots.len() ==> slots@[m] == -1,
            decreases MINUTES_PER_YEAR - slots.len(),
        {
            slots.push(-1);
        }
        YearlyIndex { year, slots, observed: Ghost(Seq::empty()) }
    }

    /// Records a message: the slot of its minute takes the id when it
    /// held `-1` or something larger.  Ids and minutes arrive in order,
    /// so an occupied slot already holds a smaller id and stays.
    pub fn update(&mut self, message_id: i64, minute: u32)
        requires
            old(self).wf(),
            0 <= message_id,
            minute < MINUTES_PER_YEAR,
            forall|j: int|
                0 <= j < old(self).observed@.len() ==> (#[trigger] old(self).observed@[j]).0
                    < message_id && old(self).observed@[j].1 <= minute,
        ensures
            final(self).wf(),
            final(self).year == old(self).year,
            final(self).observed@ == old(self).observed@.push((message_id, minute)),
            final(self).slots@ == if old(self).slots@[minute as int] == -1 {
                old(self).slots@.update(minute as int, message_id)
            } else {
                old(self).slots@
            },
    {
        let cur = self.slots[minute as usize];
        if cur == -1 || cur > message_id {
            self.slots.set(minute as usize, message_id);
        }
        proof {
            self.observed@ = self.observed@.push((message_id, minute));
            if !(cur == -1) {
                assert(cur >= 0) by {
                    assert(exists|j: int|
                        0 <= j < old(self).observed@.len() && (#[trigger] old(self).observed@[j])
                            == (cur, minute));
                }
                assert(cur < message_id) by {
                    let j = choose|j: int|
                        0 <= j < old(self).observed@.len() && (#[trigger] old(self).observed@[j])
                            == (cur, minute);
                    assert(old(self).observed@[j].0 < message_id);
                }
            }
            assert forall|m: int|
                0 <= m < self.slots.len() && self.slots@[m] != -1 implies (exists|j: int|
                0 <= j < self.observed@.len() && (#[trigger] self.observed@[j]) == (
                self.slots@[m],
                m as u32,
            )) && (forall|j: int|
                0 <= j < self.observed@.len() && (#[trigger] self.observed@[j]).1 == m
                    ==> self.observed@[j].0 >= self.slots@[m]) by {
                let n = old(self).observed@.len() as int;
                if m == minute as int && cur == -1 {
                    assert(self.observed@[n] == (message_id, minute));
                } else {
                    assert(self.slots@[m] == old(self).slots@[m]);
                    let j0 = choose|j: int|
                        0 <= j < old(self).observed@.len() && (#[trigger] old(self).observed@[j])
                            == (old(self).slots@[m], m as u32);
                    assert(self.observed@[j0] == (self.slots@[m], m as u32));
                }
            }
        }
    }

    /// The slot of `minute`: absent while `-1`.
    pub fn lookup(&self, minute: u32) -> (r: Option<i64>)
        requires
            self.wf(),
            minute < MINUTES_PER_YEAR,
        ensures
            match r {
                Some(v) => self.slots@[minute as int] == v && v != -1,
                None => self.slots@[minute as int] == -1,
            },
    {
        let v = self.slots[minute as usize];
        if v == -1 {
            None
        } else {
            Some(v)
        }
    }

    /// Scans forward from `minute` for at most `horizon` minutes and
    /// yields the first occupied slot.
    pub fn get_first_message_id_at_or_after(&self, minute: u32, horizon: u32) -> (r: Option<i64>)
        requires
            self.wf(),
            minute < MINUTES_PER_YEAR,
        ensures
            ({
                let stop = if minute + horizon <= MINUTES_PER_YEAR {
                    minute + horizon
                } else {
                    MINUTES_PER_YEAR as int
                };
                match r {
                    Some(v) => exists|m: int|
                        minute <= m < stop && #[trigger] self.slots@[m] == v && v != -1 && forall|
                            m2: int,
                        |
                            minute <= m2 < m ==> self.slots@[m2] == -1,
                    None => forall|m: int| minute <= m < stop ==> self.slots@[m] == -1,
                }
            }),
    {
        let stop = if horizon < MINUTES_PER_YEAR - minute {
            minute + horizon
        } else {
            MINUTES_PER_YEAR
        };
        let mut m = minute;
        while m < stop
            invariant
                minute <= m <= stop <= MINUTES_PER_YEAR,
                stop == if minute + horizon <= MINUTES_PER_YEAR {
                    minute + horizon
                } else {
                    MINUTES_PER_YEAR as int
                },
                self.wf(),
                forall|m2: int| minute <= m2 < m ==> self.slots@[m2] == -1,
            decreases stop - m,
        {
            let v = self.slots[m as usize];
            if v != -1 {
                return Some(v);
            }
            m = m + 1;
        }
        None
    }
}

/// Among occupied slots the index is strictly increasing by minute: an
/// earlier minute's slot holds a smaller message id.
pub proof fn lemma_lookup_monotone(idx: &YearlyIndex, m1: int, m2: int)
    requires
        idx.wf(),
        0 <= m1 < m2 < MINUTES_PER_YEAR,
        idx.slots@[m1] != -1,
        idx.slots@[m2] != -1,
    ensures
        idx.slots@[m1] < idx.slots@[m2],
{
    let obs = idx.observed@;
    let j1 = choose|j: int| 0 <= j < obs.len() && (#[trigger] obs[j]) == (idx.slots@[m1], m1 as u32);
    let j2 = choose|j: int| 0 <= j < obs.len() && (#[trigger] obs[j]) == (idx.slots@[m2], m2 as u32);
    if j2 < j1 {
        assert(obs[j2].0 < obs[j1].0 && obs[j2].1 <= obs[j1].1);
        assert(false);
    }
    assert(j1 < j2);
    assert(obs[j1].0 < obs[j2].0);
}

/// An occupied slot holds the least message id observed at or after its
/// minute.
pub proof fn lemma_slot_is_min_at_or_after(idx: &YearlyIndex, m: int)
    requires
        idx.wf(),
        0 <= m < MINUTES_PER_YEAR,
        idx.slots@[m] != -1,
    ensures
        exists|j: int|
            0 <= j < idx.observed@.len() && (#[trigger] idx.observed@[j]) == (
            idx.slots@[m],
            m as u32,
        ),
        forall|j: int|
            0 <= j < idx.observed@.len() && (#[trigger] idx.observed@[j]).1 >= m
                ==> idx.observed@[j].0 >= idx.slots@[m],
{
    let obs = idx.observed@;
    let j0 = choose|j: int| 0 <= j < obs.len() && (#[trigger] obs[j]) == (idx.slots@[m], m as u32);
    assert forall|j: int|
        0 <= j < obs.len() && (#[trigger] obs[j]).1 >= m implies obs[j].0 >= idx.slots@[m] by {
        if obs[j].1 == m {
        } else {
            if j <= j0 {
                if j < j0 {
                    assert(obs[j].1 <= obs[j0].1);
                    assert(false);
                }
            } else {
                assert(obs[j0].0 < obs[j].0);
            }
        }
    }
}

} // verus!
