//! Solve records and the solve-history aggregate.
//!
//! All durations are integer milliseconds. A trimmed mean over a window
//! drops exactly one instance of the smallest and one of the largest
//! value and divides the remaining sum by the window length minus two
//! (integer division).

use vstd::prelude::*;

verus! {

/// Sum of a sequence of millisecond durations, as a mathematical integer.
pub open spec fn seq_sum(s: Seq<u64>) -> int
    decreases s.len(),
{
    if s.len() == 0 {
        0
    } else {
        seq_sum(s.drop_last()) + s.last()
    }
}

/// Smallest element of a non-empty sequence.
pub open spec fn seq_min(s: Seq<u64>) -> u64
    recommends
        s.len() > 0,
    decreases s.len(),
{
    if s.len() <= 1 {
        s[0]
    } else if s.last() < seq_min(s.drop_last()) {
        s.last()
    } else {
        seq_min(s.drop_last())
    }
}

/// Largest element of a non-empty sequence.
pub open spec fn seq_max(s: Seq<u64>) -> u64
    recommends
        s.len() > 0,
    decreases s.len(),
{
    if s.len() <= 1 {
        s[0]
    } else if s.last() > seq_max(s.drop_last()) {
        s.last()
    } else {
        seq_max(s.drop_last())
    }
}

/// The `n` most recent entries of `s` (entries are stored oldest first).
pub open spec fn last_n(s: Seq<u64>, n: int) -> Seq<u64>
    recommends
        0 <= n <= s.len(),
{
    s.subrange(s.len() - n, s.len() as int)
}

/// Trimmed mean of a window: remove one instance of the minimum and one
/// of the maximum, then divide the remaining sum by `len - 2`.
pub open spec fn trimmed_mean(s: Seq<u64>) -> u64
    recommends
        3 <= s.len(),
{
    ((seq_sum(s) - seq_min(s) - seq_max(s)) / (s.len() - 2)) as u64
}

/// The average-of-`n` that belongs to the newest entry of `s`: defined
/// only once `s` holds at least `n` entries, and then the trimmed mean
/// of the `n` most recent ones.
pub open spec fn ao_at(s: Seq<u64>, n: int) -> Option<u64>
    recommends
        3 <= n,
{
    if s.len() >= n {
        Some(trimmed_mean(last_n(s, n)))
    } else {
        None
    }
}

/// Every defined average-of-`n` along the insertion sequence `s`, in
/// insertion order.
pub open spec fn ao_values(s: Seq<u64>, n: int) -> Seq<u64>
    recommends
        3 <= n,
    decreases s.len(),
{
    if s.len() == 0 {
        Seq::empty()
    } else {
        ao_values(s.drop_last(), n) + opt_seq(ao_at(s, n))
    }
}

/// Minimum of a sequence as an option: `None` when nothing was seen yet.
pub open spec fn min_opt(s: Seq<u64>) -> Option<u64> {
    if s.len() == 0 {
        None
    } else {
        Some(seq_min(s))
    }
}

/// Minimum of two optional values; an absent side does not constrain it.
pub open spec fn opt_min(a: Option<u64>, b: Option<u64>) -> Option<u64> {
    match (a, b) {
        (None, None) => None,
        (Some(x), None) => Some(x),
        (None, Some(y)) => Some(y),
        (Some(x), Some(y)) => Some(if y < x { y } else { x }),
    }
}

pub proof fn lemma_seq_sum_push(s: Seq<u64>, x: u64)
    ensures
        seq_sum(s.push(x)) == seq_sum(s) + x,
{
    assert(s.push(x).drop_last() =~= s);
}

pub proof fn lemma_seq_min_push(s: Seq<u64>, x: u64)
    requires
        s.len() > 0,
    ensures
        seq_min(s.push(x)) == if x < seq_min(s) { x } else { seq_min(s) },
{
    assert(s.push(x).drop_last() =~= s);
}

pub proof fn lemma_seq_max_push(s: Seq<u64>, x: u64)
    requires
        s.len() > 0,
    ensures
        seq_max(s.push(x)) == if x > seq_max(s) { x } else { seq_max(s) },
{
    assert(s.push(x).drop_last() =~= s);
}

pub proof fn lemma_seq_sum_nonneg(s: Seq<u64>)
    ensures
        0 <= seq_sum(s),
    decreases s.len(),
{
    if s.len() > 0 {
        lemma_seq_sum_nonneg(s.drop_last());
    }
}

/// The sum splits at any cut point.
pub proof fn lemma_seq_sum_split(s: Seq<u64>, i: int)
    requires
        0 <= i <= s.len(),
    ensures
        seq_sum(s) == seq_sum(s.subrange(0, i)) + seq_sum(s.subrange(i, s.len() as int)),
    decreases s.len() - i,
{
    if i == s.len() {
        assert(s.subrange(0, i) =~= s);
        assert(s.subrange(i, s.len() as int) =~= Seq::<u64>::empty());
    } else {
        let t = s.drop_last();
        let tail = s.subrange(i, s.len() as int);
        assert(tail.len() > 0);
        assert(tail.last() == s.last());
        if i == s.len() - 1 {
            assert(s.subrange(0, i) =~= t);
            assert(tail.drop_last() =~= Seq::<u64>::empty());
            assert(seq_sum(Seq::<u64>::empty()) == 0);
            assert(seq_sum(tail) == s.last());
        } else {
            lemma_seq_sum_split(t, i);
            assert(t.subrange(0, i) =~= s.subrange(0, i));
            assert(tail.drop_last() =~= t.subrange(i, t.len() as int));
            assert(seq_sum(tail) == seq_sum(t.subrange(i, t.len() as int)) + s.last());
        }
    }
}

/// A contiguous part of a sequence never sums to more than the whole.
pub proof fn lemma_seq_sum_subrange_le(s: Seq<u64>, a: int, b: int)
    requires
        0 <= a <= b <= s.len(),
    ensures
        seq_sum(s.subrange(a, b)) <= seq_sum(s),
{
    lemma_seq_sum_split(s, a);
    let tail = s.subrange(a, s.len() as int);
    lemma_seq_sum_split(tail, b - a);
    assert(tail.subrange(0, b - a) =~= s.subrange(a, b));
    lemma_seq_sum_nonneg(s.subrange(0, a));
    lemma_seq_sum_nonneg(tail.subrange(b - a, tail.len() as int));
}

/// The minimum and maximum bound every element and occur in the sequence.
pub proof fn lemma_seq_min_max_bounds(s: Seq<u64>)
    requires
        s.len() > 0,
    ensures
        forall|i: int| 0 <= i < s.len() ==> seq_min(s) <= #[trigger] s[i],
        forall|i: int| 0 <= i < s.len() ==> #[trigger] s[i] <= seq_max(s),
        s.contains(seq_min(s)),
        s.contains(seq_max(s)),
    decreases s.len(),
{
    if s.len() > 1 {
        let t = s.drop_last();
        lemma_seq_min_max_bounds(t);
        assert(forall|i: int| 0 <= i < t.len() ==> t[i] == s[i]);
        if s.contains(seq_min(s)) {
        }
        if t.contains(seq_min(t)) {
            let j = choose|j: int| 0 <= j < t.len() && t[j] == seq_min(t);
            if seq_min(s) == seq_min(t) {
                assert(s[j] == seq_min(s));
            }
        }
        if t.contains(seq_max(t)) {
            let j = choose|j: int| 0 <= j < t.len() && t[j] == seq_max(t);
            if seq_max(s) == seq_max(t) {
                assert(s[j] == seq_max(s));
            }
        }
    } else {
        assert(s[0] == seq_min(s));
        assert(s[0] == seq_max(s));
    }
}

/// Every element is at most the total sum.
pub proof fn lemma_seq_max_le_sum(s: Seq<u64>)
    requires
        s.len() > 0,
    ensures
        seq_max(s) <= seq_sum(s),
        seq_min(s) <= seq_sum(s),
    decreases s.len(),
{
    if s.len() == 1 {
        assert(s.drop_last().len() == 0);
        assert(seq_sum(s.drop_last()) == 0);
        assert(seq_sum(s) == s[0]);
    } else {
        let t = s.drop_last();
        lemma_seq_max_le_sum(t);
        lemma_seq_sum_nonneg(t);
        lemma_seq_min_max_bounds(s);
        lemma_seq_min_max_bounds(t);
    }
}

/// With at least two entries, one minimum and one maximum instance fit
/// inside the sum together.
pub proof fn lemma_min_max_le_sum(s: Seq<u64>)
    requires
        s.len() >= 2,
    ensures
        seq_min(s) + seq_max(s) <= seq_sum(s),
    decreases s.len(),
{
    let t = s.drop_last();
    let x = s.last();
    if s.len() == 2 {
        assert(t.len() == 1);
        assert(t.drop_last().len() == 0);
        assert(seq_sum(t.drop_last()) == 0);
        assert(seq_sum(t) == t[0]);
        assert(seq_sum(s) == t[0] + x);
        assert(seq_min(t) == t[0] && seq_max(t) == t[0]);
    } else {
        lemma_min_max_le_sum(t);
        lemma_seq_max_le_sum(t);
        lemma_seq_sum_nonneg(t);
        if x < seq_min(t) {
            assert(seq_min(s) == x);
            assert(seq_max(s) == seq_max(t));
        } else if x > seq_max(t) {
            assert(seq_min(s) == seq_min(t));
            assert(seq_max(s) == x);
        } else {
            assert(seq_min(s) == seq_min(t));
            assert(seq_max(s) == seq_max(t));
        }
    }
}

pub proof fn lemma_seq_singleton(x: u64)
    ensures
        seq_sum(seq![x]) == x,
        seq_min(seq![x]) == x,
        seq_max(seq![x]) == x,
{
    assert(seq![x].drop_last() =~= Seq::<u64>::empty());
    assert(seq_sum(Seq::<u64>::empty()) == 0);
    assert(seq![x].len() == 1);
    assert(seq![x][0] == x);
}

/// Appending an element to a non-empty history lowers the minimum to the
/// new element exactly when that element beats it.
pub proof fn lemma_min_opt_push(s: Seq<u64>, x: u64)
    ensures
        min_opt(s.push(x)) == opt_min(min_opt(s), Some(x)),
{
    if s.len() == 0 {
        assert(s.push(x).len() == 1);
        assert(s.push(x)[0] == x);
    } else {
        lemma_seq_min_push(s, x);
    }
}

/// The raw millisecond durations of a sequence of solve records.
pub open spec fn raw_of(s: Seq<Time>) -> Seq<u64> {
    s.map_values(|t: Time| t.time)
}

/// A defined optional value as a sequence of zero or one elements.
pub open spec fn opt_seq(v: Option<u64>) -> Seq<u64> {
    match v {
        Some(x) => seq![x],
        None => Seq::<u64>::empty(),
    }
}

/// One completed solve: its raw duration in milliseconds and the
/// averages-of-5/12 fixed at the moment it was appended to the history.
#[derive(Clone, Copy, Debug, PartialEq)]
pub struct Time {
    pub time: u64,
    pub ao5: Option<u64>,
    pub ao12: Option<u64>,
}

impl Time {
    /// A fresh record for a raw duration; its averages are not yet set.
    pub fn from(time: u64) -> (r: Time)
        ensures
            r == (Time { time, ao5: None, ao12: None }),
    {
        Time { time, ao5: None, ao12: None }
    }

    /// Fix this record's averages from the history that existed before it
    /// plus the record itself (the most recent entry of the window).
    pub fn gen_stats(&mut self, times: &Vec<Time>)
        requires
            seq_sum(raw_of(times@)) + old(self).time <= u64::MAX,
            0 <= seq_sum(raw_of(times@)),
        ensures
            final(self).time == old(self).time,
            final(self).ao5 == ao_at(raw_of(times@).push(old(self).time), 5),
            final(self).ao12 == ao_at(raw_of(times@).push(old(self).time), 12),
    {
        self.ao5 = window_aon(times, self.time, 5);
        self.ao12 = window_aon(times, self.time, 12);
    }
}

/// Trimmed mean of the newest `n` entries of `times` plus the pending
/// duration `t`, or `None` while fewer than `n` entries exist.
fn window_aon(times: &Vec<Time>, t: u64, n: usize) -> (r: Option<u64>)
    requires
        3 <= n,
        seq_sum(raw_of(times@)) + t <= u64::MAX,
    ensures
        r == ao_at(raw_of(times@).push(t), n as int),
{
    let ghost pushed = raw_of(times@).push(t);
    proof {
        lemma_seq_sum_push(raw_of(times@), t);
    }
    if times.len() >= n - 1 {
        let start = times.len() - (n - 1);
        let mut w: Vec<Time> = Vec::new();
        let mut i = start;
        while i < times.len()
            invariant
                start <= i <= times@.len(),
                w@ == times@.subrange(start as int, i as int),
            decreases times@.len() - i,
        {
            let rec = times[i];
            proof {
                assert(times@.subrange(start as int, i + 1) =~= times@.subrange(
                    start as int,
                    i as int,
                ).push(times@[i as int]));
            }
            w.push(rec);
            i += 1;
        }
        w.push(Time { time: t, ao5: None, ao12: None });
        proof {
            assert(raw_of(w@) =~= last_n(pushed, n as int));
            lemma_seq_sum_subrange_le(pushed, pushed.len() - n, pushed.len() as int);
        }
        Some(calc_aon(w.as_slice()))
    } else {
        None
    }
}

/// Trimmed mean of a whole window of records: the sum less one instance
/// of the minimum and one of the maximum, divided by the window length
/// minus two.
pub fn calc_aon(set: &[Time]) -> (r: u64)
    requires
        3 <= set@.len(),
        seq_sum(raw_of(set@)) <= u64::MAX,
    ensures
        r == trimmed_mean(raw_of(set@)),
{
    let ghost raw = raw_of(set@);
    let first = set[0].time;
    let mut sum: u64 = first;
    let mut mn: u64 = first;
    let mut mx: u64 = first;
    let mut i: usize = 1;
    proof {
        assert(raw.subrange(0, 1) =~= seq![first]);
        lemma_seq_singleton(first);
    }
    while i < set.len()
        invariant
            1 <= i <= raw.len(),
            raw == raw_of(set@),
            seq_sum(raw) <= u64::MAX,
            sum == seq_sum(raw.subrange(0, i as int)),
            mn == seq_min(raw.subrange(0, i as int)),
            mx == seq_max(raw.subrange(0, i as int)),
        decreases raw.len() - i,
    {
        let v = set[i].time;
        proof {
            assert(raw.subrange(0, i + 1) =~= raw.subrange(0, i as int).push(raw[i as int]));
            lemma_seq_sum_push(raw.subrange(0, i as int), v);
            lemma_seq_min_push(raw.subrange(0, i as int), v);
            lemma_seq_max_push(raw.subrange(0, i as int), v);
            lemma_seq_sum_subrange_le(raw, 0, i + 1);
            lemma_seq_sum_nonneg(raw.subrange(0, i as int));
        }
        sum = sum + v;
        if v < mn {
            mn = v;
        }
        if v > mx {
            mx = v;
        }
        i += 1;
    }
    proof {
        assert(raw.subrange(0, raw.len() as int) =~= raw);
        lemma_min_max_le_sum(raw);
        lemma_seq_min_max_bounds(raw);
    }
    (sum - mn - mx) / ((set.len() - 2) as u64)
}

/// The solve history: records in insertion order (oldest first) plus the
/// aggregates that each insertion updates incrementally.
///
/// The ghost field `hist` holds every raw duration ever inserted, in
/// insertion order; `ao5s` and `ao12s` hold every defined average-of-5 /
/// average-of-12 seen at insertion time. Deletion removes records from
/// `times` but, like the aggregates, never touches these, so the
/// aggregate invariants survive deletions.
pub struct Times {
    pub times: Vec<Time>,
    pub pbsingle: Option<u64>,
    pub pbao5: Option<u64>,
    pub pbao12: Option<u64>,
    pub ao100: Option<u64>,
    pub ao1k: Option<u64>,
    pub rollingavg: Option<u64>,
    pub sum: u64,
    pub hist: Ghost<Seq<u64>>,
    pub ao5s: Ghost<Seq<u64>>,
    pub ao12s: Ghost<Seq<u64>>,
}

impl Times {
    /// Raw durations of the records currently stored, oldest first.
    pub open spec fn raw(self) -> Seq<u64> {
        raw_of(self.times@)
    }

    /// The aggregate invariant: `sum` totals every duration ever
    /// inserted, each personal best is the minimum of the values seen so
    /// far, and the stored records never sum to more than the total.
    pub open spec fn wf(self) -> bool {
        &&& self.sum == seq_sum(self.hist@)
        &&& seq_sum(self.raw()) <= seq_sum(self.hist@)
        &&& self.times@.len() <= self.hist@.len()
        &&& self.pbsingle == min_opt(self.hist@)
        &&& self.pbao5 == min_opt(self.ao5s@)
        &&& self.pbao12 == min_opt(self.ao12s@)
        &&& (self.rollingavg.is_some() <==> self.hist@.len() > 0)
    }

    /// A history exactly as replaying its stored records through `insert`
    /// would build it: nothing was ever deleted, so every aggregate and
    /// every record's stored averages are determined by the raw sequence.
    pub open spec fn fresh(self) -> bool {
        &&& self.wf()
        &&& self.hist@ == self.raw()
        &&& self.ao5s@ == ao_values(self.raw(), 5)
        &&& self.ao12s@ == ao_values(self.raw(), 12)
        &&& self.rollingavg == if self.raw().len() == 0 {
            None::<u64>
        } else {
            Some((seq_sum(self.raw()) / self.raw().len() as int) as u64)
        }
        &&& self.ao100 == ao_at(self.raw(), 100)
        &&& self.ao1k == ao_at(self.raw(), 1000)
        &&& forall|i: int|
            0 <= i < self.times@.len() ==> {
                &&& (#[trigger] self.times@[i]).time == self.raw()[i]
                &&& self.times@[i].ao5 == ao_at(self.raw().subrange(0, i + 1), 5)
                &&& self.times@[i].ao12 == ao_at(self.raw().subrange(0, i + 1), 12)
            }
    }

    /// An empty history with no aggregates set.
    pub fn new() -> (r: Times)
        ensures
            r.wf(),
            r.fresh(),
            r.times@ =~= Seq::<Time>::empty(),
            r.hist@ =~= Seq::<u64>::empty(),
            r.ao5s@ =~= Seq::<u64>::empty(),
            r.ao12s@ =~= Seq::<u64>::empty(),
            r.pbsingle is None,
            r.pbao5 is None,
            r.pbao12 is None,
            r.ao100 is None,
            r.ao1k is None,
            r.rollingavg is None,
            r.sum == 0,
    {
        let r = Times {
            times: Vec::new(),
            pbsingle: None,
            pbao5: None,
            pbao12: None,
            ao100: None,
            ao1k: None,
            rollingavg: None,
            sum: 0,
            hist: Ghost(Seq::empty()),
            ao5s: Ghost(Seq::empty()),
            ao12s: Ghost(Seq::empty()),
        };
        proof {
            assert(r.raw() =~= Seq::<u64>::empty());
        }
        r
    }

    /// Append one solve. The record's averages are computed here, from
    /// the stored history plus the new record; the personal bests, the
    /// long-window averages, the running sum and the cumulative mean are
    /// then updated in place.
    #[verifier::rlimit(30)]
    pub fn insert(&mut self, time: Time)
        requires
            old(self).wf(),
            old(self).sum + time.time <= u64::MAX,
        ensures
            final(self).wf(),
            final(self).times@ == old(self).times@.push(
                Time {
                    time: time.time,
                    ao5: ao_at(old(self).raw().push(time.time), 5),
                    ao12: ao_at(old(self).raw().push(time.time), 12),
                },
            ),
            final(self).hist@ == old(self).hist@.push(time.time),
            final(self).ao5s@ == old(self).ao5s@ + opt_seq(
                ao_at(old(self).raw().push(time.time), 5),
            ),
            final(self).ao12s@ == old(self).ao12s@ + opt_seq(
                ao_at(old(self).raw().push(time.time), 12),
            ),
            final(self).sum == old(self).sum + time.time,
            final(self).rollingavg == Some(
                ((old(self).sum + time.time) / final(self).times@.len() as int) as u64,
            ),
            final(self).pbsingle == opt_min(old(self).pbsingle, Some(time.time)),
            final(self).pbao5 == opt_min(
                old(self).pbao5,
                ao_at(old(self).raw().push(time.time), 5),
            ),
            final(self).pbao12 == opt_min(
                old(self).pbao12,
                ao_at(old(self).raw().push(time.time), 12),
            ),
            final(self).ao100 == if old(self).times@.len() + 1 >= 100 {
                Some(trimmed_mean(last_n(old(self).raw().push(time.time), 100)))
            } else {
                old(self).ao100
            },
            final(self).ao1k == if old(self).times@.len() + 1 >= 1000 {
                Some(trimmed_mean(last_n(old(self).raw().push(time.time), 1000)))
            } else {
                old(self).ao1k
            },
            old(self).fresh() ==> final(self).fresh(),
    {
        let ghost old_raw = self.raw();
        let ghost pushed = old_raw.push(time.time);
        proof {
            lemma_seq_sum_nonneg(old_raw);
            lemma_seq_sum_push(old_raw, time.time);
            lemma_seq_sum_push(self.hist@, time.time);
        }
        let mut rec = time;
        rec.gen_stats(&self.times);
        self.times.push(rec);
        proof {
            assert(self.raw() =~= pushed);
        }
        Self::update_best(&mut self.pbsingle, Some(rec.time));
        Self::update_best(&mut self.pbao5, rec.ao5);
        Self::update_best(&mut self.pbao12, rec.ao12);

        if self.times.len() >= 100 {
            let len = self.times.len();
            let s = self.times.as_slice();
            let w100 = &s[len - 100..len];
            proof {
                assert(raw_of(w100@) =~= last_n(pushed, 100));
                lemma_seq_sum_subrange_le(pushed, pushed.len() - 100, pushed.len() as int);
            }
            self.ao100 = Some(calc_aon(w100));
            if len >= 1000 {
                let w1k = &s[len - 1000..len];
                proof {
                    assert(raw_of(w1k@) =~= last_n(pushed, 1000));
                    lemma_seq_sum_subrange_le(pushed, pushed.len() - 1000, pushed.len() as int);
                }
                self.ao1k = Some(calc_aon(w1k));
            }
        }

        self.sum = self.sum + time.time;
        proof {
            if old(self).rollingavg is None {
                assert(old(self).hist@.len() == 0);
                assert(old(self).times@.len() == 0);
                assert(self.times@.len() == 1);
            }
        }
        self.rollingavg = match self.rollingavg {
            Some(_) => Some(self.sum / self.times.len() as u64),
            None => Some(time.time),
        };
        proof {
            if old(self).rollingavg is None {
                assert(self.times@.len() == 1);
                assert(self.sum as int / 1int == self.sum as int) by (nonlinear_arith);
            }
        }

        proof {
            lemma_min_opt_push(old(self).hist@, time.time);
            if rec.ao5 is Some {
                lemma_min_opt_push(old(self).ao5s@, rec.ao5->0);
                assert(old(self).ao5s@.push(rec.ao5->0) =~= old(self).ao5s@ + opt_seq(rec.ao5));
            } else {
                assert(old(self).ao5s@ + opt_seq(rec.ao5) =~= old(self).ao5s@);
            }
            if rec.ao12 is Some {
                lemma_min_opt_push(old(self).ao12s@, rec.ao12->0);
                assert(old(self).ao12s@.push(rec.ao12->0) =~= old(self).ao12s@ + opt_seq(
                    rec.ao12,
                ));
            } else {
                assert(old(self).ao12s@ + opt_seq(rec.ao12) =~= old(self).ao12s@);
            }
        }
        self.hist = Ghost(self.hist@.push(time.time));
        self.ao5s = Ghost(self.ao5s@ + opt_seq(rec.ao5));
        self.ao12s = Ghost(self.ao12s@ + opt_seq(rec.ao12));
        proof {
            if old(self).fresh() {
                let new_raw = self.raw();
                assert(new_raw == pushed);
                assert(new_raw.drop_last() =~= old_raw);
                assert(self.ao5s@ == ao_values(new_raw, 5));
                assert(self.ao12s@ == ao_values(new_raw, 12));
                assert forall|i: int| 0 <= i < self.times@.len() implies {
                    &&& (#[trigger] self.times@[i]).time == new_raw[i]
                    &&& self.times@[i].ao5 == ao_at(new_raw.subrange(0, i + 1), 5)
                    &&& self.times@[i].ao12 == ao_at(new_raw.subrange(0, i + 1), 12)
                } by {
                    if i < old(self).times@.len() {
                        assert(new_raw.subrange(0, i + 1) =~= old_raw.subrange(0, i + 1));
                        assert(self.times@[i] == old(self).times@[i]);
                    } else {
                        assert(new_raw.subrange(0, i + 1) =~= new_raw);
                    }
                }
            }
        }
    }

    /// Lower `curr` to `t` where `t` is defined and beats it; a first
    /// defined value always sets it.
    fn update_best(curr: &mut Option<u64>, t: Option<u64>)
        ensures
            *final(curr) == opt_min(*old(curr), t),
    {
        let new = match t {
            Some(x) => x,
            None => {
                return ;
            },
        };
        match curr {
            Some(v) => {
                if new < *v {
                    *curr = Some(new);
                }
            },
            None => {
                *curr = Some(new);
            },
        }
    }
}

/// Removing one element takes exactly its value out of the sum.
pub proof fn lemma_seq_sum_remove(s: Seq<u64>, i: int)
    requires
        0 <= i < s.len(),
    ensures
        seq_sum(s.remove(i)) + s[i] == seq_sum(s),
{
    lemma_seq_sum_split(s, i);
    let tail = s.subrange(i, s.len() as int);
    lemma_seq_sum_split(tail, 1);
    assert(tail.subrange(0, 1) =~= seq![s[i]]);
    lemma_seq_singleton(s[i]);
    let r = s.remove(i);
    lemma_seq_sum_split(r, i);
    assert(r.subrange(0, i) =~= s.subrange(0, i));
    assert(r.subrange(i, r.len() as int) =~= tail.subrange(1, tail.len() as int));
}

/// A window average is defined exactly once enough solves exist: in a
/// history built by insertions alone, a record's ao5 is defined iff at
/// least 5 records existed the moment it was inserted, its ao12 iff at
/// least 12 did, and the 100- and 1000-window aggregates are defined iff
/// that many records are stored.
pub proof fn lemma_ao_defined(h: Times)
    requires
        h.fresh(),
    ensures
        forall|i: int|
            0 <= i < h.times@.len() ==> ((#[trigger] h.times@[i]).ao5 is Some <==> i + 1 >= 5),
        forall|i: int|
            0 <= i < h.times@.len() ==> ((#[trigger] h.times@[i]).ao12 is Some <==> i + 1 >= 12),
        h.ao100 is Some <==> h.times@.len() >= 100,
        h.ao1k is Some <==> h.times@.len() >= 1000,
{
    assert forall|i: int| 0 <= i < h.times@.len() implies ((#[trigger] h.times@[i]).ao5 is Some
        <==> i + 1 >= 5) && (h.times@[i].ao12 is Some <==> i + 1 >= 12) by {
        assert(h.raw().subrange(0, i + 1).len() == i + 1);
    }
}

/// Each personal best equals the minimum of all values of its kind seen
/// so far: it is absent while none was seen, and otherwise is one of the
/// values seen and no larger than any of them.
pub proof fn lemma_pb_is_minimum(h: Times)
    requires
        h.wf(),
    ensures
        h.pbsingle is None <==> h.hist@.len() == 0,
        h.pbsingle is Some ==> h.hist@.contains(h.pbsingle->0) && forall|i: int|
            0 <= i < h.hist@.len() ==> h.pbsingle->0 <= #[trigger] h.hist@[i],
        h.pbao5 is None <==> h.ao5s@.len() == 0,
        h.pbao5 is Some ==> h.ao5s@.contains(h.pbao5->0) && forall|i: int|
            0 <= i < h.ao5s@.len() ==> h.pbao5->0 <= #[trigger] h.ao5s@[i],
        h.pbao12 is None <==> h.ao12s@.len() == 0,
        h.pbao12 is Some ==> h.ao12s@.contains(h.pbao12->0) && forall|i: int|
            0 <= i < h.ao12s@.len() ==> h.pbao12->0 <= #[trigger] h.ao12s@[i],
{
    if h.hist@.len() > 0 {
        lemma_seq_min_max_bounds(h.hist@);
    }
    if h.ao5s@.len() > 0 {
        lemma_seq_min_max_bounds(h.ao5s@);
    }
    if h.ao12s@.len() > 0 {
        lemma_seq_min_max_bounds(h.ao12s@);
    }
}

/// A personal best never rises: folding one more observation into a
/// defined best yields a defined value no larger than before. Together
/// with `insert`'s postconditions on `pbsingle`, `pbao5` and `pbao12`
/// this makes every personal best non-increasing across the insertion
/// sequence.
pub proof fn lemma_pb_non_increasing(a: Option<u64>, b: Option<u64>)
    requires
        a is Some,
    ensures
        opt_min(a, b) is Some,
        opt_min(a, b)->0 <= a->0,
{
}

/// After any number of insertions with no deletions, the cumulative mean
/// equals the integer mean of all raw times inserted.
pub proof fn lemma_rolling_avg_is_mean(h: Times)
    requires
        h.fresh(),
        h.times@.len() > 0,
    ensures
        h.rollingavg == Some((seq_sum(h.raw()) / h.raw().len() as int) as u64),
{
}

} // verus!
