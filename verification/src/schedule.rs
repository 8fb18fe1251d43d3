//! The daily timetable of parsing sessions: the times of day at which a
//! session starts, and how long to wait for the next one.

use vstd::prelude::*;

verus! {

/// A time of day as `chrono::NaiveTime` holds it: seconds since midnight and
/// a fraction in nanoseconds, which reaches past one second only in a leap
/// second, at the 59th second of a minute.
#[derive(Debug, Clone, Copy, PartialEq, Eq, Structural)]
pub struct TimeOfDay {
    pub secs: u32,
    pub frac: u32,
}

/// Nanoseconds in a second.
pub open spec fn nanos_per_sec() -> int {
    1_000_000_000
}

/// Nanoseconds in a day.
pub open spec fn nanos_per_day() -> int {
    86_400_000_000_000
}

impl TimeOfDay {
    /// A time that `NaiveTime` can hold.
    pub open spec fn valid(self) -> bool {
        &&& self.secs < 86_400
        &&& self.frac < 2_000_000_000
        &&& self.frac >= 1_000_000_000 ==> self.secs % 60 == 59
    }
}

/// The order of times of day: by seconds, then by fraction.
pub open spec fn time_lt(a: TimeOfDay, b: TimeOfDay) -> bool {
    a.secs < b.secs || (a.secs == b.secs && a.frac < b.frac)
}

/// `NaiveTime::signed_duration_since(later, earlier)` in nanoseconds: the
/// difference of the seconds, counting a leap second that lies between the
/// two, plus the difference of the fractions.
pub open spec fn nanos_since(later: TimeOfDay, earlier: TimeOfDay) -> int {
    let secs = later.secs - earlier.secs + if later.secs > earlier.secs && earlier.frac >= 1_000_000_000 {
        1int
    } else if later.secs < earlier.secs && later.frac >= 1_000_000_000 {
        -1int
    } else {
        0int
    };
    secs * nanos_per_sec() + (later.frac - earlier.frac)
}

/// `chrono::NaiveTime::signed_duration_since`, on times given by seconds and
/// fraction, the result in nanoseconds. Claimed: the formula of
/// `nanos_since`, which is what the function's source computes.
#[verifier::external_body]
pub(crate) fn signed_duration_since(later: TimeOfDay, earlier: TimeOfDay) -> (r: i64)
    requires
        later.valid(),
        earlier.valid(),
    ensures
        r == nanos_since(later, earlier),
{
    let a = chrono::NaiveTime::from_num_seconds_from_midnight_opt(later.secs, later.frac).unwrap();
    let b = chrono::NaiveTime::from_num_seconds_from_midnight_opt(earlier.secs, earlier.frac).unwrap();
    a.signed_duration_since(b).num_nanoseconds().unwrap()
}

/// How long to sleep for a span of `delta` nanoseconds to the next start:
/// a span whose whole seconds are negative is moved a day on; a span still
/// negative is no wait.
pub open spec fn wait_for(delta: int) -> int {
    let d = if delta <= -nanos_per_sec() {
        delta + nanos_per_day()
    } else {
        delta
    };
    if d < 0 {
        0
    } else {
        d
    }
}

/// Strictly increasing times.
pub open spec fn strictly_sorted(s: Seq<TimeOfDay>) -> bool {
    forall|i: int, j: int| 0 <= i < j < s.len() ==> time_lt(#[trigger] s[i], #[trigger] s[j])
}

/// The index before which all times are earlier than `now` and from which none is.
pub open spec fn is_insertion_point(s: Seq<TimeOfDay>, now: TimeOfDay, k: int) -> bool {
    &&& 0 <= k <= s.len()
    &&& forall|j: int| 0 <= j < k ==> time_lt(#[trigger] s[j], now)
    &&& forall|j: int| k <= j < s.len() ==> !time_lt(#[trigger] s[j], now)
}

/// Where `binary_search` would insert `now`.
pub open spec fn insertion_point(s: Seq<TimeOfDay>, now: TimeOfDay) -> int {
    choose|k: int| is_insertion_point(s, now, k)
}

/// The wait, in nanoseconds, before the next start after `now`: none where
/// `now` is a start; else until the first start after `now`, or the first of
/// the next day where none is left today.
pub open spec fn spec_next_wait(s: Seq<TimeOfDay>, now: TimeOfDay) -> Option<int> {
    if s.len() == 0 {
        None
    } else if s.contains(now) {
        Some(0)
    } else {
        Some(wait_for(nanos_since(s[insertion_point(s, now) % (s.len() as int)], now)))
    }
}

proof fn lemma_insert_contains(s: Seq<TimeOfDay>, j: int, t: TimeOfDay, x: TimeOfDay)
    requires
        0 <= j <= s.len(),
    ensures
        s.insert(j, t).contains(x) <==> (s.contains(x) || x == t),
{
    let u = s.insert(j, t);
    if u.contains(x) {
        let w = choose|w: int| 0 <= w < u.len() && #[trigger] u[w] == x;
        if w < j {
            assert(s[w] == x);
        } else if w > j {
            assert(s[w - 1] == x);
        }
    }
    if s.contains(x) {
        let w = choose|w: int| 0 <= w < s.len() && #[trigger] s[w] == x;
        if w < j {
            assert(u[w] == x);
        } else {
            assert(u[w + 1] == x);
        }
    }
    if x == t {
        assert(u[j] == t);
    }
}

proof fn lemma_push_contains(s: Seq<TimeOfDay>, t: TimeOfDay, x: TimeOfDay)
    ensures
        s.push(t).contains(x) <==> (s.contains(x) || x == t),
{
    let u = s.push(t);
    if u.contains(x) {
        let w = choose|w: int| 0 <= w < u.len() && #[trigger] u[w] == x;
        if w < s.len() {
            assert(s[w] == x);
        }
    }
    if s.contains(x) {
        let w = choose|w: int| 0 <= w < s.len() && #[trigger] s[w] == x;
        assert(u[w] == x);
    }
    if x == t {
        assert(u[s.len() as int] == t);
    }
}

proof fn lemma_insertion_point_is(s: Seq<TimeOfDay>, now: TimeOfDay, k: int)
    requires
        is_insertion_point(s, now, k),
    ensures
        insertion_point(s, now) == k,
{
    let c = choose|c: int| is_insertion_point(s, now, c);
    assert(is_insertion_point(s, now, c));
    if c < k {
        assert(time_lt(s[c], now));
    } else if c > k {
        assert(time_lt(s[k], now));
    }
}

/// The span from a time to a later one is positive.
proof fn lemma_later_span(later: TimeOfDay, earlier: TimeOfDay)
    requires
        later.valid(),
        earlier.valid(),
        time_lt(earlier, later),
    ensures
        nanos_since(later, earlier) > 0,
{
}

/// Where `now` is no start and a start comes later the same day, the wait
/// runs to the least start later than `now`.
pub proof fn lemma_wait_for_next_start(s: Seq<TimeOfDay>, now: TimeOfDay, j: int)
    requires
        strictly_sorted(s),
        forall|i: int| 0 <= i < s.len() ==> (#[trigger] s[i]).valid(),
        now.valid(),
        !s.contains(now),
        0 <= j < s.len(),
        time_lt(now, s[j]),
    ensures
        ({
            let k = insertion_point(s, now);
            &&& 0 <= k < s.len()
            &&& time_lt(now, s[k])
            &&& forall|i: int| 0 <= i < s.len() && time_lt(now, #[trigger] s[i]) ==> !time_lt(s[i], s[k])
            &&& spec_next_wait(s, now) == Some(nanos_since(s[k], now))
        }),
{
    let k = choose|k: int| 0 <= k <= j && !time_lt(s[k], now) && forall|i: int| 0 <= i < k ==> time_lt(#[trigger] s[i], now);
    assert(exists|k: int| 0 <= k <= j && !time_lt(s[k], now) && forall|i: int| 0 <= i < k ==> time_lt(#[trigger] s[i], now)) by {
        lemma_first_not_earlier(s, now, j);
    }
    assert(is_insertion_point(s, now, k)) by {
        assert forall|i: int| k <= i < s.len() implies !time_lt(#[trigger] s[i], now) by {
            if i > k {
                assert(time_lt(s[k], s[i]));
            }
        }
    }
    lemma_insertion_point_is(s, now, k);
    assert(s[k] != now);
    assert(time_lt(now, s[k]));
    assert((k as int) % (s.len() as int) == k) by (nonlinear_arith)
        requires
            0 <= k < s.len(),
    ;
    lemma_later_span(s[k], now);
    assert forall|i: int| 0 <= i < s.len() && time_lt(now, #[trigger] s[i]) implies !time_lt(s[i], s[k]) by {
        if i < k {
            assert(time_lt(s[i], now));
        } else if i > k {
            assert(time_lt(s[k], s[i]));
        }
    }
}

proof fn lemma_first_not_earlier(s: Seq<TimeOfDay>, now: TimeOfDay, j: int)
    requires
        0 <= j < s.len(),
        !time_lt(s[j], now),
    ensures
        exists|k: int| 0 <= k <= j && !time_lt(s[k], now) && forall|i: int| 0 <= i < k ==> time_lt(#[trigger] s[i], now),
    decreases j,
{
    if forall|i: int| 0 <= i < j ==> time_lt(#[trigger] s[i], now) {
        assert(0 <= j <= j && !time_lt(s[j], now) && forall|i: int| 0 <= i < j ==> time_lt(#[trigger] s[i], now));
    } else {
        let i = choose|i: int| 0 <= i < j && !time_lt(#[trigger] s[i], now);
        lemma_first_not_earlier(s, now, i);
    }
}

/// Where every start is earlier than `now`, the wait runs to the first start,
/// the earliest, of the next day.
pub proof fn lemma_wait_for_first_start(s: Seq<TimeOfDay>, now: TimeOfDay)
    requires
        strictly_sorted(s),
        s.len() > 0,
        forall|i: int| 0 <= i < s.len() ==> time_lt(#[trigger] s[i], now),
    ensures
        forall|i: int| 0 <= i < s.len() ==> !time_lt(#[trigger] s[i], s[0]),
        spec_next_wait(s, now) == Some(wait_for(nanos_since(s[0], now))),
{
    assert(is_insertion_point(s, now, s.len() as int));
    lemma_insertion_point_is(s, now, s.len() as int);
    assert(!s.contains(now)) by {
        if s.contains(now) {
            let w = choose|w: int| 0 <= w < s.len() && #[trigger] s[w] == now;
            assert(time_lt(s[w], now));
        }
    }
    assert((s.len() as int) % (s.len() as int) == 0) by (nonlinear_arith)
        requires
            s.len() > 0,
    ;
    assert forall|i: int| 0 <= i < s.len() implies !time_lt(#[trigger] s[i], s[0]) by {
        if i > 0 {
            assert(time_lt(s[0], s[i]));
        }
    }
}

/// Where no start lies in a leap second, the wait before the next start is
/// less than a day.
pub proof fn lemma_wait_under_a_day(s: Seq<TimeOfDay>, now: TimeOfDay)
    requires
        strictly_sorted(s),
        forall|i: int| 0 <= i < s.len() ==> (#[trigger] s[i]).valid() && s[i].frac < 1_000_000_000,
        now.valid(),
        s.len() > 0,
    ensures
        spec_next_wait(s, now) matches Some(w) && 0 <= w < nanos_per_day(),
{
    if s.contains(now) {
    } else if exists|j: int| 0 <= j < s.len() && time_lt(now, #[trigger] s[j]) {
        let j = choose|j: int| 0 <= j < s.len() && time_lt(now, #[trigger] s[j]);
        lemma_wait_for_next_start(s, now, j);
    } else {
        assert forall|i: int| 0 <= i < s.len() implies time_lt(#[trigger] s[i], now) by {
            assert(!time_lt(now, s[i]));
            assert(s[i] != now);
        }
        lemma_wait_for_first_start(s, now);
    }
}

/// Two timetables with the same start times are the same: the times, sorted
/// strictly, are fixed by their set.
pub proof fn lemma_same_times_same_table(a: Seq<TimeOfDay>, b: Seq<TimeOfDay>)
    requires
        strictly_sorted(a),
        strictly_sorted(b),
        forall|t: TimeOfDay| a.contains(t) <==> b.contains(t),
    ensures
        a == b,
    decreases a.len(),
{
    if a.len() == 0 {
        if b.len() > 0 {
            assert(b.contains(b[0]));
        }
        assert(a =~= b);
    } else {
        if b.len() == 0 {
            assert(a.contains(a[0]));
        }
        assert(b.contains(a[0]));
        assert(a.contains(b[0]));
        let i = choose|i: int| 0 <= i < b.len() && #[trigger] b[i] == a[0];
        let k = choose|k: int| 0 <= k < a.len() && #[trigger] a[k] == b[0];
        if i > 0 {
            assert(time_lt(b[0], b[i]));
            if k > 0 {
                assert(time_lt(a[0], a[k]));
            }
        }
        if k > 0 {
            assert(time_lt(a[0], a[k]));
        }
        assert(a[0] == b[0]);
        let a1 = a.drop_first();
        let b1 = b.drop_first();
        assert forall|t: TimeOfDay| a1.contains(t) <==> b1.contains(t) by {
            if a1.contains(t) {
                let w = choose|w: int| 0 <= w < a1.len() && #[trigger] a1[w] == t;
                assert(a[w + 1] == t);
                assert(time_lt(a[0], a[w + 1]));
                assert(b.contains(t));
                let v = choose|v: int| 0 <= v < b.len() && #[trigger] b[v] == t;
                assert(v != 0);
                assert(b1[v - 1] == t);
            }
            if b1.contains(t) {
                let w = choose|w: int| 0 <= w < b1.len() && #[trigger] b1[w] == t;
                assert(b[w + 1] == t);
                assert(time_lt(b[0], b[w + 1]));
                assert(a.contains(t));
                let v = choose|v: int| 0 <= v < a.len() && #[trigger] a[v] == t;
                assert(v != 0);
                assert(a1[v - 1] == t);
            }
        }
        assert(strictly_sorted(a1)) by {
            assert forall|x: int, y: int| 0 <= x < y < a1.len() implies time_lt(#[trigger] a1[x], #[trigger] a1[y]) by {
                assert(a1[x] == a[x + 1] && a1[y] == a[y + 1]);
            }
        }
        assert(strictly_sorted(b1)) by {
            assert forall|x: int, y: int| 0 <= x < y < b1.len() implies time_lt(#[trigger] b1[x], #[trigger] b1[y]) by {
                assert(b1[x] == b[x + 1] && b1[y] == b[y + 1]);
            }
        }
        lemma_same_times_same_table(a1, b1);
        assert(a =~= b) by {
            assert forall|x: int| 0 <= x < a.len() implies a[x] == b[x] by {
                if x > 0 {
                    assert(a[x] == a1[x - 1]);
                    assert(b[x] == b1[x - 1]);
                }
            }
        }
    }
}

fn lt(a: TimeOfDay, b: TimeOfDay) -> (r: bool)
    ensures
        r == time_lt(a, b),
{
    a.secs < b.secs || (a.secs == b.secs && a.frac < b.frac)
}

/// The times of day at which sessions start, earliest first, each once.
#[derive(Debug)]
pub struct TimeTable {
    pub times: Vec<TimeOfDay>,
}

impl TimeTable {
    /// Well-formed: valid times, strictly increasing.
    pub open spec fn wf(&self) -> bool {
        &&& strictly_sorted(self.times@)
        &&& forall|i: int| 0 <= i < self.times@.len() ==> (#[trigger] self.times@[i]).valid()
    }

    /// The timetable of the given start times: sorted, each time kept once.
    pub fn new(times: Vec<TimeOfDay>) -> (r: TimeTable)
        requires
            forall|i: int| 0 <= i < times@.len() ==> (#[trigger] times@[i]).valid(),
        ensures
            r.wf(),
            forall|t: TimeOfDay| r.times@.contains(t) <==> times@.contains(t),
    {
        let mut out: Vec<TimeOfDay> = Vec::new();
        let mut i: usize = 0;
        while i < times.len()
            invariant
                i <= times.len(),
                forall|k: int| 0 <= k < times@.len() ==> (#[trigger] times@[k]).valid(),
                strictly_sorted(out@),
                forall|k: int| 0 <= k < out@.len() ==> (#[trigger] out@[k]).valid(),
                forall|t: TimeOfDay| out@.contains(t) <==> times@.subrange(0, i as int).contains(t),
            decreases times.len() - i,
        {
            let t = times[i];
            let mut j: usize = 0;
            while j < out.len() && lt(out[j], t)
                invariant
                    j <= out.len(),
                    forall|k: int| 0 <= k < j ==> time_lt(#[trigger] out@[k], t),
                decreases out.len() - j,
            {
                j += 1;
            }
            let ghost before = out@;
            proof {
                assert(times@.subrange(0, i + 1) =~= times@.subrange(0, i as int).push(t));
            }
            if j < out.len() && out[j] == t {
                proof {
                    assert forall|x: TimeOfDay| out@.contains(x) <==> times@.subrange(0, i + 1).contains(x) by {
                        lemma_push_contains(times@.subrange(0, i as int), t, x);
                        if x == t {
                            assert(out@[j as int] == t);
                        }
                    }
                }
            } else {
                out.insert(j, t);
                proof {
                    assert forall|a: int, b: int| 0 <= a < b < out@.len() implies time_lt(
                        #[trigger] out@[a],
                        #[trigger] out@[b],
                    ) by {
                        if b < j {
                            assert(out@[a] == before[a] && out@[b] == before[b]);
                        } else if b == j {
                            assert(out@[a] == before[a]);
                        } else if a < j {
                            assert(out@[a] == before[a] && out@[b] == before[b - 1]);
                            assert(time_lt(before[a], t));
                            if j < before.len() {
                                assert(!time_lt(before[j as int], t));
                                assert(time_lt(before[a], before[j as int]) || a == j);
                            }
                        } else if a == j {
                            assert(out@[b] == before[b - 1]);
                            assert(!time_lt(before[j as int], t));
                            assert(before[j as int] != t);
                            if b - 1 > j {
                                assert(time_lt(before[j as int], before[b - 1]));
                            }
                        } else {
                            assert(out@[a] == before[a - 1] && out@[b] == before[b - 1]);
                        }
                    }
                    assert forall|x: TimeOfDay| out@.contains(x) <==> times@.subrange(0, i + 1).contains(x) by {
                        lemma_insert_contains(before, j as int, t, x);
                        lemma_push_contains(times@.subrange(0, i as int), t, x);
                    }
                }
            }
            i += 1;
        }
        proof {
            assert(times@.subrange(0, times@.len() as int) =~= times@);
        }
        TimeTable { times: out }
    }

    /// The wait, in nanoseconds, before the next session after `now`; `None`
    /// where the timetable is empty.
    pub fn next_wait(&self, now: TimeOfDay) -> (r: Option<u64>)
        requires
            self.wf(),
            now.valid(),
        ensures
            match spec_next_wait(self.times@, now) {
                None => r is None,
                Some(w) => r matches Some(x) && x == w,
            },
    {
        let n = self.times.len();
        if n == 0 {
            return None;
        }
        let mut k: usize = 0;
        while k < n && lt(self.times[k], now)
            invariant
                n == self.times.len(),
                k <= n,
                forall|j: int| 0 <= j < k ==> time_lt(#[trigger] self.times@[j], now),
            decreases n - k,
        {
            k += 1;
        }
        proof {
            assert(is_insertion_point(self.times@, now, k as int)) by {
                assert forall|j: int| k <= j < n implies !time_lt(#[trigger] self.times@[j], now) by {
                    if j > k {
                        assert(time_lt(self.times@[k as int], self.times@[j]));
                    }
                }
            }
            let c = choose|c: int| is_insertion_point(self.times@, now, c);
            assert(c == k) by {
                if c < k {
                    assert(time_lt(self.times@[c], now));
                } else if c > k {
                    assert(time_lt(self.times@[k as int], now));
                }
            }
        }
        if k < n && self.times[k] == now {
            proof {
                assert(self.times@.contains(now)) by {
                    assert(self.times@[k as int] == now);
                }
            }
            return Some(0);
        }
        proof {
            assert(!self.times@.contains(now)) by {
                if self.times@.contains(now) {
                    let w = choose|w: int| 0 <= w < n && #[trigger] self.times@[w] == now;
                    if w < k {
                        assert(time_lt(self.times@[w], now));
                    } else if w > k {
                        assert(time_lt(self.times@[k as int], self.times@[w]));
                    }
                }
            }
        }
        let idx = if k == n { 0 } else { k };
        proof {
            if k == n {
                assert((n as int) % (n as int) == 0) by (nonlinear_arith)
                    requires
                        n > 0,
                ;
            } else {
                assert((k as int) % (n as int) == k) by (nonlinear_arith)
                    requires
                        0 <= k < n,
                ;
            }
        }
        let next = self.times[idx];
        let delta = signed_duration_since(next, now);
        let d: i64 = if delta <= -1_000_000_000 {
            delta + 86_400_000_000_000
        } else {
            delta
        };
        if d < 0 {
            Some(0)
        } else {
            Some(d as u64)
        }
    }
}

} // verus!
