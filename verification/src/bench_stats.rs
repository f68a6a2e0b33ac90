use vstd::prelude::*;

use std::time::Duration;

verus! {

/// `Duration::MAX` in nanoseconds: `u64::MAX` seconds and 999 999 999 nanoseconds.
pub const MAX_DURATION_NANOS: u128 = 18446744073709551615999999999u128;

/// `Duration::as_nanos`: the whole duration in nanoseconds. Only its bound is stated: no
/// duration is longer than `Duration::MAX`.
#[verifier::external_body]
pub(crate) fn duration_as_nanos(d: &Duration) -> (n: u128)
    ensures
        n <= MAX_DURATION_NANOS,
{
    d.as_nanos()
}

/// The sum of the first `k` values of `s`.
pub open spec fn sum_to(s: Seq<u128>, k: int) -> nat
    decreases k,
{
    if k <= 0 {
        0
    } else {
        sum_to(s, k - 1) + s[k - 1] as nat
    }
}

/// The sum of all values of `s`.
pub open spec fn sum_of(s: Seq<u128>) -> nat {
    sum_to(s, s.len() as int)
}

/// The sum of all values in the first `k` sets.
pub open spec fn sets_sum_to(sets: Seq<Seq<u128>>, k: int) -> nat
    decreases k,
{
    if k <= 0 {
        0
    } else {
        sets_sum_to(sets, k - 1) + sum_of(sets[k - 1])
    }
}

/// How many values the first `k` sets hold together.
pub open spec fn sets_count_to(sets: Seq<Seq<u128>>, k: int) -> nat
    decreases k,
{
    if k <= 0 {
        0
    } else {
        sets_count_to(sets, k - 1) + sets[k - 1].len()
    }
}

/// The sets of nanoseconds that a list of vectors holds.
pub open spec fn sets_view(sets: Seq<Vec<u128>>) -> Seq<Seq<u128>> {
    sets.map_values(|v: Vec<u128>| v@)
}

/// The sum of the first `k` counts.
pub open spec fn count_sum_to(s: Seq<usize>, k: int) -> nat
    decreases k,
{
    if k <= 0 {
        0
    } else {
        count_sum_to(s, k - 1) + s[k - 1] as nat
    }
}

/// The least, the greatest and the mean (rounded down) of the draw-call counts.
pub struct DrawStats {
    pub min: usize,
    pub max: usize,
    pub avg: usize,
}

/// What the durations of a timer come to, in nanoseconds: the shortest (or the longest
/// possible duration when there is none), the longest (or zero), their sum and number; the
/// least total of a set that is under the longest possible duration with the size of the
/// first set that has it (or zero), the greatest total of a set above zero with the size of
/// the first set that has it (or zero), and the sizes of the sets added up.
pub struct DurationStats {
    pub lowest: u128,
    pub highest: u128,
    pub total: u128,
    pub count: usize,
    pub lowest_set_total: u128,
    pub min_set_count: usize,
    pub highest_set_total: u128,
    pub max_set_count: usize,
    pub set_count_total: usize,
}

/// A running sum never passes a later one.
proof fn lemma_sum_to_mono(s: Seq<u128>, j: int, k: int)
    requires
        0 <= j <= k,
    ensures
        sum_to(s, j) <= sum_to(s, k),
    decreases k - j,
{
    if j < k {
        lemma_sum_to_mono(s, j, k - 1);
    }
}

proof fn lemma_count_sum_mono(s: Seq<usize>, j: int, k: int)
    requires
        0 <= j <= k,
    ensures
        count_sum_to(s, j) <= count_sum_to(s, k),
    decreases k - j,
{
    if j < k {
        lemma_count_sum_mono(s, j, k - 1);
    }
}

proof fn lemma_sets_sum_mono(sets: Seq<Seq<u128>>, j: int, k: int)
    requires
        0 <= j <= k,
    ensures
        sets_sum_to(sets, j) <= sets_sum_to(sets, k),
        sets_count_to(sets, j) <= sets_count_to(sets, k),
    decreases k - j,
{
    if j < k {
        lemma_sets_sum_mono(sets, j, k - 1);
    }
}

/// The least, greatest and mean draw-call count of a list of counts.
pub fn draw_call_stats(draw_calls: &Vec<usize>) -> (r: DrawStats)
    requires
        draw_calls@.len() > 0,
        count_sum_to(draw_calls@, draw_calls@.len() as int) <= usize::MAX,
    ensures
        forall|i: int| 0 <= i < draw_calls@.len() ==> r.min <= #[trigger] draw_calls@[i] && draw_calls@[i] <= r.max,
        exists|i: int| 0 <= i < draw_calls@.len() && #[trigger] draw_calls@[i] == r.min,
        exists|i: int| 0 <= i < draw_calls@.len() && #[trigger] draw_calls@[i] == r.max,
        r.avg == count_sum_to(draw_calls@, draw_calls@.len() as int) / draw_calls@.len() as nat,
{
    let s = draw_calls;
    let n = s.len();
    let mut min: usize = usize::MAX;
    let mut max: usize = 0;
    let mut total: usize = 0;
    let mut i: usize = 0;
    while i < n
        invariant
            n == s@.len(),
            i <= n,
            count_sum_to(s@, n as int) <= usize::MAX,
            total == count_sum_to(s@, i as int),
            forall|p: int| 0 <= p < i ==> min <= #[trigger] s@[p] && s@[p] <= max,
            i == 0 ==> min == usize::MAX && max == 0,
            i > 0 ==> exists|p: int| 0 <= p < i && #[trigger] s@[p] == min,
            i > 0 ==> exists|p: int| 0 <= p < i && #[trigger] s@[p] == max,
        decreases n - i,
    {
        let v = s[i];
        assert(s@[i as int] == v);
        if v < min {
            min = v;
        }
        if v > max {
            max = v;
        }
        proof {
            lemma_count_sum_mono(s@, i + 1, n as int);
        }
        total = total + v;
        proof {
            if min != v {
                let p = choose|p: int| 0 <= p < i && #[trigger] s@[p] == min;
                assert(0 <= p < i + 1 && s@[p] == min);
            }
            if max != v {
                let p = choose|p: int| 0 <= p < i && #[trigger] s@[p] == max;
                assert(0 <= p < i + 1 && s@[p] == max);
            }
        }
        i = i + 1;
    }
    DrawStats { min, max, avg: total / n }
}

/// What `duration_stats` gives for the lowest of all values, where `lowest` is it.
pub open spec fn is_lowest(sets: Seq<Seq<u128>>, lowest: u128) -> bool {
    &&& forall|p: int, q: int| 0 <= p < sets.len() && 0 <= q < sets[p].len() ==> lowest <= #[trigger] sets[p][q]
    &&& (lowest == MAX_DURATION_NANOS || exists|p: int, q: int| 0 <= p < sets.len() && 0 <= q < sets[p].len() && #[trigger] sets[p][q] == lowest)
}

/// What `duration_stats` gives for the highest of all values, where `highest` is it.
pub open spec fn is_highest(sets: Seq<Seq<u128>>, highest: u128) -> bool {
    &&& forall|p: int, q: int| 0 <= p < sets.len() && 0 <= q < sets[p].len() ==> #[trigger] sets[p][q] <= highest
    &&& (highest == 0 || exists|p: int, q: int| 0 <= p < sets.len() && 0 <= q < sets[p].len() && #[trigger] sets[p][q] == highest)
}

/// `total` is the least set total under `MAX_DURATION_NANOS` among the first `k` sets, and
/// `count` the size of the first of them with it; with no such set, the bound and zero.
pub open spec fn is_lowest_set(sets: Seq<Seq<u128>>, k: int, total: u128, count: usize) -> bool {
    &&& forall|p: int| 0 <= p < k ==> total <= #[trigger] sum_of(sets[p])
    &&& total <= MAX_DURATION_NANOS
    &&& if total == MAX_DURATION_NANOS {
        count == 0
    } else {
        exists|p: int| 0 <= p < k && #[trigger] sum_of(sets[p]) == total && count == sets[p].len()
            && forall|o: int| 0 <= o < p ==> #[trigger] sum_of(sets[o]) != total
    }
}

/// `total` is the greatest set total above zero among the first `k` sets, and `count` the
/// size of the first of them with it; with no such set, zero and zero.
pub open spec fn is_highest_set(sets: Seq<Seq<u128>>, k: int, total: u128, count: usize) -> bool {
    &&& forall|p: int| 0 <= p < k ==> #[trigger] sum_of(sets[p]) <= total
    &&& if total == 0 {
        count == 0
    } else {
        exists|p: int| 0 <= p < k && #[trigger] sum_of(sets[p]) == total && count == sets[p].len()
            && forall|o: int| 0 <= o < p ==> #[trigger] sum_of(sets[o]) != total
    }
}

/// The sum of one set, in nanoseconds.
fn set_total(set: &Vec<u128>, bound: Ghost<nat>) -> (t: u128)
    requires
        sum_of(set@) <= bound@,
        bound@ <= MAX_DURATION_NANOS,
    ensures
        t == sum_of(set@),
{
    let n = set.len();
    let mut t: u128 = 0;
    let mut j: usize = 0;
    while j < n
        invariant
            n == set@.len(),
            j <= n,
            sum_of(set@) <= MAX_DURATION_NANOS,
            t == sum_to(set@, j as int),
        decreases n - j,
    {
        proof {
            lemma_sum_to_mono(set@, j + 1, n as int);
        }
        t = t + set[j];
        j = j + 1;
    }
    t
}

/// The figures of a timer's sets of durations, in nanoseconds (see `DurationStats`).
pub fn duration_stats(sets: &Vec<Vec<u128>>) -> (r: DurationStats)
    requires
        sets_sum_to(sets_view(sets@), sets@.len() as int) <= MAX_DURATION_NANOS,
        sets_count_to(sets_view(sets@), sets@.len() as int) <= usize::MAX,
    ensures
        is_lowest(sets_view(sets@), r.lowest),
        is_highest(sets_view(sets@), r.highest),
        r.total == sets_sum_to(sets_view(sets@), sets@.len() as int),
        r.count == sets_count_to(sets_view(sets@), sets@.len() as int),
        is_lowest_set(sets_view(sets@), sets@.len() as int, r.lowest_set_total, r.min_set_count),
        is_highest_set(sets_view(sets@), sets@.len() as int, r.highest_set_total, r.max_set_count),
        r.set_count_total == r.count,
{
    let ghost ss = sets_view(sets@);
    let n = sets.len();
    let ghost whole = sets_sum_to(ss, n as int);
    let mut lowest: u128 = MAX_DURATION_NANOS;
    let mut highest: u128 = 0;
    let mut total: u128 = 0;
    let mut count: usize = 0;
    let mut i: usize = 0;
    while i < n
        invariant
            ss == sets_view(sets@),
            n == sets@.len(),
            i <= n,
            whole == sets_sum_to(ss, n as int),
            whole <= MAX_DURATION_NANOS,
            sets_count_to(ss, n as int) <= usize::MAX,
            total == sets_sum_to(ss, i as int),
            count == sets_count_to(ss, i as int),
            forall|p: int, q: int| 0 <= p < i && 0 <= q < ss[p].len() ==> lowest <= #[trigger] ss[p][q] && ss[p][q] <= highest,
            lowest == MAX_DURATION_NANOS || exists|p: int, q: int| 0 <= p < i && 0 <= q < ss[p].len() && #[trigger] ss[p][q] == lowest,
            highest == 0 || exists|p: int, q: int| 0 <= p < i && 0 <= q < ss[p].len() && #[trigger] ss[p][q] == highest,
        decreases n - i,
    {
        let set = &sets[i];
        assert(set@ == ss[i as int]);
        let m = set.len();
        let mut j: usize = 0;
        let ghost before = total;
        proof {
            lemma_sets_sum_mono(ss, i + 1, n as int);
        }
        while j < m
            invariant
                ss == sets_view(sets@),
                n == sets@.len(),
                i < n,
                set@ == ss[i as int],
                m == set@.len(),
                j <= m,
                before == sets_sum_to(ss, i as int),
                before + sum_of(ss[i as int]) <= MAX_DURATION_NANOS,
                total == before + sum_to(ss[i as int], j as int),
                forall|p: int, q: int| (0 <= p < i && 0 <= q < ss[p].len()) || (p == i && 0 <= q < j) ==> lowest <= #[trigger] ss[p][q] && ss[p][q] <= highest,
                lowest == MAX_DURATION_NANOS || exists|p: int, q: int| ((0 <= p < i && 0 <= q < ss[p].len()) || (p == i && 0 <= q < j)) && #[trigger] ss[p][q] == lowest,
                highest == 0 || exists|p: int, q: int| ((0 <= p < i && 0 <= q < ss[p].len()) || (p == i && 0 <= q < j)) && #[trigger] ss[p][q] == highest,
            decreases m - j,
        {
            let d = set[j];
            assert(ss[i as int][j as int] == d);
            if d < lowest {
                lowest = d;
            }
            if d > highest {
                highest = d;
            }
            proof {
                lemma_sum_to_mono(ss[i as int], j + 1, m as int);
            }
            total = total + d;
            j = j + 1;
        }
        proof {
            lemma_sets_sum_mono(ss, i + 1, n as int);
        }
        count = count + m;
        i = i + 1;
    }
    let mut lowest_set_total: u128 = MAX_DURATION_NANOS;
    let mut min_set_count: usize = 0;
    let mut highest_set_total: u128 = 0;
    let mut max_set_count: usize = 0;
    let mut set_count_total: usize = 0;
    let mut i: usize = 0;
    while i < n
        invariant
            ss == sets_view(sets@),
            n == sets@.len(),
            i <= n,
            whole == sets_sum_to(ss, n as int),
            whole <= MAX_DURATION_NANOS,
            sets_count_to(ss, n as int) <= usize::MAX,
            set_count_total == sets_count_to(ss, i as int),
            is_lowest_set(ss, i as int, lowest_set_total, min_set_count),
            is_highest_set(ss, i as int, highest_set_total, max_set_count),
        decreases n - i,
    {
        let set = &sets[i];
        assert(set@ == ss[i as int]);
        proof {
            lemma_sets_sum_mono(ss, i + 1, n as int);
        }
        let t = set_total(set, Ghost(whole));
        if t < lowest_set_total {
            min_set_count = set.len();
            lowest_set_total = t;
        }
        if t > highest_set_total {
            max_set_count = set.len();
            highest_set_total = t;
        }
        set_count_total = set_count_total + set.len();
        i = i + 1;
    }
    DurationStats {
        lowest,
        highest,
        total,
        count,
        lowest_set_total,
        min_set_count,
        highest_set_total,
        max_set_count,
        set_count_total,
    }
}

/// The means that a report row shows: the mean size of a set, and the mean total of a set
/// and the mean single duration in nanoseconds. Each is rounded down; the two durations are
/// divided by their count taken as a `u32`, as a `Duration` is divided by an integer.
pub struct DurationAverages {
    pub set_count: usize,
    pub set_total: u128,
    pub single: u128,
}

/// The means of a timer's figures over its `sets` sets of durations (see `DurationAverages`).
pub fn duration_averages(stats: &DurationStats, sets: usize) -> (r: DurationAverages)
    requires
        sets > 0,
        sets as u32 != 0,
        stats.count as u32 != 0,
    ensures
        r.set_count == stats.set_count_total / sets,
        r.set_total == stats.total / (sets as u32) as u128,
        r.single == stats.total / (stats.count as u32) as u128,
{
    let set_divisor: u32 = sets as u32;
    let single_divisor: u32 = stats.count as u32;
    DurationAverages {
        set_count: stats.set_count_total / sets,
        set_total: stats.total / (set_divisor as u128),
        single: stats.total / (single_divisor as u128),
    }
}

impl crate::benchmark::BenchNode {
    /// The node's sets of durations, in nanoseconds, as recorded.
    pub fn durations_nanos(&self) -> (r: Vec<Vec<u128>>)
        ensures
            r@.len() == self.durations@.len(),
            forall|i: int| 0 <= i < r@.len() ==> (#[trigger] r@[i])@ == self.durations@[i]@,
    {
        let mut r: Vec<Vec<u128>> = Vec::new();
        let n = self.durations.len();
        let mut i: usize = 0;
        while i < n
            invariant
                n == self.durations@.len(),
                i <= n,
                r@.len() == i,
                forall|p: int| 0 <= p < i ==> (#[trigger] r@[p])@ == self.durations@[p]@,
            decreases n - i,
        {
            let set = &self.durations[i];
            let m = set.len();
            let mut out: Vec<u128> = Vec::new();
            let mut j: usize = 0;
            while j < m
                invariant
                    m == set@.len(),
                    j <= m,
                    out@ == set@.subrange(0, j as int),
                decreases m - j,
            {
                out.push(set[j]);
                j = j + 1;
                assert(out@ =~= set@.subrange(0, j as int));
            }
            assert(out@ =~= set@);
            r.push(out);
            i = i + 1;
        }
        r
    }
}

} // verus!
