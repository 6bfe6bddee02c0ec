//! Ranges of source media in ticks, and the merging of many ranges into a
//! sorted list of disjoint ones.

use vstd::prelude::*;

verus! {

/// Ticks per second of the project's time base.
pub const TICKS_PER_SECOND: i64 = 254016000000;

/// A span `[start_ticks, end_ticks]` of source media.
#[derive(Debug, Clone, Copy, PartialEq, Eq, Structural)]
pub struct TimeRange {
    pub start_ticks: i64,
    pub end_ticks: i64,
}

pub open spec fn min_int(a: int, b: int) -> int {
    if a <= b { a } else { b }
}

pub open spec fn max_int(a: int, b: int) -> int {
    if a >= b { a } else { b }
}

pub open spec fn clamp_int(x: int, lo: int, hi: int) -> int {
    if x < lo { lo } else if x > hi { hi } else { x }
}

/// Division rounding towards zero, as Rust's `/` does.
pub open spec fn trunc_div(a: int, b: int) -> int
    recommends b > 0,
{
    if a >= 0 { a / b } else { -((-a) / b) }
}

impl TimeRange {
    /// A range is well formed when it does not end before it starts.
    pub open spec fn wf(self) -> bool {
        self.start_ticks <= self.end_ticks
    }

    pub open spec fn len(self) -> int {
        self.end_ticks - self.start_ticks
    }

    /// Whether the two ranges overlap or lie within `gap` ticks of each other.
    pub open spec fn mergeable(self, other: TimeRange, gap: int) -> bool {
        self.end_ticks + gap >= other.start_ticks && other.end_ticks + gap >= self.start_ticks
    }

    /// The smallest range covering both.
    pub open spec fn hull(self, other: TimeRange) -> TimeRange {
        TimeRange {
            start_ticks: if self.start_ticks <= other.start_ticks {
                self.start_ticks
            } else {
                other.start_ticks
            },
            end_ticks: if self.end_ticks >= other.end_ticks {
                self.end_ticks
            } else {
                other.end_ticks
            },
        }
    }

    /// The range with its endpoints in order.
    pub fn new(start: i64, end: i64) -> (r: TimeRange)
        ensures
            r.start_ticks == min_int(start as int, end as int),
            r.end_ticks == max_int(start as int, end as int),
            r.wf(),
    {
        if start <= end {
            TimeRange { start_ticks: start, end_ticks: end }
        } else {
            TimeRange { start_ticks: end, end_ticks: start }
        }
    }

    /// Length in ticks.
    pub fn duration(&self) -> (d: i64)
        requires
            self.len() <= i64::MAX,
            self.len() >= i64::MIN,
        ensures
            d == self.len(),
    {
        self.end_ticks - self.start_ticks
    }

    /// The frame numbers of both ends, at `ticks_per_frame` ticks a frame.
    pub fn to_frames(&self, ticks_per_frame: i64) -> (r: (i64, i64))
        requires
            ticks_per_frame > 0,
        ensures
            r.0 == trunc_div(self.start_ticks as int, ticks_per_frame as int),
            r.1 == trunc_div(self.end_ticks as int, ticks_per_frame as int),
    {
        (div_toward_zero(self.start_ticks, ticks_per_frame), div_toward_zero(
            self.end_ticks,
            ticks_per_frame,
        ))
    }

    /// The range widened by `handle_ticks` on both sides and clamped to
    /// `[0, max_duration]`.
    pub fn with_handles(&self, handle_ticks: i64, max_duration: i64) -> (r: TimeRange)
        requires
            self.wf(),
            handle_ticks >= 0,
            max_duration >= 0,
        ensures
            r.start_ticks == clamp_int(self.start_ticks - handle_ticks, 0, max_duration as int),
            r.end_ticks == clamp_int(self.end_ticks + handle_ticks, 0, max_duration as int),
            r.wf(),
    {
        let s = clamp_i128(self.start_ticks as i128 - handle_ticks as i128, max_duration);
        let e = clamp_i128(self.end_ticks as i128 + handle_ticks as i128, max_duration);
        TimeRange { start_ticks: s, end_ticks: e }
    }

    /// The union of the two ranges when they overlap or lie within
    /// `gap_tolerance` ticks of each other, else `None`.
    pub fn merge_with(&self, other: &TimeRange, gap_tolerance: i64) -> (r: Option<TimeRange>)
        ensures
            r.is_some() == self.mergeable(*other, gap_tolerance as int),
            r.is_some() ==> r.unwrap() == self.hull(*other),
    {
        let g = gap_tolerance as i128;
        if self.end_ticks as i128 + g >= other.start_ticks as i128 && other.end_ticks as i128 + g
            >= self.start_ticks as i128 {
            let s = if self.start_ticks <= other.start_ticks {
                self.start_ticks
            } else {
                other.start_ticks
            };
            let e = if self.end_ticks >= other.end_ticks {
                self.end_ticks
            } else {
                other.end_ticks
            };
            Some(TimeRange { start_ticks: s, end_ticks: e })
        } else {
            None
        }
    }
}

fn div_toward_zero(a: i64, b: i64) -> (q: i64)
    requires
        b > 0,
    ensures
        q == trunc_div(a as int, b as int),
{
    if a >= 0 {
        a / b
    } else {
        let na: i128 = -(a as i128);
        let q: i128 = na / (b as i128);
        proof {
            assert(0 <= q <= na) by (nonlinear_arith)
                requires
                    q == na / (b as i128),
                    na >= 0,
                    b > 0,
            ;
        }
        (-q) as i64
    }
}

fn clamp_i128(x: i128, hi: i64) -> (r: i64)
    requires
        hi >= 0,
    ensures
        r == clamp_int(x as int, 0, hi as int),
{
    if x < 0 {
        0
    } else if x > hi as i128 {
        hi
    } else {
        x as i64
    }
}

// ---------------------------------------------------------------------------
// Sorting by start and merging
// ---------------------------------------------------------------------------
/// Position at which `x` goes into `s` so that it follows every range that
/// starts no later than it (scanning from the back).
pub open spec fn insert_pos(s: Seq<TimeRange>, key: i64) -> nat
    decreases s.len(),
{
    if s.len() == 0 {
        0
    } else if s.last().start_ticks > key {
        insert_pos(s.drop_last(), key)
    } else {
        s.len()
    }
}

/// The ranges ordered by start; ranges with equal starts keep their order.
pub open spec fn sort_by_start(s: Seq<TimeRange>) -> Seq<TimeRange>
    decreases s.len(),
{
    if s.len() == 0 {
        s
    } else {
        let t = sort_by_start(s.drop_last());
        t.insert(insert_pos(t, s.last().start_ticks) as int, s.last())
    }
}

/// Left fold that merges each range into the last output range when
/// possible, and appends it otherwise.
pub open spec fn merge_fold(s: Seq<TimeRange>, gap: int) -> Seq<TimeRange>
    decreases s.len(),
{
    if s.len() == 0 {
        s
    } else {
        let acc = merge_fold(s.drop_last(), gap);
        let x = s.last();
        if acc.len() > 0 && acc.last().mergeable(x, gap) {
            acc.update(acc.len() - 1, acc.last().hull(x))
        } else {
            acc.push(x)
        }
    }
}

/// What `optimize_time_ranges` returns.
pub open spec fn optimized(s: Seq<TimeRange>, gap: int) -> Seq<TimeRange> {
    merge_fold(sort_by_start(s), gap)
}

pub open spec fn sorted_by_start(s: Seq<TimeRange>) -> bool {
    forall|i: int, j: int| 0 <= i < j < s.len() ==> s[i].start_ticks <= s[j].start_ticks
}

/// Sorted, and each range ends more than `gap` ticks before the next starts.
pub open spec fn separated(s: Seq<TimeRange>, gap: int) -> bool {
    &&& forall|i: int| 0 <= i < s.len() ==> #[trigger] s[i].wf()
    &&& forall|i: int|
        0 <= i < s.len() - 1 ==> #[trigger] s[i].end_ticks + gap < s[i + 1].start_ticks
}

pub open spec fn all_wf(s: Seq<TimeRange>) -> bool {
    forall|i: int| 0 <= i < s.len() ==> #[trigger] s[i].wf()
}

/// The smallest range covering every range of a non-empty list.
pub open spec fn hull_of(s: Seq<TimeRange>) -> TimeRange
    recommends
        s.len() > 0,
    decreases s.len(),
{
    if s.len() <= 1 {
        s[0]
    } else {
        hull_of(s.drop_last()).hull(s.last())
    }
}

/// Sum of the lengths.
pub open spec fn total_len(s: Seq<TimeRange>) -> int
    decreases s.len(),
{
    if s.len() == 0 {
        0
    } else {
        total_len(s.drop_last()) + s.last().len()
    }
}

fn find_insert_pos(t: &Vec<TimeRange>, key: i64) -> (p: usize)
    ensures
        p == insert_pos(t@, key),
{
    let mut p = t.len();
    assert(t@.subrange(0, t@.len() as int) =~= t@);
    while p > 0 && t[p - 1].start_ticks > key
        invariant
            p <= t.len(),
            insert_pos(t@, key) == insert_pos(t@.subrange(0, p as int), key),
        decreases p,
    {
        assert(t@.subrange(0, p as int).drop_last() =~= t@.subrange(0, p - 1));
        p = p - 1;
    }
    p
}

/// Stable sort by start.
fn sort_ranges(ranges: &[TimeRange]) -> (r: Vec<TimeRange>)
    ensures
        r@ == sort_by_start(ranges@),
{
    let mut out: Vec<TimeRange> = Vec::new();
    let mut i: usize = 0;
    while i < ranges.len()
        invariant
            i <= ranges@.len(),
            out@ == sort_by_start(ranges@.subrange(0, i as int)),
        decreases ranges@.len() - i,
    {
        let x = ranges[i];
        let p = find_insert_pos(&out, x.start_ticks);
        proof {
            lemma_insert_pos_bound(out@, x.start_ticks);
            let pre = ranges@.subrange(0, i as int + 1);
            assert(pre.drop_last() =~= ranges@.subrange(0, i as int));
            assert(pre.last() == x);
        }
        out.insert(p, x);
        i = i + 1;
    }
    assert(ranges@.subrange(0, ranges@.len() as int) =~= ranges@);
    out
}

/// Sort by start, then merge each range into its predecessor whenever the two
/// lie within `gap_tolerance` ticks of each other.
pub fn optimize_time_ranges(ranges: &[TimeRange], gap_tolerance: i64) -> (r: Vec<TimeRange>)
    ensures
        r@ == optimized(ranges@, gap_tolerance as int),
{
    let sorted = sort_ranges(ranges);
    let mut out: Vec<TimeRange> = Vec::new();
    let mut i: usize = 0;
    while i < sorted.len()
        invariant
            i <= sorted@.len(),
            out@ == merge_fold(sorted@.subrange(0, i as int), gap_tolerance as int),
        decreases sorted@.len() - i,
    {
        let x = sorted[i];
        proof {
            let pre = sorted@.subrange(0, i as int + 1);
            assert(pre.drop_last() =~= sorted@.subrange(0, i as int));
            assert(pre.last() == x);
        }
        let n = out.len();
        if n > 0 {
            let last = out[n - 1];
            match last.merge_with(&x, gap_tolerance) {
                Some(m) => {
                    out.set(n - 1, m);
                },
                None => {
                    out.push(x);
                },
            }
        } else {
            out.push(x);
        }
        i = i + 1;
    }
    assert(sorted@.subrange(0, sorted@.len() as int) =~= sorted@);
    out
}

// ---------------------------------------------------------------------------
// Laws
// ---------------------------------------------------------------------------
proof fn lemma_insert_pos_bound(t: Seq<TimeRange>, key: i64)
    ensures
        insert_pos(t, key) <= t.len(),
        forall|j: int| insert_pos(t, key) <= j < t.len() ==> t[j].start_ticks > key,
    decreases t.len(),
{
    if t.len() > 0 && t.last().start_ticks > key {
        let d = t.drop_last();
        lemma_insert_pos_bound(d, key);
        assert forall|j: int| insert_pos(t, key) <= j < t.len() implies t[j].start_ticks > key by {
            if j < t.len() - 1 {
                assert(d[j] == t[j]);
            }
        }
    }
}

proof fn lemma_insert_pos_sorted(t: Seq<TimeRange>, key: i64)
    requires
        sorted_by_start(t),
    ensures
        forall|j: int| 0 <= j < insert_pos(t, key) ==> t[j].start_ticks <= key,
    decreases t.len(),
{
    lemma_insert_pos_bound(t, key);
    if t.len() > 0 {
        let d = t.drop_last();
        if t.last().start_ticks > key {
            assert(sorted_by_start(d)) by {
                assert forall|i: int, j: int| 0 <= i < j < d.len() implies d[i].start_ticks
                    <= d[j].start_ticks by {
                    assert(d[i] == t[i] && d[j] == t[j]);
                }
            }
            lemma_insert_pos_sorted(d, key);
            assert forall|j: int| 0 <= j < insert_pos(t, key) implies t[j].start_ticks <= key by {
                assert(d[j] == t[j]);
            }
        } else {
            assert forall|j: int| 0 <= j < insert_pos(t, key) implies t[j].start_ticks <= key by {
                if j < t.len() - 1 {
                    assert(t[j].start_ticks <= t[t.len() - 1].start_ticks);
                }
            }
        }
    }
}

proof fn lemma_sort_props(s: Seq<TimeRange>)
    ensures
        sorted_by_start(sort_by_start(s)),
        sort_by_start(s).len() == s.len(),
        sort_by_start(s).to_multiset() == s.to_multiset(),
    decreases s.len(),
{
    if s.len() > 0 {
        let t = sort_by_start(s.drop_last());
        lemma_sort_props(s.drop_last());
        let x = s.last();
        let p = insert_pos(t, x.start_ticks) as int;
        lemma_insert_pos_bound(t, x.start_ticks);
        lemma_insert_pos_sorted(t, x.start_ticks);
        let u = t.insert(p, x);
        assert forall|i: int, j: int| 0 <= i < j < u.len() implies u[i].start_ticks
            <= u[j].start_ticks by {
            if i < p && j < p {
            } else if i < p && j == p {
            } else if i < p {
                assert(u[j] == t[j - 1]);
            } else if i == p {
                assert(u[j] == t[j - 1]);
            } else {
                assert(u[i] == t[i - 1]);
                assert(u[j] == t[j - 1]);
            }
        }
        broadcast use vstd::seq_lib::group_seq_properties;
        assert(u.to_multiset() =~= t.to_multiset().insert(x)) by {
            t.to_multiset_ensures();
            vstd::seq_lib::lemma_multiset_commutative(t.subrange(0, p), t.subrange(p, t.len() as int));
            assert(t.subrange(0, p) + t.subrange(p, t.len() as int) =~= t);
            assert(u =~= t.subrange(0, p) + seq![x] + t.subrange(p, t.len() as int));
            vstd::seq_lib::lemma_multiset_commutative(t.subrange(0, p) + seq![x], t.subrange(p, t.len() as int));
            vstd::seq_lib::lemma_multiset_commutative(t.subrange(0, p), seq![x]);
        }
        assert(s.drop_last().push(x) =~= s);
        s.drop_last().to_multiset_ensures();
    }
}

proof fn lemma_sort_of_increasing(s: Seq<TimeRange>)
    requires
        forall|i: int| 0 <= i < s.len() - 1 ==> #[trigger] s[i].start_ticks < s[i + 1].start_ticks,
    ensures
        sort_by_start(s) == s,
    decreases s.len(),
{
    if s.len() > 0 {
        let d = s.drop_last();
        lemma_sort_of_increasing(d);
        if d.len() > 0 {
            assert(d.last() == s[s.len() - 2]);
        }
        assert(d.insert(d.len() as int, s.last()) =~= s);
    }
}

/// Every output range of the fold lies within the hull of the input.
proof fn lemma_fold_props(s: Seq<TimeRange>, gap: int)
    requires
        all_wf(s),
        sorted_by_start(s),
        gap >= 0,
    ensures
        separated(merge_fold(s, gap), gap),
        s.len() > 0 ==> merge_fold(s, gap).len() > 0,
        s.len() > 0 ==> merge_fold(s, gap)[0].start_ticks == s[0].start_ticks,
        s.len() > 0 ==> merge_fold(s, gap).last().end_ticks <= hull_of(s).end_ticks,
        s.len() > 0 ==> merge_fold(s, gap).last().start_ticks <= s.last().start_ticks,
        s.len() > 0 ==> hull_of(s).start_ticks == s[0].start_ticks,
    decreases s.len(),
{
    if s.len() > 0 {
        let d = s.drop_last();
        let x = s.last();
        lemma_fold_props(d, gap);
        let acc = merge_fold(d, gap);
        assert(x.wf());
        if d.len() > 0 {
            assert(d.last().start_ticks <= x.start_ticks);
            assert(d[0] == s[0]);
        }
        if acc.len() > 0 && acc.last().mergeable(x, gap) {
            let r = acc.update(acc.len() - 1, acc.last().hull(x));
            assert(r[r.len() - 1] == acc.last().hull(x));
            assert forall|i: int| 0 <= i < r.len() - 1 implies #[trigger] r[i].end_ticks + gap
                < r[i + 1].start_ticks by {
                if i + 1 == r.len() - 1 {
                    assert(r[i] == acc[i]);
                    assert(acc[i].end_ticks + gap < acc[i + 1].start_ticks);
                } else {
                    assert(r[i] == acc[i]);
                    assert(r[i + 1] == acc[i + 1]);
                }
            }
            assert forall|i: int| 0 <= i < r.len() implies #[trigger] r[i].wf() by {
                if i < r.len() - 1 {
                    assert(r[i] == acc[i]);
                }
            }
        } else {
            let r = acc.push(x);
            assert forall|i: int| 0 <= i < r.len() - 1 implies #[trigger] r[i].end_ticks + gap
                < r[i + 1].start_ticks by {
                if i + 1 == r.len() - 1 {
                    assert(r[i] == acc.last());
                } else {
                    assert(r[i] == acc[i]);
                    assert(r[i + 1] == acc[i + 1]);
                }
            }
            assert forall|i: int| 0 <= i < r.len() implies #[trigger] r[i].wf() by {
                if i < r.len() - 1 {
                    assert(r[i] == acc[i]);
                }
            }
        }
    }
}

/// A separated list has no merges left to do.
proof fn lemma_fold_of_separated(s: Seq<TimeRange>, gap: int)
    requires
        separated(s, gap),
    ensures
        merge_fold(s, gap) == s,
    decreases s.len(),
{
    if s.len() > 0 {
        let d = s.drop_last();
        assert(separated(d, gap)) by {
            assert forall|i: int| 0 <= i < d.len() - 1 implies #[trigger] d[i].end_ticks + gap
                < d[i + 1].start_ticks by {
                assert(s[i].end_ticks + gap < s[i + 1].start_ticks);
            }
            assert forall|i: int| 0 <= i < d.len() implies #[trigger] d[i].wf() by {
                assert(s[i].wf());
            }
        }
        lemma_fold_of_separated(d, gap);
        if d.len() > 0 {
            assert(s[s.len() - 2].end_ticks + gap < s[s.len() - 1].start_ticks);
        }
        assert(d.push(s.last()) =~= s);
    }
}

proof fn lemma_total_len_separated(s: Seq<TimeRange>, gap: int)
    requires
        separated(s, gap),
        gap >= 0,
        s.len() > 0,
    ensures
        total_len(s) <= s.last().end_ticks - s[0].start_ticks,
    decreases s.len(),
{
    if s.len() > 1 {
        let d = s.drop_last();
        assert(separated(d, gap)) by {
            assert forall|i: int| 0 <= i < d.len() - 1 implies #[trigger] d[i].end_ticks + gap
                < d[i + 1].start_ticks by {
                assert(s[i].end_ticks + gap < s[i + 1].start_ticks);
            }
            assert forall|i: int| 0 <= i < d.len() implies #[trigger] d[i].wf() by {
                assert(s[i].wf());
            }
        }
        lemma_total_len_separated(d, gap);
        assert(s[s.len() - 2].end_ticks + gap < s[s.len() - 1].start_ticks);
        assert(d[0] == s[0]);
        assert(d.last() == s[s.len() - 2]);
        assert(s.last().wf());
        assert(total_len(s) == total_len(d) + s.last().len());
    } else {
        assert(s.drop_last().len() == 0);
        assert(total_len(s.drop_last()) == 0);
        assert(s.last() == s[0]);
        assert(s[0].wf());
    }
}

proof fn lemma_hull_perm(s: Seq<TimeRange>)
    requires
        s.len() > 0,
    ensures
        forall|i: int| 0 <= i < s.len() ==> hull_of(s).start_ticks <= #[trigger] s[i].start_ticks,
        forall|i: int| 0 <= i < s.len() ==> #[trigger] s[i].end_ticks <= hull_of(s).end_ticks,
        exists|i: int| 0 <= i < s.len() && hull_of(s).start_ticks == #[trigger] s[i].start_ticks,
        exists|i: int| 0 <= i < s.len() && hull_of(s).end_ticks == #[trigger] s[i].end_ticks,
    decreases s.len(),
{
    if s.len() > 1 {
        let d = s.drop_last();
        lemma_hull_perm(d);
        let hd = hull_of(d);
        let i0 = choose|i: int| 0 <= i < d.len() && hd.start_ticks == #[trigger] d[i].start_ticks;
        let i1 = choose|i: int| 0 <= i < d.len() && hd.end_ticks == #[trigger] d[i].end_ticks;
        assert(d[i0] == s[i0]);
        assert(d[i1] == s[i1]);
        assert forall|i: int| 0 <= i < s.len() implies hull_of(s).start_ticks
            <= #[trigger] s[i].start_ticks by {
            if i < s.len() - 1 {
                assert(d[i] == s[i]);
            }
        }
        assert forall|i: int| 0 <= i < s.len() implies #[trigger] s[i].end_ticks <= hull_of(
            s,
        ).end_ticks by {
            if i < s.len() - 1 {
                assert(d[i] == s[i]);
            }
        }
        let last = s.len() - 1;
        if hd.start_ticks <= s.last().start_ticks {
            assert(0 <= i0 < s.len() && hull_of(s).start_ticks == s[i0].start_ticks);
        } else {
            assert(0 <= last < s.len() && hull_of(s).start_ticks == s[last].start_ticks);
        }
        if hd.end_ticks >= s.last().end_ticks {
            assert(0 <= i1 < s.len() && hull_of(s).end_ticks == s[i1].end_ticks);
        } else {
            assert(0 <= last < s.len() && hull_of(s).end_ticks == s[last].end_ticks);
        }
    } else {
        assert(hull_of(s) == s[0]);
        assert(hull_of(s).start_ticks == s[0].start_ticks);
        assert(hull_of(s).end_ticks == s[0].end_ticks);
    }
}

/// The sorted copy has the same hull as the input.
proof fn lemma_sorted_hull(s: Seq<TimeRange>)
    requires
        s.len() > 0,
    ensures
        hull_of(sort_by_start(s)) == hull_of(s),
{
    let t = sort_by_start(s);
    lemma_sort_props(s);
    lemma_hull_perm(s);
    lemma_hull_perm(t);
    t.to_multiset_ensures();
    s.to_multiset_ensures();
    assert forall|x: TimeRange| t.contains(x) <==> s.contains(x) by {
        assert(t.to_multiset().count(x) == s.to_multiset().count(x));
    }
    let hs = hull_of(s);
    let ht = hull_of(t);
    let a = choose|i: int| 0 <= i < s.len() && hs.start_ticks == #[trigger] s[i].start_ticks;
    let b = choose|i: int| 0 <= i < t.len() && ht.start_ticks == #[trigger] t[i].start_ticks;
    let c = choose|i: int| 0 <= i < s.len() && hs.end_ticks == #[trigger] s[i].end_ticks;
    let d = choose|i: int| 0 <= i < t.len() && ht.end_ticks == #[trigger] t[i].end_ticks;
    assert(s.contains(s[a]));
    assert(t.contains(s[a]));
    assert(t.contains(t[b]));
    assert(s.contains(t[b]));
    assert(s.contains(s[c]));
    assert(t.contains(s[c]));
    assert(t.contains(t[d]));
    assert(s.contains(t[d]));
}

/// Merging ranges that start at or after zero gives well-formed ranges that
/// start at or after zero.
pub proof fn lemma_optimized_nonneg(ranges: Seq<TimeRange>)
    requires
        all_wf(ranges),
        forall|i: int| 0 <= i < ranges.len() ==> (#[trigger] ranges[i]).start_ticks >= 0,
    ensures
        all_wf(optimized(ranges, 0)),
        forall|i: int| 0 <= i < optimized(ranges, 0).len() ==> (#[trigger] optimized(ranges, 0)[i]).start_ticks >= 0,
{
    let s = sort_by_start(ranges);
    lemma_sort_props(ranges);
    s.to_multiset_ensures();
    ranges.to_multiset_ensures();
    assert forall|i: int| 0 <= i < s.len() implies (#[trigger] s[i]).wf() && s[i].start_ticks >= 0 by {
        assert(s.contains(s[i]));
        assert(s.to_multiset().count(s[i]) == ranges.to_multiset().count(s[i]));
        assert(ranges.contains(s[i]));
    }
    assert(all_wf(s));
    lemma_fold_props(s, 0);
    let o = merge_fold(s, 0);
    if o.len() > 0 {
        lemma_separated_starts(o, 0);
    }
}

proof fn lemma_separated_starts(o: Seq<TimeRange>, k: int)
    requires
        separated(o, 0),
        0 <= k < o.len(),
    ensures
        forall|i: int| k <= i < o.len() ==> o[k].start_ticks <= #[trigger] o[i].start_ticks,
    decreases o.len() - k,
{
    if k + 1 < o.len() {
        lemma_separated_starts(o, k + 1);
        assert(o[k].wf());
        assert(o[k].end_ticks + 0 < o[k + 1].start_ticks);
    }
}

/// With a non-negative tolerance, `merge_with` gives the same answer in
/// either order, and it merges exactly when the later start lies no more than
/// `gap_tolerance` ticks past the earlier end.
pub proof fn law_merge_with_symmetric(a: TimeRange, b: TimeRange, gap_tolerance: i64)
    requires
        a.wf(),
        b.wf(),
        gap_tolerance >= 0,
    ensures
        a.mergeable(b, gap_tolerance as int) == b.mergeable(a, gap_tolerance as int),
        a.mergeable(b, gap_tolerance as int) ==> a.hull(b) == b.hull(a),
        a.mergeable(b, gap_tolerance as int) == (max_int(
            a.start_ticks as int,
            b.start_ticks as int,
        ) <= min_int(a.end_ticks as int, b.end_ticks as int) + gap_tolerance),
{
}

/// Merging with no tolerance gives ranges sorted by start, each ending before
/// the next begins; merging that result again changes nothing.
pub proof fn law_optimize_idempotent(ranges: Seq<TimeRange>)
    requires
        all_wf(ranges),
    ensures
        separated(optimized(ranges, 0), 0),
        optimized(optimized(ranges, 0), 0) == optimized(ranges, 0),
{
    let s = sort_by_start(ranges);
    lemma_sort_props(ranges);
    assert(all_wf(s)) by {
        s.to_multiset_ensures();
        ranges.to_multiset_ensures();
        assert forall|i: int| 0 <= i < s.len() implies #[trigger] s[i].wf() by {
            assert(s.contains(s[i]));
            assert(s.to_multiset().count(s[i]) == ranges.to_multiset().count(s[i]));
            assert(ranges.contains(s[i]));
        }
    }
    lemma_fold_props(s, 0);
    let o = merge_fold(s, 0);
    assert forall|i: int| 0 <= i < o.len() - 1 implies #[trigger] o[i].start_ticks < o[i
        + 1].start_ticks by {
        assert(o[i].wf());
        assert(o[i].end_ticks + 0 < o[i + 1].start_ticks);
    }
    lemma_sort_of_increasing(o);
    lemma_fold_of_separated(o, 0);
}

/// The merged ranges together are no longer than the single range spanning
/// all of the input.
pub proof fn law_optimize_within_hull(ranges: Seq<TimeRange>)
    requires
        all_wf(ranges),
        ranges.len() > 0,
    ensures
        total_len(optimized(ranges, 0)) <= hull_of(ranges).len(),
{
    let s = sort_by_start(ranges);
    lemma_sort_props(ranges);
    assert(all_wf(s)) by {
        s.to_multiset_ensures();
        ranges.to_multiset_ensures();
        assert forall|i: int| 0 <= i < s.len() implies #[trigger] s[i].wf() by {
            assert(s.contains(s[i]));
            assert(s.to_multiset().count(s[i]) == ranges.to_multiset().count(s[i]));
            assert(ranges.contains(s[i]));
        }
    }
    lemma_fold_props(s, 0);
    let o = merge_fold(s, 0);
    lemma_total_len_separated(o, 0);
    lemma_sorted_hull(ranges);
}

} // verus!
