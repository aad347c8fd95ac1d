//! What the partitions of a table leave over.

use vstd::prelude::*;

use crate::parts;
use crate::parts::{Gap, Partition, PartitionView};

verus! {

/// True when some partition holds byte `at`.
pub open spec fn covered(partitions: Seq<PartitionView>, at: int) -> bool {
    exists|i: int|
        0 <= i < partitions.len() && (#[trigger] partitions[i]).start <= at < partitions[i].end()
}

/// True when some gap holds byte `at`.
pub open spec fn in_a_gap(gaps: Seq<Gap>, at: int) -> bool {
    exists|i: int| 0 <= i < gaps.len() && (#[trigger] gaps[i]).start <= at < gaps[i].end
}

/// One past the last byte any partition reaches. Empty partitions reach nothing.
pub open spec fn reach(partitions: Seq<PartitionView>) -> int
    decreases partitions.len(),
{
    if partitions.len() == 0 {
        0
    } else {
        let before = reach(partitions.drop_last());
        let last = partitions.last();
        if last.length > 0 && last.end() > before {
            last.end() as int
        } else {
            before
        }
    }
}

/// Where the last gap has to end: with the device where its size is known, and
/// never before the last partition.
pub open spec fn horizon(partitions: Seq<PartitionView>, device_size: Option<u64>) -> int {
    let table = reach(partitions);
    match device_size {
        Some(size) => if size > table {
            size as int
        } else {
            table
        },
        None => table,
    }
}

/// `gaps` is what `partitions` leave over: below the horizon a byte lies in a
/// gap exactly when no partition holds it, and none lies in a gap beyond. The
/// gaps stand in device order with something between any two, none is empty,
/// and the one that starts the device is searched backwards.
pub open spec fn left_over(
    gaps: Seq<Gap>,
    partitions: Seq<PartitionView>,
    device_size: Option<u64>,
) -> bool {
    &&& forall|i: int| 0 <= i < gaps.len() ==> (#[trigger] gaps[i]).start < gaps[i].end
    &&& forall|i: int| 0 <= i < gaps.len() ==> (#[trigger] gaps[i]).reverse == (gaps[i].start == 0)
    &&& forall|i: int, j: int|
        0 <= i < j < gaps.len() ==> (#[trigger] gaps[i]).end < (#[trigger] gaps[j]).start
    &&& forall|at: int|
        0 <= at < horizon(partitions, device_size) ==> #[trigger] in_a_gap(gaps, at) == !covered(
            partitions,
            at,
        )
    &&& forall|at: int| at >= horizon(partitions, device_size) ==> !#[trigger] in_a_gap(gaps, at)
}

/// What `partitions` leave over.
pub open spec fn space_between(
    partitions: Seq<PartitionView>,
    device_size: Option<u64>,
) -> Seq<Gap> {
    choose|gaps: Seq<Gap>| left_over(gaps, partitions, device_size)
}

proof fn a_gap_of_one_is_a_gap_of_the_other(
    a: Seq<Gap>,
    b: Seq<Gap>,
    partitions: Seq<PartitionView>,
    device_size: Option<u64>,
    i: int,
) -> (j: int)
    requires
        left_over(a, partitions, device_size),
        left_over(b, partitions, device_size),
        0 <= i < a.len(),
    ensures
        0 <= j < b.len(),
        a[i] == b[j],
{
    let start = a[i].start as int;
    let last = a[i].end - 1;
    assert(in_a_gap(a, start));
    assert(!covered(partitions, start));
    assert(in_a_gap(b, start));
    let j = choose|j: int| 0 <= j < b.len() && (#[trigger] b[j]).start <= start < b[j].end;
    if b[j].start < start {
        let x = start - 1;
        assert(in_a_gap(b, x)) by {
            assert(b[j].start <= x < b[j].end);
        }
        assert(!covered(partitions, x));
        assert(in_a_gap(a, x));
        let k = choose|k: int| 0 <= k < a.len() && (#[trigger] a[k]).start <= x < a[k].end;
        assert(k < i ==> a[k].end < a[i].start);
        assert(k > i ==> a[i].end < a[k].start);
        assert(false);
    }
    if a[i].end < b[j].end {
        let x = a[i].end as int;
        assert(in_a_gap(b, x)) by {
            assert(b[j].start <= x < b[j].end);
        }
        assert(!covered(partitions, x));
        assert(in_a_gap(a, x));
        let k = choose|k: int| 0 <= k < a.len() && (#[trigger] a[k]).start <= x < a[k].end;
        assert(k < i ==> a[k].end < a[i].start);
        assert(k > i ==> a[i].end < a[k].start);
        assert(false);
    }
    if b[j].end < a[i].end {
        let x = b[j].end as int;
        assert(in_a_gap(a, x)) by {
            assert(a[i].start <= x < a[i].end);
        }
        assert(!covered(partitions, x));
        assert(in_a_gap(b, x));
        let k = choose|k: int| 0 <= k < b.len() && (#[trigger] b[k]).start <= x < b[k].end;
        assert(k < j ==> b[k].end < b[j].start);
        assert(k > j ==> b[j].end < b[k].start);
        assert(false);
    }
    j
}

proof fn the_first_gaps_agree(
    a: Seq<Gap>,
    b: Seq<Gap>,
    partitions: Seq<PartitionView>,
    device_size: Option<u64>,
    n: int,
)
    requires
        left_over(a, partitions, device_size),
        left_over(b, partitions, device_size),
        0 <= n <= a.len(),
    ensures
        n <= b.len(),
        forall|i: int| 0 <= i < n ==> a[i] == b[i],
    decreases n,
{
    if n > 0 {
        the_first_gaps_agree(a, b, partitions, device_size, n - 1);
        let j = a_gap_of_one_is_a_gap_of_the_other(a, b, partitions, device_size, n - 1);
        if j < n - 1 {
            assert(a[j] == b[j]);
            assert(a[j].end < a[n - 1].start);
            assert(false);
        }
        if j > n - 1 {
            let i = a_gap_of_one_is_a_gap_of_the_other(b, a, partitions, device_size, n - 1);
            assert(b[n - 1].end < b[j].start);
            if i < n - 1 {
                assert(a[i] == b[i]);
                assert(b[i].end < b[n - 1].start);
                assert(false);
            } else {
                assert(i > n - 1 ==> a[n - 1].end < a[i].start);
                assert(false);
            }
        }
    }
}

/// The partitions and the device settle the gaps: no two different lists can
/// both be what is left over.
pub proof fn what_is_left_over_is_settled(
    a: Seq<Gap>,
    b: Seq<Gap>,
    partitions: Seq<PartitionView>,
    device_size: Option<u64>,
)
    requires
        left_over(a, partitions, device_size),
        left_over(b, partitions, device_size),
    ensures
        a == b,
{
    the_first_gaps_agree(a, b, partitions, device_size, a.len() as int);
    the_first_gaps_agree(b, a, partitions, device_size, b.len() as int);
    assert(a =~= b);
}

/// What the partitions leave over of the first `n` bytes.
spec fn left_below(partitions: Seq<PartitionView>, n: int) -> Seq<Gap>
    decreases n,
{
    if n <= 0 {
        Seq::empty()
    } else {
        let before = left_below(partitions, n - 1);
        if covered(partitions, n - 1) {
            before
        } else if before.len() > 0 && before.last().end == n - 1 {
            before.drop_last().push(Gap { end: n as u64, ..before.last() })
        } else {
            before.push(Gap { start: (n - 1) as u64, end: n as u64, reverse: n == 1 })
        }
    }
}

proof fn left_below_holds_what_is_free(partitions: Seq<PartitionView>, n: int)
    requires
        0 <= n <= u64::MAX,
    ensures
        ({
            let gaps = left_below(partitions, n);
            &&& forall|i: int|
                0 <= i < gaps.len() ==> (#[trigger] gaps[i]).start < gaps[i].end <= n
            &&& forall|i: int|
                0 <= i < gaps.len() ==> (#[trigger] gaps[i]).reverse == (gaps[i].start == 0)
            &&& forall|i: int, j: int|
                0 <= i < j < gaps.len() ==> (#[trigger] gaps[i]).end < (#[trigger] gaps[j]).start
            &&& forall|at: int|
                0 <= at < n ==> #[trigger] in_a_gap(gaps, at) == !covered(partitions, at)
        }),
    decreases n,
{
    if n > 0 {
        left_below_holds_what_is_free(partitions, n - 1);
        let before = left_below(partitions, n - 1);
        let gaps = left_below(partitions, n);
        let last = n - 1;
        assert(!in_a_gap(before, last)) by {
            if in_a_gap(before, last) {
                let i = choose|i: int|
                    0 <= i < before.len() && (#[trigger] before[i]).start <= last < before[i].end;
                assert(before[i].end <= n - 1);
            }
        }
        if !covered(partitions, last) {
            if before.len() > 0 && before.last().end == last {
                let k = before.len() - 1;
                let wide = Gap { end: n as u64, ..before.last() };
                assert(gaps =~= before.update(k, wide));
                assert forall|at: int| 0 <= at < n implies #[trigger] in_a_gap(gaps, at)
                    == !covered(partitions, at) by {
                    if in_a_gap(gaps, at) && at < last {
                        let i = choose|i: int|
                            0 <= i < gaps.len() && (#[trigger] gaps[i]).start <= at < gaps[i].end;
                        assert(before[i].start <= at < before[i].end);
                        assert(in_a_gap(before, at));
                    }
                    if at < last && in_a_gap(before, at) {
                        let i = choose|i: int|
                            0 <= i < before.len() && (#[trigger] before[i]).start <= at
                                < before[i].end;
                        assert(gaps[i].start <= at < gaps[i].end);
                    }
                    if at == last {
                        assert(gaps[k].start <= at < gaps[k].end);
                    }
                }
            } else {
                let gap = Gap { start: last as u64, end: n as u64, reverse: n == 1 };
                a_new_gap_holds_its_own(before, gap);
            }
        }
    }
}

/// There always is something that is left over, if only no gap at all, and
/// [`space_between`] is it: a byte below the horizon lies in one of its gaps
/// exactly when no partition holds it.
pub proof fn the_space_between_is_what_is_left_over(
    partitions: Seq<PartitionView>,
    device_size: Option<u64>,
)
    ensures
        left_over(space_between(partitions, device_size), partitions, device_size),
{
    reach_bounds(partitions);
    let n = horizon(partitions, device_size);
    let gaps = left_below(partitions, n);
    left_below_holds_what_is_free(partitions, n);
    assert forall|at: int| at >= n implies !#[trigger] in_a_gap(gaps, at) by {
        if in_a_gap(gaps, at) {
            let i = choose|i: int|
                0 <= i < gaps.len() && (#[trigger] gaps[i]).start <= at < gaps[i].end;
            assert(gaps[i].end <= n);
        }
    }
    assert(left_over(gaps, partitions, device_size));
}

/// No byte of a gap belongs to a partition.
pub proof fn a_gap_lies_in_no_partition(
    partitions: Seq<PartitionView>,
    device_size: Option<u64>,
    at: int,
)
    requires
        in_a_gap(space_between(partitions, device_size), at),
    ensures
        !covered(partitions, at),
{
    the_space_between_is_what_is_left_over(partitions, device_size);
    let gaps = space_between(partitions, device_size);
    let i = choose|i: int| 0 <= i < gaps.len() && (#[trigger] gaps[i]).start <= at < gaps[i].end;
    assert(0 <= at < horizon(partitions, device_size));
}

/// A range stands for a partition that is not empty.
spec fn stands_for(range: (u64, u64), partition: PartitionView) -> bool {
    partition.length > 0 && range == (partition.start, partition.end())
}

/// A range that stands for one of the partitions.
spec fn backed(range: (u64, u64), partitions: Seq<PartitionView>) -> bool {
    exists|i: int| 0 <= i < partitions.len() && stands_for(range, #[trigger] partitions[i])
}

/// A partition that one of the ranges stands for.
spec fn listed(ranges: Seq<(u64, u64)>, partition: PartitionView) -> bool {
    exists|k: int| 0 <= k < ranges.len() && stands_for(#[trigger] ranges[k], partition)
}

/// The ranges of the partitions in device order, empty ones left out.
spec fn ordered(ranges: Seq<(u64, u64)>, partitions: Seq<PartitionView>) -> bool {
    &&& forall|i: int, j: int|
        0 <= i <= j < ranges.len() ==> (#[trigger] ranges[i]).0 <= (#[trigger] ranges[j]).0
    &&& forall|k: int| 0 <= k < ranges.len() ==> #[trigger] backed(ranges[k], partitions)
    &&& forall|i: int|
        0 <= i < partitions.len() && partitions[i].length > 0 ==> #[trigger] listed(
            ranges,
            partitions[i],
        )
}

/// The ranges of the partitions that are not empty, in device order.
fn in_order(partitions: &Vec<Partition>) -> (ranges: Vec<(u64, u64)>)
    ensures
        ordered(ranges@, parts::partition_views(partitions@)),
{
    let mut ranges: Vec<(u64, u64)> = Vec::new();
    let mut n: usize = 0;
    let ghost all = parts::partition_views(partitions@);
    while n < partitions.len()
        invariant
            n <= partitions@.len(),
            all == parts::partition_views(partitions@),
            ordered(ranges@, all.take(n as int)),
        decreases partitions@.len() - n,
    {
        let part = &partitions[n];
        let ghost before = ranges@;
        let ghost seen = all.take(n as int);
        let ghost now = all.take(n + 1);
        assert(now =~= seen.push(part@));
        if part.length > 0 {
            let range: (u64, u64) = (part.start, part.end());
            let mut at: usize = ranges.len();
            while at > 0 && ranges[at - 1].0 > range.0
                invariant
                    at <= ranges@.len(),
                    ranges@ == before,
                    forall|j: int| at <= j < before.len() ==> (#[trigger] before[j]).0 > range.0,
                decreases at,
            {
                at -= 1;
            }
            ranges.insert(at, range);
            proof {
                let after = ranges@;
                assert(after == before.insert(at as int, range));
                assert(after[at as int] == range);
                assert forall|i: int, j: int| 0 <= i <= j < after.len() implies (
                #[trigger] after[i]).0 <= (#[trigger] after[j]).0 by {
                    let p = if i < at {
                        i
                    } else {
                        i - 1
                    };
                    let q = if j < at {
                        j
                    } else {
                        j - 1
                    };
                    if i != at {
                        assert(after[i] == before[p]);
                    }
                    if j != at {
                        assert(after[j] == before[q]);
                    }
                    if i == at && j != at {
                        assert(before[q].0 > range.0);
                    }
                    if j == at && i != at && at > 0 {
                        assert(before[p].0 <= before[at - 1].0);
                    }
                }
                assert forall|k: int| 0 <= k < after.len() implies #[trigger] backed(
                    after[k],
                    now,
                ) by {
                    if k == at {
                        assert(stands_for(after[k], now[n as int]));
                    } else {
                        let p = if k < at {
                            k
                        } else {
                            k - 1
                        };
                        assert(after[k] == before[p]);
                        assert(backed(before[p], seen));
                        let i = choose|i: int|
                            0 <= i < seen.len() && stands_for(before[p], #[trigger] seen[i]);
                        assert(now[i] == seen[i]);
                    }
                }
                assert forall|i: int|
                    0 <= i < now.len() && now[i].length > 0 implies #[trigger] listed(
                    after,
                    now[i],
                ) by {
                    if i == n {
                        assert(stands_for(after[at as int], now[i]));
                    } else {
                        assert(now[i] == seen[i]);
                        assert(listed(before, seen[i]));
                        let p = choose|p: int|
                            0 <= p < before.len() && stands_for(#[trigger] before[p], seen[i]);
                        let k = if p < at {
                            p
                        } else {
                            p + 1
                        };
                        assert(after[k] == before[p]);
                    }
                }
            }
        } else {
            proof {
                assert forall|k: int| 0 <= k < before.len() implies #[trigger] backed(
                    before[k],
                    now,
                ) by {
                    assert(backed(before[k], seen));
                    let i = choose|i: int|
                        0 <= i < seen.len() && stands_for(before[k], #[trigger] seen[i]);
                    assert(now[i] == seen[i]);
                }
                assert forall|i: int|
                    0 <= i < now.len() && now[i].length > 0 implies #[trigger] listed(
                    before,
                    now[i],
                ) by {
                    assert(i < n);
                    assert(now[i] == seen[i]);
                    assert(listed(before, seen[i]));
                }
            }
        }
        n += 1;
    }
    assert(all.take(n as int) =~= all);
    ranges
}

/// The first `k` ranges hold byte `at`.
spec fn held(ranges: Seq<(u64, u64)>, k: int, at: int) -> bool {
    exists|i: int| 0 <= i < k && (#[trigger] ranges[i]).0 <= at < ranges[i].1
}

/// What a sweep over the first `k` ranges knows once it has got to `at`.
spec fn swept(ranges: Seq<(u64, u64)>, k: int, at: u64, gaps: Seq<Gap>) -> bool {
    &&& forall|i: int| 0 <= i < gaps.len() ==> (#[trigger] gaps[i]).start < gaps[i].end <= at
    &&& forall|i: int| 0 <= i < gaps.len() ==> (#[trigger] gaps[i]).reverse == (gaps[i].start == 0)
    &&& forall|i: int, j: int|
        0 <= i < j < gaps.len() ==> (#[trigger] gaps[i]).end < (#[trigger] gaps[j]).start
    &&& forall|b: int| 0 <= b < at ==> #[trigger] in_a_gap(gaps, b) == !held(ranges, k, b)
    &&& forall|i: int| 0 <= i < k ==> (#[trigger] ranges[i]).1 <= at
    &&& at == 0 ==> gaps.len() == 0
    &&& at == 0 || at == u64::MAX || exists|i: int| 0 <= i < k && (#[trigger] ranges[i]).1 == at
        && ranges[i].0 < at
    &&& at == 0 || exists|i: int| 0 <= i < k && (#[trigger] ranges[i]).1 == at
}

proof fn a_new_gap_holds_its_own(gaps: Seq<Gap>, gap: Gap)
    requires
        gap.start < gap.end,
    ensures
        forall|b: int| #[trigger]
            in_a_gap(gaps.push(gap), b) == (in_a_gap(gaps, b) || gap.start <= b < gap.end),
{
    let more = gaps.push(gap);
    assert forall|b: int| #[trigger]
        in_a_gap(more, b) == (in_a_gap(gaps, b) || gap.start <= b < gap.end) by {
        if in_a_gap(gaps, b) {
            let i = choose|i: int|
                0 <= i < gaps.len() && (#[trigger] gaps[i]).start <= b < gaps[i].end;
            assert(more[i] == gaps[i]);
        }
        if gap.start <= b < gap.end {
            assert(more[gaps.len() as int] == gap);
        }
        if in_a_gap(more, b) {
            let i = choose|i: int|
                0 <= i < more.len() && (#[trigger] more[i]).start <= b < more[i].end;
            if i < gaps.len() {
                assert(more[i] == gaps[i]);
            }
        }
    }
}

/// Everything the partitions leave over, in device order.
pub fn between(partitions: &Vec<Partition>, device_size: Option<u64>) -> (gaps: Vec<Gap>)
    ensures
        left_over(gaps@, parts::partition_views(partitions@), device_size),
        gaps@ == space_between(parts::partition_views(partitions@), device_size),
{
    let ranges = in_order(partitions);
    let ghost all = parts::partition_views(partitions@);
    let mut gaps: Vec<Gap> = Vec::new();
    let mut at: u64 = 0;
    let mut k: usize = 0;
    proof {
        assert forall|i: int| 0 <= i < ranges@.len() implies (#[trigger] ranges@[i]).0
            <= ranges@[i].1 && (ranges@[i].0 < ranges@[i].1 || ranges@[i].1 == u64::MAX) by {
            assert(backed(ranges@[i], all));
            let p = choose|p: int| 0 <= p < all.len() && stands_for(ranges@[i], #[trigger] all[p]);
            assert(stands_for(ranges@[i], all[p]));
        }
    }
    while k < ranges.len()
        invariant
            k <= ranges@.len(),
            swept(ranges@, k as int, at, gaps@),
            forall|i: int, j: int|
                0 <= i <= j < ranges@.len() ==> (#[trigger] ranges@[i]).0 <= (
                #[trigger] ranges@[j]).0,
            forall|i: int|
                0 <= i < ranges@.len() ==> (#[trigger] ranges@[i]).0 <= ranges@[i].1 && (
                ranges@[i].0 < ranges@[i].1 || ranges@[i].1 == u64::MAX),
        decreases ranges@.len() - k,
    {
        let (start, end) = ranges[k];
        let ghost before = gaps@;
        let ghost was = at;
        if start > at {
            let gap = Gap { start: at, end: start, reverse: at == 0 };
            gaps.push(gap);
            proof {
                a_new_gap_holds_its_own(before, gap);
            }
        }
        if end > at {
            at = end;
        }
        proof {
            assert(ranges@[k as int] == (start, end));
            assert forall|b: int| 0 <= b < at implies #[trigger] in_a_gap(gaps@, b) == !held(
                ranges@,
                k + 1,
                b,
            ) by {
                if held(ranges@, k as int, b) {
                    let i = choose|i: int|
                        0 <= i < k && (#[trigger] ranges@[i]).0 <= b < ranges@[i].1;
                    assert(held(ranges@, k + 1, b));
                }
                if held(ranges@, k + 1, b) && !held(ranges@, k as int, b) {
                    let i = choose|i: int|
                        0 <= i < k + 1 && (#[trigger] ranges@[i]).0 <= b < ranges@[i].1;
                    assert(i == k);
                }
                if start <= b < end {
                    assert(held(ranges@, k + 1, b));
                }
                if b < was {
                    assert(in_a_gap(before, b) == !held(ranges@, k as int, b));
                } else {
                    assert(!in_a_gap(before, b)) by {
                        if in_a_gap(before, b) {
                            let i = choose|i: int|
                                0 <= i < before.len() && (#[trigger] before[i]).start <= b
                                    < before[i].end;
                            assert(before[i].end <= was);
                        }
                    }
                    assert(!held(ranges@, k as int, b));
                }
            }
            assert forall|i: int, j: int| 0 <= i < j < gaps@.len() implies (#[trigger] gaps@[i]).end
                < (#[trigger] gaps@[j]).start by {
                if j == before.len() {
                    // The new gap starts where the last range ended, which is
                    // past that range's start, and so past every earlier gap.
                    assert(before[i].end <= was);
                    if before[i].end == was {
                        assert(was != u64::MAX);
                        let r = choose|r: int|
                            0 <= r < k && (#[trigger] ranges@[r]).1 == was && ranges@[r].0 < was;
                        let b = was - 1;
                        assert(in_a_gap(before, b)) by {
                            assert(before[i].start <= b < before[i].end);
                        }
                        assert(held(ranges@, k as int, b)) by {
                            assert(ranges@[r].0 <= b < ranges@[r].1);
                        }
                    }
                }
            }
            if at != 0 {
                if end > was {
                    assert(ranges@[k as int].1 == at);
                } else {
                    let r = choose|r: int| 0 <= r < k && (#[trigger] ranges@[r]).1 == was;
                    assert(ranges@[r].1 == at);
                    if was != u64::MAX {
                        let q = choose|q: int|
                            0 <= q < k && (#[trigger] ranges@[q]).1 == was && ranges@[q].0 < was;
                        assert(ranges@[q].1 == at && ranges@[q].0 < at);
                    }
                }
            }
        }
        k += 1;
    }
    proof {
        reach_is_where_the_sweep_ends(all, ranges@, at);
        assert forall|b: int| #[trigger] covered(all, b) == held(
            ranges@,
            ranges@.len() as int,
            b,
        ) by {
            if covered(all, b) {
                let i = choose|i: int|
                    0 <= i < all.len() && (#[trigger] all[i]).start <= b < all[i].end();
                assert(all[i].length > 0);
                assert(listed(ranges@, all[i]));
                let j = choose|j: int|
                    0 <= j < ranges@.len() && stands_for(#[trigger] ranges@[j], all[i]);
                assert(ranges@[j].0 <= b < ranges@[j].1);
            }
            if held(ranges@, ranges@.len() as int, b) {
                let j = choose|j: int|
                    0 <= j < ranges@.len() && (#[trigger] ranges@[j]).0 <= b < ranges@[j].1;
                assert(backed(ranges@[j], all));
                let i = choose|i: int|
                    0 <= i < all.len() && stands_for(ranges@[j], #[trigger] all[i]);
                assert(all[i].start <= b < all[i].end());
            }
        }
        assert forall|b: int| b >= at implies !#[trigger] in_a_gap(gaps@, b) by {
            if in_a_gap(gaps@, b) {
                let i = choose|i: int|
                    0 <= i < gaps@.len() && (#[trigger] gaps@[i]).start <= b < gaps@[i].end;
                assert(gaps@[i].end <= at);
            }
        }
    }
    if let Some(size) = device_size {
        if size > at {
            let ghost before = gaps@;
            let gap = Gap { start: at, end: size, reverse: at == 0 };
            gaps.push(gap);
            proof {
                a_new_gap_holds_its_own(before, gap);
                assert forall|b: int| 0 <= b < size implies #[trigger] in_a_gap(gaps@, b)
                    == !covered(all, b) by {
                    if b < at {
                        assert(in_a_gap(before, b) == !held(ranges@, ranges@.len() as int, b));
                    } else {
                        assert(!in_a_gap(before, b));
                        if held(ranges@, ranges@.len() as int, b) {
                            let j = choose|j: int|
                                0 <= j < ranges@.len() && (#[trigger] ranges@[j]).0 <= b
                                    < ranges@[j].1;
                            assert(ranges@[j].1 <= at);
                        }
                    }
                }
                assert forall|i: int, j: int| 0 <= i < j < gaps@.len() implies (
                #[trigger] gaps@[i]).end < (#[trigger] gaps@[j]).start by {
                    if j == before.len() {
                        assert(before[i].end <= at);
                        if before[i].end == at {
                            let r = choose|r: int|
                                0 <= r < ranges@.len() && (#[trigger] ranges@[r]).1 == at
                                    && ranges@[r].0 < at;
                            let b = at - 1;
                            assert(in_a_gap(before, b)) by {
                                assert(before[i].start <= b < before[i].end);
                            }
                            assert(held(ranges@, ranges@.len() as int, b)) by {
                                assert(ranges@[r].0 <= b < ranges@[r].1);
                            }
                        }
                    }
                }
            }
        }
    }
    proof {
        assert(left_over(gaps@, all, device_size));
        what_is_left_over_is_settled(
            gaps@,
            space_between(all, device_size),
            all,
            device_size,
        );
    }
    gaps
}

proof fn reach_bounds(all: Seq<PartitionView>)
    ensures
        reach(all) >= 0,
        forall|i: int|
            0 <= i < all.len() && (#[trigger] all[i]).length > 0 ==> all[i].end() <= reach(all),
        reach(all) == 0 || exists|i: int|
            0 <= i < all.len() && (#[trigger] all[i]).length > 0 && all[i].end() == reach(all),
    decreases all.len(),
{
    if all.len() > 0 {
        let before = all.drop_last();
        reach_bounds(before);
        assert forall|i: int| 0 <= i < all.len() && (#[trigger] all[i]).length > 0 implies all[i].end()
            <= reach(all) by {
            if i < before.len() {
                assert(all[i] == before[i]);
            }
        }
        if reach(all) != 0 {
            if all.last().length > 0 && all.last().end() > reach(before) {
                assert(all[all.len() - 1].end() == reach(all));
            } else {
                let i = choose|i: int|
                    0 <= i < before.len() && (#[trigger] before[i]).length > 0 && before[i].end()
                        == reach(before);
                assert(all[i] == before[i]);
            }
        }
    }
}

proof fn reach_is_where_the_sweep_ends(
    all: Seq<PartitionView>,
    ranges: Seq<(u64, u64)>,
    at: u64,
)
    requires
        ordered(ranges, all),
        forall|i: int| 0 <= i < ranges.len() ==> (#[trigger] ranges[i]).1 <= at,
        at == 0 || exists|i: int| 0 <= i < ranges.len() && (#[trigger] ranges[i]).1 == at,
    ensures
        reach(all) == at,
{
    reach_bounds(all);
    if at != 0 {
        let r = choose|r: int| 0 <= r < ranges.len() && (#[trigger] ranges[r]).1 == at;
        assert(backed(ranges[r], all));
        let i = choose|i: int| 0 <= i < all.len() && stands_for(ranges[r], #[trigger] all[i]);
        assert(all[i].end() <= reach(all));
    }
    if reach(all) != 0 {
        let i = choose|i: int|
            0 <= i < all.len() && (#[trigger] all[i]).length > 0 && all[i].end() == reach(all);
        assert(listed(ranges, all[i]));
        let r = choose|r: int| 0 <= r < ranges.len() && stands_for(#[trigger] ranges[r], all[i]);
        assert(ranges[r].1 <= at);
    }
}

/// A byte of a device belongs to a partition or to a gap, never to both: it is
/// in a gap exactly where no partition reaches over it and it lies before the
/// end of the device or of the last partition. A partition reaches from its
/// start for its length, as far as a byte can be counted.
pub proof fn a_byte_is_in_a_gap_or_in_a_partition(
    partitions: Seq<PartitionView>,
    device_size: Option<u64>,
    at: u64,
)
    requires
        at < u64::MAX,
    ensures
        ({
            let gaps = space_between(partitions, device_size);
            let in_gap = exists|g: int|
                0 <= g < gaps.len() && (#[trigger] gaps[g]).start <= at < gaps[g].end;
            let in_part = exists|i: int|
                0 <= i < partitions.len() && (#[trigger] partitions[i]).start <= at
                    < partitions[i].start + partitions[i].length;
            let before_the_end = {
                ||| device_size matches Some(size) && at < size
                ||| exists|i: int|
                    0 <= i < partitions.len() && (#[trigger] partitions[i]).length > 0 && at
                        < partitions[i].start + partitions[i].length
            };
            in_gap <==> before_the_end && !in_part
        }),
        ({
            let gaps = space_between(partitions, device_size);
            &&& forall|g: int|
                0 <= g < gaps.len() ==> (#[trigger] gaps[g]).start < gaps[g].end && (
                gaps[g].reverse <==> gaps[g].start == 0)
            &&& forall|g: int, h: int|
                0 <= g < h < gaps.len() ==> (#[trigger] gaps[g]).end < (#[trigger] gaps[h]).start
            &&& forall|g: int|
                0 <= g < gaps.len() ==> (#[trigger] gaps[g]).width() == gaps[g].end
                    - gaps[g].start
        }),
{
    the_space_between_is_what_is_left_over(partitions, device_size);
    let gaps = space_between(partitions, device_size);
    let here = at as int;
    reach_bounds(partitions);
    assert(in_a_gap(gaps, here) == (exists|g: int|
        0 <= g < gaps.len() && (#[trigger] gaps[g]).start <= at < gaps[g].end));
    if covered(partitions, here) {
        let i = choose|i: int|
            0 <= i < partitions.len() && (#[trigger] partitions[i]).start <= here
                < partitions[i].end();
        assert(partitions[i].start <= at < partitions[i].start + partitions[i].length);
    }
    if exists|i: int|
        0 <= i < partitions.len() && (#[trigger] partitions[i]).start <= at < partitions[i].start
            + partitions[i].length {
        let i = choose|i: int|
            0 <= i < partitions.len() && (#[trigger] partitions[i]).start <= at
                < partitions[i].start + partitions[i].length;
        assert(partitions[i].start <= here < partitions[i].end());
        assert(covered(partitions, here));
    }
    if exists|i: int|
        0 <= i < partitions.len() && (#[trigger] partitions[i]).length > 0 && at
            < partitions[i].start + partitions[i].length {
        let i = choose|i: int|
            0 <= i < partitions.len() && (#[trigger] partitions[i]).length > 0 && at
                < partitions[i].start + partitions[i].length;
        assert(here < partitions[i].end());
        assert(here < reach(partitions));
    }
    if here < reach(partitions) {
        let i = choose|i: int|
            0 <= i < partitions.len() && (#[trigger] partitions[i]).length > 0
                && partitions[i].end() == reach(partitions);
        assert(at < partitions[i].start + partitions[i].length);
    }
    assert(here < horizon(partitions, device_size) || !in_a_gap(gaps, here));
}

} // verus!
