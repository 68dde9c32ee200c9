//! Splitting a count of items into contiguous, near-equal slices, one per worker.

use vstd::prelude::*;

verus! {

/// A half-open range `[start, end)` of item indices owned by one worker.
#[derive(Debug, Clone, Copy, PartialEq, Eq, Structural)]
pub struct WorkSlice {
    /// Index of the first item of the slice.
    pub start: usize,
    /// Index after the last item of the slice.
    pub end: usize,
}

impl WorkSlice {
    /// Number of items in the slice.
    pub open spec fn spec_len(self) -> int {
        if self.start <= self.end {
            self.end - self.start
        } else {
            0
        }
    }

    /// Whether index `i` belongs to the slice.
    pub open spec fn contains(self, i: int) -> bool {
        self.start <= i < self.end
    }

    /// Number of items in the slice.
    pub fn len(&self) -> (n: usize)
        ensures
            n == self.spec_len(),
    {
        if self.start <= self.end {
            self.end - self.start
        } else {
            0
        }
    }

    /// Whether the slice holds no item.
    pub fn is_empty(&self) -> (b: bool)
        ensures
            b == (self.start >= self.end),
    {
        self.start >= self.end
    }
}

/// How many of the first `i` slices carry one extra item.
pub open spec fn extras_before(total: nat, workers: nat, i: nat) -> nat {
    if i <= total % workers {
        i
    } else {
        total % workers
    }
}

/// Index at which slice `i` begins when `total` items go to `workers` workers.
pub open spec fn slice_start(total: nat, workers: nat, i: nat) -> nat {
    i * (total / workers) + extras_before(total, workers, i)
}

/// Number of items of slice `i`: the first `total % workers` slices get one more
/// than the rest.
pub open spec fn slice_len(total: nat, workers: nat, i: nat) -> nat {
    if i < total % workers {
        total / workers + 1
    } else {
        total / workers
    }
}

/// Slice `i` of the partition of `total` items among `workers` workers.
pub open spec fn slice_at(total: nat, workers: nat, i: nat) -> WorkSlice {
    WorkSlice {
        start: slice_start(total, workers, i) as usize,
        end: slice_start(total, workers, i + 1) as usize,
    }
}

/// The whole partition, slice by slice.
pub open spec fn partition_of(total: nat, workers: nat) -> Seq<WorkSlice> {
    Seq::new(workers, |i: int| slice_at(total, workers, i as nat))
}

/// Each slice begins where the one before it ends, and its length is `slice_len`.
pub proof fn lemma_slice_step(total: nat, workers: nat, i: nat)
    requires
        workers >= 1,
    ensures
        slice_start(total, workers, i + 1) == slice_start(total, workers, i) + slice_len(
            total,
            workers,
            i,
        ),
{
    let q = total / workers;
    assert((i + 1) * q == i * q + q) by (nonlinear_arith);
}

/// The first slice begins at 0 and the slice after the last begins at `total`.
pub proof fn lemma_slice_ends(total: nat, workers: nat)
    requires
        workers >= 1,
    ensures
        slice_start(total, workers, 0) == 0,
        slice_start(total, workers, workers) == total,
{
    let q = total / workers;
    let r = total % workers;
    assert(0 * q == 0) by (nonlinear_arith);
    assert(total == workers * q + r) by {
        vstd::arithmetic::div_mod::lemma_fundamental_div_mod(total as int, workers as int);
    }
    assert(r < workers) by {
        vstd::arithmetic::div_mod::lemma_mod_bound(total as int, workers as int);
    }
}

/// Slice starts never decrease with the index.
pub proof fn lemma_slice_start_monotone(total: nat, workers: nat, i: nat, j: nat)
    requires
        workers >= 1,
        i <= j,
    ensures
        slice_start(total, workers, i) <= slice_start(total, workers, j),
    decreases j - i,
{
    if i < j {
        lemma_slice_start_monotone(total, workers, i, (j - 1) as nat);
        lemma_slice_step(total, workers, (j - 1) as nat);
    }
}

/// Every slice of the partition lies inside `[0, total]`.
pub proof fn lemma_slice_in_range(total: nat, workers: nat, i: nat)
    requires
        workers >= 1,
        i <= workers,
    ensures
        slice_start(total, workers, i) <= total,
{
    lemma_slice_ends(total, workers);
    lemma_slice_start_monotone(total, workers, i, workers);
}

/// Whether some slice of `slices` holds index `k`.
pub open spec fn covers(slices: Seq<WorkSlice>, k: int) -> bool {
    exists|i: int| 0 <= i < slices.len() && #[trigger] slices[i].contains(k)
}

/// Sum of the lengths of the first `n` slices.
pub open spec fn total_len(slices: Seq<WorkSlice>, n: nat) -> int
    decreases n,
{
    if n == 0 {
        0
    } else {
        total_len(slices, (n - 1) as nat) + slices[n - 1].spec_len()
    }
}

/// The lengths of the first `n` slices add up to where slice `n` begins.
pub proof fn lemma_prefix_len(total: nat, workers: nat, n: nat)
    requires
        workers >= 1,
        n <= workers,
        total <= usize::MAX,
    ensures
        total_len(partition_of(total, workers), n) == slice_start(total, workers, n),
    decreases n,
{
    if n == 0 {
        lemma_slice_ends(total, workers);
    } else {
        lemma_prefix_len(total, workers, (n - 1) as nat);
        lemma_slice_in_range(total, workers, n);
        lemma_slice_in_range(total, workers, (n - 1) as nat);
        lemma_slice_start_monotone(total, workers, (n - 1) as nat, n);
    }
}

/// The partition of `total` items among `workers` workers has one slice per
/// worker; the slices are contiguous and in order, from 0 to `total`; no index
/// lies in two of them and every index below `total` lies in one; their lengths
/// add up to `total`, and no two lengths differ by more than one.
pub proof fn lemma_partition(total: nat, workers: nat)
    requires
        workers >= 1,
        total <= usize::MAX,
    ensures
        partition_of(total, workers).len() == workers,
        partition_of(total, workers)[0].start == 0,
        partition_of(total, workers)[workers - 1].end == total,
        forall|i: int|
            0 <= i < workers ==> (#[trigger] partition_of(total, workers)[i]).start
                <= partition_of(total, workers)[i].end,
        forall|i: int|
            0 <= i < workers ==> (#[trigger] partition_of(total, workers)[i]).spec_len()
                == slice_len(total, workers, i as nat),
        forall|i: int|
            0 <= i < workers - 1 ==> (#[trigger] partition_of(total, workers)[i]).end
                == partition_of(total, workers)[i + 1].start,
        forall|i: int, j: int, k: int|
            0 <= i < j < workers && #[trigger] partition_of(total, workers)[i].contains(k)
                ==> !#[trigger] partition_of(total, workers)[j].contains(k),
        forall|k: int| 0 <= k < total ==> #[trigger] covers(partition_of(total, workers), k),
        total_len(partition_of(total, workers), workers) == total,
        forall|i: int, j: int|
            0 <= i < workers && 0 <= j < workers ==> (#[trigger] partition_of(
                total,
                workers,
            )[i]).spec_len() - (#[trigger] partition_of(total, workers)[j]).spec_len() <= 1,
{
    let p = partition_of(total, workers);
    lemma_slice_ends(total, workers);
    assert forall|i: int| 0 <= i < workers implies (#[trigger] p[i]).start == slice_start(
        total,
        workers,
        i as nat,
    ) && p[i].end == slice_start(total, workers, (i + 1) as nat) && p[i].start <= p[i].end
        && p[i].spec_len() == slice_len(total, workers, i as nat) by {
        lemma_slice_in_range(total, workers, i as nat);
        lemma_slice_in_range(total, workers, (i + 1) as nat);
        lemma_slice_step(total, workers, i as nat);
    }
    assert forall|i: int, j: int, k: int|
        0 <= i < j < workers && #[trigger] p[i].contains(k) implies !#[trigger] p[j].contains(
        k,
    ) by {
        lemma_slice_start_monotone(total, workers, (i + 1) as nat, j as nat);
    }
    assert forall|k: int| 0 <= k < total implies #[trigger] covers(p, k) by {
        let i = lemma_index_has_slice(total, workers, k as nat, workers);
        assert(p[i as int].contains(k));
    }
    lemma_prefix_len(total, workers, workers);
}

/// An index below the start of slice `bound` lies in one of the slices before it.
pub proof fn lemma_index_has_slice(total: nat, workers: nat, k: nat, bound: nat) -> (i: nat)
    requires
        workers >= 1,
        bound <= workers,
        k < slice_start(total, workers, bound),
    ensures
        i < bound,
        slice_start(total, workers, i) <= k < slice_start(total, workers, i + 1),
    decreases bound,
{
    if bound == 0 {
        lemma_slice_ends(total, workers);
        0
    } else if slice_start(total, workers, (bound - 1) as nat) <= k {
        (bound - 1) as nat
    } else {
        lemma_index_has_slice(total, workers, k, (bound - 1) as nat)
    }
}

/// The slice of worker `index` among `workers` workers sharing `total` items.
pub fn slice_for(total: usize, workers: usize, index: usize) -> (slice: WorkSlice)
    requires
        workers >= 1,
        index < workers,
    ensures
        slice == slice_at(total as nat, workers as nat, index as nat),
        slice.start <= slice.end <= total,
        slice.spec_len() == slice_len(total as nat, workers as nat, index as nat),
{
    let base = total / workers;
    let extra = total % workers;
    proof {
        lemma_slice_in_range(total as nat, workers as nat, index as nat);
        lemma_slice_in_range(total as nat, workers as nat, (index + 1) as nat);
        lemma_slice_step(total as nat, workers as nat, index as nat);
        assert(index * base <= slice_start(total as nat, workers as nat, index as nat));
    }
    let before = if index <= extra {
        index
    } else {
        extra
    };
    let start = index * base + before;
    let len = if index < extra {
        base + 1
    } else {
        base
    };
    WorkSlice { start, end: start + len }
}

/// Splits `total` items among `workers` workers.
pub fn partition(total: usize, workers: usize) -> (slices: Vec<WorkSlice>)
    requires
        workers >= 1,
    ensures
        slices@ == partition_of(total as nat, workers as nat),
{
    let mut slices: Vec<WorkSlice> = Vec::new();
    let mut i: usize = 0;
    while i < workers
        invariant
            workers >= 1,
            i <= workers,
            slices@.len() == i,
            forall|j: int|
                0 <= j < i ==> slices@[j] == slice_at(total as nat, workers as nat, j as nat),
        decreases workers - i,
    {
        slices.push(slice_for(total, workers, i));
        i += 1;
    }
    assert(slices@ =~= partition_of(total as nat, workers as nat));
    slices
}

} // verus!
