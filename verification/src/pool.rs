//! The hashing engine: each worker digests the passwords of its own slice, and
//! the records of all workers together are the records of the batch.

use crate::args::Algorithm;
use crate::batch::PasswordBatch;
use crate::digest::{digest_of, hash_password};
use crate::record::{all_of_width, records_view};
use crate::partition::{
    lemma_slice_ends, lemma_slice_in_range, lemma_slice_start_monotone, partition, partition_of,
    slice_start, WorkSlice,
};
use vstd::prelude::*;

verus! {

/// The records of the passwords, in order; a password whose hashing fails
/// leaves no record.
pub open spec fn digests_of(algorithm: Algorithm, passwords: Seq<Seq<u8>>) -> Seq<Seq<u8>>
    decreases passwords.len(),
{
    if passwords.len() == 0 {
        Seq::empty()
    } else {
        let before = digests_of(algorithm, passwords.drop_last());
        match digest_of(algorithm, passwords.last()) {
            Some(record) => before.push(record),
            None => before,
        }
    }
}

/// What the worker that owns `slice` produces.
pub open spec fn worker_output(
    algorithm: Algorithm,
    passwords: Seq<Seq<u8>>,
    slice: WorkSlice,
) -> Seq<Seq<u8>> {
    digests_of(algorithm, passwords.subrange(slice.start as int, slice.end as int))
}

/// The outputs of the first `n` workers, one after the other.
pub open spec fn pooled(
    algorithm: Algorithm,
    passwords: Seq<Seq<u8>>,
    slices: Seq<WorkSlice>,
    n: nat,
) -> Seq<Seq<u8>>
    decreases n,
{
    if n == 0 {
        Seq::empty()
    } else {
        pooled(algorithm, passwords, slices, (n - 1) as nat) + worker_output(
            algorithm,
            passwords,
            slices[n - 1],
        )
    }
}

/// Every record is as wide as its algorithm says, and there are no more records
/// than passwords.
pub proof fn lemma_digests_shape(algorithm: Algorithm, passwords: Seq<Seq<u8>>)
    ensures
        all_of_width(digests_of(algorithm, passwords), algorithm.width()),
        digests_of(algorithm, passwords).len() <= passwords.len(),
    decreases passwords.len(),
{
    if passwords.len() > 0 {
        lemma_digests_shape(algorithm, passwords.drop_last());
    }
}

/// Whether every password has a record.
pub open spec fn all_hashed(algorithm: Algorithm, passwords: Seq<Seq<u8>>) -> bool {
    forall|i: int|
        0 <= i < passwords.len() ==> digest_of(algorithm, #[trigger] passwords[i]) is Some
}

/// Where every password has a record, there are as many records as passwords,
/// and record `i` is that of password `i`.
pub proof fn lemma_digests_total(algorithm: Algorithm, passwords: Seq<Seq<u8>>)
    requires
        all_hashed(algorithm, passwords),
    ensures
        digests_of(algorithm, passwords).len() == passwords.len(),
        forall|i: int|
            0 <= i < passwords.len() ==> digest_of(algorithm, passwords[i]) == Some(
                #[trigger] digests_of(algorithm, passwords)[i],
            ),
    decreases passwords.len(),
{
    if passwords.len() > 0 {
        let front = passwords.drop_last();
        assert(all_hashed(algorithm, front)) by {
            assert forall|i: int| 0 <= i < front.len() implies digest_of(
                algorithm,
                #[trigger] front[i],
            ) is Some by {
                assert(front[i] == passwords[i]);
            }
        }
        lemma_digests_total(algorithm, front);
        assert(digest_of(algorithm, passwords[passwords.len() - 1]) is Some);
        assert forall|i: int| 0 <= i < passwords.len() implies digest_of(
            algorithm,
            passwords[i],
        ) == Some(#[trigger] digests_of(algorithm, passwords)[i]) by {
            if i < front.len() {
                assert(front[i] == passwords[i]);
                assert(digests_of(algorithm, passwords)[i] == digests_of(algorithm, front)[i]);
            }
        }
    }
}

/// The records of two runs of passwords, one after the other, are the records
/// of the passwords taken together.
pub proof fn lemma_digests_concat(algorithm: Algorithm, a: Seq<Seq<u8>>, b: Seq<Seq<u8>>)
    ensures
        digests_of(algorithm, a + b) == digests_of(algorithm, a) + digests_of(algorithm, b),
    decreases b.len(),
{
    if b.len() == 0 {
        assert(a + b =~= a);
        assert(digests_of(algorithm, a) + digests_of(algorithm, b) =~= digests_of(algorithm, a));
    } else {
        assert((a + b).drop_last() =~= a + b.drop_last());
        assert((a + b).last() == b.last());
        lemma_digests_concat(algorithm, a, b.drop_last());
        let left = digests_of(algorithm, a);
        let right = digests_of(algorithm, b.drop_last());
        match digest_of(algorithm, b.last()) {
            Some(record) => {
                assert((left + right).push(record) =~= left + right.push(record));
            },
            None => {},
        }
    }
}

/// The outputs of the first `n` workers of a partition are the records of the
/// passwords before slice `n`.
pub proof fn lemma_pooled_prefix(
    algorithm: Algorithm,
    passwords: Seq<Seq<u8>>,
    workers: nat,
    n: nat,
)
    requires
        workers >= 1,
        n <= workers,
        passwords.len() <= usize::MAX,
    ensures
        pooled(algorithm, passwords, partition_of(passwords.len(), workers), n) == digests_of(
            algorithm,
            passwords.subrange(0, slice_start(passwords.len(), workers, n) as int),
        ),
    decreases n,
{
    let total = passwords.len();
    let slices = partition_of(total, workers);
    if n == 0 {
        lemma_slice_ends(total, workers);
        assert(passwords.subrange(0, 0) =~= Seq::<Seq<u8>>::empty());
    } else {
        let m = (n - 1) as nat;
        lemma_pooled_prefix(algorithm, passwords, workers, m);
        lemma_slice_in_range(total, workers, m);
        lemma_slice_in_range(total, workers, n);
        lemma_slice_start_monotone(total, workers, m, n);
        let lo = slice_start(total, workers, m) as int;
        let hi = slice_start(total, workers, n) as int;
        assert(slices[m as int].start == lo && slices[m as int].end == hi);
        assert(passwords.subrange(0, hi) =~= passwords.subrange(0, lo) + passwords.subrange(
            lo,
            hi,
        ));
        lemma_digests_concat(algorithm, passwords.subrange(0, lo), passwords.subrange(lo, hi));
    }
}

/// Whatever the number of workers, their outputs taken together are the records
/// of the whole batch.
pub proof fn lemma_pooled_is_whole(algorithm: Algorithm, passwords: Seq<Seq<u8>>, workers: nat)
    requires
        workers >= 1,
        passwords.len() <= usize::MAX,
    ensures
        pooled(algorithm, passwords, partition_of(passwords.len(), workers), workers)
            == digests_of(algorithm, passwords),
{
    lemma_pooled_prefix(algorithm, passwords, workers, workers);
    lemma_slice_ends(passwords.len(), workers);
    assert(passwords.subrange(0, passwords.len() as int) =~= passwords);
}

/// Hashing one batch with two different numbers of workers gives the same
/// records, each as often in one run as in the other.
pub proof fn lemma_worker_count_invariance(
    algorithm: Algorithm,
    passwords: Seq<Seq<u8>>,
    workers_a: nat,
    workers_b: nat,
)
    requires
        workers_a >= 1,
        workers_b >= 1,
        passwords.len() <= usize::MAX,
    ensures
        pooled(
            algorithm,
            passwords,
            partition_of(passwords.len(), workers_a),
            workers_a,
        ).to_multiset() == pooled(
            algorithm,
            passwords,
            partition_of(passwords.len(), workers_b),
            workers_b,
        ).to_multiset(),
{
    lemma_pooled_is_whole(algorithm, passwords, workers_a);
    lemma_pooled_is_whole(algorithm, passwords, workers_b);
}

/// One worker's job: the records of the passwords of `slice`, in order.
pub fn hash_slice(batch: &PasswordBatch, slice: WorkSlice, algorithm: Algorithm) -> (records: Vec<
    Vec<u8>,
>)
    requires
        slice.start <= slice.end <= batch@.len(),
    ensures
        records_view(records@) == worker_output(algorithm, batch@, slice),
        all_of_width(records_view(records@), algorithm.width()),
        !(algorithm is Scrypt) ==> records@.len() == slice.end - slice.start && all_hashed(
            algorithm,
            batch@.subrange(slice.start as int, slice.end as int),
        ),
{
    let mut records: Vec<Vec<u8>> = Vec::new();
    let mut i: usize = slice.start;
    proof {
        assert(batch@.subrange(slice.start as int, slice.start as int) =~= Seq::<
            Seq<u8>,
        >::empty());
        assert(records_view(records@) =~= Seq::<Seq<u8>>::empty());
    }
    while i < slice.end
        invariant
            slice.start <= i <= slice.end <= batch@.len(),
            records_view(records@) == digests_of(
                algorithm,
                batch@.subrange(slice.start as int, i as int),
            ),
            !(algorithm is Scrypt) ==> all_hashed(
                algorithm,
                batch@.subrange(slice.start as int, i as int),
            ),
        decreases slice.end - i,
    {
        let ghost before = records_view(records@);
        let ghost done = batch@.subrange(slice.start as int, i as int);
        let ghost next = batch@.subrange(slice.start as int, i + 1);
        proof {
            assert(next.drop_last() =~= done);
            assert(next.last() == batch@[i as int]);
        }
        match hash_password(algorithm, batch.password(i)) {
            Some(record) => {
                records.push(record);
                assert(records_view(records@) =~= before.push(record@));
            },
            None => {},
        }
        proof {
            if !(algorithm is Scrypt) {
                assert forall|j: int| 0 <= j < next.len() implies digest_of(
                    algorithm,
                    #[trigger] next[j],
                ) is Some by {
                    if j < done.len() {
                        assert(next[j] == done[j]);
                    }
                }
            }
        }
        i += 1;
    }
    proof {
        let owned = batch@.subrange(slice.start as int, slice.end as int);
        lemma_digests_shape(algorithm, owned);
        if !(algorithm is Scrypt) {
            lemma_digests_total(algorithm, owned);
        }
    }
    records
}

/// Hashes the whole batch as `workers` workers would, one slice after the other.
pub fn hash_batch(batch: &PasswordBatch, workers: usize, algorithm: Algorithm) -> (records: Vec<
    Vec<u8>,
>)
    requires
        workers >= 1,
    ensures
        records_view(records@) == digests_of(algorithm, batch@),
        records_view(records@) == pooled(
            algorithm,
            batch@,
            partition_of(batch@.len(), workers as nat),
            workers as nat,
        ),
        all_of_width(records_view(records@), algorithm.width()),
        !(algorithm is Scrypt) ==> records@.len() == batch@.len() && all_hashed(algorithm, batch@),
{
    let total = batch.len();
    let slices = partition(total, workers);
    let mut records: Vec<Vec<u8>> = Vec::new();
    let mut w: usize = 0;
    proof {
        assert(records_view(records@) =~= Seq::<Seq<u8>>::empty());
    }
    while w < workers
        invariant
            w <= workers,
            workers >= 1,
            total == batch@.len(),
            slices@ == partition_of(total as nat, workers as nat),
            records_view(records@) == pooled(algorithm, batch@, slices@, w as nat),
            !(algorithm is Scrypt) ==> all_hashed(
                algorithm,
                batch@.subrange(0, slice_start(total as nat, workers as nat, w as nat) as int),
            ),
        decreases workers - w,
    {
        let slice = slices[w];
        proof {
            lemma_slice_in_range(total as nat, workers as nat, w as nat);
            lemma_slice_in_range(total as nat, workers as nat, (w + 1) as nat);
            lemma_slice_start_monotone(total as nat, workers as nat, w as nat, (w + 1) as nat);
        }
        let ghost before = records_view(records@);
        let mut part = hash_slice(batch, slice, algorithm);
        let ghost added = records_view(part@);
        records.append(&mut part);
        assert(records_view(records@) =~= before + added);
        proof {
            if !(algorithm is Scrypt) {
                let lo = slice_start(total as nat, workers as nat, w as nat) as int;
                let hi = slice_start(total as nat, workers as nat, (w + 1) as nat) as int;
                assert(slice.start == lo && slice.end == hi);
                let grown = batch@.subrange(0, hi);
                assert forall|j: int| 0 <= j < grown.len() implies digest_of(
                    algorithm,
                    #[trigger] grown[j],
                ) is Some by {
                    if j < lo {
                        assert(grown[j] == batch@.subrange(0, lo)[j]);
                    } else {
                        assert(grown[j] == batch@.subrange(lo, hi)[j - lo]);
                    }
                }
            }
        }
        w += 1;
    }
    proof {
        lemma_pooled_is_whole(algorithm, batch@, workers as nat);
        lemma_digests_shape(algorithm, batch@);
        lemma_slice_ends(total as nat, workers as nat);
        if !(algorithm is Scrypt) {
            assert(batch@.subrange(0, total as int) =~= batch@);
            lemma_digests_total(algorithm, batch@);
        }
    }
    records
}

} // verus!
