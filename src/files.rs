//! Gathering the entries that a directory walk yields.
use vstd::prelude::*;

verus! {

/// The index of the first failure among `walk`, or its length if none failed.
pub open spec fn first_failure(walk: Seq<Result<(), ()>>) -> int
    decreases walk.len(),
{
    if walk.len() == 0 {
        0
    } else if first_failure(walk.drop_last()) < walk.len() - 1 {
        first_failure(walk.drop_last())
    } else if walk.last() is Err {
        walk.len() - 1
    } else {
        walk.len() as int
    }
}

/// Which of the steps of a walk failed.
pub open spec fn outcomes<T, E>(walk: Seq<Result<T, E>>) -> Seq<Result<(), ()>> {
    walk.map_values(
        |x: Result<T, E>|
            match x {
                Ok(_) => Ok::<(), ()>(()),
                Err(_) => Err::<(), ()>(()),
            },
    )
}

/// The entries yielded before the first failure of `walk`.
pub open spec fn entries_before_failure<T, E>(walk: Seq<Result<T, E>>) -> Seq<T> {
    walk.take(first_failure(outcomes(walk))).map_values(|x: Result<T, E>| x->Ok_0)
}

proof fn lemma_first_failure(w: Seq<Result<(), ()>>)
    ensures
        0 <= first_failure(w) <= w.len(),
        forall|j: int| 0 <= j < first_failure(w) ==> #[trigger] w[j] is Ok,
        first_failure(w) < w.len() ==> w[first_failure(w)] is Err,
    decreases w.len(),
{
    if w.len() > 0 {
        let u = w.drop_last();
        lemma_first_failure(u);
        assert forall|j: int| 0 <= j < u.len() implies #[trigger] w[j] == u[j] by {}
    }
}

/// Appends to `filenames` the entries of a directory walk, in the order in
/// which the walk yielded them, and stops at the first failure.
///
/// Returns the number of names in `filenames` when no step failed, and the
/// first failure otherwise.
pub fn file_list<T, E>(walk: Vec<Result<T, E>>, filenames: &mut Vec<T>) -> (r: Result<usize, E>)
    ensures
        final(filenames)@ == old(filenames)@ + entries_before_failure(walk@),
        r is Ok <==> first_failure(outcomes(walk@)) == walk@.len(),
        r matches Ok(n) ==> n == final(filenames)@.len(),
        r matches Err(e) ==> walk@[first_failure(outcomes(walk@))] == Err::<T, E>(e),
{
    let ghost w = walk@;
    let ghost k = first_failure(outcomes(w));
    proof {
        lemma_first_failure(outcomes(w));
    }
    for entry in it: walk
        invariant
            it.seq() == w,
            k == first_failure(outcomes(w)),
            0 <= k <= w.len(),
            forall|j: int| 0 <= j < k ==> #[trigger] outcomes(w)[j] is Ok,
            k < w.len() ==> outcomes(w)[k] is Err,
            it.index() <= k,
            filenames@ == old(filenames)@ + w.take(it.index() as int).map_values(
                |x: Result<T, E>| x->Ok_0,
            ),
    {
        assert(outcomes(w)[it.index() as int] == match w[it.index() as int] {
            Ok(_) => Ok::<(), ()>(()),
            Err(_) => Err::<(), ()>(()),
        });
        match entry {
            Ok(name) => {
                filenames.push(name);
                assert(w.take(it.index() + 1).map_values(|x: Result<T, E>| x->Ok_0) =~= w.take(
                    it.index() as int,
                ).map_values(|x: Result<T, E>| x->Ok_0).push(name));
            },
            Err(e) => {
                assert(w.take(it.index() as int) == w.take(k));
                return Err(e);
            },
        }
    }
    assert(w.take(w.len() as int) == w);
    Ok(filenames.len())
}

} // verus!
