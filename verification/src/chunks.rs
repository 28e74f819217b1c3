use vstd::prelude::*;

verus! {

/// The views of a vector's elements, in order.
pub open spec fn seq_views<T: View>(s: Seq<T>) -> Seq<T::V> {
    Seq::new(s.len(), |i: int| s[i]@)
}

/// Number of tasks each worker receives: the ceiling of `k / m`, for `k`
/// tasks shared among at most `m` workers.
pub open spec fn chunk_size_spec(k: int, m: int) -> int {
    (k + m - 1) / m
}

/// The partition of `s` into consecutive pieces of `cs` elements each; the
/// last piece keeps whatever remains and may be shorter.
pub open spec fn chunks_of<T>(s: Seq<T>, cs: int) -> Seq<Seq<T>>
    decreases s.len(),
{
    if cs < 1 || s.len() == 0 {
        Seq::empty()
    } else if s.len() <= cs {
        seq![s]
    } else {
        seq![s.take(cs)] + chunks_of(s.skip(cs), cs)
    }
}

/// Concatenating the chunks in order gives back the original list: the
/// partition keeps every element, each exactly once, in the original order.
pub proof fn lemma_chunks_flatten<T>(s: Seq<T>, cs: int)
    requires
        cs >= 1,
    ensures
        chunks_of(s, cs).flatten() == s,
    decreases s.len(),
{
    if s.len() == 0 {
        assert(chunks_of(s, cs).flatten() =~= s);
    } else if s.len() <= cs {
        assert(seq![s].flatten() =~= s) by {
            seq![s].lemma_flatten_one_element();
        }
    } else {
        lemma_chunks_flatten(s.skip(cs), cs);
        assert((seq![s.take(cs)] + chunks_of(s.skip(cs), cs)).flatten() =~= s) by {
            let rest = chunks_of(s.skip(cs), cs);
            let whole = seq![s.take(cs)] + rest;
            assert(whole.first() == s.take(cs));
            assert(whole.drop_first() =~= rest);
            assert(whole.flatten() == s.take(cs) + rest.flatten());
            assert(s.take(cs) + s.skip(cs) =~= s);
        }
    }
}

/// Every chunk is non-empty and holds at most `cs` elements; every chunk but
/// the last holds exactly `cs`.
pub proof fn lemma_chunks_sizes<T>(s: Seq<T>, cs: int)
    requires
        cs >= 1,
    ensures
        forall|j: int|
            0 <= j < chunks_of(s, cs).len() ==> 1 <= (#[trigger] chunks_of(s, cs)[j]).len() <= cs,
        forall|j: int|
            0 <= j < chunks_of(s, cs).len() - 1 ==> (#[trigger] chunks_of(s, cs)[j]).len() == cs,
    decreases s.len(),
{
    if s.len() == 0 {
    } else if s.len() <= cs {
    } else {
        lemma_chunks_sizes(s.skip(cs), cs);
        assert forall|j: int| 0 <= j < chunks_of(s, cs).len() implies 1 <= (
        #[trigger] chunks_of(s, cs)[j]).len() <= cs by {
            if j > 0 {
                assert(chunks_of(s, cs)[j] == chunks_of(s.skip(cs), cs)[j - 1]);
            }
        }
        assert forall|j: int| 0 <= j < chunks_of(s, cs).len() - 1 implies (
        #[trigger] chunks_of(s, cs)[j]).len() == cs by {
            if j > 0 {
                assert(chunks_of(s, cs)[j] == chunks_of(s.skip(cs), cs)[j - 1]);
            }
        }
    }
}

/// Exact chunk boundaries: chunk `j` is the slice of the original list from
/// `j * cs` up to `(j + 1) * cs`, clipped at the end of the list.
pub proof fn lemma_chunk_boundaries<T>(s: Seq<T>, cs: int, j: int)
    requires
        cs >= 1,
        0 <= j < chunks_of(s, cs).len(),
    ensures
        j * cs < s.len(),
        chunks_of(s, cs)[j] == s.subrange(
            j * cs,
            if (j + 1) * cs <= s.len() {
                (j + 1) * cs
            } else {
                s.len() as int
            },
        ),
    decreases s.len(),
{
    if s.len() == 0 {
    } else if s.len() <= cs {
        assert(s.subrange(0, s.len() as int) =~= s);
    } else {
        if j == 0 {
            assert(s.take(cs) =~= s.subrange(0, cs));
        } else {
            lemma_chunk_boundaries(s.skip(cs), cs, j - 1);
            assert(chunks_of(s, cs)[j] == chunks_of(s.skip(cs), cs)[j - 1]);
            assert(j * cs == (j - 1) * cs + cs) by (nonlinear_arith);
            assert((j + 1) * cs == j * cs + cs) by (nonlinear_arith);
            assert((j - 1) * cs >= 0) by (nonlinear_arith)
                requires
                    j >= 1,
                    cs >= 1,
            ;
            let lo = (j - 1) * cs;
            let hi = if j * cs <= s.skip(cs).len() {
                j * cs
            } else {
                s.skip(cs).len() as int
            };
            assert(s.skip(cs).subrange(lo, hi) =~= s.subrange(lo + cs, hi + cs));
        }
    }
}

/// How many chunks the partition produces: the ceiling of `s.len() / cs`.
pub proof fn lemma_chunks_count<T>(s: Seq<T>, cs: int)
    requires
        cs >= 1,
    ensures
        chunks_of(s, cs).len() == (s.len() + cs - 1) / cs,
    decreases s.len(),
{
    if s.len() == 0 {
        assert((cs - 1) / cs == 0) by (nonlinear_arith)
            requires
                cs >= 1,
        ;
    } else if s.len() <= cs {
        assert((s.len() + cs - 1) / cs == 1) by (nonlinear_arith)
            requires
                1 <= s.len() <= cs,
        ;
    } else {
        lemma_chunks_count(s.skip(cs), cs);
        assert((s.len() - cs + cs - 1) / cs + 1 == (s.len() + cs - 1) / cs) by (nonlinear_arith)
            requires
                cs >= 1,
                s.len() > cs,
        ;
    }
}

/// Partition completeness for the orchestrator's own chunk size: splitting
/// `k` tasks for at most `m` workers yields between 1 and `min(k, m)` chunks
/// whose concatenation is the original list, so every task appears in exactly
/// one chunk.
pub proof fn lemma_partition_complete<T>(s: Seq<T>, m: int)
    requires
        m >= 1,
        s.len() >= 1,
    ensures
        chunks_of(s, chunk_size_spec(s.len() as int, m)).flatten() == s,
        chunks_of(s, chunk_size_spec(s.len() as int, m)).flatten().to_multiset()
            == s.to_multiset(),
        1 <= chunks_of(s, chunk_size_spec(s.len() as int, m)).len(),
        chunks_of(s, chunk_size_spec(s.len() as int, m)).len() <= m,
        chunks_of(s, chunk_size_spec(s.len() as int, m)).len() <= s.len(),
{
    let k = s.len() as int;
    let cs = chunk_size_spec(k, m);
    assert(cs >= 1 && cs * m >= k) by (nonlinear_arith)
        requires
            m >= 1,
            k >= 1,
            cs == (k + m - 1) / m,
    ;
    lemma_chunks_flatten(s, cs);
    lemma_chunks_count(s, cs);
    assert(1 <= (k + cs - 1) / cs) by (nonlinear_arith)
        requires
            cs >= 1,
            k >= 1,
    ;
    assert((k + cs - 1) / cs <= m) by (nonlinear_arith)
        requires
            cs >= 1,
            m >= 1,
            k >= 1,
            cs * m >= k,
    ;
    assert((k + cs - 1) / cs <= k) by (nonlinear_arith)
        requires
            cs >= 1,
            k >= 1,
    ;
}

/// A batch with no more tasks than workers is cut into exactly one chunk
/// per task, each of size one: the partitioner never makes more chunks than
/// there are tasks.
pub proof fn lemma_small_batch_singleton_chunks<T>(s: Seq<T>, m: int)
    requires
        m >= 1,
        1 <= s.len() <= m,
    ensures
        chunk_size_spec(s.len() as int, m) == 1,
        chunks_of(s, 1).len() == s.len(),
        forall|j: int| 0 <= j < chunks_of(s, 1).len() ==> (#[trigger] chunks_of(s, 1)[j]).len() == 1,
{
    let k = s.len() as int;
    assert((k + m - 1) / m == 1) by (nonlinear_arith)
        requires
            m >= 1,
            1 <= k <= m,
    ;
    lemma_chunks_count(s, 1);
    lemma_chunks_sizes(s, 1);
}

/// Split a list into at most `chunk_count` contiguous runs of equal size
/// (the last run possibly shorter), preserving order: run `j` holds elements
/// `j * cs .. (j + 1) * cs` of the input, where `cs = ceil(len / chunk_count)`.
pub fn split_into_chunks<T>(list: Vec<T>, chunk_count: usize) -> (chunks: Vec<Vec<T>>)
    requires
        chunk_count >= 1,
        list@.len() >= 1,
        list@.len() + chunk_count <= usize::MAX,
    ensures
        chunks@.map_values(|c: Vec<T>| c@) == chunks_of(
            list@,
            chunk_size_spec(list@.len() as int, chunk_count as int),
        ),
{
    let ghost orig = list@;
    let cs: usize = (list.len() + chunk_count - 1) / chunk_count;
    proof {
        assert(cs >= 1) by (nonlinear_arith)
            requires
                chunk_count >= 1,
                orig.len() >= 1,
                cs == (orig.len() + chunk_count - 1) as int / chunk_count as int,
        ;
    }
    let mut rest = list;
    let mut chunks: Vec<Vec<T>> = Vec::new();
    while rest.len() > 0
        invariant
            cs >= 1,
            chunks@.map_values(|c: Vec<T>| c@) + chunks_of(rest@, cs as int) =~= chunks_of(
                orig,
                cs as int,
            ),
        decreases rest@.len(),
    {
        let ghost rest0 = rest@;
        let ghost views0 = chunks@.map_values(|c: Vec<T>| c@);
        let take_n: usize = if cs <= rest.len() {
            cs
        } else {
            rest.len()
        };
        let mut piece: Vec<T> = Vec::new();
        let mut j: usize = 0;
        while j < take_n
            invariant
                j <= take_n,
                take_n <= rest0.len(),
                piece@ =~= rest0.take(j as int),
                rest@ =~= rest0.skip(j as int),
            decreases take_n - j,
        {
            let x = rest.remove(0);
            assert(x == rest0[j as int]);
            piece.push(x);
            j += 1;
            proof {
                assert(piece@ =~= rest0.take(j as int));
                assert(rest@ =~= rest0.skip(j as int));
            }
        }
        chunks.push(piece);
        proof {
            assert(chunks@.map_values(|c: Vec<T>| c@) =~= views0.push(rest0.take(take_n as int)));
            if rest0.len() <= cs {
                assert(rest0.take(take_n as int) =~= rest0);
                assert(rest@ =~= Seq::<T>::empty());
                assert(chunks_of(rest0, cs as int) =~= seq![rest0]);
                assert(views0.push(rest0) + chunks_of(rest@, cs as int) =~= views0
                    + chunks_of(rest0, cs as int));
            } else {
                assert(chunks_of(rest0, cs as int) == seq![rest0.take(cs as int)] + chunks_of(
                    rest0.skip(cs as int),
                    cs as int,
                ));
                assert(views0.push(rest0.take(cs as int)) + chunks_of(rest@, cs as int) =~= views0
                    + chunks_of(rest0, cs as int));
            }
        }
    }
    proof {
        assert(chunks_of(rest@, cs as int) =~= Seq::<Seq<T>>::empty());
        assert(chunks@.map_values(|c: Vec<T>| c@) =~= chunks_of(orig, cs as int));
    }
    chunks
}

} // verus!
