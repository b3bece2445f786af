//! The batching step of embedding generation.
//!
//! The embedding service takes at most a fixed number of texts per call, so
//! the chunk texts are split into ordered batches before being sent. The
//! sending itself, and the float vectors that come back, are not handled
//! here.

use vstd::prelude::*;

verus! {

/// How many texts one embedding request may carry.
pub const EMBEDDING_BATCH_SIZE: usize = 100;

/// The batches a text sequence is split into: full batches of `size`, in
/// order, with whatever remains as the last batch.
pub open spec fn spec_batches(texts: Seq<String>, size: int) -> Seq<Seq<String>>
    recommends
        size >= 1,
    decreases texts.len(),
    when size >= 1
{
    if texts.len() == 0 {
        Seq::empty()
    } else if texts.len() <= size {
        seq![texts]
    } else {
        seq![texts.take(size)] + spec_batches(texts.skip(size), size)
    }
}

/// Splits texts into ordered batches of at most `size` each: every batch
/// but the last holds exactly `size` texts, none is empty, and reading the
/// batches in order gives back the texts in order.
pub fn batch_texts(texts: Vec<String>, size: usize) -> (batches: Vec<Vec<String>>)
    requires
        size >= 1,
    ensures
        batches@.map_values(|b: Vec<String>| b@) == spec_batches(texts@, size as int),
{
    let ghost orig = texts@;
    let mut rest = texts;
    let mut batches: Vec<Vec<String>> = Vec::new();
    proof {
        assert(batches@.map_values(|b: Vec<String>| b@) =~= Seq::<Seq<String>>::empty());
    }
    while rest.len() > 0
        invariant
            size >= 1,
            batches@.map_values(|b: Vec<String>| b@) + spec_batches(rest@, size as int)
                == spec_batches(orig, size as int),
        decreases rest.len(),
    {
        let k = if size < rest.len() {
            size
        } else {
            rest.len()
        };
        let ghost r = rest@;
        let tail = rest.split_off(k);
        proof {
            assert(rest@ == r.take(k as int));
            assert(tail@ == r.skip(k as int));
            if r.len() <= size as int {
                assert(r.take(k as int) =~= r);
                assert(tail@ =~= Seq::<String>::empty());
            }
            batches@.lemma_push_map_commute(|b: Vec<String>| b@, rest);
            assert(spec_batches(r, size as int) == seq![r.take(k as int)] + spec_batches(
                r.skip(k as int),
                size as int,
            ) || spec_batches(r, size as int) == seq![r]);
            assert(batches@.map_values(|b: Vec<String>| b@).push(rest@) =~= batches@.map_values(
                |b: Vec<String>| b@,
            ) + seq![rest@]);
        }
        let head = rest;
        batches.push(head);
        rest = tail;
        proof {
            assert(batches@.map_values(|b: Vec<String>| b@) + spec_batches(rest@, size as int)
                =~= spec_batches(orig, size as int));
        }
    }
    proof {
        assert(spec_batches(rest@, size as int) == Seq::<Seq<String>>::empty());
        assert(batches@.map_values(|b: Vec<String>| b@) + Seq::<Seq<String>>::empty()
            =~= batches@.map_values(|b: Vec<String>| b@));
    }
    batches
}

/// Every batch is non-empty, at most `size` long, and every batch but the
/// last is exactly `size` long.
pub proof fn lemma_batch_sizes(texts: Seq<String>, size: int, b: int)
    requires
        size >= 1,
        0 <= b < spec_batches(texts, size).len(),
    ensures
        1 <= spec_batches(texts, size)[b].len() <= size,
        b < spec_batches(texts, size).len() - 1 ==> spec_batches(texts, size)[b].len() == size,
    decreases texts.len(),
{
    if texts.len() == 0 {
    } else if texts.len() <= size {
    } else {
        if b > 0 {
            lemma_batch_sizes(texts.skip(size), size, b - 1);
        }
    }
}

/// Reading the batches in order gives back the texts in order.
pub proof fn lemma_batches_flatten(texts: Seq<String>, size: int)
    requires
        size >= 1,
    ensures
        spec_batches(texts, size).flatten() == texts,
    decreases texts.len(),
{
    if texts.len() == 0 {
        assert(spec_batches(texts, size).flatten() =~= texts);
    } else if texts.len() <= size {
        let s = seq![texts];
        assert(s.first() == texts && s.drop_first() =~= Seq::<Seq<String>>::empty());
        assert(s.flatten() == s.first().add(s.drop_first().flatten()));
        assert(s.flatten() =~= texts);
    } else {
        lemma_batches_flatten(texts.skip(size), size);
        let s = spec_batches(texts, size);
        assert(s == seq![texts.take(size)] + spec_batches(texts.skip(size), size));
        assert(s.drop_first() =~= spec_batches(texts.skip(size), size));
        assert(s.first() == texts.take(size));
        assert(s.flatten() == s.first() + s.drop_first().flatten()) by {
            reveal_with_fuel(Seq::flatten, 2);
        }
        assert(texts.take(size) + texts.skip(size) =~= texts);
    }
}

} // verus!
