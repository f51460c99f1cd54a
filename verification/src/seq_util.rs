//! Small general lemmas about sequences used by the store's loop proofs.

use vstd::prelude::*;

verus! {

/// Filtering a one-longer prefix keeps the shorter prefix's result and
/// appends the new element exactly when the predicate holds of it.
pub proof fn lemma_filter_take_step<A>(s: Seq<A>, p: spec_fn(A) -> bool, i: int)
    requires
        0 <= i < s.len(),
    ensures
        s.take(i + 1).filter(p) == if p(s[i]) {
            s.take(i).filter(p).push(s[i])
        } else {
            s.take(i).filter(p)
        },
{
    reveal(Seq::filter);
    let t = s.take(i + 1);
    assert(t.len() == i + 1);
    assert(t.drop_last() =~= s.take(i));
    assert(t.last() == s[i]);
}

/// Filtering the whole sequence is filtering the full-length prefix.
pub proof fn lemma_filter_take_all<A>(s: Seq<A>, p: spec_fn(A) -> bool)
    ensures
        s.take(s.len() as int).filter(p) == s.filter(p),
{
    assert(s.take(s.len() as int) =~= s);
}

/// Filtering after a push appends the new element exactly when the
/// predicate holds of it.
pub proof fn lemma_filter_push<A>(s: Seq<A>, p: spec_fn(A) -> bool, x: A)
    ensures
        s.push(x).filter(p) == if p(x) {
            s.filter(p).push(x)
        } else {
            s.filter(p)
        },
{
    reveal(Seq::filter);
    assert(s.push(x).drop_last() =~= s);
    assert(s.push(x).last() == x);
}

/// What filtering a one-element sequence keeps.
pub proof fn lemma_filter_singleton<A>(y: A, p: spec_fn(A) -> bool)
    ensures
        seq![y].filter(p).len() == if p(y) {
            1int
        } else {
            0int
        },
{
    reveal_with_fuel(Seq::filter, 2);
    assert(seq![y].drop_last() =~= Seq::<A>::empty());
}

/// How the filtered length changes when one position is overwritten.
pub proof fn lemma_filter_update_count<A>(s: Seq<A>, p: spec_fn(A) -> bool, i: int, x: A)
    requires
        0 <= i < s.len(),
    ensures
        s.update(i, x).filter(p).len() == s.filter(p).len() - (if p(s[i]) {
            1int
        } else {
            0int
        }) + (if p(x) {
            1int
        } else {
            0int
        }),
{
    let a = s.take(i);
    let b1 = seq![s[i]];
    let b2 = seq![x];
    let c = s.skip(i + 1);
    assert(s =~= a + b1 + c);
    assert(s.update(i, x) =~= a + b2 + c);
    Seq::filter_distributes_over_add(a, b1, p);
    Seq::filter_distributes_over_add(a + b1, c, p);
    Seq::filter_distributes_over_add(a, b2, p);
    Seq::filter_distributes_over_add(a + b2, c, p);
    lemma_filter_singleton(s[i], p);
    lemma_filter_singleton(x, p);
}

/// How the filtered length changes when one position is removed.
pub proof fn lemma_filter_remove_count<A>(s: Seq<A>, p: spec_fn(A) -> bool, i: int)
    requires
        0 <= i < s.len(),
    ensures
        s.remove(i).filter(p).len() == s.filter(p).len() - (if p(s[i]) {
            1int
        } else {
            0int
        }),
{
    let a = s.take(i);
    let b = seq![s[i]];
    let c = s.skip(i + 1);
    assert(s =~= a + b + c);
    assert(s.remove(i) =~= a + c);
    Seq::filter_distributes_over_add(a, b, p);
    Seq::filter_distributes_over_add(a + b, c, p);
    Seq::filter_distributes_over_add(a, c, p);
    lemma_filter_singleton(s[i], p);
}

/// The sum of `f` over a sequence.
pub open spec fn seq_sum<A>(s: Seq<A>, f: spec_fn(A) -> int) -> int
    decreases s.len(),
{
    if s.len() == 0 {
        0
    } else {
        seq_sum(s.drop_last(), f) + f(s.last())
    }
}

/// Summing a one-longer prefix adds the new element's contribution.
pub proof fn lemma_seq_sum_take_step<A>(s: Seq<A>, f: spec_fn(A) -> int, i: int)
    requires
        0 <= i < s.len(),
    ensures
        seq_sum(s.take(i + 1), f) == seq_sum(s.take(i), f) + f(s[i]),
{
    let t = s.take(i + 1);
    assert(t.len() == i + 1);
    assert(t.drop_last() =~= s.take(i));
    assert(t.last() == s[i]);
}

/// Summing the whole sequence is summing the full-length prefix.
pub proof fn lemma_seq_sum_take_all<A>(s: Seq<A>, f: spec_fn(A) -> int)
    ensures
        seq_sum(s.take(s.len() as int), f) == seq_sum(s, f),
{
    assert(s.take(s.len() as int) =~= s);
}

/// A sum of non-negative contributions is non-negative.
pub proof fn lemma_seq_sum_nonneg<A>(s: Seq<A>, f: spec_fn(A) -> int)
    requires
        forall|a: A| #[trigger] f(a) >= 0,
    ensures
        seq_sum(s, f) >= 0,
    decreases s.len(),
{
    if s.len() > 0 {
        lemma_seq_sum_nonneg(s.drop_last(), f);
    }
}

/// The concatenation of `f` over a sequence.
pub open spec fn seq_flat<A, B>(s: Seq<A>, f: spec_fn(A) -> Seq<B>) -> Seq<B>
    decreases s.len(),
{
    if s.len() == 0 {
        Seq::empty()
    } else {
        seq_flat(s.drop_last(), f) + f(s.last())
    }
}

/// Flattening a one-longer prefix appends the new element's sequence.
pub proof fn lemma_seq_flat_take_step<A, B>(s: Seq<A>, f: spec_fn(A) -> Seq<B>, i: int)
    requires
        0 <= i < s.len(),
    ensures
        seq_flat(s.take(i + 1), f) == seq_flat(s.take(i), f) + f(s[i]),
{
    let t = s.take(i + 1);
    assert(t.len() == i + 1);
    assert(t.drop_last() =~= s.take(i));
    assert(t.last() == s[i]);
}

/// Flattening the whole sequence is flattening the full-length prefix.
pub proof fn lemma_seq_flat_take_all<A, B>(s: Seq<A>, f: spec_fn(A) -> Seq<B>)
    ensures
        seq_flat(s.take(s.len() as int), f) == seq_flat(s, f),
{
    assert(s.take(s.len() as int) =~= s);
}

} // verus!
