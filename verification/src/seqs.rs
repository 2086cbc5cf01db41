//! Small shared lemmas about sequences: filtering a growing prefix (the
//! shape of most selection loops here), filtering under distinctness,
//! and reading a sequence of references.

use vstd::prelude::*;

verus! {

/// Filtering a one-longer prefix keeps the old result and appends the new
/// element exactly when the predicate accepts it.
pub proof fn lemma_take_filter_step<A>(s: Seq<A>, pred: spec_fn(A) -> bool, i: int)
    requires
        0 <= i < s.len(),
    ensures
        s.take(i + 1).filter(pred) == (if pred(s[i]) {
            s.take(i).filter(pred).push(s[i])
        } else {
            s.take(i).filter(pred)
        }),
{
    assert(s.take(i + 1) =~= s.take(i) + seq![s[i]]);
    Seq::filter_distributes_over_add(s.take(i), seq![s[i]], pred);
    reveal_with_fuel(Seq::filter, 2);
    assert(seq![s[i]].drop_last() =~= Seq::<A>::empty());
    if pred(s[i]) {
        assert(seq![s[i]].filter(pred) =~= seq![s[i]]);
        assert(s.take(i).filter(pred) + seq![s[i]] =~= s.take(i).filter(pred).push(s[i]));
    } else {
        assert(seq![s[i]].filter(pred) =~= Seq::<A>::empty());
        assert(s.take(i).filter(pred) + Seq::<A>::empty() =~= s.take(i).filter(pred));
    }
}

/// The values behind a sequence of references.
pub open spec fn derefed<T>(s: Seq<&T>) -> Seq<T> {
    s.map_values(|x: &T| *x)
}

/// `derefed` reads the references one for one.
pub proof fn lemma_derefed<T>(s: Seq<&T>)
    ensures
        derefed(s).len() == s.len(),
        forall|i: int| 0 <= i < s.len() ==> derefed(s)[i] == *s[i],
{
}

/// Every element a filtering keeps occurs in the original sequence.
pub proof fn lemma_filter_subset<A>(s: Seq<A>, pred: spec_fn(A) -> bool)
    ensures
        forall|i: int|
            0 <= i < s.filter(pred).len() ==> s.contains(#[trigger] s.filter(pred)[i]),
    decreases s.len(),
{
    reveal(Seq::filter);
    if s.len() > 0 {
        let d = s.drop_last();
        lemma_filter_subset(d, pred);
        let f = s.filter(pred);
        assert forall|i: int| 0 <= i < f.len() implies s.contains(#[trigger] f[i]) by {
            let sub = d.filter(pred);
            if pred(s.last()) && i == f.len() - 1 {
                assert(s[s.len() - 1] == f[i]);
            } else {
                assert(f[i] == sub[i]);
                assert(d.contains(sub[i]));
                let k = choose|k: int| 0 <= k < d.len() && d[k] == sub[i];
                assert(s[k] == f[i]);
            }
        }
    }
}

/// Filtering never doubles an element of a duplicate-free sequence.
pub proof fn lemma_filter_keeps_distinct<A>(s: Seq<A>, pred: spec_fn(A) -> bool)
    requires
        forall|i: int, j: int| 0 <= i < j < s.len() ==> s[i] != s[j],
    ensures
        forall|i: int, j: int|
            0 <= i < j < s.filter(pred).len() ==> s.filter(pred)[i] != s.filter(pred)[j],
    decreases s.len(),
{
    reveal(Seq::filter);
    if s.len() > 0 {
        let d = s.drop_last();
        assert(forall|i: int, j: int| 0 <= i < j < d.len() ==> d[i] != d[j]);
        lemma_filter_keeps_distinct(d, pred);
        lemma_filter_subset(d, pred);
        let f = s.filter(pred);
        let sub = d.filter(pred);
        assert forall|i: int, j: int| 0 <= i < j < f.len() implies f[i] != f[j] by {
            if pred(s.last()) && j == f.len() - 1 {
                assert(f[i] == sub[i]);
                assert(d.contains(sub[i]));
                let k = choose|k: int| 0 <= k < d.len() && d[k] == sub[i];
                assert(s[k] == f[i] && s[s.len() - 1] == f[j]);
            } else {
                assert(f[i] == sub[i] && f[j] == sub[j]);
            }
        }
    }
}

/// Taking the full prefix gives the sequence back.
pub proof fn lemma_take_all<A>(s: Seq<A>)
    ensures
        s.take(s.len() as int) == s,
{
    assert(s.take(s.len() as int) =~= s);
}

} // verus!
