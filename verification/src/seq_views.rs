//! The element-wise view of a sequence of viewable values, with the
//! facts the rest of the crate needs about it.

use vstd::prelude::*;

verus! {

broadcast use vstd::seq::group_seq_axioms;

/// The sequence of the elements' views.
pub open spec fn views<T: View>(s: Seq<T>) -> Seq<T::V>
    decreases s,
{
    if s.len() == 0 {
        Seq::empty()
    } else {
        seq![s[0]@] + views(s.skip(1))
    }
}

pub proof fn lemma_views_len<T: View>(s: Seq<T>)
    ensures
        views(s).len() == s.len(),
    decreases s,
{
    if s.len() > 0 {
        lemma_views_len(s.skip(1));
    }
}

pub proof fn lemma_views_index<T: View>(s: Seq<T>, i: int)
    requires
        0 <= i < s.len(),
    ensures
        views(s).len() == s.len(),
        views(s)[i] == s[i]@,
    decreases s,
{
    lemma_views_len(s);
    if i > 0 {
        lemma_views_index(s.skip(1), i - 1);
    }
}

pub proof fn lemma_views_push<T: View>(s: Seq<T>, x: T)
    ensures
        views(s.push(x)) == views(s).push(x@),
{
    lemma_views_len(s.push(x));
    assert forall|i: int| 0 <= i < s.push(x).len() implies views(s.push(x))[i] == views(s).push(
        x@,
    )[i] by {
        lemma_views_len(s);
        lemma_views_index(s.push(x), i);
        if i < s.len() {
            lemma_views_index(s, i);
        } else {
            assert(s.push(x)[i] == x);
        }
    }
    lemma_views_len(s);
    assert(views(s.push(x)) =~= views(s).push(x@));
}

pub proof fn lemma_views_update<T: View>(s: Seq<T>, i: int, x: T)
    requires
        0 <= i < s.len(),
    ensures
        views(s.update(i, x)) == views(s).update(i, x@),
{
    lemma_views_len(s.update(i, x));
    lemma_views_len(s);
    assert forall|k: int| 0 <= k < s.update(i, x).len() implies views(s.update(i, x))[k] == views(
        s,
    ).update(i, x@)[k] by {
        lemma_views_index(s.update(i, x), k);
        lemma_views_index(s, k);
    }
    assert(views(s.update(i, x)) =~= views(s).update(i, x@));
}

} // verus!
