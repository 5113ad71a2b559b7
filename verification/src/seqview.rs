//! Bridging lemmas between a `Vec`'s `deep_view` and the element-wise
//! views of its underlying sequence.

use vstd::prelude::*;

verus! {

/// The element-wise deep view of a sequence.
pub open spec fn dvs<T: DeepView>(s: Seq<T>) -> Seq<T::V> {
    Seq::new(s.len(), |i: int| s[i].deep_view())
}

pub broadcast proof fn lemma_vec_deep_view<T: DeepView>(v: &Vec<T>)
    ensures
        #[trigger] v.deep_view() == dvs(v@),
{
    assert(v.deep_view() =~= dvs(v@));
}

pub broadcast proof fn lemma_dvs_len<T: DeepView>(s: Seq<T>)
    ensures
        #[trigger] dvs(s).len() == s.len(),
{
}

pub broadcast proof fn lemma_dvs_index<T: DeepView>(s: Seq<T>, i: int)
    requires
        0 <= i < s.len(),
    ensures
        #[trigger] dvs(s)[i] == s[i].deep_view(),
{
}

pub broadcast proof fn lemma_dvs_push<T: DeepView>(s: Seq<T>, x: T)
    ensures
        #[trigger] dvs(s.push(x)) == dvs(s).push(x.deep_view()),
{
    assert(dvs(s.push(x)) =~= dvs(s).push(x.deep_view()));
}

pub broadcast proof fn lemma_dvs_take<T: DeepView>(s: Seq<T>, i: int)
    requires
        0 <= i <= s.len(),
    ensures
        #[trigger] dvs(s.take(i)) == dvs(s).take(i),
{
    assert(dvs(s.take(i)) =~= dvs(s).take(i));
}

pub broadcast proof fn lemma_dvs_add<T: DeepView>(a: Seq<T>, b: Seq<T>)
    ensures
        #[trigger] dvs(a + b) == dvs(a) + dvs(b),
{
    assert(dvs(a + b) =~= dvs(a) + dvs(b));
}

/// Taking one element more appends exactly that element.
pub broadcast proof fn lemma_take_push<A>(s: Seq<A>, i: int)
    requires
        0 <= i < s.len(),
    ensures
        #[trigger] s.take(i + 1) == s.take(i).push(s[i]),
{
    assert(s.take(i + 1) =~= s.take(i).push(s[i]));
}

pub broadcast group group_dvs {
    lemma_vec_deep_view,
    lemma_dvs_len,
    lemma_dvs_index,
    lemma_dvs_push,
    lemma_dvs_take,
    lemma_dvs_add,
    lemma_take_push,
}

} // verus!
