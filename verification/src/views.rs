//! What lists mean, and values that can be copied.
use vstd::prelude::*;

verus! {

/// What the elements of a list say.
pub open spec fn views<T: DeepView>(list: Seq<T>) -> Seq<T::V> {
    Seq::new(list.len(), |i: int| list[i].deep_view())
}

/// One more element has one more meaning.
pub proof fn lemma_push_view<T: DeepView>(list: Seq<T>, item: T)
    ensures
        views(list.push(item)) == views(list).push(item.deep_view()),
{
    assert(views(list.push(item)) =~= views(list).push(item.deep_view()));
}

/// Values that can be copied: the copy means the same.
pub trait Duplicate: DeepView + Sized {
    fn duplicate(&self) -> (copy: Self)
        ensures
            copy.deep_view() == self.deep_view(),
    ;
}

impl Duplicate for String {
    fn duplicate(&self) -> (copy: Self) {
        self.clone()
    }
}

impl<T: Duplicate> Duplicate for Vec<T> {
    fn duplicate(&self) -> (copy: Self) {
        let mut copy: Vec<T> = Vec::new();
        let mut i: usize = 0;
        while i < self.len()
            invariant
                i <= self.len(),
                copy.len() == i,
                forall|k: int|
                    0 <= k < i ==> (#[trigger] copy@[k]).deep_view() == self@[k].deep_view(),
            decreases self.len() - i,
        {
            copy.push(self[i].duplicate());
            i = i + 1;
        }
        assert(copy.deep_view() =~= self.deep_view());
        copy
    }
}

/// Flattening what a function makes of each element can be done element by element.
pub proof fn lemma_flat_step<A, B>(list: Seq<A>, f: spec_fn(A) -> Seq<B>)
    requires
        list.len() > 0,
    ensures
        list.map_values(f).flatten() == list.drop_last().map_values(f).flatten() + f(list.last()),
{
    let parts = list.map_values(f);
    parts.lemma_flatten_and_flatten_alt_are_equivalent();
    parts.drop_last().lemma_flatten_and_flatten_alt_are_equivalent();
    assert(parts.drop_last() =~= list.drop_last().map_values(f));
}

} // verus!
