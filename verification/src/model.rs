//! Views of containers: the mathematical content of vectors and options.

use vstd::prelude::*;

verus! {

/// The element-wise view of a sequence of viewable values.
pub open spec fn all<T: View>(s: Seq<T>) -> Seq<T::V> {
    Seq::new(s.len(), |i: int| s[i]@)
}

/// The view of an optional value.
pub open spec fn opt<T: View>(o: Option<T>) -> Option<T::V> {
    match o {
        Some(v) => Some(v@),
        None => None,
    }
}

/// The view of an optional vector of viewable values.
pub open spec fn opt_all<T: View>(o: Option<Vec<T>>) -> Option<Seq<T::V>> {
    match o {
        Some(v) => Some(all(v@)),
        None => None,
    }
}

pub broadcast proof fn all_push<T: View>(s: Seq<T>, x: T)
    ensures
        #[trigger] all(s.push(x)) == all(s).push(x@),
{
    assert(all(s.push(x)) =~= all(s).push(x@));
}

pub broadcast proof fn all_empty<T: View>()
    ensures
        #[trigger] all(Seq::<T>::empty()) == Seq::<T::V>::empty(),
{
    assert(all(Seq::<T>::empty()) =~= Seq::<T::V>::empty());
}

pub broadcast group group_model {
    all_push,
    all_empty,
}

} // verus!
