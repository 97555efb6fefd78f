//! Models of standard containers of the library's types, and lists built with their models.

use vstd::prelude::*;

verus! {

/// The model of a `Result`: the model of what it holds, on either side.
pub open spec fn result_view<T: DeepView, E: DeepView>(r: Result<T, E>) -> Result<T::V, E::V> {
    match r {
        Ok(t) => Ok(t.deep_view()),
        Err(e) => Err(e.deep_view()),
    }
}


/// A list that holds nothing.
pub fn empty_list<T: DeepView>() -> (r: Vec<T>)
    ensures
        r.deep_view() == Seq::<T::V>::empty(),
{
    let r: Vec<T> = Vec::new();
    assert(r.deep_view() =~= Seq::<T::V>::empty());
    r
}

/// The list `v` with `x` behind its last item.
pub fn pushed<T: DeepView>(v: Vec<T>, x: T) -> (r: Vec<T>)
    ensures
        r.deep_view() == v.deep_view().push(x.deep_view()),
{
    let mut r = v;
    r.push(x);
    assert(r.deep_view() =~= v.deep_view().push(x.deep_view()));
    r
}

/// The items of `a` followed by those of `b`.
pub fn joined<T: DeepView>(a: Vec<T>, b: Vec<T>) -> (r: Vec<T>)
    ensures
        r.deep_view() == a.deep_view() + b.deep_view(),
{
    let mut r = a;
    let mut rest = b;
    r.append(&mut rest);
    assert(r.deep_view() =~= a.deep_view() + b.deep_view());
    r
}

} // verus!
