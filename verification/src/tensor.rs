//! Dense NCHW tensors (`N = 1` in practice), stored row-major.

use vstd::prelude::*;

verus! {

/// A tensor: its `shape` (NCHW) and its elements in row-major order.
pub struct Tensor<T> {
    pub shape: Vec<usize>,
    pub data: Vec<T>,
}

impl<T> Tensor<T> {
    /// Wrap a shape and its row-major data.
    pub fn new(shape: Vec<usize>, data: Vec<T>) -> (r: Self)
        ensures
            r.shape@ == shape@,
            r.data@ == data@,
    {
        Tensor { shape, data }
    }
}

/// An element-for-element copy of a vector.
pub fn copy_vec<T: Copy>(v: &Vec<T>) -> (r: Vec<T>)
    ensures
        r@ == v@,
{
    let mut r: Vec<T> = Vec::new();
    let mut i: usize = 0;
    while i < v.len()
        invariant
            i <= v.len(),
            r@ == v@.take(i as int),
        decreases v.len() - i,
    {
        r.push(v[i]);
        i += 1;
        assert(r@ =~= v@.take(i as int));
    }
    assert(v@.take(v.len() as int) =~= v@);
    r
}

/// An element-for-element copy of a tensor.
pub fn copy_tensor<T: Copy>(t: &Tensor<T>) -> (r: Tensor<T>)
    ensures
        r.shape@ == t.shape@,
        r.data@ == t.data@,
{
    Tensor { shape: copy_vec(&t.shape), data: copy_vec(&t.data) }
}

} // verus!
