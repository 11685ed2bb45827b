//! Building `count` byte vectors of `size` copies of one value, two ways.
use vstd::prelude::*;

verus! {

/// `size` copies of `value`.
pub open spec fn filled(size: nat, value: u8) -> Seq<u8> {
    Seq::new(size, |i: int| value)
}

/// The contents of each vector of `vecs`, in order.
pub open spec fn rows(vecs: Seq<Vec<u8>>) -> Seq<Seq<u8>> {
    vecs.map_values(|v: Vec<u8>| v@)
}

/// `count` vectors, each holding `size` copies of `value`.
pub open spec fn filled_rows(size: nat, value: u8, count: nat) -> Seq<Seq<u8>> {
    Seq::new(count, |i: int| filled(size, value))
}

/// Builds each vector with `vec![value; size]`.
pub fn init_with_macro(size: usize, value: u8, count: usize) -> (r: Vec<Vec<u8>>)
    ensures
        rows(r@) == filled_rows(size as nat, value, count as nat),
{
    let mut vecs: Vec<Vec<u8>> = Vec::with_capacity(count);
    let mut i: usize = 0;
    while i < count
        invariant
            i <= count,
            vecs.len() == i,
            forall|j: int| 0 <= j < i ==> #[trigger] vecs@[j]@ == filled(size as nat, value),
        decreases count - i,
    {
        let v: Vec<u8> = vec![value; size];
        assert(v@ =~= filled(size as nat, value));
        vecs.push(v);
        i = i + 1;
    }
    assert(rows(vecs@) =~= filled_rows(size as nat, value, count as nat));
    vecs
}

/// Builds each vector empty with room for `size` bytes, then resizes it.
pub fn init_with_resize(size: usize, value: u8, count: usize) -> (r: Vec<Vec<u8>>)
    ensures
        rows(r@) == filled_rows(size as nat, value, count as nat),
{
    let mut vecs: Vec<Vec<u8>> = Vec::with_capacity(count);
    let mut i: usize = 0;
    while i < count
        invariant
            i <= count,
            vecs.len() == i,
            forall|j: int| 0 <= j < i ==> #[trigger] vecs@[j]@ == filled(size as nat, value),
        decreases count - i,
    {
        let mut v: Vec<u8> = Vec::with_capacity(size);
        v.resize(size, value);
        assert(v@ =~= filled(size as nat, value));
        vecs.push(v);
        i = i + 1;
    }
    assert(rows(vecs@) =~= filled_rows(size as nat, value, count as nat));
    vecs
}

} // verus!
