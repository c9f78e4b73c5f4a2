use vstd::prelude::*;
use vstd::std_specs::cmp::PartialEqSpec;

verus! {

/// Copies a slice of exactly 64 bytes into an array.
pub fn slice_as_u8_64_array(slice: &[u8]) -> (r: [u8; 64])
    requires
        slice@.len() == 64,
    ensures
        r@ == slice@,
{
    let mut arr = [0u8; 64];
    let mut i: usize = 0;
    while i < 64
        invariant
            0 <= i <= 64,
            slice@.len() == 64,
            forall|j: int| 0 <= j < i ==> arr@[j] == slice@[j],
        decreases 64 - i,
    {
        arr[i] = slice[i];
        i += 1;
    }
    assert(arr@ =~= slice@);
    arr
}

/// Returns true if both slices are equal in length and have equal contents.
pub fn slice_equal<T: PartialEq>(lhs: &[T], rhs: &[T]) -> (r: bool)
    ensures
        T::obeys_eq_spec() ==> (r <==> (lhs@.len() == rhs@.len() && forall|i: int|
            0 <= i < lhs@.len() ==> lhs@[i].eq_spec(&rhs@[i]))),
{
    if lhs.len() != rhs.len() {
        return false;
    }
    let mut i: usize = 0;
    while i < lhs.len()
        invariant
            0 <= i <= lhs@.len(),
            lhs@.len() == rhs@.len(),
            T::obeys_eq_spec() ==> forall|j: int| 0 <= j < i ==> lhs@[j].eq_spec(&rhs@[j]),
        decreases lhs@.len() - i,
    {
        if !lhs[i].eq(&rhs[i]) {
            return false;
        }
        i += 1;
    }
    true
}

} // verus!
