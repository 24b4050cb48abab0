use vstd::prelude::*;

verus! {

/// A tuning value of a record (a damage factor, a height bound), held as the bit
/// pattern of an IEEE 754 single-precision number.
///
/// Linking only carries these values from raw records to resolved ones; it never
/// computes with them, so the bit pattern is all the library needs.
#[derive(Clone, Copy, Debug, PartialEq, Eq, Structural)]
pub struct Scalar {
    pub bits: u32,
}

} // verus!
