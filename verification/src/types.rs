use vstd::prelude::*;

verus! {

/// A fixed-width 256-bit unsigned value, held as its 32 bytes in wire order
/// (the order in which the hexadecimal form spells them out).
#[derive(Clone, Copy, Debug, PartialEq, Eq)]
pub struct Bigi {
    pub bytes: [u8; 32],
}

impl View for Bigi {
    type V = Seq<u8>;

    open spec fn view(&self) -> Seq<u8> {
        self.bytes@
    }
}

/// An elliptic-curve point given by its affine coordinates.
#[derive(Clone, Copy, Debug, PartialEq, Eq)]
pub struct Point {
    pub x: Bigi,
    pub y: Bigi,
}

impl View for Point {
    type V = (Seq<u8>, Seq<u8>);

    open spec fn view(&self) -> (Seq<u8>, Seq<u8>) {
        (self.x@, self.y@)
    }
}

/// Why a request was refused.
#[derive(Clone, Copy, Debug, PartialEq, Eq, Structural)]
pub enum Error {
    /// A hexadecimal field had the wrong length or held a character
    /// that is no hex digit.
    MalformedInput,
    /// The data block exceeds the maximum payload size.
    PayloadTooLarge,
    /// A signature check failed, or a required secret proof was missing.
    Forbidden,
    /// No record exists at the given composite key.
    NotFound,
}

/// Equality of two 256-bit values, byte for byte.
pub fn bigi_eq(a: &Bigi, b: &Bigi) -> (r: bool)
    ensures
        r == (a@ == b@),
{
    let mut i: usize = 0;
    while i < 32
        invariant
            0 <= i <= 32,
            forall|j: int| 0 <= j < i ==> a.bytes@[j] == b.bytes@[j],
        decreases 32 - i,
    {
        if a.bytes[i] != b.bytes[i] {
            assert(a@ != b@);
            return false;
        }
        i = i + 1;
    }
    proof {
        assert(a@ =~= b@);
    }
    true
}

/// Equality of two points, coordinate by coordinate.
pub fn point_eq(a: &Point, b: &Point) -> (r: bool)
    ensures
        r == (a@ == b@),
{
    bigi_eq(&a.x, &b.x) && bigi_eq(&a.y, &b.y)
}

} // verus!
