//! Cell codes.
//!
//! Every cell of the well and of a piece grid holds one `u8` code.  Code 0
//! means the cell is empty.  A nonzero code carries two orthogonal pieces of
//! information: bit 7 (value 128) marks the cell as the shape's pivot
//! reference point, and the low seven bits carry the colour index, 1 to 7.

use vstd::prelude::*;

verus! {

/// A cell code is the pivot marker when bit 7 is set, which for a `u8` means
/// the code is at least 128.
pub open spec fn is_pivot_spec(cell: u8) -> bool {
    cell >= 128
}

/// The colour index carried by a cell code: the code with the pivot marker
/// masked off.
pub open spec fn color_spec(code: u8) -> u8 {
    if code >= 128 {
        (code - 128) as u8
    } else {
        code
    }
}

/// True iff the code marks the shape's pivot reference point.
pub fn is_pivot_cell(cell: u8) -> (r: bool)
    ensures
        r == is_pivot_spec(cell),
{
    proof {
        assert((cell & 0x80 != 0) == (cell >= 128)) by (bit_vector);
    }
    cell & 0x80 != 0
}

/// The colour index of a nonempty cell code: the pivot marker is masked off,
/// leaving the palette index the code was scaled by.
pub fn color_of(code: u8) -> (r: u8)
    ensures
        r == color_spec(code),
{
    proof {
        assert(code & 0x7f == (if code >= 128 { (code - 128) as u8 } else { code })) by (bit_vector);
    }
    code & 0x7f
}

} // verus!
