//! Validation of the values that a command line hands to the library.

use crate::image_manip::bitmap::BitMap;
use vstd::prelude::*;

verus! {

/// The parameters of a run.
#[derive(Debug, Clone, Copy, PartialEq, Eq)]
pub enum Param {
    Height,
    Width,
    Frames,
    Rule,
    Density,
}

/// Why a value was not accepted.
#[derive(Debug, Clone, Copy, PartialEq, Eq)]
pub enum InputError {
    /// The value lies outside the range from `min` to `max`.
    OutOfRange { min: u64, max: u64 },
    /// The parameter does not take an integer.
    NotAnInteger,
    /// A bitmap needs at least one cell.
    EmptyBitmap,
    /// The character at this position is neither `0` nor `1`.
    NotABit { position: usize },
}

/// The smallest and the largest integer that a parameter accepts, or `None`
/// for a parameter that takes no integer.
pub open spec fn integer_range(param: Param) -> Option<(u64, u64)> {
    match param {
        Param::Height => Some((1, 0xffff)),
        Param::Width => Some((1, 0xffff)),
        Param::Frames => Some((1, 0xffff_ffff)),
        Param::Rule => Some((0, 0xff)),
        Param::Density => None,
    }
}

/// What validating `val` for `param` gives.
pub open spec fn validated_integer(param: Param, val: u64) -> Result<u64, InputError> {
    match integer_range(param) {
        Some((min, max)) => if min <= val <= max {
            Ok(val)
        } else {
            Err(InputError::OutOfRange { min, max })
        },
        None => Err(InputError::NotAnInteger),
    }
}

/// Accepts `val` where it lies in the range of `param`: height and width
/// from 1 to 65535, frames from 1 to 4294967295, rule from 0 to 255.
pub fn validate_integer_inputs(param: Param, val: u64) -> (r: Result<u64, InputError>)
    ensures
        r == validated_integer(param, val),
{
    let (min, max): (u64, u64) = match param {
        Param::Height | Param::Width => (1, 0xffff),
        Param::Frames => (1, 0xffff_ffff),
        Param::Rule => (0, 0xff),
        Param::Density => {
            return Err(InputError::NotAnInteger);
        },
    };
    if min <= val && val <= max {
        Ok(val)
    } else {
        Err(InputError::OutOfRange { min, max })
    }
}

/// Whether a character stands for a cell.
pub open spec fn is_bit(c: char) -> bool {
    c == '0' || c == '1'
}

/// The cells that a string of `0` and `1` stands for: a cell is on where the
/// character is `1`.
pub open spec fn parsed_cells(s: Seq<char>) -> Seq<bool> {
    Seq::new(s.len(), |i: int| s[i] == '1')
}

/// Reads a bitmap from a string of `0` and `1`, one cell per character.
pub fn validate_bitmap_input(input_bitmap: &str) -> (r: Result<BitMap, InputError>)
    ensures
        match r {
            Ok(bitmap) => {
                &&& input_bitmap@.len() > 0
                &&& forall|i: int| 0 <= i < input_bitmap@.len() ==> is_bit(input_bitmap@[i])
                &&& bitmap@ == parsed_cells(input_bitmap@)
            },
            Err(InputError::EmptyBitmap) => input_bitmap@.len() == 0,
            Err(InputError::NotABit { position }) => {
                &&& position < input_bitmap@.len()
                &&& !is_bit(input_bitmap@[position as int])
                &&& forall|i: int| 0 <= i < position ==> is_bit(input_bitmap@[i])
            },
            Err(_) => false,
        },
{
    let mut cells: Vec<bool> = Vec::new();
    for c in it: input_bitmap.chars()
        invariant
            it.seq() == input_bitmap@,
            cells@.len() == it.index(),
            forall|i: int| 0 <= i < it.index() ==> is_bit(input_bitmap@[i]),
            cells@ == parsed_cells(input_bitmap@.take(it.index() as int)),
    {
        if c == '1' {
            cells.push(true);
        } else if c == '0' {
            cells.push(false);
        } else {
            return Err(InputError::NotABit { position: cells.len() });
        }
        assert(cells@ =~= parsed_cells(input_bitmap@.take(it.index() + 1)));
    }
    assert(input_bitmap@.take(input_bitmap@.len() as int) =~= input_bitmap@);
    match BitMap::from_cells(cells.as_slice()) {
        Ok(bitmap) => Ok(bitmap),
        Err(_) => Err(InputError::EmptyBitmap),
    }
}

} // verus!
