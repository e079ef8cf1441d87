//! Which characters separate words.

use vstd::prelude::*;

verus! {

/// Whether the scalar value `value` is whitespace, which is what Unicode
/// marks `White_Space`: the controls from tab to carriage return, the space,
/// next line, the no-break space, the Ogham space mark, the spaces from en
/// quad to hair space, the line and paragraph separators, the narrow
/// no-break space, the medium mathematical space and the ideographic space.
pub open spec fn is_whitespace_value(value: u32) -> bool {
    ||| 0x0009 <= value <= 0x000d
    ||| value == 0x0020
    ||| value == 0x0085
    ||| value == 0x00a0
    ||| value == 0x1680
    ||| 0x2000 <= value <= 0x200a
    ||| value == 0x2028
    ||| value == 0x2029
    ||| value == 0x202f
    ||| value == 0x205f
    ||| value == 0x3000
}

/// Whether the character `c` is whitespace.
pub open spec fn is_whitespace(c: char) -> bool {
    is_whitespace_value(c as u32)
}

/// Tells whether the scalar value `value` is whitespace.
pub fn is_whitespace_scalar(value: u32) -> (yes: bool)
    ensures
        yes == is_whitespace_value(value),
{
    if value < 0x2000 {
        (0x0009 <= value && value <= 0x000d) || value == 0x0020 || value == 0x0085 || value
            == 0x00a0 || value == 0x1680
    } else {
        value <= 0x200a || value == 0x2028 || value == 0x2029 || value == 0x202f || value == 0x205f
            || value == 0x3000
    }
}

} // verus!
