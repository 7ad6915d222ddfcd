use vstd::prelude::*;

use icu_properties::props::DefaultIgnorableCodePoint;
use icu_properties::CodePointSetData;

verus! {

/// Whether `c` has the Unicode `Default_Ignorable_Code_Point` property, as
/// recorded in the property data compiled into ICU4X.
pub uninterp spec fn default_ignorable_code_point(c: char) -> bool;

/// Looks `c` up in ICU4X's compiled `Default_Ignorable_Code_Point` set
/// (`CodePointSetData::new::<DefaultIgnorableCodePoint>().contains`). The
/// contract claims only that the answer is a fixed function of `c`, named
/// `default_ignorable_code_point`; which characters belong to the set is
/// not stated.
#[verifier::external_body]
pub(crate) fn is_default_ignorable_code_point(c: char) -> (r: bool)
    ensures
        r == default_ignorable_code_point(c),
{
    CodePointSetData::new::<DefaultIgnorableCodePoint>().contains(c)
}

/// Whether `c` has the Unicode `White_Space` property.
pub open spec fn white_space_char(c: char) -> bool {
    let u = c as u32;
    (0x9 <= u <= 0xD) || u == 0x20 || u == 0x85 || u == 0xA0 || u == 0x1680 || (0x2000 <= u
        <= 0x200A) || u == 0x2028 || u == 0x2029 || u == 0x202F || u == 0x205F || u == 0x3000
}

/// Whether `c` has the Unicode `White_Space` property.
pub fn is_white_space_char(c: char) -> (r: bool)
    ensures
        r == white_space_char(c),
{
    let u = c as u32;
    (0x9 <= u && u <= 0xD) || u == 0x20 || u == 0x85 || u == 0xA0 || u == 0x1680 || (0x2000 <= u
        && u <= 0x200A) || u == 0x2028 || u == 0x2029 || u == 0x202F || u == 0x205F || u == 0x3000
}

} // verus!
