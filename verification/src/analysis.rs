use vstd::prelude::*;

verus! {

/// The kind of text-segmentation boundary that precedes a character.
#[derive(PartialEq, Eq, Structural, Debug, Clone, Copy)]
pub enum Boundary {
    /// Not a boundary.
    NoBoundary,
    /// A word boundary without a line-break opportunity.
    Word,
    /// A soft line-break opportunity.
    Line,
    /// A mandatory line break.
    Mandatory,
}

/// Whitespace classification of a source character.
#[derive(PartialEq, Eq, Structural, Debug, Clone, Copy)]
pub enum Whitespace {
    /// Not a whitespace character handled by layout.
    NonWhitespace,
    Space,
    Tab,
    Newline,
    NoBreakSpace,
}

impl Whitespace {
    /// Whether this is a space or a no-break space.
    pub fn is_space_or_nbsp(self) -> (r: bool)
        ensures
            r <==> (self == Whitespace::Space || self == Whitespace::NoBreakSpace),
    {
        match self {
            Whitespace::Space | Whitespace::NoBreakSpace => true,
            _ => false,
        }
    }
}

/// Semantic class of the authored source unit that precedes a wrap
/// candidate.
#[derive(PartialEq, Eq, Structural, Debug, Clone, Copy)]
pub enum AuthoredBreakUnit {
    /// Authored dash punctuation, such as U+002D or U+2010.
    DashPunctuation,
    /// Any other unit.
    Other,
}

} // verus!
