use vstd::prelude::*;

verus! {

/// Control over non-"emergency" line-breaking.
#[derive(PartialEq, Eq, Structural, Debug, Clone, Copy)]
pub enum TextWrapMode {
    /// Wrap as needed to prevent overflow.
    Wrap,
    /// Do not wrap at soft-wrap opportunities.
    NoWrap,
}

/// Control over "emergency" line-breaking.
#[derive(PartialEq, Eq, Structural, Debug, Clone, Copy)]
pub enum OverflowWrap {
    /// Lines break only at normal opportunities.
    Normal,
    /// Words may be broken at an arbitrary point if needed.
    Anywhere,
    /// Like `Anywhere`, but treated differently for min-content sizing.
    BreakWord,
}

/// Control over word breaking.
#[derive(PartialEq, Eq, Structural, Debug, Clone, Copy)]
pub enum WordBreak {
    /// Customary rules.
    Normal,
    /// Breaking is allowed within "words".
    BreakAll,
    /// Breaking is forbidden within "words".
    KeepAll,
}

/// How white space is collapsed and whether it hangs.
#[derive(PartialEq, Eq, Structural, Debug, Clone, Copy)]
pub enum WhiteSpaceCollapse {
    Collapse,
    Preserve,
    /// Preserved spaces that do not hang at the end of a line.
    BreakSpaces,
}

/// How normal soft-wrap opportunities are constructed and prioritized.
#[derive(PartialEq, Eq, Structural, Debug, Clone, Copy)]
pub enum LineBreakMode {
    /// Use Unicode line-breaking opportunities and normal prioritization.
    Normal,
    /// Create equal-priority opportunities around every character unit.
    Anywhere,
}

impl Default for LineBreakMode {
    fn default() -> (r: Self)
        ensures
            r == LineBreakMode::Normal,
    {
        LineBreakMode::Normal
    }
}

/// Fully-resolved normal line-breaking behavior.
#[derive(PartialEq, Eq, Structural, Debug, Clone, Copy)]
pub enum SoftBreakPolicy {
    Unicode(WordBreak),
    Anywhere,
}

impl Default for SoftBreakPolicy {
    fn default() -> (r: Self)
        ensures
            r == SoftBreakPolicy::Unicode(WordBreak::Normal),
    {
        SoftBreakPolicy::Unicode(WordBreak::Normal)
    }
}

impl SoftBreakPolicy {
    /// Combines the two authored controls into one policy: `Anywhere`
    /// overrides any word-break value.
    pub fn resolve(word_break: WordBreak, line_break_mode: LineBreakMode) -> (r: Self)
        ensures
            r == match line_break_mode {
                LineBreakMode::Normal => SoftBreakPolicy::Unicode(word_break),
                LineBreakMode::Anywhere => SoftBreakPolicy::Anywhere,
            },
    {
        match line_break_mode {
            LineBreakMode::Normal => SoftBreakPolicy::Unicode(word_break),
            LineBreakMode::Anywhere => SoftBreakPolicy::Anywhere,
        }
    }

    /// The word-break rule used for segmentation; `Anywhere` segments like
    /// `break-all`.
    pub fn segmentation_word_break(self) -> (r: WordBreak)
        ensures
            r == match self {
                SoftBreakPolicy::Unicode(w) => w,
                SoftBreakPolicy::Anywhere => WordBreak::BreakAll,
            },
    {
        match self {
            SoftBreakPolicy::Unicode(word_break) => word_break,
            SoftBreakPolicy::Anywhere => WordBreak::BreakAll,
        }
    }
}

/// Weight synthesis policy.
#[derive(PartialEq, Eq, Structural, Debug, Clone, Copy)]
pub enum FontSynthesis {
    Auto,
    /// Synthesis is disabled.
    Never,
}

/// Style synthesis policy.
#[derive(PartialEq, Eq, Structural, Debug, Clone, Copy)]
pub enum FontSynthesisStyle {
    Auto,
    /// Synthesis is disabled.
    Never,
    ObliqueOnly,
}

/// Whether a font query may synthesize the requested font style.
#[derive(PartialEq, Eq, Structural, Debug, Clone, Copy)]
pub enum FontStyleSynthesis {
    /// Face matching may select a face that requires synthetic style.
    Allowed,
    /// Face matching must select a concrete face without synthetic style.
    Forbidden,
}

/// Formatting-scope relationship of a layout's first line.
#[derive(PartialEq, Eq, Structural, Debug, Clone, Copy)]
pub enum IndentStart {
    /// The first line starts the formatting scope.
    ElementStart,
    /// The first line continues a scope after a soft wrap.
    ContinuationAfterSoftWrap,
    /// The first line continues a scope after an explicit break.
    ContinuationAfterExplicitBreak,
}

/// Options controlling text-indent behaviour.
#[derive(PartialEq, Eq, Structural, Debug, Clone, Copy)]
pub struct IndentOptions {
    /// Indent every line that starts a formatting scope, not only the first.
    pub each_line: bool,
    /// Invert which lines are indented.
    pub hanging: bool,
}

/// Tab size: a number of space advances, or a fixed length.
#[derive(PartialEq, Eq, Structural, Debug, Clone, Copy)]
pub enum TabSize {
    Spaces(u32),
    Length(i64),
}

impl TabSize {
    pub open spec fn spec_interval(self, space_advance: i64) -> i64 {
        match self {
            TabSize::Spaces(n) => crate::units::clamp_i64(n * space_advance),
            TabSize::Length(l) => l,
        }
    }

    /// The spacing of the tab-stop grid for a font whose space advances
    /// `space_advance`.
    pub fn interval(self, space_advance: i64) -> (r: i64)
        ensures
            r == self.spec_interval(space_advance),
    {
        match self {
            TabSize::Spaces(n) => {
                let a = n as i128;
                let b = space_advance as i128;
                assert(-0x1_0000_0000_0000_0000_0000_0000 < a * b < 0x1_0000_0000_0000_0000_0000_0000) by (nonlinear_arith)
                    requires
                        0 <= a <= 0xffff_ffff,
                        -0x8000_0000_0000_0000 <= b <= 0x7fff_ffff_ffff_ffff,
                ;
                let p = a * b;
                if p > i64::MAX as i128 {
                    i64::MAX
                } else if p < i64::MIN as i128 {
                    i64::MIN
                } else {
                    p as i64
                }
            },
            TabSize::Length(l) => l,
        }
    }
}

impl Default for TabSize {
    fn default() -> (r: Self)
        ensures
            r == TabSize::Spaces(8),
    {
        TabSize::Spaces(8)
    }
}

/// The resolved style attributes that line breaking reads.
#[derive(PartialEq, Eq, Structural, Debug, Clone, Copy)]
pub struct Style {
    pub text_wrap_mode: TextWrapMode,
    pub overflow_wrap: OverflowWrap,
    pub soft_break_policy: SoftBreakPolicy,
    pub white_space_collapse: WhiteSpaceCollapse,
    pub tab_size: TabSize,
}


impl Default for TextWrapMode {
    fn default() -> (r: Self)
        ensures
            r == TextWrapMode::Wrap,
    {
        TextWrapMode::Wrap
    }
}

impl Default for OverflowWrap {
    fn default() -> (r: Self)
        ensures
            r == OverflowWrap::Normal,
    {
        OverflowWrap::Normal
    }
}

impl Default for WordBreak {
    fn default() -> (r: Self)
        ensures
            r == WordBreak::Normal,
    {
        WordBreak::Normal
    }
}

impl Default for WhiteSpaceCollapse {
    fn default() -> (r: Self)
        ensures
            r == WhiteSpaceCollapse::Collapse,
    {
        WhiteSpaceCollapse::Collapse
    }
}

impl Default for FontSynthesis {
    fn default() -> (r: Self)
        ensures
            r == FontSynthesis::Auto,
    {
        FontSynthesis::Auto
    }
}

impl Default for FontSynthesisStyle {
    fn default() -> (r: Self)
        ensures
            r == FontSynthesisStyle::Auto,
    {
        FontSynthesisStyle::Auto
    }
}

impl Default for FontStyleSynthesis {
    fn default() -> (r: Self)
        ensures
            r == FontStyleSynthesis::Allowed,
    {
        FontStyleSynthesis::Allowed
    }
}

impl Default for IndentStart {
    fn default() -> (r: Self)
        ensures
            r == IndentStart::ElementStart,
    {
        IndentStart::ElementStart
    }
}

impl Default for IndentOptions {
    fn default() -> (r: Self)
        ensures
            r == (IndentOptions { each_line: false, hanging: false }),
    {
        IndentOptions { each_line: false, hanging: false }
    }
}

} // verus!
