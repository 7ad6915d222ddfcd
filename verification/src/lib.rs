//! Verified core of a rich-text line-layout engine: bidi visual reordering,
//! soft-wrap boundary resolution, inline-box participation and the decision
//! logic of greedy line breaking and alignment.

pub mod alignment;
pub mod bidi;
pub mod content_widths;
pub mod inline_box;
pub mod inline_fragmentation;
pub mod justification;
pub mod layout;
pub mod line_break;
pub mod shaping;
pub mod analysis;
pub mod data;
pub mod style;
pub mod unicode;
pub mod units;
