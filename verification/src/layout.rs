use vstd::prelude::*;

use crate::data::{BreakReason, LayoutData, LineBreakOverride, NormalSoftWrapSelection, overrides_sorted};
use crate::alignment::{aligned_from, aligned_lines_wf, unjustified_from, Alignment, AlignmentOptions};
use crate::content_widths::{content_widths, ContentWidths};
use crate::line_break::{BreakLines, effective_max_advance, same_shape, widest_line};

verus! {

/// A paragraph layout: the shaped item stream and its committed lines.
#[derive(Clone, Debug, PartialEq, Eq)]
pub struct Layout {
    pub data: LayoutData,
}

impl Layout {
    /// The number of lines in the layout.
    pub fn len(&self) -> (r: usize)
        ensures
            r == self.data.lines@.len(),
    {
        self.data.lines.len()
    }

    /// Whether the layout has no lines.
    pub fn is_empty(&self) -> (r: bool)
        ensures
            r == (self.data.lines@.len() == 0),
    {
        self.data.lines.len() == 0
    }

    /// Replaces the caller-supplied line-break decisions, given in strictly
    /// increasing byte order.
    pub fn set_line_break_overrides(&mut self, overrides: Vec<LineBreakOverride>)
        requires
            overrides_sorted(overrides@),
        ensures
            *final(self) == (Layout { data: LayoutData { line_break_overrides: overrides, ..old(self).data } }),
            old(self).data.break_wf() ==> final(self).data.break_wf(),
    {
        self.data.line_break_overrides = overrides;
        proof {
            if old(self).data.break_wf() {
                assert forall|i: int| 0 <= i < self.data.items@.len() implies self.data.item_wf(
                    #[trigger] self.data.items@[i],
                ) by {
                    assert(old(self).data.item_wf(old(self).data.items@[i]));
                }
            }
        }
    }

    /// Selects how normal soft-wrap opportunities compete.
    pub fn set_normal_soft_wrap_selection(&mut self, selection: NormalSoftWrapSelection)
        ensures
            *final(self) == (Layout {
                data: LayoutData { normal_soft_wrap_selection: selection, ..old(self).data },
            }),
            old(self).data.break_wf() ==> final(self).data.break_wf(),
    {
        self.data.normal_soft_wrap_selection = selection;
        proof {
            if old(self).data.break_wf() {
                assert forall|i: int| 0 <= i < self.data.items@.len() implies self.data.item_wf(
                    #[trigger] self.data.items@[i],
                ) by {
                    assert(old(self).data.item_wf(old(self).data.items@[i]));
                }
            }
        }
    }

    /// Enables reclaiming a line's trailing spaces when that lets a following
    /// inline box fit.
    pub fn set_reclaim_space_before_inline_box(&mut self, reclaim: bool)
        ensures
            *final(self) == (Layout {
                data: LayoutData { reclaim_space_before_inline_box: reclaim, ..old(self).data },
            }),
            old(self).data.break_wf() ==> final(self).data.break_wf(),
    {
        self.data.reclaim_space_before_inline_box = reclaim;
        proof {
            if old(self).data.break_wf() {
                assert forall|i: int| 0 <= i < self.data.items@.len() implies self.data.item_wf(
                    #[trigger] self.data.items@[i],
                ) by {
                    assert(old(self).data.item_wf(old(self).data.items@[i]));
                }
            }
        }
    }

    /// Breaks the whole paragraph into lines with measure `max_advance`,
    /// unbounded when absent; earlier lines are discarded. At least one line
    /// results, and only the last is not ended by a break. Each line is
    /// broken against the measure less its indent; without a measure, a line
    /// that is not indented ends only at a newline or at the end. The width
    /// and full width are those of the widest line, without and with its
    /// hanging whitespace.
    pub fn break_all_lines(&mut self, max_advance: Option<i64>)
        requires
            old(self).data.break_wf(),
        ensures
            final(self).data.break_wf(),
            aligned_lines_wf(final(self).data),
            final(self).data.lines@.len() >= 1,
            final(self).data.lines@.last().break_reason == BreakReason::Unbroken,
            forall|j: int| 0 <= j < final(self).data.lines@.len() - 1
                ==> (#[trigger] final(self).data.lines@[j]).break_reason != BreakReason::Unbroken,
            forall|j: int| 0 <= j < final(self).data.lines@.len() ==> (#[trigger] final(self).data.lines@[j]).max_advance
                == effective_max_advance(
                old(self).data,
                match max_advance {
                    Some(m) => m,
                    None => i64::MAX,
                },
                final(self).data.lines@[j].indent,
            ),
            max_advance is None ==> forall|j: int| 0 <= j < final(self).data.lines@.len()
                && (#[trigger] final(self).data.lines@[j]).indent <= 0 ==> final(self).data.lines@[j].break_reason
                == BreakReason::Explicit || final(self).data.lines@[j].break_reason == BreakReason::Unbroken,
            final(self).data.width == widest_line(final(self).data.lines@, false),
            final(self).data.full_width == widest_line(final(self).data.lines@, true),
            same_shape(
                old(self).data,
                LayoutData {
                    lines: old(self).data.lines,
                    line_items: old(self).data.line_items,
                    width: old(self).data.width,
                    full_width: old(self).data.full_width,
                    ..final(self).data
                },
            ),
    {
        let mut data = LayoutData::new();
        core::mem::swap(&mut data, &mut self.data);
        let measure = match max_advance {
            Some(m) => m,
            None => i64::MAX,
        };
        let breaker = BreakLines::new(Layout { data });
        let layout = breaker.break_remaining(measure);
        self.data = layout.data;
    }
}


impl Layout {
    /// The min-content and max-content widths of the paragraph.
    pub fn calculate_content_widths(&self) -> (r: ContentWidths)
        requires
            self.data.wf(),
        ensures
            r == content_widths(self.data),
    {
        self.data.calculate_content_widths()
    }

    /// Aligns the lines within `alignment_width`, or the layout's width when
    /// absent, after taking back any justification from a previous
    /// alignment.
    pub fn align(&mut self, alignment_width: Option<i64>, alignment: Alignment, options: AlignmentOptions)
        requires
            aligned_lines_wf(old(self).data),
        ensures
            aligned_lines_wf(final(self).data),
            exists|taken_back: LayoutData|
                unjustified_from(old(self).data, taken_back) && #[trigger] aligned_from(
                    taken_back,
                    final(self).data,
                    alignment_width,
                    alignment,
                    options,
                ),
    {
        self.data.unjustify();
        let ghost taken_back = self.data;
        self.data.align(alignment_width, alignment, options);
        assert(aligned_from(taken_back, self.data, alignment_width, alignment, options));
    }
}

} // verus!
