use std::ops::Range;

use parley::analysis::{AuthoredBreakUnit, Boundary};
use parley::data::{
    BreakReason, ClusterData, ClusterInfo, DiscretionaryBreak, LayoutData, LayoutItemKind, LineBreakOverride, NormalSoftWrapSelection,
    RunData,
};
use parley::inline_box::{FollowingSourceSpace, InlineBox, InlineBoxBreakAffinity, InlineBoxShapingParticipation};
use parley::layout::Layout;
use parley::line_break::BreakLines;
use parley::style::{
    IndentOptions, IndentStart, OverflowWrap, SoftBreakPolicy, Style, TabSize, TextWrapMode, WhiteSpaceCollapse,
    WordBreak,
};

/// Advance of `X` and other letters in the fixture font.
const CHARACTER_WIDTH: i64 = 100;
/// Advance of U+0020 in the fixture font.
const SPACE_WIDTH: i64 = 40;
/// Advance of hyphens in the fixture font.
const HYPHEN_WIDTH: i64 = 55;

#[derive(Clone, Copy)]
enum Edge {
    Start,
    End,
    UnicodeOwnedEnd,
}

fn advance_of(c: char) -> i64 {
    match c {
        ' ' => SPACE_WIDTH,
        '-' | '\u{2010}' => HYPHEN_WIDTH,
        '\u{00AD}' | '\u{200B}' => 0,
        _ => CHARACTER_WIDTH,
    }
}

/// Unicode line-break opportunities of plain Latin text: after spaces,
/// after hyphens and soft hyphens, after solidi and after zero-width spaces.
fn boundary_before(previous: Option<char>, c: char) -> Boundary {
    match previous {
        Some(' ') if c != ' ' => Boundary::Line,
        Some('-') | Some('\u{2010}') | Some('\u{00AD}') | Some('\u{200B}') | Some('/') if c != ' ' => Boundary::Line,
        _ => Boundary::NoBoundary,
    }
}

fn style(text_wrap_mode: TextWrapMode) -> Style {
    Style {
        text_wrap_mode,
        overflow_wrap: OverflowWrap::Normal,
        soft_break_policy: SoftBreakPolicy::Unicode(WordBreak::Normal),
        white_space_collapse: WhiteSpaceCollapse::Collapse,
        tab_size: TabSize::Spaces(8),
    }
}

fn edge_box(id: u64, edge: Edge, index: usize, width_in_characters: f32) -> InlineBox {
    let width = (CHARACTER_WIDTH as f32 * width_in_characters) as i64;
    match edge {
        Edge::Start => InlineBox::inline_start_edge(id, index, width, 0, InlineBoxBreakAffinity::ToNext),
        Edge::End => InlineBox::inline_end_edge(id, index, width, 0, InlineBoxBreakAffinity::ToPrevious),
        Edge::UnicodeOwnedEnd => InlineBox::inline_end_edge_with_following_source_space(
            id,
            index,
            width,
            0,
            FollowingSourceSpace::UnicodeBoundary,
            InlineBoxBreakAffinity::ToPrevious,
        ),
    }
}

/// Shapes `text` with the fixture font: one cluster per character, the
/// wrap modes of `wraps` over the default wrapping style, and `boxes` at
/// their source positions. Boxes with inline advance end the shaping run;
/// transparent ones split the run's items only.
fn shaped_layout(
    text: &str,
    wraps: &[(Range<usize>, TextWrapMode)],
    boxes: Vec<InlineBox>,
    letter_spacing: i64,
) -> Layout {
    let mut data = LayoutData::new();
    data.text_len = text.len();
    data.styles = vec![style(TextWrapMode::Wrap), style(TextWrapMode::NoWrap)];
    let chars: Vec<(usize, char)> = text.char_indices().collect();
    let style_of = |byte: usize| -> u16 {
        let mut mode = TextWrapMode::Wrap;
        for (range, m) in wraps {
            if range.contains(&byte) {
                mode = *m;
            }
        }
        match mode {
            TextWrapMode::Wrap => 0,
            TextWrapMode::NoWrap => 1,
        }
    };
    let mut intervening: Vec<(usize, usize)> = boxes
        .iter()
        .enumerate()
        .filter(|(_, b)| b.shaping_participation() == InlineBoxShapingParticipation::InterveningInlineAdvance)
        .map(|(i, b)| (i, b.index()))
        .collect();
    intervening.retain(|(_, index)| *index <= text.len());
    let transparent: Vec<(usize, usize)> = boxes
        .iter()
        .enumerate()
        .filter(|(_, b)| b.shaping_participation() == InlineBoxShapingParticipation::TransparentBoundary)
        .map(|(i, b)| (i, b.index()))
        .collect();
    data.inline_boxes = boxes;

    let mut cuts: Vec<usize> = intervening.iter().map(|(_, index)| *index).collect();
    cuts.push(text.len());
    cuts.sort();
    cuts.dedup();
    let box_count = data.inline_boxes.len();
    let mut segment_start = 0;
    for cut in cuts.iter() {
        if segment_start < *cut {
            let cluster_start = data.clusters.len();
            let mut run_advance = 0;
            for (position, (byte, c)) in chars.iter().enumerate() {
                if *byte < segment_start || *byte >= *cut {
                    continue;
                }
                let previous = if position == 0 { None } else { Some(chars[position - 1].1) };
                let unit = if *c == '-' || *c == '\u{2010}' {
                    AuthoredBreakUnit::DashPunctuation
                } else {
                    AuthoredBreakUnit::Other
                };
                let advance = advance_of(*c);
                run_advance += advance;
                data.clusters.push(ClusterData {
                    info: ClusterInfo::new(boundary_before(previous, *c), *c, unit),
                    flags: 0,
                    style_index: style_of(*byte),
                    glyph_len: 0xFF,
                    text_len: c.len_utf8() as u8,
                    glyph_offset: 0,
                    text_offset: (*byte - segment_start) as u16,
                    advance,
                    line_break_advance: advance,
                });
            }
            let run = RunData {
                text_start: segment_start,
                text_end: *cut,
                bidi_level: 0,
                cluster_start,
                cluster_end: data.clusters.len(),
                glyph_start: 0,
                space_advance: SPACE_WIDTH,
                space_glyph_id: 3,
                word_spacing: 0,
                letter_spacing,
                advance: run_advance,
            };
            // Transparent boxes inside the run split its items; those at a
            // cut stand beside the intervening boxes there.
            let inside: Vec<(usize, u8, usize)> = transparent
                .iter()
                .filter(|(_, index)| *index >= segment_start && *index < *cut && !cuts.contains(index))
                .map(|(i, index)| (*i, 0u8, *index))
                .collect();
            data.push_shaped_run(run, &inside);
        }
        for i in 0..box_count {
            if data.inline_boxes[i].index() == *cut {
                data.push_inline_box(i, 0);
            }
        }
        segment_start = *cut;
    }
    data.finish();
    Layout { data }
}

fn resolved_source_boundary_layout(
    text: &str,
    wraps: &[(Range<usize>, TextWrapMode)],
    edges: &[(u64, Edge, usize, f32)],
    boundaries: &[usize],
    max_width_in_characters: f32,
) -> Layout {
    source_boundary_layout(
        text,
        wraps,
        edges,
        boundaries.iter().copied().map(LineBreakOverride::resolved_collapsed_source_opportunity).collect(),
        max_width_in_characters,
    )
}

fn source_boundary_layout(
    text: &str,
    wraps: &[(Range<usize>, TextWrapMode)],
    edges: &[(u64, Edge, usize, f32)],
    overrides: Vec<LineBreakOverride>,
    max_width_in_characters: f32,
) -> Layout {
    let boxes = edges.iter().map(|(id, edge, index, width)| edge_box(*id, *edge, *index, *width)).collect();
    let mut layout = shaped_layout(text, wraps, boxes, 0);
    layout.set_line_break_overrides(overrides);
    layout.break_all_lines(Some((CHARACTER_WIDTH as f32 * max_width_in_characters) as i64));
    layout
}

fn line_text_ranges(layout: &Layout) -> Vec<Range<usize>> {
    layout.data.lines.iter().map(|line| line.text_start..line.text_end).collect()
}

fn assert_consumer_owner_geometry_retains_following_space() {
    let layout = resolved_source_boundary_layout(
        "XX X XX",
        &[],
        &[(87, Edge::Start, 3, 2.5), (88, Edge::End, 4, 0.0)],
        &[],
        4.0,
    );
    assert_eq!(line_text_ranges(&layout), [0..3, 3..4, 4..7]);
    let line_advances = layout.data.lines.iter().map(|line| line.advance).collect::<Vec<_>>();
    assert_eq!(line_advances[2], line_advances[0]);
}

#[test]
fn consumer_border_owner_geometry_retains_the_following_collapsed_space() {
    assert_consumer_owner_geometry_retains_following_space();
}

#[test]
fn consumer_padding_owner_geometry_retains_the_following_collapsed_space() {
    assert_consumer_owner_geometry_retains_following_space();
}

fn assert_start_geometry_source_projection() {
    let layout = resolved_source_boundary_layout(
        "XX X XX",
        &[],
        &[(90, Edge::Start, 3, 2.5), (91, Edge::End, 4, 0.0)],
        &[3, 5],
        4.0,
    );
    assert_eq!(line_text_ranges(&layout), [0..3, 3..4, 4..7]);
}

#[test]
fn border_start_geometry_retains_the_atomic_source_topology() {
    assert_start_geometry_source_projection();
}

#[test]
fn padding_start_geometry_retains_the_atomic_source_topology() {
    assert_start_geometry_source_projection();
}

fn assert_end_geometry_source_projection() {
    let layout = resolved_source_boundary_layout("XX XX", &[], &[(92, Edge::End, 2, 2.5)], &[3], 4.0);
    assert_eq!(line_text_ranges(&layout), [0..2, 2..5]);
}

#[test]
fn margin_end_geometry_retains_the_following_source_boundary() {
    assert_end_geometry_source_projection();
}

#[test]
fn padding_end_geometry_retains_the_following_source_boundary() {
    assert_end_geometry_source_projection();
}

#[test]
fn repeated_collapsed_opportunities_survive_no_wrap_owner_pairs() {
    let layout = resolved_source_boundary_layout(
        "X X X X",
        &[(0..7, TextWrapMode::NoWrap)],
        &[
            (94, Edge::End, 2, 0.0),
            (95, Edge::Start, 2, 0.0),
            (96, Edge::End, 4, 0.0),
            (97, Edge::Start, 4, 0.0),
            (98, Edge::End, 6, 0.0),
            (99, Edge::Start, 6, 0.0),
        ],
        &[2, 4, 6],
        4.0,
    );
    assert_eq!(layout.len(), 2);
}

#[test]
fn mixed_white_space_styles_retain_resolved_source_boundaries() {
    let layout = resolved_source_boundary_layout(
        "X X X",
        &[(0..2, TextWrapMode::NoWrap), (2..4, TextWrapMode::NoWrap), (4..5, TextWrapMode::NoWrap)],
        &[
            (102, Edge::End, 2, 0.0),
            (103, Edge::Start, 2, 0.0),
            (104, Edge::End, 4, 0.0),
            (105, Edge::Start, 4, 0.0),
        ],
        &[2, 4],
        1.5,
    );
    assert_eq!(layout.len(), 3);
}

fn collapsed_no_wrap_owner_layout(boundaries: &[usize]) -> Layout {
    let text = "X X X X X X X X X X";
    let wraps = (0..10)
        .map(|index| {
            let start = index * 2;
            (start..(start + 2).min(text.len()), TextWrapMode::NoWrap)
        })
        .collect::<Vec<_>>();
    let edges = (0..10)
        .flat_map(|index| {
            let start = index * 2;
            let end = (start + 2).min(text.len());
            [(200 + index as u64 * 2, Edge::Start, start, 0.0), (201 + index as u64 * 2, Edge::End, end, 0.0)]
        })
        .collect::<Vec<_>>();
    resolved_source_boundary_layout(text, &wraps, &edges, boundaries, 10.0)
}

#[test]
fn consumer_resolved_parent_spaces_wrap_between_no_wrap_owners() {
    let layout = collapsed_no_wrap_owner_layout(&[2, 4, 6, 8, 10, 12, 14, 16, 18]);
    assert_eq!(layout.len(), 2);
}

#[test]
fn no_wrap_owned_spaces_without_a_source_handoff_remain_unbreakable() {
    let layout = collapsed_no_wrap_owner_layout(&[]);
    assert_eq!(layout.len(), 1);
}

fn first_line_with_overflowing_trailing_space(text: &str, selection: NormalSoftWrapSelection) -> String {
    let mut probe = shaped_layout(text, &[], Vec::new(), 0);
    probe.break_all_lines(None);
    let line = probe.data.lines[0];
    let word_advance = line.advance - line.trailing_whitespace;
    let max_advance = word_advance + line.trailing_whitespace / 2;

    let mut layout = shaped_layout(text, &[], Vec::new(), 0);
    layout.set_normal_soft_wrap_selection(selection);
    layout.break_all_lines(Some(max_advance));
    let first = layout.data.lines[0];
    String::from(&text[first.text_start..first.text_end])
}

fn first_line_with_overflowing_space_after_punctuation(punctuation: char) -> String {
    let text = format!("alpha{punctuation}beta ");
    first_line_with_overflowing_trailing_space(&text, NormalSoftWrapSelection::PriorityClasses)
}

#[test]
fn authored_hyphen_minus_wins_when_the_following_collapsible_space_overflows() {
    assert_eq!(
        first_line_with_overflowing_space_after_punctuation('-'),
        "alpha-",
        "authored U+002D punctuation must remain distinct from the overflowing word separator"
    );
}

#[test]
fn authored_unicode_hyphen_wins_when_the_following_collapsible_space_overflows() {
    assert_eq!(
        first_line_with_overflowing_space_after_punctuation('\u{2010}'),
        "alpha\u{2010}",
        "authored U+2010 punctuation must remain distinct from the overflowing word separator"
    );
}

#[test]
fn greedy_latest_keeps_a_complete_fitting_word_when_only_its_space_overflows() {
    let text = "alpha-beta ";
    assert_eq!(first_line_with_overflowing_trailing_space(text, NormalSoftWrapSelection::GreedyLatest), text);
}

fn unwrapped_advance(text: &str, letter_spacing: i64) -> i64 {
    let mut layout = shaped_layout(text, &[], Vec::new(), letter_spacing);
    layout.break_all_lines(None);
    layout.data.lines[0].advance
}

#[test]
fn default_ignorable_soft_hyphen_does_not_create_a_letter_spacing_interval() {
    // U+00AD is default-ignorable in unbroken flow: it must not widen the
    // word with tracking.
    let letter_spacing = 75;
    let plain = unwrapped_advance("ARIZONA", letter_spacing);
    let discretionary = unwrapped_advance("ARI\u{00AD}ZONA", letter_spacing);
    assert_eq!(discretionary, plain);
}

#[test]
fn letter_spacing_widens_every_visible_character() {
    assert_eq!(unwrapped_advance("ARIZONA", 75), 7 * (CHARACTER_WIDTH + 75));
    assert_eq!(unwrapped_advance("ARIZONA", 0), 7 * CHARACTER_WIDTH);
}

#[test]
fn every_line_but_the_last_is_ended_by_a_break() {
    let mut layout = shaped_layout("XX XX XX XX", &[], Vec::new(), 0);
    layout.break_all_lines(Some(2 * CHARACTER_WIDTH + SPACE_WIDTH));
    assert_eq!(line_text_ranges(&layout), [0..3, 3..6, 6..9, 9..11]);
    let reasons = layout.data.lines.iter().map(|line| line.break_reason).collect::<Vec<_>>();
    assert_eq!(
        reasons,
        [BreakReason::Regular, BreakReason::Regular, BreakReason::Regular, BreakReason::Unbroken]
    );
    // The hanging space is excluded from the widest line advance.
    assert_eq!(layout.data.width, 2 * CHARACTER_WIDTH);
    assert_eq!(layout.data.full_width, 2 * CHARACTER_WIDTH + SPACE_WIDTH);
    assert_eq!(layout.data.lines[0].trailing_whitespace, SPACE_WIDTH);
}

#[test]
fn unbounded_measure_keeps_one_line() {
    let mut layout = shaped_layout("XX XX XX XX", &[], Vec::new(), 0);
    layout.break_all_lines(None);
    assert_eq!(layout.len(), 1);
    assert_eq!(layout.data.lines[0].advance, 8 * CHARACTER_WIDTH + 3 * SPACE_WIDTH);
}

#[test]
fn newline_ends_the_line_explicitly() {
    let mut layout = shaped_layout("XX\nXX", &[], Vec::new(), 0);
    layout.break_all_lines(None);
    let reasons = layout.data.lines.iter().map(|line| line.break_reason).collect::<Vec<_>>();
    assert_eq!(reasons, [BreakReason::Explicit, BreakReason::Unbroken]);
    assert_eq!(line_text_ranges(&layout), [0..3, 3..5]);
}

#[test]
fn unbreakable_word_overflows_its_line() {
    let mut layout = shaped_layout("XXXXX", &[], Vec::new(), 0);
    layout.break_all_lines(Some(2 * CHARACTER_WIDTH));
    assert_eq!(layout.len(), 1);
    assert_eq!(layout.data.lines[0].advance, 5 * CHARACTER_WIDTH);
}

#[test]
fn suppressing_override_removes_an_opportunity() {
    let mut layout = shaped_layout("XX XX", &[], Vec::new(), 0);
    layout.set_line_break_overrides(vec![LineBreakOverride::suppress(3)]);
    layout.break_all_lines(Some(3 * CHARACTER_WIDTH));
    assert_eq!(layout.len(), 1);
}

#[test]
fn override_opportunity_breaks_inside_a_word() {
    let mut layout = shaped_layout("XXXX", &[], Vec::new(), 0);
    layout.set_line_break_overrides(vec![LineBreakOverride::opportunity(2)]);
    layout.break_all_lines(Some(3 * CHARACTER_WIDTH));
    assert_eq!(line_text_ranges(&layout), [0..2, 2..4]);
}

#[test]
fn no_wrap_text_keeps_its_spaces_unbroken() {
    let mut layout = shaped_layout("XX XX", &[(0..5, TextWrapMode::NoWrap)], Vec::new(), 0);
    layout.break_all_lines(Some(2 * CHARACTER_WIDTH));
    assert_eq!(layout.len(), 1);
}

#[test]
fn decorated_owner_end_leaves_the_following_space_to_unicode() {
    let layout = source_boundary_layout("XX XX", &[], &[(121, Edge::UnicodeOwnedEnd, 2, 2.5)], Vec::new(), 4.0);
    assert_eq!(line_text_ranges(&layout), [0..3, 3..5]);
}

#[test]
fn zero_width_owner_start_keeps_the_latest_fitting_unicode_boundary() {
    let layout = source_boundary_layout("XX XX XX", &[], &[(122, Edge::Start, 3, 0.0)], Vec::new(), 4.5);
    assert_eq!(line_text_ranges(&layout), [0..6, 6..8]);
}

#[test]
fn atomic_box_that_does_not_fit_starts_the_next_line() {
    let boxes = vec![InlineBox::new(7, 3, 3 * CHARACTER_WIDTH, 10)];
    let mut layout = shaped_layout("XX XX", &[], boxes, 0);
    layout.break_all_lines(Some(4 * CHARACTER_WIDTH));
    // The box opens the second line; the word after it no longer fits there.
    assert_eq!(layout.len(), 3);
    assert_eq!(layout.data.lines[0].text_start..layout.data.lines[0].text_end, 0..3);
    assert_eq!(layout.data.lines[2].text_start..layout.data.lines[2].text_end, 3..5);
}

#[test]
fn reclaimed_space_keeps_the_box_on_the_line() {
    let build = || {
        let boxes = vec![InlineBox::new(7, 3, 2 * CHARACTER_WIDTH, 10)];
        shaped_layout("XX XX", &[], boxes, 0)
    };
    let measure = 4 * CHARACTER_WIDTH + SPACE_WIDTH / 2;
    let mut wrapping = build();
    wrapping.break_all_lines(Some(measure));
    assert_eq!(wrapping.len(), 2);
    let mut reclaiming = build();
    reclaiming.set_reclaim_space_before_inline_box(true);
    reclaiming.break_all_lines(Some(measure));
    assert_eq!(reclaiming.len(), 2);
    assert_eq!(reclaiming.data.lines[0].advance, 4 * CHARACTER_WIDTH);
}

#[test]
fn revert_restores_the_state_before_the_last_line() {
    let layout = shaped_layout("XX XX XX", &[], Vec::new(), 0);
    let mut breaker = BreakLines::new(layout);
    let measure = 2 * CHARACTER_WIDTH + SPACE_WIDTH;
    assert_eq!(breaker.break_next(measure), Some(2 * CHARACTER_WIDTH + SPACE_WIDTH));
    assert!(breaker.revert());
    assert!(!breaker.revert());
    assert_eq!(breaker.break_next(measure), Some(2 * CHARACTER_WIDTH + SPACE_WIDTH));
    assert_eq!(breaker.break_next(measure), Some(2 * CHARACTER_WIDTH + SPACE_WIDTH));
    assert_eq!(breaker.break_next(measure), Some(2 * CHARACTER_WIDTH));
    assert!(breaker.is_done());
    assert_eq!(breaker.break_next(measure), None);
    let layout = breaker.finish();
    assert_eq!(line_text_ranges(&layout), [0..3, 3..6, 6..8]);
}

#[test]
fn break_by_length_counts_clusters() {
    let layout = shaped_layout("XXXXXXX", &[], Vec::new(), 0);
    let mut breaker = BreakLines::new(layout);
    assert_eq!(breaker.break_next_with_length(3), Some(()));
    assert_eq!(breaker.break_next_with_length(3), Some(()));
    assert_eq!(breaker.break_next_with_length(3), Some(()));
    assert!(breaker.is_done());
    assert_eq!(breaker.break_next_with_length(3), None);
    let layout = breaker.finish();
    assert_eq!(line_text_ranges(&layout), [0..3, 3..6, 6..7]);
    let reasons = layout.data.lines.iter().map(|line| line.break_reason).collect::<Vec<_>>();
    assert_eq!(reasons, [BreakReason::Regular, BreakReason::Regular, BreakReason::Unbroken]);
}

#[test]
fn conditional_terminal_length_breaker_preserves_a_final_newline() {
    for max_chars in [4, 100] {
        let layout = shaped_layout("XX \n", &[], Vec::new(), 0);
        let mut breaker = BreakLines::new(layout);
        assert_eq!(breaker.break_next_with_length(max_chars), Some(()));
        assert_eq!(breaker.break_next_with_length(max_chars), Some(()));
        assert!(breaker.is_done());
        let layout = breaker.finish();
        let reasons = layout.data.lines.iter().map(|line| line.break_reason).collect::<Vec<_>>();
        assert_eq!(reasons, [BreakReason::Explicit, BreakReason::Unbroken]);
        assert_eq!(layout.data.lines[0].advance, 2 * CHARACTER_WIDTH + SPACE_WIDTH);
    }
}

#[test]
fn the_only_opportunity_is_taken_when_its_hyphen_overflows() {
    let text = "im\u{00AD}plementation";
    let mut layout = shaped_layout(text, &[], Vec::new(), 0);
    layout.data.discretionary_breaks = vec![DiscretionaryBreak {
        byte_index: "im\u{00AD}".len(),
        advance: HYPHEN_WIDTH,
        max_consecutive_lines: None,
    }];
    layout.break_all_lines(Some(2 * CHARACTER_WIDTH + HYPHEN_WIDTH / 2));
    assert_eq!(layout.data.lines.len(), 2);
    assert!(layout.data.lines[0].ends_at_discretionary_break);
    assert_eq!(line_text_ranges(&layout)[0], 0.."im\u{00AD}".len());
}

#[test]
fn an_earlier_fitting_opportunity_beats_an_overflowing_hyphen() {
    let text = "a im\u{00AD}plementation";
    let mut layout = shaped_layout(text, &[], Vec::new(), 0);
    layout.data.discretionary_breaks = vec![DiscretionaryBreak {
        byte_index: "a im\u{00AD}".len(),
        advance: HYPHEN_WIDTH,
        max_consecutive_lines: None,
    }];
    layout.break_all_lines(Some(3 * CHARACTER_WIDTH + SPACE_WIDTH + HYPHEN_WIDTH / 2));
    assert!(!layout.data.lines[0].ends_at_discretionary_break);
    assert_eq!(line_text_ranges(&layout)[0], 0.."a ".len());
}

#[test]
fn indent_shortens_the_measure_of_the_first_line() {
    let mut layout = shaped_layout("XX XX", &[], Vec::new(), 0);
    layout.data.indent_amount = 2 * CHARACTER_WIDTH;
    layout.data.indent_options = IndentOptions { each_line: false, hanging: false };
    layout.data.indent_start = IndentStart::ElementStart;
    layout.break_all_lines(Some(4 * CHARACTER_WIDTH + SPACE_WIDTH));
    assert_eq!(line_text_ranges(&layout), [0..3, 3..5]);
    assert_eq!(layout.data.lines[0].indent, 2 * CHARACTER_WIDTH);
    assert_eq!(layout.data.lines[1].indent, 0);
    assert_eq!(layout.data.lines[0].max_advance, 2 * CHARACTER_WIDTH + SPACE_WIDTH);
}

#[test]
fn tab_advances_to_the_next_stop() {
    let mut layout = shaped_layout("X\tX", &[], Vec::new(), 0);
    layout.break_all_lines(None);
    // Tab stops every eight spaces: 320 units.
    assert_eq!(layout.data.lines[0].advance, 8 * SPACE_WIDTH + CHARACTER_WIDTH);
}

#[test]
fn empty_layout_has_one_empty_line() {
    let mut layout = shaped_layout("", &[], Vec::new(), 0);
    layout.break_all_lines(Some(0));
    assert_eq!(layout.len(), 1);
    assert_eq!(layout.data.lines[0].max_advance, i64::MAX);
}


#[test]
fn content_widths_measure_words_and_the_whole_line() {
    let layout = shaped_layout("XX XX", &[], Vec::new(), 0);
    let widths = layout.calculate_content_widths();
    assert_eq!(widths.min, 2 * CHARACTER_WIDTH);
    assert_eq!(widths.max, 4 * CHARACTER_WIDTH + SPACE_WIDTH);
}

#[test]
fn no_wrap_content_width_is_the_whole_line() {
    let layout = shaped_layout("XX XX", &[(0..5, TextWrapMode::NoWrap)], Vec::new(), 0);
    let widths = layout.calculate_content_widths();
    assert_eq!(widths.min, 4 * CHARACTER_WIDTH + SPACE_WIDTH);
}

#[test]
fn atomic_box_separates_min_content_segments() {
    let boxes = vec![InlineBox::new(7, 2, 3 * CHARACTER_WIDTH, 10)];
    let layout = shaped_layout("XXXX", &[], boxes, 0);
    let widths = layout.calculate_content_widths();
    assert_eq!(widths.min, 3 * CHARACTER_WIDTH);
    assert_eq!(widths.max, 7 * CHARACTER_WIDTH);
}

fn inline_box_line(layout: &Layout, id: u64) -> usize {
    layout
        .data
        .lines
        .iter()
        .enumerate()
        .find_map(|(line_index, line)| {
            layout.data.line_items[line.item_start..line.item_end].iter().find_map(|item| {
                if item.kind == LayoutItemKind::InlineBox && layout.data.inline_boxes[item.index].id() == id {
                    Some(line_index)
                } else {
                    None
                }
            })
        })
        .expect("the logical edge must remain positioned")
}

/// `text` with `edge_depth` zero-width end edges and then as many start
/// edges at `edge_index`, with the text-only min and max content widths.
fn logical_inline_edge_fixture(
    text: &str,
    edge_index: usize,
    edge_depth: usize,
    text_wrap_mode: TextWrapMode,
) -> (Layout, i64, i64) {
    let wraps = [(0..text.len(), text_wrap_mode)];
    let text_only = shaped_layout(text, &wraps, Vec::new(), 0).calculate_content_widths();
    let mut boxes = Vec::new();
    for depth in 0..edge_depth {
        boxes.push(InlineBox::inline_end_edge(depth as u64, edge_index, 0, 0, InlineBoxBreakAffinity::ToPrevious));
    }
    for depth in 0..edge_depth {
        boxes.push(InlineBox::inline_start_edge(
            (edge_depth + depth) as u64,
            edge_index,
            0,
            0,
            InlineBoxBreakAffinity::ToNext,
        ));
    }
    (shaped_layout(text, &wraps, boxes, 0), text_only.min, text_only.max)
}

fn scaled(width: i64, factor: f32) -> i64 {
    (width as f32 * factor) as i64
}

#[test]
fn logical_inline_edge_pair_does_not_split_an_unbreakable_word() {
    let (mut layout, unbroken_min, unbroken_max) =
        logical_inline_edge_fixture("XXXXXXXXXX", 5, 1, TextWrapMode::Wrap);
    let widths = layout.calculate_content_widths();
    layout.break_all_lines(Some(scaled(unbroken_max, 0.55)));

    assert_eq!(layout.len(), 1);
    assert_eq!(widths.min, unbroken_min);
}

#[test]
fn logical_inline_edges_cannot_retain_a_no_wrap_break_snapshot() {
    let (mut layout, _, unbroken_max) = logical_inline_edge_fixture("XXXXXXXXXX", 5, 1, TextWrapMode::NoWrap);
    layout.break_all_lines(Some(scaled(unbroken_max, 0.55)));

    assert_eq!(layout.len(), 1);
}

#[test]
fn source_space_across_logical_inline_edges_remains_a_wrap_opportunity() {
    let (mut layout, _, unbroken_max) = logical_inline_edge_fixture("XXXXX XXXXX", 6, 2, TextWrapMode::Wrap);
    layout.break_all_lines(Some(scaled(unbroken_max, 0.55)));

    assert_eq!(layout.len(), 2);
    assert_eq!(inline_box_line(&layout, 0), 0);
    assert_eq!(inline_box_line(&layout, 1), 0);
    assert_eq!(inline_box_line(&layout, 2), 1);
    assert_eq!(inline_box_line(&layout, 3), 1);
}

/// Width in layout units of a 2pt edge beside 10px text.
const EDGE_GEOMETRY: i64 = 30;

fn owner_transition_layout(
    text: &str,
    edge_index: usize,
    preceding_wrap_mode: TextWrapMode,
    following_wrap_mode: TextWrapMode,
    edge_width: i64,
) -> (Layout, i64) {
    let wraps = [(0..text.len(), following_wrap_mode), (0..edge_index, preceding_wrap_mode)];
    let boxes = vec![
        InlineBox::inline_end_edge(80, edge_index, 0, 0, InlineBoxBreakAffinity::ToPrevious),
        InlineBox::inline_start_edge(81, edge_index, edge_width, 0, InlineBoxBreakAffinity::ToNext),
    ];
    let layout = shaped_layout(text, &wraps, boxes, 0);
    let max_width = layout.calculate_content_widths().max;
    (layout, max_width)
}

#[test]
fn unicode_opportunity_survives_a_no_wrap_owner_boundary() {
    let (mut layout, max_width) = owner_transition_layout("X X", 2, TextWrapMode::NoWrap, TextWrapMode::Wrap, 0);
    layout.break_all_lines(Some(scaled(max_width, 0.55)));

    assert_eq!(layout.len(), 2);
    assert_eq!(inline_box_line(&layout, 80), 0);
    assert_eq!(inline_box_line(&layout, 81), 1);
}

#[test]
fn unicode_opportunity_survives_a_wrapping_to_no_wrap_boundary() {
    let (mut layout, max_width) = owner_transition_layout("X X", 2, TextWrapMode::Wrap, TextWrapMode::NoWrap, 0);
    layout.break_all_lines(Some(scaled(max_width, 0.55)));

    assert_eq!(layout.len(), 2);
}

#[test]
fn no_wrap_content_with_owner_edges_remains_unbreakable() {
    let (mut layout, max_width) = owner_transition_layout("X X", 2, TextWrapMode::NoWrap, TextWrapMode::NoWrap, 0);
    layout.break_all_lines(Some(scaled(max_width, 0.55)));

    assert_eq!(layout.len(), 1);
}

#[test]
fn logical_edge_geometry_takes_only_a_source_opportunity() {
    let (mut breakable, breakable_width) =
        owner_transition_layout("X X", 2, TextWrapMode::Wrap, TextWrapMode::Wrap, EDGE_GEOMETRY);
    breakable.break_all_lines(Some(scaled(breakable_width, 0.55)));
    assert_eq!(breakable.len(), 2);

    let (mut unbreakable, unbreakable_width) =
        owner_transition_layout("XX", 1, TextWrapMode::Wrap, TextWrapMode::Wrap, EDGE_GEOMETRY);
    unbreakable.break_all_lines(Some(scaled(unbreakable_width, 0.55)));
    assert_eq!(unbreakable.len(), 1);
}

#[test]
fn collapsed_space_opportunity_survives_a_no_wrap_owner_end() {
    let layout =
        resolved_source_boundary_layout("AA BB", &[(0..5, TextWrapMode::NoWrap)], &[(93, Edge::End, 3, 0.0)], &[3], 2.5);
    assert_eq!(line_text_ranges(&layout), [0..3, 3..5]);
}

#[test]
fn first_line_style_topology_retains_an_end_source_boundary() {
    let layout = resolved_source_boundary_layout(
        "XX XX",
        &[(0..3, TextWrapMode::Wrap), (3..5, TextWrapMode::NoWrap)],
        &[(100, Edge::End, 2, 1.5), (101, Edge::Start, 3, 0.0)],
        &[3],
        3.0,
    );
    assert_eq!(line_text_ranges(&layout), [0..2, 2..5]);
}

#[test]
fn overflowing_nonwrapping_space_after_wrapping_text_remains_glue() {
    let layout = source_boundary_layout(
        "XX XX",
        &[(0..2, TextWrapMode::Wrap), (2..3, TextWrapMode::NoWrap), (3..5, TextWrapMode::Wrap)],
        &[],
        Vec::new(),
        2.0,
    );
    assert_eq!(layout.len(), 1);
}

#[test]
fn pre_wrap_space_hangs_through_a_default_ignorable_boundary() {
    let mut layout = shaped_layout("X \u{200b}", &[], Vec::new(), 0);
    for style in layout.data.styles.iter_mut() {
        style.white_space_collapse = WhiteSpaceCollapse::Preserve;
    }
    layout.break_all_lines(None);
    assert!(layout.data.lines[0].trailing_whitespace > 0);
    assert_eq!(layout.data.lines[0].trailing_whitespace, SPACE_WIDTH);
}

/// The number of lines that breaking `layout` against `max_advance` gives.
fn count_lines(layout: Layout, max_advance: i64) -> usize {
    let mut breaker = BreakLines::new(layout);
    let mut lines = 0;
    while breaker.break_next(max_advance).is_some() {
        lines += 1;
    }
    assert!(breaker.is_done());
    assert_eq!(breaker.finish().len(), lines);
    lines
}

#[test]
fn overflowing_no_break_space_does_not_create_a_normal_wrap_opportunity() {
    let layout = shaped_layout("A\u{00A0}B", &[], Vec::new(), 0);
    assert_eq!(count_lines(layout, 1), 1);
}

#[test]
fn overflowing_collapsible_space_retains_its_normal_wrap_capability() {
    let layout = shaped_layout("A B", &[], Vec::new(), 0);
    assert_eq!(count_lines(layout, 1), 2);
}

#[test]
fn unbounded_no_break_glue_remains_on_one_line() {
    let layout = shaped_layout("A\u{00A0}B", &[], Vec::new(), 0);
    assert_eq!(count_lines(layout, i64::MAX), 1);
}

#[test]
fn caller_overrides_replace_unicode_slash_opportunities() {
    let text = "aa/bb/cc";
    let mut layout = shaped_layout(text, &[], Vec::new(), 0);
    layout.set_line_break_overrides(vec![
        LineBreakOverride::opportunity(2),
        LineBreakOverride::suppress(3),
        LineBreakOverride::opportunity(5),
        LineBreakOverride::suppress(6),
    ]);
    layout.break_all_lines(Some(3 * CHARACTER_WIDTH));
    assert_eq!(line_text_ranges(&layout), [0..2, 2..5, 5..8]);
    let texts: Vec<&str> = line_text_ranges(&layout).into_iter().map(|r| &text[r]).collect();
    assert_eq!(texts, ["aa", "/bb", "/cc"]);
}

#[test]
fn unicode_slash_opportunities_apply_without_overrides() {
    let mut layout = shaped_layout("aa/bb/cc", &[], Vec::new(), 0);
    layout.break_all_lines(Some(3 * CHARACTER_WIDTH));
    assert_eq!(line_text_ranges(&layout), [0..3, 3..6, 6..8]);
}

#[test]
fn transparent_anchor_does_not_create_a_soft_wrap_opportunity() {
    let text = "XXXXXX";
    let max = 6 * CHARACTER_WIDTH;
    let anchored = shaped_layout(text, &[], vec![InlineBox::transparent_anchor(73, 3)], 0);
    let mut breaker = BreakLines::new(anchored);
    let mut lines = 0;
    while breaker.break_next(max - 1).is_some() {
        lines += 1;
    }
    let anchored = breaker.finish();
    assert_eq!(lines, 1);
    assert_eq!(anchored.len(), 1);
    let boxes = anchored.data.line_items.iter().filter(|item| item.kind == LayoutItemKind::InlineBox).count();
    assert_eq!(boxes, 1);

    let atomic = shaped_layout(text, &[], vec![InlineBox::new(74, 3, 0, 0)], 0);
    assert_eq!(count_lines(atomic, max - 1), 2);
}

#[test]
fn emergency_policy_supplies_a_distinct_break_for_no_break_glue() {
    let mut layout = shaped_layout("A\u{00A0}B", &[], Vec::new(), 0);
    for style in layout.data.styles.iter_mut() {
        style.overflow_wrap = OverflowWrap::Anywhere;
    }
    assert_eq!(count_lines(layout, 1), 3);
}
