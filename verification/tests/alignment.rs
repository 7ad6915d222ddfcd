use parley::alignment::{Alignment, AlignmentOptions, JustificationMode};
use parley::analysis::{AuthoredBreakUnit, Boundary};
use parley::data::{
    BreakReason, ClusterData, ClusterInfo, LayoutData, LayoutItemKind, LineData, LineItemData,
    SelectedSourceClusterAdvance,
};

fn test_cluster(ch: char, advance: i64) -> ClusterData {
    ClusterData {
        info: ClusterInfo::new(Boundary::Word, ch, AuthoredBreakUnit::Other),
        flags: 0,
        style_index: 0,
        glyph_len: 0xFF,
        text_len: ch.len_utf8() as u8,
        glyph_offset: 1,
        text_offset: 0,
        advance,
        line_break_advance: advance,
    }
}

fn test_line(line_advance: i64, num_spaces: usize, break_reason: BreakReason) -> LineData {
    LineData {
        text_start: 0,
        text_end: 0,
        item_start: 0,
        item_end: 1,
        break_reason,
        num_spaces,
        selected_source_cluster_advance: SelectedSourceClusterAdvance::Natural,
        ends_at_discretionary_break: false,
        advance: line_advance,
        trailing_whitespace: 0,
        max_advance: line_advance,
        indent: 0,
        discretionary_advance: 0,
        offset: 0,
    }
}

fn test_layout(clusters: Vec<ClusterData>, line_advance: i64, num_spaces: usize) -> LayoutData {
    let mut layout = LayoutData::new();
    layout.width = line_advance;
    layout.line_items.push(LineItemData {
        kind: LayoutItemKind::TextRun,
        index: 0,
        bidi_level: 0,
        layout_item_index: None,
        advance: line_advance,
        is_whitespace: false,
        has_trailing_whitespace: false,
        text_start: 0,
        text_end: 0,
        cluster_start: 0,
        cluster_end: clusters.len(),
    });
    layout.clusters = clusters;
    layout.lines.push(test_line(line_advance, num_spaces, BreakReason::Regular));
    layout
}

fn options(justification_mode: JustificationMode) -> AlignmentOptions {
    AlignmentOptions { justification_mode, ..AlignmentOptions::default() }
}

#[test]
fn justify_none_does_not_expand_clusters() {
    let mut layout = test_layout(
        vec![test_cluster('a', 10), test_cluster(' ', 5), test_cluster('b', 15)],
        30,
        1,
    );

    layout.align(Some(50), Alignment::Justify, options(JustificationMode::NoExpansion));

    assert_eq!(layout.clusters[0].advance, 10);
    assert_eq!(layout.clusters[1].advance, 5);
    assert_eq!(layout.clusters[2].advance, 15);
    assert_eq!(layout.lines[0].offset, 0);
}

#[test]
fn inter_word_only_expands_spaces() {
    let mut layout = test_layout(
        vec![test_cluster('a', 10), test_cluster(' ', 5), test_cluster('b', 15)],
        30,
        1,
    );

    layout.align(Some(50), Alignment::Justify, options(JustificationMode::InterWord));

    assert_eq!(layout.clusters[0].advance, 10);
    assert_eq!(layout.clusters[1].advance, 25);
    assert_eq!(layout.clusters[2].advance, 15);
}

#[test]
fn inter_character_expands_non_whitespace_gaps() {
    let mut layout = test_layout(
        vec![test_cluster('漢', 10), test_cluster('字', 10), test_cluster('語', 10)],
        30,
        0,
    );

    layout.align(Some(50), Alignment::Justify, options(JustificationMode::InterCharacter));

    assert_eq!(layout.clusters[0].advance, 20);
    assert_eq!(layout.clusters[1].advance, 20);
    assert_eq!(layout.clusters[2].advance, 10);
}

#[test]
fn unjustify_restores_the_cluster_advances() {
    let mut layout = test_layout(
        vec![test_cluster('a', 10), test_cluster(' ', 5), test_cluster('b', 15)],
        30,
        1,
    );
    layout.align(Some(50), Alignment::Justify, options(JustificationMode::InterWord));
    assert_eq!(layout.clusters[1].advance, 25);
    assert!(layout.is_aligned_justified);
    layout.unjustify();
    assert!(!layout.is_aligned_justified);
    assert_eq!(layout.clusters[1].advance, 5);
}

#[test]
fn last_line_is_not_justified() {
    let mut layout = test_layout(
        vec![test_cluster('a', 10), test_cluster(' ', 5), test_cluster('b', 15)],
        30,
        1,
    );
    layout.lines[0].break_reason = BreakReason::Unbroken;
    layout.align(Some(50), Alignment::Justify, options(JustificationMode::InterWord));
    assert_eq!(layout.clusters[1].advance, 5);
    assert_eq!(layout.lines[0].offset, 0);
}

#[test]
fn end_center_and_right_alignment_offset_the_line() {
    let clusters = vec![test_cluster('a', 10), test_cluster(' ', 5), test_cluster('b', 15)];
    let mut layout = test_layout(clusters.clone(), 30, 1);
    layout.align(Some(50), Alignment::End, AlignmentOptions::default());
    assert_eq!(layout.lines[0].offset, 20);
    layout.align(Some(50), Alignment::Center, AlignmentOptions::default());
    assert_eq!(layout.lines[0].offset, 10);
    layout.align(Some(50), Alignment::Right, AlignmentOptions::default());
    assert_eq!(layout.lines[0].offset, 20);
    layout.align(Some(50), Alignment::Start, AlignmentOptions::default());
    assert_eq!(layout.lines[0].offset, 0);
}

#[test]
fn overflowing_lines_stay_at_the_start() {
    let mut layout = test_layout(vec![test_cluster('a', 60)], 60, 0);
    layout.align(Some(50), Alignment::End, AlignmentOptions::default());
    assert_eq!(layout.lines[0].offset, 0);
    layout.align(
        Some(50),
        Alignment::End,
        AlignmentOptions { align_when_overflowing: true, ..AlignmentOptions::default() },
    );
    assert_eq!(layout.lines[0].offset, -10);
}

#[test]
fn per_line_widths_apply_to_their_lines() {
    let mut layout = test_layout(vec![test_cluster('a', 10)], 10, 0);
    layout.align_per_line(&vec![40], Alignment::Right, AlignmentOptions::default());
    assert_eq!(layout.lines[0].offset, 30);
    assert_eq!(layout.alignment_width, 40);
}

#[test]
fn a_line_with_a_preserved_tab_is_not_justified() {
    let clusters = vec![
        test_cluster('a', 10),
        test_cluster(' ', 5),
        test_cluster('b', 10),
        test_cluster('\t', 20),
        test_cluster('c', 10),
    ];
    let mut layout = test_layout(clusters.clone(), 55, 1);
    layout.align(Some(80), Alignment::Justify, options(JustificationMode::InterWord));
    let advances: Vec<i64> = layout.clusters.iter().map(|c| c.advance).collect();
    let plain: Vec<i64> = clusters.iter().map(|c| c.advance).collect();
    assert_eq!(advances, plain);
}

fn paragraph_line(text_start: usize, item: usize, advance: i64, break_reason: BreakReason) -> LineData {
    LineData {
        text_start,
        text_end: text_start + 3,
        item_start: item,
        item_end: item + 1,
        ..test_line(advance, 0, break_reason)
    }
}

fn paragraph_item(index: usize, bidi_level: u8, text_start: usize, cluster_start: usize) -> LineItemData {
    LineItemData {
        kind: LayoutItemKind::TextRun,
        index,
        bidi_level,
        layout_item_index: None,
        advance: 30,
        is_whitespace: false,
        has_trailing_whitespace: false,
        text_start,
        text_end: text_start + 3,
        cluster_start,
        cluster_end: cluster_start + 3,
    }
}

/// "ABC\n" in a left-to-right paragraph, then "DEF" in a right-to-left one.
fn two_paragraph_layout() -> LayoutData {
    let mut layout = LayoutData::new();
    layout.clusters = "ABCDEF".chars().map(|c| test_cluster(c, 10)).collect();
    layout.paragraph_levels = vec![(4, 1)];
    layout.line_items = vec![paragraph_item(0, 0, 0, 0), paragraph_item(1, 1, 4, 3)];
    layout.lines = vec![
        paragraph_line(0, 0, 30, BreakReason::Explicit),
        paragraph_line(4, 1, 30, BreakReason::Unbroken),
    ];
    layout.width = 30;
    layout
}

#[test]
fn alignment_uses_each_lines_paragraph_direction() {
    let width = 300;
    let free = width - 30;
    for (alignment, expected) in [
        (Alignment::Start, [0, free]),
        (Alignment::End, [free, 0]),
        (Alignment::Left, [0, 0]),
        (Alignment::Right, [free, free]),
        (Alignment::Center, [free / 2, free / 2]),
        (Alignment::Justify, [0, free]),
    ] {
        let mut layout = two_paragraph_layout();
        layout.align(Some(width), alignment, AlignmentOptions::default());
        assert_eq!(layout.lines[0].offset, expected[0], "{alignment:?}");
        assert_eq!(layout.lines[1].offset, expected[1], "{alignment:?}");
    }
    // With no paragraph after the first, every line takes the base level.
    let mut layout = two_paragraph_layout();
    layout.paragraph_levels.clear();
    layout.base_level = 1;
    layout.align(Some(width), Alignment::Start, AlignmentOptions::default());
    assert_eq!(layout.lines[0].offset, free);
    assert_eq!(layout.lines[1].offset, free);
}

#[test]
fn paragraph_level_is_that_of_the_last_paragraph_started() {
    let mut layout = LayoutData::new();
    layout.base_level = 0;
    layout.paragraph_levels = vec![(4, 1), (9, 2)];
    assert_eq!(layout.paragraph_level(0), 0);
    assert_eq!(layout.paragraph_level(3), 0);
    assert_eq!(layout.paragraph_level(4), 1);
    assert_eq!(layout.paragraph_level(8), 1);
    assert_eq!(layout.paragraph_level(9), 2);
    assert_eq!(layout.paragraph_level(100), 2);
}
