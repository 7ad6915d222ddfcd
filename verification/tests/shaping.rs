use parley::bidi::BidiVisualAtomKind;
use parley::inline_box::InlineBox;
use parley::layout::Layout;
use parley::analysis::{AuthoredBreakUnit, Boundary};
use parley::data::{ClusterData, Glyph, LayoutData, LayoutItemKind, LIGATURE_COMPONENT, LIGATURE_START};
use parley::shaping::{
    process_clusters, try_process_clusters, CharInfo, Direction, ShapedGlyph,
};

fn glyph(glyph_id: u32, cluster: u32, advance: i64) -> ShapedGlyph {
    ShapedGlyph { glyph_id, cluster, x_offset: 0, y_offset: 0, advance, line_break_advance: advance }
}

fn info(boundary: Boundary, style: u16) -> (CharInfo, u16) {
    (CharInfo { boundary, authored_break_unit: AuthoredBreakUnit::Other }, style)
}

fn plain_infos(n: usize) -> Vec<(CharInfo, u16)> {
    (0..n).map(|_| info(Boundary::NoBoundary, 0)).collect()
}

fn chars_of(text: &str) -> Vec<(usize, char)> {
    text.char_indices().collect()
}

#[test]
fn ligature_advance_is_shared_among_its_characters() {
    // "afi" where "fi" forms one ligature glyph.
    let shaped = vec![glyph(10, 0, 500), glyph(20, 1, 900)];
    let mut clusters: Vec<ClusterData> = Vec::new();
    let mut glyphs: Vec<Glyph> = Vec::new();
    let advance = process_clusters(
        Direction::Ltr,
        &mut clusters,
        &mut glyphs,
        &shaped,
        &plain_infos(3),
        &chars_of("afi"),
    );
    // The run advance is the total advance of the run.
    assert_eq!(advance, 1400);
    assert_eq!(clusters.len(), 3);
    // A single glyph without offsets is stored inline.
    assert_eq!(clusters[0].glyph_len, 0xFF);
    assert_eq!(clusters[0].glyph_offset, 10);
    assert_eq!(clusters[0].advance, 500);
    assert_eq!(clusters[0].flags, 0);
    assert_eq!(clusters[1].flags, LIGATURE_START);
    assert_eq!(clusters[1].glyph_len, 1);
    assert_eq!(clusters[1].glyph_offset, 0);
    assert_eq!(clusters[1].advance, 450);
    assert_eq!(clusters[1].info.source_char, 'f');
    assert_eq!(clusters[2].flags, LIGATURE_COMPONENT);
    assert_eq!(clusters[2].glyph_len, 0);
    assert_eq!(clusters[2].advance, 450);
    assert_eq!(clusters[2].text_offset, 2);
    assert_eq!(clusters[2].info.source_char, 'i');
    assert_eq!(glyphs.len(), 1);
    assert_eq!(glyphs[0].id, 20);
}

#[test]
fn ligature_advance_rounds_toward_zero() {
    let shaped = vec![glyph(7, 0, 1000)];
    let mut clusters: Vec<ClusterData> = Vec::new();
    let mut glyphs: Vec<Glyph> = Vec::new();
    process_clusters(Direction::Ltr, &mut clusters, &mut glyphs, &shaped, &plain_infos(3), &chars_of("ffi"));
    assert_eq!(clusters.len(), 3);
    assert!(clusters.iter().all(|c| c.advance == 333));
}

#[test]
fn newline_cluster_keeps_its_glyph_but_no_advance() {
    let shaped = vec![glyph(1, 0, 100), glyph(2, 1, 60)];
    let mut clusters: Vec<ClusterData> = Vec::new();
    let mut glyphs: Vec<Glyph> = Vec::new();
    let advance =
        process_clusters(Direction::Ltr, &mut clusters, &mut glyphs, &shaped, &plain_infos(2), &chars_of("a\n"));
    assert_eq!(advance, 160);
    assert_eq!(clusters[1].glyph_len, 0);
    assert_eq!(clusters[1].advance, 0);
    assert_eq!(glyphs.len(), 1);
    assert_eq!(glyphs[0].id, 2);
}

#[test]
fn offset_glyph_is_not_inlined_and_turns_downwards() {
    let shaped = vec![ShapedGlyph { glyph_id: 5, cluster: 0, x_offset: 3, y_offset: 4, advance: 80, line_break_advance: 70 }];
    let mut clusters: Vec<ClusterData> = Vec::new();
    let mut glyphs: Vec<Glyph> = vec![Glyph { id: 99, style_index: 0, x: 0, y: 0, advance: 0 }];
    let advance =
        process_clusters(Direction::Ltr, &mut clusters, &mut glyphs, &shaped, &plain_infos(1), &chars_of("a"));
    assert_eq!(advance, 80);
    assert_eq!(clusters[0].glyph_len, 1);
    // Glyph offsets count from the run's first glyph.
    assert_eq!(clusters[0].glyph_offset, 0);
    assert_eq!(clusters[0].line_break_advance, 70);
    assert_eq!(glyphs.len(), 2);
    assert_eq!((glyphs[1].x, glyphs[1].y), (3, -4));
}

#[test]
fn space_ends_the_components_of_a_ligature() {
    let shaped = vec![glyph(3, 0, 300)];
    let mut clusters: Vec<ClusterData> = Vec::new();
    let mut glyphs: Vec<Glyph> = Vec::new();
    process_clusters(Direction::Ltr, &mut clusters, &mut glyphs, &shaped, &plain_infos(3), &chars_of("a b"));
    assert_eq!(clusters.len(), 1);
    assert_eq!(clusters[0].flags, LIGATURE_START);
    assert_eq!(clusters[0].advance, 100);
}

#[test]
fn clusters_out_of_order_are_refused() {
    let shaped = vec![glyph(1, 1, 100), glyph(2, 0, 100)];
    let mut clusters: Vec<ClusterData> = Vec::new();
    let mut glyphs: Vec<Glyph> = Vec::new();
    let r = try_process_clusters(Direction::Ltr, &mut clusters, &mut glyphs, &shaped, &plain_infos(2), &chars_of("ab"));
    assert_eq!(r, None);
}

#[test]
fn cluster_beyond_the_text_is_refused() {
    let shaped = vec![glyph(1, 5, 100)];
    let mut clusters: Vec<ClusterData> = Vec::new();
    let mut glyphs: Vec<Glyph> = Vec::new();
    let r = try_process_clusters(Direction::Ltr, &mut clusters, &mut glyphs, &shaped, &plain_infos(2), &chars_of("ab"));
    assert_eq!(r, None);
}

#[test]
fn right_to_left_run_is_recorded_in_logical_order() {
    // Four characters; the shaper returns clusters 3, 2, 0, 0 in visual
    // order, the last two glyphs forming one ligature of characters 0 and 1.
    let shaped = vec![glyph(13, 3, 100), glyph(12, 2, 100), glyph(11, 0, 70), glyph(10, 0, 30)];
    let infos = vec![
        info(Boundary::Line, 0),
        info(Boundary::Word, 1),
        info(Boundary::NoBoundary, 2),
        info(Boundary::Mandatory, 3),
    ];
    let mut data = LayoutData::new();
    data.push_run(0, 4, 1, 40, 0, 0, 0, &shaped, &infos, &chars_of("abcd"), &[]);
    assert_eq!(data.runs.len(), 1);
    assert_eq!(data.runs[0].advance, 300);
    assert_eq!((data.runs[0].cluster_start, data.runs[0].cluster_end), (0, 4));
    let c = &data.clusters;
    assert_eq!(c.len(), 4);
    assert_eq!((c[0].flags, c[0].info.source_char, c[0].style_index), (LIGATURE_COMPONENT, 'a', 1));
    assert_eq!((c[1].flags, c[1].info.source_char, c[1].style_index), (LIGATURE_START, 'b', 0));
    assert_eq!(c[1].glyph_len, 2);
    assert_eq!(c[1].advance, 50);
    assert_eq!((c[2].info.source_char, c[2].info.boundary, c[2].glyph_len), ('c', Boundary::NoBoundary, 0xFF));
    assert_eq!((c[3].info.source_char, c[3].info.boundary, c[3].glyph_offset), ('d', Boundary::Mandatory, 13));
    assert_eq!(data.glyphs.len(), 2);
    assert_eq!(data.items.len(), 1);
    assert_eq!(data.items[0].kind, LayoutItemKind::TextRun);
}

#[test]
fn transparent_box_splits_the_recorded_run() {
    let shaped = vec![glyph(1, 0, 100), glyph(2, 1, 100), glyph(3, 2, 100)];
    let mut data = LayoutData::new();
    data.push_run(0, 3, 0, 40, 0, 0, 0, &shaped, &plain_infos(3), &chars_of("abc"), &[(7, 0, 1)]);
    let kinds: Vec<LayoutItemKind> = data.items.iter().map(|i| i.kind).collect();
    assert_eq!(kinds, vec![LayoutItemKind::TextRun, LayoutItemKind::InlineBox, LayoutItemKind::TextRun]);
    assert_eq!((data.items[0].cluster_start, data.items[0].cluster_end), (0, 1));
    assert_eq!(data.items[1].index, 7);
    assert_eq!((data.items[2].cluster_start, data.items[2].cluster_end), (1, 3));
}

#[test]
fn run_without_glyphs_records_only_its_boxes() {
    let mut data = LayoutData::new();
    data.push_run(0, 0, 0, 40, 0, 0, 0, &Vec::new(), &Vec::new(), &Vec::new(), &[(2, 0, 0), (3, 1, 0)]);
    assert!(data.runs.is_empty());
    assert_eq!(data.items.len(), 2);
    assert_eq!((data.items[0].index, data.items[1].index), (2, 3));
    assert_eq!(data.items[1].bidi_level, 1);
}

#[test]
fn zero_width_box_splits_text_atoms_without_repeating_text() {
    let shaped = vec![glyph(1, 0, 100), glyph(2, 1, 100), glyph(3, 2, 100)];
    let mut data = LayoutData::new();
    data.inline_boxes.push(InlineBox::transparent_anchor(9, 1));
    data.push_run(0, 3, 0, 40, 0, 0, 0, &shaped, &plain_infos(3), &chars_of("abc"), &[(0, 0, 1)]);
    let layout = Layout { data };
    let topology = layout.bidi_topology();
    let kinds: Vec<BidiVisualAtomKind> = topology.atoms().iter().map(|a| *a.kind()).collect();
    assert_eq!(
        kinds,
        vec![
            BidiVisualAtomKind::Text { start: 0, end: 1 },
            BidiVisualAtomKind::InlineBox { id: 9, source_boundary: 1 },
            BidiVisualAtomKind::Text { start: 1, end: 3 },
        ]
    );
}
