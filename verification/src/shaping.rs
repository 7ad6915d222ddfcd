use vstd::prelude::*;

use crate::analysis::{AuthoredBreakUnit, Boundary, Whitespace};
use crate::data::{
    box_item, shaped_run_items, spec_to_whitespace, to_whitespace, ClusterData, ClusterInfo, Glyph,
    LayoutData, LayoutItem, RunData, LIGATURE_COMPONENT, LIGATURE_START,
};

verus! {

/// Direction of a shaped run.
#[derive(Copy, Clone, Debug, PartialEq, Eq, Structural)]
pub enum Direction {
    Ltr,
    Rtl,
}

/// The role of a cluster within a shaped run.
#[derive(Copy, Clone, Debug, PartialEq, Eq, Structural)]
pub enum ClusterType {
    LigatureStart,
    LigatureComponent,
    Regular,
    Newline,
}

/// The segmentation facts of one source character that shaping records in
/// its cluster.
#[derive(Copy, Clone, Debug, PartialEq, Eq, Structural)]
pub struct CharInfo {
    pub boundary: Boundary,
    pub authored_break_unit: AuthoredBreakUnit,
}

/// One glyph as the shaper placed it, in visual order, with its offsets and
/// advances in layout units.
#[derive(Copy, Clone, Debug, PartialEq, Eq, Structural)]
pub struct ShapedGlyph {
    pub glyph_id: u32,
    /// Logical index of the first character of the glyph's cluster.
    pub cluster: u32,
    /// Horizontal offset.
    pub x_offset: i64,
    /// Vertical offset, upwards as in font space.
    pub y_offset: i64,
    /// Advance used for layout.
    pub advance: i64,
    /// Advance used for greedy line-fit decisions.
    pub line_break_advance: i64,
}

/// Bound on the magnitude of a glyph's offsets and advances.
pub const GLYPH_METRIC_BOUND: i64 = 0x7fff_ffff;

/// The glyph values fit the bound, and there are fewer glyphs than the bound,
/// so that every sum of advances fits in an `i64`.
pub open spec fn glyphs_in_range(gs: Seq<ShapedGlyph>) -> bool {
    &&& gs.len() <= GLYPH_METRIC_BOUND
    &&& forall|i: int|
        0 <= i < gs.len() ==> {
            &&& -GLYPH_METRIC_BOUND <= (#[trigger] gs[i]).advance <= GLYPH_METRIC_BOUND
            &&& -GLYPH_METRIC_BOUND <= gs[i].line_break_advance <= GLYPH_METRIC_BOUND
            &&& -GLYPH_METRIC_BOUND <= gs[i].y_offset <= GLYPH_METRIC_BOUND
        }
}

/// The flags of a cluster of type `t`.
pub open spec fn cluster_flags(t: ClusterType) -> u16 {
    match t {
        ClusterType::LigatureStart => LIGATURE_START,
        ClusterType::LigatureComponent => LIGATURE_COMPONENT,
        _ => 0,
    }
}

impl ClusterType {
    /// The cluster flags of this type: none for regular and newline
    /// clusters.
    pub fn flags(self) -> (r: u16)
        ensures
            r == cluster_flags(self),
    {
        match self {
            ClusterType::LigatureStart => LIGATURE_START,
            ClusterType::LigatureComponent => LIGATURE_COMPONENT,
            ClusterType::Regular | ClusterType::Newline => 0,
        }
    }
}

/// The number of bytes of `c` in UTF-8.
pub open spec fn utf8_len(c: char) -> u8 {
    let u = c as u32;
    if u < 0x80 {
        1
    } else if u < 0x800 {
        2
    } else if u < 0x10000 {
        3
    } else {
        4
    }
}

/// `a / n` rounded toward zero.
pub open spec fn div_toward_zero(a: int, n: int) -> int {
    if a >= 0 {
        a / n
    } else {
        -((-a) / n)
    }
}

/// The cluster recorded for source character `ch` with analysis `info`:
/// a ligature component carries no glyphs, a newline neither glyphs nor
/// advance, an inline glyph is stored in the cluster itself (glyph count
/// 0xFF), and any other cluster owns the glyphs from `glyph_offset` to
/// `total_glyphs`.
pub open spec fn spec_cluster(
    info: (CharInfo, u16),
    ch: (usize, char),
    glyph_offset: u32,
    advance: i64,
    line_break_advance: i64,
    total_glyphs: u32,
    t: ClusterType,
    inline_glyph_id: Option<u32>,
) -> ClusterData {
    let glyph_len = (total_glyphs - glyph_offset) as u8;
    let (gl, go, a, l) = match t {
        ClusterType::LigatureComponent => (0u8, 0u32, advance, line_break_advance),
        ClusterType::Newline => (0u8, 0u32, 0i64, 0i64),
        _ => match inline_glyph_id {
            Some(id) => (0xFFu8, id, advance, line_break_advance),
            None => (glyph_len, glyph_offset, advance, line_break_advance),
        },
    };
    ClusterData {
        info: ClusterInfo {
            boundary: info.0.boundary,
            source_char: ch.1,
            authored_break_unit: info.0.authored_break_unit,
        },
        flags: cluster_flags(t),
        style_index: info.1,
        glyph_len: gl,
        text_len: utf8_len(ch.1),
        glyph_offset: go,
        text_offset: ch.0 as u16,
        advance: a,
        line_break_advance: l,
    }
}

/// The number of bytes of `c` in UTF-8.
pub fn char_utf8_len(c: char) -> (r: u8)
    ensures
        r == utf8_len(c),
{
    let u = c as u32;
    if u < 0x80 {
        1
    } else if u < 0x800 {
        2
    } else if u < 0x10000 {
        3
    } else {
        4
    }
}

/// Appends the cluster for source character `cluster_start_char`; see
/// `spec_cluster`.
#[allow(clippy::too_many_arguments)]
pub fn push_cluster(
    clusters: &mut Vec<ClusterData>,
    char_info: (CharInfo, u16),
    cluster_start_char: (usize, char),
    glyph_offset: u32,
    advance: i64,
    line_break_advance: i64,
    total_glyphs: u32,
    cluster_type: ClusterType,
    inline_glyph_id: Option<u32>,
)
    requires
        glyph_offset <= total_glyphs,
    ensures
        final(clusters)@ == old(clusters)@.push(
            spec_cluster(
                char_info,
                cluster_start_char,
                glyph_offset,
                advance,
                line_break_advance,
                total_glyphs,
                cluster_type,
                inline_glyph_id,
            ),
        ),
{
    let glyph_len = (total_glyphs - glyph_offset) as u8;
    let (final_glyph_len, final_glyph_offset, final_advance, final_line_break_advance) =
        match cluster_type {
        ClusterType::LigatureComponent => (0u8, 0u32, advance, line_break_advance),
        ClusterType::Newline => (0u8, 0u32, 0i64, 0i64),
        _ => match inline_glyph_id {
            Some(id) => (0xFFu8, id, advance, line_break_advance),
            None => (glyph_len, glyph_offset, advance, line_break_advance),
        },
    };
    let flags = cluster_type.flags();
    clusters.push(
        ClusterData {
            info: ClusterInfo::new(
                char_info.0.boundary,
                cluster_start_char.1,
                char_info.0.authored_break_unit,
            ),
            flags,
            style_index: char_info.1,
            glyph_len: final_glyph_len,
            text_len: char_utf8_len(cluster_start_char.1),
            glyph_offset: final_glyph_offset,
            text_offset: cluster_start_char.0 as u16,
            advance: final_advance,
            line_break_advance: final_line_break_advance,
        },
    );
}

/// The source character at position `p` of the order in which shaping reads
/// the text: logical order for left-to-right, reverse for right-to-left.
pub open spec fn read_char(dir: Direction, chars: Seq<(usize, char)>, p: int) -> (usize, char) {
    match dir {
        Direction::Ltr => chars[p],
        Direction::Rtl => chars[chars.len() - 1 - p],
    }
}

/// The character-analysis index of component `i` of a ligature of `num`
/// characters whose cluster is `c`, or `None` where that index does not fit
/// in `u32` arithmetic.
pub open spec fn component_index(dir: Direction, c: int, num: int, i: int) -> Option<int> {
    match dir {
        Direction::Ltr => if c + i <= u32::MAX {
            Some(c + i)
        } else {
            None
        },
        Direction::Rtl => if c + num <= u32::MAX && c + num - i >= 0 {
            Some(c + num - i)
        } else {
            None
        },
    }
}

/// The component clusters of a ligature of `num` characters at cluster `c`,
/// from component `i` on, reading characters from position `pos`, appended
/// to `acc`, with the position after the last character read; reading stops
/// at the first space. Within the run, every component up to `num` must be
/// read; in the last cluster of the run, reading goes on to the end of the
/// text. `None` where a character is missing or a component index is out of
/// range.
pub open spec fn ligature_components(
    dir: Direction,
    infos: Seq<(CharInfo, u16)>,
    chars: Seq<(usize, char)>,
    c: int,
    num: int,
    i: int,
    pos: int,
    last_cluster: bool,
    advance: i64,
    line_break_advance: i64,
    acc: Seq<ClusterData>,
) -> Option<(Seq<ClusterData>, int)>
    decreases chars.len() - pos,
{
    if !last_cluster && i >= num {
        Some((acc, pos))
    } else if pos < 0 || pos >= chars.len() {
        if last_cluster {
            Some((acc, pos))
        } else {
            None
        }
    } else {
        let ch = read_char(dir, chars, pos);
        if spec_to_whitespace(ch.1) == Whitespace::Space {
            Some((acc, pos + 1))
        } else {
            match component_index(dir, c, num, i) {
                None => None,
                Some(idx) => if idx >= infos.len() {
                    None
                } else {
                    let cl = spec_cluster(
                        infos[idx],
                        ch,
                        0,
                        advance,
                        line_break_advance,
                        0,
                        ClusterType::LigatureComponent,
                        None,
                    );
                    ligature_components(
                        dir,
                        infos,
                        chars,
                        c,
                        num,
                        i + 1,
                        pos + 1,
                        last_cluster,
                        advance,
                        line_break_advance,
                        acc.push(cl),
                    )
                },
            }
        }
    }
}

/// Appends the component clusters of a ligature; see `ligature_components`.
#[allow(clippy::too_many_arguments)]
fn push_ligature_components(
    direction: Direction,
    clusters: &mut Vec<ClusterData>,
    char_infos: &Vec<(CharInfo, u16)>,
    chars: &Vec<(usize, char)>,
    cluster_id: u32,
    num_components: u32,
    pos: usize,
    last_cluster: bool,
    advance: i64,
    line_break_advance: i64,
) -> (r: Option<usize>)
    requires
        chars@.len() < u32::MAX,
        num_components > 1,
    ensures
        final(clusters)@.len() >= old(clusters)@.len(),
        final(clusters)@.subrange(0, old(clusters)@.len() as int) == old(clusters)@,
        match r {
            None => ligature_components(
                direction,
                char_infos@,
                chars@,
                cluster_id as int,
                num_components as int,
                1,
                pos as int,
                last_cluster,
                advance,
                line_break_advance,
                old(clusters)@,
            ) is None,
            Some(p) => ligature_components(
                direction,
                char_infos@,
                chars@,
                cluster_id as int,
                num_components as int,
                1,
                pos as int,
                last_cluster,
                advance,
                line_break_advance,
                old(clusters)@,
            ) == Some((final(clusters)@, p as int)),
        },
{
    let ghost whole = ligature_components(
        direction,
        char_infos@,
        chars@,
        cluster_id as int,
        num_components as int,
        1,
        pos as int,
        last_cluster,
        advance,
        line_break_advance,
        clusters@,
    );
    let mut i: usize = 1;
    let mut p: usize = pos;
    loop
        invariant
            chars@.len() < u32::MAX,
            num_components > 1,
            1 <= i,
            i <= p - pos + 1,
            clusters@.len() >= old(clusters)@.len(),
            clusters@.subrange(0, old(clusters)@.len() as int) == old(clusters)@,
            whole == ligature_components(
                direction,
                char_infos@,
                chars@,
                cluster_id as int,
                num_components as int,
                1,
                pos as int,
                last_cluster,
                advance,
                line_break_advance,
                old(clusters)@,
            ),
            pos <= p,
            whole == ligature_components(
                direction,
                char_infos@,
                chars@,
                cluster_id as int,
                num_components as int,
                i as int,
                p as int,
                last_cluster,
                advance,
                line_break_advance,
                clusters@,
            ),
        decreases chars@.len() - p,
    {
        if !last_cluster && i >= num_components as usize {
            return Some(p);
        }
        if p >= chars.len() {
            if last_cluster {
                return Some(p);
            } else {
                return None;
            }
        }
        let ch = match direction {
            Direction::Ltr => chars[p],
            Direction::Rtl => chars[chars.len() - 1 - p],
        };
        if to_whitespace(ch.1) == Whitespace::Space {
            return Some(p + 1);
        }
        let idx: u64 = match direction {
            Direction::Ltr => {
                if (cluster_id as u64) + (i as u64) > u32::MAX as u64 {
                    return None;
                }
                cluster_id as u64 + i as u64
            },
            Direction::Rtl => {
                if (cluster_id as u64) + (num_components as u64) > u32::MAX as u64
                    || (cluster_id as u64) + (num_components as u64) < i as u64 {
                    return None;
                }
                cluster_id as u64 + num_components as u64 - i as u64
            },
        };
        if idx >= char_infos.len() as u64 {
            return None;
        }
        push_cluster(
            clusters,
            char_infos[idx as usize],
            ch,
            0,
            advance,
            line_break_advance,
            0,
            ClusterType::LigatureComponent,
            None,
        );
        i = i + 1;
        p = p + 1;
    }
}


/// The end of the group of consecutive glyphs of cluster `c` that continues
/// at glyph `j`.
pub open spec fn group_end(gs: Seq<ShapedGlyph>, c: u32, j: int) -> int
    decreases gs.len() - j,
{
    if j < 0 || j >= gs.len() {
        gs.len() as int
    } else if gs[j].cluster != c {
        j
    } else {
        group_end(gs, c, j + 1)
    }
}

/// A glyph group ends between its continuation and the end of the glyphs,
/// covers glyphs of its cluster only, and stops at a glyph of another
/// cluster.
pub proof fn lemma_group_end(gs: Seq<ShapedGlyph>, c: u32, j: int)
    requires
        0 <= j <= gs.len(),
    ensures
        j <= group_end(gs, c, j) <= gs.len(),
        forall|k: int| j <= k < group_end(gs, c, j) ==> (#[trigger] gs[k]).cluster == c,
        group_end(gs, c, j) < gs.len() ==> gs[group_end(gs, c, j)].cluster != c,
    decreases gs.len() - j,
{
    if j < gs.len() && gs[j].cluster == c {
        lemma_group_end(gs, c, j + 1);
    }
}

/// The sum of the advances of glyphs `[g, e)`.
pub open spec fn advance_sum(gs: Seq<ShapedGlyph>, g: int, e: int) -> int
    decreases e - g,
{
    if e <= g {
        0
    } else {
        advance_sum(gs, g, e - 1) + gs[e - 1].advance
    }
}

/// The sum of the line-break advances of glyphs `[g, e)`.
pub open spec fn line_break_advance_sum(gs: Seq<ShapedGlyph>, g: int, e: int) -> int
    decreases e - g,
{
    if e <= g {
        0
    } else {
        line_break_advance_sum(gs, g, e - 1) + gs[e - 1].line_break_advance
    }
}

/// The layout glyph of shaped glyph `s` with style `style`: vertical offsets
/// turn downwards.
pub open spec fn placed_glyph(s: ShapedGlyph, style: u16) -> Glyph {
    Glyph { id: s.glyph_id, style_index: style, x: s.x_offset, y: (-s.y_offset) as i64, advance: s.advance }
}

/// The layout glyphs of shaped glyphs `[g, e)`.
pub open spec fn placed_glyphs(gs: Seq<ShapedGlyph>, g: int, e: int, style: u16) -> Seq<Glyph>
    decreases e - g,
{
    if e <= g {
        seq![]
    } else {
        placed_glyphs(gs, g, e - 1, style).push(placed_glyph(gs[e - 1], style))
    }
}

/// The cluster id that precedes the first cluster: none for left-to-right,
/// the end of the text for right-to-left.
pub open spec fn initial_last_cluster(dir: Direction, n: int) -> int {
    match dir {
        Direction::Ltr => 0,
        Direction::Rtl => n,
    }
}

/// The type of a cluster of `num` characters starting with `c`.
pub open spec fn cluster_type_of(num: int, c: char) -> ClusterType {
    if num > 1 {
        ClusterType::LigatureStart
    } else if spec_to_whitespace(c) == Whitespace::Newline {
        ClusterType::Newline
    } else {
        ClusterType::Regular
    }
}

/// The clusters, glyphs and run advance that shaping records, from the group
/// of glyphs that starts at glyph `g` on, appended to `clusters` and
/// `glyphs`, with `base` the number of glyphs recorded before the run.
///
/// Each group of consecutive glyphs with one cluster id covers the source
/// characters up to the next cluster id in logical order (its number of
/// components). A group of one character is a regular or a newline cluster;
/// a regular group of one glyph without offsets keeps that glyph inline. A
/// group of several characters is a ligature: its advance is shared evenly
/// (rounding toward zero) among a start cluster and one component cluster
/// per later character, up to the first space. The group's start character
/// is read at position `pos`; the run advance is the total advance of all
/// groups. `None` where a character is missing, a cluster id or component
/// index is out of range, or cluster ids are out of order.
pub open spec fn shaped_groups(
    dir: Direction,
    gs: Seq<ShapedGlyph>,
    infos: Seq<(CharInfo, u16)>,
    chars: Seq<(usize, char)>,
    g: int,
    last: int,
    pos: int,
    clusters: Seq<ClusterData>,
    glyphs: Seq<Glyph>,
    base: int,
    run_advance: int,
) -> Option<(Seq<ClusterData>, Seq<Glyph>, int)>
    decreases gs.len() - g,
{
    if g < 0 || g >= gs.len() || pos < 0 || pos >= chars.len() {
        None
    } else {
        let c = gs[g].cluster;
        let e = group_end(gs, c, g + 1);
        let last_group = e >= gs.len();
        let next: int = if last_group {
            match dir {
                Direction::Ltr => infos.len() as int,
                Direction::Rtl => 0,
            }
        } else {
            gs[e].cluster as int
        };
        let num: int = match dir {
            Direction::Ltr => next - c,
            Direction::Rtl => last - c,
        };
        if c >= infos.len() || num <= 0 {
            None
        } else {
            let ch = read_char(dir, chars, pos);
            let t = cluster_type_of(num, ch.1);
            let sum = advance_sum(gs, g, e);
            let a = div_toward_zero(sum, num) as i64;
            let l = div_toward_zero(line_break_advance_sum(gs, g, e), num) as i64;
            let info = infos[c as int];
            let inline = t == ClusterType::Regular && e == g + 1 && gs[g].x_offset == 0
                && gs[g].y_offset == 0;
            let new_glyphs = if inline {
                seq![]
            } else {
                placed_glyphs(gs, g, e, info.1)
            };
            let offset = glyphs.len() - base;
            let cl = spec_cluster(
                info,
                ch,
                offset as u32,
                a,
                l,
                (offset + new_glyphs.len()) as u32,
                t,
                if inline {
                    Some(gs[g].glyph_id)
                } else {
                    None
                },
            );
            let step = if num > 1 {
                ligature_components(dir, infos, chars, c as int, num, 1, pos + 1, last_group, a, l, clusters.push(cl))
            } else {
                Some((clusters.push(cl), pos + 1))
            };
            match step {
                None => None,
                Some((cs, next_pos)) => if last_group {
                    Some((cs, glyphs + new_glyphs, run_advance + sum))
                } else {
                    proof {
                        lemma_group_end(gs, c, g + 1);
                    }
                    shaped_groups(
                        dir,
                        gs,
                        infos,
                        chars,
                        e,
                        c as int,
                        next_pos,
                        cs,
                        glyphs + new_glyphs,
                        base,
                        run_advance + sum,
                    )
                },
            }
        }
    }
}

/// What shaping records for a run: see `shaped_groups`.
pub open spec fn shaped_run(
    dir: Direction,
    gs: Seq<ShapedGlyph>,
    infos: Seq<(CharInfo, u16)>,
    chars: Seq<(usize, char)>,
    clusters: Seq<ClusterData>,
    glyphs: Seq<Glyph>,
) -> Option<(Seq<ClusterData>, Seq<Glyph>, int)> {
    shaped_groups(
        dir,
        gs,
        infos,
        chars,
        0,
        initial_last_cluster(dir, infos.len() as int),
        0,
        clusters,
        glyphs,
        glyphs.len() as int,
        0,
    )
}


/// Glyph advances add up over adjacent ranges.
proof fn lemma_advance_sum_split(gs: Seq<ShapedGlyph>, a: int, b: int, c: int)
    requires
        a <= b <= c,
    ensures
        advance_sum(gs, a, c) == advance_sum(gs, a, b) + advance_sum(gs, b, c),
    decreases c - b,
{
    if c > b {
        lemma_advance_sum_split(gs, a, b, c - 1);
    }
}

/// The advance that shaping records for the glyph groups from glyph `g` on
/// is `run_advance` and the advances of all those glyphs.
pub proof fn lemma_shaped_groups_advance(
    dir: Direction,
    gs: Seq<ShapedGlyph>,
    infos: Seq<(CharInfo, u16)>,
    chars: Seq<(usize, char)>,
    g: int,
    last: int,
    pos: int,
    clusters: Seq<ClusterData>,
    glyphs: Seq<Glyph>,
    base: int,
    run_advance: int,
)
    requires
        shaped_groups(dir, gs, infos, chars, g, last, pos, clusters, glyphs, base, run_advance) is Some,
    ensures
        shaped_groups(dir, gs, infos, chars, g, last, pos, clusters, glyphs, base, run_advance).unwrap().2
            == run_advance + advance_sum(gs, g, gs.len() as int),
    decreases gs.len() - g,
{
    let c = gs[g].cluster;
    let e = group_end(gs, c, g + 1);
    lemma_group_end(gs, c, g + 1);
    lemma_advance_sum_split(gs, g, e, gs.len() as int);
    let last_group = e >= gs.len();
    let next: int = if last_group {
        match dir {
            Direction::Ltr => infos.len() as int,
            Direction::Rtl => 0,
        }
    } else {
        gs[e].cluster as int
    };
    let num: int = match dir {
        Direction::Ltr => next - c,
        Direction::Rtl => last - c,
    };
    let ch = read_char(dir, chars, pos);
    let t = cluster_type_of(num, ch.1);
    let sum = advance_sum(gs, g, e);
    let a = div_toward_zero(sum, num) as i64;
    let l = div_toward_zero(line_break_advance_sum(gs, g, e), num) as i64;
    let info = infos[c as int];
    let inline = t == ClusterType::Regular && e == g + 1 && gs[g].x_offset == 0 && gs[g].y_offset == 0;
    let new_glyphs = if inline {
        seq![]
    } else {
        placed_glyphs(gs, g, e, info.1)
    };
    let offset = glyphs.len() - base;
    let cl = spec_cluster(
        info,
        ch,
        offset as u32,
        a,
        l,
        (offset + new_glyphs.len()) as u32,
        t,
        if inline {
            Some(gs[g].glyph_id)
        } else {
            None
        },
    );
    let step = if num > 1 {
        ligature_components(dir, infos, chars, c as int, num, 1, pos + 1, last_group, a, l, clusters.push(cl))
    } else {
        Some((clusters.push(cl), pos + 1))
    };
    if !last_group {
        if let Some((cs, next_pos)) = step {
            lemma_shaped_groups_advance(
                dir,
                gs,
                infos,
                chars,
                e,
                c as int,
                next_pos,
                cs,
                glyphs + new_glyphs,
                base,
                run_advance + sum,
            );
        }
    }
}

/// The advance that shaping records for a run is the sum of the advances of
/// all its glyphs.
pub proof fn lemma_shaped_run_advance(
    dir: Direction,
    gs: Seq<ShapedGlyph>,
    infos: Seq<(CharInfo, u16)>,
    chars: Seq<(usize, char)>,
    clusters: Seq<ClusterData>,
    glyphs: Seq<Glyph>,
)
    requires
        shaped_run(dir, gs, infos, chars, clusters, glyphs) is Some,
    ensures
        shaped_run(dir, gs, infos, chars, clusters, glyphs).unwrap().2 == advance_sum(gs, 0, gs.len() as int),
{
    lemma_shaped_groups_advance(
        dir,
        gs,
        infos,
        chars,
        0,
        initial_last_cluster(dir, infos.len() as int),
        0,
        clusters,
        glyphs,
        glyphs.len() as int,
        0,
    );
}

/// `a / n` rounded toward zero.
fn divide_toward_zero(a: i64, n: i64) -> (r: i64)
    requires
        n > 0,
        a > i64::MIN,
    ensures
        r == div_toward_zero(a as int, n as int),
{
    if a >= 0 {
        a / n
    } else {
        -((-a) / n)
    }
}

/// Records the clusters and glyphs of a shaped run, appending them to
/// `clusters` and `glyphs`, and returns the run advance; `None` where the
/// shaper's output does not fit the text (see `shaped_groups`), and then the
/// vectors hold part of the work.
pub fn try_process_clusters(
    direction: Direction,
    clusters: &mut Vec<ClusterData>,
    glyphs: &mut Vec<Glyph>,
    shaped: &Vec<ShapedGlyph>,
    char_infos: &Vec<(CharInfo, u16)>,
    chars: &Vec<(usize, char)>,
) -> (r: Option<i64>)
    requires
        glyphs_in_range(shaped@),
        char_infos@.len() < u32::MAX,
        chars@.len() < u32::MAX,
    ensures
        r is None <==> shaped_run(direction, shaped@, char_infos@, chars@, old(clusters)@, old(glyphs)@) is None,
        r is Some ==> shaped_run(direction, shaped@, char_infos@, chars@, old(clusters)@, old(glyphs)@)
            == Some((final(clusters)@, final(glyphs)@, r->0 as int)),
        final(clusters)@.len() >= old(clusters)@.len(),
        final(clusters)@.subrange(0, old(clusters)@.len() as int) == old(clusters)@,
        final(glyphs)@.len() >= old(glyphs)@.len(),
        final(glyphs)@.subrange(0, old(glyphs)@.len() as int) == old(glyphs)@,
{
    let ghost whole = shaped_run(direction, shaped@, char_infos@, chars@, clusters@, glyphs@);
    let ghost base = glyphs@.len() as int;
    let n = char_infos.len();
    if shaped.len() == 0 || chars.len() == 0 {
        return None;
    }
    let glyph_base = glyphs.len();
    let mut run_advance: i64 = 0;
    let mut g: usize = 0;
    let mut last: u32 = match direction {
        Direction::Ltr => 0,
        Direction::Rtl => n as u32,
    };
    let mut pos: usize = 0;
    loop
        invariant
            g < shaped@.len(),
            glyphs_in_range(shaped@),
            n == char_infos@.len(),
            n < u32::MAX,
            chars@.len() < u32::MAX,
            glyph_base == base,
            base <= glyphs@.len() <= base + g,
            clusters@.len() >= old(clusters)@.len(),
            clusters@.subrange(0, old(clusters)@.len() as int) == old(clusters)@,
            glyphs@.subrange(0, base) == old(glyphs)@,
            -(g * GLYPH_METRIC_BOUND) <= run_advance <= g * GLYPH_METRIC_BOUND,
            whole == shaped_run(direction, shaped@, char_infos@, chars@, old(clusters)@, old(glyphs)@),
            base == old(glyphs)@.len(),
            whole == shaped_groups(
                direction,
                shaped@,
                char_infos@,
                chars@,
                g as int,
                last as int,
                pos as int,
                clusters@,
                glyphs@,
                base,
                run_advance as int,
            ),
        decreases shaped@.len() - g,
    {
        if pos >= chars.len() {
            return None;
        }
        let c = shaped[g].cluster;
        let mut e: usize = g + 1;
        proof {
            lemma_group_end(shaped@, c, g + 1);
        }
        while e < shaped.len() && shaped[e].cluster == c
            invariant
                g < e <= shaped@.len(),
                c == shaped@[g as int].cluster,
                group_end(shaped@, c, g + 1) == group_end(shaped@, c, e as int),
            decreases shaped@.len() - e,
        {
            e = e + 1;
        }
        assert(group_end(shaped@, c, g + 1) == e);
        let last_group = e >= shaped.len();
        if c as usize >= n {
            return None;
        }
        let num: u32 = match direction {
            Direction::Ltr => {
                let next: u32 = if last_group {
                    n as u32
                } else {
                    shaped[e].cluster
                };
                if next <= c {
                    return None;
                }
                next - c
            },
            Direction::Rtl => {
                if last <= c {
                    return None;
                }
                last - c
            },
        };
        let ch = match direction {
            Direction::Ltr => chars[pos],
            Direction::Rtl => chars[chars.len() - 1 - pos],
        };
        let t = if num > 1 {
            ClusterType::LigatureStart
        } else if to_whitespace(ch.1) == Whitespace::Newline {
            ClusterType::Newline
        } else {
            ClusterType::Regular
        };
        let mut sum: i64 = 0;
        let mut line_break_sum: i64 = 0;
        let mut j: usize = g;
        while j < e
            invariant
                g <= j <= e <= shaped@.len(),
                shaped@.len() <= GLYPH_METRIC_BOUND,
                glyphs_in_range(shaped@),
                sum == advance_sum(shaped@, g as int, j as int),
                line_break_sum == line_break_advance_sum(shaped@, g as int, j as int),
                -((j - g) * GLYPH_METRIC_BOUND) <= sum <= (j - g) * GLYPH_METRIC_BOUND,
                -((j - g) * GLYPH_METRIC_BOUND) <= line_break_sum <= (j - g) * GLYPH_METRIC_BOUND,
            decreases e - j,
        {
            assert(-GLYPH_METRIC_BOUND <= shaped@[j as int].advance <= GLYPH_METRIC_BOUND);
            sum = sum + shaped[j].advance;
            line_break_sum = line_break_sum + shaped[j].line_break_advance;
            j = j + 1;
        }
        let a = divide_toward_zero(sum, num as i64);
        let l = divide_toward_zero(line_break_sum, num as i64);
        let info = char_infos[c as usize];
        let inline = t == ClusterType::Regular && e == g + 1 && shaped[g].x_offset == 0
            && shaped[g].y_offset == 0;
        let offset = (glyphs.len() - glyph_base) as u32;
        let ghost glyphs_before = glyphs@;
        if !inline {
            let mut k: usize = g;
            while k < e
                invariant
                    g <= k <= e <= shaped@.len(),
                    glyphs_in_range(shaped@),
                    glyphs@ == glyphs_before + placed_glyphs(shaped@, g as int, k as int, info.1),
                    glyphs@.len() == glyphs_before.len() + (k - g),
                decreases e - k,
            {
                let s = shaped[k];
                assert(-GLYPH_METRIC_BOUND <= shaped@[k as int].y_offset <= GLYPH_METRIC_BOUND);
                glyphs.push(
                    Glyph {
                        id: s.glyph_id,
                        style_index: info.1,
                        x: s.x_offset,
                        y: -s.y_offset,
                        advance: s.advance,
                    },
                );
                k = k + 1;
            }
        }
        assert(glyphs@.len() <= glyphs_before.len() + (e - g));
        let total = (glyphs.len() - glyph_base) as u32;
        let inline_glyph_id = if inline {
            Some(shaped[g].glyph_id)
        } else {
            None
        };
        push_cluster(clusters, info, ch, offset, a, l, total, t, inline_glyph_id);
        let mut next_pos = pos + 1;
        if num > 1 {
            match push_ligature_components(
                direction,
                clusters,
                char_infos,
                chars,
                c,
                num,
                pos + 1,
                last_group,
                a,
                l,
            ) {
                None => {
                    return None;
                },
                Some(p) => {
                    next_pos = p;
                },
            }
        }
        run_advance = run_advance + sum;
        if last_group {
            return Some(run_advance);
        }
        last = c;
        g = e;
        pos = next_pos;
    }
}


/// Records the clusters and glyphs of a shaped run, appending them to
/// `clusters` and `glyphs`, and returns the run advance: the total advance
/// of its glyphs (see `shaped_groups`).
pub fn process_clusters(
    direction: Direction,
    clusters: &mut Vec<ClusterData>,
    glyphs: &mut Vec<Glyph>,
    shaped: &Vec<ShapedGlyph>,
    char_infos: &Vec<(CharInfo, u16)>,
    chars: &Vec<(usize, char)>,
) -> (run_advance: i64)
    requires
        glyphs_in_range(shaped@),
        char_infos@.len() < u32::MAX,
        chars@.len() < u32::MAX,
        shaped_run(direction, shaped@, char_infos@, chars@, old(clusters)@, old(glyphs)@) is Some,
    ensures
        shaped_run(direction, shaped@, char_infos@, chars@, old(clusters)@, old(glyphs)@)
            == Some((final(clusters)@, final(glyphs)@, run_advance as int)),
        final(clusters)@.len() >= old(clusters)@.len(),
        final(clusters)@.subrange(0, old(clusters)@.len() as int) == old(clusters)@,
{
    match try_process_clusters(direction, clusters, glyphs, shaped, char_infos, chars) {
        Some(run_advance) => run_advance,
        None => 0,
    }
}

/// Reverses the clusters from `start` on, in place.
fn reverse_clusters_from(clusters: &mut Vec<ClusterData>, start: usize)
    requires
        start <= old(clusters)@.len(),
    ensures
        final(clusters)@ == old(clusters)@.subrange(0, start as int) + old(clusters)@.subrange(
            start as int,
            old(clusters)@.len() as int,
        ).reverse(),
{
    let ghost orig = clusters@;
    let len = clusters.len();
    let mut i = start;
    let mut j = len;
    while j - i > 1
        invariant
            start <= i <= j <= len,
            len == orig.len(),
            i - start == len - j,
            clusters@.len() == len,
            forall|k: int| 0 <= k < start ==> clusters@[k] == orig[k],
            forall|k: int| start <= k < i ==> clusters@[k] == orig[start + len - 1 - k],
            forall|k: int| j <= k < len ==> clusters@[k] == orig[start + len - 1 - k],
            forall|k: int| i <= k < j ==> clusters@[k] == orig[k],
        decreases j - i,
    {
        let a = clusters[i];
        let b = clusters[j - 1];
        clusters.set(i, b);
        clusters.set(j - 1, a);
        i = i + 1;
        j = j - 1;
    }
    let ghost tail = orig.subrange(start as int, len as int);
    assert forall|k: int| 0 <= k < len implies clusters@[k] == (orig.subrange(0, start as int) + tail.reverse())[k] by {
        if k >= start {
            assert(tail.reverse()[k - start] == tail[tail.len() - 1 - (k - start)]);
        }
    }
    assert(clusters@ =~= orig.subrange(0, start as int) + tail.reverse());
}

/// The item list after the inline boxes `boxes[..k]` (box index, level,
/// source boundary) are appended to `items` one after another.
pub open spec fn with_boxes(items: Seq<LayoutItem>, boxes: Seq<(usize, u8, usize)>, k: int) -> Seq<LayoutItem>
    decreases k,
{
    if k <= 0 {
        items
    } else {
        with_boxes(items, boxes, k - 1).push(box_item(boxes[k - 1].0, boxes[k - 1].1))
    }
}

/// The direction of a run at bidi level `level`.
pub open spec fn level_direction(level: u8) -> Direction {
    if level & 1 == 1 {
        Direction::Rtl
    } else {
        Direction::Ltr
    }
}

impl LayoutData {
    /// Records a shaped run: its clusters and glyphs (see `shaped_groups`),
    /// clusters in logical order (a right-to-left run's are reversed), and,
    /// where it has clusters, the run and its items split by the transparent
    /// inline boxes inside it. A run without glyphs records only those boxes.
    #[allow(clippy::too_many_arguments)]
    pub fn push_run(
        &mut self,
        text_start: usize,
        text_end: usize,
        bidi_level: u8,
        space_advance: i64,
        space_glyph_id: u32,
        word_spacing: i64,
        letter_spacing: i64,
        shaped: &Vec<ShapedGlyph>,
        char_infos: &Vec<(CharInfo, u16)>,
        chars: &Vec<(usize, char)>,
        transparent_inline_boxes: &[(usize, u8, usize)],
    )
        requires
            glyphs_in_range(shaped@),
            char_infos@.len() < u32::MAX,
            chars@.len() < u32::MAX,
            text_start + 0xFFFF <= usize::MAX,
            shaped@.len() > 0 ==> shaped_run(
                level_direction(bidi_level),
                shaped@,
                char_infos@,
                chars@,
                old(self).clusters@,
                old(self).glyphs@,
            ) is Some,
        ensures
            shaped@.len() == 0 ==> final(self).items@ == with_boxes(
                old(self).items@,
                transparent_inline_boxes@,
                transparent_inline_boxes@.len() as int,
            ) && *final(self) == (LayoutData { items: final(self).items, ..*old(self) }),
            shaped@.len() > 0 ==> {
                let r = shaped_run(
                    level_direction(bidi_level),
                    shaped@,
                    char_infos@,
                    chars@,
                    old(self).clusters@,
                    old(self).glyphs@,
                )->0;
                let start = old(self).clusters@.len() as int;
                let added = r.0.subrange(start, r.0.len() as int);
                let run = RunData {
                    text_start,
                    text_end,
                    bidi_level,
                    cluster_start: start as usize,
                    cluster_end: r.0.len() as usize,
                    glyph_start: old(self).glyphs@.len() as usize,
                    space_advance,
                    space_glyph_id,
                    word_spacing,
                    letter_spacing,
                    advance: r.2 as i64,
                };
                &&& r.0.len() >= start
                &&& final(self).glyphs@ == r.1
                &&& final(self).clusters@ == old(self).clusters@ + (if bidi_level & 1 == 1 {
                    added.reverse()
                } else {
                    added
                })
                &&& added.len() > 0 ==> final(self).runs@ == old(self).runs@.push(run)
                    && final(self).items@ == old(self).items@ + shaped_run_items(
                    final(self).clusters@,
                    run,
                    old(self).runs@.len() as usize,
                    transparent_inline_boxes@,
                    0,
                    text_start,
                    start,
                )
                &&& added.len() == 0 ==> final(self).runs@ == old(self).runs@ && final(self).items@
                    == old(self).items@
                &&& *final(self) == (LayoutData {
                    clusters: final(self).clusters,
                    glyphs: final(self).glyphs,
                    runs: final(self).runs,
                    items: final(self).items,
                    ..*old(self)
                })
            },
    {
        let ghost old_self = *self;
        let cluster_start = self.clusters.len();
        let glyph_start = self.glyphs.len();
        if shaped.len() == 0 {
            let mut k: usize = 0;
            while k < transparent_inline_boxes.len()
                invariant
                    k <= transparent_inline_boxes@.len(),
                    self.items@ == with_boxes(old_self.items@, transparent_inline_boxes@, k as int),
                    *self == (LayoutData { items: self.items, ..old_self }),
                decreases transparent_inline_boxes@.len() - k,
            {
                let (box_index, surrounding_level, _) = transparent_inline_boxes[k];
                self.push_inline_box(box_index, surrounding_level);
                k = k + 1;
            }
            return;
        }
        let is_rtl = bidi_level & 1 == 1;
        let direction = if is_rtl {
            Direction::Rtl
        } else {
            Direction::Ltr
        };
        let advance = process_clusters(
            direction,
            &mut self.clusters,
            &mut self.glyphs,
            shaped,
            char_infos,
            chars,
        );
        let ghost shaped_clusters = self.clusters@;
        if is_rtl {
            reverse_clusters_from(&mut self.clusters, cluster_start);
        }
        let cluster_end = self.clusters.len();
        let run = RunData {
            text_start,
            text_end,
            bidi_level,
            cluster_start,
            cluster_end,
            glyph_start,
            space_advance,
            space_glyph_id,
            word_spacing,
            letter_spacing,
            advance,
        };
        proof {
            let added = shaped_clusters.subrange(cluster_start as int, shaped_clusters.len() as int);
            assert(shaped_clusters =~= old_self.clusters@ + added);
            assert(self.clusters@ =~= old_self.clusters@ + (if is_rtl { added.reverse() } else { added }));
        }
        if cluster_start < cluster_end {
            self.push_shaped_run(run, transparent_inline_boxes);
        }
    }
}

} // verus!
