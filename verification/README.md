# parley

The verified core of a rich-text line-layout engine, written in Verus.

Geometry is measured in integer layout units (`i64`); the host converts
floating-point pixels at its edge. Only the inline axis is modelled here:
line heights, baselines and the vertical extent of lines are floating-point
font metrics, which the host glue in `app/` computes (`line_box_metrics`). Justification
divides free space in whole layout units, so a remainder smaller than the
number of opportunities stays unused.

- `src/shaping.rs`: recording a shaped run: grouping shaper glyphs into
  clusters (ligatures, inline glyphs, newlines) and splitting runs around
  transparent inline boxes.
- `src/data.rs`: the paragraph data, soft-wrap boundary resolution and the
  spacing and tab passes that finish a layout.
- `src/line_break.rs`: greedy line breaking (`BreakLines`), with its
  progress, revert and finishing laws.
- `src/bidi.rs`: visual reordering of bidi levels (UAX #9 rule L2) and the
  bidi topology of a layout.
- `src/alignment.rs`, `src/justification.rs`: alignment, justification and
  its undoing; each line is aligned by the direction of its own paragraph.
- `src/content_widths.rs`: minimum and maximum content widths.
- `src/inline_box.rs`, `src/inline_fragmentation.rs`: inline boxes and the
  edges of inline owners cloned across lines.
- `app/`: the host glue: `parlance` style conversions, pixel conversion and
  the font measurements (through `skrifa` and `harfrust`) that feed a run.
