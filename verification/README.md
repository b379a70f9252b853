# minimap_renderer

The software renderer behind the replay minimap videos: it lays out the
canvas, the HUD, the kill and chat feeds and the stats panel, formats the
numbers and clocks shown on them, wraps and truncates text, and prepares
ship icons (gold halos, silhouette tints) before they are composited with
tiny-skia.

## Layout

- `src/` is the verified library, written in Verus. Its public functions
  state what they return in `ensures` clauses, and the properties that span
  several calls are public proof functions named `law_*`.
  - `number_format`: thousands separators and `mm:ss` clocks.
  - `strings`: clan prefixes, teammate labels, character slicing.
  - `text_wrap`: greedy word wrapping and ellipsis truncation under a
    caller-supplied width measure.
  - `layout`, `panel_layout`, `feeds`: canvas geometry, stats-panel columns,
    kill-feed lines, chat boxes, label placement.
  - `icon_image`, `canvas_image`: pixel operations on `image` buffers and
    the hand-off to tiny-skia pixmaps, through small trusted wrappers whose
    contracts restate what those crates document.
  - `palette`, `icon_keys`: colour and icon lookup tables.
- `app/` is ordinary Rust around the library: anti-aliased drawing with
  tiny-skia, glyph rasterisation and measurement with ab_glyph, and the
  conversions between `image` buffers and the library's types. All of it
  computes with floating point.
- `tests/` runs the library on concrete inputs, including one case for each
  law.
