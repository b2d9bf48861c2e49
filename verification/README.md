# mermaid_svg

The text, style and layout-bookkeeping logic of a Mermaid-to-SVG renderer,
written in Verus and proved against its contracts.

## Layout

- `src/` — the verified library, one module per concern:
  - `text` — character-level helpers (whitespace, trimming, search, decimals)
  - `label`, `markup` — label decoding (`#…;` entities, KaTeX fences) and
    inline HTML/markdown styling into runs
  - `style` — `classDef`/`style` layering into SVG attributes
  - `theme` — the built-in themes, `themeVariables` and the preamble settings
  - `color`, `metrics` — hex colour parsing and printing, text width units
  - `sankey` — node alignment, link colours and column assignment
  - `events`, `sequence` — sequence-diagram event bookkeeping (fragment
    pairing, ZenUML outline numbers) and message/participant helpers
  - `state` — the member states of nested composite states
  - `timeline`, `treemap`, `mindmap`, `journey`, `kanban`, `pie`,
    `requirement` — the per-diagram helpers that involve no geometry
  - `error` — the render error
- `tests/` — tests of the library, run against the compiled crate.
- `app/` — the floating-point ends (colour maths, pixel widths, number
  printing, the numeric font size, treemap tiling) and the error type with
  its `Display`.

Laws of the library are public proof functions named `law_*`.
