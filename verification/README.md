# craie

A retained native UI host: a compact node tree fed by binary transactions, with
hit testing, focus, text input, scrolling, accessibility, a bounded glyph atlas
and a commit bridge.

- `src/` is the library. Everything in it is verified with Verus: contracts
  state what each function returns or changes over mathematical models, and
  laws about several functions stand beside them as public proof functions
  named `law_...`.
- `app/` is the host around it: windows, fonts, layout arithmetic, the GPU and
  the N-API runtime.
- `tests/` run the library.

## Layout of the library

| module | what it holds |
|---|---|
| `scalar`, `geom`, `style` | numbers by their bits, rectangles, style records |
| `host` | the node arena: headers, side tables, dirty queue, document order |
| `wire` | the transaction format: encoder, decoder, atomic apply |
| `layout` | the layout store, cache invalidation, measuring decisions |
| `events`, `input`, `custom` | events in and out, input history, payloads |
| `ui` | the interaction core: commits, dispatch, hit test, paint plan |
| `a11y` | the semantic tree |
| `scene` | instance rows, clips, retained text batches |
| `text` | glyph atlas, raster cache, what a glyph run asks of them |
| `gpu` | atlas uploads, texture and buffer sizes |
| `bridge`, `sync`, `runtime`, `platform` | sessions, the host loop, checks, window reports |

Numbers that the renderer treats as 32-bit floats are carried through the
library as their bit patterns: it compares them and hands them on; sums and
products are worked out in `app/`.

The library calls two outside crates in the middle of its logic: `etagere`
packs the atlas pages, and the layout store keeps the caches of `taffy`. What is
believed of them, and of two functions of the standard library, is written
above the items marked `external_body`.

`app/` alone uses the other crates. Among them `martensite-accesskit-winit` is
the accessibility adapter for windows: it is `accesskit_winit` made for `winit`
0.31, where `accesskit_winit` itself is made for `winit` 0.30.
