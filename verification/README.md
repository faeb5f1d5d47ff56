# titanf

The parsing and lookup core of a TrueType font rasterizer, verified with Verus.

- `src/` — the verified library: bounds-checked readers (`bytes`), the font
  tables (`tables/`), glyph outlines with composite glyphs resolved
  (`outline`), the character index and outline table built at load time
  (`glyph_index`), font loading (`font`, `load`), the open-addressing map
  (`fastmap`) and the bitmap cache (`cache`). `laws` states properties that
  span several functions.
- `app/` — the floating-point side: component transforms, outline
  preprocessing into raster-ready lines and monotonic quadratic pieces, the
  coverage rasterizer, and a `Font` front end with DPI and cached rendering.
- `tests/` — tests of the library on synthetic fonts and tables.
