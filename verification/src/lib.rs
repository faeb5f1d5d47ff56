//! Parsing and lookup core of a TrueType font rasterizer: bounds-checked
//! big-endian readers, the font tables (`head`, `hhea`, `maxp`, `loca`,
//! `hmtx`, `cmap`, `glyf`, `kern`, `GPOS`), a glyph-outline resolver, the
//! character index built at load time, an open-addressing map and the
//! bitmap cache.
//!
//! `TrueTypeFont::load_font` accepts any bytes:
//! it either fails with the first problem it meets or yields a font whose
//! every table, index entry, outline and kerning value is stated by its
//! contract. Properties that span several functions are in [`laws`]; what
//! each table read means in terms of the stored bytes is in [`table_laws`].

pub mod bytes;
pub mod fastmap;
pub mod render;
pub mod cache;
pub mod tables;
pub mod font;
pub mod outline;
pub mod glyph_index;
pub mod load;
pub mod laws;
pub mod table_laws;
