//! Loading a whole font: which inputs are refused, and what a loaded font holds.

use vstd::prelude::*;
use crate::bytes::{fits, spec_u16};
use crate::font::{
    TrueTypeFont, FontError, OffsetTable, TableRecord, offset_table_of, dir_len, dir_index, dir_offset, tables_match,
    lemma_find_dir, tag_cmap, tag_head, tag_hhea, tag_hmtx, tag_maxp, tag_loca, tag_glyf,
    tag_kern, tag_gpos, OFFSET_TABLE_SIZE, TABLE_RECORD_SIZE,
};
use crate::tables::cmap::{
    CmapTable, EncodingRecord, SupportedCmapFormats, encoding_at, subtable_offset, subtables_error, selected,
    subtable_wf,
};
use crate::tables::head::{HeadTable, head_at};
use crate::tables::hhea::{HheaTable, hhea_at};
use crate::tables::maxp::{MaxpTable, maxp_at};
use crate::tables::hmtx::{HmtxTable, hmtx_at, hmtx_fits};
use crate::tables::loca::LocaTable;
use crate::tables::kern::{kern_table_apply, all_wf};
use crate::tables::gpos::{ClassPairTable, gpos_state, matrices_at};
use crate::outline::GlyphOutline;
use crate::glyph_index::{code_point_keys, subtable_index, glyph_outline};

verus! {

/// Offset of the first table of `s` tagged `tag` (0 when there is none).
pub open spec fn table_offset(s: Seq<u8>, tag: Seq<u8>) -> int {
    match dir_index(s, tag) {
        Some(i) => dir_offset(s, i) as int,
        None => 0,
    }
}

/// The encoding records of the `cmap` table of `s`.
pub open spec fn encodings_of(s: Seq<u8>) -> Seq<EncodingRecord> {
    let off = table_offset(s, tag_cmap());
    Seq::new(spec_u16(s, off + 2) as nat, |k: int| encoding_at(s, off, k))
}

/// The subtable formats the encoding records of the `cmap` table of `s` point at.
pub open spec fn formats_of(s: Seq<u8>) -> Seq<u16> {
    let off = table_offset(s, tag_cmap());
    let encs = encodings_of(s);
    Seq::new(encs.len(), |k: int| spec_u16(s, subtable_offset(off, encs[k])))
}

/// Number of glyphs the `maxp` table of `s` declares.
pub open spec fn num_glyphs_of(s: Seq<u8>) -> u16 {
    maxp_at(s, table_offset(s, tag_maxp())).num_glyphs
}

/// Why the offset table and directory of `s` cannot be read.
pub open spec fn dir_error(s: Seq<u8>) -> Option<FontError> {
    if s.len() < OFFSET_TABLE_SIZE {
        Some(FontError::InvalidFile)
    } else if !fits(s, OFFSET_TABLE_SIZE as int, TABLE_RECORD_SIZE * dir_len(s)) {
        Some(FontError::UnexpectedEndOfFile)
    } else {
        None
    }
}

/// Why the `cmap` table of `s` cannot be loaded.
pub open spec fn cmap_error(s: Seq<u8>) -> Option<FontError> {
    let fmts = formats_of(s);
    if dir_index(s, tag_cmap()) is None {
        Some(FontError::TableNotFound("cmap"))
    } else {
        subtables_error(s, table_offset(s, tag_cmap()), encodings_of(s), fmts, fmts.len() as int)
    }
}

/// Why the metric and outline tables of `s` cannot be loaded, checked in
/// order: `hhea`, `head`, `maxp`, `loca` (format and size), `glyf`, `hmtx`.
pub open spec fn metrics_error(s: Seq<u8>) -> Option<FontError> {
    let fmt = head_at(s, table_offset(s, tag_head())).index_to_loc_format;
    let entries = num_glyphs_of(s) + 1;
    let loca = table_offset(s, tag_loca());
    if dir_index(s, tag_hhea()) is None {
        Some(FontError::TableNotFound("hhea"))
    } else if dir_index(s, tag_head()) is None {
        Some(FontError::TableNotFound("head"))
    } else if dir_index(s, tag_maxp()) is None {
        Some(FontError::TableNotFound("maxp"))
    } else if dir_index(s, tag_loca()) is None {
        Some(FontError::TableNotFound("loca"))
    } else if fmt == 0 && !fits(s, loca, entries * 2) {
        Some(FontError::UnexpectedEndOfFile)
    } else if fmt == 1 && !fits(s, loca, entries * 4) {
        Some(FontError::UnexpectedEndOfFile)
    } else if fmt != 0 && fmt != 1 {
        Some(FontError::InvalidFile)
    } else if dir_index(s, tag_glyf()) is None {
        Some(FontError::TableNotFound("glyf"))
    } else if dir_index(s, tag_hmtx()) is None {
        Some(FontError::TableNotFound("hmtx"))
    } else {
        None
    }
}

/// Why `s` is not a loadable font: the first problem met in loading order
/// (directory, `cmap`, then the metric and outline tables).
pub open spec fn load_error(s: Seq<u8>) -> Option<FontError> {
    match dir_error(s) {
        Some(e) => Some(e),
        None => match cmap_error(s) {
            Some(e) => Some(e),
            None => metrics_error(s),
        },
    }
}

/// The pairs of the first `kern` table of `s`, if any.
pub open spec fn kern_pairs_of(s: Seq<u8>) -> Map<u64, i16> {
    let t = table_offset(s, tag_kern());
    if dir_index(s, tag_kern()) is Some {
        kern_table_apply(s, t, Map::empty(), spec_u16(s, t + 2) as int)
    } else {
        Map::empty()
    }
}

/// `offset_table` and `tables` are the offset table and directory of `s`.
pub open spec fn dir_loaded(s: Seq<u8>, offset_table: OffsetTable, tables: Seq<TableRecord>) -> bool {
    &&& offset_table == offset_table_of(s)
    &&& tables.len() == dir_len(s)
    &&& tables_match(s, tables)
}

/// `c` is the `cmap` table of `s` with its best subtable kept.
pub open spec fn cmap_loaded(s: Seq<u8>, c: CmapTable) -> bool {
    let cmap_off = table_offset(s, tag_cmap());
    &&& c.offset == cmap_off
    &&& c.encodings@ == encodings_of(s)
    &&& c.encoding_formats@ == formats_of(s)
    &&& selected(s, cmap_off, encodings_of(s), formats_of(s), Seq::empty(), c.subtables@)
    &&& forall|k: int| 0 <= k < c.subtables@.len() ==> subtable_wf(#[trigger] c.subtables@[k])
}

/// The metric and outline tables found through directory `tables` of `s`.
pub open spec fn metrics_loaded(
    s: Seq<u8>,
    tables: Seq<TableRecord>,
    hhea: HheaTable,
    head: HeadTable,
    maxp: MaxpTable,
    loca: LocaTable,
    glyf: TableRecord,
    hmtx: HmtxTable,
) -> bool {
    let ng = num_glyphs_of(s);
    let hm_off = table_offset(s, tag_hmtx());
    let nhm = hhea_at(s, table_offset(s, tag_hhea())).number_of_h_metrics;
    let loca_off = table_offset(s, tag_loca()) as u32;
    &&& hhea == hhea_at(s, table_offset(s, tag_hhea()))
    &&& head == head_at(s, table_offset(s, tag_head()))
    &&& maxp == maxp_at(s, table_offset(s, tag_maxp()))
    &&& loca == if head.index_to_loc_format == 0 {
        LocaTable::Short { offset: loca_off }
    } else {
        LocaTable::Long { offset: loca_off }
    }
    &&& glyf == tables[dir_index(s, tag_glyf())->0]
    &&& hmtx_fits(s, hm_off, nhm, ng) ==> hmtx_at(s, hm_off, nhm, ng, hmtx)
    &&& !hmtx_fits(s, hm_off, nhm, ng) ==> hmtx.h_metrics@.len() == 0 && hmtx.left_side_bearings@.len() == 0
}

/// `ids` is the character index built from the kept subtables `subs` for
/// the `num_glyphs` of `s`, and `slots` holds the outline of every glyph.
pub open spec fn glyphs_loaded(
    s: Seq<u8>,
    loca: LocaTable,
    glyf: TableRecord,
    subs: Seq<SupportedCmapFormats>,
    ids: Map<u64, u32>,
    slots: Seq<Option<GlyphOutline>>,
) -> bool {
    let ng = num_glyphs_of(s);
    &&& ids == if subs.len() > 0 {
        subtable_index(Map::empty(), subs[0], ng as int)
    } else {
        Map::empty()
    }
    &&& slots.len() == ng
    &&& forall|j: int|
        0 <= j < ng ==> (#[trigger] slots[j]) is Some && slots[j]->0@ == glyph_outline(s, loca, glyf, ng, j)
}

/// `kern` and `matrices` are the kerning of the `kern` and GPOS tables of `s`.
pub open spec fn kerning_loaded(s: Seq<u8>, kern: Map<u64, i16>, matrices: Seq<ClassPairTable>) -> bool {
    &&& dir_index(s, tag_gpos()) is Some ==> {
        let st = gpos_state(s, table_offset(s, tag_gpos()), kern_pairs_of(s));
        kern == st.0 && matrices_at(s, st.1, matrices)
    }
    &&& dir_index(s, tag_gpos()) is None ==> kern == kern_pairs_of(s) && matrices.len() == 0
}

/// What a font loaded from `s` holds: the directory, the tables found
/// through it, the kept `cmap` subtable, the character index and glyph
/// outlines it reaches, the kerning of `kern` and GPOS, and an empty cache.
pub open spec fn loaded_font(s: Seq<u8>, f: TrueTypeFont) -> bool {
    &&& dir_loaded(s, f.offset_table, f.tables@)
    &&& cmap_loaded(s, f.cmap)
    &&& metrics_loaded(s, f.tables@, f.hhea, f.head, f.maxp, f.loca, f.glyf, f.hmtx)
    &&& glyphs_loaded(s, f.loca, f.glyf, f.cmap.subtables@, f.glyph_id_table@, f.glyph_data_table@)
    &&& kerning_loaded(s, f.kern_table@, f.gpos_kern@)
    &&& f.cache@.dom().len() == 0
}

impl TrueTypeFont {
    /// The invariant that lookups and rendering rely on.
    pub open spec fn wf(&self) -> bool {
        &&& self.glyph_id_table.wf()
        &&& code_point_keys(self.glyph_id_table@)
        &&& self.cache.wf()
        &&& forall|k: int| 0 <= k < self.cmap.subtables@.len() ==> subtable_wf(#[trigger] self.cmap.subtables@[k])
        &&& all_wf(self.gpos_kern@)
    }
}

impl TrueTypeFont {
    /// Reads the offset table and the table directory.
    fn load_directory(&mut self, font_bytes: &[u8]) -> (r: Result<(), FontError>)
        requires
            old(self).tables@.len() == 0,
        ensures
            r matches Err(e) ==> dir_error(font_bytes@) == Some(e),
            r is Ok ==> dir_error(font_bytes@) is None && dir_loaded(font_bytes@, final(self).offset_table, final(self).tables@) && *final(self)
                == (TrueTypeFont {
                offset_table: final(self).offset_table,
                tables: final(self).tables,
                ..*old(self)
            }),
    {
        let ghost s = font_bytes@;
        match self.load_offset_table(font_bytes) {
            Ok(()) => {},
            Err(e) => return Err(e),
        }
        match self.load_tables(font_bytes) {
            Ok(()) => {},
            Err(e) => return Err(e),
        }
        proof {
            assert(tables_match(s, self.tables@)) by {
                assert forall|i: int| 0 <= i < self.tables@.len() implies #[trigger] crate::font::record_at(
                    s,
                    crate::font::record_offset(i),
                    self.tables@[i],
                ) by {
                    assert(self.tables@[0 + i] == self.tables@[i]);
                }
            }
        }
        Ok(())
    }

    /// Reads the `cmap` table and keeps its best subtable.
    fn load_cmap_all(&mut self, font_bytes: &[u8]) -> (r: Result<(), FontError>)
        requires
            old(self).tables@.len() == dir_len(font_bytes@),
            tables_match(font_bytes@, old(self).tables@),
            old(self).cmap.encodings@.len() == 0,
            old(self).cmap.encoding_formats@.len() == 0,
            old(self).cmap.subtables@.len() == 0,
        ensures
            r matches Err(e) ==> cmap_error(font_bytes@) == Some(e),
            r is Ok ==> cmap_error(font_bytes@) is None && cmap_loaded(font_bytes@, final(self).cmap)
                && *final(self) == (TrueTypeFont { cmap: final(self).cmap, ..*old(self) }),
    {
        let ghost s = font_bytes@;
        proof {
            lemma_find_dir(s, self.tables@, tag_cmap());
        }
        match self.load_cmap(font_bytes) {
            Ok(()) => {},
            Err(e) => return Err(e),
        }
        self.load_cmap_encodings(font_bytes);
        self.load_cmap_subtable_formats(font_bytes);
        proof {
            assert(self.cmap.encodings@ =~= encodings_of(s));
            assert(self.cmap.encoding_formats@ =~= formats_of(s));
        }
        match self.load_cmap_subtables(font_bytes) {
            Ok(()) => {},
            Err(e) => return Err(e),
        }
        Ok(())
    }

    /// Reads `hhea`, `head`, `maxp`, `loca`, `glyf` and `hmtx`.
    fn load_metrics(&mut self, font_bytes: &[u8]) -> (r: Result<(), FontError>)
        requires
            old(self).tables@.len() == dir_len(font_bytes@),
            tables_match(font_bytes@, old(self).tables@),
            old(self).hmtx.h_metrics@.len() == 0,
            old(self).hmtx.left_side_bearings@.len() == 0,
        ensures
            r matches Err(e) ==> metrics_error(font_bytes@) == Some(e),
            r is Ok ==> metrics_error(font_bytes@) is None && metrics_loaded(
                font_bytes@,
                final(self).tables@,
                final(self).hhea,
                final(self).head,
                final(self).maxp,
                final(self).loca,
                final(self).glyf,
                final(self).hmtx,
            )
                && *final(self) == (TrueTypeFont {
                hhea: final(self).hhea,
                head: final(self).head,
                maxp: final(self).maxp,
                loca: final(self).loca,
                glyf: final(self).glyf,
                hmtx: final(self).hmtx,
                ..*old(self)
            }),
    {
        let ghost s = font_bytes@;
        proof {
            lemma_find_dir(s, self.tables@, tag_hhea());
            lemma_find_dir(s, self.tables@, tag_head());
            lemma_find_dir(s, self.tables@, tag_maxp());
            lemma_find_dir(s, self.tables@, tag_loca());
            lemma_find_dir(s, self.tables@, tag_glyf());
            lemma_find_dir(s, self.tables@, tag_hmtx());
        }
        match self.load_hhea(font_bytes) {
            Ok(()) => {},
            Err(e) => return Err(e),
        }
        match self.load_head(font_bytes) {
            Ok(()) => {},
            Err(e) => return Err(e),
        }
        match self.load_maxp(font_bytes) {
            Ok(()) => {},
            Err(e) => return Err(e),
        }
        match self.load_loca(font_bytes) {
            Ok(()) => {},
            Err(e) => return Err(e),
        }
        match self.load_glyf() {
            Ok(()) => {},
            Err(e) => return Err(e),
        }
        match self.load_hmtx(font_bytes) {
            Ok(()) => {},
            Err(e) => return Err(e),
        }
        Ok(())
    }

    /// Builds the character index and glyph outlines, then reads the kerning.
    fn load_glyphs_and_kerning(&mut self, font_bytes: &[u8])
        requires
            old(self).tables@.len() == dir_len(font_bytes@),
            tables_match(font_bytes@, old(self).tables@),
            old(self).maxp == maxp_at(font_bytes@, table_offset(font_bytes@, tag_maxp())),
            old(self).glyph_data_table@.len() == 0,
            old(self).glyph_id_table.wf(),
            old(self).glyph_id_table@ == Map::<u64, u32>::empty(),
            old(self).kern_table@ == Map::<u64, i16>::empty(),
            old(self).gpos_kern@.len() == 0,
            forall|k: int| 0 <= k < old(self).cmap.subtables@.len() ==> subtable_wf(
                #[trigger] old(self).cmap.subtables@[k],
            ),
        ensures
            glyphs_loaded(
                font_bytes@,
                old(self).loca,
                old(self).glyf,
                old(self).cmap.subtables@,
                final(self).glyph_id_table@,
                final(self).glyph_data_table@,
            ),
            kerning_loaded(font_bytes@, final(self).kern_table@, final(self).gpos_kern@),
            final(self).glyph_id_table.wf(),
            code_point_keys(final(self).glyph_id_table@),
            all_wf(final(self).gpos_kern@),
            *final(self) == (TrueTypeFont {
                glyph_data_table: final(self).glyph_data_table,
                glyph_id_table: final(self).glyph_id_table,
                kern_table: final(self).kern_table,
                gpos_kern: final(self).gpos_kern,
                ..*old(self)
            }),
    {
        let ghost s = font_bytes@;
        self.cache_all_glyphs(font_bytes);
        proof {
            lemma_find_dir(s, self.tables@, tag_kern());
            lemma_find_dir(s, self.tables@, tag_gpos());
        }
        self.load_kerning_pairs(font_bytes);
        proof {
            assert(self.kern_table@ == kern_pairs_of(s));
        }
        let ghost before_gpos = *self;
        self.load_gpos_kerning(font_bytes);
        proof {
            if dir_index(s, tag_gpos()) is Some {
                let st = gpos_state(s, table_offset(s, tag_gpos()), kern_pairs_of(s));
                assert(matrices_at(s, st.1, self.gpos_kern@));
                assert forall|q: int| 0 <= q < self.gpos_kern@.len() implies #[trigger] self.gpos_kern@[q].wf() by {
                    assert(crate::tables::gpos::pp2_at(s, st.1[q], self.gpos_kern@[q]));
                }
            } else {
                assert(self.gpos_kern@ == before_gpos.gpos_kern@);
            }
        }
    }

    /// Loads a font from its bytes; fails with the first problem
    /// [`load_error`] finds, and never panics.
    pub fn load_font(font_bytes: &[u8]) -> (r: Result<TrueTypeFont, FontError>)
        ensures
            r matches Err(e) ==> load_error(font_bytes@) == Some(e),
            r matches Ok(f) ==> load_error(font_bytes@) is None && f.wf() && loaded_font(font_bytes@, f),
    {
        let ghost s = font_bytes@;
        let mut font = TrueTypeFont::new();
        match font.load_directory(font_bytes) {
            Ok(()) => {},
            Err(e) => return Err(e),
        }
        match font.load_cmap_all(font_bytes) {
            Ok(()) => {},
            Err(e) => return Err(e),
        }
        match font.load_metrics(font_bytes) {
            Ok(()) => {},
            Err(e) => return Err(e),
        }
        font.load_glyphs_and_kerning(font_bytes);
        Ok(font)
    }
}

} // verus!
