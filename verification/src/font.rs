//! The font: table directory, loaded tables and the loading pipeline.

use vstd::prelude::*;
use std::collections::HashMap;
use crate::bytes::{spec_u16, spec_u32, spec_u8, rd8, rd16, rd32, fits, fits_at};
use crate::cache::Cache;
use crate::fastmap::FastMap;
use crate::outline::GlyphOutline;
use crate::tables::cmap::CmapTable;
use crate::tables::gpos::ClassPairTable;
use crate::tables::head::{HeadTable, head_at};
use crate::tables::hhea::{HheaTable, hhea_at};
use crate::tables::hmtx::{HmtxTable, hmtx_at, hmtx_fits};
use crate::tables::loca::LocaTable;
use crate::tables::maxp::{MaxpTable, maxp_at};

verus! {

/// Why a font could not be loaded.
#[derive(Debug, Clone, Copy)]
pub enum FontError {
    /// A required table is missing; the payload is its tag.
    TableNotFound(&'static str),
    /// A structure runs past the end of the data.
    UnexpectedEndOfFile,
    /// A structure holds values no valid font has.
    InvalidFile,
}

/// The offset table that starts every TrueType file.
#[derive(Copy, Clone, Debug)]
pub struct OffsetTable {
    pub _scaler_type: u32,
    pub num_tables: u16,
    pub _search_range: u16,
    pub _entry_selector: u16,
    pub _range_shift: u16,
}

/// One entry of the table directory.
#[derive(Copy, Clone, Debug)]
pub struct TableRecord {
    pub table_tag: [u8; 4],
    pub check_sum: u32,
    pub offset: u32,
    pub length: u32,
}

/// Size of the offset table in bytes.
pub const OFFSET_TABLE_SIZE: usize = 12;

/// Size of one table record in bytes.
pub const TABLE_RECORD_SIZE: usize = 16;

/// The offset table stored at the start of `s`.
pub open spec fn offset_table_of(s: Seq<u8>) -> OffsetTable {
    OffsetTable {
        _scaler_type: spec_u32(s, 0),
        num_tables: spec_u16(s, 4),
        _search_range: spec_u16(s, 6),
        _entry_selector: spec_u16(s, 8),
        _range_shift: spec_u16(s, 10),
    }
}

/// `r` is the table record stored at `off` in `s`.
pub open spec fn record_at(s: Seq<u8>, off: int, r: TableRecord) -> bool {
    &&& r.table_tag@ == seq![spec_u8(s, off), spec_u8(s, off + 1), spec_u8(s, off + 2), spec_u8(s, off + 3)]
    &&& r.check_sum == spec_u32(s, off + 4)
    &&& r.offset == spec_u32(s, off + 8)
    &&& r.length == spec_u32(s, off + 12)
}

/// Index of the first record in `tables` tagged `tag`, if any.
pub open spec fn find_table(tables: Seq<TableRecord>, tag: Seq<u8>) -> Option<int>
    decreases tables.len(),
{
    if tables.len() == 0 {
        None
    } else {
        match find_table(tables.drop_last(), tag) {
            Some(i) => Some(i),
            None => if tables.last().table_tag@ == tag {
                Some(tables.len() - 1)
            } else {
                None
            },
        }
    }
}

impl TableRecord {
    /// An all-zero record.
    pub fn new() -> (r: TableRecord)
        ensures
            r.table_tag@ == seq![0u8, 0u8, 0u8, 0u8],
            r.check_sum == 0,
            r.offset == 0,
            r.length == 0,
    {
        let r = TableRecord { table_tag: [0; 4], check_sum: 0, offset: 0, length: 0 };
        assert(r.table_tag@ =~= seq![0u8, 0u8, 0u8, 0u8]);
        r
    }
}

impl OffsetTable {
    /// An all-zero offset table.
    pub fn new() -> (r: OffsetTable)
        ensures
            r == offset_table_of(Seq::empty()),
    {
        OffsetTable {
            _scaler_type: 0,
            num_tables: 0,
            _search_range: 0,
            _entry_selector: 0,
            _range_shift: 0,
        }
    }
}

/// Whether two tags are equal.
pub fn same_tag(a: &[u8; 4], b: &[u8; 4]) -> (r: bool)
    ensures
        r == (a@ == b@),
{
    let r = a[0] == b[0] && a[1] == b[1] && a[2] == b[2] && a[3] == b[3];
    proof {
        if r {
            assert(a@ =~= b@);
        }
    }
    r
}

/// Index of the first record tagged `tag`.
pub fn find_table_index(tables: &Vec<TableRecord>, tag: &[u8; 4]) -> (r: Option<usize>)
    ensures
        r matches Some(i) ==> find_table(tables@, tag@) == Some(i as int) && i < tables@.len(),
        r is None ==> find_table(tables@, tag@) is None,
{
    let mut i: usize = 0;
    while i < tables.len()
        invariant
            i <= tables@.len(),
            find_table(tables@.take(i as int), tag@) is None,
        decreases tables@.len() - i,
    {
        proof {
            assert(tables@.take(i + 1).drop_last() =~= tables@.take(i as int));
        }
        if same_tag(&tables[i].table_tag, tag) {
            proof {
                lemma_find_table_prefix(tables@, i + 1, tag@);
                lemma_find_range(tables@, tag@);
            }
            return Some(i);
        }
        i = i + 1;
    }
    proof {
        assert(tables@.take(i as int) =~= tables@);
    }
    None
}

proof fn lemma_find_table_prefix(tables: Seq<TableRecord>, n: int, tag: Seq<u8>)
    requires
        0 < n <= tables.len(),
        find_table(tables.take(n - 1), tag) is None,
        tables[n - 1].table_tag@ == tag,
    ensures
        find_table(tables, tag) == Some(n - 1),
    decreases tables.len() - n,
{
    if n == tables.len() {
        assert(tables.take(n - 1) =~= tables.drop_last());
    } else {
        assert(tables.drop_last().take(n - 1) =~= tables.take(n - 1));
        lemma_find_table_prefix(tables.drop_last(), n, tag);
    }
}

// ---------------------------------------------------------------------------
// The table directory as stored in the file
// ---------------------------------------------------------------------------

/// Number of records in the table directory of `s`.
pub open spec fn dir_len(s: Seq<u8>) -> int {
    spec_u16(s, 4) as int
}

/// Offset of directory record `i`.
pub open spec fn record_offset(i: int) -> int {
    OFFSET_TABLE_SIZE + TABLE_RECORD_SIZE * i
}

/// Tag of directory record `i` of `s`.
pub open spec fn tag_at(s: Seq<u8>, i: int) -> Seq<u8> {
    let o = record_offset(i);
    seq![spec_u8(s, o), spec_u8(s, o + 1), spec_u8(s, o + 2), spec_u8(s, o + 3)]
}

/// Index of the first of the first `n` directory records of `s` tagged `tag`.
pub open spec fn dir_find(s: Seq<u8>, n: int, tag: Seq<u8>) -> Option<int>
    decreases n,
{
    if n <= 0 {
        None
    } else {
        match dir_find(s, n - 1, tag) {
            Some(i) => Some(i),
            None => if tag_at(s, n - 1) == tag {
                Some(n - 1)
            } else {
                None
            },
        }
    }
}

/// Index of the first directory record of `s` tagged `tag`.
pub open spec fn dir_index(s: Seq<u8>, tag: Seq<u8>) -> Option<int> {
    dir_find(s, dir_len(s), tag)
}

/// Offset field of directory record `i`.
pub open spec fn dir_offset(s: Seq<u8>, i: int) -> u32 {
    spec_u32(s, record_offset(i) + 8)
}

/// Length field of directory record `i`.
pub open spec fn dir_length(s: Seq<u8>, i: int) -> u32 {
    spec_u32(s, record_offset(i) + 12)
}

/// Tag bytes of a table.
pub open spec fn tag4(a: u8, b: u8, c: u8, d: u8) -> Seq<u8> {
    seq![a, b, c, d]
}

pub open spec fn tag_cmap() -> Seq<u8> { tag4(0x63, 0x6D, 0x61, 0x70) }
pub open spec fn tag_head() -> Seq<u8> { tag4(0x68, 0x65, 0x61, 0x64) }
pub open spec fn tag_hhea() -> Seq<u8> { tag4(0x68, 0x68, 0x65, 0x61) }
pub open spec fn tag_hmtx() -> Seq<u8> { tag4(0x68, 0x6D, 0x74, 0x78) }
pub open spec fn tag_maxp() -> Seq<u8> { tag4(0x6D, 0x61, 0x78, 0x70) }
pub open spec fn tag_loca() -> Seq<u8> { tag4(0x6C, 0x6F, 0x63, 0x61) }
pub open spec fn tag_glyf() -> Seq<u8> { tag4(0x67, 0x6C, 0x79, 0x66) }
pub open spec fn tag_kern() -> Seq<u8> { tag4(0x6B, 0x65, 0x72, 0x6E) }
pub open spec fn tag_gpos() -> Seq<u8> { tag4(0x47, 0x50, 0x4F, 0x53) }

/// A tag as an array.
pub fn make_tag(a: u8, b: u8, c: u8, d: u8) -> (r: [u8; 4])
    ensures
        r@ == tag4(a, b, c, d),
{
    let r = [a, b, c, d];
    assert(r@ =~= tag4(a, b, c, d));
    r
}

/// `tables` are the first records of the directory of `s`.
pub open spec fn tables_match(s: Seq<u8>, tables: Seq<TableRecord>) -> bool {
    forall|i: int| 0 <= i < tables.len() ==> #[trigger] record_at(s, record_offset(i), tables[i])
}

proof fn lemma_find_matches(s: Seq<u8>, tables: Seq<TableRecord>, n: int, tag: Seq<u8>)
    requires
        0 <= n <= tables.len(),
        tables_match(s, tables),
    ensures
        find_table(tables.take(n), tag) == dir_find(s, n, tag),
    decreases n,
{
    if n > 0 {
        lemma_find_matches(s, tables, n - 1, tag);
        assert(tables.take(n).drop_last() =~= tables.take(n - 1));
        assert(record_at(s, record_offset(n - 1), tables[n - 1]));
        assert(tables.take(n).last() == tables[n - 1]);
    }
}

/// Looking a tag up in records matching the whole directory is looking it up in the file.
pub proof fn lemma_find_dir(s: Seq<u8>, tables: Seq<TableRecord>, tag: Seq<u8>)
    requires
        tables.len() == dir_len(s),
        tables_match(s, tables),
    ensures
        find_table(tables, tag) == dir_index(s, tag),
        find_table(tables, tag) matches Some(i) ==> 0 <= i < tables.len() && tables[i].offset
            == dir_offset(s, i) && tables[i].length == dir_length(s, i),
{
    lemma_find_matches(s, tables, tables.len() as int, tag);
    assert(tables.take(tables.len() as int) =~= tables);
    lemma_find_range(tables, tag);
    match find_table(tables, tag) {
        Some(i) => {
            assert(record_at(s, record_offset(i), tables[i]));
        },
        None => {},
    }
}

proof fn lemma_find_range(tables: Seq<TableRecord>, tag: Seq<u8>)
    ensures
        find_table(tables, tag) matches Some(i) ==> 0 <= i < tables.len() && tables[i].table_tag@ == tag,
    decreases tables.len(),
{
    if tables.len() > 0 {
        lemma_find_range(tables.drop_last(), tag);
    }
}

// ---------------------------------------------------------------------------
// The font
// ---------------------------------------------------------------------------

/// A loaded TrueType font.
pub struct TrueTypeFont {
    pub offset_table: OffsetTable,
    pub tables: Vec<TableRecord>,
    pub cmap: CmapTable,
    pub head: HeadTable,
    pub loca: LocaTable,
    pub maxp: MaxpTable,
    pub glyf: TableRecord,
    pub hhea: HheaTable,
    pub hmtx: HmtxTable,
    /// Outline of every glyph of the font, by glyph id.
    pub glyph_data_table: Vec<Option<GlyphOutline>>,
    /// Glyph index of every mapped character (keyed by code point).
    pub glyph_id_table: FastMap<u32>,
    /// Explicit kerning pairs (legacy `kern` and GPOS format 1), keyed by glyph pair.
    pub kern_table: HashMap<u64, i16>,
    /// GPOS class-matrix kerning subtables.
    pub gpos_kern: Vec<ClassPairTable>,
    /// Rendered bitmaps.
    pub cache: Cache,
}

impl TrueTypeFont {
    /// A font with no tables loaded.
    pub fn new() -> (r: Self)
        ensures
            r.offset_table == offset_table_of(Seq::empty()),
            r.tables@.len() == 0,
            r.cmap.encodings@.len() == 0,
            r.cmap.encoding_formats@.len() == 0,
            r.cmap.subtables@.len() == 0,
            r.glyph_data_table@.len() == 0,
            r.glyph_id_table.wf(),
            r.glyph_id_table@ == Map::<u64, u32>::empty(),
            r.kern_table@ == Map::<u64, i16>::empty(),
            r.gpos_kern@.len() == 0,
            r.cache.wf(),
            r.cache@.dom().len() == 0,
            r.hmtx.h_metrics@.len() == 0,
            r.hmtx.left_side_bearings@.len() == 0,
            r.loca == LocaTable::Empty,
    {
        TrueTypeFont {
            offset_table: OffsetTable::new(),
            tables: Vec::new(),
            cmap: CmapTable::new(),
            head: HeadTable::new(),
            loca: LocaTable::Empty,
            maxp: MaxpTable::new(),
            glyf: TableRecord::new(),
            hhea: HheaTable::new(),
            hmtx: HmtxTable::new(),
            glyph_data_table: Vec::new(),
            glyph_id_table: FastMap::new(),
            kern_table: HashMap::new(),
            gpos_kern: Vec::new(),
            cache: Cache::new(),
        }
    }

    /// Reads the offset table; the data must hold at least its 12 bytes.
    pub fn load_offset_table(&mut self, font_bytes: &[u8]) -> (r: Result<(), FontError>)
        ensures
            font_bytes@.len() < OFFSET_TABLE_SIZE ==> r == Err::<(), FontError>(FontError::InvalidFile)
                && *final(self) == *old(self),
            font_bytes@.len() >= OFFSET_TABLE_SIZE ==> r is Ok && *final(self) == (TrueTypeFont {
                offset_table: offset_table_of(font_bytes@),
                ..*old(self)
            }),
    {
        if font_bytes.len() >= OFFSET_TABLE_SIZE {
            self.offset_table = OffsetTable {
                _scaler_type: rd32(font_bytes, 0, 0),
                num_tables: rd16(font_bytes, 0, 4),
                _search_range: rd16(font_bytes, 0, 6),
                _entry_selector: rd16(font_bytes, 0, 8),
                _range_shift: rd16(font_bytes, 0, 10),
            };
            Ok(())
        } else {
            Err(FontError::InvalidFile)
        }
    }

    /// Reads the table directory (`offset_table.num_tables` records); it
    /// must lie inside the data.
    pub fn load_tables(&mut self, font_bytes: &[u8]) -> (r: Result<(), FontError>)
        ensures
            !fits(font_bytes@, OFFSET_TABLE_SIZE as int, TABLE_RECORD_SIZE * old(self).offset_table.num_tables)
                ==> r == Err::<(), FontError>(FontError::UnexpectedEndOfFile) && *final(self) == *old(self),
            fits(font_bytes@, OFFSET_TABLE_SIZE as int, TABLE_RECORD_SIZE * old(self).offset_table.num_tables)
                ==> r is Ok && *final(self) == (TrueTypeFont { tables: final(self).tables, ..*old(self) })
                && final(self).tables@.len() == old(self).tables@.len() + old(self).offset_table.num_tables
                && final(self).tables@.take(old(self).tables@.len() as int) == old(self).tables@
                && forall|i: int| 0 <= i < old(self).offset_table.num_tables ==> #[trigger] record_at(
                    font_bytes@,
                    record_offset(i),
                    final(self).tables@[old(self).tables@.len() + i],
                ),
    {
        let n = self.offset_table.num_tables as usize;
        if !fits_at(font_bytes, OFFSET_TABLE_SIZE, TABLE_RECORD_SIZE * n) {
            return Err(FontError::UnexpectedEndOfFile);
        }
        let ghost t0 = self.tables@;
        let mut i: usize = 0;
        while i < n
            invariant
                i <= n,
                n == old(self).offset_table.num_tables,
                *self == (TrueTypeFont { tables: self.tables, ..*old(self) }),
                t0 == old(self).tables@,
                self.tables@.len() == t0.len() + i,
                self.tables@.take(t0.len() as int) == t0,
                forall|j: int| 0 <= j < i ==> #[trigger] record_at(
                    font_bytes@,
                    record_offset(j),
                    self.tables@[t0.len() + j],
                ),
            decreases n - i,
        {
            let offset = OFFSET_TABLE_SIZE + TABLE_RECORD_SIZE * i;
            let table = TableRecord {
                table_tag: [
                    rd8(font_bytes, offset, 0),
                    rd8(font_bytes, offset, 1),
                    rd8(font_bytes, offset, 2),
                    rd8(font_bytes, offset, 3),
                ],
                check_sum: rd32(font_bytes, offset, 4),
                offset: rd32(font_bytes, offset, 8),
                length: rd32(font_bytes, offset, 12),
            };
            assert(table.table_tag@ =~= seq![
                spec_u8(font_bytes@, offset as int),
                spec_u8(font_bytes@, offset + 1),
                spec_u8(font_bytes@, offset + 2),
                spec_u8(font_bytes@, offset + 3),
            ]);
            let ghost before = self.tables@;
            self.tables.push(table);
            proof {
                assert(self.tables@.take(t0.len() as int) =~= before.take(t0.len() as int));
            }
            i = i + 1;
        }
        Ok(())
    }
}

impl TrueTypeFont {
    /// Reads the `hhea` table.
    pub fn load_hhea(&mut self, font_bytes: &[u8]) -> (r: Result<(), FontError>)
        ensures
            find_table(old(self).tables@, tag_hhea()) is None ==> r == Err::<(), FontError>(
                FontError::TableNotFound("hhea"),
            ) && *final(self) == *old(self),
            find_table(old(self).tables@, tag_hhea()) matches Some(i) ==> r is Ok && *final(self) == (
            TrueTypeFont { hhea: hhea_at(font_bytes@, old(self).tables@[i].offset as int), ..*old(self) }),
    {
        let tag = make_tag(0x68, 0x68, 0x65, 0x61);
        match find_table_index(&self.tables, &tag) {
            Some(i) => {
                self.hhea = HheaTable::parse(font_bytes, self.tables[i].offset as usize);
                Ok(())
            },
            None => Err(FontError::TableNotFound("hhea")),
        }
    }

    /// Reads the `head` table.
    pub fn load_head(&mut self, font_bytes: &[u8]) -> (r: Result<(), FontError>)
        ensures
            find_table(old(self).tables@, tag_head()) is None ==> r == Err::<(), FontError>(
                FontError::TableNotFound("head"),
            ) && *final(self) == *old(self),
            find_table(old(self).tables@, tag_head()) matches Some(i) ==> r is Ok && *final(self) == (
            TrueTypeFont { head: head_at(font_bytes@, old(self).tables@[i].offset as int), ..*old(self) }),
    {
        let tag = make_tag(0x68, 0x65, 0x61, 0x64);
        match find_table_index(&self.tables, &tag) {
            Some(i) => {
                self.head = HeadTable::parse(font_bytes, self.tables[i].offset as usize);
                Ok(())
            },
            None => Err(FontError::TableNotFound("head")),
        }
    }

    /// Reads the `maxp` table.
    pub fn load_maxp(&mut self, font_bytes: &[u8]) -> (r: Result<(), FontError>)
        ensures
            find_table(old(self).tables@, tag_maxp()) is None ==> r == Err::<(), FontError>(
                FontError::TableNotFound("maxp"),
            ) && *final(self) == *old(self),
            find_table(old(self).tables@, tag_maxp()) matches Some(i) ==> r is Ok && *final(self) == (
            TrueTypeFont { maxp: maxp_at(font_bytes@, old(self).tables@[i].offset as int), ..*old(self) }),
    {
        let tag = make_tag(0x6D, 0x61, 0x78, 0x70);
        match find_table_index(&self.tables, &tag) {
            Some(i) => {
                self.maxp = MaxpTable::parse(font_bytes, self.tables[i].offset as usize);
                Ok(())
            },
            None => Err(FontError::TableNotFound("maxp")),
        }
    }

    /// Locates the `loca` table; its `num_glyphs + 1` offsets, 16-bit or
    /// 32-bit per `head.index_to_loc_format`, must lie inside the data.
    pub fn load_loca(&mut self, font_bytes: &[u8]) -> (r: Result<(), FontError>)
        ensures
            find_table(old(self).tables@, tag_loca()) is None ==> r == Err::<(), FontError>(
                FontError::TableNotFound("loca"),
            ) && *final(self) == *old(self),
            find_table(old(self).tables@, tag_loca()) matches Some(i) ==> {
                let off = old(self).tables@[i].offset;
                let entries = old(self).maxp.num_glyphs + 1;
                let fmt = old(self).head.index_to_loc_format;
                &&& fmt == 0 && !fits(font_bytes@, off as int, entries * 2) ==> r == Err::<(), FontError>(
                    FontError::UnexpectedEndOfFile,
                ) && *final(self) == *old(self)
                &&& fmt == 1 && !fits(font_bytes@, off as int, entries * 4) ==> r == Err::<(), FontError>(
                    FontError::UnexpectedEndOfFile,
                ) && *final(self) == *old(self)
                &&& fmt != 0 && fmt != 1 ==> r == Err::<(), FontError>(FontError::InvalidFile) && *final(self)
                    == *old(self)
                &&& fmt == 0 && fits(font_bytes@, off as int, entries * 2) ==> r is Ok && *final(self) == (
                TrueTypeFont { loca: LocaTable::Short { offset: off }, ..*old(self) })
                &&& fmt == 1 && fits(font_bytes@, off as int, entries * 4) ==> r is Ok && *final(self) == (
                TrueTypeFont { loca: LocaTable::Long { offset: off }, ..*old(self) })
            },
    {
        let tag = make_tag(0x6C, 0x6F, 0x63, 0x61);
        match find_table_index(&self.tables, &tag) {
            Some(i) => {
                let offset = self.tables[i].offset;
                let entries = self.maxp.num_glyphs as usize + 1;
                if self.head.index_to_loc_format == 0 {
                    if !fits_at(font_bytes, offset as usize, entries * 2) {
                        return Err(FontError::UnexpectedEndOfFile);
                    }
                    self.loca = LocaTable::Short { offset };
                } else if self.head.index_to_loc_format == 1 {
                    if !fits_at(font_bytes, offset as usize, entries * 4) {
                        return Err(FontError::UnexpectedEndOfFile);
                    }
                    self.loca = LocaTable::Long { offset };
                } else {
                    return Err(FontError::InvalidFile);
                }
                Ok(())
            },
            None => Err(FontError::TableNotFound("loca")),
        }
    }

    /// Records where the `glyf` table lies.
    pub fn load_glyf(&mut self) -> (r: Result<(), FontError>)
        ensures
            find_table(old(self).tables@, tag_glyf()) is None ==> r == Err::<(), FontError>(
                FontError::TableNotFound("glyf"),
            ) && *final(self) == *old(self),
            find_table(old(self).tables@, tag_glyf()) matches Some(i) ==> r is Ok && *final(self) == (
            TrueTypeFont { glyf: old(self).tables@[i], ..*old(self) }),
    {
        let tag = make_tag(0x67, 0x6C, 0x79, 0x66);
        match find_table_index(&self.tables, &tag) {
            Some(i) => {
                self.glyf = self.tables[i];
                Ok(())
            },
            None => Err(FontError::TableNotFound("glyf")),
        }
    }

    /// Reads the `hmtx` table (`hhea.number_of_h_metrics` long metrics,
    /// then side bearings up to `maxp.num_glyphs`); when they run past the
    /// end of the data the metrics stay as they were.
    pub fn load_hmtx(&mut self, font_bytes: &[u8]) -> (r: Result<(), FontError>)
        ensures
            find_table(old(self).tables@, tag_hmtx()) is None ==> r == Err::<(), FontError>(
                FontError::TableNotFound("hmtx"),
            ) && *final(self) == *old(self),
            find_table(old(self).tables@, tag_hmtx()) matches Some(i) ==> {
                let off = old(self).tables@[i].offset as int;
                let nhm = old(self).hhea.number_of_h_metrics;
                let ng = old(self).maxp.num_glyphs;
                &&& r is Ok
                &&& *final(self) == (TrueTypeFont { hmtx: final(self).hmtx, ..*old(self) })
                &&& hmtx_fits(font_bytes@, off, nhm, ng) ==> hmtx_at(font_bytes@, off, nhm, ng, final(self).hmtx)
                &&& !hmtx_fits(font_bytes@, off, nhm, ng) ==> final(self).hmtx == old(self).hmtx
            },
    {
        let tag = make_tag(0x68, 0x6D, 0x74, 0x78);
        match find_table_index(&self.tables, &tag) {
            Some(i) => {
                match HmtxTable::parse(
                    font_bytes,
                    self.tables[i].offset as usize,
                    self.hhea.number_of_h_metrics,
                    self.maxp.num_glyphs,
                ) {
                    Some(t) => {
                        self.hmtx = t;
                    },
                    None => {},
                }
                Ok(())
            },
            None => Err(FontError::TableNotFound("hmtx")),
        }
    }
}

} // verus!
