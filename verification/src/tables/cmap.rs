//! The `cmap` table: character code to glyph index mapping.
//!
//! Formats 0, 4, 6 and 12 are parsed; of all parsed subtables the one
//! with the best platform/encoding priority (Unicode, then Windows full
//! repertoire, then Windows BMP, then anything else; ties go to the first)
//! is kept.

use vstd::prelude::*;
use crate::bytes::{fits, spec_u8, spec_u16, spec_u32, spec_i16, rd8, rd16, rd32, rdi16, add_off};
use crate::tables::otl::{search_pos, lower_bound_u16};
use crate::bytes::sat;
use crate::font::{TrueTypeFont, FontError, find_table, make_tag, tag_cmap};

verus! {

/// Parsed `cmap` table.
pub struct CmapTable {
    pub offset: usize,
    pub header: CmapHeader,
    pub encodings: Vec<EncodingRecord>,
    pub encoding_formats: Vec<u16>,
    pub subtables: Vec<SupportedCmapFormats>,
}

/// The `cmap` header.
#[derive(Copy, Clone, Debug)]
pub struct CmapHeader {
    pub _version: u16,
    pub num_tables: u16,
}

/// One encoding record: which platform/encoding a subtable serves and where it is.
#[derive(Copy, Clone, Debug)]
pub struct EncodingRecord {
    pub platform_id: u16,
    pub encoding_id: u16,
    pub offset: u32,
}

/// The leading format field of a subtable.
#[derive(Copy, Clone, Debug)]
pub struct SubtableFormat {
    pub format: u16,
}

/// A parsed subtable of a supported format.
#[derive(Clone, Debug)]
#[allow(inconsistent_fields)]
pub enum SupportedCmapFormats {
    Format0 { platform_id: u16, encoding_id: u16, data: CmapFormat0 },
    Format4 { platform_id: u16, encoding_id: u16, data: CmapFormat4 },
    Format6 { platform_id: u16, encoding_id: u16, data: CmapFormat6 },
    Format12 { platform_id: u16, encoding_id: u16, data: CmapFormat12 },
}

/// Format 0: byte encoding table.
#[derive(Clone, Debug)]
pub struct CmapFormat0 {
    pub _format: u16,
    pub _length: u16,
    pub _language: u16,
    pub glyph_id_array: [u8; 256],
}

/// Format 4: segment mapping to delta values.
#[derive(Clone, Debug)]
pub struct CmapFormat4 {
    pub _format: u16,
    pub length: u16,
    pub _language: u16,
    pub seg_count_x2: u16,
    pub _search_range: u16,
    pub _entry_selector: u16,
    pub _range_shift: u16,
    pub end_count: Vec<u16>,
    pub reserved_pad: u16,
    pub start_count: Vec<u16>,
    pub id_delta: Vec<i16>,
    pub id_range_offset: Vec<u16>,
    pub glyph_id_array: Vec<u16>,
}

/// Format 6: trimmed table mapping.
#[derive(Clone, Debug)]
pub struct CmapFormat6 {
    pub _format: u16,
    pub _length: u16,
    pub _language: u16,
    pub first_code: u16,
    pub entry_count: u16,
    pub glyph_id_array: Vec<u16>,
}

/// Format 12: segmented coverage.
#[derive(Debug, Clone)]
pub struct CmapFormat12 {
    pub _format: u16,
    pub _reserved: u16,
    pub _length: u32,
    pub _language: u32,
    pub num_groups: u32,
    pub groups: Vec<SequentialMapGroup>,
}

/// A run of consecutive character codes mapped to consecutive glyphs.
#[derive(Debug, Clone, Copy)]
pub struct SequentialMapGroup {
    pub start_char_code: u32,
    pub end_char_code: u32,
    pub start_glyph_id: u32,
}

impl CmapTable {
    /// An empty character map.
    pub fn new() -> (r: CmapTable)
        ensures
            r.offset == 0,
            r.header._version == 0,
            r.header.num_tables == 0,
            r.encodings@.len() == 0,
            r.encoding_formats@.len() == 0,
            r.subtables@.len() == 0,
    {
        CmapTable {
            offset: 0,
            header: CmapHeader { _version: 0, num_tables: 0 },
            encodings: Vec::new(),
            encoding_formats: Vec::new(),
            subtables: Vec::new(),
        }
    }
}

// ---------------------------------------------------------------------------
// What each format reads
// ---------------------------------------------------------------------------

/// `d` is the format-0 subtable stored at `off` in `s`.
pub open spec fn format0_at(s: Seq<u8>, off: int, d: CmapFormat0) -> bool {
    &&& d._format == spec_u16(s, off)
    &&& d._length == spec_u16(s, off + 2)
    &&& d._language == spec_u16(s, off + 4)
    &&& forall|i: int| 0 <= i < 256 ==> #[trigger] d.glyph_id_array@[i] == spec_u8(s, off + 6 + i)
}

/// Number of segments of the format-4 subtable at `off`.
pub open spec fn format4_seg_count(s: Seq<u8>, off: int) -> int {
    spec_u16(s, off + 6) as int / 2
}

/// Size of the fixed part and the four segment arrays of the format-4 subtable at `off`.
pub open spec fn format4_head_len(s: Seq<u8>, off: int) -> int {
    16 + 8 * format4_seg_count(s, off)
}

/// The format-4 subtable at `off` is consistent: its declared length covers its segment arrays.
pub open spec fn format4_ok(s: Seq<u8>, off: int) -> bool {
    spec_u16(s, off + 2) >= format4_head_len(s, off)
}

/// `d` is the format-4 subtable stored at `off` in `s`.
pub open spec fn format4_at(s: Seq<u8>, off: int, d: CmapFormat4) -> bool {
    let sc = format4_seg_count(s, off);
    let n = (spec_u16(s, off + 2) - format4_head_len(s, off)) / 2;
    &&& d._format == spec_u16(s, off)
    &&& d.length == spec_u16(s, off + 2)
    &&& d._language == spec_u16(s, off + 4)
    &&& d.seg_count_x2 == 2 * sc
    &&& d._search_range == spec_u16(s, off + 8)
    &&& d._entry_selector == spec_u16(s, off + 10)
    &&& d._range_shift == spec_u16(s, off + 12)
    &&& d.end_count@.len() == sc
    &&& d.start_count@.len() == sc
    &&& d.id_delta@.len() == sc
    &&& d.id_range_offset@.len() == sc
    &&& d.glyph_id_array@.len() == n
    &&& d.reserved_pad == spec_u16(s, off + 14 + 2 * sc)
    &&& forall|i: int| 0 <= i < sc ==> #[trigger] d.end_count@[i] == spec_u16(s, off + 14 + 2 * i)
    &&& forall|i: int|
        0 <= i < sc ==> #[trigger] d.start_count@[i] == spec_u16(s, off + 16 + 2 * sc + 2 * i)
    &&& forall|i: int|
        0 <= i < sc ==> #[trigger] d.id_delta@[i] == spec_i16(s, off + 16 + 4 * sc + 2 * i)
    &&& forall|i: int|
        0 <= i < sc ==> #[trigger] d.id_range_offset@[i] == spec_u16(s, off + 16 + 6 * sc + 2 * i)
    &&& forall|i: int|
        0 <= i < n ==> #[trigger] d.glyph_id_array@[i] == spec_u16(s, off + 16 + 8 * sc + 2 * i)
}

/// `d` is the format-6 subtable stored at `off` in `s`.
pub open spec fn format6_at(s: Seq<u8>, off: int, d: CmapFormat6) -> bool {
    &&& d._format == spec_u16(s, off)
    &&& d._length == spec_u16(s, off + 2)
    &&& d._language == spec_u16(s, off + 4)
    &&& d.first_code == spec_u16(s, off + 6)
    &&& d.entry_count == spec_u16(s, off + 8)
    &&& d.glyph_id_array@.len() == d.entry_count
    &&& forall|i: int|
        0 <= i < d.entry_count ==> #[trigger] d.glyph_id_array@[i] == spec_u16(s, off + 10 + 2 * i)
}

/// The format-12 subtable at `off` has room in `s` for all its groups.
pub open spec fn format12_ok(s: Seq<u8>, off: int) -> bool {
    fits(s, off + 16, 12 * spec_u32(s, off + 12))
}

/// `d` is the format-12 subtable stored at `off` in `s`.
pub open spec fn format12_at(s: Seq<u8>, off: int, d: CmapFormat12) -> bool {
    &&& d._format == spec_u16(s, off)
    &&& d._reserved == spec_u16(s, off + 2)
    &&& d._length == spec_u32(s, off + 4)
    &&& d._language == spec_u32(s, off + 8)
    &&& d.num_groups == spec_u32(s, off + 12)
    &&& d.groups@.len() == d.num_groups
    &&& forall|i: int|
        0 <= i < d.num_groups ==> {
            &&& (#[trigger] d.groups@[i]).start_char_code == spec_u32(s, off + 16 + 12 * i)
            &&& d.groups@[i].end_char_code == spec_u32(s, off + 20 + 12 * i)
            &&& d.groups@[i].start_glyph_id == spec_u32(s, off + 24 + 12 * i)
        }
}

/// Whether a subtable of this format is parsed.
pub open spec fn supported_format(f: u16) -> bool {
    f == 0 || f == 4 || f == 6 || f == 12
}

/// A subtable of format `f` at `off` parses without error.
pub open spec fn subtable_ok(s: Seq<u8>, off: int, f: u16) -> bool {
    &&& f == 4 ==> format4_ok(s, off)
    &&& f == 12 ==> format12_ok(s, off)
}

/// `sub` is the subtable of format `f` stored at `off`, serving platform `p` and encoding `e`.
pub open spec fn subtable_at(
    s: Seq<u8>,
    off: int,
    f: u16,
    p: u16,
    e: u16,
    sub: SupportedCmapFormats,
) -> bool {
    match sub {
        SupportedCmapFormats::Format0 { platform_id, encoding_id, data } => f == 0 && platform_id
            == p && encoding_id == e && format0_at(s, off, data),
        SupportedCmapFormats::Format4 { platform_id, encoding_id, data } => f == 4 && platform_id
            == p && encoding_id == e && format4_at(s, off, data),
        SupportedCmapFormats::Format6 { platform_id, encoding_id, data } => f == 6 && platform_id
            == p && encoding_id == e && format6_at(s, off, data),
        SupportedCmapFormats::Format12 { platform_id, encoding_id, data } => f == 12
            && platform_id == p && encoding_id == e && format12_at(s, off, data),
    }
}

/// Preference of a platform/encoding pair; lower is better.
pub open spec fn encoding_priority(p: u16, e: u16) -> int {
    if p == 0 {
        0
    } else if p == 3 && e == 10 {
        1
    } else if p == 3 && e == 1 {
        2
    } else {
        3
    }
}

// ---------------------------------------------------------------------------
// Parsing
// ---------------------------------------------------------------------------

/// Reads the format-0 subtable at `off`.
pub fn parse_format0(b: &[u8], off: usize) -> (d: CmapFormat0)
    ensures
        format0_at(b@, off as int, d),
{
    let mut arr = [0u8; 256];
    let mut i: usize = 0;
    while i < 256
        invariant
            i <= 256,
            forall|j: int| 0 <= j < i ==> #[trigger] arr@[j] == spec_u8(b@, off + 6 + j),
        decreases 256 - i,
    {
        arr[i] = rd8(b, off, 6 + i);
        i = i + 1;
    }
    CmapFormat0 {
        _format: rd16(b, off, 0),
        _length: rd16(b, off, 2),
        _language: rd16(b, off, 4),
        glyph_id_array: arr,
    }
}

/// Reads `n` big-endian `u16`s starting at `off + delta`.
fn read_u16s(b: &[u8], off: usize, delta: usize, n: usize) -> (v: Vec<u16>)
    requires
        delta + 2 * n <= usize::MAX,
    ensures
        v@.len() == n,
        forall|i: int| 0 <= i < n ==> #[trigger] v@[i] == spec_u16(b@, off + delta + 2 * i),
{
    let mut v: Vec<u16> = Vec::new();
    let mut i: usize = 0;
    while i < n
        invariant
            i <= n,
            delta + 2 * n <= usize::MAX,
            v@.len() == i,
            forall|j: int| 0 <= j < i ==> #[trigger] v@[j] == spec_u16(b@, off + delta + 2 * j),
        decreases n - i,
    {
        v.push(rd16(b, off, delta + 2 * i));
        i = i + 1;
    }
    v
}

/// Reads `n` big-endian `i16`s starting at `off + delta`.
fn read_i16s(b: &[u8], off: usize, delta: usize, n: usize) -> (v: Vec<i16>)
    requires
        delta + 2 * n <= usize::MAX,
    ensures
        v@.len() == n,
        forall|i: int| 0 <= i < n ==> #[trigger] v@[i] == spec_i16(b@, off + delta + 2 * i),
{
    let mut v: Vec<i16> = Vec::new();
    let mut i: usize = 0;
    while i < n
        invariant
            i <= n,
            delta + 2 * n <= usize::MAX,
            v@.len() == i,
            forall|j: int| 0 <= j < i ==> #[trigger] v@[j] == spec_i16(b@, off + delta + 2 * j),
        decreases n - i,
    {
        v.push(rdi16(b, off, delta + 2 * i));
        i = i + 1;
    }
    v
}

/// Reads the format-4 subtable at `off`; `None` when its declared length
/// is shorter than its segment arrays.
pub fn parse_format4(b: &[u8], off: usize) -> (r: Option<CmapFormat4>)
    ensures
        r is Some <==> format4_ok(b@, off as int),
        r matches Some(d) ==> format4_at(b@, off as int, d),
{
    let seg_count = (rd16(b, off, 6) / 2) as usize;
    let length = rd16(b, off, 2);
    let head_len = 16 + 8 * seg_count;
    if (length as usize) < head_len {
        return None;
    }
    let glyph_id_len = (length as usize - head_len) / 2;
    let end_count = read_u16s(b, off, 14, seg_count);
    let start_count = read_u16s(b, off, 16 + 2 * seg_count, seg_count);
    let id_delta = read_i16s(b, off, 16 + 4 * seg_count, seg_count);
    let id_range_offset = read_u16s(b, off, 16 + 6 * seg_count, seg_count);
    let glyph_id_array = read_u16s(b, off, 16 + 8 * seg_count, glyph_id_len);
    Some(
        CmapFormat4 {
            _format: rd16(b, off, 0),
            length,
            _language: rd16(b, off, 4),
            seg_count_x2: (seg_count * 2) as u16,
            _search_range: rd16(b, off, 8),
            _entry_selector: rd16(b, off, 10),
            _range_shift: rd16(b, off, 12),
            end_count,
            reserved_pad: rd16(b, off, 14 + 2 * seg_count),
            start_count,
            id_delta,
            id_range_offset,
            glyph_id_array,
        },
    )
}

/// Reads the format-6 subtable at `off`.
pub fn parse_format6(b: &[u8], off: usize) -> (d: CmapFormat6)
    ensures
        format6_at(b@, off as int, d),
{
    let entry_count = rd16(b, off, 8);
    let glyph_id_array = read_u16s(b, off, 10, entry_count as usize);
    CmapFormat6 {
        _format: rd16(b, off, 0),
        _length: rd16(b, off, 2),
        _language: rd16(b, off, 4),
        first_code: rd16(b, off, 6),
        entry_count,
        glyph_id_array,
    }
}

/// Reads the format-12 subtable at `off`; `None` when its groups run past the end of `b`.
pub fn parse_format12(b: &[u8], off: usize) -> (r: Option<CmapFormat12>)
    ensures
        r is Some <==> format12_ok(b@, off as int),
        r matches Some(d) ==> format12_at(b@, off as int, d),
{
    let num_groups = rd32(b, off, 12);
    let len = b.len();
    if off > len || len - off < 16 {
        return None;
    }
    let start = off + 16;
    if num_groups as usize > (len - start) / 12 {
        return None;
    }
    let n = num_groups as usize;
    let mut groups: Vec<SequentialMapGroup> = Vec::new();
    let mut i: usize = 0;
    while i < n
        invariant
            i <= n,
            n == num_groups,
            start == off + 16,
            start + 12 * n <= len,
            len == b@.len(),
            groups@.len() == i,
            forall|j: int|
                0 <= j < i ==> {
                    &&& (#[trigger] groups@[j]).start_char_code == spec_u32(b@, off + 16 + 12 * j)
                    &&& groups@[j].end_char_code == spec_u32(b@, off + 20 + 12 * j)
                    &&& groups@[j].start_glyph_id == spec_u32(b@, off + 24 + 12 * j)
                },
        decreases n - i,
    {
        let o = start + 12 * i;
        groups.push(
            SequentialMapGroup {
                start_char_code: rd32(b, o, 0),
                end_char_code: rd32(b, o, 4),
                start_glyph_id: rd32(b, o, 8),
            },
        );
        i = i + 1;
    }
    Some(
        CmapFormat12 {
            _format: rd16(b, off, 0),
            _reserved: rd16(b, off, 2),
            _length: rd32(b, off, 4),
            _language: rd32(b, off, 8),
            num_groups,
            groups,
        },
    )
}

// ---------------------------------------------------------------------------
// Lookup
// ---------------------------------------------------------------------------

/// The subtable's arrays have the lengths its counts promise.
pub open spec fn subtable_wf(sub: SupportedCmapFormats) -> bool {
    match sub {
        SupportedCmapFormats::Format4 { data, .. } => {
            let sc = data.seg_count_x2 / 2;
            &&& data.end_count@.len() == sc
            &&& data.start_count@.len() == sc
            &&& data.id_delta@.len() == sc
            &&& data.id_range_offset@.len() == sc
        },
        SupportedCmapFormats::Format6 { data, .. } => data.glyph_id_array@.len() == data.entry_count,
        _ => true,
    }
}

/// `(g + delta) mod 2^16`.
pub open spec fn add_delta(g: int, delta: i16) -> u32 {
    ((g + delta as int) % 0x10000) as u32
}

/// Glyph of code `c16` in segment `i` of a format-4 subtable: the id delta
/// is added either to the code itself or to the entry that the range
/// offset points at in the glyph id array (0 stays "missing"); 0 when
/// the range offset points outside the array.
pub open spec fn format4_glyph(d: CmapFormat4, i: int, c16: u16) -> u32 {
    let delta = d.id_delta@[i];
    if d.id_range_offset@[i] == 0 {
        add_delta(c16 as int, delta)
    } else {
        let idx = d.id_range_offset@[i] as int / 2 + (c16 - d.start_count@[i]) - (d.seg_count_x2 as int
            / 2 - i);
        if 0 <= idx < d.glyph_id_array@.len() {
            let g = d.glyph_id_array@[idx];
            if g != 0 {
                add_delta(g as int, delta)
            } else {
                0
            }
        } else {
            0
        }
    }
}

/// Result of a format-4 lookup of code `c16` whose search boundary in
/// `end_count` is `i`.
pub open spec fn format4_lookup_at(d: CmapFormat4, c16: u16, i: int) -> u32 {
    if i < d.end_count@.len() && c16 >= d.start_count@[i] {
        format4_glyph(d, i, c16)
    } else {
        0
    }
}

/// Ends of the groups of a format-12 subtable.
pub open spec fn group_ends(g: Seq<SequentialMapGroup>) -> Seq<u32> {
    g.map_values(|x: SequentialMapGroup| x.end_char_code)
}

/// `i` is a search boundary for `c` in `s`.
pub open spec fn is_boundary32(s: Seq<u32>, c: u32, i: int) -> bool {
    &&& 0 <= i <= s.len()
    &&& (i == s.len() || s[i] >= c)
    &&& (i == 0 || s[i - 1] < c)
}

/// Where a halving search for `c` in `s[lo..hi]` settles (see `search16`).
pub open spec fn search32(s: Seq<u32>, c: u32, lo: int, hi: int) -> int
    decreases hi - lo,
{
    if lo >= hi {
        lo
    } else {
        let mid = lo + (hi - lo) / 2;
        if s[mid] < c {
            search32(s, c, mid + 1, hi)
        } else {
            search32(s, c, lo, mid)
        }
    }
}

/// The search settles on a search boundary.
pub proof fn lemma_search32(s: Seq<u32>, c: u32, lo: int, hi: int)
    requires
        0 <= lo <= hi <= s.len(),
        hi == s.len() || s[hi] >= c,
        lo == 0 || s[lo - 1] < c,
    ensures
        is_boundary32(s, c, search32(s, c, lo, hi)),
    decreases hi - lo,
{
    if lo < hi {
        let mid = lo + (hi - lo) / 2;
        if s[mid] < c {
            lemma_search32(s, c, mid + 1, hi);
        } else {
            lemma_search32(s, c, lo, mid);
        }
    }
}

/// Glyph `start + (c - start)` of group `g` for `c` in the group.
pub open spec fn group_glyph(g: SequentialMapGroup, c: u32) -> u32 {
    g.start_glyph_id.wrapping_add((c - g.start_char_code) as u32)
}

/// Result of a format-12 lookup of `c` whose search boundary in the group
/// ends is `i`: the group at the boundary maps `c` when it starts at or
/// before `c`.
pub open spec fn format12_lookup_at(d: CmapFormat12, c: u32, i: int) -> u32 {
    let g = d.groups@;
    if g.len() == 0 || d.num_groups != g.len() {
        0
    } else if i < g.len() && g[i].start_char_code <= c <= g[i].end_char_code {
        group_glyph(g[i], c)
    } else {
        0
    }
}

/// Result of looking `c` up in `sub`, given the search boundary `i` used by
/// formats 4 and 12.
pub open spec fn lookup_at(sub: SupportedCmapFormats, c: u32, i: int) -> u32 {
    match sub {
        SupportedCmapFormats::Format0 { data, .. } => if c < 256 {
            data.glyph_id_array@[c as int] as u32
        } else {
            0
        },
        SupportedCmapFormats::Format4 { data, .. } => if c > 0xFFFF {
            0
        } else {
            format4_lookup_at(data, c as u16, i)
        },
        SupportedCmapFormats::Format6 { data, .. } => {
            let index = c as int;
            if index <= 0xFFFF && index >= data.first_code && index < data.first_code + data.entry_count && index
                - data.first_code < data.glyph_id_array@.len() {
                data.glyph_id_array@[index - data.first_code] as u32
            } else {
                0
            }
        },
        SupportedCmapFormats::Format12 { data, .. } => format12_lookup_at(data, c, i),
    }
}

/// Where the binary search of `c` in `sub` settles (formats 4 and 12).
pub open spec fn search_boundary(sub: SupportedCmapFormats, c: u32) -> int {
    match sub {
        SupportedCmapFormats::Format4 { data, .. } => if c > 0xFFFF {
            0
        } else {
            search_pos(data.end_count@, c as u16)
        },
        SupportedCmapFormats::Format12 { data, .. } => search32(
            group_ends(data.groups@),
            c,
            0,
            data.groups@.len() as int,
        ),
        _ => 0,
    }
}

/// Glyph of `c` in `sub`.
pub open spec fn spec_lookup(sub: SupportedCmapFormats, c: u32) -> u32 {
    lookup_at(sub, c, search_boundary(sub, c))
}

/// Glyph of `c16` in segment `i` of a format-4 subtable.
pub fn format4_glyph_exec(d: &CmapFormat4, i: usize, c16: u16) -> (r: u32)
    requires
        i < d.id_delta@.len(),
        i < d.id_range_offset@.len(),
        i < d.start_count@.len(),
        i <= 0xFFFF,
        c16 >= d.start_count@[i as int],
    ensures
        r == format4_glyph(*d, i as int, c16),
{
    let delta = d.id_delta[i] as i64;
    let iro = d.id_range_offset[i];
    if iro == 0 {
        (((c16 as i64 + delta + 0x10000) % 0x10000) as u32)
    } else {
        let idx: i64 = (iro as i64) / 2 + (c16 - d.start_count[i]) as i64 - ((d.seg_count_x2 / 2) as i64
            - i as i64);
        if idx >= 0 && (idx as u64) < d.glyph_id_array.len() as u64 {
            let g = d.glyph_id_array[idx as usize];
            if g != 0 {
                (((g as i64 + delta + 0x10000) % 0x10000) as u32)
            } else {
                0
            }
        } else {
            0
        }
    }
}

fn lower_bound_groups(g: &Vec<SequentialMapGroup>, c: u32) -> (r: usize)
    ensures
        r == search32(group_ends(g@), c, 0, g@.len() as int),
        is_boundary32(group_ends(g@), c, r as int),
{
    let ghost e = group_ends(g@);
    proof {
        lemma_search32(e, c, 0, e.len() as int);
    }
    let mut lo: usize = 0;
    let mut hi: usize = g.len();
    while lo < hi
        invariant
            lo <= hi <= g@.len(),
            e == group_ends(g@),
            e.len() == g@.len(),
            search32(e, c, lo as int, hi as int) == search32(e, c, 0, g@.len() as int),
        decreases hi - lo,
    {
        let mid = lo + (hi - lo) / 2;
        assert(e[mid as int] == g@[mid as int].end_char_code);
        if g[mid].end_char_code < c {
            lo = mid + 1;
        } else {
            hi = mid;
        }
    }
    lo
}

/// Looks character code `c` up in subtable `sub`; 0 (the missing glyph)
/// when it is not mapped. Formats 4 and 12 binary-search their sorted
/// segment ends.
pub fn lookup_in_subtable(sub: &SupportedCmapFormats, c: u32) -> (r: u32)
    requires
        subtable_wf(*sub),
    ensures
        r == spec_lookup(*sub, c),
{
    match sub {
        SupportedCmapFormats::Format0 { data, .. } => {
            let r = if c < 256 {
                data.glyph_id_array[c as usize] as u32
            } else {
                0
            };
            r
        },
        SupportedCmapFormats::Format4 { data, .. } => {
            if c > 0xFFFF {
                return 0;
            }
            let c16 = c as u16;
            let i = lower_bound_u16(&data.end_count, c16);
            let r = if i < data.end_count.len() && c16 >= data.start_count[i] {
                format4_glyph_exec(data, i, c16)
            } else {
                0
            };
            r
        },
        SupportedCmapFormats::Format6 { data, .. } => {
            let index = c;
            let first = data.first_code as u32;
            let r = if index <= 0xFFFF && index >= first && index < first + data.entry_count as u32 && ((index - first)
                as usize) < data.glyph_id_array.len() {
                data.glyph_id_array[(index - first) as usize] as u32
            } else {
                0
            };
            r
        },
        SupportedCmapFormats::Format12 { data, .. } => {
            let g = &data.groups;
            let i = lower_bound_groups(g, c);
            let r = if g.len() == 0 || data.num_groups as usize != g.len() {
                0
            } else if i < g.len() && g[i].start_char_code <= c && c <= g[i].end_char_code {
                g[i].start_glyph_id.wrapping_add(c - g[i].start_char_code)
            } else {
                0
            };
            r
        },
    }
}

// ---------------------------------------------------------------------------
// Loading
// ---------------------------------------------------------------------------

/// Size of the `cmap` header.
pub const CMAP_HEADER_SIZE: usize = 4;

/// Size of one encoding record.
pub const ENCODING_RECORD_SIZE: usize = 8;

/// The `k`-th encoding record of the `cmap` table at `off`.
pub open spec fn encoding_at(s: Seq<u8>, off: int, k: int) -> EncodingRecord {
    let o = off + CMAP_HEADER_SIZE + ENCODING_RECORD_SIZE * k;
    EncodingRecord {
        platform_id: spec_u16(s, o),
        encoding_id: spec_u16(s, o + 2),
        offset: spec_u32(s, o + 4),
    }
}

/// Offset of the subtable an encoding record points at.
pub open spec fn subtable_offset(cmap_off: int, e: EncodingRecord) -> int {
    sat(cmap_off + e.offset)
}

/// Priority of the platform/encoding a parsed subtable serves.
pub open spec fn sub_priority(sub: SupportedCmapFormats) -> int {
    match sub {
        SupportedCmapFormats::Format0 { platform_id, encoding_id, .. } => encoding_priority(
            platform_id,
            encoding_id,
        ),
        SupportedCmapFormats::Format4 { platform_id, encoding_id, .. } => encoding_priority(
            platform_id,
            encoding_id,
        ),
        SupportedCmapFormats::Format6 { platform_id, encoding_id, .. } => encoding_priority(
            platform_id,
            encoding_id,
        ),
        SupportedCmapFormats::Format12 { platform_id, encoding_id, .. } => encoding_priority(
            platform_id,
            encoding_id,
        ),
    }
}

/// Error of a subtable of format `f` that does not parse.
pub open spec fn subtable_error(f: u16) -> FontError {
    if f == 4 {
        FontError::InvalidFile
    } else {
        FontError::UnexpectedEndOfFile
    }
}

/// The first error among the first `n` subtables listed by `encs`/`fmts`.
pub open spec fn subtables_error(
    s: Seq<u8>,
    cmap_off: int,
    encs: Seq<EncodingRecord>,
    fmts: Seq<u16>,
    n: int,
) -> Option<FontError>
    decreases n,
{
    if n <= 0 {
        None
    } else {
        match subtables_error(s, cmap_off, encs, fmts, n - 1) {
            Some(e) => Some(e),
            None => {
                let f = fmts[n - 1];
                if supported_format(f) && !subtable_ok(s, subtable_offset(cmap_off, encs[n - 1]), f) {
                    Some(subtable_error(f))
                } else {
                    None
                }
            },
        }
    }
}

/// The subtable kept out of the previously loaded ones `olds` and the
/// subtables listed by `encs`/`fmts`: the first one of lowest priority
/// (previously loaded ones first).
pub open spec fn selected(
    s: Seq<u8>,
    cmap_off: int,
    encs: Seq<EncodingRecord>,
    fmts: Seq<u16>,
    olds: Seq<SupportedCmapFormats>,
    result: Seq<SupportedCmapFormats>,
) -> bool {
    let any_new = exists|j: int| 0 <= j < fmts.len() && supported_format(#[trigger] fmts[j]);
    if olds.len() == 0 && !any_new {
        result.len() == 0
    } else {
        &&& result.len() == 1
        &&& forall|k: int| 0 <= k < olds.len() ==> sub_priority(#[trigger] olds[k]) >= sub_priority(result[0])
        &&& forall|j: int|
            0 <= j < fmts.len() && supported_format(#[trigger] fmts[j]) ==> encoding_priority(
                encs[j].platform_id,
                encs[j].encoding_id,
            ) >= sub_priority(result[0])
        &&& {
            ||| exists|k: int|
                0 <= k < olds.len() && result[0] == #[trigger] olds[k] && forall|k2: int|
                    0 <= k2 < k ==> sub_priority(#[trigger] olds[k2]) > sub_priority(result[0])
            ||| exists|j: int|
                0 <= j < fmts.len() && supported_format(#[trigger] fmts[j]) && subtable_at(
                    s,
                    subtable_offset(cmap_off, encs[j]),
                    fmts[j],
                    encs[j].platform_id,
                    encs[j].encoding_id,
                    result[0],
                ) && (forall|k: int| 0 <= k < olds.len() ==> sub_priority(#[trigger] olds[k]) > sub_priority(result[0]))
                    && forall|j2: int|
                    0 <= j2 < j && supported_format(#[trigger] fmts[j2]) ==> encoding_priority(
                        encs[j2].platform_id,
                        encs[j2].encoding_id,
                    ) > sub_priority(result[0])
        }
    }
}

/// Priority of a platform/encoding pair.
fn priority(p: u16, e: u16) -> (r: u8)
    ensures
        r == encoding_priority(p, e),
{
    if p == 0 {
        0
    } else if p == 3 && e == 10 {
        1
    } else if p == 3 && e == 1 {
        2
    } else {
        3
    }
}

/// Priority of a parsed subtable.
fn priority_of(sub: &SupportedCmapFormats) -> (r: u8)
    ensures
        r == sub_priority(*sub),
{
    match sub {
        SupportedCmapFormats::Format0 { platform_id, encoding_id, .. } => priority(*platform_id, *encoding_id),
        SupportedCmapFormats::Format4 { platform_id, encoding_id, .. } => priority(*platform_id, *encoding_id),
        SupportedCmapFormats::Format6 { platform_id, encoding_id, .. } => priority(*platform_id, *encoding_id),
        SupportedCmapFormats::Format12 { platform_id, encoding_id, .. } => priority(*platform_id, *encoding_id),
    }
}

/// Parses the subtable of format `f` at `off`; `Ok(None)` for unsupported formats.
pub fn parse_subtable(b: &[u8], off: usize, f: u16, p: u16, e: u16) -> (r: Result<
    Option<SupportedCmapFormats>,
    FontError,
>)
    ensures
        !supported_format(f) ==> r == Ok::<Option<SupportedCmapFormats>, FontError>(None),
        supported_format(f) && !subtable_ok(b@, off as int, f) ==> r == Err::<Option<SupportedCmapFormats>, FontError>(subtable_error(f)),
        supported_format(f) && subtable_ok(b@, off as int, f) ==> (r matches Ok(Some(sub)) && subtable_at(
            b@,
            off as int,
            f,
            p,
            e,
            sub,
        ) && subtable_wf(sub)),
{
    if f == 0 {
        Ok(Some(SupportedCmapFormats::Format0 { platform_id: p, encoding_id: e, data: parse_format0(b, off) }))
    } else if f == 4 {
        match parse_format4(b, off) {
            Some(d) => Ok(Some(SupportedCmapFormats::Format4 { platform_id: p, encoding_id: e, data: d })),
            None => Err(FontError::InvalidFile),
        }
    } else if f == 6 {
        Ok(Some(SupportedCmapFormats::Format6 { platform_id: p, encoding_id: e, data: parse_format6(b, off) }))
    } else if f == 12 {
        match parse_format12(b, off) {
            Some(d) => Ok(Some(SupportedCmapFormats::Format12 { platform_id: p, encoding_id: e, data: d })),
            None => Err(FontError::UnexpectedEndOfFile),
        }
    } else {
        Ok(None)
    }
}

impl TrueTypeFont {
    /// Locates the `cmap` table and reads its header.
    pub fn load_cmap(&mut self, font_bytes: &[u8]) -> (r: Result<(), FontError>)
        ensures
            find_table(old(self).tables@, tag_cmap()) is None ==> r == Err::<(), FontError>(
                FontError::TableNotFound("cmap"),
            ) && *final(self) == *old(self),
            find_table(old(self).tables@, tag_cmap()) matches Some(i) ==> r is Ok && *final(self) == (
            TrueTypeFont {
                cmap: CmapTable {
                    offset: old(self).tables@[i].offset as usize,
                    header: CmapHeader {
                        _version: spec_u16(font_bytes@, old(self).tables@[i].offset as int),
                        num_tables: spec_u16(font_bytes@, old(self).tables@[i].offset + 2),
                    },
                    ..old(self).cmap
                },
                ..*old(self)
            }),
    {
        let tag = make_tag(0x63, 0x6D, 0x61, 0x70);
        match crate::font::find_table_index(&self.tables, &tag) {
            Some(i) => {
                let off = self.tables[i].offset as usize;
                self.cmap.offset = off;
                self.cmap.header = CmapHeader {
                    _version: rd16(font_bytes, off, 0),
                    num_tables: rd16(font_bytes, off, 2),
                };
                Ok(())
            },
            None => Err(FontError::TableNotFound("cmap")),
        }
    }

    /// Reads the encoding records listed by the `cmap` header.
    pub fn load_cmap_encodings(&mut self, font_bytes: &[u8])
        ensures
            *final(self) == (TrueTypeFont {
                cmap: CmapTable { encodings: final(self).cmap.encodings, ..old(self).cmap },
                ..*old(self)
            }),
            final(self).cmap.encodings@ == old(self).cmap.encodings@ + Seq::new(
                old(self).cmap.header.num_tables as nat,
                |k: int| encoding_at(font_bytes@, old(self).cmap.offset as int, k),
            ),
    {
        let n = self.cmap.header.num_tables as usize;
        let off = self.cmap.offset;
        let ghost e0 = self.cmap.encodings@;
        let mut k: usize = 0;
        while k < n
            invariant
                k <= n,
                n == old(self).cmap.header.num_tables,
                off == old(self).cmap.offset,
                e0 == old(self).cmap.encodings@,
                *self == (TrueTypeFont {
                    cmap: CmapTable { encodings: self.cmap.encodings, ..old(self).cmap },
                    ..*old(self)
                }),
                self.cmap.encodings@ =~= e0 + Seq::new(
                    k as nat,
                    |q: int| encoding_at(font_bytes@, off as int, q),
                ),
            decreases n - k,
        {
            let d = CMAP_HEADER_SIZE + ENCODING_RECORD_SIZE * k;
            let record = EncodingRecord {
                platform_id: rd16(font_bytes, off, d),
                encoding_id: rd16(font_bytes, off, d + 2),
                offset: rd32(font_bytes, off, d + 4),
            };
            self.cmap.encodings.push(record);
            k = k + 1;
        }
    }

    /// Reads the format of every subtable an encoding record points at.
    pub fn load_cmap_subtable_formats(&mut self, font_bytes: &[u8])
        ensures
            *final(self) == (TrueTypeFont {
                cmap: CmapTable { encoding_formats: final(self).cmap.encoding_formats, ..old(self).cmap },
                ..*old(self)
            }),
            final(self).cmap.encoding_formats@ == old(self).cmap.encoding_formats@ + Seq::new(
                old(self).cmap.encodings@.len(),
                |k: int| spec_u16(
                    font_bytes@,
                    subtable_offset(old(self).cmap.offset as int, old(self).cmap.encodings@[k]),
                ),
            ),
    {
        let n = self.cmap.encodings.len();
        let off = self.cmap.offset;
        let ghost f0 = self.cmap.encoding_formats@;
        let mut k: usize = 0;
        while k < n
            invariant
                k <= n,
                n == old(self).cmap.encodings@.len(),
                off == old(self).cmap.offset,
                f0 == old(self).cmap.encoding_formats@,
                *self == (TrueTypeFont {
                    cmap: CmapTable { encoding_formats: self.cmap.encoding_formats, ..old(self).cmap },
                    ..*old(self)
                }),
                self.cmap.encoding_formats@ =~= f0 + Seq::new(
                    k as nat,
                    |q: int| spec_u16(
                        font_bytes@,
                        subtable_offset(off as int, old(self).cmap.encodings@[q]),
                    ),
                ),
            decreases n - k,
        {
            let o = add_off(off, self.cmap.encodings[k].offset as usize);
            let format = rd16(font_bytes, o, 0);
            self.cmap.encoding_formats.push(format);
            k = k + 1;
        }
    }
}

proof fn lemma_error_sticky(s: Seq<u8>, off: int, encs: Seq<EncodingRecord>, fmts: Seq<u16>, j: int, n: int)
    requires
        0 <= j <= n,
        subtables_error(s, off, encs, fmts, j) is Some,
    ensures
        subtables_error(s, off, encs, fmts, n) == subtables_error(s, off, encs, fmts, j),
    decreases n - j,
{
    if j < n {
        lemma_error_sticky(s, off, encs, fmts, j, n - 1);
    }
}

impl TrueTypeFont {
    /// Parses every subtable of a supported format and keeps the one of
    /// best platform/encoding priority (previously loaded subtables
    /// compete too and win ties); fails on the first subtable that does
    /// not parse, leaving the font unchanged.
    pub fn load_cmap_subtables(&mut self, font_bytes: &[u8]) -> (r: Result<(), FontError>)
        requires
            old(self).cmap.encoding_formats@.len() <= old(self).cmap.encodings@.len(),
        ensures
            ({
                let s = font_bytes@;
                let off = old(self).cmap.offset as int;
                let encs = old(self).cmap.encodings@;
                let fmts = old(self).cmap.encoding_formats@;
                match subtables_error(s, off, encs, fmts, fmts.len() as int) {
                    Some(e) => r == Err::<(), FontError>(e) && *final(self) == *old(self),
                    None => r is Ok && *final(self) == (TrueTypeFont {
                        cmap: CmapTable { subtables: final(self).cmap.subtables, ..old(self).cmap },
                        ..*old(self)
                    }) && selected(s, off, encs, fmts, old(self).cmap.subtables@, final(self).cmap.subtables@)
                        && ((forall|k: int| 0 <= k < old(self).cmap.subtables@.len() ==> subtable_wf(
                        #[trigger] old(self).cmap.subtables@[k],
                    )) ==> forall|k: int| 0 <= k < final(self).cmap.subtables@.len() ==> subtable_wf(
                        #[trigger] final(self).cmap.subtables@[k],
                    )),
                }
            }),
    {
        let ghost s = font_bytes@;
        let ghost encs = self.cmap.encodings@;
        let ghost fmts = self.cmap.encoding_formats@;
        let nf = self.cmap.encoding_formats.len();
        let off = self.cmap.offset;
        let mut olds: Vec<SupportedCmapFormats> = Vec::new();
        std::mem::swap(&mut olds, &mut self.cmap.subtables);
        let ghost o0 = olds@;
        let n_old = olds.len();
        let mut best_prio: u8 = 4;
        let mut best_old: usize = n_old;
        let mut k: usize = 0;
        while k < n_old
            invariant
                k <= n_old,
                n_old == olds@.len(),
                olds == old(self).cmap.subtables,
                best_old <= n_old,
                best_prio <= 4,
                forall|q: int| 0 <= q < k ==> sub_priority(#[trigger] olds@[q]) >= best_prio,
                best_prio == 4 <==> best_old == n_old,
                best_old < n_old ==> best_old < k && sub_priority(olds@[best_old as int]) == best_prio
                    && forall|q: int| 0 <= q < best_old ==> sub_priority(#[trigger] olds@[q]) > best_prio,
            decreases n_old - k,
        {
            let p = priority_of(&olds[k]);
            if p < best_prio {
                best_prio = p;
                best_old = k;
            }
            k = k + 1;
        }
        let ghost best_old_prio = best_prio;
        let mut best_new: Option<SupportedCmapFormats> = None;
        let ghost mut best_j: int = 0;
        let mut j: usize = 0;
        while j < nf
            invariant
                j <= nf,
                nf == fmts.len(),
                fmts.len() <= encs.len(),
                s == font_bytes@,
                encs == self.cmap.encodings@,
                fmts == self.cmap.encoding_formats@,
                off == self.cmap.offset,
                olds@ == o0,
                olds == old(self).cmap.subtables,
                best_old <= n_old,
                n_old == o0.len(),
                *self == (TrueTypeFont {
                    cmap: CmapTable { subtables: self.cmap.subtables, ..old(self).cmap },
                    ..*old(self)
                }),
                self.cmap.subtables@.len() == 0,
                o0 == old(self).cmap.subtables@,
                encs == old(self).cmap.encodings@,
                fmts == old(self).cmap.encoding_formats@,
                off == old(self).cmap.offset,
                subtables_error(s, off as int, encs, fmts, j as int) is None,
                best_prio <= best_old_prio,
                best_old_prio <= 4,
                forall|q: int| 0 <= q < n_old ==> sub_priority(#[trigger] o0[q]) >= best_old_prio,
                best_old_prio == 4 <==> best_old == n_old,
                best_old < n_old ==> sub_priority(o0[best_old as int]) == best_old_prio
                    && forall|q: int| 0 <= q < best_old ==> sub_priority(#[trigger] o0[q]) > best_old_prio,
                forall|q: int|
                    0 <= q < j && supported_format(#[trigger] fmts[q]) ==> encoding_priority(
                        encs[q].platform_id,
                        encs[q].encoding_id,
                    ) >= best_prio,
                best_new is None ==> best_prio == best_old_prio,
                best_new matches Some(sub) ==> {
                    &&& 0 <= best_j < j
                    &&& supported_format(fmts[best_j])
                    &&& subtable_at(
                        s,
                        subtable_offset(off as int, encs[best_j]),
                        fmts[best_j],
                        encs[best_j].platform_id,
                        encs[best_j].encoding_id,
                        sub,
                    )
                    &&& subtable_wf(sub)
                    &&& sub_priority(sub) == best_prio
                    &&& best_prio < best_old_prio
                    &&& forall|q: int|
                        0 <= q < best_j && supported_format(#[trigger] fmts[q]) ==> encoding_priority(
                            encs[q].platform_id,
                            encs[q].encoding_id,
                        ) > best_prio
                },
            decreases nf - j,
        {
            let f = self.cmap.encoding_formats[j];
            let enc = self.cmap.encodings[j];
            let o = add_off(off, enc.offset as usize);
            match parse_subtable(font_bytes, o, f, enc.platform_id, enc.encoding_id) {
                Err(e) => {
                    std::mem::swap(&mut olds, &mut self.cmap.subtables);
                    proof {
                        assert(self.cmap.subtables@ =~= old(self).cmap.subtables@);
                        assert(subtables_error(s, off as int, encs, fmts, j + 1) == Some(e));
                        lemma_error_sticky(s, off as int, encs, fmts, j + 1, nf as int);
                    }
                    return Err(e);
                },
                Ok(None) => {},
                Ok(Some(sub)) => {
                    let p = priority(enc.platform_id, enc.encoding_id);
                    if p < best_prio {
                        best_prio = p;
                        best_new = Some(sub);
                        proof {
                            best_j = j as int;
                        }
                    }
                },
            }
            j = j + 1;
        }
        let mut result: Vec<SupportedCmapFormats> = Vec::new();
        let ghost bn = best_new;
        match best_new {
            Some(sub) => {
                result.push(sub);
                proof {
                    assert(result@[0] == sub);
                }
            },
            None => {
                if best_old < n_old {
                    let x = olds.remove(best_old);
                    result.push(x);
                    proof {
                        assert(result@[0] == o0[best_old as int]);
                    }
                }
            },
        }
        self.cmap.subtables = result;
        proof {
            let res = self.cmap.subtables@;
            match bn {
                Some(sub) => {
                    assert(supported_format(fmts[best_j]));
                    assert(res[0] == sub);
                    assert(exists|q: int|
                        0 <= q < fmts.len() && supported_format(#[trigger] fmts[q]) && subtable_at(
                            s,
                            subtable_offset(off as int, encs[q]),
                            fmts[q],
                            encs[q].platform_id,
                            encs[q].encoding_id,
                            res[0],
                        ) && (forall|k: int| 0 <= k < o0.len() ==> sub_priority(#[trigger] o0[k]) > sub_priority(res[0]))
                            && forall|j2: int|
                            0 <= j2 < q && supported_format(#[trigger] fmts[j2]) ==> encoding_priority(
                                encs[j2].platform_id,
                                encs[j2].encoding_id,
                            ) > sub_priority(res[0]));
                },
                None => {
                    if best_old < n_old {
                        assert(res[0] == o0[best_old as int]);
                        assert(exists|q: int|
                            0 <= q < o0.len() && res[0] == #[trigger] o0[q] && forall|k2: int|
                                0 <= k2 < q ==> sub_priority(#[trigger] o0[k2]) > sub_priority(res[0]));
                    } else {
                        if n_old > 0 {
                            assert(sub_priority(o0[0]) >= 4);
                        }
                        assert forall|q: int| 0 <= q < fmts.len() implies !supported_format(#[trigger] fmts[q]) by {
                            if supported_format(fmts[q]) {
                                assert(encoding_priority(encs[q].platform_id, encs[q].encoding_id) >= 4);
                            }
                        }
                    }
                },
            }
        }
        Ok(())
    }

    /// Glyph index of `codepoint` in the kept subtable; 0 (the missing glyph)
    /// when it is unmapped or no subtable was kept.
    pub fn get_glyph_id(&self, codepoint: char) -> (r: u32)
        requires
            forall|k: int| 0 <= k < self.cmap.subtables@.len() ==> subtable_wf(
                #[trigger] self.cmap.subtables@[k],
            ),
        ensures
            self.cmap.subtables@.len() == 0 ==> r == 0,
            self.cmap.subtables@.len() > 0 ==> r == spec_lookup(self.cmap.subtables@[0], codepoint as u32),
    {
        if self.cmap.subtables.len() == 0 {
            return 0;
        }
        lookup_in_subtable(&self.cmap.subtables[0], codepoint as u32)
    }
}

} // verus!
