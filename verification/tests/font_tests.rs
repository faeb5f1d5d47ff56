use titanf::font::{FontError, TrueTypeFont};
use titanf::tables::glyf::{parse_glyph, ProtoGlyph};

fn push_u16(v: &mut Vec<u8>, x: u16) {
    v.extend_from_slice(&x.to_be_bytes());
}

fn push_u32(v: &mut Vec<u8>, x: u32) {
    v.extend_from_slice(&x.to_be_bytes());
}

fn push_i16(v: &mut Vec<u8>, x: i16) {
    v.extend_from_slice(&x.to_be_bytes());
}

struct TableEntry {
    tag: [u8; 4],
    data: Vec<u8>,
}

fn head_table(index_to_loc_format: i16) -> Vec<u8> {
    let mut head = Vec::new();
    push_u16(&mut head, 1); // major
    push_u16(&mut head, 0); // minor
    push_u32(&mut head, 0x0001_0000); // revision
    push_u32(&mut head, 0); // checksum adjustment
    push_u32(&mut head, 0x5F0F_3CF5); // magic
    push_u16(&mut head, 0); // flags
    push_u16(&mut head, 1000); // units_per_em
    head.extend_from_slice(&[0u8; 16]); // created + modified
    push_i16(&mut head, 0); // x_min
    push_i16(&mut head, 0); // y_min
    push_i16(&mut head, 500); // x_max
    push_i16(&mut head, 500); // y_max
    push_u16(&mut head, 0); // mac style
    push_u16(&mut head, 8); // lowest rec ppem
    push_i16(&mut head, 2); // font direction hint
    push_i16(&mut head, index_to_loc_format);
    push_i16(&mut head, 0); // glyph data format
    head
}

fn maxp_table() -> Vec<u8> {
    let mut maxp = Vec::new();
    push_u32(&mut maxp, 0x0001_0000); // version
    push_u16(&mut maxp, 2); // num_glyphs
    maxp.extend_from_slice(&[0u8; 26]); // remaining maxima
    maxp
}

fn hhea_table() -> Vec<u8> {
    let mut hhea = Vec::new();
    push_u16(&mut hhea, 1); // major
    push_u16(&mut hhea, 0); // minor
    push_i16(&mut hhea, 800); // ascender
    push_i16(&mut hhea, -200); // descender
    push_i16(&mut hhea, 0); // line gap
    push_u16(&mut hhea, 600); // advance width max
    hhea.extend_from_slice(&[0u8; 22]); // bearings .. metric data format
    push_u16(&mut hhea, 2); // number_of_h_metrics
    hhea
}

fn hmtx_table() -> Vec<u8> {
    let mut hmtx = Vec::new();
    push_u16(&mut hmtx, 600); // glyph 0 advance
    push_i16(&mut hmtx, 0); // glyph 0 lsb
    push_u16(&mut hmtx, 600); // glyph 1 advance
    push_i16(&mut hmtx, 0); // glyph 1 lsb
    hmtx
}

/// Glyph 1 = closed square contour (0,0)-(500,500).
fn glyf_table() -> Vec<u8> {
    let mut glyf = Vec::new();
    push_i16(&mut glyf, 1); // one contour
    push_i16(&mut glyf, 0); // x_min
    push_i16(&mut glyf, 0); // y_min
    push_i16(&mut glyf, 500); // x_max
    push_i16(&mut glyf, 500); // y_max
    push_u16(&mut glyf, 3); // end point of contour 0 (4 points)
    push_u16(&mut glyf, 0); // instruction length
    glyf.extend_from_slice(&[0x01, 0x01, 0x01, 0x01]);
    for d in [0i16, 500, 0, -500] {
        push_i16(&mut glyf, d);
    }
    for d in [0i16, 0, 500, 0] {
        push_i16(&mut glyf, d);
    }
    glyf
}

fn loca_table(glyf_len: usize) -> Vec<u8> {
    let mut loca = Vec::new();
    push_u16(&mut loca, 0); // glyph 0 start
    push_u16(&mut loca, 0); // glyph 1 start (glyph 0 is empty)
    push_u16(&mut loca, (glyf_len / 2) as u16); // end
    loca
}

/// cmap with one format-4 subtable mapping 'A' (0x41) to glyph 1.
fn cmap_table() -> Vec<u8> {
    let mut sub4 = Vec::new();
    push_u16(&mut sub4, 4); // format
    let seg_count_x2 = 4u16;
    push_u16(&mut sub4, 0); // length (patched below)
    push_u16(&mut sub4, 0); // language
    push_u16(&mut sub4, seg_count_x2);
    push_u16(&mut sub4, 4); // search range
    push_u16(&mut sub4, 1); // entry selector
    push_u16(&mut sub4, 0); // range shift
    push_u16(&mut sub4, 0x41); // end_count[0]
    push_u16(&mut sub4, 0xFFFF); // end_count[1]
    push_u16(&mut sub4, 0); // reserved pad
    push_u16(&mut sub4, 0x41); // start_count[0]
    push_u16(&mut sub4, 0xFFFF); // start_count[1]
    push_i16(&mut sub4, (1i32 - 0x41) as i16); // id_delta[0]: 'A' -> glyph 1
    push_i16(&mut sub4, 1); // id_delta[1]
    push_u16(&mut sub4, 0); // id_range_offset[0]
    push_u16(&mut sub4, 0); // id_range_offset[1]
    let sub4_len = sub4.len() as u16;
    sub4[2..4].copy_from_slice(&sub4_len.to_be_bytes());

    let mut cmap = Vec::new();
    push_u16(&mut cmap, 0); // version
    push_u16(&mut cmap, 1); // one encoding record
    push_u16(&mut cmap, 3); // platform: Windows
    push_u16(&mut cmap, 1); // encoding: Unicode BMP
    push_u32(&mut cmap, 12); // subtable offset (4 header + 8 record)
    cmap.extend_from_slice(&sub4);
    cmap
}

/// A legacy `kern` table with one horizontal format-0 subtable holding `pairs`.
fn kern_table(pairs: &[(u16, u16, i16)]) -> Vec<u8> {
    let mut kern = Vec::new();
    push_u16(&mut kern, 0); // version
    push_u16(&mut kern, 1); // one subtable
    push_u16(&mut kern, 0); // subtable version
    push_u16(&mut kern, (14 + 6 * pairs.len()) as u16); // length
    push_u16(&mut kern, 0x0001); // coverage: horizontal, format 0
    push_u16(&mut kern, pairs.len() as u16);
    push_u16(&mut kern, 0); // search range
    push_u16(&mut kern, 0); // entry selector
    push_u16(&mut kern, 0); // range shift
    for &(l, r, v) in pairs {
        push_u16(&mut kern, l);
        push_u16(&mut kern, r);
        push_i16(&mut kern, v);
    }
    kern
}

fn standard_tables() -> Vec<TableEntry> {
    let glyf = glyf_table();
    let loca = loca_table(glyf.len());
    vec![
        TableEntry { tag: *b"cmap", data: cmap_table() },
        TableEntry { tag: *b"glyf", data: glyf },
        TableEntry { tag: *b"head", data: head_table(0) },
        TableEntry { tag: *b"hhea", data: hhea_table() },
        TableEntry { tag: *b"hmtx", data: hmtx_table() },
        TableEntry { tag: *b"loca", data: loca },
        TableEntry { tag: *b"maxp", data: maxp_table() },
    ]
}

fn assemble(tables: &[TableEntry]) -> Vec<u8> {
    let num_tables = tables.len() as u16;
    let mut font = Vec::new();
    push_u32(&mut font, 0x0001_0000); // scaler type
    push_u16(&mut font, num_tables);
    push_u16(&mut font, 0); // search range
    push_u16(&mut font, 0); // entry selector
    push_u16(&mut font, 0); // range shift

    let mut data_offset = 12 + tables.len() * 16;
    let mut body = Vec::new();
    for t in tables {
        font.extend_from_slice(&t.tag);
        push_u32(&mut font, 0); // checksum (unchecked by the parser)
        push_u32(&mut font, data_offset as u32);
        push_u32(&mut font, t.data.len() as u32);
        body.extend_from_slice(&t.data);
        let pad = (4 - t.data.len() % 4) % 4;
        body.extend_from_slice(&vec![0u8; pad]);
        data_offset += t.data.len() + pad;
    }
    font.extend_from_slice(&body);
    font
}

/// A minimal but structurally valid TrueType font: glyph 0 = empty
/// (missing glyph), glyph 1 = a 500x500 unit square mapped to 'A' through
/// a cmap format 4 subtable. units_per_em = 1000.
fn build_test_font() -> Vec<u8> {
    assemble(&standard_tables())
}

fn without(tag: &[u8; 4]) -> Vec<u8> {
    let tables: Vec<TableEntry> = standard_tables().into_iter().filter(|t| &t.tag != tag).collect();
    assemble(&tables)
}

fn with_table(tag: &[u8; 4], data: Vec<u8>) -> Vec<u8> {
    let mut tables: Vec<TableEntry> = standard_tables().into_iter().filter(|t| &t.tag != tag).collect();
    tables.push(TableEntry { tag: *tag, data });
    assemble(&tables)
}

/// What rendering a character asks of the font, short of rasterizing.
fn touch_char(font: &TrueTypeFont, c: char) {
    let id = font.lookup_glyph_index(c);
    let _ = font.outline_for(id);
    let _ = font.get_metrics(id);
}

// ---------------------------------------------------------------------------
// Parsing
// ---------------------------------------------------------------------------

#[test]
fn parses_synthetic_font() {
    let bytes = build_test_font();
    assert!(TrueTypeFont::load_font(&bytes).is_ok());
}

#[test]
fn truncated_fonts_never_panic() {
    let bytes = build_test_font();
    for len in 0..bytes.len() {
        if let Ok(font) = TrueTypeFont::load_font(&bytes[..len]) {
            touch_char(&font, 'A');
            touch_char(&font, 'Z');
        }
    }
}

#[test]
fn corrupted_fonts_never_panic() {
    let base = build_test_font();
    for pos in 0..base.len() {
        for val in [0x00u8, 0xFF, 0x7F, 0x80] {
            let mut bytes = base.clone();
            if bytes[pos] == val {
                continue;
            }
            bytes[pos] = val;
            if let Ok(font) = TrueTypeFont::load_font(&bytes) {
                touch_char(&font, 'A');
                touch_char(&font, 'Z');
            }
        }
    }
}

#[test]
fn empty_and_garbage_input() {
    assert!(TrueTypeFont::load_font(&[]).is_err());
    assert!(TrueTypeFont::load_font(&[0u8; 4]).is_err());
    let garbage: Vec<u8> = (0..1024u32).map(|i| (i * 7 + 13) as u8).collect();
    if let Ok(font) = TrueTypeFont::load_font(&garbage) {
        touch_char(&font, 'A');
    }
}

#[test]
fn kerning_absent_is_none() {
    let bytes = build_test_font(); // no kern table
    let font = TrueTypeFont::load_font(&bytes).unwrap();
    assert!(font.get_kerning('A', 'A').is_none());
}

// ---------------------------------------------------------------------------
// What a loaded font holds
// ---------------------------------------------------------------------------

#[test]
fn mapped_char_reaches_its_glyph() {
    let font = TrueTypeFont::load_font(&build_test_font()).unwrap();
    assert_eq!(font.lookup_glyph_index('A'), 1);
    assert_eq!(font.get_glyph_id('A'), 1);
    assert_eq!(font.glyph_data_table.len(), 2);
    assert!(font.glyph_data_table[0].is_some());
    assert!(font.glyph_data_table[1].is_some());
}

#[test]
fn unmapped_char_maps_to_missing_glyph() {
    let font = TrueTypeFont::load_font(&build_test_font()).unwrap();
    assert_eq!(font.lookup_glyph_index('Z'), 0);
    assert_eq!(font.get_glyph_id('Z'), 0);
    let missing = font.outline_for(0).unwrap();
    assert_eq!(missing.contours.len(), 0);
    // An id past the glyph table falls back to the missing glyph too.
    assert_eq!(font.outline_for(77).unwrap().contours.len(), 0);
}

#[test]
fn square_outline_points() {
    let font = TrueTypeFont::load_font(&build_test_font()).unwrap();
    let square = font.outline_for(1).unwrap();
    assert_eq!(square.y_max, 500);
    assert_eq!(square.contours.len(), 1);
    let pts: Vec<(i32, i32, bool)> = square.contours[0].points.iter().map(|p| (p.x, p.y, p.on_curve)).collect();
    assert_eq!(pts, vec![(0, 500, true), (500, 500, true), (500, 0, true), (0, 0, true)]);
    assert!(square.contours[0].component.is_none());
}

#[test]
fn metrics_in_font_units() {
    let font = TrueTypeFont::load_font(&build_test_font()).unwrap();
    assert_eq!(font.get_metrics(0), (600, 0));
    assert_eq!(font.get_metrics(1), (600, 0));
    assert_eq!(font.get_metrics(2), (0, 0));
    assert_eq!(font.head.units_per_em, 1000);
    assert_eq!(font.hhea.number_of_h_metrics, 2);
    assert_eq!(font.maxp.num_glyphs, 2);
}

#[test]
fn loaded_font_has_empty_cache() {
    let font = TrueTypeFont::load_font(&build_test_font()).unwrap();
    assert!(font.cache.is_empty());
    assert_eq!(font.tables.len(), 7);
}

// ---------------------------------------------------------------------------
// Refusals
// ---------------------------------------------------------------------------

#[test]
fn short_data_is_invalid() {
    assert!(matches!(TrueTypeFont::load_font(&[0u8; 11]), Err(FontError::InvalidFile)));
}

#[test]
fn truncated_directory_is_end_of_file() {
    let bytes = build_test_font();
    assert!(matches!(TrueTypeFont::load_font(&bytes[..40]), Err(FontError::UnexpectedEndOfFile)));
}

#[test]
fn each_missing_table_is_named() {
    for (tag, name) in [
        (b"cmap", "cmap"),
        (b"hhea", "hhea"),
        (b"head", "head"),
        (b"maxp", "maxp"),
        (b"loca", "loca"),
        (b"glyf", "glyf"),
        (b"hmtx", "hmtx"),
    ] {
        match TrueTypeFont::load_font(&without(tag)) {
            Err(FontError::TableNotFound(t)) => assert_eq!(t, name),
            _ => panic!("missing {} not reported", name),
        }
    }
}

#[test]
fn bad_loca_format_is_invalid() {
    let bytes = with_table(b"head", head_table(7));
    assert!(matches!(TrueTypeFont::load_font(&bytes), Err(FontError::InvalidFile)));
}

#[test]
fn short_loca_is_end_of_file() {
    // Long offsets need 12 bytes for 2 glyphs; the table, last in the file, holds 6.
    let mut tables: Vec<TableEntry> = standard_tables()
        .into_iter()
        .filter(|t| &t.tag != b"loca" && &t.tag != b"head")
        .collect();
    tables.push(TableEntry { tag: *b"head", data: head_table(1) });
    tables.push(TableEntry { tag: *b"loca", data: vec![0u8; 6] });
    let bytes = assemble(&tables);
    assert!(matches!(TrueTypeFont::load_font(&bytes), Err(FontError::UnexpectedEndOfFile)));
}

#[test]
fn bad_format4_subtable_is_invalid() {
    let mut cmap = cmap_table();
    // Declared subtable length shorter than its segment arrays.
    cmap[12 + 2] = 0;
    cmap[12 + 3] = 8;
    let bytes = with_table(b"cmap", cmap);
    assert!(matches!(TrueTypeFont::load_font(&bytes), Err(FontError::InvalidFile)));
}

// ---------------------------------------------------------------------------
// Kerning
// ---------------------------------------------------------------------------

#[test]
fn legacy_kern_pairs_are_found() {
    let bytes = with_table(b"kern", kern_table(&[(1, 1, -50), (0, 1, 7)]));
    let font = TrueTypeFont::load_font(&bytes).unwrap();
    assert_eq!(font.get_kerning('A', 'A'), Some(-50));
    assert_eq!(font.get_kerning_by_id(1, 1), Some(-50));
    assert_eq!(font.get_kerning_by_id(0, 1), Some(7));
    // 'Z' is unmapped, so it kerns as glyph 0.
    assert_eq!(font.get_kerning('Z', 'A'), Some(7));
    assert_eq!(font.get_kerning_by_id(1, 0), None);
}

#[test]
fn later_kern_pair_replaces_earlier() {
    let bytes = with_table(b"kern", kern_table(&[(1, 1, -50), (1, 1, -20)]));
    let font = TrueTypeFont::load_font(&bytes).unwrap();
    assert_eq!(font.get_kerning_by_id(1, 1), Some(-20));
}

/// cmap with one format-12 subtable (Windows, full repertoire) whose only
/// group maps 'A'..'C' to glyphs 1..3.
fn cmap12_table() -> Vec<u8> {
    let mut cmap = Vec::new();
    push_u16(&mut cmap, 0); // version
    push_u16(&mut cmap, 1); // one encoding record
    push_u16(&mut cmap, 3); // platform: Windows
    push_u16(&mut cmap, 10); // encoding: full repertoire
    push_u32(&mut cmap, 12); // subtable offset
    push_u16(&mut cmap, 12); // format
    push_u16(&mut cmap, 0); // reserved
    push_u32(&mut cmap, 28); // length
    push_u32(&mut cmap, 0); // language
    push_u32(&mut cmap, 1); // groups
    push_u32(&mut cmap, 0x41);
    push_u32(&mut cmap, 0x43);
    push_u32(&mut cmap, 1);
    cmap
}

#[test]
fn format12_index_stops_at_glyph_count() {
    let font = TrueTypeFont::load_font(&with_table(b"cmap", cmap12_table())).unwrap();
    assert_eq!(font.lookup_glyph_index('A'), 1);
    // Glyphs 2 and 3 lie past the font's 2 glyphs and are left out.
    assert_eq!(font.lookup_glyph_index('B'), 0);
    assert_eq!(font.lookup_glyph_index('C'), 0);
    assert!(font.glyph_data_table[1].is_some());
}

/// Glyph 1 is the square, glyph 2 a composite placing glyph 1 at (100, 50);
/// 'A' maps to glyph 1 and 'B' to glyph 2.
fn composite_font() -> Vec<u8> {
    composite_font_with(true)
}

/// The composite font; with `map_b` false, glyph 2 is reached by no character.
fn composite_font_with(map_b: bool) -> Vec<u8> {
    let mut glyf = glyf_table();
    let glyph2_start = glyf.len();
    push_i16(&mut glyf, -1); // composite
    push_i16(&mut glyf, 0);
    push_i16(&mut glyf, 0);
    push_i16(&mut glyf, 600);
    push_i16(&mut glyf, 550); // y_max
    push_u16(&mut glyf, 0x0003); // ARGS_ARE_WORDS | ARGS_ARE_XY_VALUES
    push_u16(&mut glyf, 1); // component glyph
    push_i16(&mut glyf, 100);
    push_i16(&mut glyf, 50);
    let mut loca = Vec::new();
    push_u16(&mut loca, 0);
    push_u16(&mut loca, 0);
    push_u16(&mut loca, (glyph2_start / 2) as u16);
    push_u16(&mut loca, (glyf.len() / 2) as u16);

    let mut maxp = maxp_table();
    maxp[4..6].copy_from_slice(&3u16.to_be_bytes());
    let mut hmtx = hmtx_table();
    push_i16(&mut hmtx, 25); // glyph 2: side bearing only

    let mut cmap = cmap_table();
    if map_b {
        // Segment 0 becomes 'A'..'B'.
        cmap[12 + 14..12 + 16].copy_from_slice(&0x42u16.to_be_bytes());
    }

    let tables = vec![
        TableEntry { tag: *b"cmap", data: cmap },
        TableEntry { tag: *b"glyf", data: glyf },
        TableEntry { tag: *b"head", data: head_table(0) },
        TableEntry { tag: *b"hhea", data: hhea_table() },
        TableEntry { tag: *b"hmtx", data: hmtx },
        TableEntry { tag: *b"loca", data: loca },
        TableEntry { tag: *b"maxp", data: maxp },
    ];
    assemble(&tables)
}

#[test]
fn composite_glyph_takes_component_contours() {
    let font = TrueTypeFont::load_font(&composite_font()).unwrap();
    assert_eq!(font.lookup_glyph_index('B'), 2);
    let outline = font.outline_for(2).unwrap();
    assert_eq!(outline.y_max, 550);
    assert_eq!(outline.contours.len(), 1);
    let contour = &outline.contours[0];
    let pts: Vec<(i32, i32)> = contour.points.iter().map(|p| (p.x, p.y)).collect();
    // A component's contour is closed by repeating its first point.
    assert_eq!(pts, vec![(0, 500), (500, 500), (500, 0), (0, 0), (0, 500)]);
    let comp = contour.component.unwrap();
    assert_eq!(comp.glyph_index, 1);
    assert_eq!((comp.argument1, comp.argument2), (100, 50));
    assert_eq!(comp.flags, 0x0003);
    assert!(comp.scale.is_none());
    // Glyph 2 has no long metric of its own: it reuses the last advance.
    assert_eq!(font.get_metrics(2), (600, 25));
}

#[test]
fn glyph_record_fields() {
    let bytes = composite_font();
    let font = TrueTypeFont::load_font(&bytes).unwrap();
    let square = parse_glyph(&bytes, &font.loca, &font.glyf, font.maxp.num_glyphs, 1).unwrap();
    assert_eq!(square._get_x_max(), 500);
    assert_eq!(square._get_y_max(), 500);
    assert_eq!(square._get_contour_end_points(), vec![3]);
    let composite = parse_glyph(&bytes, &font.loca, &font.glyf, font.maxp.num_glyphs, 2).unwrap();
    assert_eq!(composite._get_x_max(), 600);
    assert_eq!(composite._get_y_min(), 0);
    assert!(matches!(composite, ProtoGlyph::Composite(_)));
    let empty = parse_glyph(&bytes, &font.loca, &font.glyf, font.maxp.num_glyphs, 0).unwrap();
    assert!(matches!(empty, ProtoGlyph::Empty));
    assert_eq!(empty._get_x_min(), 0);
    assert!(parse_glyph(&bytes, &font.loca, &font.glyf, font.maxp.num_glyphs, 3).is_none());
}

/// A GPOS table whose `kern` feature has one class-matrix subtable giving
/// the pair (glyph 1, glyph 1) an adjustment of -30.
fn gpos_table() -> Vec<u8> {
    let mut b = Vec::new();
    push_u16(&mut b, 1);
    push_u16(&mut b, 0);
    push_u16(&mut b, 0); // script list
    push_u16(&mut b, 10); // feature list
    push_u16(&mut b, 24); // lookup list
    push_u16(&mut b, 1); // feature list at 10
    b.extend_from_slice(b"kern");
    push_u16(&mut b, 8);
    push_u16(&mut b, 0); // feature at 18
    push_u16(&mut b, 1);
    push_u16(&mut b, 0);
    push_u16(&mut b, 1); // lookup list at 24
    push_u16(&mut b, 4);
    push_u16(&mut b, 2); // lookup at 28: pair adjustment
    push_u16(&mut b, 0);
    push_u16(&mut b, 1);
    push_u16(&mut b, 8); // subtable at 36
    // PairPos format 2 at 36
    push_u16(&mut b, 2);
    push_u16(&mut b, 24); // coverage
    push_u16(&mut b, 0x0004);
    push_u16(&mut b, 0);
    push_u16(&mut b, 30); // class def 1
    push_u16(&mut b, 38); // class def 2
    push_u16(&mut b, 2);
    push_u16(&mut b, 2);
    for v in [0i16, 0, 0, -30] {
        push_i16(&mut b, v);
    }
    for w in [1u16, 1, 1] {
        push_u16(&mut b, w); // coverage: glyph 1
    }
    for w in [1u16, 1, 1, 1] {
        push_u16(&mut b, w); // class def 1: glyph 1 is class 1
    }
    for w in [1u16, 1, 1, 1] {
        push_u16(&mut b, w); // class def 2: glyph 1 is class 1
    }
    b
}

#[test]
fn gpos_class_kerning() {
    let font = TrueTypeFont::load_font(&with_table(b"GPOS", gpos_table())).unwrap();
    assert_eq!(font.gpos_kern.len(), 1);
    assert_eq!(font.get_kerning('A', 'A'), Some(-30));
    assert_eq!(font.get_kerning('A', 'Z'), None);
    assert_eq!(font.get_kerning_by_id(0, 1), None);
}

#[test]
fn explicit_pairs_win_over_class_matrices() {
    let mut tables = standard_tables();
    tables.push(TableEntry { tag: *b"kern", data: kern_table(&[(1, 1, -50)]) });
    tables.push(TableEntry { tag: *b"GPOS", data: gpos_table() });
    let font = TrueTypeFont::load_font(&assemble(&tables)).unwrap();
    assert_eq!(font.get_kerning('A', 'A'), Some(-50));
}

#[test]
fn truncated_format12_subtable_is_end_of_file() {
    let mut cmap = cmap12_table();
    // Claim 1000 groups; only one is there.
    cmap[12 + 12..12 + 16].copy_from_slice(&1000u32.to_be_bytes());
    let mut tables: Vec<TableEntry> = standard_tables().into_iter().filter(|t| &t.tag != b"cmap").collect();
    tables.push(TableEntry { tag: *b"cmap", data: cmap });
    assert!(matches!(TrueTypeFont::load_font(&assemble(&tables)), Err(FontError::UnexpectedEndOfFile)));
}

#[test]
fn supplementary_char_misses_format4_subtable() {
    let font = TrueTypeFont::load_font(&build_test_font()).unwrap();
    let c = char::from_u32(0x10041).unwrap();
    assert_eq!(font.get_glyph_id(c), 0);
    assert_eq!(font.lookup_glyph_index(c), 0);
}

#[test]
fn every_glyph_is_loaded() {
    let font = TrueTypeFont::load_font(&composite_font_with(false)).unwrap();
    assert_eq!(font.lookup_glyph_index('B'), 0);
    assert_eq!(font.glyph_data_table.len(), 3);
    // Glyph 2 is reached by no character, yet its outline is there.
    let outline = font.outline_for(2).unwrap();
    assert_eq!(outline.y_max, 550);
    assert_eq!(outline.contours.len(), 1);
    assert_eq!(outline.contours[0].points.len(), 5);
}

#[test]
fn repeated_flags_keep_each_point_bit() {
    let mut glyf = glyf_table();
    // Flags: one on-curve flag repeated twice more, then an off-curve flag.
    glyf[14..18].copy_from_slice(&[0x09, 2, 0x00, 0x00]);
    // The flags are now one byte shorter: move the coordinates up.
    glyf.remove(17);
    let loca = loca_table(glyf.len() + 1);
    glyf.push(0);
    let mut tables: Vec<TableEntry> =
        standard_tables().into_iter().filter(|t| &t.tag != b"glyf" && &t.tag != b"loca").collect();
    tables.push(TableEntry { tag: *b"glyf", data: glyf });
    tables.push(TableEntry { tag: *b"loca", data: loca });
    let font = TrueTypeFont::load_font(&assemble(&tables)).unwrap();
    let outline = font.outline_for(1).unwrap();
    let on: Vec<bool> = outline.contours[0].points.iter().map(|p| p.on_curve).collect();
    assert_eq!(on, vec![true, true, true, false]);
    let pts: Vec<(i32, i32)> = outline.contours[0].points.iter().map(|p| (p.x, p.y)).collect();
    assert_eq!(pts, vec![(0, 500), (500, 500), (500, 0), (0, 0)]);
}

#[test]
fn truncated_glyph_record_is_empty() {
    // glyf last in the file, its final coordinate words cut off.
    let mut tables: Vec<TableEntry> = standard_tables().into_iter().filter(|t| &t.tag != b"glyf").collect();
    tables.push(TableEntry { tag: *b"glyf", data: glyf_table() });
    let mut bytes = assemble(&tables);
    bytes.truncate(bytes.len() - 4);
    let font = TrueTypeFont::load_font(&bytes).unwrap();
    assert_eq!(font.lookup_glyph_index('A'), 1);
    assert_eq!(font.outline_for(1).unwrap().contours.len(), 0);
    assert!(parse_glyph(&bytes, &font.loca, &font.glyf, font.maxp.num_glyphs, 1).is_none());
}

#[test]
fn format12_index_agrees_with_lookup() {
    let font = TrueTypeFont::load_font(&with_table(b"cmap", cmap12_table())).unwrap();
    for c in ['@', 'A', 'B', 'C', 'D', '\u{1F600}'] {
        let g = font.get_glyph_id(c);
        let expected = if g > 0 && g < 2 { g } else { 0 };
        assert_eq!(font.lookup_glyph_index(c), expected);
    }
    assert_eq!(font.get_glyph_id('B'), 2);
    assert_eq!(font.get_glyph_id('D'), 0);
}
