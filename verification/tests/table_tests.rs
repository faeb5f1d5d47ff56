use std::collections::HashMap;
use titanf::outline::expand_flags;
use titanf::tables::cmap::{
    lookup_in_subtable, parse_format0, parse_format12, parse_format4, parse_format6, SupportedCmapFormats,
};
use titanf::tables::gpos::{parse_pair_pos, value_len, xadvance_offset, ClassPairTable};
use titanf::tables::hmtx::HmtxTable;
use titanf::tables::otl::{for_each_subtable, feature_lookups, lookup_list_offset, ClassDef, Coverage};

fn be16(v: &mut Vec<u8>, x: u16) {
    v.extend_from_slice(&x.to_be_bytes());
}

fn be32(v: &mut Vec<u8>, x: u32) {
    v.extend_from_slice(&x.to_be_bytes());
}

#[test]
fn format0_lookup() {
    let mut b = vec![0u8, 0, 1, 6, 0, 0];
    for i in 0..256u32 {
        b.push((i % 7) as u8);
    }
    let d = parse_format0(&b, 0);
    assert_eq!(d.glyph_id_array[10], 3);
    let sub = SupportedCmapFormats::Format0 { platform_id: 1, encoding_id: 0, data: d };
    assert_eq!(lookup_in_subtable(&sub, 10), 3);
    assert_eq!(lookup_in_subtable(&sub, 300), 0);
}

#[test]
fn format6_lookup() {
    let mut b = Vec::new();
    be16(&mut b, 6);
    be16(&mut b, 16);
    be16(&mut b, 0);
    be16(&mut b, 0x20); // first code
    be16(&mut b, 3); // entry count
    for g in [5u16, 6, 9] {
        be16(&mut b, g);
    }
    let d = parse_format6(&b, 0);
    assert_eq!(d.first_code, 0x20);
    assert_eq!(d.glyph_id_array, vec![5, 6, 9]);
    let sub = SupportedCmapFormats::Format6 { platform_id: 3, encoding_id: 1, data: d };
    assert_eq!(lookup_in_subtable(&sub, 0x22), 9);
    assert_eq!(lookup_in_subtable(&sub, 0x23), 0);
    assert_eq!(lookup_in_subtable(&sub, 0x1F), 0);
    // Format 6 covers the Basic Multilingual Plane only.
    assert_eq!(lookup_in_subtable(&sub, 0x10022), 0);
}

#[test]
fn format4_lookup_with_range_offset() {
    // Segment 0: 0x30..0x32 through the glyph id array; segment 1: terminator.
    let mut b = Vec::new();
    be16(&mut b, 4);
    be16(&mut b, 0); // length, patched
    be16(&mut b, 0);
    be16(&mut b, 4); // seg_count_x2
    be16(&mut b, 0);
    be16(&mut b, 0);
    be16(&mut b, 0);
    be16(&mut b, 0x32); // end[0]
    be16(&mut b, 0xFFFF); // end[1]
    be16(&mut b, 0); // pad
    be16(&mut b, 0x30); // start[0]
    be16(&mut b, 0xFFFF); // start[1]
    be16(&mut b, 10); // delta[0]
    be16(&mut b, 1); // delta[1]
    be16(&mut b, 4); // range offset[0]: skips range offset[1], lands on glyph id array
    be16(&mut b, 0); // range offset[1]
    for g in [7u16, 0, 9] {
        be16(&mut b, g);
    }
    let len = b.len() as u16;
    b[2..4].copy_from_slice(&len.to_be_bytes());
    let d = parse_format4(&b, 0).unwrap();
    assert_eq!(d.glyph_id_array, vec![7, 0, 9]);
    let sub = SupportedCmapFormats::Format4 { platform_id: 0, encoding_id: 3, data: d };
    assert_eq!(lookup_in_subtable(&sub, 0x30), 17);
    assert_eq!(lookup_in_subtable(&sub, 0x31), 0);
    assert_eq!(lookup_in_subtable(&sub, 0x32), 19);
    assert_eq!(lookup_in_subtable(&sub, 0x2F), 0);
    assert_eq!(lookup_in_subtable(&sub, 0x40), 0);
    // Format 4 covers the Basic Multilingual Plane only.
    assert_eq!(lookup_in_subtable(&sub, 0x10030), 0);
}

#[test]
fn format4_short_length_is_refused() {
    let mut b = Vec::new();
    be16(&mut b, 4);
    be16(&mut b, 20); // shorter than 16 + 8 * 2
    be16(&mut b, 0);
    be16(&mut b, 4);
    b.extend_from_slice(&[0u8; 40]);
    assert!(parse_format4(&b, 0).is_none());
}

#[test]
fn format12_lookup() {
    let mut b = Vec::new();
    be16(&mut b, 12);
    be16(&mut b, 0);
    be32(&mut b, 40);
    be32(&mut b, 0);
    be32(&mut b, 2); // groups
    for (s, e, g) in [(0x41u32, 0x43u32, 10u32), (0x1F600, 0x1F601, 50)] {
        be32(&mut b, s);
        be32(&mut b, e);
        be32(&mut b, g);
    }
    let d = parse_format12(&b, 0).unwrap();
    assert_eq!(d.groups.len(), 2);
    let sub = SupportedCmapFormats::Format12 { platform_id: 3, encoding_id: 10, data: d };
    assert_eq!(lookup_in_subtable(&sub, 0x43), 12);
    assert_eq!(lookup_in_subtable(&sub, 0x1F601), 51);
    assert_eq!(lookup_in_subtable(&sub, 0x1F600), 50);
    assert_eq!(lookup_in_subtable(&sub, 0x42), 11);
    assert_eq!(lookup_in_subtable(&sub, 0x41), 10);
    assert_eq!(lookup_in_subtable(&sub, 0x1F602), 0);
    assert_eq!(lookup_in_subtable(&sub, 0x44), 0);
    // Groups running past the data are refused.
    assert!(parse_format12(&b[..30], 0).is_none());
}

#[test]
fn flags_expand_with_repeats() {
    // on-curve, then off-curve repeated 2 more times, then on-curve.
    let raw = [0x01u8, 0x08, 2, 0x01];
    assert_eq!(expand_flags(&raw, 5), vec![true, false, false, false, true]);
    assert_eq!(expand_flags(&raw, 2), vec![true, false]);
    assert_eq!(expand_flags(&[0x09, 200], 3), vec![true, true, true]);
    assert_eq!(expand_flags(&[], 3), Vec::<bool>::new());
}

#[test]
fn hmtx_metrics_fallbacks() {
    let mut b = Vec::new();
    be16(&mut b, 500);
    be16(&mut b, 10);
    be16(&mut b, 0xFFF6); // lsb -10 for glyph 1
    let t = HmtxTable::parse(&b, 0, 1, 2).unwrap();
    assert_eq!(t.metrics(0), (500, 10));
    assert_eq!(t.metrics(1), (500, -10));
    assert_eq!(t.metrics(2), (0, 0));
    assert!(HmtxTable::parse(&b, 0, 2, 2).is_none());
}

#[test]
fn value_record_layout() {
    assert_eq!(value_len(0), 0);
    assert_eq!(value_len(0x0004), 2);
    assert_eq!(value_len(0x00FF), 16);
    assert_eq!(xadvance_offset(0x0004), 0);
    assert_eq!(xadvance_offset(0x0005), 2);
    assert_eq!(xadvance_offset(0x0007), 4);
}

#[test]
fn coverage_formats() {
    let mut b = Vec::new();
    be16(&mut b, 1);
    be16(&mut b, 3);
    for g in [4u16, 9, 20] {
        be16(&mut b, g);
    }
    let c = Coverage::parse(&b, 0).unwrap();
    assert_eq!(c.index_of(9), Some(1));
    assert_eq!(c.index_of(20), Some(2));
    assert_eq!(c.index_of(5), None);

    let mut r = Vec::new();
    be16(&mut r, 2);
    be16(&mut r, 2);
    for (s, e, i) in [(10u16, 12u16, 0u16), (30, 31, 3)] {
        be16(&mut r, s);
        be16(&mut r, e);
        be16(&mut r, i);
    }
    let c = Coverage::parse(&r, 0).unwrap();
    assert_eq!(c.index_of(11), Some(1));
    assert_eq!(c.index_of(31), Some(4));
    assert_eq!(c.index_of(13), None);
    assert!(Coverage::parse(&r[..8], 0).is_none());
    assert!(Coverage::parse(&[0, 3, 0, 0], 0).is_none());
}

#[test]
fn class_definitions() {
    let mut b = Vec::new();
    be16(&mut b, 1);
    be16(&mut b, 5); // start glyph
    be16(&mut b, 3);
    for c in [1u16, 2, 1] {
        be16(&mut b, c);
    }
    let d = ClassDef::parse(&b, 0).unwrap();
    assert_eq!(d.class_of(6), 2);
    assert_eq!(d.class_of(4), 0);
    assert_eq!(d.class_of(8), 0);

    let mut r = Vec::new();
    be16(&mut r, 2);
    be16(&mut r, 1);
    be16(&mut r, 100);
    be16(&mut r, 110);
    be16(&mut r, 7);
    let d = ClassDef::parse(&r, 0).unwrap();
    assert_eq!(d.class_of(105), 7);
    assert_eq!(d.class_of(111), 0);
}

/// A PairPos format-1 subtable: glyph 3 followed by glyph 8 kerns by -40.
fn pair_pos_format1() -> Vec<u8> {
    let mut b = Vec::new();
    be16(&mut b, 1); // format
    be16(&mut b, 12); // coverage offset
    be16(&mut b, 0x0004); // value format 1: x advance
    be16(&mut b, 0); // value format 2
    be16(&mut b, 1); // pair set count
    be16(&mut b, 18); // pair set offset
    // coverage at 12
    be16(&mut b, 1);
    be16(&mut b, 1);
    be16(&mut b, 3);
    // pair set at 18
    be16(&mut b, 2);
    be16(&mut b, 8);
    be16(&mut b, 0xFFD8); // -40
    be16(&mut b, 9);
    be16(&mut b, 0); // zero adjustments are skipped
    b
}

#[test]
fn pair_pos_explicit_pairs() {
    let b = pair_pos_format1();
    let mut kern: HashMap<u64, i16> = HashMap::new();
    let mut tables: Vec<ClassPairTable> = Vec::new();
    parse_pair_pos(&b, 0, &mut kern, &mut tables);
    assert_eq!(kern.len(), 1);
    assert_eq!(kern.get(&((3u64 << 32) | 8)), Some(&-40));
    assert!(tables.is_empty());
}

#[test]
fn pair_pos_class_matrix() {
    let mut b = Vec::new();
    be16(&mut b, 2); // format
    be16(&mut b, 24); // coverage offset
    be16(&mut b, 0x0004); // value format 1
    be16(&mut b, 0); // value format 2
    be16(&mut b, 30); // class def 1 offset
    be16(&mut b, 38); // class def 2 offset
    be16(&mut b, 2); // class 1 count
    be16(&mut b, 2); // class 2 count
    for v in [0i16, 0, 0, -25] {
        b.extend_from_slice(&v.to_be_bytes());
    }
    // coverage at 24: glyph 3
    be16(&mut b, 1);
    be16(&mut b, 1);
    be16(&mut b, 3);
    // class def 1 at 30: glyph 3 is class 1
    be16(&mut b, 1);
    be16(&mut b, 3);
    be16(&mut b, 1);
    be16(&mut b, 1);
    // class def 2 at 38: glyph 8 is class 1
    be16(&mut b, 1);
    be16(&mut b, 8);
    be16(&mut b, 1);
    be16(&mut b, 1);
    let mut kern: HashMap<u64, i16> = HashMap::new();
    let mut tables: Vec<ClassPairTable> = Vec::new();
    parse_pair_pos(&b, 0, &mut kern, &mut tables);
    assert!(kern.is_empty());
    assert_eq!(tables.len(), 1);
    assert_eq!(tables[0].lookup(3, 8), Some(-25));
    assert_eq!(tables[0].lookup(3, 9), Some(0));
    assert_eq!(tables[0].lookup(4, 8), None);
}

#[test]
fn layout_lists() {
    // GPOS header, feature list with a `kern` feature using lookup 0,
    // lookup list with one type-2 lookup holding one subtable.
    let mut b = Vec::new();
    be16(&mut b, 1);
    be16(&mut b, 0);
    be16(&mut b, 0); // script list
    be16(&mut b, 10); // feature list
    be16(&mut b, 24); // lookup list
    // feature list at 10
    be16(&mut b, 1);
    b.extend_from_slice(b"kern");
    be16(&mut b, 8); // feature offset (from feature list)
    // feature at 18
    be16(&mut b, 0);
    be16(&mut b, 1);
    be16(&mut b, 0);
    // lookup list at 24
    be16(&mut b, 1);
    be16(&mut b, 4); // lookup 0 at 28
    // lookup at 28
    be16(&mut b, 2); // type
    be16(&mut b, 0); // flags
    be16(&mut b, 1); // subtable count
    be16(&mut b, 8); // subtable at 36
    b.extend_from_slice(&pair_pos_format1());
    assert_eq!(feature_lookups(&b, 0, b"kern"), vec![0]);
    assert_eq!(feature_lookups(&b, 0, b"liga"), Vec::<u16>::new());
    let ll = lookup_list_offset(&b, 0);
    assert_eq!(ll, 24);
    assert_eq!(for_each_subtable(&b, ll, 0, 9), vec![(2, 36)]);
    assert_eq!(for_each_subtable(&b, ll, 1, 9), Vec::<(u16, usize)>::new());
}
