use jc3vrs::gfx::{GfxFile, Tag};
use jc3vrs::tags::{
    decode_define_sprite, decode_do_abc, decode_file_attributes, decode_place_object,
    decode_scene_labels, decode_symbol_table, dump, dump_tag, interesting_strings, is_interesting,
    parse_abc, parse_sub_tags, tag_name, FileAttributes, TagDump,
};

fn tag_bytes(code: u16, data: &[u8]) -> Vec<u8> {
    let mut out = Vec::new();
    let h = (code << 6) | data.len() as u16;
    out.extend_from_slice(&h.to_le_bytes());
    out.extend_from_slice(data);
    out
}

fn abc_block() -> Vec<u8> {
    let mut d = vec![0x10, 0x00, 0x2E, 0x00];
    d.extend([0, 0, 0]); // no integers, unsigned integers or doubles
    d.push(4); // three strings
    d.push(4);
    d.extend(b"Main");
    d.push(11);
    d.extend(b"gotoAndPlay");
    d.push(1);
    d.extend(b"x");
    d.extend([2, 0x16, 1]); // one namespace, named "Main"
    d.push(0); // no namespace sets
    d.push(4); // three multinames
    d.extend([0x07, 1, 2]);
    d.extend([0x0F, 1]);
    d.extend([0x07, 1, 2]);
    d.push(0); // method count
    d
}

#[test]
fn names_of_tag_codes() {
    assert_eq!(tag_name(0), "End");
    assert_eq!(tag_name(76), "SymbolClass");
    assert_eq!(tag_name(78), "DoABC");
    assert_eq!(tag_name(82), "DoABC");
    assert_eq!(tag_name(86), "DefineSceneAndFrameLabelData");
    assert_eq!(tag_name(3), "Unknown");
}

#[test]
fn file_attribute_flags() {
    assert_eq!(
        decode_file_attributes(&[0x19]),
        Some(FileAttributes { use_network: true, actionscript3: true, has_metadata: true })
    );
    assert_eq!(
        decode_file_attributes(&[0x08]),
        Some(FileAttributes { use_network: false, actionscript3: true, has_metadata: false })
    );
    assert_eq!(decode_file_attributes(&[]), None);
}

#[test]
fn symbol_tables() {
    let data = [2, 0, 5, 0, b'F', b'o', b'o', 0, 7, 0, b'B', b'a', b'r', 0];
    let t = decode_symbol_table(&data);
    assert_eq!(t.count, 2);
    let rows: Vec<(u16, String)> = t.entries.iter().map(|e| (e.id, e.name.clone())).collect();
    assert_eq!(rows, vec![(5, "Foo".to_string()), (7, "Bar".to_string())]);
    // The declared count may exceed what the payload holds.
    let t = decode_symbol_table(&[9, 0, 1, 0, b'A']);
    assert_eq!(t.count, 9);
    assert_eq!(t.entries.len(), 1);
    assert_eq!(t.entries[0].name, "A");
}

#[test]
fn scene_and_frame_labels() {
    let mut data = vec![1, 0];
    data.extend(b"Scene 1\0");
    data.push(1);
    data.push(3);
    data.extend(b"start\0");
    let s = decode_scene_labels(&data).expect("readable");
    assert_eq!(s.scene_count, 1);
    assert_eq!(s.scenes[0].number, 0);
    assert_eq!(s.scenes[0].name, "Scene 1");
    assert_eq!(s.label_count, 1);
    assert_eq!(s.labels[0].number, 3);
    assert_eq!(s.labels[0].name, "start");
    // Two scenes declared, no data for them: the second name lies past the end.
    assert!(decode_scene_labels(&[2]).is_none());
}

#[test]
fn placements() {
    let data = [0x22, 3, 0, 9, 0, b'h', b'u', b'd', 0];
    let p = decode_place_object(&data, 26).expect("readable");
    assert_eq!(p.depth, 3);
    assert_eq!(p.char_id, Some(9));
    assert_eq!(p.name.as_deref(), Some("hud"));
    assert!(!p.moved);
    // A matrix with no scale, no rotation and zero-width translation takes one byte.
    let p = decode_place_object(&[0x07, 1, 0, 2, 0, 0x00], 26).expect("readable");
    assert_eq!((p.depth, p.char_id, p.moved), (1, Some(2), true));
    // PlaceObject3 has two flag bytes.
    let p = decode_place_object(&[0x00, 0x00, 4, 0], 70).expect("readable");
    assert_eq!(p.depth, 4);
    assert_eq!(p.char_id, None);
    // A ratio that does not fit, and an empty payload, cannot be read.
    assert!(decode_place_object(&[0x10, 1, 0], 26).is_none());
    assert!(decode_place_object(&[], 26).is_none());
}

#[test]
fn sprite_depth_tables() {
    let mut data = vec![4, 0, 2, 0];
    data.extend(tag_bytes(26, &[0x22, 3, 0, 9, 0, b'h', b'u', b'd', 0]));
    data.extend(tag_bytes(1, &[]));
    data.extend(tag_bytes(0, &[]));
    let s = decode_define_sprite(&data).expect("readable");
    assert_eq!((s.sprite_id, s.frame_count), (4, 2));
    assert_eq!(s.placements.len(), 1);
    assert_eq!(s.placements[0].depth, 3);
    assert_eq!(s.placements[0].char_id, 9);
    assert_eq!(s.placements[0].name.as_deref(), Some("hud"));
    let subs = parse_sub_tags(&data[4..]);
    assert_eq!(subs.iter().map(|t| t.code).collect::<Vec<_>>(), vec![26, 1, 0]);
    // An empty placement sub-tag cannot be read.
    let mut bad = vec![4, 0, 2, 0];
    bad.extend(tag_bytes(26, &[]));
    assert!(decode_define_sprite(&bad).is_none());
    assert!(decode_define_sprite(&[1, 2]).is_none());
}

#[test]
fn abc_constant_pools() {
    let abc = parse_abc(&abc_block());
    assert_eq!(abc.strings, vec!["", "Main", "gotoAndPlay", "x"]);
    assert_eq!(abc.namespace_strings, vec!["", "Main"]);
    assert_eq!(abc.multinames, vec!["", "gotoAndPlay", "Main", "gotoAndPlay"]);
    assert_eq!(abc.method_names, vec!["Main", "gotoAndPlay"]);
    assert_eq!(interesting_strings(&abc.strings), vec!["Main", "gotoAndPlay"]);
    assert!(is_interesting(4, 3));
    assert!(!is_interesting(3, 3));
    assert!(!is_interesting(10, 2));
}

#[test]
fn do_abc_tags() {
    let mut data = vec![1, 0, 0, 0];
    data.extend(b"frame1\0");
    data.extend(abc_block());
    let d = decode_do_abc(&data).expect("readable");
    assert_eq!(d.flags, 1);
    assert_eq!(d.name, "frame1");
    assert_eq!(d.abc_start, 11);
    assert_eq!(d.abc.method_names, vec!["Main", "gotoAndPlay"]);
    // A name with no terminator leaves no block to read.
    assert!(decode_do_abc(&[1, 0, 0, 0, b'a']).is_none());
    assert!(decode_do_abc(&[1, 0, 0, 0, 0, 1, 2]).is_none());
}

#[test]
fn dumping_a_file() {
    let mut body = vec![0x00, 0x00, 0x18, 0x01, 0x00];
    body.extend(tag_bytes(69, &[0x08]));
    body.extend(tag_bytes(76, &[1, 0, 5, 0, b'F', 0]));
    body.extend(tag_bytes(1, &[]));
    body.extend(tag_bytes(0, &[]));
    let mut data = b"FWS".to_vec();
    data.push(9);
    data.extend_from_slice(&((body.len() + 8) as u32).to_le_bytes());
    data.extend(&body);
    let g = GfxFile::parse(&data).expect("parses");
    let report = dump(&g);
    assert_eq!(report.len(), 4);
    assert!(matches!(report[0], TagDump::FileAttributes(f) if f.actionscript3));
    match &report[1] {
        TagDump::SymbolClass(t) => assert_eq!(t.entries[0].name, "F"),
        _ => panic!("expected a symbol table"),
    }
    assert!(matches!(report[2], TagDump::Nothing));
    assert!(matches!(dump_tag(&Tag { code: 76, data: vec![1] }), None));
}
