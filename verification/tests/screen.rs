use std::collections::HashMap;
use tricore_rs::decoder::Decoder;
use tricore_rs::isa::tc16::Tc16Decoder;
use tricore_rs::model::{Image, Segment};
use tricore_rs::screen::{code_lines, disasm_preview, hex_rows, label_lines, preview_allowed, segment_lines};

fn image(base: u32, bytes: Vec<u8>) -> Image {
    Image { segments: vec![Segment { name: "s".into(), base, bytes, perms: "r-x", kind: "raw" }] }
}

fn words(ws: &[u32]) -> Vec<u8> {
    ws.iter().flat_map(|w| w.to_le_bytes()).collect()
}

fn code_img() -> Image {
    let movu = (1u32 << 28) | (0x42 << 12) | 0xBB;
    image(0x1000, words(&[movu, 0x0000_0001]))
}

fn labels() -> HashMap<u32, String> {
    let mut l = HashMap::new();
    l.insert(0x1000u32, "Start".to_string());
    l
}

#[test]
fn code_lines_show_labels_and_bytes() {
    let img = code_img();
    let l = code_lines(&img, &[0x1000, 0x1004], &labels(), "", false);
    assert_eq!(l, vec![(0x1000, "Start: 0x00001000: mov d1, #0x42".to_string())]);
    let l = code_lines(&img, &[0x1000, 0x1004], &HashMap::new(), "  ", true);
    assert_eq!(l, vec![(0x1000, "0x00001000: [bb, 20, 04, 10]  mov d1, #0x42".to_string())]);
}

#[test]
fn code_search_ignores_case() {
    let img = code_img();
    let pcs = [0x1000, 0x1004];
    assert_eq!(code_lines(&img, &pcs, &HashMap::new(), "MOV D1", false).len(), 1);
    assert_eq!(code_lines(&img, &pcs, &labels(), "start", false).len(), 1);
    assert_eq!(code_lines(&img, &pcs, &HashMap::new(), "xyz", false).len(), 0);
}

#[test]
fn code_search_by_address() {
    let img = code_img();
    let pcs = [0x1000, 0x1004];
    assert_eq!(code_lines(&img, &pcs, &HashMap::new(), "0x1000", false).len(), 1);
    assert_eq!(code_lines(&img, &pcs, &HashMap::new(), "0X0x1000", false).len(), 1);
    assert_eq!(code_lines(&img, &pcs, &HashMap::new(), "0x1004", false).len(), 0);
    // Not hex after the prefix: searched as text, and "0xzz" occurs nowhere.
    assert_eq!(code_lines(&img, &pcs, &HashMap::new(), "0xzz", false).len(), 0);
}

fn undecodable_half() -> u16 {
    let dec = Tc16Decoder::new();
    (0..0x8000u32).map(|k| (k * 2) as u16).find(|h| dec.decode(*h as u32).is_none()).unwrap()
}

#[test]
fn preview_walks_the_first_segment() {
    let h = undecodable_half();
    let img = image(0, vec![0x82, 0x00, (h & 0xFF) as u8, (h >> 8) as u8]);
    assert!(preview_allowed(&img, true));
    let lines = disasm_preview(&img, false);
    assert_eq!(lines, vec![
        "0x00000000: mov d0, #0x0".to_string(),
        format!("0x00000002: .2byte 0x{:02x}{:02x}", h >> 8, h & 0xFF),
    ]);
    let lines = disasm_preview(&img, true);
    assert_eq!(lines[0], "0x00000000: [82, 00]  mov d0, #0x0");
    assert!(disasm_preview(&Image { segments: vec![] }, true).is_empty());
}

#[test]
fn preview_refuses_an_end_past_the_top() {
    let img = image(0xFFFF_FFF0, vec![0; 32]);
    assert!(!preview_allowed(&img, false));
}

#[test]
fn hex_rows_cover_the_first_kilobyte() {
    let mut bytes = b"Hi\x00".to_vec();
    bytes.extend(vec![0x41u8; 17]);
    let img = image(0x100, bytes);
    let mut edits = HashMap::new();
    edits.insert(0x101u32, "7".to_string());
    let rows = hex_rows(&img, &edits, Some(0x102));
    assert_eq!(rows.len(), 2);
    assert_eq!(rows[0].addr, 0x100);
    assert_eq!(rows[0].cells.len(), 16);
    assert_eq!(rows[1].addr, 0x110);
    assert_eq!(rows[1].cells.len(), 4);
    assert_eq!(rows[0].cells[0].ascii, 'H');
    assert_eq!(rows[0].cells[0].text, "48");
    assert_eq!(rows[0].cells[1].text, "7");
    assert_eq!(rows[0].cells[2].ascii, '.');
    assert!(rows[0].cells[2].selected && !rows[0].cells[1].selected);
    let big = image(0, vec![0; 4096]);
    assert_eq!(hex_rows(&big, &HashMap::new(), None).len(), 64);
}

#[test]
fn segment_lines_show_ranges() {
    let img = image(0x100, vec![0; 0x14]);
    assert_eq!(segment_lines(&img), vec!["s  0x00000100..0x00000114  r-x".to_string()]);
}

#[test]
fn labels_are_listed_by_name() {
    let mut l = HashMap::new();
    l.insert(1u32, "b".to_string());
    l.insert(2u32, "a".to_string());
    l.insert(3u32, "é".to_string());
    l.insert(4u32, "Z".to_string());
    let lines = label_lines(&l);
    let names: Vec<&str> = lines.iter().map(|(_, s)| s.as_str()).collect();
    assert_eq!(names, vec!["Z @ 0x00000004", "a @ 0x00000002", "b @ 0x00000001", "é @ 0x00000003"]);
}

#[test]
fn at_most_two_hundred_labels_are_listed() {
    let mut l = HashMap::new();
    for i in 0..250u32 {
        l.insert(i, format!("l{:03}", 249 - i));
    }
    let lines = label_lines(&l);
    assert_eq!(lines.len(), 200);
    assert_eq!(lines[0], (249, "l000 @ 0x000000f9".to_string()));
    assert_eq!(lines[199].1, "l199 @ 0x00000032");
}
