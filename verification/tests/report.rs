use std::collections::HashMap;
use tricore_rs::model::{Image, Segment};
use tricore_rs::report::{
    block_starts, blocks_bytes_fit_check, build_report, listing_bytes_fit_check, range_bytes_fit_check, disasm_range, enrich_blocks_with_mnemonics, fill_labels, function_blocks,
    insn_line, listing, parse_nav, sorted_unique, Block, EdgeOut, RangeError,
};
use tricore_rs::analyze::{Edge, EdgeKind};
use tricore_rs::decoder::Decoder;
use tricore_rs::isa::tc16::Tc16Decoder;

fn image(base: u32, bytes: Vec<u8>) -> Image {
    Image { segments: vec![Segment { name: "s".into(), base, bytes, perms: "r-x", kind: "raw" }] }
}

fn words(ws: &[u32]) -> Vec<u8> {
    ws.iter().flat_map(|w| w.to_le_bytes()).collect()
}

#[test]
fn sorted_unique_sorts_and_drops_repeats() {
    assert_eq!(sorted_unique(&[5, 1, 5, 3, 1]), vec![1, 3, 5]);
    assert_eq!(sorted_unique(&[]), Vec::<u32>::new());
}

#[test]
fn block_starts_are_entries_and_targets() {
    let edges = [
        Edge { from: 0, to: 8, kind: EdgeKind::Branch },
        Edge { from: 4, to: 2, kind: EdgeKind::Fallthrough },
    ];
    assert_eq!(block_starts(&[4, 0], &edges), vec![0, 2, 4, 8]);
}

#[test]
fn blocks_split_at_jumps_and_targets() {
    // 0: mov16 d0,#0 ; 2: j +2 (to 6) ; 4: mov16 d0,#1 ; 6: mov16 d0,#2 ; 8: ret
    let bytes = vec![0x82, 0x00, 0x3C, 0x01, 0x82, 0x10, 0x82, 0x20, 0x0D, 0x00, 0x00, 0x00];
    let img = image(0, bytes);
    let a = build_report(&img, &[0], 100);
    let blocks: Vec<(u32, u32)> = a.report.blocks.iter().map(|b| (b.start, b.end)).collect();
    // every edge destination, fallthroughs included, starts a block
    assert_eq!(blocks, vec![(0, 2), (2, 4), (6, 8), (8, 12)]);
    assert_eq!(a.report.entries, vec![0]);
    assert!(a.report.edges.iter().any(|e| e.from == 2 && e.to == 6 && e.kind == "br"));
    assert_eq!(a.report.functions.len(), 1);
    assert_eq!(a.report.functions[0].entry, 0);
    assert_eq!(a.report.functions[0].blocks, vec![0, 2, 6, 8]);
    assert_eq!(a.addr_to_block.get(&2), Some(&2));
    assert_eq!(a.addr_to_block.get(&8), Some(&8));
    assert_eq!(a.addr_to_block.get(&4), None);
}

#[test]
fn functions_follow_block_edges() {
    let es = vec![
        EdgeOut { from: 0, to: 10, kind: "br".into() },
        EdgeOut { from: 10, to: 20, kind: "ft".into() },
        EdgeOut { from: 30, to: 0, kind: "call".into() },
        EdgeOut { from: 20, to: 10, kind: "cbr".into() },
    ];
    assert_eq!(function_blocks(0, &es), vec![0, 10, 20]);
    assert_eq!(function_blocks(30, &es), vec![0, 10, 20, 30]);
    assert_eq!(function_blocks(99, &es), vec![99]);
}

#[test]
fn labels_keep_imports_and_fill_defaults() {
    let mut labels: HashMap<u32, String> = HashMap::new();
    labels.insert(0x10, "main".into());
    fill_labels(&mut labels, &[0x10, 0x20], &[Block { start: 0x20, end: 0x24 }, Block { start: 0x30, end: 0x34 }]);
    assert_eq!(labels[&0x10], "main");
    assert_eq!(labels[&0x20], "sub_00000020");
    assert_eq!(labels[&0x30], "loc_00000030");
    assert_eq!(labels.len(), 3);
}

#[test]
fn listing_lines_match_the_cli_format() {
    let movu = (1u32 << 28) | (0x42 << 12) | 0xBB;
    let img = image(0x1000, words(&[movu, 0x0000_0001]));
    let d = Tc16Decoder::new().decode(movu).unwrap();
    assert_eq!(insn_line(&img, 0x1000, &d, false), "0x00001000: mov d1, #0x42");
    assert_eq!(insn_line(&img, 0x1000, &d, true), "0x00001000: bb 20 04 10   mov d1, #0x42");
    let mut labels = HashMap::new();
    labels.insert(0x1000u32, "start".to_string());
    let l = listing(&img, &[0x1000, 0x1004, 0x2000], &labels, false);
    assert_eq!(l, vec![
        "0x00001000 <start>:".to_string(),
        "  0x00001000: mov d1, #0x42".to_string(),
        "  0x00001004: .word 0x00000001".to_string(),
    ]);
}

#[test]
fn range_stops_where_the_image_ends() {
    let movu = (1u32 << 28) | (0x42 << 12) | 0xBB;
    let img = image(0, words(&[movu, 0x0000_0001]));
    let (text, oob) = disasm_range(&img, 0, 12, false).unwrap();
    assert_eq!(text, "0x00000000: mov d1, #0x42\n0x00000004: .word 0x00000001\n");
    assert_eq!(oob, Some(8));
    let (text, oob) = disasm_range(&img, 0, 4, false).unwrap();
    assert_eq!(text, "0x00000000: mov d1, #0x42\n");
    assert_eq!(oob, None);
    assert_eq!(disasm_range(&img, 8, 4, false).unwrap_err(), RangeError::EndBeforeStart);
}

#[test]
fn enrich_lists_each_block() {
    let bytes = vec![0x82, 0x00, 0x3C, 0x01, 0x82, 0x10, 0x82, 0x20, 0x0D, 0x00, 0x00, 0x00];
    let img = image(0, bytes);
    let a = build_report(&img, &[0], 100);
    let out = enrich_blocks_with_mnemonics(&img, &a.widths, &a.report.blocks, false);
    assert_eq!(out.len(), 4);
    assert_eq!(out[0].insns, vec!["0x00000000: mov d0, #0x0".to_string()]);
    assert_eq!(out[3].insns, vec!["0x00000008: ret".to_string()]);
}

#[test]
fn nav_numbers_hex_and_labels() {
    let mut labels = HashMap::new();
    labels.insert(0x1234u32, "main".to_string());
    assert_eq!(parse_nav("  ", &labels), None);
    assert_eq!(parse_nav("0x10", &labels), Some(0x10));
    assert_eq!(parse_nav("16", &labels), Some(16));
    assert_eq!(parse_nav("beef", &labels), Some(0xbeef));
    assert_eq!(parse_nav(" main ", &labels), Some(0x1234));
    assert_eq!(parse_nav("nothere", &labels), None);
    assert_eq!(parse_nav("123456789a", &labels), None);
}

#[test]
fn byte_listing_bounds_look_only_at_what_is_listed() {
    // MOV.U at the segment's start, and another whose word starts at
    // 0xFFFF_FFFE and runs past the top.
    let mut bytes = vec![0u8; 15];
    bytes[0] = 0xBB;
    bytes[14] = 0xBB;
    let img = image(0xFFFF_FFF0, bytes);
    let blocks = vec![Block { start: 0xFFFF_FFF0, end: 0xFFFF_FFF4 }];
    assert!(blocks_bytes_fit_check(&img, &blocks));
    let out = enrich_blocks_with_mnemonics(&img, &HashMap::new(), &blocks, true);
    assert_eq!(out[0].insns.len(), 1);
    assert!(out[0].insns[0].starts_with("0xfffffff0: bb 00 00 00 "));
    assert!(listing_bytes_fit_check(&img, &[0xFFFF_FFF0]));
    assert!(!listing_bytes_fit_check(&img, &[0xFFFF_FFF0, 0xFFFF_FFFE]));
    assert!(range_bytes_fit_check(&img, 0xFFFF_FFF0, 0xFFFF_FFF4));
    assert!(!range_bytes_fit_check(&img, 0xFFFF_FFFE, 0xFFFF_FFFF));
    let far = vec![Block { start: 0xFFFF_FFFE, end: 0xFFFF_FFFF }];
    assert!(!blocks_bytes_fit_check(&img, &far));
}
