use tricore_rs::analyze::{analyze_entries, EdgeKind};
use tricore_rs::decoder::Decoder;
use tricore_rs::disasm::fmt_decoded;
use tricore_rs::isa::tc16::Tc16Decoder;
use tricore_rs::model::{read_u32, Image, Segment};

#[test]
fn uncond_jump_edges_and_blocking() {
    // Build a tiny image: J +2 (16-bit), then two 16-bit NOP-like (use MOV D0,#0 and MOV D0,#1)
    // Encode J disp8=1: low byte 0x3C, high byte 0x01 (little-endian)
    let bytes = vec![0x3C, 0x01, 0x82, 0x00, 0x82, 0x10];
    let img = Image { segments: vec![Segment { name: "s".into(), base: 0, bytes, perms: "r-x", kind: "raw" }] };
    let seeds = [0u32];
    let (visited, widths, edges) = analyze_entries(&img, &seeds, 100);
    assert!(visited.contains(&0));
    // target should be ft(0)+2 => 0x0004
    let ft = 0u32 + 2;
    let tgt = ft + 2;
    assert!(edges.iter().any(|e| matches!(e.kind, EdgeKind::Branch) && e.from == 0 && e.to == tgt));
    assert!(widths.get(&0).is_some());
}

#[test]
fn range_disasm_decodes_simple() {
    // Craft a 32-bit MOV.U D0,#2 instruction: c=0, imm16=2, op1=0xBB
    let raw32 = (0u32 << 28) | (2u32 << 12) | 0xBBu32;
    let bytes = raw32.to_le_bytes();
    let seg = Segment { name: "s".into(), base: 0, bytes: bytes.to_vec(), perms: "r-x", kind: "raw" };
    let img = Image { segments: vec![seg] };
    let dec = Tc16Decoder::new();
    let pc = 0u32;
    let raw32_rd = read_u32(&img, pc).unwrap();
    assert_eq!(raw32_rd, raw32);
    let d = dec.decode(raw32_rd).unwrap();
    let text = fmt_decoded(&d);
    assert!(text.contains("mov d0, #0x2"));
}
