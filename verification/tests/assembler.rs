use tricore_rs::assembler::{encode, encode_fits, width_of, abs_off18_fields, AsmError, Dir, Inst, Item, Jump, Target};
use tricore_rs::decoder::{Decoder, Op};
use tricore_rs::disasm::fmt_decoded;
use tricore_rs::exec::IntExecutor;
use tricore_rs::isa::tc16::Tc16Decoder;
use tricore_rs::syntax::{parse_line, parse_mem_ab_off, parse_mem_abs, parse_reg_a, parse_reg_d, parse_reg_p, SyntaxError};
use tricore_rs::{Cpu, CpuConfig, LinearMemory};

fn word(b: &[u8], at: usize) -> u32 {
    u32::from_le_bytes([b[at], b[at + 1], b[at + 2], b[at + 3]])
}

fn items(src: &str) -> Vec<Item> {
    let mut v = Vec::new();
    for line in src.lines() {
        if let Some(it) = parse_line(line).unwrap() {
            v.push(it);
        }
    }
    v
}

#[test]
fn movu_encodes_and_decodes() {
    let bytes = encode(&[Item::Instr(Inst::MovU { d: 3, imm16: 0x1234 })], 0).unwrap();
    assert_eq!(word(&bytes, 0), (3 << 28) | (0x1234 << 12) | 0xBB);
    let d = Tc16Decoder::new().decode(word(&bytes, 0)).unwrap();
    assert_eq!(d.op, Op::MovI);
    assert_eq!((d.rd, d.imm), (3, 0x1234));
}

#[test]
fn mov_picks_16_bit_form_for_small_constants() {
    match parse_line("mov d2, #7").unwrap() {
        Some(Item::Instr(Inst::Mov16 { d: 2, imm4: 7 })) => {}
        other => panic!("unexpected {other:?}"),
    }
    match parse_line("MOV d2, 0x10").unwrap() {
        Some(Item::Instr(Inst::MovU { d: 2, imm16: 0x10 })) => {}
        other => panic!("unexpected {other:?}"),
    }
    let bytes = encode(&[Item::Instr(Inst::Mov16 { d: 2, imm4: 7 })], 0).unwrap();
    assert_eq!(bytes, vec![0x82, 0x72]);
}

#[test]
fn comments_blank_lines_and_labels() {
    assert!(parse_line("   # a comment").unwrap().is_none());
    assert!(parse_line("   ; only a comment").unwrap().is_none());
    assert!(parse_line("").unwrap().is_none());
    match parse_line("  loop :  ; top").unwrap() {
        Some(Item::Label(n)) => assert_eq!(n, "loop"),
        other => panic!("unexpected {other:?}"),
    }
    match parse_line(".word 0x11223344").unwrap() {
        Some(Item::Dir(Dir::Word(0x11223344))) => {}
        other => panic!("unexpected {other:?}"),
    }
    match parse_line(".byte 0x1ff").unwrap() {
        Some(Item::Dir(Dir::Byte(0xff))) => {}
        other => panic!("unexpected {other:?}"),
    }
    assert_eq!(parse_line(".word zz").unwrap_err(), SyntaxError::BadDirective);
}

#[test]
fn syntax_errors_by_kind() {
    assert_eq!(parse_line("add d1, d2").unwrap_err(), SyntaxError::Operands);
    assert_eq!(parse_line("add d1, a2, d3").unwrap_err(), SyntaxError::BadRegister);
    assert_eq!(parse_line("movu d1, #zz").unwrap_err(), SyntaxError::BadImmediate);
    assert_eq!(parse_line("ld.w d1, [0xzz]").unwrap_err(), SyntaxError::BadMemory);
    assert_eq!(parse_line("and d1, d2, d3").unwrap_err(), SyntaxError::SameRegister);
    assert_eq!(parse_line("frob d1").unwrap_err(), SyntaxError::UnknownMnemonic);
    // the first `mov` form takes an immediate, so a register source is refused
    assert_eq!(parse_line("mov d1, d2").unwrap_err(), SyntaxError::BadImmediate);
}

#[test]
fn memory_operands() {
    assert_eq!(parse_mem_ab_off(" [a3+0x10] "), Ok((3, 0x10)));
    assert_eq!(parse_mem_ab_off("[a4]"), Ok((4, 0)));
    assert_eq!(parse_mem_ab_off("[d4]"), Err(SyntaxError::BadMemory));
    assert_eq!(parse_mem_abs("[0x8000]"), Ok(0x8000));
    assert_eq!(parse_mem_abs("0x8000"), Err(SyntaxError::BadMemory));
    assert_eq!(parse_reg_d("d12"), Some(12));
    assert_eq!(parse_reg_d("a12"), None);
    assert_eq!(parse_reg_a("a7"), Some(7));
    assert_eq!(parse_reg_p(" [p18] "), Ok(2));
    assert!(parse_reg_p("[a1]").is_err());
    match parse_line("ld.w d1, [a2+4]").unwrap() {
        Some(Item::Instr(Inst::LdWOff16 { rd: 1, ab: 2, off16: 4 })) => {}
        other => panic!("unexpected {other:?}"),
    }
    match parse_line("st.b [0x100], d5").unwrap() {
        Some(Item::Instr(Inst::StBAbs { rs: 5, ea: 0x100 })) => {}
        other => panic!("unexpected {other:?}"),
    }
}

#[test]
fn jumps_resolve_labels_both_ways() {
    let prog = items("start:\n  mov d0, #1\n  j end\n  mov d0, #2\nend:\n  jeq d0, d1, start\n");
    let bytes = encode(&prog, 0x100).unwrap();
    // mov16 (2) + j (4) + mov16 (2) + jeq (4)
    assert_eq!(bytes.len(), 12);
    let j = Tc16Decoder::new().decode(word(&bytes, 2)).unwrap();
    assert_eq!(j.op, Op::J);
    // j at 0x102 lands at end (0x108): next pc 0x106 + imm
    assert_eq!(0x106u32.wrapping_add(j.imm), 0x108);
    let jeq = Tc16Decoder::new().decode(word(&bytes, 8)).unwrap();
    assert_eq!(jeq.op, Op::Jeq);
    assert_eq!(0x10Cu32.wrapping_add(jeq.imm), 0x100);
}

#[test]
fn unknown_label_and_out_of_range() {
    let prog = vec![Item::Jump(Jump::J, Target::Label("nowhere".into()))];
    assert_eq!(encode(&prog, 0), Err(AsmError::UnknownLabel { index: 0 }));
    let far = vec![Item::Jump(Jump::JeqRR { a: 0, b: 1 }, Target::Abs(0x10_0000))];
    assert_eq!(encode(&far, 0), Err(AsmError::OutOfRange { index: 0 }));
    let lea = vec![Item::Instr(Inst::LeaAb { rd: 1, rb: 2, off: 600 })];
    assert_eq!(encode(&lea, 0), Err(AsmError::OutOfRange { index: 0 }));
}

#[test]
fn last_label_definition_wins() {
    let prog = items("x:\n.word 1\nx:\n.word 2\n  j x\n");
    let bytes = encode(&prog, 0).unwrap();
    let j = Tc16Decoder::new().decode(word(&bytes, 8)).unwrap();
    assert_eq!(12u32.wrapping_add(j.imm), 4);
}

#[test]
fn widths_reserve_worst_case_for_macros() {
    assert_eq!(width_of(&Item::Label("a".into())), 0);
    assert_eq!(width_of(&Item::Instr(Inst::ZextB { rd: 1, ra: 1 })), 12);
    assert_eq!(width_of(&Item::Instr(Inst::AndRR16 { ra: 1, rb: 2 })), 2);
    assert_eq!(width_of(&Item::Dir(Dir::Byte(1))), 1);
    // same registers: no MOV, two shifts
    let b = encode(&[Item::Instr(Inst::ZextB { rd: 1, ra: 1 })], 0).unwrap();
    assert_eq!(b.len(), 8);
    let b = encode(&[Item::Instr(Inst::ZextB { rd: 1, ra: 2 })], 0).unwrap();
    assert_eq!(b.len(), 12);
}

#[test]
fn abs_fields_and_lost_address_bits() {
    assert_eq!(abs_off18_fields(0xD000_2345, None), (0xD, 0x8, 0xD, 0x05));
    assert_eq!(abs_off18_fields(0xD000_2345, Some(2)), (0xD, 0x8, 2, 0x05));
    let b = encode(&[Item::Instr(Inst::LdWAbs { rd: 4, ea: 0xD000_0100 })], 0).unwrap();
    let d = Tc16Decoder::new().decode(word(&b, 0)).unwrap();
    assert_eq!(d.op, Op::LdW);
    // bits 9..6 of the address are replaced by the selector (0)
    assert_eq!(d.imm, 0xD000_0100 & 0xF000_3C3F);
}

#[test]
fn assembled_program_runs() {
    let prog = items("  movu d1, #5\n  movu d2, #7\n  add d3, d1, d2\n  sub d4, d2, d1\n");
    let bytes = encode(&prog, 0).unwrap();
    let mut mem = LinearMemory::new(64);
    for (i, b) in bytes.iter().enumerate() {
        mem.mem[i] = *b;
    }
    let mut cpu = Cpu::new(CpuConfig::default());
    let dec = Tc16Decoder::new();
    for _ in 0..4 {
        cpu.step(&mut mem, &dec, &IntExecutor).unwrap();
    }
    assert_eq!(cpu.gpr[3], 12);
    assert_eq!(cpu.gpr[4], 2);
    assert_eq!(cpu.pc, 16);
}

#[test]
fn assembled_text_disassembles() {
    let b = encode(&[Item::Instr(Inst::AddRR { rd: 3, ra: 1, rb: 2 })], 0).unwrap();
    let d = Tc16Decoder::new().decode(word(&b, 0)).unwrap();
    assert_eq!(fmt_decoded(&d), "add d3, d1, d2");
}

#[test]
fn lea_base_offset_round_trip() {
    for off in [-512i32, -4, 0, 7, 511] {
        let bytes = encode(&[Item::Instr(Inst::LeaAb { rd: 2, rb: 3, off })], 0).unwrap();
        assert_eq!(bytes.len(), 4);
        let d = Tc16Decoder::new().decode(word(&bytes, 0)).unwrap();
        assert_eq!(d.op, Op::Lea);
        assert_eq!((d.width, d.rd, d.rs1, d.rs2), (4, 2, 3, 0));
        assert_eq!(d.imm, off as u32);
        assert_eq!((d.imm2, d.abs, d.wb, d.pre), (0, false, false, false));
    }
}

#[test]
fn lea_offset_out_of_range_fails_at_any_start() {
    let prog = vec![Item::Instr(Inst::LeaAb { rd: 1, rb: 1, off: 512 })];
    assert!(encode_fits(&prog, 0xFFFF_FFFE));
    assert_eq!(encode(&prog, 0xFFFF_FFFE), Err(AsmError::OutOfRange { index: 0 }));
    let prog = vec![Item::Instr(Inst::LeaAb { rd: 1, rb: 1, off: -513 })];
    assert_eq!(encode(&prog, 0), Err(AsmError::OutOfRange { index: 0 }));
}

#[test]
fn program_past_the_top_does_not_fit() {
    let prog = vec![Item::Dir(Dir::Word(1))];
    assert!(encode_fits(&prog, 0xFFFF_FFF0));
    assert!(!encode_fits(&prog, 0xFFFF_FFFE));
}

#[test]
fn size_is_sum_of_widths_and_labels_sit_where_bytes_follow() {
    let prog = vec![
        Item::Instr(Inst::AddRR { rd: 1, ra: 2, rb: 3 }),
        Item::Instr(Inst::Mov16 { d: 1, imm4: 2 }),
        Item::Label("here".into()),
        Item::Instr(Inst::SubRR { rd: 1, ra: 2, rb: 3 }),
        Item::Jump(Jump::J, Target::Label("here".into())),
    ];
    let start = 0x8000_0000;
    let bytes = encode(&prog, start).unwrap();
    let total: usize = prog.iter().map(width_of).sum();
    assert_eq!(bytes.len(), total);
    assert_eq!(bytes.len(), 14);
    // The label stands for start + 6, where SUB's bytes are written.
    let mut abs = prog.clone();
    abs[4] = Item::Jump(Jump::J, Target::Abs(start + 6));
    assert_eq!(encode(&abs, start).unwrap(), bytes);
    let sub = encode(&[Item::Instr(Inst::SubRR { rd: 1, ra: 2, rb: 3 })], 0).unwrap();
    assert_eq!(&bytes[6..10], &sub[..]);
}

#[test]
fn short_extension_writes_less_than_reserved() {
    let prog = vec![Item::Instr(Inst::ZextB { rd: 4, ra: 4 }), Item::Dir(Dir::Byte(9))];
    let bytes = encode(&prog, 0).unwrap();
    assert_eq!(width_of(&prog[0]), 12);
    assert_eq!(bytes.len(), 9);
    assert_eq!(bytes[8], 9);
}

#[test]
fn lea_abs_keeps_address_bits_9_to_6() {
    for ea in [0x40u32, 0x3FC0, 0xD000_2345, 0xF000_3FFF] {
        let b = encode(&[Item::Instr(Inst::LeaAbs { rd: 3, ea })], 0).unwrap();
        assert_eq!(b.len(), 4);
        let d = Tc16Decoder::new().decode(word(&b, 0)).unwrap();
        assert_eq!(d.op, Op::Lea);
        assert!(d.abs);
        assert_eq!((d.width, d.rd), (4, 3));
        assert_eq!(d.imm, ea & 0xF000_3FFF);
    }
    // Bits 27..14 do not fit the form.
    let b = encode(&[Item::Instr(Inst::LeaAbs { rd: 1, ea: 0x0123_4567 })], 0).unwrap();
    let d = Tc16Decoder::new().decode(word(&b, 0)).unwrap();
    assert_eq!(d.imm, 0x0123_4567 & 0xF000_3FFF);
}

#[test]
fn lea_abs_program_sets_register() {
    let b = encode(&[Item::Instr(Inst::LeaAbs { rd: 5, ea: 0x40 })], 0).unwrap();
    let mut mem = LinearMemory::new(64);
    mem.mem[..4].copy_from_slice(&b);
    let mut cpu = Cpu::new(CpuConfig::default());
    cpu.reset(0);
    cpu.step(&mut mem, &Tc16Decoder::new(), &IntExecutor).unwrap();
    assert_eq!(cpu.a[5], 0x40);
}
