//! A small TriCore assembler: the source items, their sizes, and the
//! two-pass encoder (labels first, then bytes).
use vstd::prelude::*;
use crate::bits::{field, nib, sext, wadd, lemma_low_bits};
use crate::decoder::{Decoded, Op};
use crate::isa::tc16::{abs_ea, off10, off18, spec_decode_abs, br15, disp24, is_branch_op1, spec_decode32, spec_decode_branch, mk, mk2, mk4, off16, rc_op, rr_op, spec_decode_bol, tc16_decode};

verus! {

/// A data directive.
#[derive(Debug, Clone, Copy, PartialEq, Eq, Structural)]
pub enum Dir {
    Word(u32),
    Byte(u8),
}

/// Where a jump goes: a label of the program or an absolute address.
#[derive(Debug, Clone)]
pub enum Target {
    Label(String),
    Abs(u32),
}

/// Jumps and branches; their displacement comes from the target and the
/// address of the instruction.
#[derive(Debug, Clone, Copy, PartialEq, Eq, Structural)]
pub enum Jump {
    /// 32-bit J, disp24.
    J,
    /// 32-bit CALL, disp24.
    Call,
    JeqRR { a: u32, b: u32 },
    JneRR { a: u32, b: u32 },
    JgeURR { a: u32, b: u32 },
    JltURR { a: u32, b: u32 },
    /// Flag branch: 0 beq, 1 bne, 2 bge, 3 blt, 4 bge.u, 5 blt.u.
    BFlag { kind: u8 },
    JeqImm { ra: u32, imm4: u32 },
    JneImm { ra: u32, imm4: u32 },
    JgeRR { a: u32, b: u32, unsigned: bool },
    JltRR { a: u32, b: u32, unsigned: bool },
    JgeI { a: u32, imm4: u32, unsigned: bool },
    JltI { a: u32, imm4: u32, unsigned: bool },
    JeqARR { ra: u32, rb: u32 },
    JneARR { ra: u32, rb: u32 },
    JzAR { ra: u32 },
    JnzAR { ra: u32 },
}

/// Every instruction that needs no label.
#[derive(Debug, Clone, Copy, PartialEq, Eq, Structural)]
pub enum Inst {
    /// 32-bit MOV.U.
    MovU { d: u32, imm16: u32 },
    /// 16-bit MOV with const4.
    Mov16 { d: u32, imm4: u32 },
    /// CALLA to an absolute address.
    CallA { ea: u32 },
    /// CALLI A[a].
    CallI { a: u32 },
    AddRR { rd: u32, ra: u32, rb: u32 },
    SubRR { rd: u32, ra: u32, rb: u32 },
    LdBuOff16 { rd: u32, ab: u32, off16: u32 },
    StBOff16 { ab: u32, rs: u32, off16: u32 },
    LdBOff16 { rd: u32, ab: u32, off16: u32 },
    LdHOff16 { rd: u32, ab: u32, off16: u32 },
    LdHuOff16 { rd: u32, ab: u32, off16: u32 },
    LdWOff16 { rd: u32, ab: u32, off16: u32 },
    StHOff16 { ab: u32, rs: u32, off16: u32 },
    StWOff16 { ab: u32, rs: u32, off16: u32 },
    LdBAbs { rd: u32, ea: u32 },
    LdBuAbs { rd: u32, ea: u32 },
    LdHAbs { rd: u32, ea: u32 },
    LdHuAbs { rd: u32, ea: u32 },
    LdWAbs { rd: u32, ea: u32 },
    StBAbs { rs: u32, ea: u32 },
    StHAbs { rs: u32, ea: u32 },
    StWAbs { rs: u32, ea: u32 },
    MovHAa { rd: u32, imm16: u32 },
    LeaAbs { rd: u32, ea: u32 },
    AddihA { rd: u32, ra: u32, imm16: u32 },
    CmpRR { a: u32, b: u32, unsigned: bool },
    CmpRI { a: u32, imm: u32, unsigned: bool },
    /// Shift by register: kind 0 shl, 1 shr, 2 sar, 3 ror.
    ShRR { rd: u32, ra: u32, rb: u32, kind: u8 },
    ShRI { rd: u32, ra: u32, imm: u32, kind: u8 },
    AndnRR { rd: u32, ra: u32, rb: u32 },
    AndnRI { rd: u32, ra: u32, imm: u32 },
    NotR { rd: u32, ra: u32 },
    MinRR { rd: u32, ra: u32, rb: u32, unsigned: bool },
    MinRI { rd: u32, ra: u32, imm: u32, unsigned: bool },
    MaxRR { rd: u32, ra: u32, rb: u32, unsigned: bool },
    MaxRI { rd: u32, ra: u32, imm: u32, unsigned: bool },
    MulRR { rd: u32, ra: u32, rb: u32, unsigned: bool },
    MulRI { rd: u32, ra: u32, imm: u32, unsigned: bool },
    DivRR { rd: u32, ra: u32, rb: u32, unsigned: bool },
    AddcRR { rd: u32, ra: u32, rb: u32 },
    AddcRI { rd: u32, ra: u32, imm: u32 },
    AddxRR { rd: u32, ra: u32, rb: u32 },
    AddxRI { rd: u32, ra: u32, imm: u32 },
    /// 16-bit SRR forms, D[a] = D[a] op D[b].
    AndRR16 { ra: u32, rb: u32 },
    OrRR16 { ra: u32, rb: u32 },
    XorRR16 { ra: u32, rb: u32 },
    MovRR { rd: u32, rb: u32 },
    /// Extension macros: an optional MOV, then two shifts.
    ZextB { rd: u32, ra: u32 },
    ZextH { rd: u32, ra: u32 },
    SextB { rd: u32, ra: u32 },
    SextH { rd: u32, ra: u32 },
    AndRI { rd: u32, ra: u32, imm9: u32 },
    OrRI { rd: u32, ra: u32, imm9: u32 },
    XorRI { rd: u32, ra: u32, imm9: u32 },
    LdBPbr { rd: u32, pb: u32 },
    LdBUPbr { rd: u32, pb: u32 },
    LdHPbr { rd: u32, pb: u32 },
    LdHUPbr { rd: u32, pb: u32 },
    LdWPbr { rd: u32, pb: u32 },
    LdBPcir { rd: u32, pb: u32, off10: i32 },
    LdBUPcir { rd: u32, pb: u32, off10: i32 },
    LdHPcir { rd: u32, pb: u32, off10: i32 },
    LdHUPcir { rd: u32, pb: u32, off10: i32 },
    LdWPcir { rd: u32, pb: u32, off10: i32 },
    StBPbrP { pb: u32, rs: u32 },
    StHPbrP { pb: u32, rs: u32 },
    StWPbrP { pb: u32, rs: u32 },
    StBPcirP { pb: u32, rs: u32, off10: i32 },
    StHPcirP { pb: u32, rs: u32, off10: i32 },
    StWPcirP { pb: u32, rs: u32, off10: i32 },
    /// LEA A[rd], A[rb], off10.
    LeaAb { rd: u32, rb: u32, off: i32 },
    Word { val: u32 },
    Byte { val: u8 },
}

/// One line of assembly.
#[derive(Debug, Clone)]
pub enum Item {
    Label(String),
    Instr(Inst),
    Jump(Jump, Target),
    Dir(Dir),
}

/// Why a program could not be encoded; `index` is the item at fault.
#[derive(Debug, Clone, Copy, PartialEq, Eq, Structural)]
pub enum AsmError {
    /// The jump at `index` names a label that no item defines.
    UnknownLabel { index: usize },
    /// The displacement or offset of the item at `index` does not fit its field.
    OutOfRange { index: usize },
}

// ----------------------------------------------------------------------------
// Sizes.
// ----------------------------------------------------------------------------

/// The size the first pass reserves for an instruction; the extension macros
/// reserve their worst case of three words.
pub open spec fn inst_width(i: Inst) -> nat {
    match i {
        Inst::Mov16 { .. } | Inst::AndRR16 { .. } | Inst::OrRR16 { .. } | Inst::XorRR16 { .. } => 2,
        Inst::Byte { .. } => 1,
        Inst::ZextB { .. } | Inst::ZextH { .. } | Inst::SextB { .. } | Inst::SextH { .. } => 12,
        _ => 4,
    }
}

/// The size the first pass reserves for an item, which places the labels.
pub open spec fn item_width(it: Item) -> nat {
    match it {
        Item::Label(_) => 0,
        Item::Dir(Dir::Word(_)) => 4,
        Item::Dir(Dir::Byte(_)) => 1,
        Item::Jump(_, _) => 4,
        Item::Instr(i) => inst_width(i),
    }
}

/// The number of bytes the second pass writes for an item: an extension
/// macro whose registers are the same leaves its MOV out.
pub open spec fn emitted_len(it: Item) -> nat {
    match it {
        Item::Instr(Inst::ZextB { rd, ra }) | Item::Instr(Inst::ZextH { rd, ra })
        | Item::Instr(Inst::SextB { rd, ra }) | Item::Instr(Inst::SextH { rd, ra }) =>
            if rd != ra { 12 } else { 8 },
        _ => item_width(it),
    }
}

/// Bytes the second pass writes for the first `n` items.
pub open spec fn emitted_total(items: Seq<Item>, n: int) -> nat
    decreases n,
{
    if n <= 0 || n > items.len() {
        0
    } else {
        emitted_total(items, n - 1) + emitted_len(items[n - 1])
    }
}

/// The address the first pass gives item `i`: `start` plus the widths of the
/// items before it, modulo 2^32.
pub open spec fn pc_before(items: Seq<Item>, start: u32, i: int) -> u32
    decreases i,
{
    if i <= 0 || i > items.len() {
        start
    } else {
        wadd(pc_before(items, start, i - 1), (item_width(items[i - 1]) % 0x1_0000_0000) as u32)
    }
}

/// The address of the last definition of `name` among the first `n` items.
pub open spec fn label_in(items: Seq<Item>, start: u32, name: Seq<char>, n: int) -> Option<u32>
    decreases n,
{
    if n <= 0 || n > items.len() {
        None
    } else {
        match items[n - 1] {
            Item::Label(l) => if l@ == name {
                Some(pc_before(items, start, n - 1))
            } else {
                label_in(items, start, name, n - 1)
            },
            _ => label_in(items, start, name, n - 1),
        }
    }
}

/// The address a label stands for in the program: that of its last definition.
pub open spec fn label_value(items: Seq<Item>, start: u32, name: Seq<char>) -> Option<u32> {
    label_in(items, start, name, items.len() as int)
}

// ----------------------------------------------------------------------------
// Encodings.
// ----------------------------------------------------------------------------

/// Little-endian bytes of a word.
pub open spec fn le32(w: u32) -> Seq<u8> {
    seq![(w & 0xFF) as u8, ((w >> 8u32) & 0xFF) as u8, ((w >> 16u32) & 0xFF) as u8, ((w >> 24u32) & 0xFF) as u8]
}

/// Little-endian bytes of a halfword held in the low 16 bits of `h`.
pub open spec fn le16(h: u32) -> Seq<u8> {
    seq![(h & 0xFF) as u8, ((h >> 8u32) & 0xFF) as u8]
}

/// RR format (op1 0x0B): D[c] = D[a] op2 D[b].
pub open spec fn rr_word(op2: u32, rd: u32, ra: u32, rb: u32) -> u32 {
    ((rd & 0xF) << 28u32) | ((rb & 0xF) << 16u32) | (op2 << 20u32) | ((ra & 0xF) << 8u32) | 0x0B
}

/// RC format (op1 0x8B or 0x8F): D[c] = D[a] op2 const9.
pub open spec fn rc_word(op1: u32, op2: u32, rd: u32, ra: u32, imm9: u32) -> u32 {
    (op2 << 21u32) | ((imm9 & 0x1FF) << 12u32) | ((ra & 0xF) << 8u32) | ((rd & 0xF) << 28u32) | op1
}

/// BOL format: register `r`, base A[ab], 16-bit offset split over three fields.
pub open spec fn bol_word(op1: u32, r: u32, ab: u32, off16: u32) -> u32 {
    let off = off16 & 0xFFFF;
    (((off >> 6u32) & 0xF) << 28u32) | (((off >> 10u32) & 0x3F) << 22u32) | ((off & 0x3F) << 16u32)
        | ((ab & 0xF) << 12u32) | ((r & 0xF) << 8u32) | op1
}

/// The four fields of an absolute address's off18 = {ea[31:28], ea[13:0]}:
/// off18[17:14], off18[13:10], off18[9:6] (or `sel` when given), off18[5:0].
pub open spec fn off18_fields(ea: u32, sel: Option<u32>) -> (u32, u32, u32, u32) {
    let off18 = (((ea >> 28u32) & 0xF) << 14u32) | (ea & 0x3FFF);
    (
        (off18 >> 14u32) & 0xF,
        (off18 >> 10u32) & 0xF,
        match sel {
            Some(s) => s,
            None => (off18 >> 6u32) & 0xF,
        },
        off18 & 0x3F,
    )
}

/// ABS format: the selector goes to [31:28] in place of off18[9:6].
pub open spec fn abs_word(op1: u32, sel: u32, r: u32, ea: u32) -> u32 {
    let f = off18_fields(ea, Some(sel));
    (sel << 28u32) | (f.1 << 22u32) | (f.3 << 16u32) | (f.0 << 12u32) | ((r & 0xF) << 8u32) | op1
}

/// P[b]/BO format with a 10-bit offset `u10`: [31:28] u10[9:6], [27:22] op2,
/// [21:16] u10[5:0], [15:12] base, [11:8] data register.
pub open spec fn bo_word(op1: u32, op2: u32, r: u32, pb: u32, u10: u32) -> u32 {
    (((u10 >> 6u32) & 0xF) << 28u32) | (op2 << 22u32) | ((u10 & 0x3F) << 16u32) | ((pb & 0xF)
        << 12u32) | ((r & 0xF) << 8u32) | op1
}

/// The low ten bits of a signed offset, two's complement.
pub open spec fn low10(off: i32) -> u32 {
    (off as u32) & 0x3FF
}

/// BRR/BRC format: cond [31:30], disp15 [29:15], second operand [15:12],
/// first operand [11:8].
pub open spec fn brr_word(op1: u32, cond: u32, a: u32, b: u32, d15: u32) -> u32 {
    (cond << 30u32) | (d15 << 15u32) | ((b & 0xF) << 12u32) | ((a & 0xF) << 8u32) | op1
}

/// B format: disp24[15:0] at [31:16], disp24[23:16] at [15:8].
pub open spec fn b_word(op1: u32, d24: u32) -> u32 {
    ((d24 & 0xFFFF) << 16u32) | ((d24 >> 16u32) << 8u32) | op1
}

/// CALLA: disp24 = {ea[31:28], ea[20:1]}.
pub open spec fn calla_word(ea: u32) -> u32 {
    let d24 = (((ea >> 28u32) & 0xF) << 20u32) | ((ea >> 1u32) & 0xFFFFF);
    ((d24 & 0xFFFF) << 16u32) | (((d24 >> 16u32) & 0xFF) << 8u32) | 0xED
}

/// 16-bit forms with two register (or register and const4) fields.
pub open spec fn sr_half(op1: u32, a: u32, b: u32) -> u32 {
    ((b & 0xF) << 12u32) | ((a & 0xF) << 8u32) | op1
}

/// The op2 of a shift kind.
pub open spec fn shift_op2(kind: u8) -> u32 {
    if kind == 1 { 0x21 } else if kind == 2 { 0x22 } else if kind == 3 { 0x23 } else { 0x20 }
}

/// An extension macro: MOV D[rd], D[ra] unless the registers are the same,
/// then shift left by `n` and shift right (logical with op2 0x21,
/// arithmetic with 0x22) by `n`.
pub open spec fn ext_bytes(rd: u32, ra: u32, n: u32, right: u32) -> Seq<u8> {
    (if rd != ra { le32(rr_word(0x1F, rd, 0, ra)) } else { Seq::empty() }) + le32(
        rc_word(0x8B, 0x20, rd, rd, n),
    ) + le32(rc_word(0x8B, right, rd, rd, n))
}

/// The bytes of an instruction; `None` when an offset does not fit.
pub open spec fn inst_bytes(i: Inst) -> Option<Seq<u8>> {
    match i {
        Inst::MovU { d, imm16 } => Some(le32(((d & 0xF) << 28u32) | ((imm16 & 0xFFFF) << 12u32) | 0xBB)),
        Inst::Mov16 { d, imm4 } => Some(le16(sr_half(0x82, d, imm4))),
        Inst::CallA { ea } => Some(le32(calla_word(ea))),
        Inst::CallI { a } => Some(le32(((a & 0xF) << 8u32) | 0x2D)),
        Inst::AddRR { rd, ra, rb } => Some(le32(rr_word(0x00, rd, ra, rb))),
        Inst::SubRR { rd, ra, rb } => Some(le32(rr_word(0x08, rd, ra, rb))),
        Inst::LdBuOff16 { rd, ab, off16 } => Some(le32(bol_word(0x39, rd, ab, off16))),
        Inst::LdBOff16 { rd, ab, off16 } => Some(le32(bol_word(0x79, rd, ab, off16))),
        Inst::LdHOff16 { rd, ab, off16 } => Some(le32(bol_word(0xC9, rd, ab, off16))),
        Inst::LdHuOff16 { rd, ab, off16 } => Some(le32(bol_word(0xB9, rd, ab, off16))),
        Inst::LdWOff16 { rd, ab, off16 } => Some(le32(bol_word(0x19, rd, ab, off16))),
        Inst::StBOff16 { ab, rs, off16 } => Some(le32(bol_word(0xE9, rs, ab, off16))),
        Inst::StHOff16 { ab, rs, off16 } => Some(le32(bol_word(0xF9, rs, ab, off16))),
        Inst::StWOff16 { ab, rs, off16 } => Some(le32(bol_word(0x59, rs, ab, off16))),
        Inst::LdBAbs { rd, ea } => Some(le32(abs_word(0x05, 0, rd, ea))),
        Inst::LdBuAbs { rd, ea } => Some(le32(abs_word(0x05, 1, rd, ea))),
        Inst::LdHAbs { rd, ea } => Some(le32(abs_word(0x05, 2, rd, ea))),
        Inst::LdHuAbs { rd, ea } => Some(le32(abs_word(0x05, 3, rd, ea))),
        Inst::LdWAbs { rd, ea } => Some(le32(abs_word(0x85, 0, rd, ea))),
        Inst::StBAbs { rs, ea } => Some(le32(abs_word(0x25, 0, rs, ea))),
        Inst::StHAbs { rs, ea } => Some(le32(abs_word(0x25, 2, rs, ea))),
        Inst::StWAbs { rs, ea } => Some(le32(abs_word(0xA5, 0, rs, ea))),
        Inst::MovHAa { rd, imm16 } => Some(le32(((rd & 0xF) << 28u32) | ((imm16 & 0xFFFF) << 12u32) | 0x91)),
        Inst::LeaAbs { rd, ea } => Some(le32(abs_word(0xC5, (ea >> 6u32) & 0xF, rd, ea))),
        Inst::AddihA { rd, ra, imm16 } => Some(
            le32(((rd & 0xF) << 28u32) | ((imm16 & 0xFFFF) << 12u32) | ((ra & 0xF) << 8u32) | 0x11),
        ),
        Inst::CmpRR { a, b, unsigned } => Some(le32(rr_word(if unsigned { 0x19 } else { 0x18 }, 0, a, b))),
        Inst::CmpRI { a, imm, unsigned } => Some(
            le32(rc_word(0x8B, if unsigned { 0x19 } else { 0x18 }, 0, a, imm)),
        ),
        Inst::ShRR { rd, ra, rb, kind } => Some(le32(rr_word(shift_op2(kind), rd, ra, rb))),
        Inst::ShRI { rd, ra, imm, kind } => Some(le32(rc_word(0x8B, shift_op2(kind), rd, ra, imm))),
        Inst::AndnRR { rd, ra, rb } => Some(le32(rr_word(0x24, rd, ra, rb))),
        Inst::AndnRI { rd, ra, imm } => Some(le32(rc_word(0x8B, 0x24, rd, ra, imm))),
        Inst::NotR { rd, ra } => Some(le32(rr_word(0x25, rd, ra, 0))),
        Inst::MinRR { rd, ra, rb, unsigned } => Some(le32(rr_word(if unsigned { 0x28 } else { 0x26 }, rd, ra, rb))),
        Inst::MinRI { rd, ra, imm, unsigned } => Some(
            le32(rc_word(0x8B, if unsigned { 0x28 } else { 0x26 }, rd, ra, imm)),
        ),
        Inst::MaxRR { rd, ra, rb, unsigned } => Some(le32(rr_word(if unsigned { 0x29 } else { 0x27 }, rd, ra, rb))),
        Inst::MaxRI { rd, ra, imm, unsigned } => Some(
            le32(rc_word(0x8B, if unsigned { 0x29 } else { 0x27 }, rd, ra, imm)),
        ),
        Inst::MulRR { rd, ra, rb, unsigned } => Some(le32(rr_word(if unsigned { 0x2D } else { 0x2C }, rd, ra, rb))),
        Inst::MulRI { rd, ra, imm, unsigned } => Some(
            le32(rc_word(0x8B, if unsigned { 0x2D } else { 0x2C }, rd, ra, imm)),
        ),
        Inst::DivRR { rd, ra, rb, unsigned } => Some(le32(rr_word(if unsigned { 0x2F } else { 0x2E }, rd, ra, rb))),
        Inst::AddcRR { rd, ra, rb } => Some(le32(rr_word(0x05, rd, ra, rb))),
        Inst::AddcRI { rd, ra, imm } => Some(le32(rc_word(0x8B, 0x05, rd, ra, imm))),
        Inst::AddxRR { rd, ra, rb } => Some(le32(rr_word(0x04, rd, ra, rb))),
        Inst::AddxRI { rd, ra, imm } => Some(le32(rc_word(0x8B, 0x04, rd, ra, imm))),
        Inst::AndRR16 { ra, rb } => Some(le16(sr_half(0x26, ra, rb))),
        Inst::OrRR16 { ra, rb } => Some(le16(sr_half(0xA6, ra, rb))),
        Inst::XorRR16 { ra, rb } => Some(le16(sr_half(0xC6, ra, rb))),
        Inst::MovRR { rd, rb } => Some(le32(rr_word(0x1F, rd, 0, rb))),
        Inst::ZextB { rd, ra } => Some(ext_bytes(rd, ra, 24, 0x21)),
        Inst::ZextH { rd, ra } => Some(ext_bytes(rd, ra, 16, 0x21)),
        Inst::SextB { rd, ra } => Some(ext_bytes(rd, ra, 24, 0x22)),
        Inst::SextH { rd, ra } => Some(ext_bytes(rd, ra, 16, 0x22)),
        Inst::AndRI { rd, ra, imm9 } => Some(le32(rc_word(0x8F, 0x08, rd, ra, imm9))),
        Inst::OrRI { rd, ra, imm9 } => Some(le32(rc_word(0x8F, 0x0A, rd, ra, imm9))),
        Inst::XorRI { rd, ra, imm9 } => Some(le32(rc_word(0x8F, 0x0C, rd, ra, imm9))),
        Inst::LdBPbr { rd, pb } => Some(le32(bo_word(0x29, 0x00, rd, pb, 0))),
        Inst::LdBUPbr { rd, pb } => Some(le32(bo_word(0x29, 0x01, rd, pb, 0))),
        Inst::LdHPbr { rd, pb } => Some(le32(bo_word(0x29, 0x02, rd, pb, 0))),
        Inst::LdHUPbr { rd, pb } => Some(le32(bo_word(0x29, 0x03, rd, pb, 0))),
        Inst::LdWPbr { rd, pb } => Some(le32(bo_word(0x29, 0x04, rd, pb, 0))),
        Inst::LdBPcir { rd, pb, off10 } => Some(le32(bo_word(0x29, 0x10, rd, pb, low10(off10)))),
        Inst::LdBUPcir { rd, pb, off10 } => Some(le32(bo_word(0x29, 0x11, rd, pb, low10(off10)))),
        Inst::LdHPcir { rd, pb, off10 } => Some(le32(bo_word(0x29, 0x12, rd, pb, low10(off10)))),
        Inst::LdHUPcir { rd, pb, off10 } => Some(le32(bo_word(0x29, 0x13, rd, pb, low10(off10)))),
        Inst::LdWPcir { rd, pb, off10 } => Some(le32(bo_word(0x29, 0x14, rd, pb, low10(off10)))),
        Inst::StBPbrP { pb, rs } => Some(le32(bo_word(0xA9, 0x00, rs, pb, 0))),
        Inst::StHPbrP { pb, rs } => Some(le32(bo_word(0xA9, 0x02, rs, pb, 0))),
        Inst::StWPbrP { pb, rs } => Some(le32(bo_word(0xA9, 0x04, rs, pb, 0))),
        Inst::StBPcirP { pb, rs, off10 } => Some(le32(bo_word(0xA9, 0x10, rs, pb, low10(off10)))),
        Inst::StHPcirP { pb, rs, off10 } => Some(le32(bo_word(0xA9, 0x12, rs, pb, low10(off10)))),
        Inst::StWPcirP { pb, rs, off10 } => Some(le32(bo_word(0xA9, 0x14, rs, pb, low10(off10)))),
        Inst::LeaAb { rd, rb, off } => if -512 <= off < 512 {
            Some(le32(bo_word(0x49, 0x28, rd, rb, low10(off))))
        } else {
            None
        },
        Inst::Word { val } => Some(le32(val)),
        Inst::Byte { val } => Some(seq![val]),
    }
}

/// The halved displacement from the instruction after `pc` to `tgt`,
/// rounded down.
pub open spec fn branch_disp(tgt: u32, pc: int) -> int {
    (tgt - pc - 4) / 2
}

/// Whether a halved displacement fits the signed 15-bit field.
pub open spec fn fits15(disp: int) -> bool {
    -0x4000 <= disp < 0x4000
}

/// Whether a halved displacement fits the signed 24-bit field.
pub open spec fn fits24(disp: int) -> bool {
    -0x80_0000 <= disp < 0x80_0000
}

/// The BRR/BRC encoding (opcode, cond, first and second field) of a jump
/// with a 15-bit displacement; J and CALL have their own.
pub open spec fn brr_parts(j: Jump) -> (u32, u32, u32, u32) {
    match j {
        Jump::JeqRR { a, b } => (0x5F, 0, a, b),
        Jump::JneRR { a, b } => (0x5F, 1, a, b),
        Jump::JgeURR { a, b } => (0x7F, 1, a, b),
        Jump::JltURR { a, b } => (0x3F, 1, a, b),
        Jump::BFlag { kind } => (
            0x4D,
            if kind == 1 { 1 } else if kind == 2 || kind == 4 { 2 } else if kind == 3 || kind == 5 { 3 } else { 0 },
            0,
            0,
        ),
        Jump::JeqImm { ra, imm4 } => (0xDF, 0, ra, imm4),
        Jump::JneImm { ra, imm4 } => (0xDF, 1, ra, imm4),
        Jump::JgeRR { a, b, unsigned } => (0x7F, if unsigned { 1 } else { 0 }, a, b),
        Jump::JltRR { a, b, unsigned } => (0x3F, if unsigned { 1 } else { 0 }, a, b),
        Jump::JgeI { a, imm4, unsigned } => (0xFF, if unsigned { 1 } else { 0 }, a, imm4),
        Jump::JltI { a, imm4, unsigned } => (0xBF, if unsigned { 1 } else { 0 }, a, imm4),
        Jump::JeqARR { ra, rb } => (0x7D, 0, ra, rb),
        Jump::JneARR { ra, rb } => (0x7D, 1, ra, rb),
        Jump::JzAR { ra } => (0xBD, 0, ra, 0),
        Jump::JnzAR { ra } => (0xBD, 1, ra, 0),
        _ => (0, 0, 0, 0),
    }
}

/// The bytes of a jump with halved displacement `disp`; `None` when it does
/// not fit the jump's field.
pub open spec fn jump_bytes(j: Jump, disp: int) -> Option<Seq<u8>> {
    match j {
        Jump::J => if fits24(disp) { Some(le32(b_word(0x1D, (disp % 0x100_0000) as u32))) } else { None },
        Jump::Call => if fits24(disp) { Some(le32(b_word(0x6D, (disp % 0x100_0000) as u32))) } else { None },
        _ => if fits15(disp) {
            let (op1, cond, a, b) = brr_parts(j);
            Some(le32(brr_word(op1, cond, a, b, (disp % 0x8000) as u32)))
        } else {
            None
        },
    }
}

/// The address a jump target stands for, if it is known.
pub open spec fn target_addr(items: Seq<Item>, start: u32, t: Target) -> Option<u32> {
    match t {
        Target::Abs(v) => Some(v),
        Target::Label(l) => label_value(items, start, l@),
    }
}

/// The bytes of item `i`, written at address `pc` by the second pass.
pub open spec fn item_bytes(items: Seq<Item>, start: u32, i: int, pc: int) -> Result<Seq<u8>, AsmError> {
    match items[i] {
        Item::Label(_) => Ok(Seq::empty()),
        Item::Dir(Dir::Word(v)) => Ok(le32(v)),
        Item::Dir(Dir::Byte(b)) => Ok(seq![b]),
        Item::Instr(inst) => match inst_bytes(inst) {
            Some(b) => Ok(b),
            None => Err(AsmError::OutOfRange { index: i as usize }),
        },
        Item::Jump(j, t) => match target_addr(items, start, t) {
            None => Err(AsmError::UnknownLabel { index: i as usize }),
            Some(tgt) => match jump_bytes(j, branch_disp(tgt, pc)) {
                Some(b) => Ok(b),
                None => Err(AsmError::OutOfRange { index: i as usize }),
            },
        },
    }
}

/// The second pass from item `i` on, at address `pc`, after `out`.
pub open spec fn assemble_from(items: Seq<Item>, start: u32, i: int, pc: int, out: Seq<u8>) -> Result<
    Seq<u8>,
    AsmError,
>
    decreases items.len() - i,
{
    if i < 0 || i >= items.len() {
        Ok(out)
    } else {
        match item_bytes(items, start, i, pc) {
            Err(e) => Err(e),
            Ok(b) => assemble_from(items, start, i + 1, pc + b.len(), out + b),
        }
    }
}

/// Whether the second pass's 32-bit address counter, from item `i` on at
/// address `pc`, stays within 32 bits until the end or until the first item
/// that fails: after each item that is written, the address past it fits.
pub open spec fn fits_from(items: Seq<Item>, start: u32, i: int, pc: int) -> bool
    decreases items.len() - i,
{
    if i < 0 || i >= items.len() {
        true
    } else {
        match item_bytes(items, start, i, pc) {
            Err(_) => true,
            Ok(b) => pc + b.len() <= u32::MAX && fits_from(items, start, i + 1, pc + b.len()),
        }
    }
}

/// The program's bytes, loaded at `start`, or the first item that fails.
pub open spec fn assemble(items: Seq<Item>, start: u32) -> Result<Seq<u8>, AsmError> {
    assemble_from(items, start, 0, start as int, Seq::empty())
}

// ----------------------------------------------------------------------------
// Implementation.
// ----------------------------------------------------------------------------

/// The size the first pass reserves for `item`.
pub fn width_of(item: &Item) -> (r: usize)
    ensures
        r == item_width(*item),
        r <= 12,
{
    match item {
        Item::Label(_) => 0,
        Item::Dir(Dir::Word(_)) => 4,
        Item::Dir(Dir::Byte(_)) => 1,
        Item::Jump(_, _) => 4,
        Item::Instr(i) => match i {
            Inst::Mov16 { .. } | Inst::AndRR16 { .. } | Inst::OrRR16 { .. } | Inst::XorRR16 { .. } => 2,
            Inst::Byte { .. } => 1,
            Inst::ZextB { .. } | Inst::ZextH { .. } | Inst::SextB { .. } | Inst::SextH { .. } => 12,
            _ => 4,
        },
    }
}

/// The fields of an absolute address's off18 (see `off18_fields`).
pub fn abs_off18_fields(ea: u32, sel: Option<u32>) -> (r: (u32, u32, u32, u32))
    ensures
        r == off18_fields(ea, sel),
{
    let top4 = (ea >> 28) & 0xF;
    let low14 = ea & 0x3FFF;
    let off18 = (top4 << 14) | low14;
    let off17_14 = (off18 >> 14) & 0xF;
    let off13_10 = (off18 >> 10) & 0xF;
    let off9_6 = match sel {
        Some(s) => s,
        None => (off18 >> 6) & 0xF,
    };
    let off5_0 = off18 & 0x3F;
    (off17_14, off13_10, off9_6, off5_0)
}

fn push_le32(out: &mut Vec<u8>, w: u32)
    ensures
        final(out)@ == old(out)@ + le32(w),
{
    out.push((w & 0xFF) as u8);
    out.push(((w >> 8) & 0xFF) as u8);
    out.push(((w >> 16) & 0xFF) as u8);
    out.push(((w >> 24) & 0xFF) as u8);
    assert(out@ =~= old(out)@ + le32(w));
}

fn push_le16(out: &mut Vec<u8>, h: u32)
    ensures
        final(out)@ == old(out)@ + le16(h),
{
    out.push((h & 0xFF) as u8);
    out.push(((h >> 8) & 0xFF) as u8);
    assert(out@ =~= old(out)@ + le16(h));
}

fn rr_w(op2: u32, rd: u32, ra: u32, rb: u32) -> (r: u32)
    ensures
        r == rr_word(op2, rd, ra, rb),
{
    ((rd & 0xF) << 28) | ((rb & 0xF) << 16) | (op2 << 20) | ((ra & 0xF) << 8) | 0x0B
}

fn rc_w(op1: u32, op2: u32, rd: u32, ra: u32, imm9: u32) -> (r: u32)
    ensures
        r == rc_word(op1, op2, rd, ra, imm9),
{
    (op2 << 21) | ((imm9 & 0x1FF) << 12) | ((ra & 0xF) << 8) | ((rd & 0xF) << 28) | op1
}

fn bol_w(op1: u32, r: u32, ab: u32, off16: u32) -> (w: u32)
    ensures
        w == bol_word(op1, r, ab, off16),
{
    let off = off16 & 0xFFFF;
    (((off >> 6) & 0xF) << 28) | (((off >> 10) & 0x3F) << 22) | ((off & 0x3F) << 16) | ((ab & 0xF)
        << 12) | ((r & 0xF) << 8) | op1
}

fn abs_w(op1: u32, sel: u32, r: u32, ea: u32) -> (w: u32)
    ensures
        w == abs_word(op1, sel, r, ea),
{
    let (off17_14, off13_10, _sel, off5_0) = abs_off18_fields(ea, Some(sel));
    (sel << 28) | (off13_10 << 22) | (off5_0 << 16) | (off17_14 << 12) | ((r & 0xF) << 8) | op1
}

fn bo_w(op1: u32, op2: u32, r: u32, pb: u32, u10: u32) -> (w: u32)
    ensures
        w == bo_word(op1, op2, r, pb, u10),
{
    (((u10 >> 6) & 0xF) << 28) | (op2 << 22) | ((u10 & 0x3F) << 16) | ((pb & 0xF) << 12) | ((r
        & 0xF) << 8) | op1
}

fn low10_of(off: i32) -> (r: u32)
    ensures
        r == low10(off),
{
    (off as u32) & 0x3FF
}

fn sr_h(op1: u32, a: u32, b: u32) -> (r: u32)
    ensures
        r == sr_half(op1, a, b),
{
    ((b & 0xF) << 12) | ((a & 0xF) << 8) | op1
}

fn shift_op2_of(kind: u8) -> (r: u32)
    ensures
        r == shift_op2(kind),
{
    if kind == 1 {
        0x21
    } else if kind == 2 {
        0x22
    } else if kind == 3 {
        0x23
    } else {
        0x20
    }
}

fn push_ext(out: &mut Vec<u8>, rd: u32, ra: u32, n: u32, right: u32)
    ensures
        final(out)@ == old(out)@ + ext_bytes(rd, ra, n, right),
{
    let ghost o = out@;
    if rd != ra {
        push_le32(out, rr_w(0x1F, rd, 0, ra));
    }
    push_le32(out, rc_w(0x8B, 0x20, rd, rd, n));
    push_le32(out, rc_w(0x8B, right, rd, rd, n));
    assert(out@ =~= o + ext_bytes(rd, ra, n, right));
}

/// Writes the bytes of `i`; false, with nothing written, when an offset
/// does not fit.
fn emit_inst(out: &mut Vec<u8>, i: Inst) -> (r: bool)
    ensures
        match inst_bytes(i) {
            Some(b) => r && final(out)@ == old(out)@ + b,
            None => !r && final(out)@ == old(out)@,
        },
{
    match i {
        Inst::MovU { d, imm16 } => push_le32(out, ((d & 0xF) << 28) | ((imm16 & 0xFFFF) << 12) | 0xBB),
        Inst::Mov16 { d, imm4 } => push_le16(out, sr_h(0x82, d, imm4)),
        Inst::CallA { ea } => {
            let top4 = (ea >> 28) & 0xF;
            let low20 = (ea >> 1) & 0xFFFFF;
            let d24 = (top4 << 20) | low20;
            push_le32(out, ((d24 & 0xFFFF) << 16) | (((d24 >> 16) & 0xFF) << 8) | 0xED)
        },
        Inst::CallI { a } => push_le32(out, ((a & 0xF) << 8) | 0x2D),
        Inst::AddRR { rd, ra, rb } => push_le32(out, rr_w(0x00, rd, ra, rb)),
        Inst::SubRR { rd, ra, rb } => push_le32(out, rr_w(0x08, rd, ra, rb)),
        Inst::LdBuOff16 { rd, ab, off16 } => push_le32(out, bol_w(0x39, rd, ab, off16)),
        Inst::LdBOff16 { rd, ab, off16 } => push_le32(out, bol_w(0x79, rd, ab, off16)),
        Inst::LdHOff16 { rd, ab, off16 } => push_le32(out, bol_w(0xC9, rd, ab, off16)),
        Inst::LdHuOff16 { rd, ab, off16 } => push_le32(out, bol_w(0xB9, rd, ab, off16)),
        Inst::LdWOff16 { rd, ab, off16 } => push_le32(out, bol_w(0x19, rd, ab, off16)),
        Inst::StBOff16 { ab, rs, off16 } => push_le32(out, bol_w(0xE9, rs, ab, off16)),
        Inst::StHOff16 { ab, rs, off16 } => push_le32(out, bol_w(0xF9, rs, ab, off16)),
        Inst::StWOff16 { ab, rs, off16 } => push_le32(out, bol_w(0x59, rs, ab, off16)),
        Inst::LdBAbs { rd, ea } => push_le32(out, abs_w(0x05, 0, rd, ea)),
        Inst::LdBuAbs { rd, ea } => push_le32(out, abs_w(0x05, 1, rd, ea)),
        Inst::LdHAbs { rd, ea } => push_le32(out, abs_w(0x05, 2, rd, ea)),
        Inst::LdHuAbs { rd, ea } => push_le32(out, abs_w(0x05, 3, rd, ea)),
        Inst::LdWAbs { rd, ea } => push_le32(out, abs_w(0x85, 0, rd, ea)),
        Inst::StBAbs { rs, ea } => push_le32(out, abs_w(0x25, 0, rs, ea)),
        Inst::StHAbs { rs, ea } => push_le32(out, abs_w(0x25, 2, rs, ea)),
        Inst::StWAbs { rs, ea } => push_le32(out, abs_w(0xA5, 0, rs, ea)),
        Inst::MovHAa { rd, imm16 } => push_le32(out, ((rd & 0xF) << 28) | ((imm16 & 0xFFFF) << 12) | 0x91),
        Inst::LeaAbs { rd, ea } => push_le32(out, abs_w(0xC5, (ea >> 6) & 0xF, rd, ea)),
        Inst::AddihA { rd, ra, imm16 } => push_le32(
            out,
            ((rd & 0xF) << 28) | ((imm16 & 0xFFFF) << 12) | ((ra & 0xF) << 8) | 0x11,
        ),
        Inst::CmpRR { a, b, unsigned } => push_le32(out, rr_w(if unsigned { 0x19 } else { 0x18 }, 0, a, b)),
        Inst::CmpRI { a, imm, unsigned } => push_le32(
            out,
            rc_w(0x8B, if unsigned { 0x19 } else { 0x18 }, 0, a, imm),
        ),
        Inst::ShRR { rd, ra, rb, kind } => push_le32(out, rr_w(shift_op2_of(kind), rd, ra, rb)),
        Inst::ShRI { rd, ra, imm, kind } => push_le32(out, rc_w(0x8B, shift_op2_of(kind), rd, ra, imm)),
        Inst::AndnRR { rd, ra, rb } => push_le32(out, rr_w(0x24, rd, ra, rb)),
        Inst::AndnRI { rd, ra, imm } => push_le32(out, rc_w(0x8B, 0x24, rd, ra, imm)),
        Inst::NotR { rd, ra } => push_le32(out, rr_w(0x25, rd, ra, 0)),
        Inst::MinRR { rd, ra, rb, unsigned } => push_le32(out, rr_w(if unsigned { 0x28 } else { 0x26 }, rd, ra, rb)),
        Inst::MinRI { rd, ra, imm, unsigned } => push_le32(
            out,
            rc_w(0x8B, if unsigned { 0x28 } else { 0x26 }, rd, ra, imm),
        ),
        Inst::MaxRR { rd, ra, rb, unsigned } => push_le32(out, rr_w(if unsigned { 0x29 } else { 0x27 }, rd, ra, rb)),
        Inst::MaxRI { rd, ra, imm, unsigned } => push_le32(
            out,
            rc_w(0x8B, if unsigned { 0x29 } else { 0x27 }, rd, ra, imm),
        ),
        Inst::MulRR { rd, ra, rb, unsigned } => push_le32(out, rr_w(if unsigned { 0x2D } else { 0x2C }, rd, ra, rb)),
        Inst::MulRI { rd, ra, imm, unsigned } => push_le32(
            out,
            rc_w(0x8B, if unsigned { 0x2D } else { 0x2C }, rd, ra, imm),
        ),
        Inst::DivRR { rd, ra, rb, unsigned } => push_le32(out, rr_w(if unsigned { 0x2F } else { 0x2E }, rd, ra, rb)),
        Inst::AddcRR { rd, ra, rb } => push_le32(out, rr_w(0x05, rd, ra, rb)),
        Inst::AddcRI { rd, ra, imm } => push_le32(out, rc_w(0x8B, 0x05, rd, ra, imm)),
        Inst::AddxRR { rd, ra, rb } => push_le32(out, rr_w(0x04, rd, ra, rb)),
        Inst::AddxRI { rd, ra, imm } => push_le32(out, rc_w(0x8B, 0x04, rd, ra, imm)),
        Inst::AndRR16 { ra, rb } => push_le16(out, sr_h(0x26, ra, rb)),
        Inst::OrRR16 { ra, rb } => push_le16(out, sr_h(0xA6, ra, rb)),
        Inst::XorRR16 { ra, rb } => push_le16(out, sr_h(0xC6, ra, rb)),
        Inst::MovRR { rd, rb } => push_le32(out, rr_w(0x1F, rd, 0, rb)),
        Inst::ZextB { rd, ra } => push_ext(out, rd, ra, 24, 0x21),
        Inst::ZextH { rd, ra } => push_ext(out, rd, ra, 16, 0x21),
        Inst::SextB { rd, ra } => push_ext(out, rd, ra, 24, 0x22),
        Inst::SextH { rd, ra } => push_ext(out, rd, ra, 16, 0x22),
        Inst::AndRI { rd, ra, imm9 } => push_le32(out, rc_w(0x8F, 0x08, rd, ra, imm9)),
        Inst::OrRI { rd, ra, imm9 } => push_le32(out, rc_w(0x8F, 0x0A, rd, ra, imm9)),
        Inst::XorRI { rd, ra, imm9 } => push_le32(out, rc_w(0x8F, 0x0C, rd, ra, imm9)),
        Inst::LdBPbr { rd, pb } => push_le32(out, bo_w(0x29, 0x00, rd, pb, 0)),
        Inst::LdBUPbr { rd, pb } => push_le32(out, bo_w(0x29, 0x01, rd, pb, 0)),
        Inst::LdHPbr { rd, pb } => push_le32(out, bo_w(0x29, 0x02, rd, pb, 0)),
        Inst::LdHUPbr { rd, pb } => push_le32(out, bo_w(0x29, 0x03, rd, pb, 0)),
        Inst::LdWPbr { rd, pb } => push_le32(out, bo_w(0x29, 0x04, rd, pb, 0)),
        Inst::LdBPcir { rd, pb, off10 } => push_le32(out, bo_w(0x29, 0x10, rd, pb, low10_of(off10))),
        Inst::LdBUPcir { rd, pb, off10 } => push_le32(out, bo_w(0x29, 0x11, rd, pb, low10_of(off10))),
        Inst::LdHPcir { rd, pb, off10 } => push_le32(out, bo_w(0x29, 0x12, rd, pb, low10_of(off10))),
        Inst::LdHUPcir { rd, pb, off10 } => push_le32(out, bo_w(0x29, 0x13, rd, pb, low10_of(off10))),
        Inst::LdWPcir { rd, pb, off10 } => push_le32(out, bo_w(0x29, 0x14, rd, pb, low10_of(off10))),
        Inst::StBPbrP { pb, rs } => push_le32(out, bo_w(0xA9, 0x00, rs, pb, 0)),
        Inst::StHPbrP { pb, rs } => push_le32(out, bo_w(0xA9, 0x02, rs, pb, 0)),
        Inst::StWPbrP { pb, rs } => push_le32(out, bo_w(0xA9, 0x04, rs, pb, 0)),
        Inst::StBPcirP { pb, rs, off10 } => push_le32(out, bo_w(0xA9, 0x10, rs, pb, low10_of(off10))),
        Inst::StHPcirP { pb, rs, off10 } => push_le32(out, bo_w(0xA9, 0x12, rs, pb, low10_of(off10))),
        Inst::StWPcirP { pb, rs, off10 } => push_le32(out, bo_w(0xA9, 0x14, rs, pb, low10_of(off10))),
        Inst::LeaAb { rd, rb, off } => {
            if off < -512 || off >= 512 {
                return false;
            }
            push_le32(out, bo_w(0x49, 0x28, rd, rb, low10_of(off)))
        },
        Inst::Word { val } => push_le32(out, val),
        Inst::Byte { val } => {
            out.push(val);
        },
    }
    true
}

/// Writes the bytes of jump `j` with halved displacement `disp`; false, with
/// nothing written, when it does not fit.
fn emit_jump(out: &mut Vec<u8>, j: Jump, disp: i64) -> (r: bool)
    ensures
        match jump_bytes(j, disp as int) {
            Some(b) => r && final(out)@ == old(out)@ + b,
            None => !r && final(out)@ == old(out)@,
        },
{
    match j {
        Jump::J | Jump::Call => {
            if disp < -0x80_0000 || disp >= 0x80_0000 {
                return false;
            }
            let d24: u32 = if disp < 0 {
                (disp + 0x100_0000) as u32
            } else {
                disp as u32
            };
            assert(d24 == (disp as int % 0x100_0000));
            let op1: u32 = if let Jump::J = j {
                0x1D
            } else {
                0x6D
            };
            push_le32(out, ((d24 & 0xFFFF) << 16) | ((d24 >> 16) << 8) | op1);
            true
        },
        _ => {
            if disp < -0x4000 || disp >= 0x4000 {
                return false;
            }
            let d15: u32 = if disp < 0 {
                (disp + 0x8000) as u32
            } else {
                disp as u32
            };
            assert(d15 == (disp as int % 0x8000));
            let (op1, cond, a, b): (u32, u32, u32, u32) = match j {
                Jump::JeqRR { a, b } => (0x5F, 0, a, b),
                Jump::JneRR { a, b } => (0x5F, 1, a, b),
                Jump::JgeURR { a, b } => (0x7F, 1, a, b),
                Jump::JltURR { a, b } => (0x3F, 1, a, b),
                Jump::BFlag { kind } => (
                    0x4D,
                    if kind == 1 {
                        1
                    } else if kind == 2 || kind == 4 {
                        2
                    } else if kind == 3 || kind == 5 {
                        3
                    } else {
                        0
                    },
                    0,
                    0,
                ),
                Jump::JeqImm { ra, imm4 } => (0xDF, 0, ra, imm4),
                Jump::JneImm { ra, imm4 } => (0xDF, 1, ra, imm4),
                Jump::JgeRR { a, b, unsigned } => (0x7F, if unsigned { 1 } else { 0 }, a, b),
                Jump::JltRR { a, b, unsigned } => (0x3F, if unsigned { 1 } else { 0 }, a, b),
                Jump::JgeI { a, imm4, unsigned } => (0xFF, if unsigned { 1 } else { 0 }, a, imm4),
                Jump::JltI { a, imm4, unsigned } => (0xBF, if unsigned { 1 } else { 0 }, a, imm4),
                Jump::JeqARR { ra, rb } => (0x7D, 0, ra, rb),
                Jump::JneARR { ra, rb } => (0x7D, 1, ra, rb),
                Jump::JzAR { ra } => (0xBD, 0, ra, 0),
                Jump::JnzAR { ra } => (0xBD, 1, ra, 0),
                _ => (0, 0, 0, 0),
            };
            push_le32(out, (cond << 30) | (d15 << 15) | ((b & 0xF) << 12) | ((a & 0xF) << 8) | op1);
            true
        },
    }
}

/// The address of the last definition of `name` (see `label_value`);
/// `pcs` holds the first pass's address of every item.
fn find_label(items: &[Item], start: u32, pcs: &Vec<u32>, name: &String) -> (r: Option<u32>)
    requires
        pcs@.len() == items@.len(),
        forall|k: int| 0 <= k < items@.len() ==> pcs@[k] == pc_before(items@, start, k),
    ensures
        r == label_value(items@, start, name@),
{
    let n = items.len();
    let mut k = n;
    while k > 0
        invariant
            k <= n == items@.len() == pcs@.len(),
            forall|q: int| 0 <= q < items@.len() ==> pcs@[q] == pc_before(items@, start, q),
            label_value(items@, start, name@) == label_in(items@, start, name@, k as int),
        decreases k,
    {
        if let Item::Label(l) = &items[k - 1] {
            if l.eq(name) {
                return Some(pcs[k - 1]);
            }
        }
        k = k - 1;
    }
    None
}

/// The halved displacement from the instruction after `pc` to `tgt`,
/// rounded down.
fn disp_of(tgt: u32, pc: u32) -> (r: i64)
    ensures
        r as int == branch_disp(tgt, pc as int),
{
    let off: i64 = tgt as i64 - pc as i64 - 4;
    if off >= 0 {
        off / 2
    } else {
        -((-off + 1) / 2)
    }
}

proof fn lemma_inst_len(i: Inst)
    ensures
        inst_bytes(i) matches Some(b) ==> b.len() == emitted_len(Item::Instr(i)),
{
}

proof fn lemma_item_len(items: Seq<Item>, start: u32, i: int, pc: int)
    requires
        0 <= i < items.len(),
    ensures
        item_bytes(items, start, i, pc) matches Ok(b) ==> b.len() == emitted_len(items[i]),
{
    if let Item::Instr(inst) = items[i] {
        lemma_inst_len(inst);
    }
}

/// Writes the bytes of item `i` at address `pc`, or reports why it cannot.
fn emit_item(out: &mut Vec<u8>, items: &[Item], start: u32, pcs: &Vec<u32>, i: usize, pc: u32) -> (r:
    Result<(), AsmError>)
    requires
        i < items@.len(),
        pcs@.len() == items@.len(),
        forall|k: int| 0 <= k < items@.len() ==> pcs@[k] == pc_before(items@, start, k),
    ensures
        match item_bytes(items@, start, i as int, pc as int) {
            Ok(b) => r is Ok && final(out)@ == old(out)@ + b,
            Err(e) => r == Err::<(), AsmError>(e),
        },
{
    match &items[i] {
        Item::Label(_) => {
            assert(old(out)@ + Seq::<u8>::empty() =~= old(out)@);
            Ok(())
        },
        Item::Dir(Dir::Word(v)) => {
            push_le32(out, *v);
            Ok(())
        },
        Item::Dir(Dir::Byte(b)) => {
            out.push(*b);
            assert(out@ =~= old(out)@ + seq![*b]);
            Ok(())
        },
        Item::Instr(inst) => {
            if emit_inst(out, *inst) {
                Ok(())
            } else {
                Err(AsmError::OutOfRange { index: i })
            }
        },
        Item::Jump(j, t) => {
            let tgt = match t {
                Target::Abs(v) => *v,
                Target::Label(l) => match find_label(items, start, pcs, l) {
                    Some(a) => a,
                    None => {
                        return Err(AsmError::UnknownLabel { index: i });
                    },
                },
            };
            let disp = disp_of(tgt, pc);
            if emit_jump(out, *j, disp) {
                Ok(())
            } else {
                Err(AsmError::OutOfRange { index: i })
            }
        },
    }
}

/// Assembles `items` for loading at `start`: the first pass gives each label
/// the address after the sizes reserved before it, the second writes the
/// bytes, jump displacements taken from the bytes actually written.
pub fn encode(items: &[Item], start: u32) -> (r: Result<Vec<u8>, AsmError>)
    requires
        fits_from(items@, start, 0, start as int),
    ensures
        match r {
            Ok(v) => assemble(items@, start) == Ok::<Seq<u8>, AsmError>(v@),
            Err(e) => assemble(items@, start) == Err::<Seq<u8>, AsmError>(e),
        },
{
    let n = items.len();
    let mut pcs: Vec<u32> = Vec::new();
    let mut pc = start;
    let mut i: usize = 0;
    while i < n
        invariant
            n == items@.len(),
            i <= n,
            pcs@.len() == i,
            forall|k: int| 0 <= k < i ==> pcs@[k] == pc_before(items@, start, k),
            pc == pc_before(items@, start, i as int),
        decreases n - i,
    {
        pcs.push(pc);
        let w = width_of(&items[i]);
        pc = pc.wrapping_add(w as u32);
        i = i + 1;
    }
    let mut out: Vec<u8> = Vec::new();
    let mut pc: u32 = start;
    let mut i: usize = 0;
    while i < n
        invariant
            n == items@.len() == pcs@.len(),
            i <= n,
            forall|k: int| 0 <= k < items@.len() ==> pcs@[k] == pc_before(items@, start, k),
            fits_from(items@, start, i as int, pc as int),
            assemble(items@, start) == assemble_from(items@, start, i as int, pc as int, out@),
        decreases n - i,
    {
        let before = out.len();
        match emit_item(&mut out, items, start, &pcs, i, pc) {
            Err(e) => {
                return Err(e);
            },
            Ok(()) => {},
        }
        let len = out.len() - before;
        pc = pc + len as u32;
        i = i + 1;
    }
    Ok(out)
}

/// Decides `fits_from` for the whole program: whether `encode` may run
/// without its address counter leaving 32 bits.
pub fn encode_fits(items: &[Item], start: u32) -> (r: bool)
    ensures
        r == fits_from(items@, start, 0, start as int),
{
    let n = items.len();
    let mut pcs: Vec<u32> = Vec::new();
    let mut pc = start;
    let mut i: usize = 0;
    while i < n
        invariant
            n == items@.len(),
            i <= n,
            pcs@.len() == i,
            forall|k: int| 0 <= k < i ==> pcs@[k] == pc_before(items@, start, k),
            pc == pc_before(items@, start, i as int),
        decreases n - i,
    {
        pcs.push(pc);
        let w = width_of(&items[i]);
        pc = pc.wrapping_add(w as u32);
        i = i + 1;
    }
    let mut pc: u64 = start as u64;
    let mut i: usize = 0;
    while i < n
        invariant
            n == items@.len() == pcs@.len(),
            i <= n,
            forall|k: int| 0 <= k < items@.len() ==> pcs@[k] == pc_before(items@, start, k),
            pc <= u32::MAX,
            fits_from(items@, start, 0, start as int) == fits_from(items@, start, i as int, pc as int),
        decreases n - i,
    {
        let mut scratch: Vec<u8> = Vec::new();
        match emit_item(&mut scratch, items, start, &pcs, i, pc as u32) {
            Err(_) => {
                return true;
            },
            Ok(()) => {},
        }
        let len = scratch.len() as u64;
        assert(scratch@.len() <= 12) by {
            lemma_item_len(items@, start, i as int, pc as int);
            lemma_emitted_le(items@[i as int]);
        }
        if pc + len > 0xFFFF_FFFF {
            return false;
        }
        pc = pc + len;
        i = i + 1;
    }
    true
}

proof fn lemma_emitted_le(it: Item)
    ensures
        emitted_len(it) <= 12,
{
}

// ----------------------------------------------------------------------------
// Laws: what the assembler writes, the decoder reads back.
// ----------------------------------------------------------------------------

/// An RR-format word written by the assembler decodes to the operation its
/// op2 selects, with the three register fields it was given.
pub proof fn lemma_rr_roundtrip(op2: u32, rd: u32, ra: u32, rb: u32)
    requires
        rr_op(op2) is Some,
    ensures
        tc16_decode(rr_word(op2, rd, ra, rb)) == Some(
            mk4(rr_op(op2)->0, (rd & 0xF) as u8, (ra & 0xF) as u8, (rb & 0xF) as u8, 0),
        ),
{
    assert(op2 <= 0x2F);
    lemma_word_fields(0x8B, op2, rd, ra, rb, 0);
}

/// An RC-format word (op1 0x8B) decodes to the operation its op2 selects,
/// with the registers it was given and the immediate that operation takes
/// from the nine-bit constant field.
pub proof fn lemma_rc_roundtrip(op2: u32, rd: u32, ra: u32, imm9: u32)
    requires
        rc_op(op2, imm9 & 0x1FF) is Some,
    ensures
        tc16_decode(rc_word(0x8B, op2, rd, ra, imm9)) == Some(
            mk4(
                (rc_op(op2, imm9 & 0x1FF)->0).0,
                (rd & 0xF) as u8,
                (ra & 0xF) as u8,
                0,
                (rc_op(op2, imm9 & 0x1FF)->0).1,
            ),
        ),
{
    assert(op2 <= 0x2D);
    lemma_word_fields(0x8B, op2, rd, ra, 0, imm9);
}

/// A BOL-format load or store decodes to the same access, with the data and
/// base registers it was given and its 16-bit offset sign-extended.
pub proof fn lemma_bol_roundtrip(op1: u32, r: u32, ab: u32, off: u32)
    requires
        op1 == 0x19 || op1 == 0xC9 || op1 == 0xB9 || op1 == 0x79 || op1 == 0x39 || op1 == 0xE9
            || op1 == 0xF9 || op1 == 0x59,
    ensures
        tc16_decode(bol_word(op1, r, ab, off)) == spec_decode_bol(bol_word(op1, r, ab, off), op1),
        nib(bol_word(op1, r, ab, off), 8) == (r & 0xF) as u8,
        nib(bol_word(op1, r, ab, off), 12) == (ab & 0xF) as u8,
        off16(bol_word(op1, r, ab, off)) == off & 0xFFFF,
{
    let w = bol_word(op1, r, ab, off);
    let o = off & 0xFFFF;
    assert(w & 1 == 1 && w & 0xFF == op1 && nib(w, 8) == (r & 0xF) as u8 && nib(w, 12) == (ab & 0xF)
        as u8 && off16(w) == o) by (bit_vector)
        requires
            w == (((o >> 6u32) & 0xF) << 28u32) | (((o >> 10u32) & 0x3F) << 22u32) | ((o
                & 0x3F) << 16u32) | ((ab & 0xF) << 12u32) | ((r & 0xF) << 8u32) | op1,
            o == off & 0xFFFF,
            op1 == 0x19 || op1 == 0xC9 || op1 == 0xB9 || op1 == 0x79 || op1 == 0x39 || op1 == 0xE9
                || op1 == 0xF9 || op1 == 0x59,
    ;
}

/// MOV.U, MOVH.A and ADDIH.A words decode to a move of the 16-bit constant
/// (MOVH.A and ADDIH.A into the upper half) into the register given; the
/// 16-bit MOV decodes to a move of its sign-extended const4.
pub proof fn lemma_moves_roundtrip(d: u32, a: u32, imm16: u32, imm4: u32)
    ensures
        tc16_decode(((d & 0xF) << 28u32) | ((imm16 & 0xFFFF) << 12u32) | 0xBB) == Some(
            mk4(Op::MovI, (d & 0xF) as u8, 0, 0, imm16 & 0xFFFF),
        ),
        tc16_decode(((d & 0xF) << 28u32) | ((imm16 & 0xFFFF) << 12u32) | 0x91) == Some(
            mk4(Op::MovHA, (d & 0xF) as u8, 0, 0, (imm16 & 0xFFFF) << 16u32),
        ),
        tc16_decode(((d & 0xF) << 28u32) | ((imm16 & 0xFFFF) << 12u32) | ((a & 0xF) << 8u32) | 0x11)
            == Some(mk4(Op::Lea, (d & 0xF) as u8, (a & 0xF) as u8, 0, (imm16 & 0xFFFF) << 16u32)),
        tc16_decode(sr_half(0x82, d, imm4)) == Some(
            mk2(Op::MovI, (d & 0xF) as u8, 0, 0, sext(imm4 & 0xF, 4), 0),
        ),
{
    let w1 = ((d & 0xF) << 28u32) | ((imm16 & 0xFFFF) << 12u32) | 0xBB;
    let w2 = ((d & 0xF) << 28u32) | ((imm16 & 0xFFFF) << 12u32) | 0x91;
    let w3 = ((d & 0xF) << 28u32) | ((imm16 & 0xFFFF) << 12u32) | ((a & 0xF) << 8u32) | 0x11;
    let h = sr_half(0x82, d, imm4);
    assert(w1 & 1 == 1 && w1 & 0xFF == 0xBB && nib(w1, 28) == (d & 0xF) as u8 && field(w1, 12, 0xFFFF)
        == imm16 & 0xFFFF && w2 & 1 == 1 && w2 & 0xFF == 0x91 && nib(w2, 28) == (d & 0xF) as u8 && field(
        w2,
        12,
        0xFFFF,
    ) == imm16 & 0xFFFF && w3 & 1 == 1 && w3 & 0xFF == 0x11 && nib(w3, 28) == (d & 0xF) as u8 && nib(w3, 8)
        == (a & 0xF) as u8 && field(w3, 12, 0xFFFF) == imm16 & 0xFFFF && h & 1 == 0 && h & 0xFF == 0x82 && nib(
        h,
        8,
    ) == (d & 0xF) as u8 && field(h, 12, 0xF) == imm4 & 0xF) by (bit_vector)
        requires
            w1 == ((d & 0xF) << 28u32) | ((imm16 & 0xFFFF) << 12u32) | 0xBB,
            w2 == ((d & 0xF) << 28u32) | ((imm16 & 0xFFFF) << 12u32) | 0x91,
            w3 == ((d & 0xF) << 28u32) | ((imm16 & 0xFFFF) << 12u32) | ((a & 0xF) << 8u32) | 0x11,
            h == ((imm4 & 0xF) << 12u32) | ((d & 0xF) << 8u32) | 0x82,
    ;
}

/// The byte offset the decoder makes of a 24-bit displacement field holding
/// `disp` is `2 * disp` as a 32-bit word.
proof fn lemma_disp24(disp: int)
    requires
        fits24(disp),
    ensures
        ((disp % 0x100_0000) as u32) < 0x100_0000,
        (sext((disp % 0x100_0000) as u32, 24) << 1u32) as int == if disp >= 0 {
            2 * disp
        } else {
            2 * disp + 0x1_0000_0000
        },
{
    let d = (disp % 0x100_0000) as u32;
    assert(d as int == if disp >= 0 { disp } else { disp + 0x100_0000 });
    assert((d < 0x80_0000 ==> (sext(d, 24) << 1u32) as int == 2 * d) && (0x80_0000 <= d < 0x100_0000 ==> (
    sext(d, 24) << 1u32) as int == 2 * d + 0xFE00_0000)) by (bit_vector);
}

/// The byte offset the decoder makes of a 15-bit displacement field holding
/// `disp` is `2 * disp` as a 32-bit word.
proof fn lemma_disp15(disp: int)
    requires
        fits15(disp),
    ensures
        ((disp % 0x8000) as u32) < 0x8000,
        (sext((disp % 0x8000) as u32, 15) << 1u32) as int == if disp >= 0 {
            2 * disp
        } else {
            2 * disp + 0x1_0000_0000
        },
{
    let d = (disp % 0x8000) as u32;
    assert(d as int == if disp >= 0 { disp } else { disp + 0x8000 });
    assert((d < 0x4000 ==> (sext(d, 15) << 1u32) as int == 2 * d) && (0x4000 <= d < 0x8000 ==> (sext(d, 15)
        << 1u32) as int == 2 * d + 0xFFFF_0000)) by (bit_vector);
}

/// Adding the decoded offset of a displacement `disp` to the address after
/// the instruction at `pc` gives `pc + 4 + 2 * disp`, the target.
proof fn lemma_lands(tgt: u32, pc: u32, imm: u32)
    requires
        (tgt - pc) % 2 == 0,
        imm as int == if branch_disp(tgt, pc as int) >= 0 {
            2 * branch_disp(tgt, pc as int)
        } else {
            2 * branch_disp(tgt, pc as int) + 0x1_0000_0000
        },
    ensures
        wadd(wadd(pc, 4), imm) == tgt,
{
    assert(2 * branch_disp(tgt, pc as int) == tgt - pc - 4);
}

/// A J or CALL the assembler places at `pc`, for a target an even number of
/// bytes away and within reach, decodes to that jump, and its byte offset
/// added to the address of the next instruction is the target.
pub proof fn lemma_b_roundtrip(j: Jump, tgt: u32, pc: u32)
    requires
        j == Jump::J || j == Jump::Call,
        fits24(branch_disp(tgt, pc as int)),
        (tgt - pc) % 2 == 0,
    ensures
        ({
            let disp = branch_disp(tgt, pc as int);
            let w = b_word(if j == Jump::J { 0x1D } else { 0x6D }, (disp % 0x100_0000) as u32);
            &&& jump_bytes(j, disp) == Some(le32(w))
            &&& tc16_decode(w) matches Some(d)
            &&& d.op == (if j == Jump::J { Op::J } else { Op::Call })
            &&& d.width == 4
            &&& wadd(wadd(pc, 4), d.imm) == tgt
        }),
{
    let disp = branch_disp(tgt, pc as int);
    let d24 = (disp % 0x100_0000) as u32;
    let op1: u32 = if j == Jump::J { 0x1D } else { 0x6D };
    let w = b_word(op1, d24);
    lemma_disp24(disp);
    assert(w & 1 == 1 && w & 0xFF == op1 && disp24(w) == d24) by (bit_vector)
        requires
            w == ((d24 & 0xFFFF) << 16u32) | ((d24 >> 16u32) << 8u32) | op1,
            d24 < 0x100_0000,
            op1 == 0x1D || op1 == 0x6D,
    ;
    lemma_lands(tgt, pc, sext(d24, 24) << 1u32);
}

/// Whether the jump's encoding uses the field at [15:12], which shares bit
/// 15 with the displacement.
pub open spec fn uses_second_field(j: Jump) -> bool {
    !(j is BFlag || j is JzAR || j is JnzAR)
}

/// The operation the decoder reports for a conditional jump.
pub open spec fn jump_op(j: Jump) -> Op {
    match j {
        Jump::JeqRR { .. } => Op::Jeq,
        Jump::JneRR { .. } => Op::Jne,
        Jump::JgeURR { .. } => Op::JgeU,
        Jump::JltURR { .. } => Op::JltU,
        Jump::BFlag { kind } => if kind == 1 {
            Op::BneF
        } else if kind == 2 || kind == 4 {
            Op::BgeF
        } else if kind == 3 || kind == 5 {
            Op::BltF
        } else {
            Op::BeqF
        },
        Jump::JeqImm { .. } => Op::JeqImm,
        Jump::JneImm { .. } => Op::JneImm,
        Jump::JgeRR { unsigned, .. } => if unsigned { Op::JgeU } else { Op::Jge },
        Jump::JltRR { unsigned, .. } => if unsigned { Op::JltU } else { Op::Jlt },
        Jump::JgeI { unsigned, .. } => if unsigned { Op::JgeUImm } else { Op::JgeImm },
        Jump::JltI { unsigned, .. } => if unsigned { Op::JltUImm } else { Op::JltImm },
        Jump::JeqARR { .. } => Op::JeqA,
        Jump::JneARR { .. } => Op::JneA,
        Jump::JzAR { .. } => Op::JzA,
        Jump::JnzAR { .. } => Op::JnzA,
        _ => Op::J,
    }
}

/// A conditional jump the assembler places at `pc` decodes to that jump,
/// on the registers it was given, and when taken it lands on the target;
/// this holds when the target lies an even number of bytes away within
/// reach and, for the jumps that use the field at [15:12], the halved
/// displacement is even and that field is below 8.
pub proof fn lemma_brr_roundtrip(j: Jump, tgt: u32, pc: u32)
    requires
        !(j is J || j is Call),
        fits15(branch_disp(tgt, pc as int)),
        (tgt - pc) % 2 == 0,
        uses_second_field(j) ==> brr_parts(j).3 & 8 == 0 && branch_disp(tgt, pc as int) % 2 == 0,
    ensures
        ({
            let disp = branch_disp(tgt, pc as int);
            let (op1, cond, a, b) = brr_parts(j);
            let w = brr_word(op1, cond, a, b, (disp % 0x8000) as u32);
            &&& jump_bytes(j, disp) == Some(le32(w))
            &&& tc16_decode(w) matches Some(d)
            &&& d.op == jump_op(j)
            &&& d.width == 4
            &&& (op1 != 0x4D ==> d.rs1 == (a & 0xF) as u8)
            &&& (op1 == 0x5F || op1 == 0x7D || op1 == 0x7F || op1 == 0x3F ==> d.rs2 == (b & 0xF) as u8)
            &&& wadd(wadd(pc, 4), d.imm) == tgt
        }),
{
    let disp = branch_disp(tgt, pc as int);
    let (op1, cond, a, b) = brr_parts(j);
    let d15 = (disp % 0x8000) as u32;
    let w = brr_word(op1, cond, a, b, d15);
    lemma_disp15(disp);
    let bb = b & 0xF;
    assert(op1 == 0x5F || op1 == 0x7D || op1 == 0xBD || op1 == 0xDF || op1 == 0x7F || op1 == 0x3F
        || op1 == 0xFF || op1 == 0xBF || op1 == 0x4D);
    assert(op1 & 1 == 1) by (bit_vector)
        requires
            op1 == 0x5F || op1 == 0x7D || op1 == 0xBD || op1 == 0xDF || op1 == 0x7F || op1 == 0x3F
                || op1 == 0xFF || op1 == 0xBF || op1 == 0x4D;
    if uses_second_field(j) {
        assert(d15 % 2 == 0);
        assert(d15 & 1 == 0) by (bit_vector)
            requires d15 % 2 == 0;
    } else {
        assert(b == 0);
        assert(bb == 0) by (bit_vector)
            requires bb == b & 0xF, b == 0;
    }
    assert(b & 8 == 0) by (bit_vector)
        requires b == 0 || b & 8 == 0;
    assert(bb & 8 == 0) by (bit_vector)
        requires bb == b & 0xF, b & 8 == 0;
    assert(cond <= 3 && op1 < 0x100);
    assert(bb & 8 == 0 && (bb == 0 || d15 & 1 == 0) && d15 < 0x8000 && cond <= 3 && op1 < 0x100
        ==> w & 1 == op1 & 1 && w & 0xFF == op1 && field(w, 30, 0x3) == cond && nib(w, 8) == (a
        & 0xF) as u8 && (d15 & 1 == 0 ==> nib(w, 12) == bb as u8) && field(w, 12, 0xF) == bb | ((d15 & 1)
        << 3u32) && field(w, 15, 0x7FFF) == d15) by (bit_vector)
        requires
            w == (cond << 30u32) | (d15 << 15u32) | ((b & 0xF) << 12u32) | ((a & 0xF) << 8u32) | op1,
            bb == b & 0xF,
    ;
    lemma_lands(tgt, pc, sext(d15, 15) << 1u32);
    assert(tc16_decode(w) == spec_decode32(w));
    if op1 != 0x4D {
        assert(is_branch_op1(op1));
        assert(spec_decode32(w) == spec_decode_branch(w, op1));
        assert(br15(w) == sext(d15, 15) << 1u32);
    }
    match j {
        Jump::JeqRR { .. } => {},
        Jump::JneRR { .. } => {},
        Jump::JgeURR { .. } => {},
        Jump::JltURR { .. } => {},
        Jump::BFlag { kind } => {},
        Jump::JeqImm { .. } => {},
        Jump::JneImm { .. } => {},
        Jump::JgeRR { unsigned, .. } => {},
        Jump::JltRR { unsigned, .. } => {},
        Jump::JgeI { unsigned, .. } => {},
        Jump::JltI { unsigned, .. } => {},
        Jump::JeqARR { .. } => {},
        Jump::JneARR { .. } => {},
        Jump::JzAR { .. } => {},
        Jump::JnzAR { .. } => {},
        _ => {},
    }
}

/// An ABS-format access decodes with the register and selector it was given.
/// Field [31:28] holds the selector and stands for address bits 9..6 too:
/// a byte or halfword load (0x05) reads back `ea` with those four bits
/// clear, the other forms read back `ea` with them replaced by the selector.
pub proof fn lemma_abs_roundtrip(op1: u32, sel: u32, r: u32, ea: u32)
    requires
        op1 == 0x05 || op1 == 0x85 || op1 == 0x25 || op1 == 0xA5 || op1 == 0xC5,
        sel < 16,
    ensures
        tc16_decode(abs_word(op1, sel, r, ea)) == spec_decode_abs(abs_word(op1, sel, r, ea), op1),
        nib(abs_word(op1, sel, r, ea), 8) == (r & 0xF) as u8,
        field(abs_word(op1, sel, r, ea), 28, 0xF) == sel,
        abs_ea(off18(abs_word(op1, sel, r, ea))) == (ea & 0xF000_3C3F) | (sel << 6u32),
        abs_ea(off18(abs_word(op1, sel, r, ea)) & 0x3FC3F) == ea & 0xF000_3C3F,
        spec_decode_abs(abs_word(op1, sel, r, ea), op1) matches Some(d) ==> d.imm == if op1 == 0x05 {
            ea & 0xF000_3C3F
        } else {
            (ea & 0xF000_3C3F) | (sel << 6u32)
        },
{
    let w = abs_word(op1, sel, r, ea);
    let f = off18_fields(ea, Some(sel));
    let (f0, f1, f3) = (f.0, f.1, f.3);
    let o = (((ea >> 28u32) & 0xF) << 14u32) | (ea & 0x3FFF);
    assert(f0 == (o >> 14u32) & 0xF && f1 == (o >> 10u32) & 0xF && f3 == o & 0x3F);
    assert(w == (sel << 28u32) | (f1 << 22u32) | (f3 << 16u32) | (f0 << 12u32) | ((r & 0xF) << 8u32) | op1);
    assert(w & 1 == 1 && w & 0xFF == op1 && nib(w, 8) == (r & 0xF) as u8 && field(w, 28, 0xF) == sel
        && abs_ea(off18(w)) == (ea & 0xF000_3C3F) | (sel << 6u32) && abs_ea(off18(w) & 0x3FC3F) == ea
        & 0xF000_3C3F) by (bit_vector)
        requires
            w == (sel << 28u32) | (f1 << 22u32) | (f3 << 16u32) | (f0 << 12u32) | ((r & 0xF) << 8u32)
                | op1,
            o == (((ea >> 28u32) & 0xF) << 14u32) | (ea & 0x3FFF),
            f0 == (o >> 14u32) & 0xF,
            f1 == (o >> 10u32) & 0xF,
            f3 == o & 0x3F,
            sel < 16,
            op1 == 0x05 || op1 == 0x85 || op1 == 0x25 || op1 == 0xA5 || op1 == 0xC5,
    ;
}

/// LEA with a base register and a ten-bit signed offset: in range, the
/// assembler writes one word, and that word decodes to a LEA of the register
/// pair it was given and exactly that offset.
pub proof fn lemma_lea_bo_roundtrip(rd: u32, rb: u32, off: i32)
    requires
        -512 <= off < 512,
    ensures
        inst_bytes(Inst::LeaAb { rd, rb, off }) == Some(le32(bo_word(0x49, 0x28, rd, rb, low10(off)))),
        tc16_decode(bo_word(0x49, 0x28, rd, rb, low10(off))) == Some(
            mk4(Op::Lea, (rd & 0xF) as u8, (rb & 0xF) as u8, 0, off as u32),
        ),
{
    let u = low10(off);
    let w = bo_word(0x49, 0x28, rd, rb, u);
    assert(u == (off as u32) & 0x3FF);
    assert(sext(u, 10) == off as u32 && u <= 0x3FF) by (bit_vector)
        requires
            u == (off as u32) & 0x3FF,
            -512 <= off < 512,
    ;
    assert(w & 1 == 1 && w & 0xFF == 0x49 && field(w, 22, 0x3F) == 0x28 && nib(w, 8) == (rd & 0xF) as u8
        && nib(w, 12) == (rb & 0xF) as u8 && off10(w) == u) by (bit_vector)
        requires
            w == (((u >> 6u32) & 0xF) << 28u32) | (0x28u32 << 22u32) | ((u & 0x3F) << 16u32) | ((rb
                & 0xF) << 12u32) | ((rd & 0xF) << 8u32) | 0x49,
            u <= 0x3FF,
    ;
}

// ----------------------------------------------------------------------------
// Laws: sizes and label placement.
// ----------------------------------------------------------------------------

/// The sizes the first pass reserves for the first `n` items.
pub open spec fn reserved_total(items: Seq<Item>, n: int) -> nat
    decreases n,
{
    if n <= 0 || n > items.len() {
        0
    } else {
        reserved_total(items, n - 1) + item_width(items[n - 1])
    }
}

/// Whether the second pass writes as many bytes for the item as the first
/// reserved: every item but an extension macro whose two registers are the
/// same, which leaves its MOV out.
pub open spec fn writes_reserved(it: Item) -> bool {
    emitted_len(it) == item_width(it)
}

proof fn lemma_total_mono(items: Seq<Item>, a: int, b: int)
    requires
        0 <= a <= b <= items.len(),
    ensures
        emitted_total(items, a) <= emitted_total(items, b),
    decreases b - a,
{
    if a < b {
        lemma_total_mono(items, a, b - 1);
    }
}

proof fn lemma_from_size(items: Seq<Item>, start: u32, i: int, pc: int, out: Seq<u8>)
    requires
        0 <= i <= items.len(),
    ensures
        assemble_from(items, start, i, pc, out) matches Ok(b) ==> {
            &&& b.len() == out.len() + emitted_total(items, items.len() as int) - emitted_total(items, i)
            &&& forall|j: int| 0 <= j < out.len() ==> #[trigger] b[j] == out[j]
        },
    decreases items.len() - i,
{
    lemma_total_mono(items, i, items.len() as int);
    if i < items.len() {
        lemma_item_len(items, start, i, pc);
        if let Ok(bi) = item_bytes(items, start, i, pc) {
            lemma_from_size(items, start, i + 1, pc + bi.len(), out + bi);
            if let Ok(b) = assemble_from(items, start, i + 1, pc + bi.len(), out + bi) {
                assert forall|j: int| 0 <= j < out.len() implies #[trigger] b[j] == out[j] by {
                    assert(b[j] == (out + bi)[j]);
                }
            }
        }
    }
}

proof fn lemma_from_layout(items: Seq<Item>, start: u32, i: int, out: Seq<u8>, k: int)
    requires
        0 <= i <= k < items.len(),
        out.len() == emitted_total(items, i),
        assemble_from(items, start, i, start + emitted_total(items, i), out) is Ok,
    ensures
        emitted_total(items, k + 1) <= assemble_from(items, start, i, start + emitted_total(items, i), out)->Ok_0.len(),
        item_bytes(items, start, k, start + emitted_total(items, k)) == Ok::<Seq<u8>, AsmError>(
            assemble_from(items, start, i, start + emitted_total(items, i), out)->Ok_0.subrange(
                emitted_total(items, k) as int,
                emitted_total(items, k + 1) as int,
            ),
        ),
    decreases k - i,
{
    let pc = start + emitted_total(items, i);
    lemma_item_len(items, start, i, pc);
    let bi = item_bytes(items, start, i, pc)->Ok_0;
    assert(emitted_total(items, i + 1) == emitted_total(items, i) + emitted_len(items[i]));
    if i < k {
        lemma_from_layout(items, start, i + 1, out + bi, k);
    } else {
        let b = assemble_from(items, start, i + 1, pc + bi.len(), out + bi)->Ok_0;
        lemma_from_size(items, start, i + 1, pc + bi.len(), out + bi);
        lemma_total_mono(items, i + 1, items.len() as int);
        assert(b.subrange(out.len() as int, (out + bi).len() as int) =~= bi) by {
            assert forall|j: int| 0 <= j < bi.len() implies b.subrange(
                out.len() as int,
                (out + bi).len() as int,
            )[j] == bi[j] by {
                assert(b[out.len() + j] == (out + bi)[out.len() + j]);
            }
        }
    }
}

/// The layout of an assembled program: it is as long as the bytes the
/// second pass writes for all items, and each item's bytes stand at the
/// offset the items before it fill, encoded for the address `start` plus that
/// offset, where they are loaded.
pub proof fn lemma_assemble_layout(items: Seq<Item>, start: u32, k: int)
    requires
        assemble(items, start) is Ok,
        0 <= k < items.len(),
    ensures
        assemble(items, start)->Ok_0.len() == emitted_total(items, items.len() as int),
        item_bytes(items, start, k, start + emitted_total(items, k)) == Ok::<Seq<u8>, AsmError>(
            assemble(items, start)->Ok_0.subrange(
                emitted_total(items, k) as int,
                emitted_total(items, k + 1) as int,
            ),
        ),
{
    lemma_from_size(items, start, 0, start as int, Seq::empty());
    lemma_from_layout(items, start, 0, Seq::empty(), k);
}

/// Where each item writes what the first pass reserved, the bytes written
/// for the first `n` items are the sizes reserved for them.
pub proof fn lemma_reserved_is_emitted(items: Seq<Item>, n: int)
    requires
        0 <= n <= items.len(),
        forall|j: int| 0 <= j < n ==> writes_reserved(#[trigger] items[j]),
    ensures
        emitted_total(items, n) == reserved_total(items, n),
    decreases n,
{
    if n > 0 {
        lemma_reserved_is_emitted(items, n - 1);
        assert(writes_reserved(items[n - 1]));
    }
}

/// Label placement: where every item before the `k`-th writes what was
/// reserved for it and the program up to there fits below 2^32, the first
/// pass gives item `k` the address `start` plus the sizes reserved before
/// it, which is the address at which its bytes are written.
pub proof fn lemma_label_placement(items: Seq<Item>, start: u32, k: int)
    requires
        0 <= k <= items.len(),
        forall|j: int| 0 <= j < k ==> writes_reserved(#[trigger] items[j]),
        start + reserved_total(items, k) <= u32::MAX,
    ensures
        pc_before(items, start, k) == start + reserved_total(items, k),
        pc_before(items, start, k) == start + emitted_total(items, k),
    decreases k,
{
    lemma_reserved_is_emitted(items, k);
    if k > 0 {
        assert(item_width(items[k - 1]) <= 12);
        lemma_label_placement(items, start, k - 1);
    }
}

/// A label stands for the address of its last definition: where the `k`-th
/// item defines `name`, no later item defines it again, and the items before
/// it write what was reserved within 32 bits, a jump to `name` is encoded
/// against `start` plus the sizes before that definition, the address of the
/// bytes that follow it.
pub proof fn lemma_label_value(items: Seq<Item>, start: u32, k: int, name: Seq<char>)
    requires
        0 <= k < items.len(),
        items[k] matches Item::Label(l) && l@ == name,
        forall|j: int| k < j < items.len() ==> !(#[trigger] items[j] matches Item::Label(m) && m@ == name),
        forall|j: int| 0 <= j < k ==> writes_reserved(#[trigger] items[j]),
        start + reserved_total(items, k) <= u32::MAX,
    ensures
        label_value(items, start, name) == Some((start + reserved_total(items, k)) as u32),
        label_value(items, start, name) == Some((start + emitted_total(items, k)) as u32),
{
    lemma_label_placement(items, start, k);
    lemma_label_last(items, start, k, name, items.len() as int);
}

proof fn lemma_label_last(items: Seq<Item>, start: u32, k: int, name: Seq<char>, n: int)
    requires
        0 <= k < n <= items.len(),
        items[k] matches Item::Label(l) && l@ == name,
        forall|j: int| k < j < items.len() ==> !(#[trigger] items[j] matches Item::Label(m) && m@ == name),
    ensures
        label_in(items, start, name, n) == Some(pc_before(items, start, k)),
    decreases n,
{
    if n - 1 > k {
        assert(!(items[n - 1] matches Item::Label(m) && m@ == name));
        lemma_label_last(items, start, k, name, n - 1);
    }
}

/// LEA with an absolute address: the assembler puts address bits 9..6 in
/// the selector field, so the word decodes to a LEA of the register it was
/// given and of `ea` with only bits 27..14, which the form cannot carry,
/// cleared.
pub proof fn lemma_lea_abs_roundtrip(rd: u32, ea: u32)
    ensures
        inst_bytes(Inst::LeaAbs { rd, ea }) == Some(le32(abs_word(0xC5, (ea >> 6u32) & 0xF, rd, ea))),
        tc16_decode(abs_word(0xC5, (ea >> 6u32) & 0xF, rd, ea)) == Some(
            mk(Op::Lea, 4, (rd & 0xF) as u8, 0, 0, ea & 0xF000_3FFF, 0, true, false, false),
        ),
{
    let sel = (ea >> 6u32) & 0xF;
    assert(sel < 16 && (ea & 0xF000_3C3F) | (sel << 6u32) == ea & 0xF000_3FFF) by (bit_vector)
        requires
            sel == (ea >> 6u32) & 0xF,
    ;
    lemma_abs_roundtrip(0xC5, sel, rd, ea);
}

// ----------------------------------------------------------------------------
// Law: every instruction decodes back to what was written.
// ----------------------------------------------------------------------------

/// A constant that fits a signed 9-bit field.
pub open spec fn fits_s9(x: u32) -> bool {
    x < 0x100 || x >= 0xFFFF_FF00
}

/// A constant that fits a signed 16-bit field.
pub open spec fn fits_s16(x: u32) -> bool {
    x < 0x8000 || x >= 0xFFFF_8000
}

/// The shift of a shift kind: 0 left, 1 right, 2 arithmetic right, 3 rotate.
pub open spec fn shift_of(kind: u8) -> Op {
    if kind == 0 { Op::Shl } else if kind == 1 { Op::Shr } else if kind == 2 { Op::Sar } else { Op::Ror }
}

/// An instruction as written to the assembler, as the decoder should read it
/// back: its operation and its operands, for the 32-bit register, constant,
/// address and memory forms whose operands fit their fields (registers below
/// 16, constants within their field's signed or unsigned range). The
/// absolute forms carry address bits 31..28 and 13..0 (a LEA also 9..6),
/// CALLA bits 31..28 and 20..1; the other bits of `ea` are not part of the
/// encoding. `None` for the forms
/// outside this table: the 16-bit forms, the P[b] forms, the extension
/// macros, data, and ST.H with an absolute address, whose selector takes the
/// place of address bits 9..6.
pub open spec fn written_as(i: Inst) -> Option<Decoded> {
    let low = 0xF000_3C3Fu32;
    match i {
        Inst::MovU { d, imm16 } => if d < 16 && imm16 < 0x1_0000 {
            Some(mk4(Op::MovI, d as u8, 0, 0, imm16))
        } else {
            None
        },
        Inst::MovHAa { rd, imm16 } => if rd < 16 && imm16 < 0x1_0000 {
            Some(mk4(Op::MovHA, rd as u8, 0, 0, (imm16 * 0x1_0000) as u32))
        } else {
            None
        },
        Inst::AddihA { rd, ra, imm16 } => if rd < 16 && ra < 16 && imm16 < 0x1_0000 {
            Some(mk4(Op::Lea, rd as u8, ra as u8, 0, (imm16 * 0x1_0000) as u32))
        } else {
            None
        },
        Inst::AddRR { rd, ra, rb } => if rd < 16 && ra < 16 && rb < 16 {
            Some(mk4(Op::Add, rd as u8, ra as u8, rb as u8, 0))
        } else {
            None
        },
        Inst::SubRR { rd, ra, rb } => if rd < 16 && ra < 16 && rb < 16 {
            Some(mk4(Op::Sub, rd as u8, ra as u8, rb as u8, 0))
        } else {
            None
        },
        Inst::AddcRR { rd, ra, rb } => if rd < 16 && ra < 16 && rb < 16 {
            Some(mk4(Op::Addc, rd as u8, ra as u8, rb as u8, 0))
        } else {
            None
        },
        Inst::AddxRR { rd, ra, rb } => if rd < 16 && ra < 16 && rb < 16 {
            Some(mk4(Op::Addx, rd as u8, ra as u8, rb as u8, 0))
        } else {
            None
        },
        Inst::AndnRR { rd, ra, rb } => if rd < 16 && ra < 16 && rb < 16 {
            Some(mk4(Op::Andn, rd as u8, ra as u8, rb as u8, 0))
        } else {
            None
        },
        Inst::ShRR { rd, ra, rb, kind } => if rd < 16 && ra < 16 && rb < 16 && kind <= 3 {
            Some(mk4(shift_of(kind), rd as u8, ra as u8, rb as u8, 0))
        } else {
            None
        },
        Inst::MinRR { rd, ra, rb, unsigned } => if rd < 16 && ra < 16 && rb < 16 {
            Some(mk4(if unsigned { Op::MinU } else { Op::Min }, rd as u8, ra as u8, rb as u8, 0))
        } else {
            None
        },
        Inst::MaxRR { rd, ra, rb, unsigned } => if rd < 16 && ra < 16 && rb < 16 {
            Some(mk4(if unsigned { Op::MaxU } else { Op::Max }, rd as u8, ra as u8, rb as u8, 0))
        } else {
            None
        },
        Inst::MulRR { rd, ra, rb, unsigned } => if rd < 16 && ra < 16 && rb < 16 {
            Some(mk4(if unsigned { Op::MulU } else { Op::Mul }, rd as u8, ra as u8, rb as u8, 0))
        } else {
            None
        },
        Inst::DivRR { rd, ra, rb, unsigned } => if rd < 16 && ra < 16 && rb < 16 {
            Some(mk4(if unsigned { Op::DivU } else { Op::Div }, rd as u8, ra as u8, rb as u8, 0))
        } else {
            None
        },
        Inst::NotR { rd, ra } => if rd < 16 && ra < 16 {
            Some(mk4(Op::Not, rd as u8, ra as u8, 0, 0))
        } else {
            None
        },
        Inst::MovRR { rd, rb } => if rd < 16 && rb < 16 {
            Some(mk4(Op::Mov, rd as u8, rb as u8, 0, 0))
        } else {
            None
        },
        Inst::CmpRR { a, b, unsigned } => if a < 16 && b < 16 {
            Some(mk4(if unsigned { Op::CmpU } else { Op::Cmp }, 0, a as u8, b as u8, 0))
        } else {
            None
        },
        Inst::CmpRI { a, imm, unsigned } => if a < 16 && (if unsigned { imm < 0x200 } else { fits_s9(imm) }) {
            Some(mk4(if unsigned { Op::CmpUI } else { Op::CmpI }, 0, a as u8, 0, imm))
        } else {
            None
        },
        Inst::ShRI { rd, ra, imm, kind } => if rd < 16 && ra < 16 && imm < 32 && kind <= 3 {
            Some(mk4(shift_of(kind), rd as u8, ra as u8, 0, imm))
        } else {
            None
        },
        Inst::AndnRI { rd, ra, imm } => if rd < 16 && ra < 16 && imm < 0x200 {
            Some(mk4(Op::Andn, rd as u8, ra as u8, 0, imm))
        } else {
            None
        },
        Inst::MinRI { rd, ra, imm, unsigned } => if rd < 16 && ra < 16 && (if unsigned { imm < 0x200 } else { fits_s9(imm) }) {
            Some(mk4(if unsigned { Op::MinU } else { Op::Min }, rd as u8, ra as u8, 0, imm))
        } else {
            None
        },
        Inst::MaxRI { rd, ra, imm, unsigned } => if rd < 16 && ra < 16 && (if unsigned { imm < 0x200 } else { fits_s9(imm) }) {
            Some(mk4(if unsigned { Op::MaxU } else { Op::Max }, rd as u8, ra as u8, 0, imm))
        } else {
            None
        },
        Inst::MulRI { rd, ra, imm, unsigned } => if rd < 16 && ra < 16 && (if unsigned { imm < 0x200 } else { fits_s9(imm) }) {
            Some(mk4(if unsigned { Op::MulU } else { Op::Mul }, rd as u8, ra as u8, 0, imm))
        } else {
            None
        },
        Inst::AddcRI { rd, ra, imm } => if rd < 16 && ra < 16 && fits_s9(imm) {
            Some(mk4(Op::Addc, rd as u8, ra as u8, 0, imm))
        } else {
            None
        },
        Inst::AddxRI { rd, ra, imm } => if rd < 16 && ra < 16 && fits_s9(imm) {
            Some(mk4(Op::Addx, rd as u8, ra as u8, 0, imm))
        } else {
            None
        },
        Inst::AndRI { rd, ra, imm9 } => if rd < 16 && ra < 16 && imm9 < 0x200 {
            Some(mk4(Op::And, rd as u8, ra as u8, 0, imm9))
        } else {
            None
        },
        Inst::OrRI { rd, ra, imm9 } => if rd < 16 && ra < 16 && imm9 < 0x200 {
            Some(mk4(Op::Or, rd as u8, ra as u8, 0, imm9))
        } else {
            None
        },
        Inst::XorRI { rd, ra, imm9 } => if rd < 16 && ra < 16 && imm9 < 0x200 {
            Some(mk4(Op::Xor, rd as u8, ra as u8, 0, imm9))
        } else {
            None
        },
        Inst::LdWOff16 { rd, ab, off16 } => if rd < 16 && ab < 16 && fits_s16(off16) {
            Some(mk4(Op::LdW, rd as u8, ab as u8, 0, off16))
        } else {
            None
        },
        Inst::LdHOff16 { rd, ab, off16 } => if rd < 16 && ab < 16 && fits_s16(off16) {
            Some(mk4(Op::LdH, rd as u8, ab as u8, 0, off16))
        } else {
            None
        },
        Inst::LdHuOff16 { rd, ab, off16 } => if rd < 16 && ab < 16 && fits_s16(off16) {
            Some(mk4(Op::LdHu, rd as u8, ab as u8, 0, off16))
        } else {
            None
        },
        Inst::LdBOff16 { rd, ab, off16 } => if rd < 16 && ab < 16 && fits_s16(off16) {
            Some(mk4(Op::LdB, rd as u8, ab as u8, 0, off16))
        } else {
            None
        },
        Inst::LdBuOff16 { rd, ab, off16 } => if rd < 16 && ab < 16 && fits_s16(off16) {
            Some(mk4(Op::LdBu, rd as u8, ab as u8, 0, off16))
        } else {
            None
        },
        Inst::StBOff16 { ab, rs, off16 } => if rs < 16 && ab < 16 && fits_s16(off16) {
            Some(mk4(Op::StB, 0, ab as u8, rs as u8, off16))
        } else {
            None
        },
        Inst::StHOff16 { ab, rs, off16 } => if rs < 16 && ab < 16 && fits_s16(off16) {
            Some(mk4(Op::StH, 0, ab as u8, rs as u8, off16))
        } else {
            None
        },
        Inst::StWOff16 { ab, rs, off16 } => if rs < 16 && ab < 16 && fits_s16(off16) {
            Some(mk4(Op::StW, 0, ab as u8, rs as u8, off16))
        } else {
            None
        },
        Inst::LdBAbs { rd, ea } => if rd < 16 {
            Some(mk(Op::LdB, 4, rd as u8, 0, 0, ea & low, 0, true, false, false))
        } else {
            None
        },
        Inst::LdBuAbs { rd, ea } => if rd < 16 {
            Some(mk(Op::LdBu, 4, rd as u8, 0, 0, ea & low, 0, true, false, false))
        } else {
            None
        },
        Inst::LdHAbs { rd, ea } => if rd < 16 {
            Some(mk(Op::LdH, 4, rd as u8, 0, 0, ea & low, 0, true, false, false))
        } else {
            None
        },
        Inst::LdHuAbs { rd, ea } => if rd < 16 {
            Some(mk(Op::LdHu, 4, rd as u8, 0, 0, ea & low, 0, true, false, false))
        } else {
            None
        },
        Inst::LdWAbs { rd, ea } => if rd < 16 {
            Some(mk(Op::LdW, 4, rd as u8, 0, 0, ea & low, 0, true, false, false))
        } else {
            None
        },
        Inst::StBAbs { rs, ea } => if rs < 16 {
            Some(mk(Op::StB, 4, 0, 0, rs as u8, ea & low, 0, true, false, false))
        } else {
            None
        },
        Inst::StWAbs { rs, ea } => if rs < 16 {
            Some(mk(Op::StW, 4, 0, 0, rs as u8, ea & low, 0, true, false, false))
        } else {
            None
        },
        Inst::LeaAbs { rd, ea } => if rd < 16 {
            Some(mk(Op::Lea, 4, rd as u8, 0, 0, ea & 0xF000_3FFF, 0, true, false, false))
        } else {
            None
        },
        Inst::LeaAb { rd, rb, off } => if rd < 16 && rb < 16 && -512 <= off < 512 {
            Some(mk4(Op::Lea, rd as u8, rb as u8, 0, off as u32))
        } else {
            None
        },
        Inst::CallA { ea } => Some(mk(Op::CallA, 4, 0, 0, 0, ea & 0xF01F_FFFE, 0, true, false, false)),
        Inst::CallI { a } => if a < 16 {
            Some(mk4(Op::CallI, 0, a as u8, 0, 0))
        } else {
            None
        },
        _ => None,
    }
}

/// The fields of an RR word (op1 0x0B) and of an RC word (op1 0x8B or 0x8F).
proof fn lemma_word_fields(op1: u32, op2: u32, rd: u32, ra: u32, rb: u32, imm9: u32)
    requires
        op1 == 0x8B || op1 == 0x8F,
        op2 < 0x80,
    ensures
        ({
            let w = rr_word(op2, rd, ra, rb);
            &&& w & 1 == 1 && w & 0xFF == 0x0B && field(w, 20, 0xFF) == op2
            &&& nib(w, 28) == (rd & 0xF) as u8 && nib(w, 16) == (rb & 0xF) as u8 && nib(w, 8) == (ra
                & 0xF) as u8
        }),
        ({
            let v = rc_word(op1, op2, rd, ra, imm9);
            &&& v & 1 == 1 && v & 0xFF == op1 && field(v, 21, 0x7F) == op2 && field(v, 12, 0x1FF) == imm9
                & 0x1FF
            &&& nib(v, 28) == (rd & 0xF) as u8 && nib(v, 8) == (ra & 0xF) as u8
        }),
{
    let w = rr_word(op2, rd, ra, rb);
    let v = rc_word(op1, op2, rd, ra, imm9);
    assert(w & 1 == 1 && w & 0xFF == 0x0B && field(w, 20, 0xFF) == op2 && nib(w, 28) == (rd & 0xF) as u8
        && nib(w, 16) == (rb & 0xF) as u8 && nib(w, 8) == (ra & 0xF) as u8 && v & 1 == 1 && v & 0xFF == op1
        && field(v, 21, 0x7F) == op2 && field(v, 12, 0x1FF) == imm9 & 0x1FF && nib(v, 28) == (rd & 0xF)
        as u8 && nib(v, 8) == (ra & 0xF) as u8) by (bit_vector)
        requires
            w == ((rd & 0xF) << 28u32) | ((rb & 0xF) << 16u32) | (op2 << 20u32) | ((ra & 0xF) << 8u32)
                | 0x0B,
            v == (op2 << 21u32) | ((imm9 & 0x1FF) << 12u32) | ((ra & 0xF) << 8u32) | ((rd & 0xF) << 28u32)
                | op1,
            op1 == 0x8B || op1 == 0x8F,
            op2 < 0x80,
    ;
}

proof fn lemma_back_add_r_r(rd: u32, ra: u32, rb: u32) -> (w: u32)
    requires
        written_as(Inst::AddRR { rd, ra, rb }) is Some,
    ensures
        inst_bytes(Inst::AddRR { rd, ra, rb }) == Some(le32(w)),
        tc16_decode(w) == written_as(Inst::AddRR { rd, ra, rb }),
{
    lemma_word_fields(0x8B, 0x00u32, rd, ra, rb, 0);
    lemma_low_bits(rd);
    lemma_low_bits(ra);
    lemma_low_bits(rb);

    rr_word(0x00u32, rd, ra, rb)
}

proof fn lemma_back_sub_r_r(rd: u32, ra: u32, rb: u32) -> (w: u32)
    requires
        written_as(Inst::SubRR { rd, ra, rb }) is Some,
    ensures
        inst_bytes(Inst::SubRR { rd, ra, rb }) == Some(le32(w)),
        tc16_decode(w) == written_as(Inst::SubRR { rd, ra, rb }),
{
    lemma_word_fields(0x8B, 0x08u32, rd, ra, rb, 0);
    lemma_low_bits(rd);
    lemma_low_bits(ra);
    lemma_low_bits(rb);

    rr_word(0x08u32, rd, ra, rb)
}

proof fn lemma_back_addc_r_r(rd: u32, ra: u32, rb: u32) -> (w: u32)
    requires
        written_as(Inst::AddcRR { rd, ra, rb }) is Some,
    ensures
        inst_bytes(Inst::AddcRR { rd, ra, rb }) == Some(le32(w)),
        tc16_decode(w) == written_as(Inst::AddcRR { rd, ra, rb }),
{
    lemma_word_fields(0x8B, 0x05u32, rd, ra, rb, 0);
    lemma_low_bits(rd);
    lemma_low_bits(ra);
    lemma_low_bits(rb);

    rr_word(0x05u32, rd, ra, rb)
}

proof fn lemma_back_addx_r_r(rd: u32, ra: u32, rb: u32) -> (w: u32)
    requires
        written_as(Inst::AddxRR { rd, ra, rb }) is Some,
    ensures
        inst_bytes(Inst::AddxRR { rd, ra, rb }) == Some(le32(w)),
        tc16_decode(w) == written_as(Inst::AddxRR { rd, ra, rb }),
{
    lemma_word_fields(0x8B, 0x04u32, rd, ra, rb, 0);
    lemma_low_bits(rd);
    lemma_low_bits(ra);
    lemma_low_bits(rb);

    rr_word(0x04u32, rd, ra, rb)
}

proof fn lemma_back_andn_r_r(rd: u32, ra: u32, rb: u32) -> (w: u32)
    requires
        written_as(Inst::AndnRR { rd, ra, rb }) is Some,
    ensures
        inst_bytes(Inst::AndnRR { rd, ra, rb }) == Some(le32(w)),
        tc16_decode(w) == written_as(Inst::AndnRR { rd, ra, rb }),
{
    lemma_word_fields(0x8B, 0x24u32, rd, ra, rb, 0);
    lemma_low_bits(rd);
    lemma_low_bits(ra);
    lemma_low_bits(rb);

    rr_word(0x24u32, rd, ra, rb)
}

proof fn lemma_back_sh_r_r(rd: u32, ra: u32, rb: u32, kind: u8) -> (w: u32)
    requires
        written_as(Inst::ShRR { rd, ra, rb, kind }) is Some,
    ensures
        inst_bytes(Inst::ShRR { rd, ra, rb, kind }) == Some(le32(w)),
        tc16_decode(w) == written_as(Inst::ShRR { rd, ra, rb, kind }),
{
    lemma_word_fields(0x8B, shift_op2(kind), rd, ra, rb, 0);
    lemma_low_bits(rd);
    lemma_low_bits(ra);
    lemma_low_bits(rb);

    rr_word(shift_op2(kind), rd, ra, rb)
}

proof fn lemma_back_min_r_r(rd: u32, ra: u32, rb: u32, unsigned: bool) -> (w: u32)
    requires
        written_as(Inst::MinRR { rd, ra, rb, unsigned }) is Some,
    ensures
        inst_bytes(Inst::MinRR { rd, ra, rb, unsigned }) == Some(le32(w)),
        tc16_decode(w) == written_as(Inst::MinRR { rd, ra, rb, unsigned }),
{
    lemma_word_fields(0x8B, if unsigned { 0x28u32 } else { 0x26u32 }, rd, ra, rb, 0);
    lemma_low_bits(rd);
    lemma_low_bits(ra);
    lemma_low_bits(rb);

    rr_word(if unsigned { 0x28u32 } else { 0x26u32 }, rd, ra, rb)
}

proof fn lemma_back_max_r_r(rd: u32, ra: u32, rb: u32, unsigned: bool) -> (w: u32)
    requires
        written_as(Inst::MaxRR { rd, ra, rb, unsigned }) is Some,
    ensures
        inst_bytes(Inst::MaxRR { rd, ra, rb, unsigned }) == Some(le32(w)),
        tc16_decode(w) == written_as(Inst::MaxRR { rd, ra, rb, unsigned }),
{
    lemma_word_fields(0x8B, if unsigned { 0x29u32 } else { 0x27u32 }, rd, ra, rb, 0);
    lemma_low_bits(rd);
    lemma_low_bits(ra);
    lemma_low_bits(rb);

    rr_word(if unsigned { 0x29u32 } else { 0x27u32 }, rd, ra, rb)
}

proof fn lemma_back_mul_r_r(rd: u32, ra: u32, rb: u32, unsigned: bool) -> (w: u32)
    requires
        written_as(Inst::MulRR { rd, ra, rb, unsigned }) is Some,
    ensures
        inst_bytes(Inst::MulRR { rd, ra, rb, unsigned }) == Some(le32(w)),
        tc16_decode(w) == written_as(Inst::MulRR { rd, ra, rb, unsigned }),
{
    lemma_word_fields(0x8B, if unsigned { 0x2Du32 } else { 0x2Cu32 }, rd, ra, rb, 0);
    lemma_low_bits(rd);
    lemma_low_bits(ra);
    lemma_low_bits(rb);

    rr_word(if unsigned { 0x2Du32 } else { 0x2Cu32 }, rd, ra, rb)
}

proof fn lemma_back_div_r_r(rd: u32, ra: u32, rb: u32, unsigned: bool) -> (w: u32)
    requires
        written_as(Inst::DivRR { rd, ra, rb, unsigned }) is Some,
    ensures
        inst_bytes(Inst::DivRR { rd, ra, rb, unsigned }) == Some(le32(w)),
        tc16_decode(w) == written_as(Inst::DivRR { rd, ra, rb, unsigned }),
{
    lemma_word_fields(0x8B, if unsigned { 0x2Fu32 } else { 0x2Eu32 }, rd, ra, rb, 0);
    lemma_low_bits(rd);
    lemma_low_bits(ra);
    lemma_low_bits(rb);

    rr_word(if unsigned { 0x2Fu32 } else { 0x2Eu32 }, rd, ra, rb)
}

proof fn lemma_back_not_r(rd: u32, ra: u32) -> (w: u32)
    requires
        written_as(Inst::NotR { rd, ra }) is Some,
    ensures
        inst_bytes(Inst::NotR { rd, ra }) == Some(le32(w)),
        tc16_decode(w) == written_as(Inst::NotR { rd, ra }),
{
    lemma_word_fields(0x8B, 0x25u32, rd, ra, 0, 0);
    lemma_low_bits(rd);
    lemma_low_bits(ra);

    rr_word(0x25u32, rd, ra, 0)
}

proof fn lemma_back_mov_r_r(rd: u32, rb: u32) -> (w: u32)
    requires
        written_as(Inst::MovRR { rd, rb }) is Some,
    ensures
        inst_bytes(Inst::MovRR { rd, rb }) == Some(le32(w)),
        tc16_decode(w) == written_as(Inst::MovRR { rd, rb }),
{
    lemma_word_fields(0x8B, 0x1Fu32, rd, 0, rb, 0);
    lemma_low_bits(rd);
    lemma_low_bits(rb);

    rr_word(0x1Fu32, rd, 0, rb)
}

proof fn lemma_back_cmp_r_r(a: u32, b: u32, unsigned: bool) -> (w: u32)
    requires
        written_as(Inst::CmpRR { a, b, unsigned }) is Some,
    ensures
        inst_bytes(Inst::CmpRR { a, b, unsigned }) == Some(le32(w)),
        tc16_decode(w) == written_as(Inst::CmpRR { a, b, unsigned }),
{
    lemma_word_fields(0x8B, if unsigned { 0x19u32 } else { 0x18u32 }, 0, a, b, 0);
    lemma_low_bits(a);
    lemma_low_bits(b);

    rr_word(if unsigned { 0x19u32 } else { 0x18u32 }, 0, a, b)
}

proof fn lemma_back_cmp_r_i(a: u32, imm: u32, unsigned: bool) -> (w: u32)
    requires
        written_as(Inst::CmpRI { a, imm, unsigned }) is Some,
    ensures
        inst_bytes(Inst::CmpRI { a, imm, unsigned }) == Some(le32(w)),
        tc16_decode(w) == written_as(Inst::CmpRI { a, imm, unsigned }),
{
    lemma_word_fields(0x8Bu32, if unsigned { 0x19u32 } else { 0x18u32 }, 0, a, 0, imm);
    lemma_low_bits(a);
    lemma_low_bits(imm);

    rc_word(0x8Bu32, if unsigned { 0x19u32 } else { 0x18u32 }, 0, a, imm)
}

proof fn lemma_back_sh_r_i(rd: u32, ra: u32, imm: u32, kind: u8) -> (w: u32)
    requires
        written_as(Inst::ShRI { rd, ra, imm, kind }) is Some,
    ensures
        inst_bytes(Inst::ShRI { rd, ra, imm, kind }) == Some(le32(w)),
        tc16_decode(w) == written_as(Inst::ShRI { rd, ra, imm, kind }),
{
    lemma_word_fields(0x8Bu32, shift_op2(kind), rd, ra, 0, imm);
    lemma_low_bits(rd);
    lemma_low_bits(ra);
    lemma_low_bits(imm);

    rc_word(0x8Bu32, shift_op2(kind), rd, ra, imm)
}

proof fn lemma_back_andn_r_i(rd: u32, ra: u32, imm: u32) -> (w: u32)
    requires
        written_as(Inst::AndnRI { rd, ra, imm }) is Some,
    ensures
        inst_bytes(Inst::AndnRI { rd, ra, imm }) == Some(le32(w)),
        tc16_decode(w) == written_as(Inst::AndnRI { rd, ra, imm }),
{
    lemma_word_fields(0x8Bu32, 0x24u32, rd, ra, 0, imm);
    lemma_low_bits(rd);
    lemma_low_bits(ra);
    lemma_low_bits(imm);

    rc_word(0x8Bu32, 0x24u32, rd, ra, imm)
}

proof fn lemma_back_min_r_i(rd: u32, ra: u32, imm: u32, unsigned: bool) -> (w: u32)
    requires
        written_as(Inst::MinRI { rd, ra, imm, unsigned }) is Some,
    ensures
        inst_bytes(Inst::MinRI { rd, ra, imm, unsigned }) == Some(le32(w)),
        tc16_decode(w) == written_as(Inst::MinRI { rd, ra, imm, unsigned }),
{
    lemma_word_fields(0x8Bu32, if unsigned { 0x28u32 } else { 0x26u32 }, rd, ra, 0, imm);
    lemma_low_bits(rd);
    lemma_low_bits(ra);
    lemma_low_bits(imm);

    rc_word(0x8Bu32, if unsigned { 0x28u32 } else { 0x26u32 }, rd, ra, imm)
}

proof fn lemma_back_max_r_i(rd: u32, ra: u32, imm: u32, unsigned: bool) -> (w: u32)
    requires
        written_as(Inst::MaxRI { rd, ra, imm, unsigned }) is Some,
    ensures
        inst_bytes(Inst::MaxRI { rd, ra, imm, unsigned }) == Some(le32(w)),
        tc16_decode(w) == written_as(Inst::MaxRI { rd, ra, imm, unsigned }),
{
    lemma_word_fields(0x8Bu32, if unsigned { 0x29u32 } else { 0x27u32 }, rd, ra, 0, imm);
    lemma_low_bits(rd);
    lemma_low_bits(ra);
    lemma_low_bits(imm);

    rc_word(0x8Bu32, if unsigned { 0x29u32 } else { 0x27u32 }, rd, ra, imm)
}

proof fn lemma_back_mul_r_i(rd: u32, ra: u32, imm: u32, unsigned: bool) -> (w: u32)
    requires
        written_as(Inst::MulRI { rd, ra, imm, unsigned }) is Some,
    ensures
        inst_bytes(Inst::MulRI { rd, ra, imm, unsigned }) == Some(le32(w)),
        tc16_decode(w) == written_as(Inst::MulRI { rd, ra, imm, unsigned }),
{
    lemma_word_fields(0x8Bu32, if unsigned { 0x2Du32 } else { 0x2Cu32 }, rd, ra, 0, imm);
    lemma_low_bits(rd);
    lemma_low_bits(ra);
    lemma_low_bits(imm);

    rc_word(0x8Bu32, if unsigned { 0x2Du32 } else { 0x2Cu32 }, rd, ra, imm)
}

proof fn lemma_back_addc_r_i(rd: u32, ra: u32, imm: u32) -> (w: u32)
    requires
        written_as(Inst::AddcRI { rd, ra, imm }) is Some,
    ensures
        inst_bytes(Inst::AddcRI { rd, ra, imm }) == Some(le32(w)),
        tc16_decode(w) == written_as(Inst::AddcRI { rd, ra, imm }),
{
    lemma_word_fields(0x8Bu32, 0x05u32, rd, ra, 0, imm);
    lemma_low_bits(rd);
    lemma_low_bits(ra);
    lemma_low_bits(imm);

    rc_word(0x8Bu32, 0x05u32, rd, ra, imm)
}

proof fn lemma_back_addx_r_i(rd: u32, ra: u32, imm: u32) -> (w: u32)
    requires
        written_as(Inst::AddxRI { rd, ra, imm }) is Some,
    ensures
        inst_bytes(Inst::AddxRI { rd, ra, imm }) == Some(le32(w)),
        tc16_decode(w) == written_as(Inst::AddxRI { rd, ra, imm }),
{
    lemma_word_fields(0x8Bu32, 0x04u32, rd, ra, 0, imm);
    lemma_low_bits(rd);
    lemma_low_bits(ra);
    lemma_low_bits(imm);

    rc_word(0x8Bu32, 0x04u32, rd, ra, imm)
}

proof fn lemma_back_and_r_i(rd: u32, ra: u32, imm9: u32) -> (w: u32)
    requires
        written_as(Inst::AndRI { rd, ra, imm9 }) is Some,
    ensures
        inst_bytes(Inst::AndRI { rd, ra, imm9 }) == Some(le32(w)),
        tc16_decode(w) == written_as(Inst::AndRI { rd, ra, imm9 }),
{
    lemma_word_fields(0x8Fu32, 0x08u32, rd, ra, 0, imm9);
    lemma_low_bits(rd);
    lemma_low_bits(ra);
    lemma_low_bits(imm9);

    rc_word(0x8Fu32, 0x08u32, rd, ra, imm9)
}

proof fn lemma_back_or_r_i(rd: u32, ra: u32, imm9: u32) -> (w: u32)
    requires
        written_as(Inst::OrRI { rd, ra, imm9 }) is Some,
    ensures
        inst_bytes(Inst::OrRI { rd, ra, imm9 }) == Some(le32(w)),
        tc16_decode(w) == written_as(Inst::OrRI { rd, ra, imm9 }),
{
    lemma_word_fields(0x8Fu32, 0x0Au32, rd, ra, 0, imm9);
    lemma_low_bits(rd);
    lemma_low_bits(ra);
    lemma_low_bits(imm9);

    rc_word(0x8Fu32, 0x0Au32, rd, ra, imm9)
}

proof fn lemma_back_xor_r_i(rd: u32, ra: u32, imm9: u32) -> (w: u32)
    requires
        written_as(Inst::XorRI { rd, ra, imm9 }) is Some,
    ensures
        inst_bytes(Inst::XorRI { rd, ra, imm9 }) == Some(le32(w)),
        tc16_decode(w) == written_as(Inst::XorRI { rd, ra, imm9 }),
{
    lemma_word_fields(0x8Fu32, 0x0Cu32, rd, ra, 0, imm9);
    lemma_low_bits(rd);
    lemma_low_bits(ra);
    lemma_low_bits(imm9);

    rc_word(0x8Fu32, 0x0Cu32, rd, ra, imm9)
}

proof fn lemma_back_ld_w_off16(rd: u32, ab: u32, off16: u32) -> (w: u32)
    requires
        written_as(Inst::LdWOff16 { rd, ab, off16 }) is Some,
    ensures
        inst_bytes(Inst::LdWOff16 { rd, ab, off16 }) == Some(le32(w)),
        tc16_decode(w) == written_as(Inst::LdWOff16 { rd, ab, off16 }),
{
    lemma_bol_roundtrip(0x19u32, rd, ab, off16);
    lemma_low_bits(rd);
    lemma_low_bits(ab);
    lemma_low_bits(off16);

    bol_word(0x19u32, rd, ab, off16)
}

proof fn lemma_back_ld_h_off16(rd: u32, ab: u32, off16: u32) -> (w: u32)
    requires
        written_as(Inst::LdHOff16 { rd, ab, off16 }) is Some,
    ensures
        inst_bytes(Inst::LdHOff16 { rd, ab, off16 }) == Some(le32(w)),
        tc16_decode(w) == written_as(Inst::LdHOff16 { rd, ab, off16 }),
{
    lemma_bol_roundtrip(0xC9u32, rd, ab, off16);
    lemma_low_bits(rd);
    lemma_low_bits(ab);
    lemma_low_bits(off16);

    bol_word(0xC9u32, rd, ab, off16)
}

proof fn lemma_back_ld_hu_off16(rd: u32, ab: u32, off16: u32) -> (w: u32)
    requires
        written_as(Inst::LdHuOff16 { rd, ab, off16 }) is Some,
    ensures
        inst_bytes(Inst::LdHuOff16 { rd, ab, off16 }) == Some(le32(w)),
        tc16_decode(w) == written_as(Inst::LdHuOff16 { rd, ab, off16 }),
{
    lemma_bol_roundtrip(0xB9u32, rd, ab, off16);
    lemma_low_bits(rd);
    lemma_low_bits(ab);
    lemma_low_bits(off16);

    bol_word(0xB9u32, rd, ab, off16)
}

proof fn lemma_back_ld_b_off16(rd: u32, ab: u32, off16: u32) -> (w: u32)
    requires
        written_as(Inst::LdBOff16 { rd, ab, off16 }) is Some,
    ensures
        inst_bytes(Inst::LdBOff16 { rd, ab, off16 }) == Some(le32(w)),
        tc16_decode(w) == written_as(Inst::LdBOff16 { rd, ab, off16 }),
{
    lemma_bol_roundtrip(0x79u32, rd, ab, off16);
    lemma_low_bits(rd);
    lemma_low_bits(ab);
    lemma_low_bits(off16);

    bol_word(0x79u32, rd, ab, off16)
}

proof fn lemma_back_ld_bu_off16(rd: u32, ab: u32, off16: u32) -> (w: u32)
    requires
        written_as(Inst::LdBuOff16 { rd, ab, off16 }) is Some,
    ensures
        inst_bytes(Inst::LdBuOff16 { rd, ab, off16 }) == Some(le32(w)),
        tc16_decode(w) == written_as(Inst::LdBuOff16 { rd, ab, off16 }),
{
    lemma_bol_roundtrip(0x39u32, rd, ab, off16);
    lemma_low_bits(rd);
    lemma_low_bits(ab);
    lemma_low_bits(off16);

    bol_word(0x39u32, rd, ab, off16)
}

proof fn lemma_back_st_b_off16(ab: u32, rs: u32, off16: u32) -> (w: u32)
    requires
        written_as(Inst::StBOff16 { ab, rs, off16 }) is Some,
    ensures
        inst_bytes(Inst::StBOff16 { ab, rs, off16 }) == Some(le32(w)),
        tc16_decode(w) == written_as(Inst::StBOff16 { ab, rs, off16 }),
{
    lemma_bol_roundtrip(0xE9u32, rs, ab, off16);
    lemma_low_bits(rs);
    lemma_low_bits(ab);
    lemma_low_bits(off16);

    bol_word(0xE9u32, rs, ab, off16)
}

proof fn lemma_back_st_h_off16(ab: u32, rs: u32, off16: u32) -> (w: u32)
    requires
        written_as(Inst::StHOff16 { ab, rs, off16 }) is Some,
    ensures
        inst_bytes(Inst::StHOff16 { ab, rs, off16 }) == Some(le32(w)),
        tc16_decode(w) == written_as(Inst::StHOff16 { ab, rs, off16 }),
{
    lemma_bol_roundtrip(0xF9u32, rs, ab, off16);
    lemma_low_bits(rs);
    lemma_low_bits(ab);
    lemma_low_bits(off16);

    bol_word(0xF9u32, rs, ab, off16)
}

proof fn lemma_back_st_w_off16(ab: u32, rs: u32, off16: u32) -> (w: u32)
    requires
        written_as(Inst::StWOff16 { ab, rs, off16 }) is Some,
    ensures
        inst_bytes(Inst::StWOff16 { ab, rs, off16 }) == Some(le32(w)),
        tc16_decode(w) == written_as(Inst::StWOff16 { ab, rs, off16 }),
{
    lemma_bol_roundtrip(0x59u32, rs, ab, off16);
    lemma_low_bits(rs);
    lemma_low_bits(ab);
    lemma_low_bits(off16);

    bol_word(0x59u32, rs, ab, off16)
}

proof fn lemma_back_ld_b_abs(rd: u32, ea: u32) -> (w: u32)
    requires
        written_as(Inst::LdBAbs { rd, ea }) is Some,
    ensures
        inst_bytes(Inst::LdBAbs { rd, ea }) == Some(le32(w)),
        tc16_decode(w) == written_as(Inst::LdBAbs { rd, ea }),
{
    lemma_abs_roundtrip(0x05u32, 0u32, rd, ea);
    lemma_low_bits(rd);
    lemma_low_bits(ea);

    abs_word(0x05u32, 0u32, rd, ea)
}

proof fn lemma_back_ld_bu_abs(rd: u32, ea: u32) -> (w: u32)
    requires
        written_as(Inst::LdBuAbs { rd, ea }) is Some,
    ensures
        inst_bytes(Inst::LdBuAbs { rd, ea }) == Some(le32(w)),
        tc16_decode(w) == written_as(Inst::LdBuAbs { rd, ea }),
{
    lemma_abs_roundtrip(0x05u32, 1u32, rd, ea);
    lemma_low_bits(rd);
    lemma_low_bits(ea);

    abs_word(0x05u32, 1u32, rd, ea)
}

proof fn lemma_back_ld_h_abs(rd: u32, ea: u32) -> (w: u32)
    requires
        written_as(Inst::LdHAbs { rd, ea }) is Some,
    ensures
        inst_bytes(Inst::LdHAbs { rd, ea }) == Some(le32(w)),
        tc16_decode(w) == written_as(Inst::LdHAbs { rd, ea }),
{
    lemma_abs_roundtrip(0x05u32, 2u32, rd, ea);
    lemma_low_bits(rd);
    lemma_low_bits(ea);

    abs_word(0x05u32, 2u32, rd, ea)
}

proof fn lemma_back_ld_hu_abs(rd: u32, ea: u32) -> (w: u32)
    requires
        written_as(Inst::LdHuAbs { rd, ea }) is Some,
    ensures
        inst_bytes(Inst::LdHuAbs { rd, ea }) == Some(le32(w)),
        tc16_decode(w) == written_as(Inst::LdHuAbs { rd, ea }),
{
    lemma_abs_roundtrip(0x05u32, 3u32, rd, ea);
    lemma_low_bits(rd);
    lemma_low_bits(ea);

    abs_word(0x05u32, 3u32, rd, ea)
}

proof fn lemma_back_ld_w_abs(rd: u32, ea: u32) -> (w: u32)
    requires
        written_as(Inst::LdWAbs { rd, ea }) is Some,
    ensures
        inst_bytes(Inst::LdWAbs { rd, ea }) == Some(le32(w)),
        tc16_decode(w) == written_as(Inst::LdWAbs { rd, ea }),
{
    lemma_abs_roundtrip(0x85u32, 0u32, rd, ea);
    lemma_low_bits(rd);
    lemma_low_bits(ea);

    abs_word(0x85u32, 0u32, rd, ea)
}

proof fn lemma_back_st_b_abs(rs: u32, ea: u32) -> (w: u32)
    requires
        written_as(Inst::StBAbs { rs, ea }) is Some,
    ensures
        inst_bytes(Inst::StBAbs { rs, ea }) == Some(le32(w)),
        tc16_decode(w) == written_as(Inst::StBAbs { rs, ea }),
{
    lemma_abs_roundtrip(0x25u32, 0u32, rs, ea);
    lemma_low_bits(rs);
    lemma_low_bits(ea);

    abs_word(0x25u32, 0u32, rs, ea)
}

proof fn lemma_back_st_w_abs(rs: u32, ea: u32) -> (w: u32)
    requires
        written_as(Inst::StWAbs { rs, ea }) is Some,
    ensures
        inst_bytes(Inst::StWAbs { rs, ea }) == Some(le32(w)),
        tc16_decode(w) == written_as(Inst::StWAbs { rs, ea }),
{
    lemma_abs_roundtrip(0xA5u32, 0u32, rs, ea);
    lemma_low_bits(rs);
    lemma_low_bits(ea);

    abs_word(0xA5u32, 0u32, rs, ea)
}

proof fn lemma_back_mov_u(d: u32, imm16: u32) -> (w: u32)
    requires
        written_as(Inst::MovU { d, imm16 }) is Some,
    ensures
        inst_bytes(Inst::MovU { d, imm16 }) == Some(le32(w)),
        tc16_decode(w) == written_as(Inst::MovU { d, imm16 }),
{
    lemma_moves_roundtrip(d, 0, imm16, 0);
    lemma_low_bits(d);
    lemma_low_bits(imm16);

    ((d & 0xF) << 28u32) | ((imm16 & 0xFFFF) << 12u32) | 0xBB
}

proof fn lemma_back_mov_h_aa(rd: u32, imm16: u32) -> (w: u32)
    requires
        written_as(Inst::MovHAa { rd, imm16 }) is Some,
    ensures
        inst_bytes(Inst::MovHAa { rd, imm16 }) == Some(le32(w)),
        tc16_decode(w) == written_as(Inst::MovHAa { rd, imm16 }),
{
    lemma_moves_roundtrip(rd, 0, imm16, 0);
    lemma_low_bits(rd);
    lemma_low_bits(imm16);

    ((rd & 0xF) << 28u32) | ((imm16 & 0xFFFF) << 12u32) | 0x91
}

proof fn lemma_back_addih_a(rd: u32, ra: u32, imm16: u32) -> (w: u32)
    requires
        written_as(Inst::AddihA { rd, ra, imm16 }) is Some,
    ensures
        inst_bytes(Inst::AddihA { rd, ra, imm16 }) == Some(le32(w)),
        tc16_decode(w) == written_as(Inst::AddihA { rd, ra, imm16 }),
{
    lemma_moves_roundtrip(rd, ra, imm16, 0);
    lemma_low_bits(rd);
    lemma_low_bits(ra);
    lemma_low_bits(imm16);

    ((rd & 0xF) << 28u32) | ((imm16 & 0xFFFF) << 12u32) | ((ra & 0xF) << 8u32) | 0x11
}

proof fn lemma_back_lea_abs(rd: u32, ea: u32) -> (w: u32)
    requires
        written_as(Inst::LeaAbs { rd, ea }) is Some,
    ensures
        inst_bytes(Inst::LeaAbs { rd, ea }) == Some(le32(w)),
        tc16_decode(w) == written_as(Inst::LeaAbs { rd, ea }),
{
    lemma_lea_abs_roundtrip(rd, ea);
    lemma_low_bits(rd);

    abs_word(0xC5, (ea >> 6u32) & 0xF, rd, ea)
}

proof fn lemma_back_lea_ab(rd: u32, rb: u32, off: i32) -> (w: u32)
    requires
        written_as(Inst::LeaAb { rd, rb, off }) is Some,
    ensures
        inst_bytes(Inst::LeaAb { rd, rb, off }) == Some(le32(w)),
        tc16_decode(w) == written_as(Inst::LeaAb { rd, rb, off }),
{
    lemma_lea_bo_roundtrip(rd, rb, off);
    lemma_low_bits(rd);
    lemma_low_bits(rb);
    bo_word(0x49, 0x28, rd, rb, low10(off))
}

proof fn lemma_back_call_a(ea: u32) -> (w: u32)
    requires
        written_as(Inst::CallA { ea }) is Some,
    ensures
        inst_bytes(Inst::CallA { ea }) == Some(le32(w)),
        tc16_decode(w) == written_as(Inst::CallA { ea }),
{
    let w = calla_word(ea);
    let d = (((ea >> 28u32) & 0xF) << 20u32) | ((ea >> 1u32) & 0xFFFFF);
    let d24 = disp24(w);
    assert(w == ((d & 0xFFFF) << 16u32) | (((d >> 16u32) & 0xFF) << 8u32) | 0xED);
    assert(w & 1 == 1 && w & 0xFF == 0xED && (((d24 >> 20u32) & 0xF) << 28u32) | ((d24 & 0xFFFFF) << 1u32)
        == ea & 0xF01F_FFFE) by (bit_vector)
        requires
            d == (((ea >> 28u32) & 0xF) << 20u32) | ((ea >> 1u32) & 0xFFFFF),
            w == ((d & 0xFFFF) << 16u32) | (((d >> 16u32) & 0xFF) << 8u32) | 0xED,
            d24 == (((w >> 8u32) & 0xFF) << 16u32) | ((w >> 16u32) & 0xFFFF),
    ;
    w
}

proof fn lemma_back_call_i(a: u32) -> (w: u32)
    requires
        written_as(Inst::CallI { a }) is Some,
    ensures
        inst_bytes(Inst::CallI { a }) == Some(le32(w)),
        tc16_decode(w) == written_as(Inst::CallI { a }),
{
    let w = ((a & 0xF) << 8u32) | 0x2D;
    assert(w & 1 == 1 && w & 0xFF == 0x2D && nib(w, 8) == a as u8) by (bit_vector)
        requires
            w == ((a & 0xF) << 8u32) | 0x2D,
            a < 16,
    ;
    w
}

/// What the assembler writes, the decoder reads back as written: for every
/// instruction of the table `written_as` whose operands fit, the assembler
/// writes one little-endian word, and that word decodes to the operation and
/// operands written (for instance MAX D[c], D[a], D[b] to `Max` with those
/// three registers, never to `Min`).
pub proof fn lemma_written_decodes_back(i: Inst)
    requires
        written_as(i) is Some,
    ensures
        exists|w: u32| inst_bytes(i) == Some(#[trigger] le32(w)) && tc16_decode(w) == written_as(i),
{
    match i {
        Inst::AddRR { rd, ra, rb } => {
            let w = lemma_back_add_r_r(rd, ra, rb);
            assert(inst_bytes(i) == Some(le32(w)));
        },
        Inst::SubRR { rd, ra, rb } => {
            let w = lemma_back_sub_r_r(rd, ra, rb);
            assert(inst_bytes(i) == Some(le32(w)));
        },
        Inst::AddcRR { rd, ra, rb } => {
            let w = lemma_back_addc_r_r(rd, ra, rb);
            assert(inst_bytes(i) == Some(le32(w)));
        },
        Inst::AddxRR { rd, ra, rb } => {
            let w = lemma_back_addx_r_r(rd, ra, rb);
            assert(inst_bytes(i) == Some(le32(w)));
        },
        Inst::AndnRR { rd, ra, rb } => {
            let w = lemma_back_andn_r_r(rd, ra, rb);
            assert(inst_bytes(i) == Some(le32(w)));
        },
        Inst::ShRR { rd, ra, rb, kind } => {
            let w = lemma_back_sh_r_r(rd, ra, rb, kind);
            assert(inst_bytes(i) == Some(le32(w)));
        },
        Inst::MinRR { rd, ra, rb, unsigned } => {
            let w = lemma_back_min_r_r(rd, ra, rb, unsigned);
            assert(inst_bytes(i) == Some(le32(w)));
        },
        Inst::MaxRR { rd, ra, rb, unsigned } => {
            let w = lemma_back_max_r_r(rd, ra, rb, unsigned);
            assert(inst_bytes(i) == Some(le32(w)));
        },
        Inst::MulRR { rd, ra, rb, unsigned } => {
            let w = lemma_back_mul_r_r(rd, ra, rb, unsigned);
            assert(inst_bytes(i) == Some(le32(w)));
        },
        Inst::DivRR { rd, ra, rb, unsigned } => {
            let w = lemma_back_div_r_r(rd, ra, rb, unsigned);
            assert(inst_bytes(i) == Some(le32(w)));
        },
        Inst::NotR { rd, ra } => {
            let w = lemma_back_not_r(rd, ra);
            assert(inst_bytes(i) == Some(le32(w)));
        },
        Inst::MovRR { rd, rb } => {
            let w = lemma_back_mov_r_r(rd, rb);
            assert(inst_bytes(i) == Some(le32(w)));
        },
        Inst::CmpRR { a, b, unsigned } => {
            let w = lemma_back_cmp_r_r(a, b, unsigned);
            assert(inst_bytes(i) == Some(le32(w)));
        },
        Inst::CmpRI { a, imm, unsigned } => {
            let w = lemma_back_cmp_r_i(a, imm, unsigned);
            assert(inst_bytes(i) == Some(le32(w)));
        },
        Inst::ShRI { rd, ra, imm, kind } => {
            let w = lemma_back_sh_r_i(rd, ra, imm, kind);
            assert(inst_bytes(i) == Some(le32(w)));
        },
        Inst::AndnRI { rd, ra, imm } => {
            let w = lemma_back_andn_r_i(rd, ra, imm);
            assert(inst_bytes(i) == Some(le32(w)));
        },
        Inst::MinRI { rd, ra, imm, unsigned } => {
            let w = lemma_back_min_r_i(rd, ra, imm, unsigned);
            assert(inst_bytes(i) == Some(le32(w)));
        },
        Inst::MaxRI { rd, ra, imm, unsigned } => {
            let w = lemma_back_max_r_i(rd, ra, imm, unsigned);
            assert(inst_bytes(i) == Some(le32(w)));
        },
        Inst::MulRI { rd, ra, imm, unsigned } => {
            let w = lemma_back_mul_r_i(rd, ra, imm, unsigned);
            assert(inst_bytes(i) == Some(le32(w)));
        },
        Inst::AddcRI { rd, ra, imm } => {
            let w = lemma_back_addc_r_i(rd, ra, imm);
            assert(inst_bytes(i) == Some(le32(w)));
        },
        Inst::AddxRI { rd, ra, imm } => {
            let w = lemma_back_addx_r_i(rd, ra, imm);
            assert(inst_bytes(i) == Some(le32(w)));
        },
        Inst::AndRI { rd, ra, imm9 } => {
            let w = lemma_back_and_r_i(rd, ra, imm9);
            assert(inst_bytes(i) == Some(le32(w)));
        },
        Inst::OrRI { rd, ra, imm9 } => {
            let w = lemma_back_or_r_i(rd, ra, imm9);
            assert(inst_bytes(i) == Some(le32(w)));
        },
        Inst::XorRI { rd, ra, imm9 } => {
            let w = lemma_back_xor_r_i(rd, ra, imm9);
            assert(inst_bytes(i) == Some(le32(w)));
        },
        Inst::LdWOff16 { rd, ab, off16 } => {
            let w = lemma_back_ld_w_off16(rd, ab, off16);
            assert(inst_bytes(i) == Some(le32(w)));
        },
        Inst::LdHOff16 { rd, ab, off16 } => {
            let w = lemma_back_ld_h_off16(rd, ab, off16);
            assert(inst_bytes(i) == Some(le32(w)));
        },
        Inst::LdHuOff16 { rd, ab, off16 } => {
            let w = lemma_back_ld_hu_off16(rd, ab, off16);
            assert(inst_bytes(i) == Some(le32(w)));
        },
        Inst::LdBOff16 { rd, ab, off16 } => {
            let w = lemma_back_ld_b_off16(rd, ab, off16);
            assert(inst_bytes(i) == Some(le32(w)));
        },
        Inst::LdBuOff16 { rd, ab, off16 } => {
            let w = lemma_back_ld_bu_off16(rd, ab, off16);
            assert(inst_bytes(i) == Some(le32(w)));
        },
        Inst::StBOff16 { ab, rs, off16 } => {
            let w = lemma_back_st_b_off16(ab, rs, off16);
            assert(inst_bytes(i) == Some(le32(w)));
        },
        Inst::StHOff16 { ab, rs, off16 } => {
            let w = lemma_back_st_h_off16(ab, rs, off16);
            assert(inst_bytes(i) == Some(le32(w)));
        },
        Inst::StWOff16 { ab, rs, off16 } => {
            let w = lemma_back_st_w_off16(ab, rs, off16);
            assert(inst_bytes(i) == Some(le32(w)));
        },
        Inst::LdBAbs { rd, ea } => {
            let w = lemma_back_ld_b_abs(rd, ea);
            assert(inst_bytes(i) == Some(le32(w)));
        },
        Inst::LdBuAbs { rd, ea } => {
            let w = lemma_back_ld_bu_abs(rd, ea);
            assert(inst_bytes(i) == Some(le32(w)));
        },
        Inst::LdHAbs { rd, ea } => {
            let w = lemma_back_ld_h_abs(rd, ea);
            assert(inst_bytes(i) == Some(le32(w)));
        },
        Inst::LdHuAbs { rd, ea } => {
            let w = lemma_back_ld_hu_abs(rd, ea);
            assert(inst_bytes(i) == Some(le32(w)));
        },
        Inst::LdWAbs { rd, ea } => {
            let w = lemma_back_ld_w_abs(rd, ea);
            assert(inst_bytes(i) == Some(le32(w)));
        },
        Inst::StBAbs { rs, ea } => {
            let w = lemma_back_st_b_abs(rs, ea);
            assert(inst_bytes(i) == Some(le32(w)));
        },
        Inst::StWAbs { rs, ea } => {
            let w = lemma_back_st_w_abs(rs, ea);
            assert(inst_bytes(i) == Some(le32(w)));
        },
        Inst::MovU { d, imm16 } => {
            let w = lemma_back_mov_u(d, imm16);
            assert(inst_bytes(i) == Some(le32(w)));
        },
        Inst::MovHAa { rd, imm16 } => {
            let w = lemma_back_mov_h_aa(rd, imm16);
            assert(inst_bytes(i) == Some(le32(w)));
        },
        Inst::AddihA { rd, ra, imm16 } => {
            let w = lemma_back_addih_a(rd, ra, imm16);
            assert(inst_bytes(i) == Some(le32(w)));
        },
        Inst::LeaAbs { rd, ea } => {
            let w = lemma_back_lea_abs(rd, ea);
            assert(inst_bytes(i) == Some(le32(w)));
        },
        Inst::LeaAb { rd, rb, off } => {
            let w = lemma_back_lea_ab(rd, rb, off);
            assert(inst_bytes(i) == Some(le32(w)));
        },
        Inst::CallA { ea } => {
            let w = lemma_back_call_a(ea);
            assert(inst_bytes(i) == Some(le32(w)));
        },
        Inst::CallI { a } => {
            let w = lemma_back_call_i(a);
            assert(inst_bytes(i) == Some(le32(w)));
        },
        _ => {},
    }
}

} // verus!
