//! TriCore TC1.6.2 decoder (a representative subset of the official encodings).
use vstd::prelude::*;
use crate::bits::{field, nib, sext, field_of, nib_of, sign_ext};
use crate::decoder::{Decoded, Decoder, Op};

verus! {

pub struct Tc16Decoder;

impl Tc16Decoder {
    pub fn new() -> (r: Self) {
        Tc16Decoder
    }
}

// ----------------------------------------------------------------------------
// Specification: the encoding table.
// ----------------------------------------------------------------------------

pub open spec fn mk(
    op: Op,
    width: u8,
    rd: u8,
    rs1: u8,
    rs2: u8,
    imm: u32,
    imm2: u32,
    abs: bool,
    wb: bool,
    pre: bool,
) -> Decoded {
    Decoded { op, width, rd, rs1, rs2, imm, imm2, abs, wb, pre }
}

/// A plain 32-bit instruction: no second immediate, no addressing flags.
pub open spec fn mk4(op: Op, rd: u8, rs1: u8, rs2: u8, imm: u32) -> Decoded {
    mk(op, 4, rd, rs1, rs2, imm, 0, false, false, false)
}

/// A plain 16-bit instruction.
pub open spec fn mk2(op: Op, rd: u8, rs1: u8, rs2: u8, imm: u32, imm2: u32) -> Decoded {
    mk(op, 2, rd, rs1, rs2, imm, imm2, false, false, false)
}

/// BO format: off10 = {raw[31:28], raw[21:16]}.
pub open spec fn off10(raw: u32) -> u32 {
    (field(raw, 28, 0xF) << 6u32) | field(raw, 16, 0x3F)
}

/// BOL format: off16 = {raw[27:22], raw[31:28], raw[21:16]}.
pub open spec fn off16(raw: u32) -> u32 {
    (field(raw, 22, 0x3F) << 10u32) | (field(raw, 28, 0xF) << 6u32) | field(raw, 16, 0x3F)
}

/// ABS format: off18 = {raw[15:12], raw[25:22], raw[31:28], raw[21:16]}.
pub open spec fn off18(raw: u32) -> u32 {
    (field(raw, 12, 0xF) << 14u32) | (field(raw, 22, 0xF) << 10u32) | (field(raw, 28, 0xF) << 6u32)
        | field(raw, 16, 0x3F)
}

/// Absolute effective address of an off18: {off18[17:14], 14'b0, off18[13:0]}.
pub open spec fn abs_ea(off: u32) -> u32 {
    (((off >> 14u32) & 0xF) << 28u32) | (off & 0x3FFF)
}

/// B format: disp24 = {raw[15:8], raw[31:16]}.
pub open spec fn disp24(raw: u32) -> u32 {
    (field(raw, 8, 0xFF) << 16u32) | field(raw, 16, 0xFFFF)
}

/// Byte offset of a BRR/BRC branch: sign-extended disp15, times two.
pub open spec fn br15(raw: u32) -> u32 {
    sext(field(raw, 15, 0x7FFF), 15) << 1u32
}

/// Offset of a 16-bit SBC/SBR branch: disp4 (plus 16 for the second opcode), times two.
pub open spec fn sb_disp(raw: u32, far: bool) -> u32 {
    ((field(raw, 8, 0xF) + if far { 16u32 } else { 0u32 }) as u32) << 1u32
}

pub open spec fn spec_decode16(raw: u32) -> Option<Decoded> {
    let op1 = raw & 0xFF;
    let a = nib(raw, 8);
    let b = nib(raw, 12);
    let c4 = sext(field(raw, 12, 0xF), 4);
    if op1 == 0x5C {
        Some(mk2(Op::Call, 0, 0, 0, sext(field(raw, 8, 0xFF), 8) << 1u32, 0))
    } else if op1 == 0x3C {
        Some(mk2(Op::J, 0, 0, 0, sext(field(raw, 8, 0xFF), 8) << 1u32, 0))
    } else if op1 == 0x42 {
        Some(mk2(Op::Add, a, a, b, 0, 0))
    } else if op1 == 0xC2 {
        Some(mk2(Op::Add, a, a, 0, c4, 0))
    } else if op1 == 0x82 {
        Some(mk2(Op::MovI, a, 0, 0, c4, 0))
    } else if op1 == 0x26 {
        Some(mk2(Op::And, a, a, b, 0, 0))
    } else if op1 == 0xA6 {
        Some(mk2(Op::Or, a, a, b, 0, 0))
    } else if op1 == 0xC6 {
        Some(mk2(Op::Xor, a, a, b, 0, 0))
    } else if op1 == 0x1E || op1 == 0x9E {
        Some(mk2(Op::JeqImm, 0, 15, 0, sb_disp(raw, op1 == 0x9E), c4))
    } else if op1 == 0x5E || op1 == 0xDE {
        Some(mk2(Op::JneImm, 0, 15, 0, sb_disp(raw, op1 == 0xDE), c4))
    } else if op1 == 0x3E || op1 == 0xBE {
        Some(mk2(Op::Jeq, 0, 15, b, sb_disp(raw, op1 == 0xBE), 0))
    } else if op1 == 0x7E || op1 == 0xFE {
        Some(mk2(Op::Jne, 0, 15, b, sb_disp(raw, op1 == 0xFE), 0))
    } else if op1 == 0xBC {
        Some(mk2(Op::JzA, 0, b, 0, field(raw, 8, 0xF) << 1u32, 0))
    } else if op1 == 0x7C {
        Some(mk2(Op::JnzA, 0, b, 0, field(raw, 8, 0xF) << 1u32, 0))
    } else {
        None
    }
}

/// RR operations with the usual D[c] = D[a] op D[b] operand layout.
pub open spec fn rr_op(op2: u32) -> Option<Op> {
    if op2 == 0x00 { Some(Op::Add) }
    else if op2 == 0x08 { Some(Op::Sub) }
    else if op2 == 0x04 { Some(Op::Addx) }
    else if op2 == 0x05 { Some(Op::Addc) }
    else if op2 == 0x20 { Some(Op::Shl) }
    else if op2 == 0x21 { Some(Op::Shr) }
    else if op2 == 0x22 { Some(Op::Sar) }
    else if op2 == 0x23 { Some(Op::Ror) }
    else if op2 == 0x24 { Some(Op::Andn) }
    else if op2 == 0x26 { Some(Op::Min) }
    else if op2 == 0x27 { Some(Op::Max) }
    else if op2 == 0x28 { Some(Op::MinU) }
    else if op2 == 0x29 { Some(Op::MaxU) }
    else if op2 == 0x2C { Some(Op::Mul) }
    else if op2 == 0x2D { Some(Op::MulU) }
    else if op2 == 0x2E { Some(Op::Div) }
    else if op2 == 0x2F { Some(Op::DivU) }
    else { None }
}

/// op1 = 0x0B: register-register ALU forms selected by op2 = raw[27:20].
pub open spec fn spec_decode_rr(raw: u32) -> Option<Decoded> {
    let op2 = field(raw, 20, 0xFF);
    let c = nib(raw, 28);
    let b = nib(raw, 16);
    let a = nib(raw, 8);
    if op2 == 0x1F {
        Some(mk4(Op::Mov, c, b, 0, 0))
    } else if op2 == 0x18 {
        Some(mk4(Op::Cmp, 0, a, b, 0))
    } else if op2 == 0x19 {
        Some(mk4(Op::CmpU, 0, a, b, 0))
    } else if op2 == 0x25 {
        Some(mk4(Op::Not, c, a, 0, 0))
    } else {
        match rr_op(op2) {
            Some(op) => Some(mk4(op, c, a, b, 0)),
            None => None,
        }
    }
}

/// RC operations with D[c] = D[a] op const9: the operation and its immediate
/// (sign-extended, zero-extended or a 5-bit shift count).
pub open spec fn rc_op(op2: u32, k9: u32) -> Option<(Op, u32)> {
    let s9 = sext(k9, 9);
    if op2 == 0x00 { Some((Op::Add, s9)) }
    else if op2 == 0x04 { Some((Op::Addx, s9)) }
    else if op2 == 0x05 { Some((Op::Addc, s9)) }
    else if op2 == 0x08 { Some((Op::Sub, s9)) }
    else if op2 == 0x20 { Some((Op::Shl, k9 & 31)) }
    else if op2 == 0x21 { Some((Op::Shr, k9 & 31)) }
    else if op2 == 0x22 { Some((Op::Sar, k9 & 31)) }
    else if op2 == 0x23 { Some((Op::Ror, k9 & 31)) }
    else if op2 == 0x24 { Some((Op::Andn, k9)) }
    else if op2 == 0x26 { Some((Op::Min, s9)) }
    else if op2 == 0x27 { Some((Op::Max, s9)) }
    else if op2 == 0x28 { Some((Op::MinU, k9)) }
    else if op2 == 0x29 { Some((Op::MaxU, k9)) }
    else if op2 == 0x2C { Some((Op::Mul, s9)) }
    else if op2 == 0x2D { Some((Op::MulU, k9)) }
    else { None }
}

/// op1 = 0x8B: register-constant forms selected by op2 = raw[27:21].
pub open spec fn spec_decode_rc(raw: u32) -> Option<Decoded> {
    let op2 = field(raw, 21, 0x7F);
    let c = nib(raw, 28);
    let a = nib(raw, 8);
    let k9 = field(raw, 12, 0x1FF);
    if op2 == 0x18 {
        Some(mk4(Op::CmpI, 0, a, 0, sext(k9, 9)))
    } else if op2 == 0x19 {
        Some(mk4(Op::CmpUI, 0, a, 0, k9))
    } else {
        match rc_op(op2, k9) {
            Some((op, imm)) => Some(mk4(op, c, a, 0, imm)),
            None => None,
        }
    }
}

/// Load operation for a BO size selector (op2[3:0]).
pub open spec fn ld_size_op(k: u32) -> Option<Op> {
    if k == 0 { Some(Op::LdB) }
    else if k == 1 { Some(Op::LdBu) }
    else if k == 2 { Some(Op::LdH) }
    else if k == 3 { Some(Op::LdHu) }
    else if k == 4 { Some(Op::LdW) }
    else { None }
}

/// Store operation for a BO size selector (op2[3:0]).
pub open spec fn st_size_op(k: u32) -> Option<Op> {
    if k == 0 { Some(Op::StB) }
    else if k == 2 { Some(Op::StH) }
    else if k == 4 { Some(Op::StW) }
    else { None }
}

/// BO addressing mode for op2[5:4]: 0 post-increment, 1 pre-increment,
/// 2 base + offset; as (write-back, pre-increment).
pub open spec fn bo_mode(op2: u32) -> Option<(bool, bool)> {
    let m = op2 >> 4u32;
    if m == 0 { Some((true, false)) }
    else if m == 1 { Some((true, true)) }
    else if m == 2 { Some((false, false)) }
    else { None }
}

/// op1 = 0x09 (loads) and 0x89 (stores) in BO format.
pub open spec fn spec_decode_bo(raw: u32, store: bool) -> Option<Decoded> {
    let op2 = field(raw, 22, 0x3F);
    let b = nib(raw, 12);
    let a = nib(raw, 8);
    let imm = sext(off10(raw), 10);
    let sz = if store { st_size_op(op2 & 0xF) } else { ld_size_op(op2 & 0xF) };
    match (sz, bo_mode(op2)) {
        (Some(op), Some((wb, pre))) =>
            if store {
                Some(mk(op, 4, 0, b, a, imm, 0, false, wb, pre))
            } else {
                Some(mk(op, 4, a, b, 0, imm, 0, false, wb, pre))
            },
        _ => None,
    }
}

/// Bit-reverse (op2 = 0x00..0x04) and circular (op2 = 0x10..0x14) P[b] loads.
pub open spec fn pb_load_op(op2: u32) -> Option<Op> {
    if op2 == 0x00 { Some(Op::LdBPbr) }
    else if op2 == 0x01 { Some(Op::LdBUPbr) }
    else if op2 == 0x02 { Some(Op::LdHPbr) }
    else if op2 == 0x03 { Some(Op::LdHUPbr) }
    else if op2 == 0x04 { Some(Op::LdWPbr) }
    else if op2 == 0x10 { Some(Op::LdBPcir) }
    else if op2 == 0x11 { Some(Op::LdBUPcir) }
    else if op2 == 0x12 { Some(Op::LdHPcir) }
    else if op2 == 0x13 { Some(Op::LdHUPcir) }
    else if op2 == 0x14 { Some(Op::LdWPcir) }
    else { None }
}

/// Bit-reverse and circular P[b] stores.
pub open spec fn pb_store_op(op2: u32) -> Option<Op> {
    if op2 == 0x00 { Some(Op::StBPbr) }
    else if op2 == 0x02 { Some(Op::StHPbr) }
    else if op2 == 0x04 { Some(Op::StWPbr) }
    else if op2 == 0x10 { Some(Op::StBPcir) }
    else if op2 == 0x12 { Some(Op::StHPcir) }
    else if op2 == 0x14 { Some(Op::StWPcir) }
    else { None }
}

/// op1 = 0x29 (loads) and 0xA9 (stores) with P[b] addressing; only the
/// circular forms (op2 >= 0x10) carry an offset.
pub open spec fn spec_decode_pb(raw: u32, store: bool) -> Option<Decoded> {
    let op2 = field(raw, 22, 0x3F);
    let b = nib(raw, 12);
    let a = nib(raw, 8);
    let imm = if op2 >= 0x10 { sext(off10(raw), 10) } else { 0u32 };
    match if store { pb_store_op(op2) } else { pb_load_op(op2) } {
        Some(op) =>
            if store {
                Some(mk4(op, 0, b, a, imm))
            } else {
                Some(mk4(op, a, b, 0, imm))
            },
        None => None,
    }
}

/// ABS-format loads (0x05, 0x85), stores (0x25, 0xA5) and LEA (0xC5). The
/// byte and halfword loads (0x05) select their operation with raw[31:28], so
/// for them those bits are no part of the address: off18[9:6] reads as zero.
/// The other forms take raw[31:28] as off18[9:6], the store of 0x25 after
/// using it as its selector too.
pub open spec fn spec_decode_abs(raw: u32, op1: u32) -> Option<Decoded> {
    let sel = field(raw, 28, 0xF);
    let a = nib(raw, 8);
    let ea = if op1 == 0x05 {
        abs_ea(off18(raw) & 0x3FC3F)
    } else {
        abs_ea(off18(raw))
    };
    let op: Option<Op> =
        if op1 == 0x05 {
            if sel == 0 { Some(Op::LdB) } else if sel == 1 { Some(Op::LdBu) }
            else if sel == 2 { Some(Op::LdH) } else if sel == 3 { Some(Op::LdHu) } else { None }
        } else if op1 == 0x85 {
            if sel == 0 { Some(Op::LdW) } else { None }
        } else if op1 == 0x25 {
            if sel == 0 { Some(Op::StB) } else if sel == 2 { Some(Op::StH) } else { None }
        } else if op1 == 0xA5 {
            if sel == 0 { Some(Op::StW) } else { None }
        } else {
            Some(Op::Lea)
        };
    match op {
        Some(o) =>
            if op1 == 0x25 || op1 == 0xA5 {
                Some(mk(o, 4, 0, 0, a, ea, 0, true, false, false))
            } else {
                Some(mk(o, 4, a, 0, 0, ea, 0, true, false, false))
            },
        None => None,
    }
}

/// BOL-format loads, stores and LEA with a 16-bit signed offset.
pub open spec fn spec_decode_bol(raw: u32, op1: u32) -> Option<Decoded> {
    let b = nib(raw, 12);
    let a = nib(raw, 8);
    let imm = sext(off16(raw), 16);
    if op1 == 0x19 { Some(mk4(Op::LdW, a, b, 0, imm)) }
    else if op1 == 0xC9 { Some(mk4(Op::LdH, a, b, 0, imm)) }
    else if op1 == 0xB9 { Some(mk4(Op::LdHu, a, b, 0, imm)) }
    else if op1 == 0x79 { Some(mk4(Op::LdB, a, b, 0, imm)) }
    else if op1 == 0x39 { Some(mk4(Op::LdBu, a, b, 0, imm)) }
    else if op1 == 0xE9 { Some(mk4(Op::StB, 0, b, a, imm)) }
    else if op1 == 0xF9 { Some(mk4(Op::StH, 0, b, a, imm)) }
    else if op1 == 0x59 { Some(mk4(Op::StW, 0, b, a, imm)) }
    else if op1 == 0xD9 { Some(mk4(Op::Lea, a, b, 0, imm)) }
    else { None }
}

/// Conditional branches in BRR/BRC format; cond = raw[31:30].
pub open spec fn spec_decode_branch(raw: u32, op1: u32) -> Option<Decoded> {
    let cond = field(raw, 30, 0x3);
    let a = nib(raw, 8);
    let b = nib(raw, 12);
    let k4 = field(raw, 12, 0xF);
    let off = br15(raw);
    if op1 == 0x5F {
        if cond == 0 { Some(mk4(Op::Jeq, 0, a, b, off)) }
        else if cond == 1 { Some(mk4(Op::Jne, 0, a, b, off)) }
        else { None }
    } else if op1 == 0x7D {
        if cond == 0 { Some(mk4(Op::JeqA, 0, a, b, off)) }
        else if cond == 1 { Some(mk4(Op::JneA, 0, a, b, off)) }
        else { None }
    } else if op1 == 0xBD {
        if cond == 0 { Some(mk4(Op::JzA, 0, a, 0, off)) }
        else if cond == 1 { Some(mk4(Op::JnzA, 0, a, 0, off)) }
        else { None }
    } else if op1 == 0xDF {
        if cond == 0 { Some(mk(Op::JeqImm, 4, 0, a, 0, off, sext(k4, 4), false, false, false)) }
        else if cond == 1 { Some(mk(Op::JneImm, 4, 0, a, 0, off, sext(k4, 4), false, false, false)) }
        else { None }
    } else if op1 == 0x7F {
        Some(mk4(if cond == 1 { Op::JgeU } else { Op::Jge }, 0, a, b, off))
    } else if op1 == 0x3F {
        Some(mk4(if cond == 1 { Op::JltU } else { Op::Jlt }, 0, a, b, off))
    } else if op1 == 0xFF {
        if cond == 1 { Some(mk(Op::JgeUImm, 4, 0, a, 0, off, k4, false, false, false)) }
        else { Some(mk(Op::JgeImm, 4, 0, a, 0, off, sext(k4, 4), false, false, false)) }
    } else if op1 == 0xBF {
        if cond == 1 { Some(mk(Op::JltUImm, 4, 0, a, 0, off, k4, false, false, false)) }
        else { Some(mk(Op::JltImm, 4, 0, a, 0, off, sext(k4, 4), false, false, false)) }
    } else {
        None
    }
}

/// Everything else among the 32-bit encodings: calls, jumps, moves, immediates.
pub open spec fn spec_decode_misc(raw: u32, op1: u32) -> Option<Decoded> {
    let c = nib(raw, 28);
    let a = nib(raw, 8);
    let k16 = field(raw, 12, 0xFFFF);
    let d24 = disp24(raw);
    if op1 == 0x4D {
        let cond = field(raw, 30, 0x3);
        let op = if cond == 0 { Op::BeqF } else if cond == 1 { Op::BneF }
            else if cond == 2 { Op::BgeF } else { Op::BltF };
        Some(mk4(op, 0, 0, 0, br15(raw)))
    } else if op1 == 0x6D {
        Some(mk4(Op::Call, 0, 0, 0, sext(d24, 24) << 1u32))
    } else if op1 == 0xED {
        let ea = (((d24 >> 20u32) & 0xF) << 28u32) | ((d24 & 0xFFFFF) << 1u32);
        Some(mk(Op::CallA, 4, 0, 0, 0, ea, 0, true, false, false))
    } else if op1 == 0x2D {
        Some(mk4(Op::CallI, 0, a, 0, 0))
    } else if op1 == 0x0D {
        Some(mk4(Op::Ret, 0, 0, 0, 0))
    } else if op1 == 0x1D {
        Some(mk4(Op::J, 0, 0, 0, sext(d24, 24) << 1u32))
    } else if op1 == 0x91 {
        Some(mk4(Op::MovHA, c, 0, 0, k16 << 16u32))
    } else if op1 == 0x11 {
        Some(mk4(Op::Lea, c, a, 0, k16 << 16u32))
    } else if op1 == 0x49 {
        if field(raw, 22, 0x3F) != 0x28 {
            None
        } else {
            Some(mk4(Op::Lea, a, nib(raw, 12), 0, sext(off10(raw), 10)))
        }
    } else if op1 == 0x0F {
        let op2 = field(raw, 20, 0xFF);
        let b = nib(raw, 16);
        if op2 == 0x08 { Some(mk4(Op::And, c, a, b, 0)) }
        else if op2 == 0x0A { Some(mk4(Op::Or, c, a, b, 0)) }
        else if op2 == 0x0C { Some(mk4(Op::Xor, c, a, b, 0)) }
        else { None }
    } else if op1 == 0x8F {
        let op2 = field(raw, 21, 0x7F);
        let k9 = field(raw, 12, 0x1FF);
        if op2 == 0x08 { Some(mk4(Op::And, c, a, 0, k9)) }
        else if op2 == 0x0A { Some(mk4(Op::Or, c, a, 0, k9)) }
        else if op2 == 0x0C { Some(mk4(Op::Xor, c, a, 0, k9)) }
        else { None }
    } else if op1 == 0x1B {
        Some(mk4(Op::Add, c, a, 0, sext(k16, 16)))
    } else if op1 == 0x9B {
        Some(mk4(Op::Add, c, a, 0, k16 << 16u32))
    } else if op1 == 0x3B {
        Some(mk4(Op::MovI, c, 0, 0, sext(k16, 16)))
    } else if op1 == 0xBB {
        Some(mk4(Op::MovI, c, 0, 0, k16))
    } else if op1 == 0x7B {
        Some(mk4(Op::MovI, c, 0, 0, k16 << 16u32))
    } else {
        None
    }
}

pub open spec fn is_abs_op1(op1: u32) -> bool {
    op1 == 0x05 || op1 == 0x85 || op1 == 0x25 || op1 == 0xA5 || op1 == 0xC5
}

pub open spec fn is_bol_op1(op1: u32) -> bool {
    op1 == 0x19 || op1 == 0xC9 || op1 == 0xB9 || op1 == 0x79 || op1 == 0x39 || op1 == 0xE9
        || op1 == 0xF9 || op1 == 0x59 || op1 == 0xD9
}

pub open spec fn is_branch_op1(op1: u32) -> bool {
    op1 == 0x5F || op1 == 0x7D || op1 == 0xBD || op1 == 0xDF || op1 == 0x7F || op1 == 0x3F
        || op1 == 0xFF || op1 == 0xBF
}

pub open spec fn spec_decode32(raw: u32) -> Option<Decoded> {
    let op1 = raw & 0xFF;
    if op1 == 0x0B {
        spec_decode_rr(raw)
    } else if op1 == 0x8B {
        spec_decode_rc(raw)
    } else if op1 == 0x09 {
        spec_decode_bo(raw, false)
    } else if op1 == 0x89 {
        spec_decode_bo(raw, true)
    } else if op1 == 0x29 {
        spec_decode_pb(raw, false)
    } else if op1 == 0xA9 {
        spec_decode_pb(raw, true)
    } else if is_abs_op1(op1) {
        spec_decode_abs(raw, op1)
    } else if is_bol_op1(op1) {
        spec_decode_bol(raw, op1)
    } else if is_branch_op1(op1) {
        spec_decode_branch(raw, op1)
    } else {
        spec_decode_misc(raw, op1)
    }
}

/// The TC1.6.2 decoding of a fetched word: bit 0 of the first byte selects a
/// 16-bit (clear) or 32-bit (set) encoding.
pub open spec fn tc16_decode(raw: u32) -> Option<Decoded> {
    if raw & 1 == 0 {
        spec_decode16(raw)
    } else {
        spec_decode32(raw)
    }
}

// ----------------------------------------------------------------------------
// Implementation.
// ----------------------------------------------------------------------------

fn off10_of(raw: u32) -> (r: u32)
    ensures
        r == off10(raw),
{
    (field_of(raw, 28, 0xF) << 6) | field_of(raw, 16, 0x3F)
}

fn off16_of(raw: u32) -> (r: u32)
    ensures
        r == off16(raw),
{
    (field_of(raw, 22, 0x3F) << 10) | (field_of(raw, 28, 0xF) << 6) | field_of(raw, 16, 0x3F)
}

fn off18_of(raw: u32) -> (r: u32)
    ensures
        r == off18(raw),
{
    (field_of(raw, 12, 0xF) << 14) | (field_of(raw, 22, 0xF) << 10) | (field_of(raw, 28, 0xF) << 6)
        | field_of(raw, 16, 0x3F)
}

fn abs_ea_of(off: u32) -> (r: u32)
    ensures
        r == abs_ea(off),
{
    (((off >> 14) & 0xF) << 28) | (off & 0x3FFF)
}

fn br15_of(raw: u32) -> (r: u32)
    ensures
        r == br15(raw),
{
    sign_ext(field_of(raw, 15, 0x7FFF), 15) << 1
}

fn sb_disp_of(raw: u32, far: bool) -> (r: u32)
    ensures
        r == sb_disp(raw, far),
{
    let d4 = field_of(raw, 8, 0xF);
    (d4 + if far { 16u32 } else { 0u32 }) << 1
}

fn dec2(op: Op, rd: u8, rs1: u8, rs2: u8, imm: u32, imm2: u32) -> (r: Decoded)
    ensures
        r == mk2(op, rd, rs1, rs2, imm, imm2),
{
    Decoded { op, width: 2, rd, rs1, rs2, imm, imm2, abs: false, wb: false, pre: false }
}

fn dec4(op: Op, rd: u8, rs1: u8, rs2: u8, imm: u32) -> (r: Decoded)
    ensures
        r == mk4(op, rd, rs1, rs2, imm),
{
    Decoded { op, width: 4, rd, rs1, rs2, imm, imm2: 0, abs: false, wb: false, pre: false }
}

fn decode16(raw: u32) -> (r: Option<Decoded>)
    ensures
        r == spec_decode16(raw),
        r matches Some(d) ==> d.wf(),
{
    let op1 = raw & 0xFF;
    let a = nib_of(raw, 8);
    let b = nib_of(raw, 12);
    let c4 = sign_ext(field_of(raw, 12, 0xF), 4);
    if op1 == 0x5C {
        Some(dec2(Op::Call, 0, 0, 0, sign_ext(field_of(raw, 8, 0xFF), 8) << 1, 0))
    } else if op1 == 0x3C {
        Some(dec2(Op::J, 0, 0, 0, sign_ext(field_of(raw, 8, 0xFF), 8) << 1, 0))
    } else if op1 == 0x42 {
        Some(dec2(Op::Add, a, a, b, 0, 0))
    } else if op1 == 0xC2 {
        Some(dec2(Op::Add, a, a, 0, c4, 0))
    } else if op1 == 0x82 {
        Some(dec2(Op::MovI, a, 0, 0, c4, 0))
    } else if op1 == 0x26 {
        Some(dec2(Op::And, a, a, b, 0, 0))
    } else if op1 == 0xA6 {
        Some(dec2(Op::Or, a, a, b, 0, 0))
    } else if op1 == 0xC6 {
        Some(dec2(Op::Xor, a, a, b, 0, 0))
    } else if op1 == 0x1E || op1 == 0x9E {
        Some(dec2(Op::JeqImm, 0, 15, 0, sb_disp_of(raw, op1 == 0x9E), c4))
    } else if op1 == 0x5E || op1 == 0xDE {
        Some(dec2(Op::JneImm, 0, 15, 0, sb_disp_of(raw, op1 == 0xDE), c4))
    } else if op1 == 0x3E || op1 == 0xBE {
        Some(dec2(Op::Jeq, 0, 15, b, sb_disp_of(raw, op1 == 0xBE), 0))
    } else if op1 == 0x7E || op1 == 0xFE {
        Some(dec2(Op::Jne, 0, 15, b, sb_disp_of(raw, op1 == 0xFE), 0))
    } else if op1 == 0xBC {
        Some(dec2(Op::JzA, 0, b, 0, field_of(raw, 8, 0xF) << 1, 0))
    } else if op1 == 0x7C {
        Some(dec2(Op::JnzA, 0, b, 0, field_of(raw, 8, 0xF) << 1, 0))
    } else {
        None
    }
}

fn rr_op_of(op2: u32) -> (r: Option<Op>)
    ensures
        r == rr_op(op2),
{
    if op2 == 0x00 { Some(Op::Add) }
    else if op2 == 0x08 { Some(Op::Sub) }
    else if op2 == 0x04 { Some(Op::Addx) }
    else if op2 == 0x05 { Some(Op::Addc) }
    else if op2 == 0x20 { Some(Op::Shl) }
    else if op2 == 0x21 { Some(Op::Shr) }
    else if op2 == 0x22 { Some(Op::Sar) }
    else if op2 == 0x23 { Some(Op::Ror) }
    else if op2 == 0x24 { Some(Op::Andn) }
    else if op2 == 0x26 { Some(Op::Min) }
    else if op2 == 0x27 { Some(Op::Max) }
    else if op2 == 0x28 { Some(Op::MinU) }
    else if op2 == 0x29 { Some(Op::MaxU) }
    else if op2 == 0x2C { Some(Op::Mul) }
    else if op2 == 0x2D { Some(Op::MulU) }
    else if op2 == 0x2E { Some(Op::Div) }
    else if op2 == 0x2F { Some(Op::DivU) }
    else { None }
}

fn decode_rr(raw: u32) -> (r: Option<Decoded>)
    ensures
        r == spec_decode_rr(raw),
        r matches Some(d) ==> d.wf(),
{
    let op2 = field_of(raw, 20, 0xFF);
    let c = nib_of(raw, 28);
    let b = nib_of(raw, 16);
    let a = nib_of(raw, 8);
    if op2 == 0x1F {
        Some(dec4(Op::Mov, c, b, 0, 0))
    } else if op2 == 0x18 {
        Some(dec4(Op::Cmp, 0, a, b, 0))
    } else if op2 == 0x19 {
        Some(dec4(Op::CmpU, 0, a, b, 0))
    } else if op2 == 0x25 {
        Some(dec4(Op::Not, c, a, 0, 0))
    } else {
        match rr_op_of(op2) {
            Some(op) => Some(dec4(op, c, a, b, 0)),
            None => None,
        }
    }
}

fn rc_op_of(op2: u32, k9: u32) -> (r: Option<(Op, u32)>)
    ensures
        r == rc_op(op2, k9),
{
    let s9 = sign_ext(k9, 9);
    if op2 == 0x00 { Some((Op::Add, s9)) }
    else if op2 == 0x04 { Some((Op::Addx, s9)) }
    else if op2 == 0x05 { Some((Op::Addc, s9)) }
    else if op2 == 0x08 { Some((Op::Sub, s9)) }
    else if op2 == 0x20 { Some((Op::Shl, k9 & 31)) }
    else if op2 == 0x21 { Some((Op::Shr, k9 & 31)) }
    else if op2 == 0x22 { Some((Op::Sar, k9 & 31)) }
    else if op2 == 0x23 { Some((Op::Ror, k9 & 31)) }
    else if op2 == 0x24 { Some((Op::Andn, k9)) }
    else if op2 == 0x26 { Some((Op::Min, s9)) }
    else if op2 == 0x27 { Some((Op::Max, s9)) }
    else if op2 == 0x28 { Some((Op::MinU, k9)) }
    else if op2 == 0x29 { Some((Op::MaxU, k9)) }
    else if op2 == 0x2C { Some((Op::Mul, s9)) }
    else if op2 == 0x2D { Some((Op::MulU, k9)) }
    else { None }
}

fn decode_rc(raw: u32) -> (r: Option<Decoded>)
    ensures
        r == spec_decode_rc(raw),
        r matches Some(d) ==> d.wf(),
{
    let op2 = field_of(raw, 21, 0x7F);
    let c = nib_of(raw, 28);
    let a = nib_of(raw, 8);
    let k9 = field_of(raw, 12, 0x1FF);
    if op2 == 0x18 {
        Some(dec4(Op::CmpI, 0, a, 0, sign_ext(k9, 9)))
    } else if op2 == 0x19 {
        Some(dec4(Op::CmpUI, 0, a, 0, k9))
    } else {
        match rc_op_of(op2, k9) {
            Some((op, imm)) => Some(dec4(op, c, a, 0, imm)),
            None => None,
        }
    }
}

fn ld_size_op_of(k: u32) -> (r: Option<Op>)
    ensures
        r == ld_size_op(k),
{
    if k == 0 { Some(Op::LdB) }
    else if k == 1 { Some(Op::LdBu) }
    else if k == 2 { Some(Op::LdH) }
    else if k == 3 { Some(Op::LdHu) }
    else if k == 4 { Some(Op::LdW) }
    else { None }
}

fn st_size_op_of(k: u32) -> (r: Option<Op>)
    ensures
        r == st_size_op(k),
{
    if k == 0 { Some(Op::StB) }
    else if k == 2 { Some(Op::StH) }
    else if k == 4 { Some(Op::StW) }
    else { None }
}

fn bo_mode_of(op2: u32) -> (r: Option<(bool, bool)>)
    ensures
        r == bo_mode(op2),
{
    let m = op2 >> 4;
    if m == 0 { Some((true, false)) }
    else if m == 1 { Some((true, true)) }
    else if m == 2 { Some((false, false)) }
    else { None }
}

fn decode_bo(raw: u32, store: bool) -> (r: Option<Decoded>)
    ensures
        r == spec_decode_bo(raw, store),
        r matches Some(d) ==> d.wf(),
{
    let op2 = field_of(raw, 22, 0x3F);
    let b = nib_of(raw, 12);
    let a = nib_of(raw, 8);
    let imm = sign_ext(off10_of(raw), 10);
    let sz = if store { st_size_op_of(op2 & 0xF) } else { ld_size_op_of(op2 & 0xF) };
    match (sz, bo_mode_of(op2)) {
        (Some(op), Some((wb, pre))) =>
            if store {
                Some(Decoded { op, width: 4, rd: 0, rs1: b, rs2: a, imm, imm2: 0, abs: false, wb, pre })
            } else {
                Some(Decoded { op, width: 4, rd: a, rs1: b, rs2: 0, imm, imm2: 0, abs: false, wb, pre })
            },
        _ => None,
    }
}

fn pb_load_op_of(op2: u32) -> (r: Option<Op>)
    ensures
        r == pb_load_op(op2),
{
    if op2 == 0x00 { Some(Op::LdBPbr) }
    else if op2 == 0x01 { Some(Op::LdBUPbr) }
    else if op2 == 0x02 { Some(Op::LdHPbr) }
    else if op2 == 0x03 { Some(Op::LdHUPbr) }
    else if op2 == 0x04 { Some(Op::LdWPbr) }
    else if op2 == 0x10 { Some(Op::LdBPcir) }
    else if op2 == 0x11 { Some(Op::LdBUPcir) }
    else if op2 == 0x12 { Some(Op::LdHPcir) }
    else if op2 == 0x13 { Some(Op::LdHUPcir) }
    else if op2 == 0x14 { Some(Op::LdWPcir) }
    else { None }
}

fn pb_store_op_of(op2: u32) -> (r: Option<Op>)
    ensures
        r == pb_store_op(op2),
{
    if op2 == 0x00 { Some(Op::StBPbr) }
    else if op2 == 0x02 { Some(Op::StHPbr) }
    else if op2 == 0x04 { Some(Op::StWPbr) }
    else if op2 == 0x10 { Some(Op::StBPcir) }
    else if op2 == 0x12 { Some(Op::StHPcir) }
    else if op2 == 0x14 { Some(Op::StWPcir) }
    else { None }
}

fn decode_pb(raw: u32, store: bool) -> (r: Option<Decoded>)
    ensures
        r == spec_decode_pb(raw, store),
        r matches Some(d) ==> d.wf(),
{
    let op2 = field_of(raw, 22, 0x3F);
    let b = nib_of(raw, 12);
    let a = nib_of(raw, 8);
    let imm = if op2 >= 0x10 { sign_ext(off10_of(raw), 10) } else { 0u32 };
    let op = if store { pb_store_op_of(op2) } else { pb_load_op_of(op2) };
    match op {
        Some(op) =>
            if store {
                Some(dec4(op, 0, b, a, imm))
            } else {
                Some(dec4(op, a, b, 0, imm))
            },
        None => None,
    }
}

fn decode_abs(raw: u32, op1: u32) -> (r: Option<Decoded>)
    requires
        is_abs_op1(op1),
    ensures
        r == spec_decode_abs(raw, op1),
        r matches Some(d) ==> d.wf(),
{
    let sel = field_of(raw, 28, 0xF);
    let a = nib_of(raw, 8);
    let ea = if op1 == 0x05 {
        abs_ea_of(off18_of(raw) & 0x3FC3F)
    } else {
        abs_ea_of(off18_of(raw))
    };
    let op: Option<Op> =
        if op1 == 0x05 {
            if sel == 0 { Some(Op::LdB) } else if sel == 1 { Some(Op::LdBu) }
            else if sel == 2 { Some(Op::LdH) } else if sel == 3 { Some(Op::LdHu) } else { None }
        } else if op1 == 0x85 {
            if sel == 0 { Some(Op::LdW) } else { None }
        } else if op1 == 0x25 {
            if sel == 0 { Some(Op::StB) } else if sel == 2 { Some(Op::StH) } else { None }
        } else if op1 == 0xA5 {
            if sel == 0 { Some(Op::StW) } else { None }
        } else {
            Some(Op::Lea)
        };
    match op {
        Some(o) =>
            if op1 == 0x25 || op1 == 0xA5 {
                Some(Decoded { op: o, width: 4, rd: 0, rs1: 0, rs2: a, imm: ea, imm2: 0, abs: true, wb: false, pre: false })
            } else {
                Some(Decoded { op: o, width: 4, rd: a, rs1: 0, rs2: 0, imm: ea, imm2: 0, abs: true, wb: false, pre: false })
            },
        None => None,
    }
}

fn decode_bol(raw: u32, op1: u32) -> (r: Option<Decoded>)
    ensures
        r == spec_decode_bol(raw, op1),
        r matches Some(d) ==> d.wf(),
{
    let b = nib_of(raw, 12);
    let a = nib_of(raw, 8);
    let imm = sign_ext(off16_of(raw), 16);
    if op1 == 0x19 { Some(dec4(Op::LdW, a, b, 0, imm)) }
    else if op1 == 0xC9 { Some(dec4(Op::LdH, a, b, 0, imm)) }
    else if op1 == 0xB9 { Some(dec4(Op::LdHu, a, b, 0, imm)) }
    else if op1 == 0x79 { Some(dec4(Op::LdB, a, b, 0, imm)) }
    else if op1 == 0x39 { Some(dec4(Op::LdBu, a, b, 0, imm)) }
    else if op1 == 0xE9 { Some(dec4(Op::StB, 0, b, a, imm)) }
    else if op1 == 0xF9 { Some(dec4(Op::StH, 0, b, a, imm)) }
    else if op1 == 0x59 { Some(dec4(Op::StW, 0, b, a, imm)) }
    else if op1 == 0xD9 { Some(dec4(Op::Lea, a, b, 0, imm)) }
    else { None }
}

fn decode_branch(raw: u32, op1: u32) -> (r: Option<Decoded>)
    ensures
        r == spec_decode_branch(raw, op1),
        r matches Some(d) ==> d.wf(),
{
    let cond = field_of(raw, 30, 0x3);
    let a = nib_of(raw, 8);
    let b = nib_of(raw, 12);
    let k4 = field_of(raw, 12, 0xF);
    let off = br15_of(raw);
    let s4 = sign_ext(k4, 4);
    if op1 == 0x5F {
        if cond == 0 { Some(dec4(Op::Jeq, 0, a, b, off)) }
        else if cond == 1 { Some(dec4(Op::Jne, 0, a, b, off)) }
        else { None }
    } else if op1 == 0x7D {
        if cond == 0 { Some(dec4(Op::JeqA, 0, a, b, off)) }
        else if cond == 1 { Some(dec4(Op::JneA, 0, a, b, off)) }
        else { None }
    } else if op1 == 0xBD {
        if cond == 0 { Some(dec4(Op::JzA, 0, a, 0, off)) }
        else if cond == 1 { Some(dec4(Op::JnzA, 0, a, 0, off)) }
        else { None }
    } else if op1 == 0xDF {
        if cond == 0 {
            Some(Decoded { op: Op::JeqImm, width: 4, rd: 0, rs1: a, rs2: 0, imm: off, imm2: s4, abs: false, wb: false, pre: false })
        } else if cond == 1 {
            Some(Decoded { op: Op::JneImm, width: 4, rd: 0, rs1: a, rs2: 0, imm: off, imm2: s4, abs: false, wb: false, pre: false })
        } else {
            None
        }
    } else if op1 == 0x7F {
        Some(dec4(if cond == 1 { Op::JgeU } else { Op::Jge }, 0, a, b, off))
    } else if op1 == 0x3F {
        Some(dec4(if cond == 1 { Op::JltU } else { Op::Jlt }, 0, a, b, off))
    } else if op1 == 0xFF {
        if cond == 1 {
            Some(Decoded { op: Op::JgeUImm, width: 4, rd: 0, rs1: a, rs2: 0, imm: off, imm2: k4, abs: false, wb: false, pre: false })
        } else {
            Some(Decoded { op: Op::JgeImm, width: 4, rd: 0, rs1: a, rs2: 0, imm: off, imm2: s4, abs: false, wb: false, pre: false })
        }
    } else if op1 == 0xBF {
        if cond == 1 {
            Some(Decoded { op: Op::JltUImm, width: 4, rd: 0, rs1: a, rs2: 0, imm: off, imm2: k4, abs: false, wb: false, pre: false })
        } else {
            Some(Decoded { op: Op::JltImm, width: 4, rd: 0, rs1: a, rs2: 0, imm: off, imm2: s4, abs: false, wb: false, pre: false })
        }
    } else {
        None
    }
}

fn decode_misc(raw: u32, op1: u32) -> (r: Option<Decoded>)
    ensures
        r == spec_decode_misc(raw, op1),
        r matches Some(d) ==> d.wf(),
{
    let c = nib_of(raw, 28);
    let a = nib_of(raw, 8);
    let k16 = field_of(raw, 12, 0xFFFF);
    let d24 = (field_of(raw, 8, 0xFF) << 16) | field_of(raw, 16, 0xFFFF);
    if op1 == 0x4D {
        let cond = field_of(raw, 30, 0x3);
        let op = if cond == 0 { Op::BeqF } else if cond == 1 { Op::BneF }
            else if cond == 2 { Op::BgeF } else { Op::BltF };
        Some(dec4(op, 0, 0, 0, br15_of(raw)))
    } else if op1 == 0x6D {
        Some(dec4(Op::Call, 0, 0, 0, sign_ext(d24, 24) << 1))
    } else if op1 == 0xED {
        let ea = (((d24 >> 20) & 0xF) << 28) | ((d24 & 0xFFFFF) << 1);
        Some(Decoded { op: Op::CallA, width: 4, rd: 0, rs1: 0, rs2: 0, imm: ea, imm2: 0, abs: true, wb: false, pre: false })
    } else if op1 == 0x2D {
        Some(dec4(Op::CallI, 0, a, 0, 0))
    } else if op1 == 0x0D {
        Some(dec4(Op::Ret, 0, 0, 0, 0))
    } else if op1 == 0x1D {
        Some(dec4(Op::J, 0, 0, 0, sign_ext(d24, 24) << 1))
    } else if op1 == 0x91 {
        Some(dec4(Op::MovHA, c, 0, 0, k16 << 16))
    } else if op1 == 0x11 {
        Some(dec4(Op::Lea, c, a, 0, k16 << 16))
    } else if op1 == 0x49 {
        if field_of(raw, 22, 0x3F) != 0x28 {
            None
        } else {
            Some(dec4(Op::Lea, a, nib_of(raw, 12), 0, sign_ext(off10_of(raw), 10)))
        }
    } else if op1 == 0x0F {
        let op2 = field_of(raw, 20, 0xFF);
        let b = nib_of(raw, 16);
        if op2 == 0x08 { Some(dec4(Op::And, c, a, b, 0)) }
        else if op2 == 0x0A { Some(dec4(Op::Or, c, a, b, 0)) }
        else if op2 == 0x0C { Some(dec4(Op::Xor, c, a, b, 0)) }
        else { None }
    } else if op1 == 0x8F {
        let op2 = field_of(raw, 21, 0x7F);
        let k9 = field_of(raw, 12, 0x1FF);
        if op2 == 0x08 { Some(dec4(Op::And, c, a, 0, k9)) }
        else if op2 == 0x0A { Some(dec4(Op::Or, c, a, 0, k9)) }
        else if op2 == 0x0C { Some(dec4(Op::Xor, c, a, 0, k9)) }
        else { None }
    } else if op1 == 0x1B {
        Some(dec4(Op::Add, c, a, 0, sign_ext(k16, 16)))
    } else if op1 == 0x9B {
        Some(dec4(Op::Add, c, a, 0, k16 << 16))
    } else if op1 == 0x3B {
        Some(dec4(Op::MovI, c, 0, 0, sign_ext(k16, 16)))
    } else if op1 == 0xBB {
        Some(dec4(Op::MovI, c, 0, 0, k16))
    } else if op1 == 0x7B {
        Some(dec4(Op::MovI, c, 0, 0, k16 << 16))
    } else {
        None
    }
}

fn decode32(raw: u32) -> (r: Option<Decoded>)
    ensures
        r == spec_decode32(raw),
        r matches Some(d) ==> d.wf(),
{
    let op1 = raw & 0xFF;
    if op1 == 0x0B {
        decode_rr(raw)
    } else if op1 == 0x8B {
        decode_rc(raw)
    } else if op1 == 0x09 {
        decode_bo(raw, false)
    } else if op1 == 0x89 {
        decode_bo(raw, true)
    } else if op1 == 0x29 {
        decode_pb(raw, false)
    } else if op1 == 0xA9 {
        decode_pb(raw, true)
    } else if op1 == 0x05 || op1 == 0x85 || op1 == 0x25 || op1 == 0xA5 || op1 == 0xC5 {
        decode_abs(raw, op1)
    } else if op1 == 0x19 || op1 == 0xC9 || op1 == 0xB9 || op1 == 0x79 || op1 == 0x39
        || op1 == 0xE9 || op1 == 0xF9 || op1 == 0x59 || op1 == 0xD9 {
        decode_bol(raw, op1)
    } else if op1 == 0x5F || op1 == 0x7D || op1 == 0xBD || op1 == 0xDF || op1 == 0x7F
        || op1 == 0x3F || op1 == 0xFF || op1 == 0xBF {
        decode_branch(raw, op1)
    } else {
        decode_misc(raw, op1)
    }
}

impl Decoder for Tc16Decoder {
    open spec fn spec_decode(&self, raw32: u32) -> Option<Decoded> {
        tc16_decode(raw32)
    }

    fn decode(&self, raw32: u32) -> (r: Option<Decoded>) {
        if raw32 & 1 == 0 {
            decode16(raw32)
        } else {
            decode32(raw32)
        }
    }
}

// ----------------------------------------------------------------------------
// Laws of the encoding.
// ----------------------------------------------------------------------------

/// Bit 0 of the fetched word fixes the width: every 16-bit decoding comes from
/// a word whose bit 0 is clear and every 32-bit decoding from one whose bit 0
/// is set.
pub proof fn lemma_decode_width(raw: u32)
    ensures
        tc16_decode(raw) matches Some(d) ==> (d.width == 2 <==> raw & 1 == 0),
        tc16_decode(raw) matches Some(d) ==> (d.width == 2 || d.width == 4),
{
}

/// A 16-bit instruction is decoded from its own two bytes alone: the upper
/// half of the fetched word, which belongs to the next instruction, does not
/// change the result.
pub proof fn lemma_decode16_ignores_upper_half(raw: u32)
    requires
        raw & 1 == 0,
    ensures
        tc16_decode(raw) == tc16_decode(raw & 0xFFFF),
{
    let lo = raw & 0xFFFF;
    assert(lo & 1 == raw & 1 && lo & 0xFF == raw & 0xFF && (lo >> 8u32) & 0xF == (raw >> 8u32) & 0xF
        && (lo >> 12u32) & 0xF == (raw >> 12u32) & 0xF && (lo >> 8u32) & 0xFF == (raw >> 8u32) & 0xFF)
        by (bit_vector)
        requires lo == raw & 0xFFFF;
}

/// Every register number of a decoded instruction names one of the sixteen
/// registers of its bank.
pub proof fn lemma_decode_wf(raw: u32)
    ensures
        tc16_decode(raw) matches Some(d) ==> d.wf(),
{
    crate::bits::lemma_nib_lt16(raw, 8);
    crate::bits::lemma_nib_lt16(raw, 12);
    crate::bits::lemma_nib_lt16(raw, 16);
    crate::bits::lemma_nib_lt16(raw, 28);
}


/// The 16-bit-constant additions and moves: ADDI (0x1B) adds const16
/// sign-extended, ADDIH (0x9B) adds const16 times 65536, i.e. to the upper
/// halfword; MOV (0x3B) moves const16 sign-extended, MOV.U (0xBB) moves it
/// zero-extended and MOVH (0x7B) moves const16 times 65536.
pub proof fn lemma_const16_decode(c: u32, a: u32, k: u32)
    requires
        c < 16,
        a < 16,
        k < 0x1_0000,
    ensures
        tc16_decode((c << 28u32) | (k << 12u32) | (a << 8u32) | 0x1B) == Some(
            mk4(Op::Add, c as u8, a as u8, 0, if k < 0x8000 { k } else { (k + 0xFFFF_0000) as u32 }),
        ),
        tc16_decode((c << 28u32) | (k << 12u32) | (a << 8u32) | 0x9B) == Some(
            mk4(Op::Add, c as u8, a as u8, 0, (k * 0x1_0000) as u32),
        ),
        tc16_decode((c << 28u32) | (k << 12u32) | 0x3B) == Some(
            mk4(Op::MovI, c as u8, 0, 0, if k < 0x8000 { k } else { (k + 0xFFFF_0000) as u32 }),
        ),
        tc16_decode((c << 28u32) | (k << 12u32) | 0xBB) == Some(mk4(Op::MovI, c as u8, 0, 0, k)),
        tc16_decode((c << 28u32) | (k << 12u32) | 0x7B) == Some(
            mk4(Op::MovI, c as u8, 0, 0, (k * 0x1_0000) as u32),
        ),
{
    let w = (c << 28u32) | (k << 12u32) | (a << 8u32);
    let v = (c << 28u32) | (k << 12u32);
    assert(nib(w | 0x1B, 28) == c as u8 && nib(w | 0x1B, 8) == a as u8 && field(w | 0x1B, 12, 0xFFFF) == k
        && (w | 0x1B) & 1 == 1 && (w | 0x1B) & 0xFF == 0x1B && nib(w | 0x9B, 28) == c as u8 && nib(
        w | 0x9B,
        8,
    ) == a as u8 && field(w | 0x9B, 12, 0xFFFF) == k && (w | 0x9B) & 1 == 1 && (w | 0x9B) & 0xFF == 0x9B
        && nib(v | 0x3B, 28) == c as u8 && field(v | 0x3B, 12, 0xFFFF) == k && (v | 0x3B) & 1 == 1 && (v
        | 0x3B) & 0xFF == 0x3B && nib(v | 0xBB, 28) == c as u8 && field(v | 0xBB, 12, 0xFFFF) == k && (v
        | 0xBB) & 1 == 1 && (v | 0xBB) & 0xFF == 0xBB && nib(v | 0x7B, 28) == c as u8 && field(
        v | 0x7B,
        12,
        0xFFFF,
    ) == k && (v | 0x7B) & 1 == 1 && (v | 0x7B) & 0xFF == 0x7B && k << 16u32 == (k * 0x1_0000) as u32
        && sext(k, 16) == if k < 0x8000 { k } else { (k + 0xFFFF_0000) as u32 }) by (bit_vector)
        requires
            w == (c << 28u32) | (k << 12u32) | (a << 8u32),
            v == (c << 28u32) | (k << 12u32),
            c < 16,
            a < 16,
            k < 0x1_0000,
    ;
}

} // verus!
