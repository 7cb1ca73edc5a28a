//! Textual disassembly of decoded instructions.
use vstd::prelude::*;
use crate::decoder::{Decoded, Op};

verus! {

// ----------------------------------------------------------------------------
// Number and register text.
// ----------------------------------------------------------------------------

/// The lowercase digit for `k < 16`.
pub open spec fn digit_text(k: nat) -> Seq<char> {
    if k == 0 { "0"@ } else if k == 1 { "1"@ } else if k == 2 { "2"@ } else if k == 3 { "3"@ }
    else if k == 4 { "4"@ } else if k == 5 { "5"@ } else if k == 6 { "6"@ } else if k == 7 { "7"@ }
    else if k == 8 { "8"@ } else if k == 9 { "9"@ } else if k == 10 { "a"@ } else if k == 11 { "b"@ }
    else if k == 12 { "c"@ } else if k == 13 { "d"@ } else if k == 14 { "e"@ } else { "f"@ }
}

/// Decimal digits of `n`, without leading zeros.
pub open spec fn dec_text(n: nat) -> Seq<char>
    decreases n,
{
    if n < 10 {
        digit_text(n)
    } else {
        dec_text(n / 10) + digit_text(n % 10)
    }
}

/// Lowercase hexadecimal digits of `n`, without leading zeros.
pub open spec fn hex_digits(n: nat) -> Seq<char>
    decreases n,
{
    if n < 16 {
        digit_text(n)
    } else {
        hex_digits(n / 16) + digit_text(n % 16)
    }
}

/// `{:#x}`: "0x" and the hexadecimal digits.
pub open spec fn hex_text(n: u32) -> Seq<char> {
    "0x"@ + hex_digits(n as nat)
}

/// The last `width` hexadecimal digits of `n`, zero-padded: `{:0width$x}`
/// for `n < 16^width`.
pub open spec fn hex_fixed(n: nat, width: nat) -> Seq<char>
    decreases width,
{
    if width == 0 {
        Seq::empty()
    } else {
        hex_fixed(n / 16, (width - 1) as nat) + digit_text(n % 16)
    }
}

/// `{:#010x}`: an address as "0x" and eight digits.
pub open spec fn addr_text(n: u32) -> Seq<char> {
    "0x"@ + hex_fixed(n as nat, 8)
}

/// `{:+#x}` of the word read as an i32: a plus sign, then the word's bits in hex.
pub open spec fn shex_text(n: u32) -> Seq<char> {
    "+"@ + hex_text(n)
}

pub open spec fn dreg(r: u8) -> Seq<char> {
    "d"@ + dec_text(r as nat)
}

pub open spec fn areg(r: u8) -> Seq<char> {
    "a"@ + dec_text(r as nat)
}

pub open spec fn preg(r: u8) -> Seq<char> {
    "p"@ + dec_text(r as nat)
}

// ----------------------------------------------------------------------------
// Instruction text.
// ----------------------------------------------------------------------------

/// `{mn} dD, dA, dB` or, with the immediate form, `{mn} dD, dA, 0xIMM`.
pub open spec fn alu_text(mn: Seq<char>, d: Decoded) -> Seq<char> {
    if d.rs2 != 0 {
        mn + " "@ + dreg(d.rd) + ", "@ + dreg(d.rs1) + ", "@ + dreg(d.rs2)
    } else {
        mn + " "@ + dreg(d.rd) + ", "@ + dreg(d.rs1) + ", "@ + hex_text(d.imm)
    }
}

/// Loads: absolute, pre-increment, post-increment and base+offset forms.
pub open spec fn mem_text(mn: Seq<char>, d: Decoded) -> Seq<char> {
    if d.abs {
        mn + " "@ + dreg(d.rd) + ", ["@ + hex_text(d.imm) + "]"@
    } else if d.wb && d.pre {
        mn + " "@ + dreg(d.rd) + ", ["@ + areg(d.rs1) + "+"@ + hex_text(d.imm) + "]!"@
    } else if d.wb {
        mn + " "@ + dreg(d.rd) + ", ["@ + areg(d.rs1) + "], "@ + hex_text(d.imm)
    } else {
        mn + " "@ + dreg(d.rd) + ", ["@ + areg(d.rs1) + "+"@ + hex_text(d.imm) + "]"@
    }
}

/// Stores: absolute, pre-increment, post-increment and base+offset forms.
pub open spec fn mems_text(mn: Seq<char>, d: Decoded) -> Seq<char> {
    if d.abs {
        mn + " ["@ + hex_text(d.imm) + "], "@ + dreg(d.rs2)
    } else if d.wb && d.pre {
        mn + " ["@ + areg(d.rs1) + "+"@ + hex_text(d.imm) + "]!, "@ + dreg(d.rs2)
    } else if d.wb {
        mn + " ["@ + areg(d.rs1) + "], "@ + dreg(d.rs2)
    } else {
        mn + " ["@ + areg(d.rs1) + "+"@ + hex_text(d.imm) + "], "@ + dreg(d.rs2)
    }
}

/// Register-register branches on data or address registers.
pub open spec fn br_text(mn: Seq<char>, d: Decoded, addr: bool) -> Seq<char> {
    if addr {
        mn + " "@ + areg(d.rs1) + ", "@ + areg(d.rs2) + ", "@ + shex_text(d.imm)
    } else {
        mn + " "@ + dreg(d.rs1) + ", "@ + dreg(d.rs2) + ", "@ + shex_text(d.imm)
    }
}

/// Register-constant branches.
pub open spec fn bri_text(mn: Seq<char>, d: Decoded) -> Seq<char> {
    mn + " "@ + dreg(d.rs1) + ", "@ + hex_text(d.imm2) + ", "@ + shex_text(d.imm)
}

/// P[b] bit-reverse loads.
pub open spec fn pbr_ld_text(mn: Seq<char>, d: Decoded) -> Seq<char> {
    mn + " "@ + dreg(d.rd) + ", ["@ + preg(d.rs1) + "]"@
}

/// P[b] circular loads.
pub open spec fn pcir_ld_text(mn: Seq<char>, d: Decoded) -> Seq<char> {
    mn + " "@ + dreg(d.rd) + ", ["@ + preg(d.rs1) + "], "@ + shex_text(d.imm)
}

/// P[b] bit-reverse stores.
pub open spec fn pbr_st_text(mn: Seq<char>, d: Decoded) -> Seq<char> {
    mn + " ["@ + preg(d.rs1) + "], "@ + dreg(d.rs2)
}

/// P[b] circular stores.
pub open spec fn pcir_st_text(mn: Seq<char>, d: Decoded) -> Seq<char> {
    mn + " ["@ + preg(d.rs1) + "], "@ + dreg(d.rs2) + ", "@ + shex_text(d.imm)
}

/// `{mn} 0xIMM` with a signed relative offset.
pub open spec fn rel_text(mn: Seq<char>, d: Decoded) -> Seq<char> {
    mn + " "@ + shex_text(d.imm)
}

/// Compare forms: register-register or register-immediate.
pub open spec fn cmp_text(mn: Seq<char>, d: Decoded) -> Seq<char> {
    if d.rs2 != 0 {
        mn + " "@ + dreg(d.rs1) + ", "@ + dreg(d.rs2)
    } else {
        mn + " "@ + dreg(d.rs1) + ", "@ + hex_text(d.imm)
    }
}

pub open spec fn disasm_text(d: Decoded) -> Seq<char> {
    match d.op {
        Op::Mov => "mov "@ + dreg(d.rd) + ", "@ + dreg(d.rs1),
        Op::MovI => "mov "@ + dreg(d.rd) + ", #"@ + hex_text(d.imm),
        Op::MovHA => "movh.a "@ + areg(d.rd) + ", #"@ + hex_text(d.imm >> 16u32),
        Op::Lea => if d.abs {
            "lea "@ + areg(d.rd) + ", ["@ + hex_text(d.imm) + "]"@
        } else if d.wb && d.pre {
            "lea "@ + areg(d.rd) + ", ["@ + areg(d.rs1) + "+"@ + hex_text(d.imm) + "]!"@
        } else {
            "lea "@ + areg(d.rd) + ", ["@ + areg(d.rs1) + "+"@ + hex_text(d.imm) + "]"@
        },
        Op::Add => if d.rs2 != 0 { alu_text("add"@, d) } else { alu_text("addi"@, d) },
        Op::Addx => alu_text("addx"@, d),
        Op::Addc => alu_text("addc"@, d),
        Op::Sub => if d.rs2 != 0 { alu_text("sub"@, d) } else { alu_text("rsub"@, d) },
        Op::And => alu_text("and"@, d),
        Op::Or => alu_text("or"@, d),
        Op::Xor => alu_text("xor"@, d),
        Op::Shl => alu_text("shl"@, d),
        Op::Shr => alu_text("shr"@, d),
        Op::Sar => alu_text("sar"@, d),
        Op::Ror => alu_text("ror"@, d),
        Op::Andn => alu_text("andn"@, d),
        Op::Not => "not "@ + dreg(d.rd) + ", "@ + dreg(d.rs1),
        Op::Min => alu_text("min"@, d),
        Op::Max => alu_text("max"@, d),
        Op::MinU => alu_text("min.u"@, d),
        Op::MaxU => alu_text("max.u"@, d),
        Op::Mul => alu_text("mul"@, d),
        Op::MulU => alu_text("mul.u"@, d),
        Op::Div => "div "@ + dreg(d.rd) + ", "@ + dreg(d.rs1) + ", "@ + dreg(d.rs2),
        Op::DivU => "div.u "@ + dreg(d.rd) + ", "@ + dreg(d.rs1) + ", "@ + dreg(d.rs2),
        Op::BeqF => rel_text("beq"@, d),
        Op::BneF => rel_text("bne"@, d),
        Op::BgeF => rel_text("bge"@, d),
        Op::BltF => rel_text("blt"@, d),
        Op::BgeUF => rel_text("bge.u"@, d),
        Op::BltUF => rel_text("blt.u"@, d),
        Op::Cmp => cmp_text("cmp"@, d),
        Op::CmpU => cmp_text("cmp.u"@, d),
        Op::CmpI => "cmp "@ + dreg(d.rs1) + ", "@ + hex_text(d.imm),
        Op::CmpUI => "cmp.u "@ + dreg(d.rs1) + ", "@ + hex_text(d.imm),
        Op::LdB => mem_text("ld.b"@, d),
        Op::LdBu => mem_text("ld.bu"@, d),
        Op::LdH => mem_text("ld.h"@, d),
        Op::LdHu => mem_text("ld.hu"@, d),
        Op::LdW => mem_text("ld.w"@, d),
        Op::LdWPbr => pbr_ld_text("ld.w"@, d),
        Op::LdWPcir => pcir_ld_text("ld.w"@, d),
        Op::LdBPbr => pbr_ld_text("ld.b"@, d),
        Op::LdBUPbr => pbr_ld_text("ld.bu"@, d),
        Op::LdHPbr => pbr_ld_text("ld.h"@, d),
        Op::LdHUPbr => pbr_ld_text("ld.hu"@, d),
        Op::LdBPcir => pcir_ld_text("ld.b"@, d),
        Op::LdBUPcir => pcir_ld_text("ld.bu"@, d),
        Op::LdHPcir => pcir_ld_text("ld.h"@, d),
        Op::LdHUPcir => pcir_ld_text("ld.hu"@, d),
        Op::StB => mems_text("st.b"@, d),
        Op::StH => mems_text("st.h"@, d),
        Op::StW => mems_text("st.w"@, d),
        Op::StWPbr => pbr_st_text("st.w"@, d),
        Op::StWPcir => pcir_st_text("st.w"@, d),
        Op::StBPbr => pbr_st_text("st.b"@, d),
        Op::StBPcir => pcir_st_text("st.b"@, d),
        Op::StHPbr => pbr_st_text("st.h"@, d),
        Op::StHPcir => pcir_st_text("st.h"@, d),
        Op::J => rel_text("j"@, d),
        Op::Jeq => br_text("jeq"@, d, false),
        Op::Jne => br_text("jne"@, d, false),
        Op::JeqImm => bri_text("jeq"@, d),
        Op::JneImm => bri_text("jne"@, d),
        Op::Jge => br_text("jge"@, d, false),
        Op::JgeU => br_text("jge.u"@, d, false),
        Op::JgeImm => bri_text("jge"@, d),
        Op::JgeUImm => bri_text("jge.u"@, d),
        Op::Jlt => br_text("jlt"@, d, false),
        Op::JltU => br_text("jlt.u"@, d, false),
        Op::JltImm => bri_text("jlt"@, d),
        Op::JltUImm => bri_text("jlt.u"@, d),
        Op::JeqA => br_text("jeq.a"@, d, true),
        Op::JneA => br_text("jne.a"@, d, true),
        Op::Call => rel_text("call"@, d),
        Op::CallA => "calla "@ + hex_text(d.imm),
        Op::CallI => "calli "@ + areg(d.rs1),
        Op::Ret => "ret"@,
        Op::JzA => "jz.a "@ + areg(d.rs1) + ", "@ + shex_text(d.imm),
        Op::JnzA => "jnz.a "@ + areg(d.rs1) + ", "@ + shex_text(d.imm),
        Op::Bne => br_text("bne"@, d, false),
        Op::Syscall => "syscall"@,
    }
}

// ----------------------------------------------------------------------------
// Implementation.
// ----------------------------------------------------------------------------

/// Appends `t`.
pub fn put(s: &mut String, t: &str)
    ensures
        final(s)@ == old(s)@ + t@,
{
    s.append(t);
}

fn put_digit(s: &mut String, k: u32)
    requires
        k < 16,
    ensures
        final(s)@ == old(s)@ + digit_text(k as nat),
{
    let t = if k == 0 { "0" } else if k == 1 { "1" } else if k == 2 { "2" } else if k == 3 { "3" }
    else if k == 4 { "4" } else if k == 5 { "5" } else if k == 6 { "6" } else if k == 7 { "7" }
    else if k == 8 { "8" } else if k == 9 { "9" } else if k == 10 { "a" } else if k == 11 { "b" }
    else if k == 12 { "c" } else if k == 13 { "d" } else if k == 14 { "e" } else { "f" };
    put(s, t);
}

/// Appends `n` in decimal, as `{}` writes it.
pub fn put_dec(s: &mut String, n: u32)
    ensures
        final(s)@ == old(s)@ + dec_text(n as nat),
    decreases n,
{
    if n < 10 {
        put_digit(s, n);
    } else {
        let ghost s0 = s@;
        put_dec(s, n / 10);
        put_digit(s, n % 10);
        assert(s@ =~= s0 + dec_text(n as nat));
    }
}

fn put_hex_digits(s: &mut String, n: u32)
    ensures
        final(s)@ == old(s)@ + hex_digits(n as nat),
    decreases n,
{
    if n < 16 {
        put_digit(s, n);
    } else {
        let ghost s0 = s@;
        put_hex_digits(s, n / 16);
        put_digit(s, n % 16);
        assert(s@ =~= s0 + hex_digits(n as nat));
    }
}

/// Appends `n` as `{:#x}` writes it.
pub fn put_hex(s: &mut String, n: u32)
    ensures
        final(s)@ == old(s)@ + hex_text(n),
{
    let ghost s0 = s@;
    put(s, "0x");
    put_hex_digits(s, n);
    assert(s@ =~= s0 + hex_text(n));
}

/// Appends a count in decimal, as `{}` writes it.
pub fn put_usize(s: &mut String, n: usize)
    ensures
        final(s)@ == old(s)@ + dec_text(n as nat),
    decreases n,
{
    if n < 10 {
        put_digit(s, n as u32);
    } else {
        let ghost s0 = s@;
        put_usize(s, n / 10);
        put_digit(s, (n % 10) as u32);
        assert(s@ =~= s0 + dec_text(n as nat));
    }
}

/// Appends the last `width` hex digits of `n`, zero-padded.
pub fn put_hex_fixed(s: &mut String, n: u32, width: u32)
    ensures
        final(s)@ == old(s)@ + hex_fixed(n as nat, width as nat),
    decreases width,
{
    if width > 0 {
        let ghost s0 = s@;
        put_hex_fixed(s, n / 16, width - 1);
        put_digit(s, n % 16);
        assert(s@ =~= s0 + hex_fixed(n as nat, width as nat));
    }
}

/// Appends an address as `{:#010x}` writes it.
pub fn put_addr(s: &mut String, n: u32)
    ensures
        final(s)@ == old(s)@ + addr_text(n),
{
    let ghost s0 = s@;
    put(s, "0x");
    put_hex_fixed(s, n, 8);
    assert(s@ =~= s0 + addr_text(n));
}

fn put_shex(s: &mut String, n: u32)
    ensures
        final(s)@ == old(s)@ + shex_text(n),
{
    let ghost s0 = s@;
    put(s, "+");
    put_hex(s, n);
    assert(s@ =~= s0 + shex_text(n));
}

fn put_dreg(s: &mut String, r: u8)
    ensures
        final(s)@ == old(s)@ + dreg(r),
{
    let ghost s0 = s@;
    put(s, "d");
    put_dec(s, r as u32);
    assert(s@ =~= s0 + dreg(r));
}

fn put_areg(s: &mut String, r: u8)
    ensures
        final(s)@ == old(s)@ + areg(r),
{
    let ghost s0 = s@;
    put(s, "a");
    put_dec(s, r as u32);
    assert(s@ =~= s0 + areg(r));
}

fn put_preg(s: &mut String, r: u8)
    ensures
        final(s)@ == old(s)@ + preg(r),
{
    let ghost s0 = s@;
    put(s, "p");
    put_dec(s, r as u32);
    assert(s@ =~= s0 + preg(r));
}

fn alu(mn: &str, d: &Decoded) -> (r: String)
    ensures
        r@ == alu_text(mn@, *d),
{
    let mut s = String::from_str(mn);
    put(&mut s, " ");
    put_dreg(&mut s, d.rd);
    put(&mut s, ", ");
    put_dreg(&mut s, d.rs1);
    put(&mut s, ", ");
    if d.rs2 != 0 {
        put_dreg(&mut s, d.rs2);
    } else {
        put_hex(&mut s, d.imm);
    }
    s
}

fn mem(mn: &str, d: &Decoded) -> (r: String)
    ensures
        r@ == mem_text(mn@, *d),
{
    let mut s = String::from_str(mn);
    put(&mut s, " ");
    put_dreg(&mut s, d.rd);
    put(&mut s, ", [");
    if d.abs {
        put_hex(&mut s, d.imm);
        put(&mut s, "]");
    } else if d.wb && d.pre {
        put_areg(&mut s, d.rs1);
        put(&mut s, "+");
        put_hex(&mut s, d.imm);
        put(&mut s, "]!");
    } else if d.wb {
        put_areg(&mut s, d.rs1);
        put(&mut s, "], ");
        put_hex(&mut s, d.imm);
    } else {
        put_areg(&mut s, d.rs1);
        put(&mut s, "+");
        put_hex(&mut s, d.imm);
        put(&mut s, "]");
    }
    s
}

fn mems(mn: &str, d: &Decoded) -> (r: String)
    ensures
        r@ == mems_text(mn@, *d),
{
    let mut s = String::from_str(mn);
    put(&mut s, " [");
    if d.abs {
        put_hex(&mut s, d.imm);
        put(&mut s, "], ");
    } else if d.wb && d.pre {
        put_areg(&mut s, d.rs1);
        put(&mut s, "+");
        put_hex(&mut s, d.imm);
        put(&mut s, "]!, ");
    } else if d.wb {
        put_areg(&mut s, d.rs1);
        put(&mut s, "], ");
    } else {
        put_areg(&mut s, d.rs1);
        put(&mut s, "+");
        put_hex(&mut s, d.imm);
        put(&mut s, "], ");
    }
    put_dreg(&mut s, d.rs2);
    s
}

fn br(mn: &str, d: &Decoded, addr: bool) -> (r: String)
    ensures
        r@ == br_text(mn@, *d, addr),
{
    let mut s = String::from_str(mn);
    put(&mut s, " ");
    if addr {
        put_areg(&mut s, d.rs1);
        put(&mut s, ", ");
        put_areg(&mut s, d.rs2);
    } else {
        put_dreg(&mut s, d.rs1);
        put(&mut s, ", ");
        put_dreg(&mut s, d.rs2);
    }
    put(&mut s, ", ");
    put_shex(&mut s, d.imm);
    s
}

fn bri(mn: &str, d: &Decoded) -> (r: String)
    ensures
        r@ == bri_text(mn@, *d),
{
    let mut s = String::from_str(mn);
    put(&mut s, " ");
    put_dreg(&mut s, d.rs1);
    put(&mut s, ", ");
    put_hex(&mut s, d.imm2);
    put(&mut s, ", ");
    put_shex(&mut s, d.imm);
    s
}

fn pb_ld(mn: &str, d: &Decoded, circular: bool) -> (r: String)
    ensures
        r@ == (if circular { pcir_ld_text(mn@, *d) } else { pbr_ld_text(mn@, *d) }),
{
    let mut s = String::from_str(mn);
    put(&mut s, " ");
    put_dreg(&mut s, d.rd);
    put(&mut s, ", [");
    put_preg(&mut s, d.rs1);
    if circular {
        put(&mut s, "], ");
        put_shex(&mut s, d.imm);
    } else {
        put(&mut s, "]");
    }
    s
}

fn pb_st(mn: &str, d: &Decoded, circular: bool) -> (r: String)
    ensures
        r@ == (if circular { pcir_st_text(mn@, *d) } else { pbr_st_text(mn@, *d) }),
{
    let mut s = String::from_str(mn);
    put(&mut s, " [");
    put_preg(&mut s, d.rs1);
    put(&mut s, "], ");
    put_dreg(&mut s, d.rs2);
    if circular {
        put(&mut s, ", ");
        put_shex(&mut s, d.imm);
    }
    s
}

fn rel(mn: &str, d: &Decoded) -> (r: String)
    ensures
        r@ == rel_text(mn@, *d),
{
    let mut s = String::from_str(mn);
    put(&mut s, " ");
    put_shex(&mut s, d.imm);
    s
}

fn cmp_form(mn: &str, d: &Decoded) -> (r: String)
    ensures
        r@ == cmp_text(mn@, *d),
{
    let mut s = String::from_str(mn);
    put(&mut s, " ");
    put_dreg(&mut s, d.rs1);
    put(&mut s, ", ");
    if d.rs2 != 0 {
        put_dreg(&mut s, d.rs2);
    } else {
        put_hex(&mut s, d.imm);
    }
    s
}

/// Text of two data registers after a mnemonic: `{head}dX, dY`.
fn two_dregs(head: &str, x: u8, y: u8) -> (r: String)
    ensures
        r@ == head@ + dreg(x) + ", "@ + dreg(y),
{
    let mut s = String::from_str(head);
    put_dreg(&mut s, x);
    put(&mut s, ", ");
    put_dreg(&mut s, y);
    s
}

fn three_dregs(head: &str, x: u8, y: u8, z: u8) -> (r: String)
    ensures
        r@ == head@ + dreg(x) + ", "@ + dreg(y) + ", "@ + dreg(z),
{
    let mut s = two_dregs(head, x, y);
    put(&mut s, ", ");
    put_dreg(&mut s, z);
    s
}

fn dreg_hex(head: &str, x: u8, sep: &str, v: u32) -> (r: String)
    ensures
        r@ == head@ + dreg(x) + sep@ + hex_text(v),
{
    let mut s = String::from_str(head);
    put_dreg(&mut s, x);
    put(&mut s, sep);
    put_hex(&mut s, v);
    s
}

fn lea_text(d: &Decoded) -> (r: String)
    requires
        d.op == Op::Lea,
    ensures
        r@ == disasm_text(*d),
{
    let mut s = String::from_str("lea ");
    put_areg(&mut s, d.rd);
    put(&mut s, ", [");
    if d.abs {
        put_hex(&mut s, d.imm);
        put(&mut s, "]");
    } else {
        put_areg(&mut s, d.rs1);
        put(&mut s, "+");
        put_hex(&mut s, d.imm);
        if d.wb && d.pre {
            put(&mut s, "]!");
        } else {
            put(&mut s, "]");
        }
    }
    s
}

fn areg_rel(head: &str, x: u8, v: u32) -> (r: String)
    ensures
        r@ == head@ + areg(x) + ", "@ + shex_text(v),
{
    let mut s = String::from_str(head);
    put_areg(&mut s, x);
    put(&mut s, ", ");
    put_shex(&mut s, v);
    s
}

/// Disassembly text of a decoded instruction.
pub fn fmt_decoded(d: &Decoded) -> (r: String)
    ensures
        r@ == disasm_text(*d),
{
    match d.op {
        Op::Mov => two_dregs("mov ", d.rd, d.rs1),
        Op::MovI => dreg_hex("mov ", d.rd, ", #", d.imm),
        Op::MovHA => {
            let mut s = String::from_str("movh.a ");
            put_areg(&mut s, d.rd);
            put(&mut s, ", #");
            put_hex(&mut s, d.imm >> 16);
            s
        },
        Op::Lea => lea_text(d),
        Op::Add => if d.rs2 != 0 { alu("add", d) } else { alu("addi", d) },
        Op::Addx => alu("addx", d),
        Op::Addc => alu("addc", d),
        Op::Sub => if d.rs2 != 0 { alu("sub", d) } else { alu("rsub", d) },
        Op::And => alu("and", d),
        Op::Or => alu("or", d),
        Op::Xor => alu("xor", d),
        Op::Shl => alu("shl", d),
        Op::Shr => alu("shr", d),
        Op::Sar => alu("sar", d),
        Op::Ror => alu("ror", d),
        Op::Andn => alu("andn", d),
        Op::Not => two_dregs("not ", d.rd, d.rs1),
        Op::Min => alu("min", d),
        Op::Max => alu("max", d),
        Op::MinU => alu("min.u", d),
        Op::MaxU => alu("max.u", d),
        Op::Mul => alu("mul", d),
        Op::MulU => alu("mul.u", d),
        Op::Div => three_dregs("div ", d.rd, d.rs1, d.rs2),
        Op::DivU => three_dregs("div.u ", d.rd, d.rs1, d.rs2),
        Op::BeqF => rel("beq", d),
        Op::BneF => rel("bne", d),
        Op::BgeF => rel("bge", d),
        Op::BltF => rel("blt", d),
        Op::BgeUF => rel("bge.u", d),
        Op::BltUF => rel("blt.u", d),
        Op::Cmp => cmp_form("cmp", d),
        Op::CmpU => cmp_form("cmp.u", d),
        Op::CmpI => dreg_hex("cmp ", d.rs1, ", ", d.imm),
        Op::CmpUI => dreg_hex("cmp.u ", d.rs1, ", ", d.imm),
        Op::LdB => mem("ld.b", d),
        Op::LdBu => mem("ld.bu", d),
        Op::LdH => mem("ld.h", d),
        Op::LdHu => mem("ld.hu", d),
        Op::LdW => mem("ld.w", d),
        Op::LdWPbr => pb_ld("ld.w", d, false),
        Op::LdWPcir => pb_ld("ld.w", d, true),
        Op::LdBPbr => pb_ld("ld.b", d, false),
        Op::LdBUPbr => pb_ld("ld.bu", d, false),
        Op::LdHPbr => pb_ld("ld.h", d, false),
        Op::LdHUPbr => pb_ld("ld.hu", d, false),
        Op::LdBPcir => pb_ld("ld.b", d, true),
        Op::LdBUPcir => pb_ld("ld.bu", d, true),
        Op::LdHPcir => pb_ld("ld.h", d, true),
        Op::LdHUPcir => pb_ld("ld.hu", d, true),
        Op::StB => mems("st.b", d),
        Op::StH => mems("st.h", d),
        Op::StW => mems("st.w", d),
        Op::StWPbr => pb_st("st.w", d, false),
        Op::StWPcir => pb_st("st.w", d, true),
        Op::StBPbr => pb_st("st.b", d, false),
        Op::StBPcir => pb_st("st.b", d, true),
        Op::StHPbr => pb_st("st.h", d, false),
        Op::StHPcir => pb_st("st.h", d, true),
        Op::J => rel("j", d),
        Op::Jeq => br("jeq", d, false),
        Op::Jne => br("jne", d, false),
        Op::JeqImm => bri("jeq", d),
        Op::JneImm => bri("jne", d),
        Op::Jge => br("jge", d, false),
        Op::JgeU => br("jge.u", d, false),
        Op::JgeImm => bri("jge", d),
        Op::JgeUImm => bri("jge.u", d),
        Op::Jlt => br("jlt", d, false),
        Op::JltU => br("jlt.u", d, false),
        Op::JltImm => bri("jlt", d),
        Op::JltUImm => bri("jlt.u", d),
        Op::JeqA => br("jeq.a", d, true),
        Op::JneA => br("jne.a", d, true),
        Op::Call => rel("call", d),
        Op::CallA => {
            let mut s = String::from_str("calla ");
            put_hex(&mut s, d.imm);
            s
        },
        Op::CallI => {
            let mut s = String::from_str("calli ");
            put_areg(&mut s, d.rs1);
            s
        },
        Op::Ret => String::from_str("ret"),
        Op::JzA => areg_rel("jz.a ", d.rs1, d.imm),
        Op::JnzA => areg_rel("jnz.a ", d.rs1, d.imm),
        Op::Bne => br("bne", d, false),
        Op::Syscall => String::from_str("syscall"),
    }
}


/// The text of a register-register jump names its mnemonic, then the two
/// compared registers in the order the jump compares them (first the one
/// on the left of the test), then the byte offset with a plus sign.
pub proof fn lemma_register_branch_text(d: Decoded)
    ensures
        d.op == Op::Jeq ==> disasm_text(d) == "jeq d"@ + dec_text(d.rs1 as nat) + ", d"@ + dec_text(
            d.rs2 as nat,
        ) + ", +"@ + hex_text(d.imm),
        d.op == Op::Jne ==> disasm_text(d) == "jne d"@ + dec_text(d.rs1 as nat) + ", d"@ + dec_text(
            d.rs2 as nat,
        ) + ", +"@ + hex_text(d.imm),
        d.op == Op::Jge ==> disasm_text(d) == "jge d"@ + dec_text(d.rs1 as nat) + ", d"@ + dec_text(
            d.rs2 as nat,
        ) + ", +"@ + hex_text(d.imm),
        d.op == Op::JgeU ==> disasm_text(d) == "jge.u d"@ + dec_text(d.rs1 as nat) + ", d"@ + dec_text(
            d.rs2 as nat,
        ) + ", +"@ + hex_text(d.imm),
        d.op == Op::Jlt ==> disasm_text(d) == "jlt d"@ + dec_text(d.rs1 as nat) + ", d"@ + dec_text(
            d.rs2 as nat,
        ) + ", +"@ + hex_text(d.imm),
        d.op == Op::JltU ==> disasm_text(d) == "jlt.u d"@ + dec_text(d.rs1 as nat) + ", d"@ + dec_text(
            d.rs2 as nat,
        ) + ", +"@ + hex_text(d.imm),
        d.op == Op::JeqA ==> disasm_text(d) == "jeq.a a"@ + dec_text(d.rs1 as nat) + ", a"@ + dec_text(
            d.rs2 as nat,
        ) + ", +"@ + hex_text(d.imm),
        d.op == Op::JneA ==> disasm_text(d) == "jne.a a"@ + dec_text(d.rs1 as nat) + ", a"@ + dec_text(
            d.rs2 as nat,
        ) + ", +"@ + hex_text(d.imm),
{
    reveal_strlit("jeq d");
    reveal_strlit("jne d");
    reveal_strlit("jge d");
    reveal_strlit("jge.u d");
    reveal_strlit("jlt d");
    reveal_strlit("jlt.u d");
    reveal_strlit("jeq.a a");
    reveal_strlit("jne.a a");
    reveal_strlit(", d");
    reveal_strlit(", a");
    reveal_strlit(", +");
    reveal_strlit("jeq");
    reveal_strlit("jne");
    reveal_strlit("jge");
    reveal_strlit("jge.u");
    reveal_strlit("jlt");
    reveal_strlit("jlt.u");
    reveal_strlit("jeq.a");
    reveal_strlit("jne.a");
    reveal_strlit(" ");
    reveal_strlit(", ");
    reveal_strlit("+");
    reveal_strlit("d");
    reveal_strlit("a");
    reveal_strlit(" d");
    reveal_strlit(" a");
    let r1 = dec_text(d.rs1 as nat);
    let r2 = dec_text(d.rs2 as nat);
    let h = hex_text(d.imm);
    let mn = match d.op {
        Op::Jeq => "jeq"@,
        Op::Jne => "jne"@,
        Op::Jge => "jge"@,
        Op::JgeU => "jge.u"@,
        Op::Jlt => "jlt"@,
        Op::JltU => "jlt.u"@,
        Op::JeqA => "jeq.a"@,
        _ => "jne.a"@,
    };
    if d.op == Op::JeqA || d.op == Op::JneA {
        assert(mn + " "@ + ("a"@ + r1) + ", "@ + ("a"@ + r2) + ", "@ + ("+"@ + h) =~= (mn + " a"@) + r1
            + ", a"@ + r2 + ", +"@ + h);
    } else {
        assert(mn + " "@ + ("d"@ + r1) + ", "@ + ("d"@ + r2) + ", "@ + ("+"@ + h) =~= (mn + " d"@) + r1
            + ", d"@ + r2 + ", +"@ + h);
    }
    assert("jeq"@ + " d"@ =~= "jeq d"@);
    assert("jne"@ + " d"@ =~= "jne d"@);
    assert("jge"@ + " d"@ =~= "jge d"@);
    assert("jge.u"@ + " d"@ =~= "jge.u d"@);
    assert("jlt"@ + " d"@ =~= "jlt d"@);
    assert("jlt.u"@ + " d"@ =~= "jlt.u d"@);
    assert("jeq.a"@ + " a"@ =~= "jeq.a a"@);
    assert("jne.a"@ + " a"@ =~= "jne.a a"@);
}


/// The three-operand ALU operations that print as `mnemonic dD, dA, dB`
/// (or, with no second register, `mnemonic dD, dA, 0xIMM`).
pub open spec fn is_alu_text_op(op: Op) -> bool {
    op == Op::Add || op == Op::Addx || op == Op::Addc || op == Op::Sub || op == Op::And || op == Op::Or || op == Op::Xor || op == Op::Shl || op == Op::Shr || op == Op::Sar || op == Op::Ror || op == Op::Andn || op == Op::Min || op == Op::Max || op == Op::MinU || op == Op::MaxU || op == Op::Mul || op == Op::MulU
}

/// The mnemonic of a three-operand ALU operation: a register form, or the
/// immediate form (ADD with a constant is ADDI, SUB with a constant RSUB).
pub open spec fn alu_mnemonic(op: Op, register_form: bool) -> Seq<char> {
    match op {
        Op::Add => if register_form { "add"@ } else { "addi"@ },
        Op::Addx => if register_form { "addx"@ } else { "addx"@ },
        Op::Addc => if register_form { "addc"@ } else { "addc"@ },
        Op::Sub => if register_form { "sub"@ } else { "rsub"@ },
        Op::And => if register_form { "and"@ } else { "and"@ },
        Op::Or => if register_form { "or"@ } else { "or"@ },
        Op::Xor => if register_form { "xor"@ } else { "xor"@ },
        Op::Shl => if register_form { "shl"@ } else { "shl"@ },
        Op::Shr => if register_form { "shr"@ } else { "shr"@ },
        Op::Sar => if register_form { "sar"@ } else { "sar"@ },
        Op::Ror => if register_form { "ror"@ } else { "ror"@ },
        Op::Andn => if register_form { "andn"@ } else { "andn"@ },
        Op::Min => if register_form { "min"@ } else { "min"@ },
        Op::Max => if register_form { "max"@ } else { "max"@ },
        Op::MinU => if register_form { "min.u"@ } else { "min.u"@ },
        Op::MaxU => if register_form { "max.u"@ } else { "max.u"@ },
        Op::Mul => if register_form { "mul"@ } else { "mul"@ },
        Op::MulU => if register_form { "mul.u"@ } else { "mul.u"@ },
        _ => Seq::empty(),
    }
}

/// The text of a three-operand ALU instruction: its mnemonic, then the
/// destination, the first source and the second source (a register, or the
/// constant in hex), in that order.
pub proof fn lemma_alu_text(d: Decoded)
    requires
        is_alu_text_op(d.op),
    ensures
        d.rs2 != 0 ==> disasm_text(d) == alu_mnemonic(d.op, true) + " d"@ + dec_text(d.rd as nat) + ", d"@
            + dec_text(d.rs1 as nat) + ", d"@ + dec_text(d.rs2 as nat),
        d.rs2 == 0 ==> disasm_text(d) == alu_mnemonic(d.op, false) + " d"@ + dec_text(d.rd as nat) + ", d"@
            + dec_text(d.rs1 as nat) + ", "@ + hex_text(d.imm),
{
    reveal_strlit("add");
    reveal_strlit("addc");
    reveal_strlit("addi");
    reveal_strlit("addx");
    reveal_strlit("and");
    reveal_strlit("andn");
    reveal_strlit("max");
    reveal_strlit("max.u");
    reveal_strlit("min");
    reveal_strlit("min.u");
    reveal_strlit("mul");
    reveal_strlit("mul.u");
    reveal_strlit("or");
    reveal_strlit("ror");
    reveal_strlit("rsub");
    reveal_strlit("sar");
    reveal_strlit("shl");
    reveal_strlit("shr");
    reveal_strlit("sub");
    reveal_strlit("xor");
    reveal_strlit(" d");
    reveal_strlit(", d");
    reveal_strlit(" ");
    reveal_strlit(", ");
    reveal_strlit("d");
    let mn = alu_mnemonic(d.op, d.rs2 != 0);
    let rd = dec_text(d.rd as nat);
    let r1 = dec_text(d.rs1 as nat);
    let r2 = dec_text(d.rs2 as nat);
    assert(mn + " "@ + ("d"@ + rd) + ", "@ + ("d"@ + r1) + ", "@ + ("d"@ + r2) =~= mn + " d"@ + rd + ", d"@
        + r1 + ", d"@ + r2);
    assert(mn + " "@ + ("d"@ + rd) + ", "@ + ("d"@ + r1) + ", "@ + hex_text(d.imm) =~= mn + " d"@ + rd
        + ", d"@ + r1 + ", "@ + hex_text(d.imm));
}

} // verus!
