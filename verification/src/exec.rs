//! Integer executor: the meaning of each decoded instruction.
use vstd::prelude::*;
use crate::bits::{sext, sign_ext, signed, wadd, wsub, lemma_low_bits};
use crate::cpu::{
    Cpu, CpuView, StepResult, Trap, step_spec, psw_with, PSW_AV, PSW_C, PSW_N, PSW_SAV, PSW_SV, PSW_V, PSW_Z,
};
use crate::decoder::{Decoded, Op};
use crate::isa::tc16::{Tc16Decoder, tc16_decode, lemma_decode_width};
use crate::memory::{Bus, BusError, load_u8, load_u16, load_u32, mapped, store};

verus! {

/// Executes one decoded instruction. PC has already been advanced past it.
pub trait Executor {
    /// State, memory and outcome after executing `d` in state `s` with memory `m`.
    spec fn spec_exec(&self, s: CpuView, m: Map<int, u8>, d: Decoded) -> StepResult;

    fn exec<B: Bus>(&self, cpu: &mut Cpu, bus: &mut B, d: Decoded) -> (r: Result<(), Trap>)
        requires
            d.wf(),
        ensures
            (final(cpu)@, final(bus).bytes(), r) == self.spec_exec(old(cpu)@, old(bus).bytes(), d),
    ;
}

pub struct IntExecutor;

// ----------------------------------------------------------------------------
// Specification.
// ----------------------------------------------------------------------------

pub open spec fn with_d(s: CpuView, i: int, v: u32) -> CpuView {
    CpuView { gpr: s.gpr.update(i, v), ..s }
}

pub open spec fn with_a(s: CpuView, i: int, v: u32) -> CpuView {
    CpuView { a: s.a.update(i, v), ..s }
}

pub open spec fn with_psw(s: CpuView, p: u32) -> CpuView {
    CpuView { psw: p, ..s }
}

/// Second ALU operand: D[rs2], or the immediate when rs2 is register 0.
pub open spec fn operand_b(s: CpuView, d: Decoded) -> u32 {
    if d.rs2 != 0 {
        s.gpr[d.rs2 as int]
    } else {
        d.imm
    }
}

/// Z and N from a result.
pub open spec fn psw_zn(p: u32, res: u32) -> u32 {
    psw_with(psw_with(p, PSW_Z, res == 0), PSW_N, res >= 0x8000_0000)
}

/// Advanced overflow: bit 31 of the result differs from bit 30.
pub open spec fn adv_overflow(res: u32) -> bool {
    ((res >> 31u32) & 1) ^ ((res >> 30u32) & 1) == 1
}

/// Flags after an arithmetic operation: Z, N, C, V and AV from the result;
/// SV and SAV are sticky.
pub open spec fn psw_arith(p: u32, res: u32, carry: bool, ov: bool) -> u32 {
    let p1 = psw_with(psw_with(psw_zn(p, res), PSW_C, carry), PSW_V, ov);
    let p2 = if ov { p1 | PSW_SV } else { p1 };
    let av = adv_overflow(res);
    let p3 = psw_with(p2, PSW_AV, av);
    if av { p3 | PSW_SAV } else { p3 }
}

/// Signed overflow of `a + b = res`: both operands differ in sign from the result.
pub open spec fn add_overflow(a: u32, b: u32, res: u32) -> bool {
    ((a ^ res) & (b ^ res)) >> 31u32 == 1
}

/// The overflow test of SUB/RSUB: `a` differs in sign from `b` and from the result.
pub open spec fn sub_overflow(a: u32, b: u32, res: u32) -> bool {
    ((a ^ b) & (a ^ res)) >> 31u32 == 1
}

pub open spec fn spec_alu(s: CpuView, d: Decoded) -> CpuView {
    let a = s.gpr[d.rs1 as int];
    let b = operand_b(s, d);
    let rd = d.rd as int;
    match d.op {
        Op::Add | Op::Addx => {
            let res = wadd(a, b);
            with_psw(with_d(s, rd, res), psw_arith(s.psw, res, a + b > u32::MAX, add_overflow(a, b, res)))
        },
        Op::Addc => {
            let cin: int = if s.psw & PSW_C == PSW_C { 1 } else { 0 };
            let sum = a + b + cin;
            let res = (if sum > u32::MAX { sum - 0x1_0000_0000 } else { sum }) as u32;
            with_psw(with_d(s, rd, res), psw_arith(s.psw, res, sum > u32::MAX, sum > 0x7FFF_FFFF))
        },
        Op::Sub => {
            let res = if d.rs2 != 0 { wsub(a, s.gpr[d.rs2 as int]) } else { wsub(d.imm, a) };
            let borrow = if d.rs2 != 0 { a < s.gpr[d.rs2 as int] } else { d.imm < a };
            let s1 = with_d(s, rd, res);
            // the overflow test reads D[rs2] after the result is written
            let bs = operand_b(s1, d);
            with_psw(s1, psw_arith(s.psw, res, borrow, sub_overflow(a, bs, res)))
        },
        Op::And => with_psw(with_d(s, rd, a & b), psw_zn(s.psw, a & b)),
        Op::Or => with_psw(with_d(s, rd, a | b), psw_zn(s.psw, a | b)),
        _ => with_psw(with_d(s, rd, a ^ b), psw_zn(s.psw, a ^ b)),
    }
}

pub open spec fn is_alu(op: Op) -> bool {
    op == Op::Add || op == Op::Addx || op == Op::Addc || op == Op::Sub || op == Op::And
        || op == Op::Or || op == Op::Xor
}

/// Effective address of a base+offset / absolute access.
pub open spec fn ea(s: CpuView, d: Decoded) -> u32 {
    let base = s.a[d.rs1 as int];
    if d.abs {
        d.imm
    } else if d.wb && !d.pre {
        base
    } else {
        wadd(base, d.imm)
    }
}

/// Address write-back after a post- or pre-increment access at `addr`.
pub open spec fn write_back(s: CpuView, d: Decoded, addr: u32) -> CpuView {
    if !d.abs && d.wb {
        with_a(s, d.rs1 as int, if d.pre { addr } else { wadd(addr, d.imm) })
    } else {
        s
    }
}

/// Required alignment of an access.
pub open spec fn align_of(op: Op) -> u32 {
    match op {
        Op::LdW | Op::StW | Op::LdWPbr | Op::StWPbr | Op::StWPcir => 4,
        Op::LdH | Op::LdHu | Op::StH | Op::LdHPbr | Op::LdHUPbr | Op::StHPbr | Op::LdHPcir
        | Op::LdHUPcir | Op::StHPcir => 2,
        _ => 1,
    }
}

/// Value a load puts in its destination register: bytes and halfwords are
/// sign- or zero-extended.
pub open spec fn load_value(op: Op, m: Map<int, u8>, addr: u32) -> Result<u32, BusError> {
    match op {
        Op::LdW | Op::LdWPbr => load_u32(m, addr),
        Op::LdH | Op::LdHPbr | Op::LdHPcir => match load_u16(m, addr) {
            Ok(h) => Ok(sext(h as u32, 16)),
            Err(e) => Err(e),
        },
        Op::LdHu | Op::LdHUPbr | Op::LdHUPcir => match load_u16(m, addr) {
            Ok(h) => Ok(h as u32),
            Err(e) => Err(e),
        },
        Op::LdB | Op::LdBPbr | Op::LdBPcir => match load_u8(m, addr) {
            Ok(b) => Ok(sext(b as u32, 8)),
            Err(e) => Err(e),
        },
        _ => match load_u8(m, addr) {
            Ok(b) => Ok(b as u32),
            Err(e) => Err(e),
        },
    }
}

/// Bytes a store writes.
pub open spec fn store_width(op: Op) -> int {
    match op {
        Op::StW | Op::StWPbr | Op::StWPcir => 4,
        Op::StH | Op::StHPbr | Op::StHPcir => 2,
        _ => 1,
    }
}

/// Part of the source register a store writes.
pub open spec fn store_value(op: Op, v: u32) -> u32 {
    match op {
        Op::StW | Op::StWPbr | Op::StWPcir => v,
        Op::StH | Op::StHPbr | Op::StHPcir => v & 0xFFFF,
        _ => v & 0xFF,
    }
}

/// A load into D[rd] from `addr`, after which `after` updates address registers.
pub open spec fn spec_load_at(s: CpuView, m: Map<int, u8>, d: Decoded, addr: u32, after: CpuView) -> StepResult {
    if addr % align_of(d.op) != 0 {
        (s, m, Err(Trap::Unaligned { addr }))
    } else {
        match load_value(d.op, m, addr) {
            Err(e) => (s, m, Err(Trap::Bus { addr, source: e })),
            Ok(v) => (with_d(after, d.rd as int, v), m, Ok(())),
        }
    }
}

/// A store of D[rs2] to `addr`, after which `after` is the new state.
pub open spec fn spec_store_at(s: CpuView, m: Map<int, u8>, d: Decoded, addr: u32, after: CpuView) -> StepResult {
    let n = store_width(d.op);
    if addr % align_of(d.op) != 0 {
        (s, m, Err(Trap::Unaligned { addr }))
    } else if !mapped(m, addr, n) {
        (s, m, Err(Trap::Bus { addr, source: BusError { addr } }))
    } else {
        (after, store(m, addr, n, store_value(d.op, s.gpr[d.rs2 as int])), Ok(()))
    }
}

pub open spec fn is_plain_load(op: Op) -> bool {
    op == Op::LdW || op == Op::LdB || op == Op::LdBu || op == Op::LdH || op == Op::LdHu
}

pub open spec fn is_plain_store(op: Op) -> bool {
    op == Op::StW || op == Op::StB || op == Op::StH
}

/// The low 16 bits of `x` in reverse order.
pub open spec fn rev16(x: u32) -> u32 {
    ((x >> 15u32) & 1) | (((x >> 14u32) & 1) << 1u32) | (((x >> 13u32) & 1) << 2u32) | (((x >> 12u32)
        & 1) << 3u32) | (((x >> 11u32) & 1) << 4u32) | (((x >> 10u32) & 1) << 5u32) | (((x >> 9u32)
        & 1) << 6u32) | (((x >> 8u32) & 1) << 7u32) | (((x >> 7u32) & 1) << 8u32) | (((x >> 6u32)
        & 1) << 9u32) | (((x >> 5u32) & 1) << 10u32) | (((x >> 4u32) & 1) << 11u32) | (((x
        >> 3u32) & 1) << 12u32) | (((x >> 2u32) & 1) << 13u32) | (((x >> 1u32) & 1) << 14u32) | ((x
        & 1) << 15u32)
}

/// Bit-reverse addressing: A[b+1] holds {incr, index}; the index advances by
/// adding incr in bit-reversed order.
pub open spec fn pbr_next(ab1: u32) -> u32 {
    let index = ab1 & 0xFFFF;
    let incr = ab1 >> 16u32;
    ((incr & 0xFFFF) << 16u32) | (rev16(wadd(rev16(index), rev16(incr))) & 0xFFFF)
}

/// A 32-bit signed sum, wrapped into the i32 range.
pub open spec fn wrap_i32(x: int) -> int {
    if x > i32::MAX {
        x - 0x1_0000_0000
    } else if x < i32::MIN {
        x + 0x1_0000_0000
    } else {
        x
    }
}

/// Circular addressing: the index moves by the signed offset and wraps into
/// [0, length) when a length is set.
pub open spec fn circ_index(index: int, length: int, off: u32) -> int {
    let ni = wrap_i32(index + signed(off));
    if length != 0 {
        if ni < 0 {
            ni + length
        } else {
            ni % length
        }
    } else {
        ni
    }
}

/// A[b+1] after a circular access: {length, new index mod 2^16}.
pub open spec fn pcir_next(ab1: u32, off: u32) -> u32 {
    let length = ab1 >> 16u32;
    let index = ab1 & 0xFFFF;
    ((length << 16u32) | ((circ_index(index as int, length as int, off) % 65536) as u32)) as u32
}

/// Index of the partner register A[b+1] of a P[b] pair.
pub open spec fn pair(b: u8) -> int {
    ((b + 1) % 16) as int
}

pub open spec fn is_pbr(op: Op) -> bool {
    op == Op::LdWPbr || op == Op::LdBPbr || op == Op::LdBUPbr || op == Op::LdHPbr || op == Op::LdHUPbr
        || op == Op::StWPbr || op == Op::StBPbr || op == Op::StHPbr
}

pub open spec fn is_pcir(op: Op) -> bool {
    op == Op::LdBPcir || op == Op::LdBUPcir || op == Op::LdHPcir || op == Op::LdHUPcir
        || op == Op::StBPcir || op == Op::StHPcir || op == Op::StWPcir
}

pub open spec fn is_pb_store(op: Op) -> bool {
    op == Op::StWPbr || op == Op::StBPbr || op == Op::StHPbr || op == Op::StBPcir || op == Op::StHPcir
        || op == Op::StWPcir
}

/// Bit-reverse and circular accesses other than the circular word load.
pub open spec fn spec_pb(s: CpuView, m: Map<int, u8>, d: Decoded) -> StepResult {
    let ab = s.a[d.rs1 as int];
    let ab1 = s.a[pair(d.rs1)];
    let addr = wadd(ab, ab1 & 0xFFFF);
    let next = if is_pbr(d.op) { pbr_next(ab1) } else { pcir_next(ab1, d.imm) };
    let after = with_a(s, pair(d.rs1), next);
    if is_pb_store(d.op) {
        spec_store_at(s, m, d, addr, after)
    } else {
        spec_load_at(s, m, d, addr, after)
    }
}

/// LD.W with circular addressing: two halfwords, the second one at the
/// index that follows (mod length).
pub open spec fn spec_ldw_pcir(s: CpuView, m: Map<int, u8>, d: Decoded) -> StepResult {
    let ab = s.a[d.rs1 as int];
    let ab1 = s.a[pair(d.rs1)];
    let index = ab1 & 0xFFFF;
    let length = ab1 >> 16u32;
    let ea0 = wadd(ab, index);
    let i2: u32 = if length != 0 { ((index + 2) % (length as int)) as u32 } else { (index + 2) as u32 };
    let ea2 = wadd(ab, i2);
    if ea0 % 2 != 0 || ea2 % 2 != 0 {
        (s, m, Err(Trap::Unaligned { addr: if ea0 % 2 != 0 { ea0 } else { ea2 } }))
    } else {
        match (load_u16(m, ea0), load_u16(m, ea2)) {
            (Err(e), _) => (s, m, Err(Trap::Bus { addr: ea0, source: e })),
            (Ok(_), Err(e)) => (s, m, Err(Trap::Bus { addr: ea2, source: e })),
            (Ok(lo), Ok(hi)) => (
                with_a(with_d(s, d.rd as int, ((hi as u32) * 65536 + lo as u32) as u32), pair(d.rs1), pcir_next(ab1, d.imm)),
                m,
                Ok(()),
            ),
        }
    }
}

/// Whether a branch is taken.
pub open spec fn branch_taken(s: CpuView, d: Decoded) -> bool {
    let x = s.gpr[d.rs1 as int];
    let y = s.gpr[d.rs2 as int];
    let ax = s.a[d.rs1 as int];
    let ay = s.a[d.rs2 as int];
    match d.op {
        Op::J => true,
        Op::Jeq => x == y,
        Op::Jne | Op::Bne => x != y,
        Op::JeqImm => x == d.imm2,
        Op::JneImm => x != d.imm2,
        Op::JeqA => ax == ay,
        Op::JneA => ax != ay,
        Op::JzA => ax == 0,
        Op::JnzA => ax != 0,
        Op::Jge => signed(x) >= signed(y),
        Op::JgeU => x >= y,
        Op::JgeImm => signed(x) >= signed(d.imm2),
        Op::JgeUImm => x >= d.imm2,
        Op::Jlt => signed(x) < signed(y),
        Op::JltU => x < y,
        Op::JltImm => signed(x) < signed(d.imm2),
        Op::JltUImm => x < d.imm2,
        _ => false,
    }
}

pub open spec fn is_branch(op: Op) -> bool {
    op == Op::J || op == Op::Jeq || op == Op::Jne || op == Op::Bne || op == Op::JeqImm
        || op == Op::JneImm || op == Op::JeqA || op == Op::JneA || op == Op::JzA || op == Op::JnzA
        || op == Op::Jge || op == Op::JgeU || op == Op::JgeImm || op == Op::JgeUImm || op == Op::Jlt
        || op == Op::JltU || op == Op::JltImm || op == Op::JltUImm
}

/// The integer executor's semantics. Operations it does not implement
/// (shifts, min/max, multiply/divide, compares, flag branches, calls and
/// returns) leave the state unchanged.
pub open spec fn int_exec(s: CpuView, m: Map<int, u8>, d: Decoded) -> StepResult {
    if is_alu(d.op) {
        (spec_alu(s, d), m, Ok(()))
    } else if is_plain_load(d.op) {
        let addr = ea(s, d);
        spec_load_at(s, m, d, addr, write_back(s, d, addr))
    } else if is_plain_store(d.op) {
        let addr = ea(s, d);
        spec_store_at(s, m, d, addr, write_back(s, d, addr))
    } else if d.op == Op::LdWPcir {
        spec_ldw_pcir(s, m, d)
    } else if is_pbr(d.op) || is_pcir(d.op) {
        spec_pb(s, m, d)
    } else if is_branch(d.op) {
        if branch_taken(s, d) {
            (CpuView { pc: wadd(s.pc, d.imm), ..s }, m, Ok(()))
        } else {
            (s, m, Ok(()))
        }
    } else {
        match d.op {
            Op::Mov => (with_d(s, d.rd as int, s.gpr[d.rs1 as int]), m, Ok(())),
            Op::MovI => (with_d(s, d.rd as int, d.imm), m, Ok(())),
            Op::MovHA => (with_a(s, d.rd as int, d.imm), m, Ok(())),
            Op::Lea => (
                with_a(s, d.rd as int, if d.abs { d.imm } else { wadd(s.a[d.rs1 as int], d.imm) }),
                m,
                Ok(()),
            ),
            Op::Syscall => (s, m, Err(Trap::Break)),
            _ => (s, m, Ok(())),
        }
    }
}

// ----------------------------------------------------------------------------
// Implementation.
// ----------------------------------------------------------------------------

impl Cpu {
    fn set_d(&mut self, i: u8, v: u32)
        requires
            i < 16,
        ensures
            final(self)@ == with_d(old(self)@, i as int, v),
    {
        self.gpr[i as usize] = v;
        assert(self@.gpr =~= old(self)@.gpr.update(i as int, v));
    }

    fn set_a(&mut self, i: usize, v: u32)
        requires
            i < 16,
        ensures
            final(self)@ == with_a(old(self)@, i as int, v),
    {
        self.a[i] = v;
        assert(self@.a =~= old(self)@.a.update(i as int, v));
    }
}

fn set_arith_flags(cpu: &mut Cpu, res: u32, carry: bool, ov: bool)
    ensures
        final(cpu)@ == with_psw(old(cpu)@, psw_arith(old(cpu)@.psw, res, carry, ov)),
{
    cpu.psw.set(PSW_Z, res == 0);
    cpu.psw.set(PSW_N, res >= 0x8000_0000);
    cpu.psw.set(PSW_C, carry);
    cpu.psw.set(PSW_V, ov);
    if ov {
        cpu.psw.insert(PSW_SV);
    }
    let av = ((res >> 31) & 1) ^ ((res >> 30) & 1) == 1;
    cpu.psw.set(PSW_AV, av);
    if av {
        cpu.psw.insert(PSW_SAV);
    }
}

fn set_zn_flags(cpu: &mut Cpu, res: u32)
    ensures
        final(cpu)@ == with_psw(old(cpu)@, psw_zn(old(cpu)@.psw, res)),
{
    cpu.psw.set(PSW_Z, res == 0);
    cpu.psw.set(PSW_N, res >= 0x8000_0000);
}

fn exec_alu(cpu: &mut Cpu, d: Decoded)
    requires
        d.wf(),
        is_alu(d.op),
    ensures
        final(cpu)@ == spec_alu(old(cpu)@, d),
{
    let a = cpu.gpr[d.rs1 as usize];
    let b = if d.rs2 != 0 { cpu.gpr[d.rs2 as usize] } else { d.imm };
    match d.op {
        Op::Add | Op::Addx => {
            let res = a.wrapping_add(b);
            let carry = res < a;
            let ov = ((a ^ res) & (b ^ res)) >> 31 == 1;
            cpu.set_d(d.rd, res);
            set_arith_flags(cpu, res, carry, ov);
        },
        Op::Addc => {
            let cin: u32 = if cpu.psw.contains(PSW_C) { 1 } else { 0 };
            let tmp = a.wrapping_add(b);
            let c1 = tmp < a;
            let res = tmp.wrapping_add(cin);
            let c2 = res < tmp;
            let carry = c1 || c2;
            // the overflow test of ADDC compares the unsigned sum with i32::MAX
            let ov = c1 || c2 || res > 0x7FFF_FFFF;
            cpu.set_d(d.rd, res);
            set_arith_flags(cpu, res, carry, ov);
        },
        Op::Sub => {
            let (res, borrow) = if d.rs2 != 0 {
                let y = cpu.gpr[d.rs2 as usize];
                (a.wrapping_sub(y), a < y)
            } else {
                (d.imm.wrapping_sub(a), d.imm < a)
            };
            cpu.set_d(d.rd, res);
            let bs = if d.rs2 != 0 { cpu.gpr[d.rs2 as usize] } else { d.imm };
            let ov = ((a ^ bs) & (a ^ res)) >> 31 == 1;
            set_arith_flags(cpu, res, borrow, ov);
        },
        Op::And => {
            cpu.set_d(d.rd, a & b);
            set_zn_flags(cpu, a & b);
        },
        Op::Or => {
            cpu.set_d(d.rd, a | b);
            set_zn_flags(cpu, a | b);
        },
        _ => {
            cpu.set_d(d.rd, a ^ b);
            set_zn_flags(cpu, a ^ b);
        },
    }
}

fn pair_of(b: u8) -> (r: usize)
    requires
        b < 16,
    ensures
        r == pair(b),
        r < 16,
{
    if b == 15 { 0 } else { (b + 1) as usize }
}

/// Alignment check and read of the value a load puts in its register.
fn load_at<B: Bus>(bus: &mut B, op: Op, addr: u32) -> (r: Result<u32, Trap>)
    ensures
        final(bus).bytes() == old(bus).bytes(),
        r == (if addr % align_of(op) != 0 {
            Err(Trap::Unaligned { addr })
        } else {
            match load_value(op, old(bus).bytes(), addr) {
                Ok(v) => Ok(v),
                Err(e) => Err(Trap::Bus { addr, source: e }),
            }
        }),
{
    let align: u32 = match op {
        Op::LdW | Op::StW | Op::LdWPbr | Op::StWPbr | Op::StWPcir => 4,
        Op::LdH | Op::LdHu | Op::StH | Op::LdHPbr | Op::LdHUPbr | Op::StHPbr | Op::LdHPcir
        | Op::LdHUPcir | Op::StHPcir => 2,
        _ => 1,
    };
    if addr % align != 0 {
        return Err(Trap::Unaligned { addr });
    }
    let v = match op {
        Op::LdW | Op::LdWPbr => bus.read_u32(addr),
        Op::LdH | Op::LdHPbr | Op::LdHPcir => match bus.read_u16(addr) {
            Ok(h) => Ok(sign_ext(h as u32, 16)),
            Err(e) => Err(e),
        },
        Op::LdHu | Op::LdHUPbr | Op::LdHUPcir => match bus.read_u16(addr) {
            Ok(h) => Ok(h as u32),
            Err(e) => Err(e),
        },
        Op::LdB | Op::LdBPbr | Op::LdBPcir => match bus.read_u8(addr) {
            Ok(b) => Ok(sign_ext(b as u32, 8)),
            Err(e) => Err(e),
        },
        _ => match bus.read_u8(addr) {
            Ok(b) => Ok(b as u32),
            Err(e) => Err(e),
        },
    };
    match v {
        Ok(v) => Ok(v),
        Err(e) => Err(Trap::Bus { addr, source: e }),
    }
}

/// Alignment check and write of the part of `v` a store writes.
fn store_at<B: Bus>(bus: &mut B, op: Op, addr: u32, v: u32) -> (r: Result<(), Trap>)
    ensures
        addr % align_of(op) != 0 ==> r == Err::<(), Trap>(Trap::Unaligned { addr })
            && final(bus).bytes() == old(bus).bytes(),
        addr % align_of(op) == 0 && !mapped(old(bus).bytes(), addr, store_width(op)) ==> r
            == Err::<(), Trap>(Trap::Bus { addr, source: BusError { addr } })
            && final(bus).bytes() == old(bus).bytes(),
        addr % align_of(op) == 0 && mapped(old(bus).bytes(), addr, store_width(op)) ==> r
            == Ok::<(), Trap>(()) && final(bus).bytes() == store(
            old(bus).bytes(),
            addr,
            store_width(op),
            store_value(op, v),
        ),
{
    let align: u32 = match op {
        Op::LdW | Op::StW | Op::LdWPbr | Op::StWPbr | Op::StWPcir => 4,
        Op::LdH | Op::LdHu | Op::StH | Op::LdHPbr | Op::LdHUPbr | Op::StHPbr | Op::LdHPcir
        | Op::LdHUPcir | Op::StHPcir => 2,
        _ => 1,
    };
    if addr % align != 0 {
        return Err(Trap::Unaligned { addr });
    }
    let r = match op {
        Op::StW | Op::StWPbr | Op::StWPcir => bus.write_u32(addr, v),
        Op::StH | Op::StHPbr | Op::StHPcir => {
            proof {
                crate::bits::lemma_and_le(v, 0xFFFF);
            }
            bus.write_u16(addr, (v & 0xFFFF) as u16)
        },
        _ => {
            proof {
                crate::bits::lemma_and_le(v, 0xFF);
            }
            bus.write_u8(addr, (v & 0xFF) as u8)
        },
    };
    match r {
        Ok(()) => Ok(()),
        Err(e) => Err(Trap::Bus { addr, source: e }),
    }
}

fn exec_plain<B: Bus>(cpu: &mut Cpu, bus: &mut B, d: Decoded) -> (r: Result<(), Trap>)
    requires
        d.wf(),
        is_plain_load(d.op) || is_plain_store(d.op),
    ensures
        (final(cpu)@, final(bus).bytes(), r) == (if is_plain_load(d.op) {
            spec_load_at(old(cpu)@, old(bus).bytes(), d, ea(old(cpu)@, d), write_back(old(cpu)@, d, ea(old(cpu)@, d)))
        } else {
            spec_store_at(old(cpu)@, old(bus).bytes(), d, ea(old(cpu)@, d), write_back(old(cpu)@, d, ea(old(cpu)@, d)))
        }),
{
    let base = cpu.a[d.rs1 as usize];
    let addr = if d.abs {
        d.imm
    } else if d.wb && !d.pre {
        base
    } else {
        base.wrapping_add(d.imm)
    };
    let is_load = match d.op {
        Op::LdW | Op::LdB | Op::LdBu | Op::LdH | Op::LdHu => true,
        _ => false,
    };
    if is_load {
        match load_at(bus, d.op, addr) {
            Err(t) => Err(t),
            Ok(v) => {
                cpu.set_d(d.rd, v);
                if !d.abs && d.wb {
                    cpu.set_a(d.rs1 as usize, if d.pre { addr } else { addr.wrapping_add(d.imm) });
                }
                Ok(())
            },
        }
    } else {
        let v = cpu.gpr[d.rs2 as usize];
        match store_at(bus, d.op, addr, v) {
            Err(t) => Err(t),
            Ok(()) => {
                if !d.abs && d.wb {
                    cpu.set_a(d.rs1 as usize, if d.pre { addr } else { addr.wrapping_add(d.imm) });
                }
                Ok(())
            },
        }
    }
}

fn rev16_of(x: u32) -> (r: u32)
    ensures
        r == rev16(x),
{
    ((x >> 15) & 1) | (((x >> 14) & 1) << 1) | (((x >> 13) & 1) << 2) | (((x >> 12) & 1) << 3) | (((x
        >> 11) & 1) << 4) | (((x >> 10) & 1) << 5) | (((x >> 9) & 1) << 6) | (((x >> 8) & 1) << 7)
        | (((x >> 7) & 1) << 8) | (((x >> 6) & 1) << 9) | (((x >> 5) & 1) << 10) | (((x >> 4) & 1)
        << 11) | (((x >> 3) & 1) << 12) | (((x >> 2) & 1) << 13) | (((x >> 1) & 1) << 14) | ((x
        & 1) << 15)
}

fn pbr_next_of(ab1: u32) -> (r: u32)
    ensures
        r == pbr_next(ab1),
{
    let index = ab1 & 0xFFFF;
    let incr = ab1 >> 16;
    ((incr & 0xFFFF) << 16) | (rev16_of(rev16_of(index).wrapping_add(rev16_of(incr))) & 0xFFFF)
}

proof fn lemma_low16(x: u32)
    ensures
        x & 0xFFFF == x % 65536,
{
    assert(x & 0xFFFF == x % 65536) by (bit_vector);
}

fn pcir_next_of(ab1: u32, off: u32) -> (r: u32)
    ensures
        r == pcir_next(ab1, off),
{
    let length = ab1 >> 16;
    let index = ab1 & 0xFFFF;
    proof {
        crate::bits::lemma_and_le(ab1, 0xFFFF);
        assert(ab1 >> 16u32 <= 0xFFFF) by (bit_vector);
    }
    let nb = index.wrapping_add(off);
    let ghost ni = wrap_i32(index + signed(off));
    assert(signed(nb) == ni);
    let nb2 = if length != 0 {
        if nb >= 0x8000_0000 {
            nb.wrapping_add(length)
        } else {
            nb % length
        }
    } else {
        nb
    };
    let ghost ci = circ_index(index as int, length as int, off);
    proof {
        lemma_low16(nb2);
        if length != 0 {
            if nb >= 0x8000_0000 {
                assert(ci == ni + length);
                assert(nb2 as int == ci || nb2 as int == ci + 0x1_0000_0000);
            } else {
                assert(ci == nb % length);
                assert(nb2 as int == ci);
            }
        } else {
            assert(nb2 as int == ci || nb2 as int == ci + 0x1_0000_0000);
        }
        assert(nb2 % 65536 == ci % 65536);
    }
    (length << 16) | (nb2 & 0xFFFF)
}

fn exec_pb<B: Bus>(cpu: &mut Cpu, bus: &mut B, d: Decoded) -> (r: Result<(), Trap>)
    requires
        d.wf(),
        is_pbr(d.op) || is_pcir(d.op),
    ensures
        (final(cpu)@, final(bus).bytes(), r) == spec_pb(old(cpu)@, old(bus).bytes(), d),
{
    let bi = pair_of(d.rs1);
    let ab = cpu.a[d.rs1 as usize];
    let ab1 = cpu.a[bi];
    let addr = ab.wrapping_add(ab1 & 0xFFFF);
    let pbr = match d.op {
        Op::LdWPbr | Op::LdBPbr | Op::LdBUPbr | Op::LdHPbr | Op::LdHUPbr | Op::StWPbr | Op::StBPbr
        | Op::StHPbr => true,
        _ => false,
    };
    let next = if pbr { pbr_next_of(ab1) } else { pcir_next_of(ab1, d.imm) };
    let store = match d.op {
        Op::StWPbr | Op::StBPbr | Op::StHPbr | Op::StBPcir | Op::StHPcir | Op::StWPcir => true,
        _ => false,
    };
    if store {
        let v = cpu.gpr[d.rs2 as usize];
        match store_at(bus, d.op, addr, v) {
            Err(t) => Err(t),
            Ok(()) => {
                cpu.set_a(bi, next);
                Ok(())
            },
        }
    } else {
        match load_at(bus, d.op, addr) {
            Err(t) => Err(t),
            Ok(v) => {
                cpu.set_d(d.rd, v);
                cpu.set_a(bi, next);
                Ok(())
            },
        }
    }
}

fn exec_ldw_pcir<B: Bus>(cpu: &mut Cpu, bus: &mut B, d: Decoded) -> (r: Result<(), Trap>)
    requires
        d.wf(),
    ensures
        (final(cpu)@, final(bus).bytes(), r) == spec_ldw_pcir(old(cpu)@, old(bus).bytes(), d),
{
    let bi = pair_of(d.rs1);
    let ab = cpu.a[d.rs1 as usize];
    let ab1 = cpu.a[bi];
    let index = ab1 & 0xFFFF;
    let length = ab1 >> 16;
    proof {
        crate::bits::lemma_and_le(ab1, 0xFFFF);
    }
    let ea0 = ab.wrapping_add(index);
    let i2 = if length != 0 { (index + 2) % length } else { index + 2 };
    let ea2 = ab.wrapping_add(i2);
    if ea0 % 2 != 0 || ea2 % 2 != 0 {
        return Err(Trap::Unaligned { addr: if ea0 % 2 != 0 { ea0 } else { ea2 } });
    }
    let lo = match bus.read_u16(ea0) {
        Ok(v) => v,
        Err(e) => return Err(Trap::Bus { addr: ea0, source: e }),
    };
    let hi = match bus.read_u16(ea2) {
        Ok(v) => v,
        Err(e) => return Err(Trap::Bus { addr: ea2, source: e }),
    };
    assert(((hi as u32) << 16u32) | (lo as u32) == ((hi as u32) * 65536 + lo as u32) as u32) by (bit_vector);
    cpu.set_d(d.rd, ((hi as u32) << 16) | (lo as u32));
    cpu.set_a(bi, pcir_next_of(ab1, d.imm));
    Ok(())
}

/// Signed comparison `x >= y` of two words.
fn signed_ge(x: u32, y: u32) -> (r: bool)
    ensures
        r == (signed(x) >= signed(y)),
{
    let xn = x >= 0x8000_0000;
    let yn = y >= 0x8000_0000;
    if xn != yn {
        yn
    } else {
        x >= y
    }
}

fn branch_cond(cpu: &Cpu, d: Decoded) -> (r: bool)
    requires
        d.wf(),
    ensures
        r == branch_taken(cpu@, d),
{
    let x = cpu.gpr[d.rs1 as usize];
    let y = cpu.gpr[d.rs2 as usize];
    let ax = cpu.a[d.rs1 as usize];
    let ay = cpu.a[d.rs2 as usize];
    match d.op {
        Op::J => true,
        Op::Jeq => x == y,
        Op::Jne | Op::Bne => x != y,
        Op::JeqImm => x == d.imm2,
        Op::JneImm => x != d.imm2,
        Op::JeqA => ax == ay,
        Op::JneA => ax != ay,
        Op::JzA => ax == 0,
        Op::JnzA => ax != 0,
        Op::Jge => signed_ge(x, y),
        Op::JgeU => x >= y,
        Op::JgeImm => signed_ge(x, d.imm2),
        Op::JgeUImm => x >= d.imm2,
        Op::Jlt => !signed_ge(x, y),
        Op::JltU => x < y,
        Op::JltImm => !signed_ge(x, d.imm2),
        Op::JltUImm => x < d.imm2,
        _ => false,
    }
}

impl Executor for IntExecutor {
    open spec fn spec_exec(&self, s: CpuView, m: Map<int, u8>, d: Decoded) -> StepResult {
        int_exec(s, m, d)
    }

    fn exec<B: Bus>(&self, cpu: &mut Cpu, bus: &mut B, d: Decoded) -> (r: Result<(), Trap>) {
        match d.op {
            Op::Add | Op::Addx | Op::Addc | Op::Sub | Op::And | Op::Or | Op::Xor => {
                exec_alu(cpu, d);
                Ok(())
            },
            Op::LdW | Op::LdB | Op::LdBu | Op::LdH | Op::LdHu | Op::StW | Op::StB | Op::StH => {
                exec_plain(cpu, bus, d)
            },
            Op::LdWPcir => exec_ldw_pcir(cpu, bus, d),
            Op::LdWPbr | Op::LdBPbr | Op::LdBUPbr | Op::LdHPbr | Op::LdHUPbr | Op::StWPbr
            | Op::StBPbr | Op::StHPbr | Op::LdBPcir | Op::LdBUPcir | Op::LdHPcir | Op::LdHUPcir
            | Op::StBPcir | Op::StHPcir | Op::StWPcir => exec_pb(cpu, bus, d),
            Op::J | Op::Jeq | Op::Jne | Op::Bne | Op::JeqImm | Op::JneImm | Op::JeqA | Op::JneA
            | Op::JzA | Op::JnzA | Op::Jge | Op::JgeU | Op::JgeImm | Op::JgeUImm | Op::Jlt
            | Op::JltU | Op::JltImm | Op::JltUImm => {
                if branch_cond(cpu, d) {
                    cpu.pc = cpu.pc.wrapping_add(d.imm);
                }
                Ok(())
            },
            Op::Mov => {
                let v = cpu.gpr[d.rs1 as usize];
                cpu.set_d(d.rd, v);
                Ok(())
            },
            Op::MovI => {
                cpu.set_d(d.rd, d.imm);
                Ok(())
            },
            Op::MovHA => {
                cpu.set_a(d.rd as usize, d.imm);
                Ok(())
            },
            Op::Lea => {
                let v = if d.abs { d.imm } else { cpu.a[d.rs1 as usize].wrapping_add(d.imm) };
                cpu.set_a(d.rd as usize, v);
                Ok(())
            },
            Op::Syscall => Err(Trap::Break),
            // not implemented by this executor: no effect
            _ => Ok(()),
        }
    }
}

// ----------------------------------------------------------------------------
// Laws of the executor.
// ----------------------------------------------------------------------------

/// Reversing the low 16 bits twice gives them back.
pub proof fn lemma_rev16_involutive(x: u32)
    ensures
        rev16(rev16(x)) == x & 0xFFFF,
        rev16(x) <= 0xFFFF,
{
    assert(rev16(rev16(x)) == x & 0xFFFF && rev16(x) <= 0xFFFF) by (bit_vector);
}

/// Bit-reverse addressing keeps the increment in A[b+1]; with a zero
/// increment the index, and so the whole register, stays as it is.
pub proof fn lemma_pbr_next(ab1: u32)
    ensures
        pbr_next(ab1) >> 16u32 == ab1 >> 16u32,
        ab1 >> 16u32 == 0 ==> pbr_next(ab1) == ab1,
{
    let index = ab1 & 0xFFFF;
    let incr = ab1 >> 16u32;
    let x = rev16(wadd(rev16(index), rev16(incr)));
    assert(((incr & 0xFFFF) << 16u32) | (x & 0xFFFF) == pbr_next(ab1));
    assert((((incr & 0xFFFF) << 16u32) | (x & 0xFFFF)) >> 16u32 == incr) by (bit_vector)
        requires incr == ab1 >> 16u32;
    if incr == 0 {
        lemma_rev16_involutive(index);
        assert(rev16(0) == 0) by (bit_vector);
        assert(wadd(rev16(index), 0) == rev16(index));
        assert(x == index & 0xFFFF) by (bit_vector)
            requires x == rev16(rev16(index)), rev16(rev16(index)) == index & 0xFFFF;
        assert((((incr & 0xFFFF) << 16u32) | (x & 0xFFFF)) == ab1) by (bit_vector)
            requires incr == ab1 >> 16u32, incr == 0, x == index & 0xFFFF, index == ab1 & 0xFFFF;
    }
}

/// Circular addressing keeps the buffer length in A[b+1] and stores the new
/// index in the low half; when the index moves by at most one buffer length
/// below zero, it lands inside the buffer [0, length).
pub proof fn lemma_circ_index(ab1: u32, off: u32)
    ensures
        pcir_next(ab1, off) >> 16u32 == ab1 >> 16u32,
        pcir_next(ab1, off) & 0xFFFF == circ_index((ab1 & 0xFFFF) as int, (ab1 >> 16u32) as int, off) % 65536,
        ({
            let index = (ab1 & 0xFFFF) as int;
            let length = (ab1 >> 16u32) as int;
            length != 0 && index + signed(off) >= -length && index + signed(off) <= i32::MAX
                ==> 0 <= circ_index(index, length, off) < length
        }),
{
    let length = ab1 >> 16u32;
    let c = (circ_index((ab1 & 0xFFFF) as int, length as int, off) % 65536) as u32;
    assert(length <= 0xFFFF) by (bit_vector)
        requires length == ab1 >> 16u32;
    assert(c < 65536);
    assert(((length << 16u32) | c) >> 16u32 == length) by (bit_vector)
        requires c < 65536, length <= 0xFFFF;
    assert(((length << 16u32) | c) & 0xFFFF == c) by (bit_vector)
        requires c < 65536, length <= 0xFFFF;
    crate::bits::lemma_and_le(ab1, 0xFFFF);
}

/// The flags an arithmetic instruction leaves: C, V, Z, N and AV describe
/// its result, SV and SAV are sticky, and every other PSW bit (E among them)
/// is untouched.
pub proof fn lemma_psw_arith(p: u32, res: u32, carry: bool, ov: bool)
    ensures
        (psw_arith(p, res, carry, ov) & PSW_C != 0) == carry,
        (psw_arith(p, res, carry, ov) & PSW_V != 0) == ov,
        (psw_arith(p, res, carry, ov) & PSW_Z != 0) == (res == 0),
        (psw_arith(p, res, carry, ov) & PSW_N != 0) == (res >= 0x8000_0000),
        (psw_arith(p, res, carry, ov) & PSW_AV != 0) == adv_overflow(res),
        (psw_arith(p, res, carry, ov) & PSW_SV != 0) == (ov || p & PSW_SV != 0),
        (psw_arith(p, res, carry, ov) & PSW_SAV != 0) == (adv_overflow(res) || p & PSW_SAV != 0),
        psw_arith(p, res, carry, ov) & !0xEFu32 == p & !0xEFu32,
{
    let av = adv_overflow(res);
    let q = psw_arith(p, res, carry, ov);
    assert(q == {
        let p1 = psw_with(psw_with(psw_with(psw_with(p, 4, res == 0), 8, res >= 0x8000_0000), 1, carry), 2, ov);
        let p2 = if ov { p1 | 0x20 } else { p1 };
        let p3 = psw_with(p2, 0x40, av);
        if av { p3 | 0x80 } else { p3 }
    });
    assert((q & 1 != 0) == carry && (q & 2 != 0) == ov && (q & 4 != 0) == (res == 0) && (q & 8 != 0)
        == (res >= 0x8000_0000) && (q & 0x40 != 0) == av && (q & 0x20 != 0) == (ov || p & 0x20 != 0)
        && (q & 0x80 != 0) == (av || p & 0x80 != 0) && q & !0xEFu32 == p & !0xEFu32) by (bit_vector)
        requires
            q == {
                let p1 = (if ov { (if carry { (if res >= 0x8000_0000 { (if res == 0 { p | 4 } else { p & !4u32 }) | 8 } else { (if res == 0 { p | 4 } else { p & !4u32 }) & !8u32 }) | 1 } else { (if res >= 0x8000_0000 { (if res == 0 { p | 4 } else { p & !4u32 }) | 8 } else { (if res == 0 { p | 4 } else { p & !4u32 }) & !8u32 }) & !1u32 }) | 2 } else { (if carry { (if res >= 0x8000_0000 { (if res == 0 { p | 4 } else { p & !4u32 }) | 8 } else { (if res == 0 { p | 4 } else { p & !4u32 }) & !8u32 }) | 1 } else { (if res >= 0x8000_0000 { (if res == 0 { p | 4 } else { p & !4u32 }) | 8 } else { (if res == 0 { p | 4 } else { p & !4u32 }) & !8u32 }) & !1u32 }) & !2u32 });
                let p2 = if ov { p1 | 0x20 } else { p1 };
                let p3 = if av { p2 | 0x40 } else { p2 & !0x40u32 };
                if av { p3 | 0x80 } else { p3 }
            };
}

/// The overflow flag of ADD is signed overflow: the sum of the operands read
/// as signed words leaves the i32 range.
pub proof fn lemma_add_overflow(a: u32, b: u32)
    ensures
        add_overflow(a, b, wadd(a, b)) <==> (signed(a) + signed(b) > i32::MAX || signed(a) + signed(b)
            < i32::MIN),
{
    let r = wadd(a, b);
    assert((add_overflow(a, b, r) <==> (a >> 31u32 != r >> 31u32 && b >> 31u32 != r >> 31u32)) && (a >> 31u32
        == 1 <==> a >= 0x8000_0000) && (b >> 31u32 == 1 <==> b >= 0x8000_0000) && (r >> 31u32 == 1 <==> r
        >= 0x8000_0000) && a >> 31u32 <= 1 && b >> 31u32 <= 1 && r >> 31u32 <= 1) by (bit_vector);
}

/// A trapping instruction has no effect: state and memory are as before.
pub proof fn lemma_trap_has_no_effect(s: CpuView, m: Map<int, u8>, d: Decoded)
    ensures
        int_exec(s, m, d).2 is Err ==> int_exec(s, m, d).0 == s && int_exec(s, m, d).1 == m,
{
}

/// A halfword or word load or store at an address that is not a multiple of
/// its size traps with that address and changes nothing.
pub proof fn lemma_unaligned_traps(s: CpuView, m: Map<int, u8>, d: Decoded)
    requires
        is_plain_load(d.op) || is_plain_store(d.op),
        ea(s, d) % align_of(d.op) != 0,
    ensures
        int_exec(s, m, d) == (s, m, Err::<(), Trap>(Trap::Unaligned { addr: ea(s, d) })),
{
}

/// Only stores change memory.
pub proof fn lemma_only_stores_write(s: CpuView, m: Map<int, u8>, d: Decoded)
    ensures
        !is_plain_store(d.op) && !is_pb_store(d.op) ==> int_exec(s, m, d).1 == m,
{
}

/// Only a taken jump or branch moves PC; every other instruction leaves it
/// where the fetch put it.
pub proof fn lemma_exec_pc(s: CpuView, m: Map<int, u8>, d: Decoded)
    ensures
        int_exec(s, m, d).0.pc == (if is_branch(d.op) && branch_taken(s, d) && int_exec(s, m, d).2 is Ok {
            wadd(s.pc, d.imm)
        } else {
            s.pc
        }),
{
}

/// One step of the TC16 decoder with the integer executor. A fetch that the
/// bus refuses, or a word that does not decode, changes nothing at all; any
/// other trap changes neither registers, flags nor memory (PC has moved past
/// the instruction); and a completed step that is not a jump or branch leaves
/// PC just past the instruction: 2 bytes on when bit 0 of the fetched word is
/// clear, 4 when it is set.
pub proof fn lemma_step(s: CpuView, m: Map<int, u8>)
    ensures
        ({
            let r = step_spec(s, m, Tc16Decoder, IntExecutor);
            &&& r.2 is Err ==> r.1 == m && r.0.gpr == s.gpr && r.0.a == s.a && r.0.psw == s.psw
            &&& (load_u32(m, s.pc) is Err || tc16_decode(load_u32(m, s.pc)->Ok_0) is None) ==> r.0
                == s && r.1 == m && r.2 is Err
            &&& match load_u32(m, s.pc) {
                Ok(raw) => match tc16_decode(raw) {
                    Some(d) => {
                        let w: u32 = if raw & 1 == 0 { 2 } else { 4 };
                        !is_branch(d.op) && r.2 is Ok ==> r.0.pc == wadd(s.pc, w)
                    },
                    None => true,
                },
                Err(_) => true,
            }
        }),
{
    match load_u32(m, s.pc) {
        Ok(raw) => {
            lemma_decode_width(raw);
            match tc16_decode(raw) {
                Some(d) => {
                    let s1 = CpuView { pc: wadd(s.pc, d.width as u32), ..s };
                    lemma_trap_has_no_effect(s1, m, d);
                    lemma_exec_pc(s1, m, d);
                },
                None => {},
            }
        },
        Err(_) => {},
    }
}


/// What each conditional jump tests, on the registers' bits: it completes
/// without touching registers, flags or memory, and moves PC by its offset
/// exactly when its condition holds. A signed "less than" holds when only the
/// left operand has its sign bit set, or both have the same sign bit and the
/// left is the smaller word; "greater or equal" is its negation.
pub proof fn lemma_branch_conditions(s: CpuView, m: Map<int, u8>, d: Decoded)
    requires
        is_branch(d.op),
    ensures
        ({
            let r = int_exec(s, m, d);
            let x = s.gpr[d.rs1 as int];
            let y = s.gpr[d.rs2 as int];
            let k = d.imm2;
            let ax = s.a[d.rs1 as int];
            let ay = s.a[d.rs2 as int];
            let jump = wadd(s.pc, d.imm);
            let slt_xy = (x >= 0x8000_0000 && y < 0x8000_0000) || ((x >= 0x8000_0000) == (y
                >= 0x8000_0000) && x < y);
            let slt_xk = (x >= 0x8000_0000 && k < 0x8000_0000) || ((x >= 0x8000_0000) == (k
                >= 0x8000_0000) && x < k);
            &&& r.1 == m && r.2 is Ok && r.0.gpr == s.gpr && r.0.a == s.a && r.0.psw == s.psw
            &&& d.op == Op::J ==> r.0.pc == jump
            &&& d.op == Op::Jeq ==> r.0.pc == if x == y { jump } else { s.pc }
            &&& (d.op == Op::Jne || d.op == Op::Bne) ==> r.0.pc == if x != y { jump } else { s.pc }
            &&& d.op == Op::JeqImm ==> r.0.pc == if x == k { jump } else { s.pc }
            &&& d.op == Op::JneImm ==> r.0.pc == if x != k { jump } else { s.pc }
            &&& d.op == Op::JeqA ==> r.0.pc == if ax == ay { jump } else { s.pc }
            &&& d.op == Op::JneA ==> r.0.pc == if ax != ay { jump } else { s.pc }
            &&& d.op == Op::JzA ==> r.0.pc == if ax == 0 { jump } else { s.pc }
            &&& d.op == Op::JnzA ==> r.0.pc == if ax != 0 { jump } else { s.pc }
            &&& d.op == Op::Jlt ==> r.0.pc == if slt_xy { jump } else { s.pc }
            &&& d.op == Op::Jge ==> r.0.pc == if !slt_xy { jump } else { s.pc }
            &&& d.op == Op::JltU ==> r.0.pc == if x < y { jump } else { s.pc }
            &&& d.op == Op::JgeU ==> r.0.pc == if x >= y { jump } else { s.pc }
            &&& d.op == Op::JltImm ==> r.0.pc == if slt_xk { jump } else { s.pc }
            &&& d.op == Op::JgeImm ==> r.0.pc == if !slt_xk { jump } else { s.pc }
            &&& d.op == Op::JltUImm ==> r.0.pc == if x < k { jump } else { s.pc }
            &&& d.op == Op::JgeUImm ==> r.0.pc == if x >= k { jump } else { s.pc }
        }),
{
}


/// What the ALU instructions put in D[rd], as arithmetic on the operands:
/// the second operand is D[rs2], or the immediate when rs2 is 0; ADD and
/// ADDX add modulo 2^32, ADDC adds the carry flag too, SUB subtracts D[rs2]
/// (RSUB, with no second register, subtracts D[rs1] from the immediate).
/// Nothing else changes but the flags: no other register, no address
/// register, not PC, not memory.
pub proof fn lemma_alu_results(s: CpuView, m: Map<int, u8>, d: Decoded)
    requires
        is_alu(d.op),
        d.rd < s.gpr.len(),
    ensures
        ({
            let r = int_exec(s, m, d);
            let x = s.gpr[d.rs1 as int];
            let y = if d.rs2 != 0 { s.gpr[d.rs2 as int] } else { d.imm };
            let v = r.0.gpr[d.rd as int] as int;
            let c: int = if s.psw & PSW_C == PSW_C { 1 } else { 0 };
            &&& r.1 == m && r.2 is Ok && r.0.pc == s.pc && r.0.a == s.a
            &&& r.0.gpr.len() == s.gpr.len()
            &&& forall|j: int| 0 <= j < s.gpr.len() && j != d.rd ==> r.0.gpr[j] == s.gpr[j]
            &&& (d.op == Op::Add || d.op == Op::Addx) ==> v == (x + y) % 0x1_0000_0000
            &&& d.op == Op::Addc ==> v == (x + y + c) % 0x1_0000_0000
            &&& (d.op == Op::Sub && d.rs2 != 0) ==> v == (x - y) % 0x1_0000_0000
            &&& (d.op == Op::Sub && d.rs2 == 0) ==> v == (d.imm - x) % 0x1_0000_0000
            &&& d.op == Op::And ==> v == (x & y) as int
            &&& d.op == Op::Or ==> v == (x | y) as int
            &&& d.op == Op::Xor ==> v == (x ^ y) as int
        }),
{
}

/// What a load puts in D[rd]: the bytes at its effective address, least
/// significant first; a signed byte or halfword load extends the top bit of
/// what it read, an unsigned one fills with zeros. Memory does not change.
pub proof fn lemma_load_results(s: CpuView, m: Map<int, u8>, d: Decoded)
    requires
        is_plain_load(d.op),
        d.rd < s.gpr.len(),
        int_exec(s, m, d).2 is Ok,
    ensures
        ({
            let r = int_exec(s, m, d);
            let p = ea(s, d) as int;
            let v = r.0.gpr[d.rd as int] as int;
            let h = m[p] + 256 * m[p + 1];
            &&& r.1 == m
            &&& d.op == Op::LdBu ==> v == m[p]
            &&& d.op == Op::LdB ==> v == if m[p] < 0x80 { m[p] as int } else { m[p] + 0xFFFF_FF00 }
            &&& d.op == Op::LdHu ==> v == h
            &&& d.op == Op::LdH ==> v == if h < 0x8000 { h } else { h + 0xFFFF_0000 }
            &&& d.op == Op::LdW ==> v == h + 65536 * (m[p + 2] + 256 * m[p + 3])
        }),
{
    let p = ea(s, d) as int;
    lemma_low_bits(m[p] as u32);
    lemma_low_bits((m[p] + 256 * m[p + 1]) as u32);
}


/// What a store writes: the low byte, the low two bytes or all four bytes of
/// D[rs2], least significant first, at its effective address; every other
/// byte of memory and every data register stay as they were.
pub proof fn lemma_store_results(s: CpuView, m: Map<int, u8>, d: Decoded)
    requires
        is_plain_store(d.op),
        int_exec(s, m, d).2 is Ok,
    ensures
        ({
            let r = int_exec(s, m, d);
            let p = ea(s, d) as int;
            let v = s.gpr[d.rs2 as int];
            &&& r.0.gpr == s.gpr
            &&& d.op == Op::StB ==> r.1 == m.insert(p, (v % 256) as u8)
            &&& d.op == Op::StH ==> r.1 == m.insert(p, (v % 256) as u8).insert(p + 1, ((v / 256) % 256) as u8)
            &&& d.op == Op::StW ==> r.1 == m.insert(p, (v % 256) as u8).insert(p + 1, ((v / 256) % 256) as u8)
                .insert(p + 2, ((v / 65536) % 256) as u8).insert(p + 3, (v / 16777216) as u8)
        }),
{
    let v = s.gpr[d.rs2 as int];
    lemma_low_bits(v);
    let p = ea(s, d) as int;
    if d.op == Op::StH {
        assert(store(m, ea(s, d), 2, v & 0xFFFF) =~= m.insert(p, (v % 256) as u8).insert(
            p + 1,
            ((v / 256) % 256) as u8,
        ));
    }
    if d.op == Op::StW {
        assert(store(m, ea(s, d), 4, v) =~= m.insert(p, (v % 256) as u8).insert(p + 1, ((v / 256) % 256) as u8)
            .insert(p + 2, ((v / 65536) % 256) as u8).insert(p + 3, (v / 16777216) as u8));
    }
}

} // verus!
