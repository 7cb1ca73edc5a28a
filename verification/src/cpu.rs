//! CPU state, traps and the fetch-decode-execute step.
use vstd::prelude::*;
use crate::decoder::Decoder;
use crate::exec::Executor;
use crate::memory::{Bus, BusError, load_u32};
use crate::bits::wadd;
use crate::disasm::{addr_text, put, put_addr};

verus! {

/// Carry.
pub const PSW_C: u32 = 0x1;
/// Overflow.
pub const PSW_V: u32 = 0x2;
/// Zero.
pub const PSW_Z: u32 = 0x4;
/// Negative.
pub const PSW_N: u32 = 0x8;
/// Endianness.
pub const PSW_E: u32 = 0x10;
/// Sticky overflow.
pub const PSW_SV: u32 = 0x20;
/// Advanced overflow.
pub const PSW_AV: u32 = 0x40;
/// Sticky advanced overflow.
pub const PSW_SAV: u32 = 0x80;

#[derive(Debug, Clone, Copy, PartialEq, Eq, Structural)]
pub struct CpuConfig {
    /// TriCore is typically little-endian.
    pub little_endian: bool,
    pub has_fpu: bool,
    pub has_dsp: bool,
}

impl Default for CpuConfig {
    fn default() -> (r: Self)
        ensures
            r == (CpuConfig { little_endian: true, has_fpu: false, has_dsp: false }),
    {
        CpuConfig { little_endian: true, has_fpu: false, has_dsp: false }
    }
}

/// `p` with the bits of `mask` set when `v` holds and cleared otherwise.
pub open spec fn psw_with(p: u32, mask: u32, v: bool) -> u32 {
    if v {
        p | mask
    } else {
        p & !mask
    }
}

/// Program status word (the subset modelled here), as a set of flag bits.
#[derive(Debug, Clone, Copy, PartialEq, Eq, Structural)]
pub struct Psw {
    pub bits: u32,
}

impl Psw {
    pub fn empty() -> (r: Psw)
        ensures
            r.bits == 0,
    {
        Psw { bits: 0 }
    }

    pub fn bits(&self) -> (r: u32)
        ensures
            r == self.bits,
    {
        self.bits
    }

    /// Whether every flag of `mask` is set.
    pub fn contains(&self, mask: u32) -> (r: bool)
        ensures
            r == (self.bits & mask == mask),
    {
        self.bits & mask == mask
    }

    /// Sets the flags of `mask` when `v` holds, clears them otherwise.
    pub fn set(&mut self, mask: u32, v: bool)
        ensures
            final(self).bits == psw_with(old(self).bits, mask, v),
    {
        if v {
            self.bits = self.bits | mask;
        } else {
            self.bits = self.bits & !mask;
        }
    }

    /// Sets the flags of `mask`.
    pub fn insert(&mut self, mask: u32)
        ensures
            final(self).bits == old(self).bits | mask,
    {
        self.bits = self.bits | mask;
    }
}

#[derive(Debug, Clone)]
pub struct Cpu {
    /// Program counter.
    pub pc: u32,
    /// Program status word (subset).
    pub psw: Psw,
    /// Data registers D0..D15.
    pub gpr: [u32; 16],
    /// Address registers A0..A15.
    pub a: [u32; 16],
    pub cfg: CpuConfig,
}

/// The CPU state as a value: registers as sequences, the PSW as its bits.
pub struct CpuView {
    pub pc: u32,
    pub psw: u32,
    pub gpr: Seq<u32>,
    pub a: Seq<u32>,
    pub cfg: CpuConfig,
}

impl View for Cpu {
    type V = CpuView;

    open spec fn view(&self) -> CpuView {
        CpuView { pc: self.pc, psw: self.psw.bits, gpr: self.gpr@, a: self.a@, cfg: self.cfg }
    }
}

#[derive(Debug, Clone, Copy, PartialEq, Eq, Structural)]
pub enum Trap {
    /// No instruction decodes from the word at `pc`.
    InvalidInstruction { pc: u32 },
    /// A halfword or word access at a misaligned address.
    Unaligned { addr: u32 },
    /// The bus refused an access at `addr`.
    Bus { addr: u32, source: BusError },
    /// Breakpoint (SYSCALL).
    Break,
}

/// The text of a trap: `Invalid instruction at 0xPC`, `Unaligned access at
/// 0xADDR`, `Bus error at 0xADDR: no memory at 0xADDR`, or `Breakpoint`.
pub open spec fn trap_text(t: Trap) -> Seq<char> {
    match t {
        Trap::InvalidInstruction { pc } => "Invalid instruction at "@ + addr_text(pc),
        Trap::Unaligned { addr } => "Unaligned access at "@ + addr_text(addr),
        Trap::Bus { addr, source } => "Bus error at "@ + addr_text(addr) + ": no memory at "@ + addr_text(
            source.addr,
        ),
        Trap::Break => "Breakpoint"@,
    }
}

impl Trap {
    /// The trap as text (see `trap_text`).
    pub fn message(&self) -> (r: String)
        ensures
            r@ == trap_text(*self),
    {
        let mut s = String::new();
        match self {
            Trap::InvalidInstruction { pc } => {
                put(&mut s, "Invalid instruction at ");
                put_addr(&mut s, *pc);
            },
            Trap::Unaligned { addr } => {
                put(&mut s, "Unaligned access at ");
                put_addr(&mut s, *addr);
            },
            Trap::Bus { addr, source } => {
                put(&mut s, "Bus error at ");
                put_addr(&mut s, *addr);
                put(&mut s, ": no memory at ");
                put_addr(&mut s, source.addr);
            },
            Trap::Break => {
                put(&mut s, "Breakpoint");
            },
        }
        assert(s@ =~= trap_text(*self));
        s
    }
}

/// Outcome of one step: the state after it, the memory after it, and whether
/// it trapped.
pub type StepResult = (CpuView, Map<int, u8>, Result<(), Trap>);

/// One fetch-decode-execute step. The word at PC is fetched, decoded, PC is
/// advanced by the instruction's width and the instruction is executed; a
/// fetch or decode failure traps with nothing changed.
pub open spec fn step_spec<D: Decoder, X: Executor>(
    s: CpuView,
    m: Map<int, u8>,
    dec: D,
    exec: X,
) -> StepResult {
    match load_u32(m, s.pc) {
        Err(e) => (s, m, Err(Trap::Bus { addr: s.pc, source: e })),
        Ok(raw) => match dec.spec_decode(raw) {
            None => (s, m, Err(Trap::InvalidInstruction { pc: s.pc })),
            Some(d) => exec.spec_exec(CpuView { pc: wadd(s.pc, d.width as u32), ..s }, m, d),
        },
    }
}

/// Up to `n` steps from state `s` and memory `m`, stopping at the first
/// trap: the state and memory then, and the trap if one stopped the run.
pub open spec fn run_spec<D: Decoder, X: Executor>(
    s: CpuView,
    m: Map<int, u8>,
    dec: D,
    exec: X,
    n: nat,
) -> (CpuView, Map<int, u8>, Option<Trap>)
    decreases n,
{
    if n == 0 {
        (s, m, None)
    } else {
        let (s1, m1, r) = step_spec(s, m, dec, exec);
        match r {
            Err(t) => (s1, m1, Some(t)),
            Ok(()) => run_spec(s1, m1, dec, exec, (n - 1) as nat),
        }
    }
}

impl Cpu {
    pub fn new(cfg: CpuConfig) -> (r: Self)
        ensures
            r.pc == 0,
            r.psw.bits == 0,
            r.gpr@ == Seq::new(16, |i: int| 0u32),
            r.a@ == Seq::new(16, |i: int| 0u32),
            r.cfg == cfg,
    {
        let r = Cpu { pc: 0, psw: Psw::empty(), gpr: [0u32; 16], a: [0u32; 16], cfg };
        assert(r.gpr@ =~= Seq::new(16, |i: int| 0u32));
        assert(r.a@ =~= Seq::new(16, |i: int| 0u32));
        r
    }

    /// Sets PC; registers and flags keep their values.
    pub fn reset(&mut self, reset_pc: u32)
        ensures
            final(self)@ == (CpuView { pc: reset_pc, ..old(self)@ }),
    {
        self.pc = reset_pc;
    }

    pub fn step<B: Bus, D: Decoder, X: Executor>(&mut self, bus: &mut B, dec: &D, exec: &X) -> (r:
        Result<(), Trap>)
        ensures
            (final(self)@, final(bus).bytes(), r) == step_spec(old(self)@, old(bus).bytes(), *dec, *exec),
    {
        let pc = self.pc;
        let raw32 = match bus.read_u32(pc) {
            Ok(v) => v,
            Err(source) => return Err(Trap::Bus { addr: pc, source }),
        };
        let d = match dec.decode(raw32) {
            Some(d) => d,
            None => return Err(Trap::InvalidInstruction { pc }),
        };
        self.pc = pc.wrapping_add(d.width as u32);
        exec.exec(self, bus, d)
    }

    /// Steps until a trap, at most `max_steps` times; returns the trap that
    /// stopped the run, if any.
    pub fn run<B: Bus, D: Decoder, X: Executor>(&mut self, bus: &mut B, dec: &D, exec: &X, max_steps: u64) -> (r:
        Option<Trap>)
        ensures
            (final(self)@, final(bus).bytes(), r) == run_spec(old(self)@, old(bus).bytes(), *dec, *exec, max_steps as nat),
    {
        let mut k: u64 = 0;
        while k < max_steps
            invariant
                k <= max_steps,
                run_spec(old(self)@, old(bus).bytes(), *dec, *exec, max_steps as nat) == run_spec(
                    self@,
                    bus.bytes(),
                    *dec,
                    *exec,
                    (max_steps - k) as nat,
                ),
            decreases max_steps - k,
        {
            match self.step(bus, dec, exec) {
                Err(t) => {
                    return Some(t);
                },
                Ok(()) => {},
            }
            k = k + 1;
        }
        None
    }
}

} // verus!
