//! Decoded-instruction shape shared by every decoder and executor.
use vstd::prelude::*;

verus! {

/// Encoding width of an instruction.
#[derive(Debug, Clone, Copy, PartialEq, Eq, Structural)]
pub enum Width {
    W16,
    W32,
}

impl Width {
    /// Width in bytes: 2 for a 16-bit encoding, 4 for a 32-bit one.
    pub fn bytes(self) -> (r: u8)
        ensures
            r == (match self {
                Width::W16 => 2u8,
                Width::W32 => 4u8,
            }),
    {
        match self {
            Width::W16 => 2,
            Width::W32 => 4,
        }
    }
}

#[derive(Debug, Clone, Copy, PartialEq, Eq, Structural)]
pub enum Op {
    Add,
    Sub,
    Mov,
    /// Move immediate (sign/zero/high forms are resolved by the decoder).
    MovI,
    /// MOVH.A: move a 16-bit constant into the high half of an address register.
    MovHA,
    /// Load effective address into an address register.
    Lea,
    And,
    Or,
    Xor,
    Shl,
    Shr,
    Sar,
    Ror,
    Andn,
    Not,
    Min,
    Max,
    MinU,
    MaxU,
    Mul,
    MulU,
    Div,
    DivU,
    /// Flag-based branches (use PSW).
    BeqF,
    BneF,
    BgeF,
    BltF,
    BgeUF,
    BltUF,
    Cmp,
    CmpU,
    CmpI,
    CmpUI,
    Addc,
    Addx,
    LdW,
    StW,
    /// P[b] addressing: bit-reverse and circular.
    LdWPbr,
    LdWPcir,
    StWPbr,
    StWPcir,
    LdBPbr,
    LdBUPbr,
    LdHPbr,
    LdHUPbr,
    LdBPcir,
    LdBUPcir,
    LdHPcir,
    LdHUPcir,
    StBPbr,
    StBPcir,
    StHPbr,
    StHPcir,
    LdB,
    LdBu,
    LdH,
    LdHu,
    StB,
    StH,
    J,
    Jeq,
    Jne,
    JeqA,
    JneA,
    JeqImm,
    JneImm,
    Jge,
    JgeU,
    JgeImm,
    JgeUImm,
    Jlt,
    JltU,
    JltImm,
    JltUImm,
    Bne,
    Call,
    CallA,
    CallI,
    Ret,
    JzA,
    JnzA,
    Syscall,
}

#[derive(Debug, Clone, Copy, PartialEq, Eq, Structural)]
pub struct Decoded {
    pub op: Op,
    /// Encoding width in bytes: 2 or 4.
    pub width: u8,
    pub rd: u8,
    pub rs1: u8,
    pub rs2: u8,
    pub imm: u32,
    /// Optional second immediate (e.g. the constant of a BRC branch).
    pub imm2: u32,
    /// When true, `imm` is an absolute effective address (no base register).
    pub abs: bool,
    /// Write the updated address back to A[rs1].
    pub wb: bool,
    /// Pre-increment when `wb` is set; post-increment otherwise.
    pub pre: bool,
}

impl Decoded {
    /// A decoded instruction names registers 0..15 and is 2 or 4 bytes wide.
    pub open spec fn wf(self) -> bool {
        &&& (self.width == 2 || self.width == 4)
        &&& self.rd < 16
        &&& self.rs1 < 16
        &&& self.rs2 < 16
    }
}

/// Turns a fetched 32-bit word (little-endian, the instruction in its low
/// bytes) into a decoded instruction, or `None` for an unknown encoding.
pub trait Decoder {
    /// What `decode` gives for a fetched word.
    spec fn spec_decode(&self, raw32: u32) -> Option<Decoded>;

    fn decode(&self, raw32: u32) -> (r: Option<Decoded>)
        ensures
            r == self.spec_decode(raw32),
            r matches Some(d) ==> d.wf(),
    ;
}

} // verus!
