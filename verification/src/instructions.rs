//! A small descriptive table of instruction forms.
use vstd::prelude::*;
use crate::decoder::Op;

verus! {

#[derive(Debug, Clone, Copy, PartialEq, Eq, Structural)]
pub enum AddrMode {
    Reg,
    RegImm,
    PcRel,
}

#[derive(Debug, Clone, Copy)]
pub struct InstrDesc {
    pub op: Op,
    pub mnemonic: &'static str,
    pub mode: AddrMode,
}

/// Operation and addressing mode of each entry of the instruction table, in order.
pub open spec fn table_shape() -> Seq<(Op, AddrMode)> {
    seq![
        (Op::Mov, AddrMode::Reg),
        (Op::Add, AddrMode::Reg),
        (Op::Sub, AddrMode::Reg),
        (Op::LdW, AddrMode::RegImm),
        (Op::StW, AddrMode::RegImm),
        (Op::J, AddrMode::PcRel),
        (Op::Bne, AddrMode::RegImm),
        (Op::Syscall, AddrMode::Reg),
    ]
}

/// Mnemonic of each entry of the instruction table, in order.
pub open spec fn table_mnemonics() -> Seq<Seq<char>> {
    seq!["mov"@, "add"@, "sub"@, "ld.w"@, "st.w"@, "j"@, "bne"@, "syscall"@]
}

fn desc(op: Op, mnemonic: &'static str, mode: AddrMode) -> (r: InstrDesc)
    ensures
        r.op == op,
        r.mnemonic@ == mnemonic@,
        r.mode == mode,
{
    InstrDesc { op, mnemonic, mode }
}

/// The instruction table.
pub fn table() -> (r: Vec<InstrDesc>)
    ensures
        r.len() == table_shape().len(),
        forall|i: int| 0 <= i < r.len() ==> (#[trigger] r@[i]).op == table_shape()[i].0 && r@[i].mode
            == table_shape()[i].1 && r@[i].mnemonic@ == table_mnemonics()[i],
{
    let v = vec![
        desc(Op::Mov, "mov", AddrMode::Reg),
        desc(Op::Add, "add", AddrMode::Reg),
        desc(Op::Sub, "sub", AddrMode::Reg),
        desc(Op::LdW, "ld.w", AddrMode::RegImm),
        desc(Op::StW, "st.w", AddrMode::RegImm),
        desc(Op::J, "j", AddrMode::PcRel),
        desc(Op::Bne, "bne", AddrMode::RegImm),
        desc(Op::Syscall, "syscall", AddrMode::Reg),
    ];
    v
}

} // verus!
