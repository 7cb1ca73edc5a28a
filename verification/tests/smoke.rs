use tricore_rs::exec::IntExecutor;
use tricore_rs::isa::tc16::Tc16Decoder;
use tricore_rs::{Bus, Cpu, CpuConfig, LinearMemory};

#[test]
fn add_immediate_placeholder() {
    let mut mem = LinearMemory::new(1024);
    let mut cpu = Cpu::new(CpuConfig::default());
    cpu.reset(0);

    // Selector 1 in [31:28] with op1 0x05: LD.BU D0 from address 0, which
    // holds this word's low byte, 5.
    let raw32 = 0b00010 << 27 | 0x0005;
    mem.write_u32(0, raw32).unwrap();

    let dec = Tc16Decoder::new();
    let exec = IntExecutor;
    cpu.step(&mut mem, &dec, &exec).unwrap();
    assert_eq!(cpu.gpr[0], 5);
}
