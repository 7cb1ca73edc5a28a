use tricore_rs::memory::BusError;
use tricore_rs::Trap;

#[test]
fn traps_read_as_text() {
    assert_eq!(Trap::InvalidInstruction { pc: 0x80 }.message(), "Invalid instruction at 0x00000080");
    assert_eq!(Trap::Unaligned { addr: 0x1001 }.message(), "Unaligned access at 0x00001001");
    assert_eq!(
        Trap::Bus { addr: 0x10, source: BusError { addr: 0x12 } }.message(),
        "Bus error at 0x00000010: no memory at 0x00000012"
    );
    assert_eq!(Trap::Break.message(), "Breakpoint");
}
