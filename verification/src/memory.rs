//! The memory bus seen by the CPU, and a linear RAM backend.
use vstd::prelude::*;

verus! {

/// A bus access that touched an unmapped byte.
#[derive(Debug, Clone, Copy, PartialEq, Eq, Structural)]
pub struct BusError {
    /// Address of the access that failed.
    pub addr: u32,
}

/// Whether all `n` bytes from `addr` on are mapped.
pub open spec fn mapped(m: Map<int, u8>, addr: u32, n: int) -> bool {
    forall|i: int| 0 <= i < n ==> #[trigger] m.contains_key(addr + i)
}

/// Little-endian halfword at `a`.
pub open spec fn le16(m: Map<int, u8>, a: int) -> int {
    m[a] + 256 * m[a + 1]
}

/// Little-endian word at `a`.
pub open spec fn le32(m: Map<int, u8>, a: int) -> int {
    le16(m, a) + 65536 * le16(m, a + 2)
}

/// `m` with the low two bytes of `v` stored little-endian at `a`.
pub open spec fn put16(m: Map<int, u8>, a: int, v: int) -> Map<int, u8> {
    m.insert(a, (v % 256) as u8).insert(a + 1, ((v / 256) % 256) as u8)
}

/// `m` with the low four bytes of `v` stored little-endian at `a`.
pub open spec fn put32(m: Map<int, u8>, a: int, v: int) -> Map<int, u8> {
    put16(put16(m, a, v % 65536), a + 2, (v / 65536) % 65536)
}

pub open spec fn bus_err<T>(ok: bool, v: T, addr: u32) -> Result<T, BusError> {
    if ok {
        Ok(v)
    } else {
        Err(BusError { addr })
    }
}

pub open spec fn load_u8(m: Map<int, u8>, addr: u32) -> Result<u8, BusError> {
    bus_err(mapped(m, addr, 1), m[addr as int], addr)
}

pub open spec fn load_u16(m: Map<int, u8>, addr: u32) -> Result<u16, BusError> {
    bus_err(mapped(m, addr, 2), le16(m, addr as int) as u16, addr)
}

pub open spec fn load_u32(m: Map<int, u8>, addr: u32) -> Result<u32, BusError> {
    bus_err(mapped(m, addr, 4), le32(m, addr as int) as u32, addr)
}

/// Memory after a store of `n` bytes of `v` at `addr`; unchanged when a byte
/// of the span is unmapped.
pub open spec fn store(m: Map<int, u8>, addr: u32, n: int, v: u32) -> Map<int, u8> {
    if !mapped(m, addr, n) {
        m
    } else if n == 1 {
        m.insert(addr as int, (v % 256) as u8)
    } else if n == 2 {
        put16(m, addr as int, v as int)
    } else {
        put32(m, addr as int, v as int)
    }
}

pub open spec fn store_result(m: Map<int, u8>, addr: u32, n: int) -> Result<(), BusError> {
    bus_err(mapped(m, addr, n), (), addr)
}

/// Byte-addressed memory as the CPU sees it. `bytes` maps every mapped
/// address to its byte; an access that touches an address outside its domain
/// fails and changes nothing.
pub trait Bus {
    spec fn bytes(&self) -> Map<int, u8>;

    fn read_u8(&mut self, addr: u32) -> (r: Result<u8, BusError>)
        ensures
            final(self).bytes() == old(self).bytes(),
            r == load_u8(old(self).bytes(), addr),
    ;

    fn read_u16(&mut self, addr: u32) -> (r: Result<u16, BusError>)
        ensures
            final(self).bytes() == old(self).bytes(),
            r == load_u16(old(self).bytes(), addr),
    ;

    fn read_u32(&mut self, addr: u32) -> (r: Result<u32, BusError>)
        ensures
            final(self).bytes() == old(self).bytes(),
            r == load_u32(old(self).bytes(), addr),
    ;

    fn write_u8(&mut self, addr: u32, val: u8) -> (r: Result<(), BusError>)
        ensures
            r == store_result(old(self).bytes(), addr, 1),
            final(self).bytes() == store(old(self).bytes(), addr, 1, val as u32),
    ;

    fn write_u16(&mut self, addr: u32, val: u16) -> (r: Result<(), BusError>)
        ensures
            r == store_result(old(self).bytes(), addr, 2),
            final(self).bytes() == store(old(self).bytes(), addr, 2, val as u32),
    ;

    fn write_u32(&mut self, addr: u32, val: u32) -> (r: Result<(), BusError>)
        ensures
            r == store_result(old(self).bytes(), addr, 4),
            final(self).bytes() == store(old(self).bytes(), addr, 4, val),
    ;
}

/// RAM of `mem.len()` bytes mapped at `base`: address `base + i` holds `mem[i]`.
pub struct LinearMemory {
    pub mem: Vec<u8>,
    pub base: u32,
}

pub open spec fn linear_bytes(mem: Seq<u8>, base: u32) -> Map<int, u8> {
    Map::new(|a: int| base <= a < base + mem.len(), |a: int| mem[a - base])
}

impl LinearMemory {
    /// Zero-filled memory of `size` bytes mapped at address 0.
    pub fn new(size: usize) -> (r: Self)
        ensures
            r.base == 0,
            r.mem@ == Seq::new(size as nat, |i: int| 0u8),
    {
        let mem = vec![0u8; size];
        assert(mem@ =~= Seq::new(size as nat, |i: int| 0u8));
        LinearMemory { mem, base: 0 }
    }

    /// Offset of `addr` into `mem` when all `n` bytes from it are backed.
    fn offset(&self, addr: u32, n: usize) -> (r: Option<usize>)
        requires
            1 <= n <= 4,
        ensures
            r is Some <==> mapped(self.bytes(), addr, n as int),
            r matches Some(off) ==> off + n <= self.mem.len() && off == addr - self.base,
    {
        let ghost m = self.bytes();
        if addr < self.base {
            assert(!m.contains_key(addr + 0int));
            return None;
        }
        let off = (addr - self.base) as usize;
        let len = self.mem.len();
        if off <= len && len - off >= n {
            assert forall|i: int| 0 <= i < n implies #[trigger] m.contains_key(addr + i) by {}
            Some(off)
        } else {
            let ghost i: int = if off > len { 0 } else { (len - off) as int };
            assert(!m.contains_key(addr + i));
            None
        }
    }

    fn load_le_u16(&self, off: usize) -> (r: u16)
        requires
            off + 2 <= self.mem.len(),
        ensures
            r == self.mem@[off as int] + 256 * self.mem@[off + 1],
    {
        let b0 = self.mem[off];
        let b1 = self.mem[off + 1];
        assert((b0 as u16) | ((b1 as u16) << 8u16) == b0 + 256 * b1) by (bit_vector);
        (b0 as u16) | ((b1 as u16) << 8u16)
    }

    fn load_le_u32(&self, off: usize) -> (r: u32)
        requires
            off + 4 <= self.mem.len(),
        ensures
            r == (self.mem@[off as int] + 256 * self.mem@[off + 1]) + 65536 * (self.mem@[off + 2]
                + 256 * self.mem@[off + 3]),
    {
        let b0 = self.mem[off];
        let b1 = self.mem[off + 1];
        let b2 = self.mem[off + 2];
        let b3 = self.mem[off + 3];
        assert((b0 as u32) | ((b1 as u32) << 8u32) | ((b2 as u32) << 16u32) | ((b3 as u32) << 24u32)
            == (b0 + 256 * b1) + 65536 * (b2 + 256 * b3)) by (bit_vector);
        (b0 as u32) | ((b1 as u32) << 8u32) | ((b2 as u32) << 16u32) | ((b3 as u32) << 24u32)
    }

    fn store_le_u16(&mut self, off: usize, v: u16)
        requires
            off + 2 <= old(self).mem.len(),
        ensures
            final(self).base == old(self).base,
            final(self).mem@ == old(self).mem@.update(off as int, (v % 256) as u8).update(
                off + 1,
                ((v / 256) % 256) as u8,
            ),
    {
        assert((v & 0xFF) as u8 == (v % 256) as u8) by (bit_vector);
        assert((v >> 8u16) as u8 == ((v / 256) % 256) as u8) by (bit_vector);
        self.mem.set(off, (v & 0xFF) as u8);
        self.mem.set(off + 1, (v >> 8u16) as u8);
    }

    fn store_le_u32(&mut self, off: usize, v: u32)
        requires
            off + 4 <= old(self).mem.len(),
        ensures
            final(self).base == old(self).base,
            final(self).mem@ == old(self).mem@.update(off as int, ((v % 65536) % 256) as u8).update(
                off + 1,
                (((v % 65536) / 256) % 256) as u8,
            ).update(off + 2, (((v / 65536) % 65536) % 256) as u8).update(
                off + 3,
                ((((v / 65536) % 65536) / 256) % 256) as u8,
            ),
    {
        assert((v & 0xFF) as u8 == ((v % 65536) % 256) as u8 && ((v >> 8u32) & 0xFF) as u8 == (((v % 65536)
            / 256) % 256) as u8 && ((v >> 16u32) & 0xFF) as u8 == (((v / 65536) % 65536) % 256) as u8 && (v
            >> 24u32) as u8 == ((((v / 65536) % 65536) / 256) % 256) as u8) by (bit_vector);
        self.mem.set(off, (v & 0xFF) as u8);
        self.mem.set(off + 1, ((v >> 8u32) & 0xFF) as u8);
        self.mem.set(off + 2, ((v >> 16u32) & 0xFF) as u8);
        self.mem.set(off + 3, (v >> 24u32) as u8);
    }
}

impl Bus for LinearMemory {
    open spec fn bytes(&self) -> Map<int, u8> {
        linear_bytes(self.mem@, self.base)
    }

    fn read_u8(&mut self, addr: u32) -> (r: Result<u8, BusError>)
        ensures
            final(self).base == old(self).base,
            final(self).mem@ == old(self).mem@,
    {
        match self.offset(addr, 1) {
            Some(off) => Ok(self.mem[off]),
            None => Err(BusError { addr }),
        }
    }

    fn read_u16(&mut self, addr: u32) -> (r: Result<u16, BusError>)
        ensures
            final(self).base == old(self).base,
            final(self).mem@ == old(self).mem@,
    {
        match self.offset(addr, 2) {
            Some(off) => Ok(self.load_le_u16(off)),
            None => Err(BusError { addr }),
        }
    }

    fn read_u32(&mut self, addr: u32) -> (r: Result<u32, BusError>)
        ensures
            final(self).base == old(self).base,
            final(self).mem@ == old(self).mem@,
    {
        match self.offset(addr, 4) {
            Some(off) => Ok(self.load_le_u32(off)),
            None => Err(BusError { addr }),
        }
    }

    fn write_u8(&mut self, addr: u32, val: u8) -> (r: Result<(), BusError>)
        ensures
            final(self).base == old(self).base,
            final(self).mem@.len() == old(self).mem@.len(),
    {
        match self.offset(addr, 1) {
            Some(off) => {
                let ghost old_m = self.bytes();
                self.mem.set(off, val);
                assert(self.bytes() =~= store(old_m, addr, 1, val as u32));
                Ok(())
            },
            None => Err(BusError { addr }),
        }
    }

    fn write_u16(&mut self, addr: u32, val: u16) -> (r: Result<(), BusError>)
        ensures
            final(self).base == old(self).base,
            final(self).mem@.len() == old(self).mem@.len(),
    {
        match self.offset(addr, 2) {
            Some(off) => {
                let ghost old_m = self.bytes();
                self.store_le_u16(off, val);
                assert(self.bytes() =~= store(old_m, addr, 2, val as u32));
                Ok(())
            },
            None => Err(BusError { addr }),
        }
    }

    fn write_u32(&mut self, addr: u32, val: u32) -> (r: Result<(), BusError>)
        ensures
            final(self).base == old(self).base,
            final(self).mem@.len() == old(self).mem@.len(),
    {
        match self.offset(addr, 4) {
            Some(off) => {
                let ghost old_m = self.bytes();
                self.store_le_u32(off, val);
                assert(self.bytes() =~= store(old_m, addr, 4, val));
                Ok(())
            },
            None => Err(BusError { addr }),
        }
    }
}

// ----------------------------------------------------------------------------
// Laws of the byte-level memory model.
// ----------------------------------------------------------------------------

proof fn lemma_word_bytes(v: u32)
    ensures
        (((v % 65536) % 256) as u8) as int + 256 * ((((v % 65536) / 256) % 256) as u8) as int
            + 65536 * (((((v / 65536) % 65536) % 256) as u8) as int + 256 * (((((v / 65536) % 65536)
            / 256) % 256) as u8) as int) == v,
        ((v % 256) as u8) as int + 256 * (((v / 256) % 256) as u8) as int == v % 65536,
{
    assert((((v % 65536) % 256) as u8) as int + 256 * ((((v % 65536) / 256) % 256) as u8) as int
        + 65536 * (((((v / 65536) % 65536) % 256) as u8) as int + 256 * (((((v / 65536) % 65536)
        / 256) % 256) as u8) as int) == v) by (bit_vector);
    assert(((v % 256) as u8) as int + 256 * (((v / 256) % 256) as u8) as int == v % 65536) by (bit_vector);
}

/// A store changes no mapping: the same addresses stay mapped.
pub proof fn lemma_store_keeps_mapping(m: Map<int, u8>, addr: u32, n: int, v: u32)
    requires
        n == 1 || n == 2 || n == 4,
    ensures
        store(m, addr, n, v).dom() == m.dom(),
{
    if mapped(m, addr, n) {
        assert(m.contains_key(addr + 0));
        if n >= 2 {
            assert(m.contains_key(addr + 1));
        }
        if n == 4 {
            assert(m.contains_key(addr + 2));
            assert(m.contains_key(addr + 3));
        }
        assert(store(m, addr, n, v).dom() =~= m.dom());
    }
}

/// Read after write: reading back the bytes just stored gives the stored
/// value (its low byte, halfword or the whole word); where the span is
/// unmapped, the store failed and the read fails the same way.
pub proof fn lemma_read_after_write(m: Map<int, u8>, addr: u32, v: u32)
    ensures
        load_u8(store(m, addr, 1, v), addr) == bus_err(mapped(m, addr, 1), (v % 256) as u8, addr),
        load_u16(store(m, addr, 2, v), addr) == bus_err(mapped(m, addr, 2), (v % 65536) as u16, addr),
        load_u32(store(m, addr, 4, v), addr) == bus_err(mapped(m, addr, 4), v, addr),
{
    lemma_store_keeps_mapping(m, addr, 1, v);
    lemma_store_keeps_mapping(m, addr, 2, v);
    lemma_store_keeps_mapping(m, addr, 4, v);
    lemma_word_bytes(v);
    let a = addr as int;
    assert(mapped(store(m, addr, 1, v), addr, 1) == mapped(m, addr, 1));
    assert(mapped(store(m, addr, 2, v), addr, 2) == mapped(m, addr, 2));
    assert(mapped(store(m, addr, 4, v), addr, 4) == mapped(m, addr, 4));
    if mapped(m, addr, 2) {
        let m2 = store(m, addr, 2, v);
        assert(m2[a] == (v % 256) as u8);
        assert(m2[a + 1] == ((v / 256) % 256) as u8);
    }
    if mapped(m, addr, 4) {
        let m4 = store(m, addr, 4, v);
        assert(m4[a] == ((v % 65536) % 256) as u8);
        assert(m4[a + 1] == (((v % 65536) / 256) % 256) as u8);
        assert(m4[a + 2] == (((v / 65536) % 65536) % 256) as u8);
        assert(m4[a + 3] == ((((v / 65536) % 65536) / 256) % 256) as u8);
    }
}

/// A store leaves every byte outside its span as it was.
pub proof fn lemma_write_frame(m: Map<int, u8>, addr: u32, n: int, v: u32, b: int)
    requires
        n == 1 || n == 2 || n == 4,
        b < addr || b >= addr + n,
    ensures
        store(m, addr, n, v).contains_key(b) == m.contains_key(b),
        store(m, addr, n, v)[b] == m[b],
{
    lemma_store_keeps_mapping(m, addr, n, v);
}

/// A store in linear RAM, byte by byte: where the span is mapped, the store
/// puts the low `n` bytes of `v`, least significant first, at offsets
/// `addr - base` onward of `mem` and leaves every other byte of `mem` as it
/// was. (`write_u8`, `write_u16` and `write_u32` of `LinearMemory` keep
/// `base` and the length of `mem`, and make its bytes those of `store`.)
pub proof fn lemma_linear_store(mem: Seq<u8>, mem2: Seq<u8>, base: u32, addr: u32, n: int, v: u32)
    requires
        n == 1 || n == 2 || n == 4,
        mem2.len() == mem.len(),
        mapped(linear_bytes(mem, base), addr, n),
        linear_bytes(mem2, base) == store(linear_bytes(mem, base), addr, n, v),
    ensures
        base <= addr,
        addr - base + n <= mem.len(),
        mem2[addr - base] == (v % 256) as u8,
        n >= 2 ==> mem2[addr - base + 1] == ((v / 256) % 256) as u8,
        n == 4 ==> mem2[addr - base + 2] == ((v / 65536) % 256) as u8,
        n == 4 ==> mem2[addr - base + 3] == (v / 16777216) as u8,
        forall|i: int|
            0 <= i < mem.len() && !(addr - base <= i < addr - base + n) ==> #[trigger] mem2[i] == mem[i],
{
    let m = linear_bytes(mem, base);
    let m2 = linear_bytes(mem2, base);
    let o = addr - base;
    assert(m.contains_key(addr + 0));
    assert(m.contains_key(addr + (n - 1)));
    assert(m2[addr as int] == mem2[o]);
    if n >= 2 {
        assert(m2[addr + 1] == mem2[o + 1]);
    }
    if n == 4 {
        assert(m2[addr + 2] == mem2[o + 2]);
        assert(m2[addr + 3] == mem2[o + 3]);
        assert((v % 65536) % 256 == v % 256 && ((v % 65536) / 256) % 256 == (v / 256) % 256 && ((v
            / 65536) % 65536) % 256 == (v / 65536) % 256 && (((v / 65536) % 65536) / 256) % 256 == v
            / 16777216) by (bit_vector);
    }
    assert forall|i: int|
        0 <= i < mem.len() && !(o <= i < o + n) implies #[trigger] mem2[i] == mem[i] by {
        lemma_write_frame(m, addr, n, v, base + i);
        assert(m2[base + i] == mem2[i]);
    }
}

} // verus!
