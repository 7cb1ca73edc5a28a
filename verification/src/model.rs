//! Loaded program images: segments of bytes mapped at base addresses.
use vstd::prelude::*;
use crate::bits::wadd;

verus! {

#[derive(Debug, Clone)]
pub struct Segment {
    pub name: String,
    pub base: u32,
    pub bytes: Vec<u8>,
    /// e.g. "r-x"
    pub perms: &'static str,
    /// e.g. "raw"
    pub kind: &'static str,
}

#[derive(Debug, Clone)]
pub struct Image {
    pub segments: Vec<Segment>,
}

/// Why a raw image could not be cut out of a file.
#[derive(Debug, Clone, Copy, PartialEq, Eq, Structural)]
pub enum LoadError {
    /// `skip` is beyond the end of the file.
    SkipBeyondEnd,
    /// `len` is beyond what remains of the file after `skip`.
    LenBeyondEnd,
}

/// End of a segment's address range: its base plus its length, in 32-bit
/// address arithmetic.
pub open spec fn seg_end(s: Segment) -> u32 {
    wadd(s.base, (s.bytes@.len() % 0x1_0000_0000) as u32)
}

/// Whether `addr` lies in [base, end) of the segment.
pub open spec fn seg_contains(s: Segment, addr: u32) -> bool {
    s.base <= addr && addr < seg_end(s)
}

/// The byte at `addr` in the first segment, from index `i` on, that maps it.
pub open spec fn byte_from(segs: Seq<Segment>, addr: u32, i: int) -> Option<u8>
    decreases segs.len() - i,
{
    if i < 0 || i >= segs.len() {
        None
    } else if seg_contains(segs[i], addr) {
        Some(segs[i].bytes@[addr - segs[i].base])
    } else {
        byte_from(segs, addr, i + 1)
    }
}

/// The byte an image holds at `addr`: that of the first segment mapping it.
pub open spec fn image_byte(img: Image, addr: u32) -> Option<u8> {
    byte_from(img.segments@, addr, 0)
}

/// Little-endian halfword at `addr`, when both bytes are mapped.
pub open spec fn image_u16(img: Image, addr: u32) -> Option<u16> {
    match (image_byte(img, addr), image_byte(img, wadd(addr, 1))) {
        (Some(b0), Some(b1)) => Some((b0 + 256 * b1) as u16),
        _ => None,
    }
}

/// A byte read, with nothing mapped read as zero.
pub open spec fn or_zero(b: Option<u8>) -> u8 {
    match b {
        Some(x) => x,
        None => 0,
    }
}

/// Little-endian word at `addr`, when `addr` is mapped; of the three bytes
/// after it, those past the mapping read as zero.
pub open spec fn image_u32(img: Image, addr: u32) -> Option<u32> {
    match image_byte(img, addr) {
        Some(b0) => Some(
            (b0 + 256 * or_zero(image_byte(img, wadd(addr, 1))) + 65536 * or_zero(
                image_byte(img, wadd(addr, 2)),
            ) + 16777216 * or_zero(image_byte(img, wadd(addr, 3)))) as u32,
        ),
        None => None,
    }
}

/// Whether some segment of the image maps `addr`.
pub open spec fn image_maps(img: Image, addr: u32) -> bool {
    exists|i: int| 0 <= i < img.segments@.len() && seg_contains(#[trigger] img.segments@[i], addr)
}

proof fn lemma_byte_from_some(segs: Seq<Segment>, addr: u32, i: int)
    requires
        0 <= i,
    ensures
        byte_from(segs, addr, i) is Some <==> exists|j: int|
            i <= j < segs.len() && seg_contains(#[trigger] segs[j], addr),
    decreases segs.len() - i,
{
    if i < segs.len() {
        lemma_byte_from_some(segs, addr, i + 1);
        if !seg_contains(segs[i], addr) {
            assert forall|j: int| i <= j < segs.len() && seg_contains(#[trigger] segs[j], addr) implies i
                + 1 <= j by {}
        }
    }
}

/// A byte is readable exactly where the image maps its address.
pub proof fn lemma_image_byte_mapped(img: Image, addr: u32)
    ensures
        image_byte(img, addr) is Some <==> image_maps(img, addr),
{
    lemma_byte_from_some(img.segments@, addr, 0);
}

/// The last address, `0xFFFF_FFFF`, is never mapped: a segment's range ends
/// at a 32-bit address and excludes it.
pub proof fn lemma_top_unmapped(img: Image)
    ensures
        image_byte(img, 0xFFFF_FFFF) is None,
{
    lemma_image_byte_mapped(img, 0xFFFF_FFFF);
}

/// A word can be read only below the top address, which is never mapped.
pub proof fn lemma_word_below_top(img: Image, pc: u32)
    ensures
        image_u32(img, pc) is Some ==> pc < 0xFFFF_FFFF,
{
    lemma_top_unmapped(img);
}

fn seg_end_of(s: &Segment) -> (r: u32)
    ensures
        r == seg_end(*s),
{
    proof {
        assert(s.bytes@.len() % 0x1_0000_0000 == s.bytes.len() as u64 % 0x1_0000_0000);
    }
    s.base.wrapping_add((s.bytes.len() as u64 % 0x1_0000_0000) as u32)
}

pub fn read_u8(img: &Image, addr: u32) -> (r: Option<u8>)
    ensures
        r == image_byte(*img, addr),
{
    let n = img.segments.len();
    let mut i: usize = 0;
    while i < n
        invariant
            n == img.segments@.len(),
            0 <= i <= n,
            byte_from(img.segments@, addr, 0) == byte_from(img.segments@, addr, i as int),
        decreases n - i,
    {
        let s = &img.segments[i];
        let start = s.base;
        let end = seg_end_of(s);
        if addr >= start && addr < end {
            let off = (addr - start) as usize;
            proof {
                assert(off < s.bytes@.len());
            }
            return Some(s.bytes[off]);
        }
        i = i + 1;
    }
    None
}

pub fn read_u16(img: &Image, addr: u32) -> (r: Option<u16>)
    ensures
        r == image_u16(*img, addr),
{
    let b0 = match read_u8(img, addr) {
        Some(b) => b,
        None => return None,
    };
    let b1 = match read_u8(img, addr.wrapping_add(1)) {
        Some(b) => b,
        None => return None,
    };
    assert((b0 as u16) | ((b1 as u16) << 8u16) == b0 + 256 * b1) by (bit_vector);
    Some((b0 as u16) | ((b1 as u16) << 8u16))
}

pub fn read_u32(img: &Image, addr: u32) -> (r: Option<u32>)
    ensures
        r == image_u32(*img, addr),
{
    let b0 = match read_u8(img, addr) {
        Some(b) => b,
        None => return None,
    };
    let b1 = match read_u8(img, addr.wrapping_add(1)) {
        Some(b) => b,
        None => 0,
    };
    let b2 = match read_u8(img, addr.wrapping_add(2)) {
        Some(b) => b,
        None => 0,
    };
    let b3 = match read_u8(img, addr.wrapping_add(3)) {
        Some(b) => b,
        None => 0,
    };
    assert((b0 as u32) | ((b1 as u32) << 8u32) | ((b2 as u32) << 16u32) | ((b3 as u32) << 24u32)
        == b0 + 256 * b1 + 65536 * b2 + 16777216 * b3) by (bit_vector);
    Some((b0 as u32) | ((b1 as u32) << 8u32) | ((b2 as u32) << 16u32) | ((b3 as u32) << 24u32))
}

pub fn is_mapped(img: &Image, addr: u32) -> (r: bool)
    ensures
        r == image_maps(*img, addr),
{
    let n = img.segments.len();
    let mut i: usize = 0;
    while i < n
        invariant
            n == img.segments@.len(),
            0 <= i <= n,
            forall|j: int| 0 <= j < i ==> !seg_contains(#[trigger] img.segments@[j], addr),
        decreases n - i,
    {
        let s = &img.segments[i];
        let end = seg_end_of(s);
        if addr >= s.base && addr < end {
            return true;
        }
        i = i + 1;
    }
    false
}

/// What a raw load keeps of a file: the bytes after `skip`, cut to `len`.
pub open spec fn raw_payload(file: Seq<u8>, skip: usize, len: Option<usize>) -> Result<Seq<u8>, LoadError> {
    if skip > file.len() {
        Err(LoadError::SkipBeyondEnd)
    } else {
        match len {
            None => Ok(file.subrange(skip as int, file.len() as int)),
            Some(lim) => if lim > file.len() - skip {
                Err(LoadError::LenBeyondEnd)
            } else {
                Ok(file.subrange(skip as int, skip + lim))
            },
        }
    }
}

/// A one-segment image of the file's bytes after `skip` (at most `len` of
/// them) mapped at `base`, named "segment0", with perms "r-x" and kind "raw".
pub fn raw_image(file: &[u8], base: u32, skip: usize, len: Option<usize>) -> (r: Result<Image, LoadError>)
    ensures
        match (r, raw_payload(file@, skip, len)) {
            (Ok(img), Ok(payload)) => img.segments@.len() == 1 && img.segments@[0].base == base
                && img.segments@[0].bytes@ == payload && img.segments@[0].name@ == "segment0"@
                && img.segments@[0].perms@ == "r-x"@ && img.segments@[0].kind@ == "raw"@,
            (Err(e), Err(f)) => e == f,
            _ => false,
        },
{
    if skip > file.len() {
        return Err(LoadError::SkipBeyondEnd);
    }
    let end = match len {
        None => file.len(),
        Some(lim) => {
            if lim > file.len() - skip {
                return Err(LoadError::LenBeyondEnd);
            }
            skip + lim
        },
    };
    let mut bytes: Vec<u8> = Vec::new();
    let mut i = skip;
    while i < end
        invariant
            skip <= i <= end <= file@.len(),
            bytes@ == file@.subrange(skip as int, i as int),
        decreases end - i,
    {
        bytes.push(file[i]);
        i = i + 1;
        assert(bytes@ =~= file@.subrange(skip as int, i as int));
    }
    let seg = Segment { name: String::from_str("segment0"), base, bytes, perms: "r-x", kind: "raw" };
    let segments = vec![seg];
    Ok(Image { segments })
}

} // verus!
