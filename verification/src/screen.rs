//! What the viewer's panes show, as text: the segment list, the code list
//! with its search filter, the sequential disassembly preview and the hex
//! rows. The front end lays these lines out.
use vstd::prelude::*;
use std::collections::HashMap;
use crate::analyze::decoded_at;
use crate::decoder::{Decoded, Decoder};
use crate::disasm::{addr_text, disasm_text, fmt_decoded, hex_fixed, put, put_addr, put_hex_fixed};
use crate::isa::tc16::{tc16_decode, Tc16Decoder};
use crate::model::{image_u16, image_u32, read_u16, read_u32, read_u8, Image};
use crate::report::{byte_or_zero, decode_at};
use crate::text::{chars_of, radix_in, radix_value, trim};
use vstd::std_specs::hash::spec_hash_map_iter;
use vstd::std_specs::iter::IteratorSpec;

verus! {

/// The lowercase form of a text, as `str::to_lowercase` maps it (Unicode
/// case mapping).
pub uninterp spec fn lowercase(s: Seq<char>) -> Seq<char>;

/// `str::to_lowercase`. What it returns is named `lowercase` of the
/// argument; the Unicode case tables it follows are not stated here.
#[verifier::external_body]
fn to_lower(s: &str) -> (r: String)
    ensures
        r@ == lowercase(s@),
{
    s.to_lowercase()
}

/// Whether `q` occurs in `t`.
pub open spec fn contains_text(t: Seq<char>, q: Seq<char>) -> bool {
    exists|i: int| 0 <= i && i + q.len() <= t.len() && #[trigger] t.subrange(i, i + q.len()) == q
}

/// `t` without every leading `0x` (`trim_start_matches("0x")`).
pub open spec fn strip_0x(t: Seq<char>) -> Seq<char>
    decreases t.len(),
{
    if t.len() >= 2 && t[0] == '0' && t[1] == 'x' {
        strip_0x(t.subrange(2, t.len() as int))
    } else {
        t
    }
}

/// Whether the code list keeps the address `pc` for the lowercase query
/// `q`: a query that starts with `0x` and reads as hex selects that address
/// alone; otherwise a label or the disassembly containing the query keeps it.
pub open spec fn code_keeps(img: Image, labels: Map<u32, String>, q: Seq<char>, pc: u32) -> bool {
    if q.len() >= 2 && q[0] == '0' && q[1] == 'x' && radix_value(strip_0x(q), true) is Ok {
        radix_value(strip_0x(q), true) == Ok::<u32, crate::text::NumError>(pc)
    } else if labels.contains_key(pc) && contains_text(lowercase(labels[pc]@), q) {
        true
    } else {
        match decoded_at(img, pc) {
            Some(d) => contains_text(lowercase(disasm_text(d)), q),
            None => false,
        }
    }
}

/// `{:02x?}` of the `n - i` bytes at `pc + i`, `pc + i + 1`, ..., without
/// the brackets: two hex digits each, separated by `, `.
pub open spec fn dbg_items(img: Image, pc: u32, i: nat, n: nat) -> Seq<char>
    decreases n - i,
{
    if i >= n {
        Seq::empty()
    } else if i + 1 >= n {
        hex_fixed(byte_or_zero(img, (pc + i) as u32) as nat, 2)
    } else {
        hex_fixed(byte_or_zero(img, (pc + i) as u32) as nat, 2) + ", "@ + dbg_items(img, pc, i + 1, n)
    }
}

/// An instruction line of the viewer: the address, with `show_bytes` its
/// bytes as `{:02x?}` lists them, then its disassembly.
pub open spec fn view_insn_text(img: Image, pc: u32, d: Decoded, show_bytes: bool) -> Seq<char> {
    if show_bytes {
        addr_text(pc) + ": "@ + "["@ + dbg_items(img, pc, 0, d.width as nat) + "]"@ + "  "@ + disasm_text(d)
    } else {
        addr_text(pc) + ": "@ + disasm_text(d)
    }
}

/// The code list for the addresses `pcs`: each address the filter keeps
/// (`q` is `None` when there is no filter) and where an instruction
/// decodes, with the line shown for it, `label: ` in front where it has one.
pub open spec fn code_list(
    img: Image,
    pcs: Seq<u32>,
    labels: Map<u32, String>,
    q: Option<Seq<char>>,
    show_bytes: bool,
) -> Seq<(u32, Seq<char>)>
    decreases pcs.len(),
{
    if pcs.len() == 0 {
        Seq::empty()
    } else {
        let prev = code_list(img, pcs.drop_last(), labels, q, show_bytes);
        let pc = pcs.last();
        let kept = match q {
            Some(t) => code_keeps(img, labels, t, pc),
            None => true,
        };
        match decoded_at(img, pc) {
            Some(d) => if kept {
                let prefix = if labels.contains_key(pc) {
                    labels[pc]@ + ": "@
                } else {
                    Seq::empty()
                };
                prev.push((pc, prefix + view_insn_text(img, pc, d, show_bytes)))
            } else {
                prev
            },
            None => prev,
        }
    }
}

/// Pairs of an address and a text, the text as plain characters.
pub open spec fn line_views(v: Seq<(u32, String)>) -> Seq<(u32, Seq<char>)> {
    v.map_values(|p: (u32, String)| (p.0, p.1@))
}

/// Whether `q` occurs in `t`.
fn contains_in(t: &[char], q: &[char]) -> (r: bool)
    ensures
        r == contains_text(t@, q@),
{
    if q.len() > t.len() {
        return false;
    }
    let last = t.len() - q.len();
    let tn = t.len();
    let mut i: usize = 0;
    loop
        invariant
            last == t@.len() - q@.len(),
            tn == t@.len(),
            i <= last,
            forall|k: int| 0 <= k < i ==> #[trigger] t@.subrange(k, k + q@.len()) != q@,
        decreases last - i,
    {
        let mut j: usize = 0;
        let mut same = true;
        while j < q.len()
            invariant
                last == t@.len() - q@.len(),
                tn == t@.len(),
                i <= last,
                j <= q@.len(),
                same == (forall|m: int| 0 <= m < j ==> t@[i + m] == q@[m]),
            decreases q@.len() - j,
        {
            assert(i + j < t@.len());
            assert(t@.len() == t.len());
            if t[i + j] != q[j] {
                same = false;
            }
            j = j + 1;
        }
        if same {
            assert(t@.subrange(i as int, i + q@.len()) =~= q@);
            return true;
        }
        assert(t@.subrange(i as int, i + q@.len()) != q@) by {
            let m = choose|m: int| 0 <= m < q@.len() && t@[i + m] != q@[m];
            assert(t@.subrange(i as int, i + q@.len())[m] == t@[i + m]);
        }
        if i == last {
            return false;
        }
        i = i + 1;
    }
}

/// `strip_0x` of `q[k..]` is `q[m..]`: the index past every leading `0x`.
fn skip_0x(q: &[char]) -> (m: usize)
    ensures
        m <= q@.len(),
        strip_0x(q@) == q@.subrange(m as int, q@.len() as int),
{
    let mut k: usize = 0;
    assert(q@.subrange(0, q@.len() as int) =~= q@);
    while q.len() - k >= 2 && q[k] == '0' && q[k + 1] == 'x'
        invariant
            k <= q@.len(),
            strip_0x(q@) == strip_0x(q@.subrange(k as int, q@.len() as int)),
        decreases q@.len() - k,
    {
        let ghost t = q@.subrange(k as int, q@.len() as int);
        assert(t[0] == q@[k as int] && t[1] == q@[k + 1]);
        assert(t.subrange(2, t.len() as int) =~= q@.subrange(k + 2, q@.len() as int));
        k = k + 2;
    }
    let ghost t = q@.subrange(k as int, q@.len() as int);
    assert(t.len() >= 2 ==> t[0] == q@[k as int] && t[1] == q@[k + 1]);
    k
}

/// An instruction line of the viewer (see `view_insn_text`).
fn view_insn_line(img: &Image, pc: u32, d: &Decoded, show_bytes: bool) -> (r: String)
    requires
        decoded_at(*img, pc) == Some(*d),
        show_bytes ==> pc + d.width <= 0x1_0000_0000,
    ensures
        r@ == view_insn_text(*img, pc, *d, show_bytes),
{
    proof {
        crate::isa::tc16::lemma_decode_width(image_u32(*img, pc)->0);
    }
    let mut s = String::new();
    put_addr(&mut s, pc);
    put(&mut s, ": ");
    if show_bytes {
        put(&mut s, "[");
        let w = d.width as u32;
        let ghost s0 = s@;
        let mut i: u32 = 0;
        while i < w
            invariant
                w == d.width,
                w == 2 || w == 4,
                i <= w,
                pc + w <= 0x1_0000_0000,
                s@ + dbg_items(*img, pc, i as nat, w as nat) == s0 + dbg_items(*img, pc, 0, w as nat),
            decreases w - i,
        {
            let b = match read_u8(img, pc + i) {
                Some(b) => b,
                None => 0,
            };
            let ghost s1 = s@;
            put_hex_fixed(&mut s, b as u32, 2);
            if i + 1 < w {
                put(&mut s, ", ");
            }
            assert(s1 + dbg_items(*img, pc, i as nat, w as nat) =~= s@ + dbg_items(
                *img,
                pc,
                (i + 1) as nat,
                w as nat,
            ));
            i = i + 1;
        }
        put(&mut s, "]");
        put(&mut s, "  ");
    }
    let t = fmt_decoded(d);
    put(&mut s, t.as_str());
    assert(s@ =~= view_insn_text(*img, pc, *d, show_bytes));
    s
}

/// Whether the code list keeps `pc` for the lowercase query `q`, whose
/// hex reading after its leading `0x`s is `qaddr` (see `code_keeps`).
fn keeps(img: &Image, labels: &HashMap<u32, String>, q: &[char], qaddr: Option<u32>, pc: u32) -> (r: bool)
    requires
        qaddr == (if q@.len() >= 2 && q@[0] == '0' && q@[1] == 'x' && radix_value(strip_0x(q@), true) is Ok {
            Some(radix_value(strip_0x(q@), true)->Ok_0)
        } else {
            None
        }),
    ensures
        r == code_keeps(*img, labels@, q@, pc),
{
    broadcast use vstd::std_specs::hash::group_hash_axioms;

    match qaddr {
        Some(a) => {
            return pc == a;
        },
        None => {},
    }
    match labels.get(&pc) {
        Some(name) => {
            let low = to_lower(name.as_str());
            let lc = chars_of(low.as_str());
            if contains_in(lc.as_slice(), q) {
                return true;
            }
        },
        None => {},
    }
    match decode_at(img, pc) {
        Some(d) => {
            let text = fmt_decoded(&d);
            let low = to_lower(text.as_str());
            let lc = chars_of(low.as_str());
            contains_in(lc.as_slice(), q)
        },
        None => false,
    }
}

/// Whether listing the bytes of the instruction at `pc`, where one decodes,
/// stays within 32-bit addresses.
pub open spec fn bytes_fit_at(img: Image, pc: u32) -> bool {
    decoded_at(img, pc) matches Some(d) ==> pc + d.width <= 0x1_0000_0000
}

/// Whether every instruction the code list shows (the filter `q` as in
/// `code_list`) has bytes that stay within 32-bit addresses.
pub open spec fn code_bytes_fit(img: Image, pcs: Seq<u32>, labels: Map<u32, String>, q: Option<Seq<char>>) -> bool {
    forall|i: int|
        0 <= i < pcs.len() && (match q {
            Some(t) => code_keeps(img, labels, t, pcs[i]),
            None => true,
        }) ==> #[trigger] bytes_fit_at(img, pcs[i])
}

/// The filter of the search box: its lowercase form when it is not blank.
pub open spec fn search_filter(search: Seq<char>) -> Option<Seq<char>> {
    if trim(search).len() > 0 {
        Some(lowercase(search))
    } else {
        None
    }
}

/// Decides whether `code_lines` may show bytes (see `code_bytes_fit`).
pub fn code_bytes_fit_check(img: &Image, visited: &[u32], labels: &HashMap<u32, String>, search: &str) -> (r: bool)
    ensures
        r == code_bytes_fit(*img, visited@, labels@, search_filter(search@)),
{
    let sc = chars_of(search);
    let (a, b) = crate::text::trim_range(sc.as_slice(), 0, sc.len());
    assert(sc@.subrange(0, sc@.len() as int) =~= search@);
    let filter = a < b;
    let low = to_lower(search);
    let qv = chars_of(low.as_str());
    let qc = qv.as_slice();
    let qaddr = if qc.len() >= 2 && qc[0] == '0' && qc[1] == 'x' {
        let m = skip_0x(qc);
        match radix_in(qc, m, qc.len(), true) {
            Ok(x) => Some(x),
            Err(_) => None,
        }
    } else {
        None
    };
    let ghost q = search_filter(search@);
    let mut i: usize = 0;
    while i < visited.len()
        invariant
            i <= visited@.len(),
            qc@ == lowercase(search@),
            filter == (trim(search@).len() > 0),
            q == search_filter(search@),
            qaddr == (if qc@.len() >= 2 && qc@[0] == '0' && qc@[1] == 'x' && radix_value(strip_0x(qc@), true) is Ok {
                Some(radix_value(strip_0x(qc@), true)->Ok_0)
            } else {
                None
            }),
            forall|j: int|
                0 <= j < i && (match q {
                    Some(t) => code_keeps(*img, labels@, t, visited@[j]),
                    None => true,
                }) ==> #[trigger] bytes_fit_at(*img, visited@[j]),
        decreases visited@.len() - i,
    {
        let pc = visited[i];
        let kept = if filter {
            keeps(img, labels, qc, qaddr, pc)
        } else {
            true
        };
        if kept {
            match decode_at(img, pc) {
                Some(d) => {
                    if pc as u64 + d.width as u64 > 0x1_0000_0000 {
                        assert(!bytes_fit_at(*img, visited@[i as int]));
                        assert(match q {
                            Some(t) => code_keeps(*img, labels@, t, visited@[i as int]),
                            None => true,
                        });
                        return false;
                    }
                },
                None => {},
            }
        }
        i = i + 1;
    }
    true
}

/// The code pane's lines (see `code_list`): every analysed address where an
/// instruction decodes; when the search text is not blank, only those its
/// lowercase form keeps.
pub fn code_lines(
    img: &Image,
    visited: &[u32],
    labels: &HashMap<u32, String>,
    search: &str,
    show_bytes: bool,
) -> (r: Vec<(u32, String)>)
    requires
        show_bytes ==> code_bytes_fit(*img, visited@, labels@, search_filter(search@)),
    ensures
        line_views(r@) == code_list(
            *img,
            visited@,
            labels@,
            if trim(search@).len() > 0 {
                Some(lowercase(search@))
            } else {
                None
            },
            show_bytes,
        ),
{
    broadcast use vstd::std_specs::hash::group_hash_axioms;

    let sc = chars_of(search);
    let (a, b) = crate::text::trim_range(sc.as_slice(), 0, sc.len());
    assert(sc@.subrange(0, sc@.len() as int) =~= search@);
    let filter = a < b;
    let ghost q = if filter {
        Some(lowercase(search@))
    } else {
        None
    };
    let low = to_lower(search);
    let qv = chars_of(low.as_str());
    let qc = qv.as_slice();
    let qaddr = if qc.len() >= 2 && qc[0] == '0' && qc[1] == 'x' {
        let m = skip_0x(qc);
        match radix_in(qc, m, qc.len(), true) {
            Ok(x) => Some(x),
            Err(_) => None,
        }
    } else {
        None
    };
    let mut out: Vec<(u32, String)> = Vec::new();
    let mut i: usize = 0;
    assert(visited@.subrange(0, 0) =~= Seq::<u32>::empty());
    assert(line_views(out@) =~= Seq::<(u32, Seq<char>)>::empty());
    while i < visited.len()
        invariant
            i <= visited@.len(),
            qc@ == lowercase(search@),
            filter == (trim(search@).len() > 0),
            q == (if filter {
                Some(lowercase(search@))
            } else {
                None
            }),
            qaddr == (if qc@.len() >= 2 && qc@[0] == '0' && qc@[1] == 'x' && radix_value(strip_0x(qc@), true) is Ok {
                Some(radix_value(strip_0x(qc@), true)->Ok_0)
            } else {
                None
            }),
            line_views(out@) == code_list(*img, visited@.subrange(0, i as int), labels@, q, show_bytes),
            q == search_filter(search@),
            show_bytes ==> code_bytes_fit(*img, visited@, labels@, q),
        decreases visited@.len() - i,
    {
        let pc = visited[i];
        let ghost pre = visited@.subrange(0, i as int);
        assert(visited@.subrange(0, i + 1).drop_last() =~= pre);
        let kept = if filter {
            keeps(img, labels, qc, qaddr, pc)
        } else {
            true
        };
        match decode_at(img, pc) {
            Some(d) => if kept {
                let mut line = String::new();
                match labels.get(&pc) {
                    Some(name) => {
                        put(&mut line, name.as_str());
                        put(&mut line, ": ");
                    },
                    None => {},
                }
                let ghost l0 = line@;
                assert(show_bytes ==> bytes_fit_at(*img, visited@[i as int]));
                let body = view_insn_line(img, pc, &d, show_bytes);
                put(&mut line, body.as_str());
                let ghost o0 = out@;
                out.push((pc, line));
                assert(line_views(out@) =~= line_views(o0).push((pc, l0 + body@)));
            },
            None => {},
        }
        i = i + 1;
    }
    assert(visited@.subrange(0, visited@.len() as int) =~= visited@);
    out
}

/// Where the viewer takes the first segment to end: its base plus its
/// length truncated to 32 bits, without wrapping.
pub open spec fn first_end(img: Image) -> int {
    img.segments@[0].base + (img.segments@[0].bytes@.len() % 0x1_0000_0000) as int
}

/// `a + b`, stopping at `u32::MAX`.
pub open spec fn sat_add(a: u32, b: nat) -> u32 {
    if a + b > u32::MAX {
        u32::MAX
    } else {
        (a + b) as u32
    }
}

/// The word the preview decodes at `pc`: the full word where it is mapped,
/// else the halfword there, widened.
pub open spec fn preview_raw(img: Image, pc: u32) -> Option<u32> {
    match image_u32(img, pc) {
        Some(x) => Some(x),
        None => match image_u16(img, pc) {
            Some(h) => Some(h as u32),
            None => None,
        },
    }
}

/// The sequential disassembly preview from `pc` on, below `end`, after
/// `count` lines, at most 4000 lines in all: one line per instruction, and
/// `.2byte` with the halfword where nothing decodes, stepping 2 bytes; it
/// stops where not even a halfword is mapped.
pub open spec fn preview_from(img: Image, end: u32, pc: u32, count: nat, show_bytes: bool) -> Seq<Seq<char>>
    decreases 4000 - count,
{
    if count >= 4000 || pc >= end {
        Seq::empty()
    } else {
        match preview_raw(img, pc) {
            None => Seq::empty(),
            Some(raw) => match tc16_decode(raw) {
                Some(d) => seq![view_insn_text(img, pc, d, show_bytes)] + preview_from(
                    img,
                    end,
                    sat_add(pc, d.width as nat),
                    count + 1,
                    show_bytes,
                ),
                None => seq![
                    addr_text(pc) + ": .2byte 0x"@ + hex_fixed(byte_or_zero(img, (pc + 1) as u32) as nat, 2)
                        + hex_fixed(byte_or_zero(img, pc) as nat, 2),
                ] + preview_from(img, end, sat_add(pc, 2), count + 1, show_bytes),
            },
        }
    }
}

/// Whether listing the bytes of every instruction of the preview from `pc`
/// on stays within 32-bit addresses.
pub open spec fn preview_fits(img: Image, end: u32, pc: u32, count: nat) -> bool
    decreases 4000 - count,
{
    if count >= 4000 || pc >= end {
        true
    } else {
        match preview_raw(img, pc) {
            None => true,
            Some(raw) => match tc16_decode(raw) {
                Some(d) => pc + d.width <= 0x1_0000_0000 && preview_fits(
                    img,
                    end,
                    sat_add(pc, d.width as nat),
                    count + 1,
                ),
                None => preview_fits(img, end, sat_add(pc, 2), count + 1),
            },
        }
    }
}

/// What the preview of an image shows (see `preview_from`): the first
/// segment from its base; nothing without segments.
pub open spec fn preview(img: Image, show_bytes: bool) -> Seq<Seq<char>> {
    if img.segments@.len() > 0 {
        preview_from(img, first_end(img) as u32, img.segments@[0].base, 0, show_bytes)
    } else {
        Seq::empty()
    }
}

/// The same line for an instruction, for the preview, where the word may be
/// a widened halfword; the caller makes sure its bytes stay below the top.
fn preview_insn_line(img: &Image, pc: u32, d: &Decoded, show_bytes: bool) -> (r: String)
    requires
        show_bytes ==> pc + d.width <= 0x1_0000_0000,
        d.width == 2 || d.width == 4,
    ensures
        r@ == view_insn_text(*img, pc, *d, show_bytes),
{
    let mut s = String::new();
    put_addr(&mut s, pc);
    put(&mut s, ": ");
    if show_bytes {
        put(&mut s, "[");
        let w = d.width as u32;
        let ghost s0 = s@;
        let mut i: u32 = 0;
        while i < w
            invariant
                w == d.width,
                i <= w,
                pc + w <= 0x1_0000_0000,
                s@ + dbg_items(*img, pc, i as nat, w as nat) == s0 + dbg_items(*img, pc, 0, w as nat),
            decreases w - i,
        {
            let b = match read_u8(img, pc + i) {
                Some(b) => b,
                None => 0,
            };
            let ghost s1 = s@;
            put_hex_fixed(&mut s, b as u32, 2);
            if i + 1 < w {
                put(&mut s, ", ");
            }
            assert(s1 + dbg_items(*img, pc, i as nat, w as nat) =~= s@ + dbg_items(
                *img,
                pc,
                (i + 1) as nat,
                w as nat,
            ));
            i = i + 1;
        }
        put(&mut s, "]");
        put(&mut s, "  ");
    }
    let t = fmt_decoded(d);
    put(&mut s, t.as_str());
    assert(s@ =~= view_insn_text(*img, pc, *d, show_bytes));
    s
}

fn preview_raw_at(img: &Image, pc: u32) -> (r: Option<u32>)
    ensures
        r == preview_raw(*img, pc),
{
    match read_u32(img, pc) {
        Some(x) => Some(x),
        None => match read_u16(img, pc) {
            Some(h) => Some(h as u32),
            None => None,
        },
    }
}

/// The Disasm pane: a sequential disassembly of the first segment (see
/// `preview`). The first segment's end must not overflow, nor, with bytes
/// shown, the bytes of any instruction listed.
pub fn disasm_preview(img: &Image, show_bytes: bool) -> (r: Vec<String>)
    requires
        img.segments@.len() > 0 ==> first_end(*img) <= u32::MAX,
        img.segments@.len() > 0 && show_bytes ==> preview_fits(
            *img,
            first_end(*img) as u32,
            img.segments@[0].base,
            0,
        ),
    ensures
        crate::report::texts(r@) == preview(*img, show_bytes),
{
    let mut out: Vec<String> = Vec::new();
    if img.segments.len() == 0 {
        assert(crate::report::texts(out@) =~= Seq::<Seq<char>>::empty());
        return out;
    }
    let seg = &img.segments[0];
    let end = seg.base + (seg.bytes.len() as u64 % 0x1_0000_0000) as u32;
    let mut pc = seg.base;
    let mut count: usize = 0;
    let ghost total = preview(*img, show_bytes);
    assert(crate::report::texts(out@) =~= Seq::<Seq<char>>::empty());
    while pc < end && count < 4000
        invariant
            end == first_end(*img),
            count <= 4000,
            show_bytes ==> preview_fits(*img, end, pc, count as nat),
            total == preview(*img, show_bytes),
            total == crate::report::texts(out@) + preview_from(*img, end, pc, count as nat, show_bytes),
        ensures
            total == crate::report::texts(out@),
        decreases 4000 - count,
    {
        let ghost o0 = crate::report::texts(out@);
        let raw = match preview_raw_at(img, pc) {
            Some(x) => x,
            None => {
                assert(preview_from(*img, end, pc, count as nat, show_bytes) =~= Seq::<Seq<char>>::empty());
                assert(total =~= crate::report::texts(out@));
                break;
            },
        };
        match Tc16Decoder::new().decode(raw) {
            Some(d) => {
                proof {
                    crate::isa::tc16::lemma_decode_width(raw);
                }
                let line = preview_insn_line(img, pc, &d, show_bytes);
                out.push(line);
                assert(crate::report::texts(out@) =~= o0.push(view_insn_text(*img, pc, d, show_bytes)));
                pc = pc.saturating_add(d.width as u32);
            },
            None => {
                let b0 = match read_u8(img, pc) {
                    Some(x) => x,
                    None => 0,
                };
                let b1 = match read_u8(img, pc + 1) {
                    Some(x) => x,
                    None => 0,
                };
                let mut line = String::new();
                put_addr(&mut line, pc);
                put(&mut line, ": .2byte 0x");
                put_hex_fixed(&mut line, b1 as u32, 2);
                put_hex_fixed(&mut line, b0 as u32, 2);
                out.push(line);
                pc = pc.saturating_add(2);
            },
        }
        count = count + 1;
    }
    out
}

/// Whether `disasm_preview` may be asked for this image: the first
/// segment's end fits in 32 bits and, with bytes shown, so do the bytes of
/// every instruction the preview lists.
pub fn preview_allowed(img: &Image, show_bytes: bool) -> (r: bool)
    ensures
        r == ((img.segments@.len() > 0 ==> first_end(*img) <= u32::MAX) && (img.segments@.len() > 0
            && show_bytes ==> preview_fits(*img, first_end(*img) as u32, img.segments@[0].base, 0))),
{
    if img.segments.len() == 0 {
        return true;
    }
    let seg = &img.segments[0];
    let e64 = seg.base as u64 + seg.bytes.len() as u64 % 0x1_0000_0000;
    if e64 > 0xFFFF_FFFF {
        return false;
    }
    if !show_bytes {
        return true;
    }
    let end = e64 as u32;
    let mut pc = seg.base;
    let mut count: usize = 0;
    while pc < end && count < 4000
        invariant
            end == first_end(*img),
            img.segments@.len() > 0,
            show_bytes,
            count <= 4000,
            preview_fits(*img, end, img.segments@[0].base, 0) == preview_fits(*img, end, pc, count as nat),
        decreases 4000 - count,
    {
        let raw = match preview_raw_at(img, pc) {
            Some(x) => x,
            None => {
                return true;
            },
        };
        match Tc16Decoder::new().decode(raw) {
            Some(d) => {
                if pc as u64 + d.width as u64 > 0x1_0000_0000 {
                    assert(!preview_fits(*img, end, pc, count as nat));
                    return false;
                }
                pc = pc.saturating_add(d.width as u32);
            },
            None => {
                pc = pc.saturating_add(2);
            },
        }
        count = count + 1;
    }
    true
}

/// One cell of the hex pane: its address, the character shown for its byte
/// (the byte itself when printable ASCII, else `.`), the text of its edit
/// box, and whether it is the selected byte.
#[derive(Debug, Clone, PartialEq, Eq)]
pub struct HexCell {
    pub addr: u32,
    pub ascii: char,
    pub text: String,
    pub selected: bool,
}

/// One row of the hex pane: its address and up to sixteen cells.
#[derive(Debug, Clone, PartialEq, Eq)]
pub struct HexRow {
    pub addr: u32,
    pub cells: Vec<HexCell>,
}

/// A hex cell as plain values.
pub struct HexCellView {
    pub addr: u32,
    pub ascii: char,
    pub text: Seq<char>,
    pub selected: bool,
}

/// A hex row as plain values.
pub struct HexRowView {
    pub addr: u32,
    pub cells: Seq<HexCellView>,
}

pub open spec fn cell_view(c: HexCell) -> HexCellView {
    HexCellView { addr: c.addr, ascii: c.ascii, text: c.text@, selected: c.selected }
}

pub open spec fn row_view(r: HexRow) -> HexRowView {
    HexRowView { addr: r.addr, cells: r.cells@.map_values(|c: HexCell| cell_view(c)) }
}

/// The character shown for a byte: itself when printable ASCII, else `.`.
pub open spec fn ascii_of(b: u8) -> char {
    if 0x20 <= b <= 0x7e {
        b as char
    } else {
        '.'
    }
}

/// The cell for address `a`, `off` bytes into the first segment.
pub open spec fn hex_cell_at(img: Image, edits: Map<u32, String>, sel: Option<u32>, a: u32) -> HexCellView {
    let seg = img.segments@[0];
    let b = seg.bytes@[a - seg.base];
    HexCellView {
        addr: a,
        ascii: ascii_of(b),
        text: if edits.contains_key(a) {
            edits[a]@
        } else {
            hex_fixed(b as nat, 2)
        },
        selected: sel == Some(a),
    }
}

/// How far the hex pane reaches: the first segment's end, or its first
/// kilobyte, whichever comes first.
pub open spec fn hex_limit(img: Image) -> int {
    let base = img.segments@[0].base;
    if first_end(img) < base + 1024 {
        first_end(img)
    } else {
        base + 1024
    }
}

/// The hex pane: rows of sixteen bytes of the first segment from its base,
/// up to `hex_limit`; the last row stops at the segment's end.
pub open spec fn hex_view(img: Image, edits: Map<u32, String>, sel: Option<u32>) -> Seq<HexRowView> {
    if img.segments@.len() == 0 {
        Seq::empty()
    } else {
        let base = img.segments@[0].base;
        let n = if hex_limit(img) > base {
            (hex_limit(img) - base + 15) / 16
        } else {
            0
        };
        Seq::new(
            n as nat,
            |r: int|
                {
                    let a = base + 16 * r;
                    let k = if first_end(img) - a < 16 {
                        first_end(img) - a
                    } else {
                        16
                    };
                    HexRowView {
                        addr: a as u32,
                        cells: Seq::new(k as nat, |i: int| hex_cell_at(img, edits, sel, (a + i) as u32)),
                    }
                },
        )
    }
}

/// The hex pane (see `hex_view`). The first segment's end, and its base
/// plus a kilobyte, must fit in 32 bits.
pub fn hex_rows(img: &Image, edits: &HashMap<u32, String>, sel: Option<u32>) -> (r: Vec<HexRow>)
    requires
        img.segments@.len() > 0 ==> first_end(*img) <= u32::MAX && img.segments@[0].base + 1024
            <= u32::MAX,
    ensures
        r@.map_values(|x: HexRow| row_view(x)) == hex_view(*img, edits@, sel),
{
    broadcast use vstd::std_specs::hash::group_hash_axioms;

    let mut out: Vec<HexRow> = Vec::new();
    if img.segments.len() == 0 {
        assert(out@.map_values(|x: HexRow| row_view(x)) =~= hex_view(*img, edits@, sel));
        return out;
    }
    let seg = &img.segments[0];
    let base = seg.base;
    let end = base + (seg.bytes.len() as u64 % 0x1_0000_0000) as u32;
    let limit = if end < base + 1024 {
        end
    } else {
        base + 1024
    };
    let ghost total = hex_view(*img, edits@, sel);
    let ghost n: int = if limit > base {
        (limit - base + 15) / 16
    } else {
        0
    };
    assert(total.len() == n);
    let mut addr = base;
    let mut r: usize = 0;
    while addr < limit
        invariant
            img.segments@.len() > 0,
            seg == img.segments@[0],
            end == first_end(*img),
            limit == hex_limit(*img),
            base == seg.base,
            base + 1024 <= u32::MAX,
            total == hex_view(*img, edits@, sel),
            total.len() == n,
            n == (if limit > base {
                (limit - base + 15) / 16
            } else {
                0
            }),
            addr == base + 16 * r,
            r == out@.len(),
            addr < limit ==> r < n,
            addr >= limit ==> r == n,
            forall|q: int| 0 <= q < r ==> #[trigger] row_view(out@[q]) == total[q],
        decreases base + 1040 - addr,
    {
        let mut cells: Vec<HexCell> = Vec::new();
        let mut i: u32 = 0;
        let ghost k: int = if end - addr < 16 {
            end - addr
        } else {
            16
        };
        while i < 16
            invariant
                img.segments@.len() > 0,
                seg == img.segments@[0],
                end == first_end(*img),
                base == seg.base,
                addr < limit <= end,
                addr >= base,
                addr + 16 <= base + 1024 + 15,
                base + 1024 <= u32::MAX,
                k == (if end - addr < 16 {
                    end - addr
                } else {
                    16
                }),
                i <= 16,
                i <= k,
                cells@.len() == i,
                forall|q: int| 0 <= q < i ==> #[trigger] cell_view(cells@[q]) == hex_cell_at(*img, edits@, sel, (addr + q) as u32),
            ensures
                cells@.len() == k,
                forall|q: int| 0 <= q < k ==> #[trigger] cell_view(cells@[q]) == hex_cell_at(*img, edits@, sel, (addr + q) as u32),
            decreases 16 - i,
        {
            let a = addr + i;
            if a >= end {
                break;
            }
            let b = seg.bytes[(a - base) as usize];
            let ascii = if 0x20 <= b && b <= 0x7e {
                b as char
            } else {
                '.'
            };
            let text = match edits.get(&a) {
                Some(t) => t.clone(),
                None => {
                    let mut t = String::new();
                    put_hex_fixed(&mut t, b as u32, 2);
                    t
                },
            };
            let sel_here = match sel {
                Some(x) => x == a,
                None => false,
            };
            cells.push(HexCell { addr: a, ascii, text, selected: sel_here });
            i = i + 1;
        }
        let ghost o0 = out@;
        out.push(HexRow { addr, cells });
        assert(row_view(out@[r as int]).cells =~= total[r as int].cells);
        addr = addr + 16;
        r = r + 1;
    }
    assert(out@.map_values(|x: HexRow| row_view(x)) =~= total);
    out
}

/// `name  0xBASE..0xEND  perms` for one segment.
pub open spec fn segment_text(s: crate::model::Segment) -> Seq<char> {
    s.name@ + "  "@ + addr_text(s.base) + ".."@ + addr_text(
        (s.base + (s.bytes@.len() % 0x1_0000_0000)) as u32,
    ) + "  "@ + s.perms@
}

/// The segment list of the side bar: one line per segment. Each segment's
/// end must fit in 32 bits.
pub fn segment_lines(img: &Image) -> (r: Vec<String>)
    requires
        forall|i: int|
            0 <= i < img.segments@.len() ==> #[trigger] img.segments@[i].base + (img.segments@[i].bytes@.len()
                % 0x1_0000_0000) <= u32::MAX,
    ensures
        crate::report::texts(r@) == img.segments@.map_values(|s: crate::model::Segment| segment_text(s)),
{
    let mut out: Vec<String> = Vec::new();
    let mut i: usize = 0;
    while i < img.segments.len()
        invariant
            i <= img.segments@.len(),
            forall|j: int|
                0 <= j < img.segments@.len() ==> #[trigger] img.segments@[j].base + (img.segments@[j].bytes@.len()
                    % 0x1_0000_0000) <= u32::MAX,
            crate::report::texts(out@) == img.segments@.subrange(0, i as int).map_values(
                |s: crate::model::Segment| segment_text(s),
            ),
        decreases img.segments@.len() - i,
    {
        let s = &img.segments[i];
        let end = s.base + (s.bytes.len() as u64 % 0x1_0000_0000) as u32;
        let mut line = String::new();
        put(&mut line, s.name.as_str());
        put(&mut line, "  ");
        put_addr(&mut line, s.base);
        put(&mut line, "..");
        put_addr(&mut line, end);
        put(&mut line, "  ");
        put(&mut line, s.perms);
        let ghost o0 = out@;
        out.push(line);
        assert(line@ =~= segment_text(*s));
        assert(crate::report::texts(out@) =~= crate::report::texts(o0).push(line@));
        assert(img.segments@.subrange(0, i + 1) =~= img.segments@.subrange(0, i as int).push(*s));
        assert(img.segments@.subrange(0, i as int).push(*s).map_values(
            |s: crate::model::Segment| segment_text(s),
        ) =~= img.segments@.subrange(0, i as int).map_values(|s: crate::model::Segment| segment_text(s)).push(
            segment_text(*s),
        ));
        i = i + 1;
    }
    assert(img.segments@.subrange(0, i as int) =~= img.segments@);
    out
}

/// Texts in lexicographic order of their characters: `a` comes no later
/// than `b`. This is the order of `String`'s `cmp`, as UTF-8 keeps the
/// order of code points.
pub open spec fn text_le(a: Seq<char>, b: Seq<char>) -> bool
    decreases a.len(),
{
    if a.len() == 0 {
        true
    } else if b.len() == 0 {
        false
    } else if (a[0] as u32) < (b[0] as u32) {
        true
    } else if (a[0] as u32) > (b[0] as u32) {
        false
    } else {
        text_le(a.drop_first(), b.drop_first())
    }
}

proof fn lemma_text_le_total(a: Seq<char>, b: Seq<char>)
    ensures
        text_le(a, b) || text_le(b, a),
    decreases a.len(),
{
    if a.len() > 0 && b.len() > 0 && a[0] as u32 == b[0] as u32 {
        lemma_text_le_total(a.drop_first(), b.drop_first());
    }
}

proof fn lemma_text_le_trans(a: Seq<char>, b: Seq<char>, c: Seq<char>)
    requires
        text_le(a, b),
        text_le(b, c),
    ensures
        text_le(a, c),
    decreases a.len(),
{
    if a.len() > 0 && b.len() > 0 && c.len() > 0 && a[0] as u32 == b[0] as u32 && b[0] as u32 == c[0] as u32 {
        lemma_text_le_trans(a.drop_first(), b.drop_first(), c.drop_first());
    }
}

/// Whether `a` comes no later than `b` (see `text_le`).
fn text_le_of(a: &str, b: &str) -> (r: bool)
    ensures
        r == text_le(a@, b@),
{
    let av = chars_of(a);
    let bv = chars_of(b);
    let mut i: usize = 0;
    assert(a@.subrange(0, a@.len() as int) =~= a@);
    assert(b@.subrange(0, b@.len() as int) =~= b@);
    while i < av.len() && i < bv.len()
        invariant
            av@ == a@,
            bv@ == b@,
            i <= av@.len(),
            i <= bv@.len(),
            text_le(a@, b@) == text_le(a@.subrange(i as int, a@.len() as int), b@.subrange(i as int, b@.len() as int)),
        decreases av@.len() - i,
    {
        let x = av[i];
        let y = bv[i];
        let ghost sa = a@.subrange(i as int, a@.len() as int);
        let ghost sb = b@.subrange(i as int, b@.len() as int);
        assert(sa[0] == x && sb[0] == y);
        if (x as u32) < (y as u32) {
            return true;
        }
        if (x as u32) > (y as u32) {
            return false;
        }
        assert(sa.drop_first() =~= a@.subrange(i + 1, a@.len() as int));
        assert(sb.drop_first() =~= b@.subrange(i + 1, b@.len() as int));
        i = i + 1;
    }
    i == av.len()
}

fn vec_holds(v: &Vec<u32>, x: u32) -> (r: bool)
    ensures
        r == v@.contains(x),
{
    let mut i: usize = 0;
    while i < v.len()
        invariant
            i <= v@.len(),
            forall|q: int| 0 <= q < i ==> v@[q] != x,
        decreases v@.len() - i,
    {
        if v[i] == x {
            return true;
        }
        i = i + 1;
    }
    false
}

/// The side bar's line for the label at `pc`: `name @ 0xADDR`.
pub open spec fn label_line(labels: Map<u32, String>, pc: u32) -> Seq<char> {
    labels[pc]@ + " @ "@ + addr_text(pc)
}

/// The label of `pc`, as plain characters.
pub open spec fn name_of(labels: Map<u32, String>, pc: u32) -> Seq<char> {
    labels[pc]@
}

/// The side bar's label list: the labels in the order of their names (see
/// `text_le`), at most 200 of them, each with its line. Among labels of the
/// same name the order is left open; so is which of them is cut when the
/// two hundredth name is shared.
pub fn label_lines(labels: &HashMap<u32, String>) -> (r: Vec<(u32, String)>)
    ensures
        r@.len() == (if labels@.len() < 200 {
            labels@.len()
        } else {
            200
        }),
        forall|i: int|
            0 <= i < r@.len() ==> labels@.contains_key((#[trigger] r@[i]).0) && r@[i].1@ == label_line(
                labels@,
                r@[i].0,
            ),
        forall|i: int, j: int|
            0 <= i < j < r@.len() ==> (#[trigger] r@[i]).0 != (#[trigger] r@[j]).0 && text_le(
                name_of(labels@, r@[i].0),
                name_of(labels@, r@[j].0),
            ),
        forall|pc: u32|
            #![trigger labels@.contains_key(pc)]
            labels@.contains_key(pc) && (forall|i: int| 0 <= i < r@.len() ==> (#[trigger] r@[i]).0 != pc) ==> r@.len()
                > 0 && text_le(name_of(labels@, r@[r@.len() - 1].0), name_of(labels@, pc)),
{
    broadcast use vstd::std_specs::hash::group_hash_axioms;

    let mut chosen: Vec<u32> = Vec::new();
    let mut done = false;
    while chosen.len() < 200 && !done
        invariant
            chosen@.len() <= 200,
            chosen@.no_duplicates(),
            forall|i: int| 0 <= i < chosen@.len() ==> labels@.contains_key(#[trigger] chosen@[i]),
            forall|i: int, j: int|
                0 <= i < j < chosen@.len() ==> text_le(
                    name_of(labels@, #[trigger] chosen@[i]),
                    name_of(labels@, #[trigger] chosen@[j]),
                ),
            forall|i: int, pc: u32|
                0 <= i < chosen@.len() && #[trigger] labels@.contains_key(pc) && !chosen@.contains(pc)
                    ==> text_le(name_of(labels@, #[trigger] chosen@[i]), name_of(labels@, pc)),
            done ==> forall|pc: u32| #[trigger] labels@.contains_key(pc) ==> chosen@.contains(pc),
        decreases 2 * (200 - chosen@.len()) + if done {
            0int
        } else {
            1int
        },
    {
        let mut best: Option<u32> = None;
        for item in it: labels.iter()
            invariant
                it.seq() == spec_hash_map_iter(labels).remaining(),
                best matches Some(b) ==> labels@.contains_key(b) && !chosen@.contains(b) && forall|q: int|
                    0 <= q < it.index() && !chosen@.contains(*(#[trigger] it.seq()[q]).0) ==> text_le(
                        name_of(labels@, b),
                        name_of(labels@, *it.seq()[q].0),
                    ),
                best is None ==> forall|q: int| 0 <= q < it.index() ==> chosen@.contains(*(#[trigger] it.seq()[q]).0),
        {
            let (pc, name) = item;
            if !vec_holds(&chosen, *pc) {
                match best {
                    None => {
                        best = Some(*pc);
                        proof {
                            lemma_text_le_total(name@, name@);
                        }
                    },
                    Some(b) => {
                        match labels.get(&b) {
                            Some(bn) => {
                                if !text_le_of(bn.as_str(), name.as_str()) {
                                    proof {
                                        lemma_text_le_total(bn@, name@);
                                        assert forall|q: int|
                                            0 <= q < it.index() + 1 && !chosen@.contains(*(#[trigger] it.seq()[q]).0) implies text_le(
                                            name_of(labels@, *pc),
                                            name_of(labels@, *it.seq()[q].0),
                                        ) by {
                                            if q < it.index() {
                                                lemma_text_le_trans(
                                                    name@,
                                                    bn@,
                                                    name_of(labels@, *it.seq()[q].0),
                                                );
                                            } else {
                                                lemma_text_le_total(name@, name@);
                                            }
                                        }
                                    }
                                    best = Some(*pc);
                                }
                            },
                            None => {},
                        }
                    },
                }
            }
        }
        match best {
            None => {
                proof {
                    let rem = spec_hash_map_iter(labels).remaining();
                    assert forall|pc: u32| #[trigger] labels@.contains_key(pc) implies chosen@.contains(pc) by {
                        assert(rem.contains((&pc, &labels@[pc])));
                        let q = choose|q: int| 0 <= q < rem.len() && rem[q] == (&pc, &labels@[pc]);
                        assert(*rem[q].0 == pc);
                    }
                }
                done = true;
            },
            Some(b) => {
                proof {
                    let rem = spec_hash_map_iter(labels).remaining();
                    assert forall|pc: u32| #[trigger] labels@.contains_key(pc) && !chosen@.contains(pc) implies text_le(
                        name_of(labels@, b),
                        name_of(labels@, pc),
                    ) by {
                        assert(rem.contains((&pc, &labels@[pc])));
                        let q = choose|q: int| 0 <= q < rem.len() && rem[q] == (&pc, &labels@[pc]);
                        assert(*rem[q].0 == pc);
                    }
                }
                let ghost c0 = chosen@;
                chosen.push(b);
                proof {
                    assert forall|i: int, pc: u32|
                        0 <= i < chosen@.len() && #[trigger] labels@.contains_key(pc) && !chosen@.contains(pc)
                            implies text_le(name_of(labels@, #[trigger] chosen@[i]), name_of(labels@, pc)) by {
                        assert(!c0.contains(pc)) by {
                            if c0.contains(pc) {
                                let t = choose|t: int| 0 <= t < c0.len() && c0[t] == pc;
                                assert(chosen@[t] == pc);
                            }
                        }
                        if i < c0.len() {
                            assert(chosen@[i] == c0[i]);
                        } else {
                            assert(chosen@[i] == b);
                        }
                    }
                    assert forall|i: int, j: int|
                        0 <= i < j < chosen@.len() implies text_le(
                            name_of(labels@, #[trigger] chosen@[i]),
                            name_of(labels@, #[trigger] chosen@[j]),
                        ) by {
                        if j == c0.len() {
                            assert(chosen@[i] == c0[i]);
                        } else {
                            assert(chosen@[i] == c0[i] && chosen@[j] == c0[j]);
                        }
                    }
                    assert forall|i: int, j: int| 0 <= i < j < chosen@.len() implies chosen@[i] != chosen@[j] by {
                        if j == c0.len() {
                            assert(c0[i] == chosen@[i]);
                            assert(c0.contains(chosen@[i]));
                        } else {
                            assert(chosen@[i] == c0[i] && chosen@[j] == c0[j]);
                        }
                    }
                }
            },
        }
    }
    proof {
        let d = labels@.dom();
        assert(chosen@.to_set().subset_of(d)) by {
            assert forall|v: u32| #[trigger] chosen@.to_set().contains(v) implies d.contains(v) by {
                let t = choose|t: int| 0 <= t < chosen@.len() && chosen@[t] == v;
            }
        }
        chosen@.unique_seq_to_set();
        vstd::set_lib::lemma_len_subset(chosen@.to_set(), d);
        if done {
            assert(chosen@.to_set() =~= d);
        }
    }
    let mut out: Vec<(u32, String)> = Vec::new();
    let mut i: usize = 0;
    while i < chosen.len()
        invariant
            i <= chosen@.len(),
            out@.len() == i,
            forall|q: int| 0 <= q < chosen@.len() ==> labels@.contains_key(#[trigger] chosen@[q]),
            forall|q: int| 0 <= q < i ==> (#[trigger] out@[q]).0 == chosen@[q] && out@[q].1@ == label_line(labels@, chosen@[q]),
        decreases chosen@.len() - i,
    {
        let pc = chosen[i];
        let mut line = String::new();
        match labels.get(&pc) {
            Some(name) => {
                put(&mut line, name.as_str());
            },
            None => {},
        }
        put(&mut line, " @ ");
        put_addr(&mut line, pc);
        assert(line@ =~= label_line(labels@, pc));
        out.push((pc, line));
        i = i + 1;
    }
    proof {
        assert forall|pc: u32|
            #![trigger labels@.contains_key(pc)]
            labels@.contains_key(pc) && (forall|i: int| 0 <= i < out@.len() ==> (#[trigger] out@[i]).0 != pc) implies out@.len()
                > 0 && text_le(name_of(labels@, out@[out@.len() - 1].0), name_of(labels@, pc)) by {
            assert(!chosen@.contains(pc)) by {
                if chosen@.contains(pc) {
                    let t = choose|t: int| 0 <= t < chosen@.len() && chosen@[t] == pc;
                    assert(out@[t].0 == pc);
                }
            }
            assert(chosen@.len() > 0);
            assert(text_le(name_of(labels@, chosen@[chosen@.len() - 1]), name_of(labels@, pc)));
        }
    }
    out
}

} // verus!
