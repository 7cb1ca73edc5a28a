//! From discovered instructions and edges to the analysis report: basic
//! blocks, block-level edges, functions, labels and listing text.
use vstd::prelude::*;
use std::collections::{HashMap, HashSet};
use crate::analyze::{Edge, EdgeKind, analysis_complete, analysis_sound, analyze_entries, decoded_at, walk_result};
use crate::bits::wadd;
use crate::disasm::{addr_text, disasm_text, fmt_decoded, hex_fixed, put, put_addr, put_hex_fixed};
use crate::decoder::{Decoded, Decoder, Op};
use crate::isa::tc16::{Tc16Decoder, tc16_decode};
use crate::text::{chars_of, digit_of, number_in, number_value, ok_of, radix_in, radix_value, trim, trim_range};
use vstd::std_specs::hash::spec_hash_map_iter;
use vstd::std_specs::iter::IteratorSpec;
use crate::model::{Image, image_byte, image_u32, read_u32, read_u8};

verus! {

/// A basic block [start, end).
#[derive(Debug, Clone, Copy, PartialEq, Eq, Structural)]
pub struct Block {
    pub start: u32,
    pub end: u32,
}

/// An edge between blocks; `kind` is "ft", "br", "cbr" or "call".
#[derive(Debug, Clone)]
pub struct EdgeOut {
    pub from: u32,
    pub to: u32,
    pub kind: String,
}

/// A function: its entry and the starts of the blocks reachable from it.
#[derive(Debug, Clone)]
pub struct FunctionOut {
    pub entry: u32,
    pub blocks: Vec<u32>,
}

/// A block with its disassembled instructions.
#[derive(Debug, Clone)]
pub struct BlockOut {
    pub start: u32,
    pub end: u32,
    pub insns: Vec<String>,
}

/// The analysis of a program.
#[derive(Debug, Clone)]
pub struct Report<Blk = Block> {
    pub entries: Vec<u32>,
    pub blocks: Vec<Blk>,
    pub edges: Vec<EdgeOut>,
    pub functions: Vec<FunctionOut>,
}

// ----------------------------------------------------------------------------
// Sorted sets of addresses.
// ----------------------------------------------------------------------------

/// Strictly increasing: sorted, with no address twice.
pub open spec fn strictly_sorted(s: Seq<u32>) -> bool {
    forall|i: int, j: int| 0 <= i < j < s.len() ==> s[i] < s[j]
}

/// Whether `v` holds `x`.
pub fn holds(v: &Vec<u32>, x: u32) -> (r: bool)
    ensures
        r == v@.contains(x),
{
    let mut i: usize = 0;
    while i < v.len()
        invariant
            i <= v@.len(),
            forall|k: int| 0 <= k < i ==> v@[k] != x,
        decreases v@.len() - i,
    {
        if v[i] == x {
            assert(v@[i as int] == x);
            return true;
        }
        i = i + 1;
    }
    false
}

/// Adds `x` to a strictly sorted vector, keeping it strictly sorted.
pub fn insert_sorted(v: &mut Vec<u32>, x: u32)
    requires
        strictly_sorted(old(v)@),
    ensures
        strictly_sorted(final(v)@),
        forall|y: u32| final(v)@.contains(y) <==> (old(v)@.contains(y) || y == x),
        final(v)@.len() == old(v)@.len() + (if old(v)@.contains(x) { 0int } else { 1int }),
{
    let mut i: usize = 0;
    while i < v.len() && v[i] < x
        invariant
            i <= v@.len(),
            v@ == old(v)@,
            strictly_sorted(v@),
            forall|k: int| 0 <= k < i ==> v@[k] < x,
        decreases v@.len() - i,
    {
        i = i + 1;
    }
    if i < v.len() && v[i] == x {
        assert(v@.contains(x));
        return;
    }
    assert(!old(v)@.contains(x)) by {
        assert forall|k: int| 0 <= k < v@.len() implies v@[k] != x by {
            if k >= i {
                assert(v@[i as int] > x);
                if k > i {
                    assert(v@[i as int] < v@[k]);
                }
            }
        }
    }
    v.insert(i, x);
    assert forall|y: u32| v@.contains(y) <==> (old(v)@.contains(y) || y == x) by {
        if v@.contains(y) {
            let k = choose|k: int| 0 <= k < v@.len() && v@[k] == y;
            if k < i {
                assert(old(v)@[k] == y);
            } else if k > i {
                assert(old(v)@[k - 1] == y);
            }
        }
        if old(v)@.contains(y) {
            let k = choose|k: int| 0 <= k < old(v)@.len() && old(v)@[k] == y;
            if k < i {
                assert(v@[k] == y);
            } else {
                assert(v@[k + 1] == y);
            }
        }
        if y == x {
            assert(v@[i as int] == x);
        }
    }
}

/// The distinct addresses of `xs`, in increasing order.
pub fn sorted_unique(xs: &[u32]) -> (r: Vec<u32>)
    ensures
        strictly_sorted(r@),
        forall|y: u32| r@.contains(y) <==> xs@.contains(y),
{
    let mut out: Vec<u32> = Vec::new();
    let mut i: usize = 0;
    while i < xs.len()
        invariant
            i <= xs@.len(),
            strictly_sorted(out@),
            forall|y: u32| out@.contains(y) <==> exists|k: int| 0 <= k < i && xs@[k] == y,
        decreases xs@.len() - i,
    {
        insert_sorted(&mut out, xs[i]);
        assert forall|y: u32| out@.contains(y) <==> exists|k: int| 0 <= k < i + 1 && xs@[k] == y by {
            if y == xs@[i as int] {
                assert(0 <= i < i + 1 && xs@[i as int] == y);
            }
        }
        i = i + 1;
    }
    assert forall|y: u32| out@.contains(y) <==> xs@.contains(y) by {
        if xs@.contains(y) {
            let k = choose|k: int| 0 <= k < xs@.len() && xs@[k] == y;
            assert(0 <= k < xs@.len() && xs@[k] == y);
        }
    }
    out
}

/// The block starts: the entries and every edge's destination, in
/// increasing order without repeats.
pub fn block_starts(seeds: &[u32], edges: &[Edge]) -> (r: Vec<u32>)
    ensures
        strictly_sorted(r@),
        forall|y: u32|
            r@.contains(y) <==> (seeds@.contains(y) || exists|k: int| 0 <= k < edges@.len() && edges@[k].to == y),
{
    let mut out = sorted_unique(seeds);
    let mut i: usize = 0;
    while i < edges.len()
        invariant
            i <= edges@.len(),
            strictly_sorted(out@),
            forall|y: u32|
                out@.contains(y) <==> (seeds@.contains(y) || exists|k: int| 0 <= k < i && edges@[k].to == y),
        decreases edges@.len() - i,
    {
        insert_sorted(&mut out, edges[i].to);
        assert forall|y: u32|
            out@.contains(y) <==> (seeds@.contains(y) || exists|k: int| 0 <= k < i + 1 && edges@[k].to == y) by {
            if y == edges@[i as int].to {
                assert(0 <= i < i + 1 && edges@[i as int].to == y);
            }
            if exists|k: int| 0 <= k < i + 1 && edges@[k].to == y {
                let k = choose|k: int| 0 <= k < i + 1 && edges@[k].to == y;
                if k < i {
                    assert(0 <= k < i && edges@[k].to == y);
                }
            }
        }
        i = i + 1;
    }
    out
}

// ----------------------------------------------------------------------------
// Basic blocks.
// ----------------------------------------------------------------------------

/// How many instructions a walk may step over at most. Every walk that ends
/// at all ends within this many steps (an address range holds fewer than
/// 2^32 instructions and a walk wraps around at most once), so the bound
/// only stops a walk that would go on forever.
pub const WALK_FUEL: u64 = 0x2_0000_0000;

/// Whether an unconditional jump edge leaves `pc`.
pub open spec fn has_branch_from(edges: Seq<Edge>, pc: u32) -> bool {
    exists|k: int| 0 <= k < edges.len() && edges[k].from == pc && edges[k].kind == EdgeKind::Branch
}

/// Whether the instruction at `pc` is a return.
pub open spec fn is_ret(img: Image, pc: u32) -> bool {
    decoded_at(img, pc) matches Some(d) && d.op == Op::Ret
}

/// Whether a block ends after the instruction at `cur`, whose successor in
/// memory is `next`: after an unconditional jump or a return, or before an
/// address that the walk did not reach or that starts a block.
pub open spec fn ends_after(
    img: Image,
    visited: Set<u32>,
    edges: Seq<Edge>,
    starts: Seq<u32>,
    cur: u32,
    next: u32,
) -> bool {
    has_branch_from(edges, cur) || is_ret(img, cur) || !visited.contains(next) || starts.contains(next)
}

/// The end of the block that runs on from `cur` through the decoded
/// instructions; `None` if `cur` did not decode, or after `fuel` more steps.
pub open spec fn walk_end(
    img: Image,
    visited: Set<u32>,
    widths: Map<u32, u8>,
    edges: Seq<Edge>,
    starts: Seq<u32>,
    cur: u32,
    fuel: nat,
) -> Option<u32>
    decreases fuel,
{
    if !widths.contains_key(cur) {
        None
    } else {
        let next = wadd(cur, widths[cur] as u32);
        if ends_after(img, visited, edges, starts, cur, next) {
            Some(next)
        } else if fuel == 0 {
            None
        } else {
            walk_end(img, visited, widths, edges, starts, next, (fuel - 1) as nat)
        }
    }
}

/// `m` with every instruction address of the block [start, end), walked
/// from `pc` while below `end`, mapped to `start`.
pub open spec fn mark_block(widths: Map<u32, u8>, start: u32, end: u32, pc: u32, fuel: nat, m: Map<u32, u32>) -> Map<
    u32,
    u32,
>
    decreases fuel,
{
    if pc >= end {
        m
    } else if !widths.contains_key(pc) || fuel == 0 {
        m.insert(pc, start)
    } else {
        mark_block(widths, start, end, wadd(pc, widths[pc] as u32), (fuel - 1) as nat, m.insert(pc, start))
    }
}

/// The blocks of the starts from index `i` on, after the blocks `acc`
/// whose instructions `m` maps to their block: a start that was reached,
/// decodes and is not already inside a block begins one.
pub open spec fn blocks_from(
    img: Image,
    visited: Set<u32>,
    widths: Map<u32, u8>,
    edges: Seq<Edge>,
    starts: Seq<u32>,
    i: int,
    m: Map<u32, u32>,
    acc: Seq<Block>,
) -> (Seq<Block>, Map<u32, u32>)
    decreases starts.len() - i,
{
    if i < 0 || i >= starts.len() {
        (acc, m)
    } else {
        let s = starts[i];
        if !visited.contains(s) || m.contains_key(s) {
            blocks_from(img, visited, widths, edges, starts, i + 1, m, acc)
        } else {
            match walk_end(img, visited, widths, edges, starts, s, WALK_FUEL as nat) {
                None => blocks_from(img, visited, widths, edges, starts, i + 1, m, acc),
                Some(end) => blocks_from(
                    img,
                    visited,
                    widths,
                    edges,
                    starts,
                    i + 1,
                    mark_block(widths, s, end, s, WALK_FUEL as nat, m),
                    acc.push(Block { start: s, end }),
                ),
            }
        }
    }
}

/// The instruction that decodes at `pc`.
pub fn decode_at(img: &Image, pc: u32) -> (r: Option<Decoded>)
    ensures
        r == decoded_at(*img, pc),
{
    match read_u32(img, pc) {
        Some(raw) => Tc16Decoder::new().decode(raw),
        None => None,
    }
}

fn branch_from(edges: &[Edge], pc: u32) -> (r: bool)
    ensures
        r == has_branch_from(edges@, pc),
{
    let mut k: usize = 0;
    while k < edges.len()
        invariant
            k <= edges@.len(),
            forall|q: int| 0 <= q < k ==> !(edges@[q].from == pc && edges@[q].kind == EdgeKind::Branch),
        decreases edges@.len() - k,
    {
        if edges[k].from == pc && edges[k].kind == EdgeKind::Branch {
            return true;
        }
        k = k + 1;
    }
    false
}

fn walk_block(
    img: &Image,
    visited: &HashSet<u32>,
    widths: &HashMap<u32, u8>,
    edges: &[Edge],
    starts: &Vec<u32>,
    start: u32,
) -> (r: Option<u32>)
    ensures
        r == walk_end(*img, visited@, widths@, edges@, starts@, start, WALK_FUEL as nat),
{
    broadcast use vstd::std_specs::hash::group_hash_axioms;

    let mut cur = start;
    let mut fuel: u64 = WALK_FUEL;
    loop
        invariant
            walk_end(*img, visited@, widths@, edges@, starts@, start, WALK_FUEL as nat) == walk_end(
                *img,
                visited@,
                widths@,
                edges@,
                starts@,
                cur,
                fuel as nat,
            ),
        decreases fuel,
    {
        let w = match widths.get(&cur) {
            Some(w) => *w,
            None => {
                return None;
            },
        };
        let next = cur.wrapping_add(w as u32);
        let ret = match decode_at(img, cur) {
            Some(d) => d.op == Op::Ret,
            None => false,
        };
        if branch_from(edges, cur) || ret || !visited.contains(&next) || holds(starts, next) {
            return Some(next);
        }
        if fuel == 0 {
            return None;
        }
        cur = next;
        fuel = fuel - 1;
    }
}

fn mark(widths: &HashMap<u32, u8>, m: &mut HashMap<u32, u32>, start: u32, end: u32)
    ensures
        final(m)@ == mark_block(widths@, start, end, start, WALK_FUEL as nat, old(m)@),
{
    broadcast use vstd::std_specs::hash::group_hash_axioms;

    let mut pc = start;
    let mut fuel: u64 = WALK_FUEL;
    while pc < end
        invariant
            mark_block(widths@, start, end, start, WALK_FUEL as nat, old(m)@) == mark_block(
                widths@,
                start,
                end,
                pc,
                fuel as nat,
                m@,
            ),
        decreases fuel,
    {
        m.insert(pc, start);
        let w = match widths.get(&pc) {
            Some(w) => *w,
            None => {
                return;
            },
        };
        if fuel == 0 {
            return;
        }
        pc = pc.wrapping_add(w as u32);
        fuel = fuel - 1;
    }
}

/// Cuts the walk into basic blocks (see `blocks_from`); also maps each
/// instruction address of a block to the block's start.
pub fn build_blocks(
    img: &Image,
    visited: &HashSet<u32>,
    widths: &HashMap<u32, u8>,
    edges: &[Edge],
    starts: &Vec<u32>,
) -> (r: (Vec<Block>, HashMap<u32, u32>))
    ensures
        (r.0@, r.1@) == blocks_from(*img, visited@, widths@, edges@, starts@, 0, Map::empty(), Seq::empty()),
{
    broadcast use vstd::std_specs::hash::group_hash_axioms;

    let mut blocks: Vec<Block> = Vec::new();
    let mut m: HashMap<u32, u32> = HashMap::new();
    let mut i: usize = 0;
    while i < starts.len()
        invariant
            i <= starts@.len(),
            blocks_from(*img, visited@, widths@, edges@, starts@, 0, Map::empty(), Seq::empty())
                == blocks_from(*img, visited@, widths@, edges@, starts@, i as int, m@, blocks@),
        decreases starts@.len() - i,
    {
        let s = starts[i];
        if visited.contains(&s) && !m.contains_key(&s) {
            match walk_block(img, visited, widths, edges, starts, s) {
                Some(end) => {
                    blocks.push(Block { start: s, end });
                    mark(widths, &mut m, s, end);
                },
                None => {},
            }
        }
        i = i + 1;
    }
    (blocks, m)
}

// ----------------------------------------------------------------------------
// Block-level edges and functions.
// ----------------------------------------------------------------------------

/// The text of an edge kind.
pub open spec fn kind_text(k: EdgeKind) -> Seq<char> {
    match k {
        EdgeKind::Fallthrough => "ft"@,
        EdgeKind::Branch => "br"@,
        EdgeKind::CondBranch => "cbr"@,
        EdgeKind::Call => "call"@,
    }
}

/// The block an instruction address belongs to, or the address itself.
pub open spec fn block_of(m: Map<u32, u32>, pc: u32) -> u32 {
    if m.contains_key(pc) {
        m[pc]
    } else {
        pc
    }
}

/// The edges lifted to blocks: each leaves the block of its source
/// instruction and keeps its destination and kind.
pub fn block_edges(edges: &[Edge], addr_to_block: &HashMap<u32, u32>) -> (r: Vec<EdgeOut>)
    ensures
        r@.len() == edges@.len(),
        forall|k: int|
            #![trigger r@[k]]
            0 <= k < edges@.len() ==> r@[k].from == block_of(addr_to_block@, edges@[k].from)
                && r@[k].to == edges@[k].to && r@[k].kind@ == kind_text(edges@[k].kind),
{
    broadcast use vstd::std_specs::hash::group_hash_axioms;

    let mut out: Vec<EdgeOut> = Vec::new();
    let mut i: usize = 0;
    while i < edges.len()
        invariant
            i <= edges@.len(),
            out@.len() == i,
            forall|k: int|
                #![trigger out@[k]]
                0 <= k < i ==> out@[k].from == block_of(addr_to_block@, edges@[k].from)
                    && out@[k].to == edges@[k].to && out@[k].kind@ == kind_text(edges@[k].kind),
        decreases edges@.len() - i,
    {
        let e = edges[i];
        let from = match addr_to_block.get(&e.from) {
            Some(b) => *b,
            None => e.from,
        };
        let kind = match e.kind {
            EdgeKind::Fallthrough => String::from_str("ft"),
            EdgeKind::Branch => String::from_str("br"),
            EdgeKind::CondBranch => String::from_str("cbr"),
            EdgeKind::Call => String::from_str("call"),
        };
        let ghost o0 = out@;
        out.push(EdgeOut { from, to: e.to, kind });
        proof {
            assert(out@[i as int].from == block_of(addr_to_block@, edges@[i as int].from));
            assert(out@[i as int].kind@ == kind_text(edges@[i as int].kind));
            assert forall|k: int|
                #![trigger out@[k]]
                0 <= k < i + 1 implies out@[k].from == block_of(addr_to_block@, edges@[k].from)
                    && out@[k].to == edges@[k].to && out@[k].kind@ == kind_text(edges@[k].kind) by {
                if k < i {
                    assert(out@[k] == o0[k]);
                    assert(o0[k].from == block_of(addr_to_block@, edges@[k].from));
                }
            }
        }
        i = i + 1;
    }
    out
}

/// Whether following any edge from a member of `s` stays in `s`.
pub open spec fn closed_under(s: Set<u32>, es: Seq<EdgeOut>) -> bool {
    forall|k: int| 0 <= k < es.len() && #[trigger] s.contains(es[k].from) ==> s.contains(es[k].to)
}

/// The blocks reachable from `entry` along the edges: the members of every
/// set that holds `entry` and is closed under the edges.
pub open spec fn reachable_blocks(entry: u32, es: Seq<EdgeOut>) -> Set<u32> {
    Set::new(|x: u32| forall|t: Set<u32>| #[trigger] t.contains(entry) && closed_under(t, es) ==> t.contains(x))
}

/// The blocks reachable from `entry`, in increasing order.
pub fn function_blocks(entry: u32, es: &[EdgeOut]) -> (r: Vec<u32>)
    ensures
        strictly_sorted(r@),
        forall|x: u32| r@.contains(x) <==> reachable_blocks(entry, es@).contains(x),
{
    let ghost u: Seq<u32> = Seq::new((es@.len() + 1) as nat, |k: int| if k < es@.len() { es@[k].to } else { entry });
    let mut seen: Vec<u32> = Vec::new();
    let mut queue: Vec<u32> = Vec::new();
    queue.push(entry);
    assert(u[es@.len() as int] == entry);
    assert(queue@[0] == entry);
    while queue.len() > 0
        invariant
            u.len() == es@.len() + 1,
            forall|k: int| 0 <= k < es@.len() ==> u[k] == es@[k].to,
            u[es@.len() as int] == entry,
            strictly_sorted(seen@),
            forall|x: u32| seen@.contains(x) ==> u.contains(x),
            forall|j: int| 0 <= j < queue@.len() ==> u.contains(#[trigger] queue@[j]),
            seen@.contains(entry) || queue@.contains(entry),
            forall|t: Set<u32>|
                #[trigger] t.contains(entry) && closed_under(t, es@) ==> (forall|x: u32| seen@.contains(x) ==> t.contains(x))
                    && (forall|j: int| 0 <= j < queue@.len() ==> t.contains(queue@[j])),
            forall|k: int|
                0 <= k < es@.len() && seen@.contains(#[trigger] es@[k].from) ==> seen@.contains(es@[k].to)
                    || queue@.contains(es@[k].to),
        decreases u.len() + 1 - seen@.len(), queue@.len(),
    {
        let ghost q0 = queue@;
        let b = queue.pop().unwrap();
        let ghost q1 = queue@;
        assert(q0 =~= q1.push(b));
        if holds(&seen, b) {
            assert forall|k: int|
                0 <= k < es@.len() && seen@.contains(#[trigger] es@[k].from) implies seen@.contains(es@[k].to)
                    || queue@.contains(es@[k].to) by {
                if !seen@.contains(es@[k].to) {
                    assert((q1.push(b)).contains(es@[k].to));
                    let j = choose|j: int| 0 <= j < q1.push(b).len() && q1.push(b)[j] == es@[k].to;
                    if j < q1.len() {
                        assert(queue@[j] == es@[k].to);
                    }
                }
            }
            assert(seen@.contains(entry) || queue@.contains(entry)) by {
                if !seen@.contains(entry) {
                    let j = choose|j: int| 0 <= j < q1.push(b).len() && q1.push(b)[j] == entry;
                    if j < q1.len() {
                        assert(queue@[j] == entry);
                    }
                }
            }
            continue;
        }
        proof {
            assert(u.contains(b)) by {
                assert(q1.push(b)[q1.len() as int] == b);
            }
        }
        let ghost old_seen = seen@;
        insert_sorted(&mut seen, b);
        proof {
            assert(seen@.no_duplicates()) by {
                assert forall|i: int, j: int| 0 <= i < seen@.len() && 0 <= j < seen@.len() && i != j implies seen@[i] != seen@[j] by {
                    if i < j {
                        assert(seen@[i] < seen@[j]);
                    } else {
                        assert(seen@[j] < seen@[i]);
                    }
                }
            }
            seen@.unique_seq_to_set();
            u.lemma_cardinality_of_set();
            assert(seen@.to_set().subset_of(u.to_set()));
            vstd::set_lib::lemma_len_subset(seen@.to_set(), u.to_set());
        }
        let mut k: usize = 0;
        while k < es.len()
            invariant
                k <= es@.len(),
                u.len() == es@.len() + 1,
                forall|q: int| 0 <= q < es@.len() ==> u[q] == es@[q].to,
                seen@.contains(b),
                forall|j: int| 0 <= j < queue@.len() ==> u.contains(#[trigger] queue@[j]),
                forall|j: int| 0 <= j < q1.len() ==> queue@[j] == q1[j],
                queue@.len() >= q1.len(),
                forall|t: Set<u32>|
                    #[trigger] t.contains(entry) && closed_under(t, es@) && t.contains(b) ==> (forall|j: int|
                        0 <= j < queue@.len() ==> t.contains(queue@[j])),
                forall|q: int| 0 <= q < k && #[trigger] es@[q].from == b ==> queue@.contains(es@[q].to),
            decreases es@.len() - k,
        {
            if es[k].from == b {
                let ghost qa = queue@;
                queue.push(es[k].to);
                assert(queue@[queue@.len() - 1] == es@[k as int].to);
                assert(u[k as int] == es@[k as int].to);
                assert forall|q: int| 0 <= q < k && #[trigger] es@[q].from == b implies queue@.contains(es@[q].to) by {
                    let j = choose|j: int| 0 <= j < qa.len() && qa[j] == es@[q].to;
                    assert(queue@[j] == es@[q].to);
                }
                assert(queue@.contains(es@[k as int].to));
            }
            k = k + 1;
        }
        assert forall|t: Set<u32>|
            #[trigger] t.contains(entry) && closed_under(t, es@) implies (forall|x: u32| seen@.contains(x) ==> t.contains(x))
                && (forall|j: int| 0 <= j < queue@.len() ==> t.contains(queue@[j])) by {
            assert(q1.push(b)[q1.len() as int] == b);
            assert(t.contains(b));
        }
        assert forall|k2: int|
            0 <= k2 < es@.len() && seen@.contains(#[trigger] es@[k2].from) implies seen@.contains(es@[k2].to)
                || queue@.contains(es@[k2].to) by {
            if es@[k2].from != b {
                assert(old_seen.contains(es@[k2].from));
                if !old_seen.contains(es@[k2].to) {
                    assert(q1.push(b).contains(es@[k2].to));
                    let j = choose|j: int| 0 <= j < q1.push(b).len() && q1.push(b)[j] == es@[k2].to;
                    if j < q1.len() {
                        assert(queue@[j] == es@[k2].to);
                    }
                }
            }
        }
        assert(seen@.contains(entry) || queue@.contains(entry)) by {
            if !seen@.contains(entry) {
                let j = choose|j: int| 0 <= j < q1.push(b).len() && q1.push(b)[j] == entry;
                if j < q1.len() {
                    assert(queue@[j] == entry);
                }
            }
        }
    }
    assert forall|x: u32| seen@.contains(x) <==> reachable_blocks(entry, es@).contains(x) by {
        if seen@.contains(x) {
            assert forall|t: Set<u32>| #[trigger] t.contains(entry) && closed_under(t, es@) implies t.contains(x) by {}
        }
        if reachable_blocks(entry, es@).contains(x) {
            let t = seen@.to_set();
            assert(t.contains(entry));
            assert(closed_under(t, es@));
        }
    }
    seen
}

/// For each entry, the function that starts there.
pub fn functions_of(seeds: &[u32], es: &[EdgeOut]) -> (r: Vec<FunctionOut>)
    ensures
        r@.len() == seeds@.len(),
        forall|k: int|
            0 <= k < seeds@.len() ==> #[trigger] r@[k].entry == seeds@[k] && strictly_sorted(r@[k].blocks@)
                && forall|x: u32| r@[k].blocks@.contains(x) <==> reachable_blocks(seeds@[k], es@).contains(x),
{
    let mut out: Vec<FunctionOut> = Vec::new();
    let mut i: usize = 0;
    while i < seeds.len()
        invariant
            i <= seeds@.len(),
            out@.len() == i,
            forall|k: int|
                0 <= k < i ==> #[trigger] out@[k].entry == seeds@[k] && strictly_sorted(out@[k].blocks@)
                    && forall|x: u32| out@[k].blocks@.contains(x) <==> reachable_blocks(seeds@[k], es@).contains(x),
        decreases seeds@.len() - i,
    {
        let blocks = function_blocks(seeds[i], es);
        out.push(FunctionOut { entry: seeds[i], blocks });
        i = i + 1;
    }
    out
}

// ----------------------------------------------------------------------------
// Labels.
// ----------------------------------------------------------------------------

/// The default name of a function entry.
pub open spec fn sub_name(a: u32) -> Seq<char> {
    "sub_"@ + hex_fixed(a as nat, 8)
}

/// The default name of a block.
pub open spec fn loc_name(a: u32) -> Seq<char> {
    "loc_"@ + hex_fixed(a as nat, 8)
}

fn name_of(prefix: &str, a: u32) -> (r: String)
    ensures
        r@ == prefix@ + hex_fixed(a as nat, 8),
{
    let mut s = String::from_str(prefix);
    put_hex_fixed(&mut s, a, 8);
    s
}

/// Gives every entry without a label the name `sub_XXXXXXXX`, then every
/// block start still without one `loc_XXXXXXXX`; labels already there stay.
pub fn fill_labels(labels: &mut HashMap<u32, String>, seeds: &[u32], blocks: &[Block])
    ensures
        forall|a: u32|
            #[trigger] final(labels)@.contains_key(a) <==> (old(labels)@.contains_key(a) || seeds@.contains(a)
                || exists|k: int| 0 <= k < blocks@.len() && blocks@[k].start == a),
        forall|a: u32| #[trigger] old(labels)@.contains_key(a) ==> final(labels)@[a] == old(labels)@[a],
        forall|a: u32|
            !old(labels)@.contains_key(a) && #[trigger] seeds@.contains(a) ==> final(labels)@[a]@ == sub_name(a),
        forall|k: int|
            0 <= k < blocks@.len() && !old(labels)@.contains_key(#[trigger] blocks@[k].start) && !seeds@.contains(
                blocks@[k].start,
            ) ==> final(labels)@[blocks@[k].start]@ == loc_name(blocks@[k].start),
{
    broadcast use vstd::std_specs::hash::group_hash_axioms;

    let ghost m0 = labels@;
    let mut i: usize = 0;
    while i < seeds.len()
        invariant
            i <= seeds@.len(),
            forall|a: u32|
                #[trigger] labels@.contains_key(a) <==> (m0.contains_key(a) || exists|k: int| 0 <= k < i && seeds@[k] == a),
            forall|a: u32| #[trigger] m0.contains_key(a) ==> labels@[a] == m0[a],
            forall|a: u32|
                !m0.contains_key(a) && (exists|k: int| 0 <= k < i && seeds@[k] == a) ==> #[trigger] labels@[a]@ == sub_name(a),
        decreases seeds@.len() - i,
    {
        let e = seeds[i];
        if !labels.contains_key(&e) {
            let n = name_of("sub_", e);
            proof {
                reveal_strlit("sub_");
            }
            labels.insert(e, n);
        }
        assert forall|a: u32|
            #[trigger] labels@.contains_key(a) <==> (m0.contains_key(a) || exists|k: int| 0 <= k < i + 1 && seeds@[k] == a) by {
            if a == e {
                assert(seeds@[i as int] == a);
            }
            if exists|k: int| 0 <= k < i + 1 && seeds@[k] == a {
                let k = choose|k: int| 0 <= k < i + 1 && seeds@[k] == a;
                if k < i {
                    assert(exists|k: int| 0 <= k < i && seeds@[k] == a);
                }
            }
        }
        assert forall|a: u32|
            !m0.contains_key(a) && (exists|k: int| 0 <= k < i + 1 && seeds@[k] == a) implies #[trigger] labels@[a]@ == sub_name(a) by {
            let k = choose|k: int| 0 <= k < i + 1 && seeds@[k] == a;
            if k < i {
                assert(exists|k: int| 0 <= k < i && seeds@[k] == a);
            }
        }
        i = i + 1;
    }
    let ghost m1 = labels@;
    let mut j: usize = 0;
    while j < blocks.len()
        invariant
            j <= blocks@.len(),
            forall|a: u32|
                #[trigger] labels@.contains_key(a) <==> (m1.contains_key(a) || exists|k: int| 0 <= k < j && blocks@[k].start == a),
            forall|a: u32| #[trigger] m1.contains_key(a) ==> labels@[a] == m1[a],
            forall|a: u32|
                !m1.contains_key(a) && (exists|k: int| 0 <= k < j && blocks@[k].start == a) ==> #[trigger] labels@[a]@
                    == loc_name(a),
        decreases blocks@.len() - j,
    {
        let b = blocks[j].start;
        if !labels.contains_key(&b) {
            let n = name_of("loc_", b);
            proof {
                reveal_strlit("loc_");
            }
            labels.insert(b, n);
        }
        assert forall|a: u32|
            #[trigger] labels@.contains_key(a) <==> (m1.contains_key(a) || exists|k: int| 0 <= k < j + 1 && blocks@[k].start == a) by {
            if a == b {
                assert(blocks@[j as int].start == a);
            }
            if exists|k: int| 0 <= k < j + 1 && blocks@[k].start == a {
                let k = choose|k: int| 0 <= k < j + 1 && blocks@[k].start == a;
                if k < j {
                    assert(exists|k: int| 0 <= k < j && blocks@[k].start == a);
                }
            }
        }
        assert forall|a: u32|
            !m1.contains_key(a) && (exists|k: int| 0 <= k < j + 1 && blocks@[k].start == a) implies #[trigger] labels@[a]@
                == loc_name(a) by {
            let k = choose|k: int| 0 <= k < j + 1 && blocks@[k].start == a;
            if k < j {
                assert(exists|k: int| 0 <= k < j && blocks@[k].start == a);
            }
        }
        j = j + 1;
    }
    assert forall|a: u32| #[trigger] m0.contains_key(a) implies labels@[a] == m0[a] by {
        assert(m1.contains_key(a));
        assert(m1[a] == m0[a]);
    }
    assert forall|a: u32|
        !m0.contains_key(a) && #[trigger] seeds@.contains(a) implies labels@[a]@ == sub_name(a) by {
        let k = choose|k: int| 0 <= k < seeds@.len() && seeds@[k] == a;
        assert(exists|k: int| 0 <= k < seeds@.len() && seeds@[k] == a);
    }
    assert forall|k: int|
        0 <= k < blocks@.len() && !m0.contains_key(#[trigger] blocks@[k].start) && !seeds@.contains(
            blocks@[k].start,
        ) implies labels@[blocks@[k].start]@ == loc_name(blocks@[k].start) by {
        let a = blocks@[k].start;
        assert(exists|q: int| 0 <= q < blocks@.len() && blocks@[q].start == a);
        if m1.contains_key(a) {
            let q = choose|q: int| 0 <= q < seeds@.len() && seeds@[q] == a;
            assert(seeds@.contains(a));
        }
    }
    assert forall|a: u32|
        #[trigger] labels@.contains_key(a) <==> (m0.contains_key(a) || seeds@.contains(a) || exists|k: int|
            0 <= k < blocks@.len() && blocks@[k].start == a) by {
        if seeds@.contains(a) {
            let k = choose|k: int| 0 <= k < seeds@.len() && seeds@[k] == a;
            assert(exists|k: int| 0 <= k < seeds@.len() && seeds@[k] == a);
        }
        if m1.contains_key(a) && !m0.contains_key(a) {
            let k = choose|k: int| 0 <= k < seeds@.len() && seeds@[k] == a;
            assert(seeds@[k] == a);
        }
    }
}

// ----------------------------------------------------------------------------
// Listing text.
// ----------------------------------------------------------------------------

/// The byte at `addr`, or 0 where nothing is mapped.
pub open spec fn byte_or_zero(img: Image, addr: u32) -> u8 {
    match image_byte(img, addr) {
        Some(b) => b,
        None => 0,
    }
}

/// `{:02x} ` for the bytes at `pc + i`, `pc + i + 1`, ... below `pc + n`.
pub open spec fn bytes_from(img: Image, pc: u32, i: nat, n: nat) -> Seq<char>
    decreases n - i,
{
    if i >= n {
        Seq::empty()
    } else {
        hex_fixed(byte_or_zero(img, (pc + i) as u32) as nat, 2) + " "@ + bytes_from(img, pc, i + 1, n)
    }
}

/// One listing line for the instruction `d` at `pc`: the address, then,
/// with `show_bytes`, its bytes, then its disassembly.
pub open spec fn insn_text(img: Image, pc: u32, d: Decoded, show_bytes: bool) -> Seq<char> {
    if show_bytes {
        addr_text(pc) + ": "@ + bytes_from(img, pc, 0, d.width as nat) + "  "@ + disasm_text(d)
    } else {
        addr_text(pc) + ": "@ + disasm_text(d)
    }
}

/// The listing line of the instruction `d` at `pc` (see `insn_text`).
pub fn insn_line(img: &Image, pc: u32, d: &Decoded, show_bytes: bool) -> (r: String)
    requires
        show_bytes ==> pc + d.width <= 0x1_0000_0000,
    ensures
        r@ == insn_text(*img, pc, *d, show_bytes),
{
    let mut s = String::new();
    put_addr(&mut s, pc);
    put(&mut s, ": ");
    if show_bytes {
        let w = d.width as u32;
        let ghost s0 = s@;
        let mut i: u32 = 0;
        while i < w
            invariant
                w == d.width,
                i <= w,
                pc + w <= 0x1_0000_0000,
                s@ + bytes_from(*img, pc, i as nat, w as nat) == s0 + bytes_from(*img, pc, 0, w as nat),
            decreases w - i,
        {
            let b = match read_u8(img, pc + i) {
                Some(b) => b,
                None => 0,
            };
            let ghost s1 = s@;
            put_hex_fixed(&mut s, b as u32, 2);
            put(&mut s, " ");
            proof {
                reveal_strlit(" ");
                assert(s@ =~= s1 + hex_fixed(b as nat, 2) + " "@);
                assert(s1 + bytes_from(*img, pc, i as nat, w as nat) =~= s@ + bytes_from(
                    *img,
                    pc,
                    (i + 1) as nat,
                    w as nat,
                ));
            }
            i = i + 1;
        }
        put(&mut s, "  ");
    }
    let t = fmt_decoded(d);
    put(&mut s, t.as_str());
    proof {
        reveal_strlit(": ");
        reveal_strlit("  ");
    }
    assert(s@ =~= insn_text(*img, pc, *d, show_bytes));
    s
}

/// The listing lines of a block from `pc` on: one per instruction that
/// decodes, while below the block's end; `fuel` bounds the steps.
pub open spec fn block_lines(img: Image, end: u32, pc: u32, fuel: nat, show_bytes: bool, acc: Seq<Seq<char>>) -> Seq<
    Seq<char>,
>
    decreases fuel,
{
    if pc >= end {
        acc
    } else {
        match decoded_at(img, pc) {
            None => acc,
            Some(d) => {
                let acc2 = acc.push(insn_text(img, pc, d, show_bytes));
                if fuel == 0 {
                    acc2
                } else {
                    block_lines(img, end, wadd(pc, d.width as u32), (fuel - 1) as nat, show_bytes, acc2)
                }
            },
        }
    }
}

/// Whether, listing a block's bytes from `pc` on (see `block_lines`), each
/// instruction listed ends at or below the top of the address space: its
/// bytes are read at its address plus 0, 1, ...
pub open spec fn block_bytes_fit(img: Image, end: u32, pc: u32, fuel: nat) -> bool
    decreases fuel,
{
    if pc >= end {
        true
    } else {
        match decoded_at(img, pc) {
            None => true,
            Some(d) => pc + d.width <= 0x1_0000_0000 && (fuel == 0 || block_bytes_fit(
                img,
                end,
                wadd(pc, d.width as u32),
                (fuel - 1) as nat,
            )),
        }
    }
}

/// `block_bytes_fit` for every block, walked from its start.
pub open spec fn blocks_bytes_fit(img: Image, blocks: Seq<Block>) -> bool {
    forall|k: int|
        #![trigger blocks[k]]
        0 <= k < blocks.len() ==> block_bytes_fit(img, blocks[k].end, blocks[k].start, WALK_FUEL as nat)
}

fn block_fit_check(img: &Image, start: u32, end: u32) -> (r: bool)
    ensures
        r == block_bytes_fit(*img, end, start, WALK_FUEL as nat),
{
    let mut pc = start;
    let mut fuel: u64 = WALK_FUEL;
    while pc < end
        invariant
            block_bytes_fit(*img, end, start, WALK_FUEL as nat) == block_bytes_fit(*img, end, pc, fuel as nat),
        decreases fuel,
    {
        let d = match decode_at(img, pc) {
            Some(d) => d,
            None => {
                return true;
            },
        };
        if pc as u64 + d.width as u64 > 0x1_0000_0000 {
            return false;
        }
        if fuel == 0 {
            return true;
        }
        pc = pc.wrapping_add(d.width as u32);
        fuel = fuel - 1;
    }
    true
}

/// Decides `blocks_bytes_fit`: whether the blocks can be listed with their
/// bytes.
pub fn blocks_bytes_fit_check(img: &Image, blocks: &Vec<Block>) -> (r: bool)
    ensures
        r == blocks_bytes_fit(*img, blocks@),
{
    let mut k: usize = 0;
    while k < blocks.len()
        invariant
            k <= blocks@.len(),
            forall|q: int|
                #![trigger blocks@[q]]
                0 <= q < k ==> block_bytes_fit(*img, blocks@[q].end, blocks@[q].start, WALK_FUEL as nat),
        decreases blocks@.len() - k,
    {
        let b = blocks[k];
        if !block_fit_check(img, b.start, b.end) {
            assert(!block_bytes_fit(*img, blocks@[k as int].end, blocks@[k as int].start, WALK_FUEL as nat));
            return false;
        }
        k = k + 1;
    }
    true
}

/// The texts of some strings.
pub open spec fn texts(v: Seq<String>) -> Seq<Seq<char>> {
    v.map_values(|s: String| s@)
}

/// Each block with the listing lines of its instructions.
pub fn enrich_blocks_with_mnemonics(
    img: &Image,
    widths: &HashMap<u32, u8>,
    blocks: &Vec<Block>,
    show_bytes: bool,
) -> (r: Vec<BlockOut>)
    requires
        show_bytes ==> blocks_bytes_fit(*img, blocks@),
    ensures
        r@.len() == blocks@.len(),
        forall|k: int|
            #![trigger r@[k]]
            0 <= k < blocks@.len() ==> r@[k].start == blocks@[k].start && r@[k].end == blocks@[k].end && texts(
                r@[k].insns@,
            ) == block_lines(*img, blocks@[k].end, blocks@[k].start, WALK_FUEL as nat, show_bytes, Seq::empty()),
{
    let mut out: Vec<BlockOut> = Vec::new();
    let mut k: usize = 0;
    while k < blocks.len()
        invariant
            k <= blocks@.len(),
            out@.len() == k,
            show_bytes ==> blocks_bytes_fit(*img, blocks@),
            forall|q: int|
                #![trigger out@[q]]
                0 <= q < k ==> out@[q].start == blocks@[q].start && out@[q].end == blocks@[q].end && texts(
                    out@[q].insns@,
                ) == block_lines(*img, blocks@[q].end, blocks@[q].start, WALK_FUEL as nat, show_bytes, Seq::empty()),
        decreases blocks@.len() - k,
    {
        let b = blocks[k];
        let mut lines: Vec<String> = Vec::new();
        let mut pc = b.start;
        let mut fuel: u64 = WALK_FUEL;
        assert(texts(lines@) =~= Seq::<Seq<char>>::empty());
        assert(b == blocks@[k as int]);
        while pc < b.end
            invariant_except_break
                block_lines(*img, b.end, b.start, WALK_FUEL as nat, show_bytes, Seq::empty()) == block_lines(
                    *img,
                    b.end,
                    pc,
                    fuel as nat,
                    show_bytes,
                    texts(lines@),
                ),
                show_bytes ==> block_bytes_fit(*img, b.end, pc, fuel as nat),
            ensures
                block_lines(*img, b.end, b.start, WALK_FUEL as nat, show_bytes, Seq::empty()) == texts(lines@),
            decreases fuel,
        {
            let d = match decode_at(img, pc) {
                Some(d) => d,
                None => {
                    break;
                },
            };
            let line = insn_line(img, pc, &d, show_bytes);
            let ghost l0 = lines@;
            lines.push(line);
            assert(texts(lines@) =~= texts(l0).push(insn_text(*img, pc, d, show_bytes)));
            if fuel == 0 {
                break;
            }
            pc = pc.wrapping_add(d.width as u32);
            fuel = fuel - 1;
        }
        let ghost o0 = out@;
        out.push(BlockOut { start: b.start, end: b.end, insns: lines });
        assert forall|q: int|
            #![trigger out@[q]]
            0 <= q < k + 1 implies out@[q].start == blocks@[q].start && out@[q].end == blocks@[q].end && texts(
                out@[q].insns@,
            ) == block_lines(*img, blocks@[q].end, blocks@[q].start, WALK_FUEL as nat, show_bytes, Seq::empty()) by {
            if q < k {
                assert(out@[q] == o0[q]);
            }
        }
        k = k + 1;
    }
    out
}

/// The line for a word that does not decode: `.word` and its value.
pub open spec fn word_text(pc: u32, raw: u32) -> Seq<char> {
    addr_text(pc) + ": .word "@ + addr_text(raw)
}

/// Linear disassembly from `pc` up to `end`: one line per instruction, or
/// per undecodable word (then 4 bytes on); it stops at the first address
/// whose word is not mapped, which it reports. `fuel` bounds the steps.
pub open spec fn range_from(img: Image, end: u32, pc: u32, fuel: nat, show_bytes: bool, out: Seq<char>) -> (
    Seq<char>,
    Option<u32>,
)
    decreases fuel,
{
    if pc >= end {
        (out, None)
    } else {
        match image_u32(img, pc) {
            None => (out, Some(pc)),
            Some(raw) => {
                let (line, w) = match tc16_decode(raw) {
                    Some(d) => (insn_text(img, pc, d, show_bytes), d.width as u32),
                    None => (word_text(pc, raw), 4u32),
                };
                let out2 = out + line + "\n"@;
                if fuel == 0 {
                    (out2, None)
                } else {
                    range_from(img, end, wadd(pc, w), (fuel - 1) as nat, show_bytes, out2)
                }
            },
        }
    }
}

/// Whether, disassembling from `pc` with bytes (see `range_from`), each
/// instruction listed ends at or below the top of the address space.
pub open spec fn range_bytes_fit(img: Image, end: u32, pc: u32, fuel: nat) -> bool
    decreases fuel,
{
    if pc >= end {
        true
    } else {
        match image_u32(img, pc) {
            None => true,
            Some(raw) => {
                let (fits, w) = match tc16_decode(raw) {
                    Some(d) => (pc + d.width <= 0x1_0000_0000, d.width as u32),
                    None => (true, 4u32),
                };
                fits && (fuel == 0 || range_bytes_fit(img, end, wadd(pc, w), (fuel - 1) as nat))
            },
        }
    }
}

/// Decides `range_bytes_fit` for the range [start, end): whether it can be
/// disassembled with bytes.
pub fn range_bytes_fit_check(img: &Image, start: u32, end: u32) -> (r: bool)
    ensures
        r == range_bytes_fit(*img, end, start, WALK_FUEL as nat),
{
    let mut pc = start;
    let mut fuel: u64 = WALK_FUEL;
    while pc < end
        invariant
            range_bytes_fit(*img, end, start, WALK_FUEL as nat) == range_bytes_fit(*img, end, pc, fuel as nat),
        decreases fuel,
    {
        let raw = match read_u32(img, pc) {
            Some(raw) => raw,
            None => {
                return true;
            },
        };
        let w: u32 = match Tc16Decoder::new().decode(raw) {
            Some(d) => {
                if pc as u64 + d.width as u64 > 0x1_0000_0000 {
                    return false;
                }
                d.width as u32
            },
            None => 4,
        };
        if fuel == 0 {
            return true;
        }
        pc = pc.wrapping_add(w);
        fuel = fuel - 1;
    }
    true
}

/// Why a range cannot be disassembled.
#[derive(Debug, Clone, Copy, PartialEq, Eq, Structural)]
pub enum RangeError {
    /// The end lies before the start.
    EndBeforeStart,
}

/// Disassembles [start, end) (see `range_from`): the text, and the address
/// where the image ran out, if it did.
pub fn disasm_range(img: &Image, start: u32, end: u32, show_bytes: bool) -> (r: Result<(String, Option<u32>), RangeError>)
    requires
        show_bytes && start <= end ==> range_bytes_fit(*img, end, start, WALK_FUEL as nat),
    ensures
        end < start ==> r == Err::<(String, Option<u32>), RangeError>(RangeError::EndBeforeStart),
        end >= start ==> (r matches Ok((text, oob)) && (text@, oob) == range_from(
            *img,
            end,
            start,
            WALK_FUEL as nat,
            show_bytes,
            Seq::empty(),
        )),
{
    if end < start {
        return Err(RangeError::EndBeforeStart);
    }
    proof {
        reveal_strlit("\n");
        reveal_strlit(": .word ");
    }
    let mut buf = String::new();
    let mut pc = start;
    let mut fuel: u64 = WALK_FUEL;
    while pc < end
        invariant
            end >= start,
            show_bytes ==> range_bytes_fit(*img, end, pc, fuel as nat),
            range_from(*img, end, start, WALK_FUEL as nat, show_bytes, Seq::empty()) == range_from(
                *img,
                end,
                pc,
                fuel as nat,
                show_bytes,
                buf@,
            ),
        decreases fuel,
    {
        let raw = match read_u32(img, pc) {
            Some(raw) => raw,
            None => {
                return Ok((buf, Some(pc)));
            },
        };
        let ghost b0 = buf@;
        let w: u32 = match Tc16Decoder::new().decode(raw) {
            Some(d) => {
                assert(decoded_at(*img, pc) == Some(d));
                let line = insn_line(img, pc, &d, show_bytes);
                put(&mut buf, line.as_str());
                d.width as u32
            },
            None => {
                put_addr(&mut buf, pc);
                put(&mut buf, ": .word ");
                put_addr(&mut buf, raw);
                assert(buf@ =~= b0 + word_text(pc, raw));
                4
            },
        };
        let ghost b1 = buf@;
        put(&mut buf, "\n");
        if fuel == 0 {
            assert(buf@ == b1 + "\n"@);
            return Ok((buf, None));
        }
        pc = pc.wrapping_add(w);
        fuel = fuel - 1;
    }
    Ok((buf, None))
}

/// The listing of the addresses `pcs`: before an address with a label, the
/// line `0xADDRESS <label>:`; then, indented by two spaces, its instruction
/// or `.word` line, when a word is mapped there.
pub open spec fn listing_from(img: Image, pcs: Seq<u32>, labels: Map<u32, String>, show_bytes: bool, i: int, acc: Seq<
    Seq<char>,
>) -> Seq<Seq<char>>
    decreases pcs.len() - i,
{
    if i < 0 || i >= pcs.len() {
        acc
    } else {
        let pc = pcs[i];
        let with_label = if labels.contains_key(pc) {
            acc.push(addr_text(pc) + " <"@ + labels[pc]@ + ">:"@)
        } else {
            acc
        };
        let with_line = match image_u32(img, pc) {
            Some(raw) => match tc16_decode(raw) {
                Some(d) => with_label.push("  "@ + insn_text(img, pc, d, show_bytes)),
                None => with_label.push("  "@ + word_text(pc, raw)),
            },
            None => with_label,
        };
        listing_from(img, pcs, labels, show_bytes, i + 1, with_line)
    }
}

/// Whether each instruction that decodes at one of the addresses `pcs`
/// ends at or below the top of the address space, so that its bytes can be
/// listed.
pub open spec fn listing_bytes_fit(img: Image, pcs: Seq<u32>) -> bool {
    forall|i: int|
        0 <= i < pcs.len() ==> (#[trigger] decoded_at(img, pcs[i]) matches Some(d) ==> pcs[i] + d.width
            <= 0x1_0000_0000)
}

/// Decides `listing_bytes_fit`.
pub fn listing_bytes_fit_check(img: &Image, pcs: &[u32]) -> (r: bool)
    ensures
        r == listing_bytes_fit(*img, pcs@),
{
    let mut i: usize = 0;
    while i < pcs.len()
        invariant
            i <= pcs@.len(),
            forall|q: int|
                0 <= q < i ==> (#[trigger] decoded_at(*img, pcs@[q]) matches Some(d) ==> pcs@[q] + d.width
                    <= 0x1_0000_0000),
        decreases pcs@.len() - i,
    {
        let pc = pcs[i];
        match decode_at(img, pc) {
            Some(d) => {
                if pc as u64 + d.width as u64 > 0x1_0000_0000 {
                    assert(decoded_at(*img, pcs@[i as int]) == Some(d));
                    return false;
                }
            },
            None => {},
        }
        i = i + 1;
    }
    true
}

/// The listing of the analysed addresses `pcs` (see `listing_from`).
pub fn listing(img: &Image, pcs: &[u32], labels: &HashMap<u32, String>, show_bytes: bool) -> (r: Vec<String>)
    requires
        show_bytes ==> listing_bytes_fit(*img, pcs@),
    ensures
        texts(r@) == listing_from(*img, pcs@, labels@, show_bytes, 0, Seq::empty()),
{
    broadcast use vstd::std_specs::hash::group_hash_axioms;

    proof {
        reveal_strlit(" <");
        reveal_strlit(">:");
        reveal_strlit("  ");
        reveal_strlit(": .word ");
    }
    let mut out: Vec<String> = Vec::new();
    assert(texts(out@) =~= Seq::<Seq<char>>::empty());
    let mut i: usize = 0;
    while i < pcs.len()
        invariant
            i <= pcs@.len(),
            show_bytes ==> listing_bytes_fit(*img, pcs@),
            listing_from(*img, pcs@, labels@, show_bytes, 0, Seq::empty()) == listing_from(
                *img,
                pcs@,
                labels@,
                show_bytes,
                i as int,
                texts(out@),
            ),
        decreases pcs@.len() - i,
    {
        let pc = pcs[i];
        match labels.get(&pc) {
            Some(l) => {
                let mut s = String::new();
                put_addr(&mut s, pc);
                put(&mut s, " <");
                put(&mut s, l.as_str());
                put(&mut s, ">:");
                let ghost o0 = out@;
                out.push(s);
                assert(texts(out@) =~= texts(o0).push(addr_text(pc) + " <"@ + labels@[pc]@ + ">:"@));
            },
            None => {},
        }
        match read_u32(img, pc) {
            Some(raw) => {
                let mut s = String::from_str("  ");
                match Tc16Decoder::new().decode(raw) {
                    Some(d) => {
                        assert(decoded_at(*img, pc) == Some(d));
                        let line = insn_line(img, pc, &d, show_bytes);
                        put(&mut s, line.as_str());
                        assert(s@ =~= "  "@ + insn_text(*img, pc, d, show_bytes));
                    },
                    None => {
                        put_addr(&mut s, pc);
                        put(&mut s, ": .word ");
                        put_addr(&mut s, raw);
                        assert(s@ =~= "  "@ + word_text(pc, raw));
                    },
                }
                let ghost o1 = out@;
                out.push(s);
                assert(texts(out@) =~= texts(o1).push(s@));
            },
            None => {},
        }
        i = i + 1;
    }
    out
}

/// Everything the analysis of a program yields.
pub struct Analysis {
    /// The report: entries, blocks, block-level edges and functions.
    pub report: Report,
    /// The addresses the walk reached.
    pub visited: HashSet<u32>,
    /// The width of each decoded instruction.
    pub widths: HashMap<u32, u8>,
    /// The instruction-level edges.
    pub edges: Vec<Edge>,
    /// The block of each instruction address.
    pub addr_to_block: HashMap<u32, u32>,
}

/// Analyses the program from the entries `seeds`: walks the code (see
/// `analyze_entries`), cuts it into blocks at the entries and at every edge
/// destination, lifts the edges to blocks and collects, for each entry, the
/// blocks reachable from it.
pub fn build_report(img: &Image, seeds: &[u32], max_instr: usize) -> (r: Analysis)
    ensures
        analysis_sound(*img, max_instr, r.visited@, r.widths@, r.edges@),
        r.widths@.dom().len() < max_instr ==> analysis_complete(*img, seeds@, r.visited@, r.widths@),
        r.visited@ == walk_result(*img, seeds@, max_instr as nat).visited,
        r.widths@ == walk_result(*img, seeds@, max_instr as nat).widths,
        r.edges@ == walk_result(*img, seeds@, max_instr as nat).edges,
        r.report.entries@ == seeds@,
        ({
            let starts = choose|st: Seq<u32>|
                strictly_sorted(st) && forall|y: u32|
                    st.contains(y) <==> (seeds@.contains(y) || exists|k: int|
                        0 <= k < r.edges@.len() && r.edges@[k].to == y);
            let bm = blocks_from(*img, r.visited@, r.widths@, r.edges@, starts, 0, Map::empty(), Seq::empty());
            &&& r.report.blocks@ == bm.0
            &&& r.addr_to_block@ == bm.1
        }),
        r.report.edges@.len() == r.edges@.len(),
        forall|k: int|
            #![trigger r.report.edges@[k]]
            0 <= k < r.edges@.len() ==> r.report.edges@[k].from == block_of(r.addr_to_block@, r.edges@[k].from)
                && r.report.edges@[k].to == r.edges@[k].to && r.report.edges@[k].kind@ == kind_text(r.edges@[k].kind),
        r.report.functions@.len() == seeds@.len(),
        forall|k: int|
            0 <= k < seeds@.len() ==> #[trigger] r.report.functions@[k].entry == seeds@[k] && strictly_sorted(
                r.report.functions@[k].blocks@,
            ) && forall|x: u32|
                r.report.functions@[k].blocks@.contains(x) <==> reachable_blocks(seeds@[k], r.report.edges@).contains(x),
{
    let (visited, widths, edges) = analyze_entries(img, seeds, max_instr);
    let starts = block_starts(seeds, edges.as_slice());
    let (blocks, addr_to_block) = build_blocks(img, &visited, &widths, edges.as_slice(), &starts);
    let es = block_edges(edges.as_slice(), &addr_to_block);
    let functions = functions_of(seeds, es.as_slice());
    let mut entries: Vec<u32> = Vec::new();
    let mut i: usize = 0;
    while i < seeds.len()
        invariant
            i <= seeds@.len(),
            entries@ == seeds@.subrange(0, i as int),
        decreases seeds@.len() - i,
    {
        entries.push(seeds[i]);
        i = i + 1;
    }
    proof {
        let st = choose|st: Seq<u32>|
            strictly_sorted(st) && forall|y: u32|
                st.contains(y) <==> (seeds@.contains(y) || exists|k: int| 0 <= k < edges@.len() && edges@[k].to == y);
        lemma_sorted_sets_equal(st, starts@);
    }
    Analysis {
        report: Report { entries, blocks, edges: es, functions },
        visited,
        widths,
        edges,
        addr_to_block,
    }
}

/// Two strictly sorted sequences with the same members are the same.
pub proof fn lemma_sorted_sets_equal(a: Seq<u32>, b: Seq<u32>)
    requires
        strictly_sorted(a),
        strictly_sorted(b),
        forall|y: u32| a.contains(y) <==> b.contains(y),
    ensures
        a == b,
    decreases a.len() + b.len(),
{
    if a.len() == 0 || b.len() == 0 {
        if a.len() > 0 {
            assert(a.contains(a[0]));
        }
        if b.len() > 0 {
            assert(b.contains(b[0]));
        }
        assert(a =~= b);
    } else {
        assert(a.contains(a[0]) && b.contains(b[0]));
        let i = choose|i: int| 0 <= i < b.len() && b[i] == a[0];
        let j = choose|j: int| 0 <= j < a.len() && a[j] == b[0];
        if i > 0 {
            assert(b[0] < b[i]);
            assert(a[0] < a[j] || j == 0);
        }
        if j > 0 {
            assert(a[0] < a[j]);
        }
        assert(a[0] == b[0]);
        let a1 = a.drop_first();
        let b1 = b.drop_first();
        assert forall|y: u32| a1.contains(y) <==> b1.contains(y) by {
            if a1.contains(y) {
                let k = choose|k: int| 0 <= k < a1.len() && a1[k] == y;
                assert(a[k + 1] == y && a[0] < a[k + 1]);
                assert(b.contains(y));
                let q = choose|q: int| 0 <= q < b.len() && b[q] == y;
                assert(q != 0);
                assert(b1[q - 1] == y);
            }
            if b1.contains(y) {
                let k = choose|k: int| 0 <= k < b1.len() && b1[k] == y;
                assert(b[k + 1] == y && b[0] < b[k + 1]);
                assert(a.contains(y));
                let q = choose|q: int| 0 <= q < a.len() && a[q] == y;
                assert(q != 0);
                assert(a1[q - 1] == y);
            }
        }
        lemma_sorted_sets_equal(a1, b1);
        assert(a =~= seq![a[0]] + a1);
        assert(b =~= seq![b[0]] + b1);
    }
}

/// Whether every character of `t` is an ASCII hex digit.
pub open spec fn all_hex(t: Seq<char>) -> bool {
    forall|i: int| 0 <= i < t.len() ==> digit_of(#[trigger] t[i], true) is Some
}

/// What the viewer's search box resolves to, `r`: after trimming, a number
/// (decimal, or hex after `0x`), else up to eight bare hex digits, else the
/// address of a label with exactly that name, else nothing. When several
/// labels carry the name, any of them is an answer.
pub open spec fn nav_result(s: Seq<char>, labels: Map<u32, String>, r: Option<u32>) -> bool {
    let t = trim(s);
    if t.len() == 0 {
        r is None
    } else if number_value(t) is Ok {
        r == ok_of(number_value(t))
    } else if all_hex(t) && t.len() <= 8 && radix_value(t, true) is Ok {
        r == ok_of(radix_value(t, true))
    } else {
        &&& (r matches Some(a) ==> labels.contains_key(a) && labels[a]@ == t)
        &&& (r is None ==> forall|a: u32| #[trigger] labels.contains_key(a) ==> labels[a]@ != t)
    }
}

/// Resolves what is typed into the viewer's search box (see `nav_result`).
/// Among several labels of the same name, the map's iteration order decides.
pub fn parse_nav(s: &str, labels: &HashMap<u32, String>) -> (r: Option<u32>)
    ensures
        nav_result(s@, labels@, r),
{
    broadcast use vstd::std_specs::hash::group_hash_axioms;

    let cs = chars_of(s);
    let v = cs.as_slice();
    assert(v@.subrange(0, v@.len() as int) =~= s@);
    let (a, b) = trim_range(v, 0, v.len());
    let ghost t = v@.subrange(a as int, b as int);
    if a == b {
        return None;
    }
    match number_in(v, a, b) {
        Ok(x) => {
            return Some(x);
        },
        Err(_) => {},
    }
    let mut all = true;
    let mut i = a;
    while i < b
        invariant
            a <= i <= b <= v@.len(),
            t == v@.subrange(a as int, b as int),
            all == forall|q: int| 0 <= q < i - a ==> digit_of(#[trigger] t[q], true) is Some,
        decreases b - i,
    {
        let c = v[i];
        let n = c as u32;
        assert(t[i - a] == c);
        let hex = (0x30 <= n && n <= 0x39) || (0x61 <= n && n <= 0x66) || (0x41 <= n && n <= 0x46);
        assert(hex == digit_of(c, true) is Some);
        all = all && hex;
        i = i + 1;
    }
    if all && b - a <= 8 {
        match radix_in(v, a, b, true) {
            Ok(x) => {
                return Some(x);
            },
            Err(_) => {},
        }
    }
    let name = String::from_str(s.substring_char(a, b));
    assert(all == all_hex(t));
    assert(!(all_hex(t) && t.len() <= 8 && radix_value(t, true) is Ok));
    for item in it: labels.iter()
        invariant
            name@ == t,
            t == trim(s@),
            t.len() > 0,
            number_value(t) is Err,
            !(all_hex(t) && t.len() <= 8 && radix_value(t, true) is Ok),
            it.seq() == spec_hash_map_iter(labels).remaining(),
            forall|q: int| 0 <= q < it.index() ==> (*(#[trigger] it.seq()[q]).1)@ != t,
    {
        let (pc, l) = item;
        if l.eq(&name) {
            return Some(*pc);
        }
    }
    proof {
        let rem = spec_hash_map_iter(labels).remaining();
        assert forall|x: u32| #[trigger] labels@.contains_key(x) implies labels@[x]@ != t by {
            assert(rem.contains((&x, &labels@[x])));
            let q = choose|q: int| 0 <= q < rem.len() && rem[q] == (&x, &labels@[x]);
            assert((*rem[q].1)@ != t);
        }
    }
    None
}

} // verus!
