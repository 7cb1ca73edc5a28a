//! Control-flow discovery over a program image.
use vstd::prelude::*;
use std::collections::{HashMap, HashSet, VecDeque};
use crate::bits::wadd;
use crate::cpu::CpuView;
use crate::exec::{int_exec, is_branch, lemma_exec_pc};
use crate::decoder::{Decoded, Decoder, Op};
use crate::isa::tc16::{Tc16Decoder, tc16_decode};
use crate::model::{Image, image_maps, image_u32, is_mapped, read_u32};

verus! {

#[derive(Debug, Clone, Copy, PartialEq, Eq, Structural)]
pub enum EdgeKind {
    Fallthrough,
    Branch,
    CondBranch,
    Call,
}

#[derive(Debug, Clone, Copy, PartialEq, Eq, Structural)]
pub struct Edge {
    pub from: u32,
    pub to: u32,
    pub kind: EdgeKind,
}

/// The instruction that decodes from the word at `pc`, if any.
pub open spec fn decoded_at(img: Image, pc: u32) -> Option<Decoded> {
    match image_u32(img, pc) {
        Some(raw) => tc16_decode(raw),
        None => None,
    }
}

pub open spec fn is_cond_branch(op: Op) -> bool {
    op == Op::Jeq || op == Op::Jne || op == Op::JeqImm || op == Op::JneImm || op == Op::Jge
        || op == Op::JgeU || op == Op::JgeImm || op == Op::JgeUImm || op == Op::Jlt || op == Op::JltU
        || op == Op::JltImm || op == Op::JltUImm || op == Op::JeqA || op == Op::JneA || op == Op::Bne
        || op == Op::JzA || op == Op::JnzA
}

/// Kind of the edge to the target of a jump, branch or call.
pub open spec fn branch_kind(op: Op) -> Option<EdgeKind> {
    if op == Op::J {
        Some(EdgeKind::Branch)
    } else if is_cond_branch(op) {
        Some(EdgeKind::CondBranch)
    } else if op == Op::Call || op == Op::CallA {
        Some(EdgeKind::Call)
    } else {
        None
    }
}

/// Address of the next instruction.
pub open spec fn fallthrough(pc: u32, d: Decoded) -> u32 {
    wadd(pc, d.width as u32)
}

/// Target of a jump, branch or call: absolute for CALLA, relative to the
/// next instruction otherwise.
pub open spec fn target(pc: u32, d: Decoded) -> u32 {
    if d.op == Op::CallA {
        d.imm
    } else {
        wadd(fallthrough(pc, d), d.imm)
    }
}

/// Whether control can continue with the next instruction.
pub open spec fn falls_through(op: Op) -> bool {
    op != Op::J && op != Op::Ret
}

/// An edge that the instruction `d` at `pc` has.
pub open spec fn edge_of(pc: u32, d: Decoded, e: Edge) -> bool {
    &&& e.from == pc
    &&& {
        ||| (branch_kind(d.op) == Some(e.kind) && e.to == target(pc, d))
        ||| (falls_through(d.op) && e.kind == EdgeKind::Fallthrough && e.to == fallthrough(pc, d))
    }
}

/// Whether control goes from the instruction `d` at `pc` to `t`.
pub open spec fn next_of(pc: u32, d: Decoded, t: u32) -> bool {
    ||| (branch_kind(d.op) is Some && t == target(pc, d))
    ||| (falls_through(d.op) && t == fallthrough(pc, d))
}

/// Whether the walk continues from the instruction at `pc` to `t`.
pub open spec fn successor(img: Image, pc: u32, t: u32) -> bool {
    next_of(pc, decoded_at(img, pc).unwrap(), t)
}

/// What every result of the walk satisfies: it visits mapped addresses only,
/// records the width of exactly the visited addresses that decode, decodes at
/// most `max_instr` instructions, its edges are edges of decoded instructions,
/// and each decoded jump, branch or call has its target edge.
pub open spec fn analysis_sound(
    img: Image,
    max_instr: usize,
    visited: Set<u32>,
    widths: Map<u32, u8>,
    edges: Seq<Edge>,
) -> bool {
    &&& forall|pc: u32| #[trigger] visited.contains(pc) ==> image_maps(img, pc)
    &&& forall|pc: u32| #[trigger] widths.contains_key(pc) <==> visited.contains(pc) && decoded_at(img, pc) is Some
    &&& forall|pc: u32| #[trigger] widths.contains_key(pc) ==> widths[pc] == decoded_at(img, pc).unwrap().width
    &&& widths.dom().len() <= max_instr
    &&& forall|k: int| 0 <= k < edges.len() ==> widths.contains_key(#[trigger] edges[k].from)
        && edge_of(edges[k].from, decoded_at(img, edges[k].from).unwrap(), edges[k])
    &&& forall|pc: u32| #[trigger] widths.contains_key(pc) && branch_kind(decoded_at(img, pc).unwrap().op) is Some
        ==> edges.contains(Edge {
            from: pc,
            to: target(pc, decoded_at(img, pc).unwrap()),
            kind: branch_kind(decoded_at(img, pc).unwrap().op).unwrap(),
        })
}

/// When the budget was not exhausted the walk is closed: every mapped entry
/// and every mapped successor of a decoded instruction was visited.
pub open spec fn analysis_complete(img: Image, entries: Seq<u32>, visited: Set<u32>, widths: Map<u32, u8>) -> bool {
    &&& forall|j: int| 0 <= j < entries.len() && image_maps(img, #[trigger] entries[j]) ==> visited.contains(entries[j])
    &&& forall|pc: u32, t: u32| #[trigger] widths.contains_key(pc) && #[trigger] successor(img, pc, t) && image_maps(img, t)
        ==> visited.contains(t)
}

/// The addresses at most `n` steps from the mapped entries, a step leading
/// from a decoded instruction to one of its successors.
pub open spec fn reach_within(img: Image, entries: Seq<u32>, n: nat) -> Set<u32>
    decreases n,
{
    if n == 0 {
        Set::new(|v: u32| entries.contains(v) && image_maps(img, v))
    } else {
        let w = reach_within(img, entries, (n - 1) as nat);
        w.union(
            Set::new(
                |t: u32| exists|p: u32| w.contains(p) && decoded_at(img, p) is Some && #[trigger] successor(img, p, t),
            ),
        )
    }
}

/// Whether some number of steps leads from the mapped entries to `v`.
pub open spec fn reachable(img: Image, entries: Seq<u32>, v: u32) -> bool {
    exists|n: nat| #[trigger] reach_within(img, entries, n).contains(v)
}

/// A successor of a reachable decoded instruction is reachable.
pub proof fn lemma_reachable_step(img: Image, entries: Seq<u32>, p: u32, t: u32)
    requires
        reachable(img, entries, p),
        decoded_at(img, p) is Some,
        successor(img, p, t),
    ensures
        reachable(img, entries, t),
{
    let n = choose|n: nat| #[trigger] reach_within(img, entries, n).contains(p);
    assert(reach_within(img, entries, n + 1).contains(t));
}

proof fn lemma_within_visited(
    img: Image,
    entries: Seq<u32>,
    max_instr: usize,
    visited: Set<u32>,
    widths: Map<u32, u8>,
    edges: Seq<Edge>,
    n: nat,
)
    requires
        analysis_sound(img, max_instr, visited, widths, edges),
        analysis_complete(img, entries, visited, widths),
    ensures
        forall|v: u32| #[trigger] reach_within(img, entries, n).contains(v) && image_maps(img, v) ==> visited.contains(v),
    decreases n,
{
    if n > 0 {
        lemma_within_visited(img, entries, max_instr, visited, widths, edges, (n - 1) as nat);
        let w = reach_within(img, entries, (n - 1) as nat);
        assert forall|v: u32| #[trigger] reach_within(img, entries, n).contains(v) && image_maps(img, v) implies visited.contains(v) by {
            if !w.contains(v) {
                let p = choose|p: u32| w.contains(p) && decoded_at(img, p) is Some && #[trigger] successor(img, p, v);
                crate::model::lemma_image_byte_mapped(img, p);
                assert(visited.contains(p));
                assert(widths.contains_key(p));
            }
        }
    } else {
        assert forall|v: u32| #[trigger] reach_within(img, entries, n).contains(v) && image_maps(img, v) implies visited.contains(v) by {
            let j = choose|j: int| 0 <= j < entries.len() && entries[j] == v;
        }
    }
}

/// A walk that stopped below its budget is exact: it visited precisely the
/// mapped addresses reachable from the entries.
pub proof fn lemma_walk_exact(
    img: Image,
    entries: Seq<u32>,
    max_instr: usize,
    visited: Set<u32>,
    widths: Map<u32, u8>,
    edges: Seq<Edge>,
)
    requires
        analysis_sound(img, max_instr, visited, widths, edges),
        analysis_complete(img, entries, visited, widths),
        forall|pc: u32| #[trigger] visited.contains(pc) ==> reachable(img, entries, pc),
    ensures
        forall|v: u32| #[trigger] visited.contains(v) <==> reachable(img, entries, v) && image_maps(img, v),
{
    assert forall|v: u32| reachable(img, entries, v) && image_maps(img, v) implies #[trigger] visited.contains(v) by {
        let n = choose|n: nat| #[trigger] reach_within(img, entries, n).contains(v);
        lemma_within_visited(img, entries, max_instr, visited, widths, edges, n);
    }
}

/// The state of the walk: the addresses waiting, in order; the addresses
/// visited; the widths of the decoded ones; the edges so far; and how many
/// instructions were decoded.
pub struct Walk {
    pub queue: Seq<u32>,
    pub visited: Set<u32>,
    pub widths: Map<u32, u8>,
    pub edges: Seq<Edge>,
    pub steps: nat,
}

/// What following the instruction `d` at `pc` adds to the queue and the
/// edges: the target edge of a jump, branch or call, queueing its target;
/// the fallthrough edge, queueing the next address, unless `d` jumps or
/// returns. A mapped target or next address is queued only while not yet
/// visited, except after a call; CALLA queues its target last.
pub open spec fn follow_spec(
    img: Image,
    visited: Set<u32>,
    queue: Seq<u32>,
    edges: Seq<Edge>,
    pc: u32,
    d: Decoded,
) -> (Seq<u32>, Seq<Edge>) {
    let ft = fallthrough(pc, d);
    let tgt = target(pc, d);
    let always_ft = d.op == Op::Call || d.op == Op::CallA || d.op == Op::CallI;
    let (q1, e1) = match branch_kind(d.op) {
        Some(k) => (
            if d.op != Op::CallA && image_maps(img, tgt) && (always_ft || !visited.contains(tgt)) {
                queue.push(tgt)
            } else {
                queue
            },
            edges.push(Edge { from: pc, to: tgt, kind: k }),
        ),
        None => (queue, edges),
    };
    let (q2, e2) = if falls_through(d.op) && image_maps(img, ft) && (always_ft || !visited.contains(ft)) {
        (q1.push(ft), e1.push(Edge { from: pc, to: ft, kind: EdgeKind::Fallthrough }))
    } else {
        (q1, e1)
    };
    (
        if d.op == Op::CallA && image_maps(img, tgt) {
            q2.push(tgt)
        } else {
            q2
        },
        e2,
    )
}

/// One step of the walk: take the first waiting address; stop when none is
/// left or the budget of decoded instructions is spent; skip an address
/// already visited; otherwise visit it and, when an instruction decodes
/// there, record its width and follow it.
pub open spec fn walk_step(img: Image, max_instr: nat, w: Walk) -> Option<Walk> {
    if w.queue.len() == 0 || w.steps >= max_instr {
        None
    } else {
        let pc = w.queue[0];
        let rest = w.queue.drop_first();
        if w.visited.contains(pc) {
            Some(Walk { queue: rest, ..w })
        } else {
            let v = w.visited.insert(pc);
            match decoded_at(img, pc) {
                None => Some(Walk { queue: rest, visited: v, ..w }),
                Some(d) => {
                    let (q, e) = follow_spec(img, v, rest, w.edges, pc, d);
                    Some(Walk { queue: q, visited: v, widths: w.widths.insert(pc, d.width), edges: e, steps: w.steps + 1 })
                },
            }
        }
    }
}

/// The walk run for at most `fuel` steps from `w`.
pub open spec fn walk_run(img: Image, max_instr: nat, w: Walk, fuel: nat) -> Walk
    decreases fuel,
{
    if fuel == 0 {
        w
    } else {
        match walk_step(img, max_instr, w) {
            None => w,
            Some(w2) => walk_run(img, max_instr, w2, (fuel - 1) as nat),
        }
    }
}

/// The mapped entries, in order.
pub open spec fn mapped_entries(img: Image, entries: Seq<u32>) -> Seq<u32>
    decreases entries.len(),
{
    if entries.len() == 0 {
        Seq::empty()
    } else {
        let p = mapped_entries(img, entries.drop_last());
        if image_maps(img, entries.last()) {
            p.push(entries.last())
        } else {
            p
        }
    }
}

/// The walk as it starts: the mapped entries waiting, nothing else.
pub open spec fn walk_init(img: Image, entries: Seq<u32>) -> Walk {
    Walk {
        queue: mapped_entries(img, entries),
        visited: Set::empty(),
        widths: Map::empty(),
        edges: Seq::empty(),
        steps: 0,
    }
}

/// The walk from the entries to its end: it stops within this many steps,
/// as each step takes an address off the queue and adds at most two,
/// and only when it decodes an instruction, of which there are at most
/// `max_instr`.
pub open spec fn walk_result(img: Image, entries: Seq<u32>, max_instr: nat) -> Walk {
    walk_run(img, max_instr, walk_init(img, entries), entries.len() + 2 * max_instr + 1)
}

proof fn lemma_follow_grows(img: Image, visited: Set<u32>, queue: Seq<u32>, edges: Seq<Edge>, pc: u32, d: Decoded)
    ensures
        follow_spec(img, visited, queue, edges, pc, d).0.len() <= queue.len() + 2,
{
}

/// Worklist walk from the entry points: decodes reachable instructions,
/// recording their widths and control-flow edges, up to `max_instr` of them.
pub fn analyze_entries(img: &Image, entries: &[u32], max_instr: usize) -> (r: (HashSet<u32>, HashMap<u32, u8>, Vec<Edge>))
    ensures
        analysis_sound(*img, max_instr, r.0@, r.1@, r.2@),
        r.1@.dom().len() < max_instr ==> analysis_complete(*img, entries@, r.0@, r.1@),
        forall|pc: u32| #[trigger] r.0@.contains(pc) ==> reachable(*img, entries@, pc),
        r.0@ == walk_result(*img, entries@, max_instr as nat).visited,
        r.1@ == walk_result(*img, entries@, max_instr as nat).widths,
        r.2@ == walk_result(*img, entries@, max_instr as nat).edges,
{
    broadcast use vstd::std_specs::hash::group_hash_axioms;

    let dec = Tc16Decoder::new();
    let mut queue: VecDeque<u32> = VecDeque::new();
    let mut visited: HashSet<u32> = HashSet::new();
    let mut widths: HashMap<u32, u8> = HashMap::new();
    let mut edges: Vec<Edge> = Vec::new();
    let n = entries.len();
    let mut i: usize = 0;
    while i < n
        invariant
            n == entries@.len(),
            i <= n,
            visited@ == Set::<u32>::empty(),
            forall|k: int| 0 <= k < queue@.len() ==> image_maps(*img, #[trigger] queue@[k]),
            forall|k: int| 0 <= k < queue@.len() ==> reachable(*img, entries@, #[trigger] queue@[k]),
            forall|j: int| 0 <= j < i && image_maps(*img, #[trigger] entries@[j]) ==> queue@.contains(entries@[j]),
            queue@ == mapped_entries(*img, entries@.subrange(0, i as int)),
            queue@.len() <= i,
        decreases n - i,
    {
        let e = entries[i];
        let ghost q0 = queue@;
        assert(entries@.subrange(0, i + 1).drop_last() =~= entries@.subrange(0, i as int));
        if is_mapped(img, e) {
            queue.push_back(e);
            assert(queue@[queue@.len() - 1] == e);
            assert(entries@[i as int] == e);
            assert(reach_within(*img, entries@, 0).contains(e));
        }
        proof {
            assert forall|j: int| 0 <= j < i + 1 && image_maps(*img, #[trigger] entries@[j]) implies queue@.contains(entries@[j]) by {
                if j < i {
                    let k = choose|k: int| 0 <= k < q0.len() && q0[k] == entries@[j];
                    assert(queue@[k] == entries@[j]);
                } else {
                    assert(queue@[queue@.len() - 1] == entries@[j]);
                }
            }
        }
        i = i + 1;
    }
    assert(entries@.subrange(0, n as int) =~= entries@);
    assert(edges@ =~= Seq::<Edge>::empty());
    assert(widths@ =~= Map::<u32, u8>::empty());
    let mut steps: usize = 0;
    let ghost mut fuel: nat = (entries@.len() + 2 * max_instr + 1) as nat;
    loop
        invariant_except_break
            walk_result(*img, entries@, max_instr as nat) == walk_run(
                *img,
                max_instr as nat,
                Walk { queue: queue@, visited: visited@, widths: widths@, edges: edges@, steps: steps as nat },
                fuel,
            ),
            fuel >= queue@.len() + 2 * (max_instr - steps) + 1,
        invariant
            n == entries@.len(),
            steps == widths@.dom().len(),
            steps <= max_instr,
            widths@.dom().finite(),
            forall|k: int| 0 <= k < queue@.len() ==> image_maps(*img, #[trigger] queue@[k]),
            forall|k: int| 0 <= k < queue@.len() ==> reachable(*img, entries@, #[trigger] queue@[k]),
            forall|pc: u32| #[trigger] visited@.contains(pc) ==> image_maps(*img, pc),
            forall|pc: u32| #[trigger] visited@.contains(pc) ==> reachable(*img, entries@, pc),
            forall|pc: u32| #[trigger] widths@.contains_key(pc) <==> visited@.contains(pc) && decoded_at(*img, pc) is Some,
            forall|pc: u32| #[trigger] widths@.contains_key(pc) ==> widths@[pc] == decoded_at(*img, pc).unwrap().width,
            forall|k: int| 0 <= k < edges@.len() ==> widths@.contains_key(#[trigger] edges@[k].from)
                && edge_of(edges@[k].from, decoded_at(*img, edges@[k].from).unwrap(), edges@[k]),
            forall|pc: u32| #[trigger] widths@.contains_key(pc) && branch_kind(decoded_at(*img, pc).unwrap().op) is Some
                ==> edges@.contains(Edge {
                    from: pc,
                    to: target(pc, decoded_at(*img, pc).unwrap()),
                    kind: branch_kind(decoded_at(*img, pc).unwrap().op).unwrap(),
                }),
            steps < max_instr ==> forall|j: int| 0 <= j < n && image_maps(*img, #[trigger] entries@[j])
                ==> visited@.contains(entries@[j]) || queue@.contains(entries@[j]),
            steps < max_instr ==> forall|pc: u32, t: u32| #[trigger] widths@.contains_key(pc) && #[trigger] successor(*img, pc, t)
                && image_maps(*img, t) ==> visited@.contains(t) || queue@.contains(t),
        ensures
            steps >= max_instr || analysis_complete(*img, entries@, visited@, widths@),
            visited@ == walk_result(*img, entries@, max_instr as nat).visited,
            widths@ == walk_result(*img, entries@, max_instr as nat).widths,
            edges@ == walk_result(*img, entries@, max_instr as nat).edges,
        decreases max_instr - steps, queue@.len(),
    {
        let ghost q0 = queue@;
        let ghost cur = Walk { queue: queue@, visited: visited@, widths: widths@, edges: edges@, steps: steps as nat };
        let pc = match queue.pop_front() {
            Some(pc) => pc,
            None => {
                proof {
                    assert(q0.len() == 0);
                    if steps < max_instr {
                        assert forall|j: int| 0 <= j < entries@.len() && image_maps(*img, #[trigger] entries@[j])
                            implies visited@.contains(entries@[j]) by {
                            assert(!q0.contains(entries@[j]));
                        }
                        assert forall|p: u32, t: u32| #[trigger] widths@.contains_key(p) && #[trigger] successor(*img, p, t)
                            && image_maps(*img, t) implies visited@.contains(t) by {
                            assert(!q0.contains(t));
                        }
                    }
                    assert(walk_step(*img, max_instr as nat, cur) is None);
                }
                break;
            },
        };
        assert(q0[0] == pc);
        assert(reachable(*img, entries@, pc));
        assert(forall|k: int| 0 <= k < queue@.len() ==> queue@[k] == q0[k + 1]);
        if steps >= max_instr {
            assert(walk_step(*img, max_instr as nat, cur) is None);
            break;
        }
        assert forall|t: u32| q0.contains(t) implies t == pc || queue@.contains(t) by {
            if q0.contains(t) {
                let k = choose|k: int| 0 <= k < q0.len() && q0[k] == t;
                if k > 0 {
                    assert(queue@[k - 1] == t);
                }
            }
        }
        let ghost v0 = visited@;
        if !visited.insert(pc) {
            proof {
                assert(visited@ =~= v0);
                assert(walk_step(*img, max_instr as nat, cur) == Some(Walk { queue: queue@, ..cur }));
                fuel = (fuel - 1) as nat;
            }
            continue;
        }
        let raw32 = match read_u32(img, pc) {
            Some(raw) => raw,
            None => {
                proof {
                    assert(walk_step(*img, max_instr as nat, cur) == Some(Walk { queue: queue@, visited: visited@, ..cur }));
                    fuel = (fuel - 1) as nat;
                }
                continue;
            },
        };
        let d = match dec.decode(raw32) {
            Some(d) => d,
            None => {
                proof {
                    assert(walk_step(*img, max_instr as nat, cur) == Some(Walk { queue: queue@, visited: visited@, ..cur }));
                    fuel = (fuel - 1) as nat;
                }
                continue;
            },
        };
        proof {
            assert(decoded_at(*img, pc) == Some(d));
            assert(!widths@.contains_key(pc));
        }
        steps = steps + 1;
        let ghost w0 = widths@;
        let ghost e0 = edges@;
        let ghost q1 = queue@;
        widths.insert(pc, d.width);
        assert(widths@.dom() =~= w0.dom().insert(pc));
        follow(img, &visited, &mut queue, &mut edges, pc, d);
        proof {
            lemma_follow_grows(*img, visited@, q1, e0, pc, d);
            assert(walk_step(*img, max_instr as nat, cur) == Some(
                Walk { queue: queue@, visited: visited@, widths: widths@, edges: edges@, steps: steps as nat },
            ));
            fuel = (fuel - 1) as nat;
            assert forall|k: int| 0 <= k < queue@.len() implies reachable(*img, entries@, #[trigger] queue@[k]) by {
                if q1.contains(queue@[k]) {
                    let m = choose|m: int| 0 <= m < q1.len() && q1[m] == queue@[k];
                } else {
                    lemma_reachable_step(*img, entries@, pc, queue@[k]);
                }
            }
            assert forall|k: int| 0 <= k < edges@.len() implies widths@.contains_key(#[trigger] edges@[k].from)
                && edge_of(edges@[k].from, decoded_at(*img, edges@[k].from).unwrap(), edges@[k]) by {
                if k < e0.len() {
                    assert(edges@[k] == e0[k]);
                }
            }
            assert forall|p: u32| #[trigger] widths@.contains_key(p) && branch_kind(decoded_at(*img, p).unwrap().op) is Some
                implies edges@.contains(Edge {
                    from: p,
                    to: target(p, decoded_at(*img, p).unwrap()),
                    kind: branch_kind(decoded_at(*img, p).unwrap().op).unwrap(),
                }) by {
                if p != pc {
                    let e = Edge {
                        from: p,
                        to: target(p, decoded_at(*img, p).unwrap()),
                        kind: branch_kind(decoded_at(*img, p).unwrap().op).unwrap(),
                    };
                    assert(e0.contains(e));
                    let k = choose|k: int| 0 <= k < e0.len() && e0[k] == e;
                    assert(edges@[k] == e);
                }
            }
            if steps < max_instr {
                assert forall|j: int| 0 <= j < n && image_maps(*img, #[trigger] entries@[j])
                    implies visited@.contains(entries@[j]) || queue@.contains(entries@[j]) by {
                    if q1.contains(entries@[j]) {
                        assert(queue@.contains(entries@[j]));
                    }
                }
                assert forall|p: u32, t: u32| #[trigger] widths@.contains_key(p) && #[trigger] successor(*img, p, t)
                    && image_maps(*img, t) implies visited@.contains(t) || queue@.contains(t) by {
                    if p != pc && q1.contains(t) {
                        assert(queue@.contains(t));
                    }
                }
            }
        }
    }
    (visited, widths, edges)
}

/// Records the edges of the instruction `d` at `pc` and queues its mapped
/// successors that are not yet visited.
fn follow(
    img: &Image,
    visited: &HashSet<u32>,
    queue: &mut VecDeque<u32>,
    edges: &mut Vec<Edge>,
    pc: u32,
    d: Decoded,
)
    requires
        d.wf(),
        forall|k: int| 0 <= k < old(queue)@.len() ==> image_maps(*img, #[trigger] old(queue)@[k]),
    ensures
        forall|k: int| 0 <= k < final(queue)@.len() ==> image_maps(*img, #[trigger] final(queue)@[k]),
        (final(queue)@, final(edges)@) == follow_spec(*img, visited@, old(queue)@, old(edges)@, pc, d),
        forall|t: u32| old(queue)@.contains(t) ==> final(queue)@.contains(t),
        forall|k: int| 0 <= k < final(queue)@.len() ==> old(queue)@.contains(#[trigger] final(queue)@[k]) || next_of(pc, d, final(queue)@[k]),
        forall|t: u32| next_of(pc, d, t) && image_maps(*img, t) ==> visited@.contains(t) || final(queue)@.contains(t),
        final(edges)@.len() >= old(edges)@.len(),
        forall|k: int| 0 <= k < old(edges)@.len() ==> final(edges)@[k] == old(edges)@[k],
        forall|k: int| old(edges)@.len() <= k < final(edges)@.len() ==> edge_of(pc, d, #[trigger] final(edges)@[k]),
        branch_kind(d.op) is Some ==> final(edges)@.contains(
            Edge { from: pc, to: target(pc, d), kind: branch_kind(d.op).unwrap() },
        ),
{
    broadcast use vstd::std_specs::hash::group_hash_axioms;

    let ft = pc.wrapping_add(d.width as u32);
    let ghost q0 = queue@;
    let ghost e0 = edges@;
    let kind = match d.op {
        Op::J => Some(EdgeKind::Branch),
        Op::Jeq | Op::Jne | Op::JeqImm | Op::JneImm | Op::Jge | Op::JgeU | Op::JgeImm | Op::JgeUImm
        | Op::Jlt | Op::JltU | Op::JltImm | Op::JltUImm | Op::JeqA | Op::JneA | Op::Bne | Op::JzA
        | Op::JnzA => Some(EdgeKind::CondBranch),
        Op::Call | Op::CallA => Some(EdgeKind::Call),
        _ => None,
    };
    assert(kind == branch_kind(d.op));
    let always_ft = match d.op {
        Op::Call | Op::CallA | Op::CallI => true,
        _ => false,
    };
    let ret_or_jump = match d.op {
        Op::J | Op::Ret => true,
        _ => false,
    };
    // CALLA queues its fallthrough before its target; every other kind the reverse
    let tgt = if let Op::CallA = d.op { d.imm } else { ft.wrapping_add(d.imm) };
    if let Some(k) = kind {
        edges.push(Edge { from: pc, to: tgt, kind: k });
        assert(edges@[edges@.len() - 1] == Edge { from: pc, to: target(pc, d), kind: branch_kind(d.op).unwrap() });
        if !matches!(d.op, Op::CallA) {
            if is_mapped(img, tgt) && (always_ft || !visited.contains(&tgt)) {
                queue.push_back(tgt);
                assert(queue@[queue@.len() - 1] == tgt);
            }
        }
    }
    let ghost e1 = edges@;
    let ghost q1 = queue@;
    if !ret_or_jump {
        if is_mapped(img, ft) && (always_ft || !visited.contains(&ft)) {
            edges.push(Edge { from: pc, to: ft, kind: EdgeKind::Fallthrough });
            queue.push_back(ft);
            assert(queue@[queue@.len() - 1] == ft);
        }
    }
    let ghost q2 = queue@;
    if let Op::CallA = d.op {
        if is_mapped(img, tgt) {
            queue.push_back(tgt);
            assert(queue@[queue@.len() - 1] == tgt);
        }
    }
    proof {
        assert(forall|k: int| 0 <= k < q0.len() ==> q1[k] == q0[k]);
        assert(forall|k: int| 0 <= k < q1.len() ==> q2[k] == q1[k]);
        assert(forall|k: int| 0 <= k < q2.len() ==> queue@[k] == q2[k]);
        assert forall|t: u32| q0.contains(t) implies queue@.contains(t) by {
            let k = choose|k: int| 0 <= k < q0.len() && q0[k] == t;
            assert(queue@[k] == t);
        }
        assert forall|t: u32| q1.contains(t) implies queue@.contains(t) by {
            let k = choose|k: int| 0 <= k < q1.len() && q1[k] == t;
            assert(queue@[k] == t);
        }
        assert forall|t: u32| q2.contains(t) implies queue@.contains(t) by {
            let k = choose|k: int| 0 <= k < q2.len() && q2[k] == t;
            assert(queue@[k] == t);
        }
        assert forall|t: u32| next_of(pc, d, t) && image_maps(*img, t) implies visited@.contains(t)
            || queue@.contains(t) by {
            if branch_kind(d.op) is Some && t == target(pc, d) && !visited@.contains(t) {
                if d.op == Op::CallA {
                    assert(queue@[queue@.len() - 1] == t);
                } else {
                    assert(q1[q1.len() - 1] == t);
                    assert(q1.contains(t));
                }
            }
            if falls_through(d.op) && t == fallthrough(pc, d) && !visited@.contains(t) {
                assert(q2[q2.len() - 1] == t);
                assert(q2.contains(t));
            }
        }
        if branch_kind(d.op) is Some {
            let e = Edge { from: pc, to: target(pc, d), kind: branch_kind(d.op).unwrap() };
            assert(e1[e0.len() as int] == e);
            assert(edges@[e0.len() as int] == e);
        }
        assert forall|k: int| 0 <= k < queue@.len() implies q0.contains(#[trigger] queue@[k]) || next_of(pc, d, queue@[k]) by {
            if k < q0.len() {
                assert(q0[k] == queue@[k]);
            }
        }
    }
}


/// The analysis follows every way the processor goes. Whenever the integer
/// executor completes the instruction `d` fetched at `pc` (PC already past
/// it), the PC it leaves is a successor of `d` at `pc` in the analysis, so
/// the walk queues every address execution can go to next; and every
/// instruction the executor may branch on gets the target edge of its kind:
/// `Branch` for J, `CondBranch` for each conditional jump. Returns are left
/// out: the executor does not model them, and where they go is not known
/// from the code.
pub proof fn lemma_execution_follows_edges(pc: u32, d: Decoded, s: CpuView, m: Map<int, u8>)
    requires
        s.pc == fallthrough(pc, d),
        d.op != Op::Ret,
        int_exec(s, m, d).2 is Ok,
    ensures
        next_of(pc, d, int_exec(s, m, d).0.pc),
        is_branch(d.op) ==> branch_kind(d.op) == Some(
            if d.op == Op::J { EdgeKind::Branch } else { EdgeKind::CondBranch },
        ),
        is_branch(d.op) ==> edge_of(pc, d, Edge { from: pc, to: wadd(s.pc, d.imm), kind: branch_kind(d.op)->0 }),
{
    lemma_exec_pc(s, m, d);
}

} // verus!
