//! The layered layout of the viewer's graph pane: which edges are drawn,
//! the level of each block (how many drawn edges it lies from the nearest
//! root), and the blocks of each level in address order. Positions on the
//! screen are the front end's to compute from these.
use vstd::prelude::*;
use std::collections::{HashMap, HashSet};
use crate::analyze::{Edge, EdgeKind};
use crate::viewer::{ascending, sort_ascending};

verus! {

/// Which edge kinds the graph draws.
#[derive(Debug, Clone, Copy, PartialEq, Eq, Structural)]
pub struct EdgeFilter {
    pub ft: bool,
    pub br: bool,
    pub cbr: bool,
    pub call: bool,
}

/// Whether the filter draws edges of kind `k`.
pub open spec fn shows(f: EdgeFilter, k: EdgeKind) -> bool {
    match k {
        EdgeKind::Fallthrough => f.ft,
        EdgeKind::Branch => f.br,
        EdgeKind::CondBranch => f.cbr,
        EdgeKind::Call => f.call,
    }
}

/// The drawn edges, in order.
pub open spec fn drawn(es: Seq<Edge>, f: EdgeFilter) -> Seq<Edge>
    decreases es.len(),
{
    if es.len() == 0 {
        Seq::empty()
    } else {
        let p = drawn(es.drop_last(), f);
        if shows(f, es.last().kind) {
            p.push(es.last())
        } else {
            p
        }
    }
}

/// Whether some edge of `es` enters `v`.
pub open spec fn has_incoming(es: Seq<Edge>, v: u32) -> bool {
    exists|i: int| 0 <= i < es.len() && #[trigger] es[i].to == v
}

/// Where the levels count from: the blocks no edge of `es` enters; when
/// every block has an incoming edge, the first block.
pub open spec fn roots(nodes: Seq<u32>, es: Seq<Edge>) -> Set<u32> {
    if exists|i: int| 0 <= i < nodes.len() && !has_incoming(es, #[trigger] nodes[i]) {
        Set::new(|v: u32| nodes.contains(v) && !has_incoming(es, v))
    } else if nodes.len() > 0 {
        set![nodes[0]]
    } else {
        Set::empty()
    }
}

/// The vertices one edge of `es` away from `s`.
pub open spec fn succ(es: Seq<Edge>, s: Set<u32>) -> Set<u32> {
    Set::new(|v: u32| exists|i: int| 0 <= i < es.len() && s.contains(es[i].from) && #[trigger] es[i].to == v)
}

/// The vertices at most `k` edges of `es` from `r`.
pub open spec fn within(es: Seq<Edge>, r: Set<u32>, k: nat) -> Set<u32>
    decreases k,
{
    if k == 0 {
        r
    } else {
        let w = within(es, r, (k - 1) as nat);
        w.union(succ(es, w))
    }
}

/// Whether `v` lies exactly `k` edges from `r`: within `k`, not within `k - 1`.
pub open spec fn at_level(es: Seq<Edge>, r: Set<u32>, v: u32, k: nat) -> bool {
    within(es, r, k).contains(v) && (k == 0 || !within(es, r, (k - 1) as nat).contains(v))
}

/// Whether some path of edges of `es` leads from `r` to `v`.
pub open spec fn reached(es: Seq<Edge>, r: Set<u32>, v: u32) -> bool {
    exists|k: nat| #[trigger] within(es, r, k).contains(v)
}

/// How many edges of `es` enter a vertex outside `d`.
pub open spec fn pending(es: Seq<Edge>, d: Set<u32>) -> nat
    decreases es.len(),
{
    if es.len() == 0 {
        0
    } else {
        pending(es.drop_last(), d) + if d.contains(es.last().to) {
            0nat
        } else {
            1nat
        }
    }
}

proof fn lemma_pending_shrinks(es: Seq<Edge>, d: Set<u32>, d2: Set<u32>)
    requires
        d.subset_of(d2),
    ensures
        pending(es, d2) <= pending(es, d),
        pending(es, d) <= es.len(),
        (exists|i: int| 0 <= i < es.len() && !d.contains(es[i].to) && d2.contains(#[trigger] es[i].to))
            ==> pending(es, d2) < pending(es, d),
    decreases es.len(),
{
    if es.len() > 0 {
        let p = es.drop_last();
        lemma_pending_shrinks(p, d, d2);
        if exists|i: int| 0 <= i < es.len() && !d.contains(es[i].to) && d2.contains(#[trigger] es[i].to) {
            let i = choose|i: int| 0 <= i < es.len() && !d.contains(es[i].to) && d2.contains(#[trigger] es[i].to);
            if i < es.len() - 1 {
                assert(p[i] == es[i]);
            }
        }
    }
}

proof fn lemma_within_grows(es: Seq<Edge>, r: Set<u32>, j: nat, k: nat)
    requires
        j <= k,
    ensures
        within(es, r, j).subset_of(within(es, r, k)),
    decreases k,
{
    if j < k {
        lemma_within_grows(es, r, j, (k - 1) as nat);
    }
}

proof fn lemma_within_stays(es: Seq<Edge>, r: Set<u32>, k: nat, j: nat)
    requires
        within(es, r, k + 1) == within(es, r, k),
        k <= j,
    ensures
        within(es, r, j) == within(es, r, k),
    decreases j,
{
    if j > k {
        lemma_within_stays(es, r, k, (j - 1) as nat);
        assert(within(es, r, j) == within(es, r, k + 1));
    }
}

/// Growing the vertices within `k` by one edge only adds successors of the
/// vertices exactly `k` away.
proof fn lemma_within_next(es: Seq<Edge>, r: Set<u32>, k: nat)
    ensures
        within(es, r, k + 1) =~= within(es, r, k).union(
            Set::new(|v: u32| exists|i: int| 0 <= i < es.len() && at_level(es, r, es[i].from, k) && #[trigger] es[i].to == v),
        ),
{
    let w = within(es, r, k);
    if k > 0 {
        let w0 = within(es, r, (k - 1) as nat);
        assert forall|v: u32| #[trigger] succ(es, w).contains(v) implies w.contains(v) || exists|i: int|
            0 <= i < es.len() && at_level(es, r, es[i].from, k) && #[trigger] es[i].to == v by {
            let i = choose|i: int| 0 <= i < es.len() && w.contains(es[i].from) && #[trigger] es[i].to == v;
            if w0.contains(es[i].from) {
                assert(succ(es, w0).contains(v));
            } else {
                assert(at_level(es, r, es[i].from, k));
            }
        }
    }
}

/// The values of a sequence, as a set.
pub open spec fn seq_set(s: Seq<u32>) -> Set<u32> {
    Set::new(|v: u32| s.contains(v))
}

proof fn lemma_level_unique(es: Seq<Edge>, r: Set<u32>, v: u32, a: nat, b: nat)
    requires
        at_level(es, r, v, a),
        at_level(es, r, v, b),
    ensures
        a == b,
{
    if a < b {
        lemma_within_grows(es, r, a, (b - 1) as nat);
    } else if b < a {
        lemma_within_grows(es, r, b, (a - 1) as nat);
    }
}

/// Breadth-first levels from `roots` along `es`: the level of every vertex
/// reachable from them, and the deepest level, beyond which nothing new is
/// reached.
fn bfs(roots: &Vec<u32>, es: &Vec<Edge>) -> (r: (HashMap<u32, usize>, usize))
    ensures
        r.0@.dom() == within(es@, seq_set(roots@), r.1 as nat),
        within(es@, seq_set(roots@), (r.1 + 1) as nat) == within(es@, seq_set(roots@), r.1 as nat),
        forall|v: u32| #[trigger] r.0@.contains_key(v) ==> at_level(es@, seq_set(roots@), v, r.0@[v] as nat),
        roots@.len() == 0 ==> r.1 == 0,
        roots@.len() > 0 ==> exists|v: u32| at_level(es@, seq_set(roots@), v, r.1 as nat),
        r.1 <= es@.len(),
{
    broadcast use vstd::std_specs::hash::group_hash_axioms;

    let ghost rs = seq_set(roots@);
    let mut level: HashMap<u32, usize> = HashMap::new();
    let mut i: usize = 0;
    while i < roots.len()
        invariant
            i <= roots@.len(),
            forall|v: u32| #[trigger] level@.contains_key(v) <==> exists|q: int| 0 <= q < i && roots@[q] == v,
            forall|v: u32| #[trigger] level@.contains_key(v) ==> level@[v] == 0,
        decreases roots@.len() - i,
    {
        level.insert(roots[i], 0);
        i = i + 1;
    }
    assert(level@.dom() =~= rs);
    proof {
        lemma_pending_shrinks(es@, level@.dom(), level@.dom());
        if roots@.len() > 0 {
            assert(at_level(es@, rs, roots@[0], 0));
        }
    }
    let mut k: usize = 0;
    loop
        invariant
            rs == seq_set(roots@),
            level@.dom() == within(es@, rs, k as nat),
            forall|v: u32| #[trigger] level@.contains_key(v) ==> at_level(es@, rs, v, level@[v] as nat),
            k + pending(es@, level@.dom()) <= es@.len(),
            roots@.len() == 0 ==> k == 0,
            roots@.len() > 0 ==> exists|v: u32| at_level(es@, rs, v, k as nat),
        decreases pending(es@, level@.dom()),
    {
        let ghost d0 = level@.dom();
        let ghost lv0 = level@;
        let ghost nxt = Set::new(
            |v: u32| exists|q: int| 0 <= q < es@.len() && at_level(es@, rs, es@[q].from, k as nat) && #[trigger] es@[q].to == v,
        );
        let mut added = false;
        let ghost mut wj: int = 0;
        let mut j: usize = 0;
        while j < es.len()
            invariant
                rs == seq_set(roots@),
                d0 == within(es@, rs, k as nat),
                lv0.dom() == d0,
                forall|v: u32| #[trigger] lv0.contains_key(v) ==> at_level(es@, rs, v, lv0[v] as nat),
                k + pending(es@, d0) <= es@.len(),
                nxt == Set::new(
                    |v: u32| exists|q: int| 0 <= q < es@.len() && at_level(es@, rs, es@[q].from, k as nat) && #[trigger] es@[q].to == v,
                ),
                j <= es@.len(),
                level@.dom() == d0.union(
                    Set::new(|v: u32| exists|q: int| 0 <= q < j && at_level(es@, rs, es@[q].from, k as nat) && #[trigger] es@[q].to == v),
                ),
                forall|v: u32| #[trigger] d0.contains(v) ==> level@[v] == lv0[v],
                forall|v: u32| #[trigger] level@.contains_key(v) && !d0.contains(v) ==> level@[v] == k + 1 && at_level(es@, rs, v, (k + 1) as nat),
                added ==> 0 <= wj < es@.len() && !d0.contains(es@[wj].to) && level@.contains_key(es@[wj].to),
                !added ==> level@.dom() == d0,
            decreases es@.len() - j,
        {
            let e = es[j];
            let from_here = match level.get(&e.from) {
                Some(l) => *l == k,
                None => false,
            };
            proof {
                if d0.contains(e.from) {
                    if lv0[e.from] == k {
                        assert(at_level(es@, rs, e.from, k as nat));
                    } else if at_level(es@, rs, e.from, k as nat) {
                        lemma_level_unique(es@, rs, e.from, k as nat, lv0[e.from] as nat);
                    }
                }
            }
            assert(from_here == at_level(es@, rs, e.from, k as nat));
            if from_here && !level.contains_key(&e.to) {
                proof {
                    assert(succ(es@, d0).contains(e.to));
                    lemma_pending_shrinks(es@, d0, d0.insert(e.to));
                    assert(!d0.contains(es@[j as int].to) && d0.insert(e.to).contains(es@[j as int].to));
                    assert(at_level(es@, rs, e.to, (k + 1) as nat));
                }
                level.insert(e.to, k + 1);
                added = true;
                proof {
                    wj = j as int;
                }
            }
            j = j + 1;
            assert(level@.dom() =~= d0.union(
                Set::new(|v: u32| exists|q: int| 0 <= q < j && at_level(es@, rs, es@[q].from, k as nat) && #[trigger] es@[q].to == v),
            ));
        }
        proof {
            lemma_within_next(es@, rs, k as nat);
            assert(level@.dom() =~= within(es@, rs, (k + 1) as nat));
        }
        if !added {
            return (level, k);
        }
        proof {
            lemma_pending_shrinks(es@, d0, level@.dom());
        }
        k = k + 1;
    }
}

/// The graph pane's layout.
#[derive(Debug, Clone, PartialEq, Eq)]
pub struct GraphLayout {
    /// Each block, in the order given, with its level.
    pub levels: Vec<(u32, usize)>,
    /// The deepest level any vertex reaches from the roots.
    pub depth: usize,
    /// How many levels the pane spaces out vertically.
    pub levels_total: usize,
    /// The blocks of each level, in address order.
    pub rows: Vec<Vec<u32>>,
}

/// How many of the first `n` blocks are the first occurrence of an address
/// outside `known`.
pub open spec fn fresh_count(nodes: Seq<u32>, known: Set<u32>, n: int) -> nat
    decreases n,
{
    if n <= 0 {
        0
    } else {
        fresh_count(nodes, known, n - 1) + if !known.contains(nodes[n - 1]) && !nodes.subrange(0, n - 1).contains(
            nodes[n - 1],
        ) {
            1nat
        } else {
            0nat
        }
    }
}

/// The addresses some path from `r` reaches.
pub open spec fn reach_set(es: Seq<Edge>, r: Set<u32>) -> Set<u32> {
    Set::new(|v: u32| reached(es, r, v))
}

/// The blocks no edge of `es` enters, among the first `n`, in order.
pub open spec fn free_nodes(nodes: Seq<u32>, es: Seq<Edge>, n: int) -> Seq<u32>
    decreases n,
{
    if n <= 0 {
        Seq::empty()
    } else {
        let p = free_nodes(nodes, es, n - 1);
        if has_incoming(es, nodes[n - 1]) {
            p
        } else {
            p.push(nodes[n - 1])
        }
    }
}

proof fn lemma_free_nodes(nodes: Seq<u32>, es: Seq<Edge>, n: int)
    requires
        0 <= n <= nodes.len(),
    ensures
        forall|v: u32| #[trigger] free_nodes(nodes, es, n).contains(v) <==> exists|q: int|
            0 <= q < n && nodes[q] == v && !has_incoming(es, v),
    decreases n,
{
    if n > 0 {
        lemma_free_nodes(nodes, es, n - 1);
        let p = free_nodes(nodes, es, n - 1);
        let f = free_nodes(nodes, es, n);
        assert forall|v: u32| #[trigger] f.contains(v) <==> exists|q: int|
            0 <= q < n && nodes[q] == v && !has_incoming(es, v) by {
            if f.contains(v) {
                let t = choose|t: int| 0 <= t < f.len() && f[t] == v;
                if t < p.len() {
                    assert(p[t] == v);
                    assert(p.contains(v));
                    let q = choose|q: int| 0 <= q < n - 1 && nodes[q] == v && !has_incoming(es, v);
                    assert(0 <= q < n && nodes[q] == v && !has_incoming(es, v));
                } else {
                    assert(v == nodes[n - 1] && !has_incoming(es, v));
                }
            }
            if exists|q: int| 0 <= q < n && nodes[q] == v && !has_incoming(es, v) {
                let q = choose|q: int| 0 <= q < n && nodes[q] == v && !has_incoming(es, v);
                if q < n - 1 {
                    assert(exists|q2: int| 0 <= q2 < n - 1 && nodes[q2] == v && !has_incoming(es, v));
                    assert(p.contains(v));
                    let t = choose|t: int| 0 <= t < p.len() && p[t] == v;
                    assert(f[t] == v);
                } else {
                    assert(f[p.len() as int] == v);
                }
            }
        }
    }
}

/// The roots as the layout collects them: the blocks no edge enters, in
/// order, or the first block when there is none.
proof fn lemma_roots(nodes: Seq<u32>, es: Seq<Edge>)
    ensures
        free_nodes(nodes, es, nodes.len() as int).len() > 0 ==> seq_set(free_nodes(nodes, es, nodes.len() as int))
            == roots(nodes, es),
        free_nodes(nodes, es, nodes.len() as int).len() == 0 && nodes.len() > 0 ==> seq_set(seq![nodes[0]])
            == roots(nodes, es),
        nodes.len() == 0 ==> free_nodes(nodes, es, nodes.len() as int).len() == 0 && roots(nodes, es)
            == Set::<u32>::empty(),
{
    let n = nodes.len() as int;
    let f = free_nodes(nodes, es, n);
    lemma_free_nodes(nodes, es, n);
    if f.len() > 0 {
        let v = f[0];
        assert(f.contains(v));
        let q = choose|q: int| 0 <= q < n && nodes[q] == v && !has_incoming(es, v);
        assert(!has_incoming(es, nodes[q]));
        assert forall|v: u32| #[trigger] seq_set(f).contains(v) == roots(nodes, es).contains(v) by {
            if nodes.contains(v) && !has_incoming(es, v) {
                let t = choose|t: int| 0 <= t < nodes.len() && nodes[t] == v;
                assert(exists|q2: int| 0 <= q2 < n && nodes[q2] == v && !has_incoming(es, v));
            }
            if f.contains(v) {
                let q2 = choose|q2: int| 0 <= q2 < n && nodes[q2] == v && !has_incoming(es, v);
                assert(nodes.contains(v));
            }
        }
        assert(seq_set(f) =~= roots(nodes, es));
    } else {
        assert forall|q: int| 0 <= q < n implies has_incoming(es, #[trigger] nodes[q]) by {
            if !has_incoming(es, nodes[q]) {
                assert(exists|q2: int| 0 <= q2 < n && nodes[q2] == nodes[q] && !has_incoming(es, nodes[q]));
                assert(f.contains(nodes[q]));
            }
        }
        if n > 0 {
            assert(!(exists|i: int| 0 <= i < nodes.len() && !has_incoming(es, #[trigger] nodes[i])));
            assert forall|v: u32| #[trigger] seq_set(seq![nodes[0]]).contains(v) == (v == nodes[0]) by {
                if v == nodes[0] {
                    assert(seq![nodes[0]][0] == v);
                }
            }
            assert(seq_set(seq![nodes[0]]) =~= roots(nodes, es));
        } else {
            assert(roots(nodes, es) =~= Set::<u32>::empty());
        }
    }
}

proof fn lemma_fresh_le(nodes: Seq<u32>, known: Set<u32>, n: int)
    ensures
        fresh_count(nodes, known, n) <= if n < 0 {
            0
        } else {
            n
        },
    decreases n,
{
    if n > 0 {
        lemma_fresh_le(nodes, known, n - 1);
    }
}

/// Gives each block not yet in `level` a level of its own, from `first` on,
/// in the order the blocks come; returns the next free level.
fn assign_unreached(level: &mut HashMap<u32, usize>, nodes: &[u32], first: usize) -> (next: usize)
    requires
        first + nodes@.len() <= usize::MAX,
    ensures
        final(level)@.dom() == old(level)@.dom().union(seq_set(nodes@)),
        forall|v: u32| #[trigger] old(level)@.contains_key(v) ==> final(level)@[v] == old(level)@[v],
        next == first + fresh_count(nodes@, old(level)@.dom(), nodes@.len() as int),
        forall|q: int|
            0 <= q < nodes@.len() && !old(level)@.contains_key(nodes@[q]) && !nodes@.subrange(0, q).contains(
                nodes@[q],
            ) ==> final(level)@[#[trigger] nodes@[q]] == first + fresh_count(nodes@, old(level)@.dom(), q),
{
    broadcast use vstd::std_specs::hash::group_hash_axioms;

    let ghost known = level@.dom();
    let ghost l0 = level@;
    let mut next = first;
    let mut i: usize = 0;
    while i < nodes.len()
        invariant
            i <= nodes@.len(),
            first + nodes@.len() <= usize::MAX,
            known == old(level)@.dom(),
            l0 == old(level)@,
            level@.dom() == known.union(seq_set(nodes@.subrange(0, i as int))),
            forall|v: u32| #[trigger] known.contains(v) ==> level@[v] == l0[v],
            next == first + fresh_count(nodes@, known, i as int),
            fresh_count(nodes@, known, i as int) <= i,
            forall|q: int|
                0 <= q < i && !known.contains(nodes@[q]) && !nodes@.subrange(0, q).contains(nodes@[q])
                    ==> level@[#[trigger] nodes@[q]] == first + fresh_count(nodes@, known, q),
        decreases nodes@.len() - i,
    {
        let pc = nodes[i];
        let ghost pre = nodes@.subrange(0, i as int);
        assert(nodes@.subrange(0, i + 1) =~= pre.push(pc));
        assert(level@.contains_key(pc) == (known.contains(pc) || pre.contains(pc)));
        if !level.contains_key(&pc) {
            level.insert(pc, next);
            next = next + 1;
        }
        proof {
            assert forall|q: int|
                0 <= q < i + 1 && !known.contains(nodes@[q]) && !nodes@.subrange(0, q).contains(nodes@[q])
                    implies level@[#[trigger] nodes@[q]] == first + fresh_count(nodes@, known, q) by {
                if q < i && nodes@[q] == pc {
                    assert(pre[q] == pc);
                }
            }
            assert forall|v: u32| #[trigger] seq_set(pre.push(pc)).contains(v) == (seq_set(pre).contains(v) || v == pc) by {
                if pre.push(pc).contains(v) {
                    let t = choose|t: int| 0 <= t < pre.len() + 1 && pre.push(pc)[t] == v;
                    if t < pre.len() {
                        assert(pre[t] == v);
                    }
                }
                if pre.contains(v) {
                    let t = choose|t: int| 0 <= t < pre.len() && pre[t] == v;
                    assert(pre.push(pc)[t] == v);
                }
                if v == pc {
                    assert(pre.push(pc)[pre.len() as int] == pc);
                }
            }
        }
        i = i + 1;
        assert(level@.dom() =~= known.union(seq_set(nodes@.subrange(0, i as int))));
    }
    assert(nodes@.subrange(0, nodes@.len() as int) =~= nodes@);
    next
}

/// The blocks at level `l`, in the given order.
pub open spec fn nodes_at(levels: Seq<(u32, usize)>, l: int) -> Seq<u32>
    decreases levels.len(),
{
    if levels.len() == 0 {
        Seq::empty()
    } else {
        let p = nodes_at(levels.drop_last(), l);
        if levels.last().1 == l {
            p.push(levels.last().0)
        } else {
            p
        }
    }
}

/// What the layout of the blocks `nodes` with the `edges` that `f` draws
/// is: the deepest level, each block's level, how many levels there are,
/// and the rows of each level (see `graph_layout`).
pub open spec fn layout_of(nodes: Seq<u32>, edges: Seq<Edge>, f: EdgeFilter, r: GraphLayout) -> bool {
    let es = drawn(edges, f);
    let rs = roots(nodes, es);
    &&& (nodes.len() == 0 ==> r.depth == 0)
    &&& (nodes.len() > 0 ==> exists|v: u32| at_level(es, rs, v, r.depth as nat))
    &&& (forall|v: u32, k: nat| #[trigger] at_level(es, rs, v, k) ==> k <= r.depth)
    &&& r.levels@.len() == nodes.len()
    &&& (forall|i: int| 0 <= i < nodes.len() ==> (#[trigger] r.levels@[i]).0 == nodes[i])
    &&& (forall|i: int|
        0 <= i < nodes.len() && reached(es, rs, nodes[i]) ==> at_level(
            es,
            rs,
            nodes[i],
            (#[trigger] r.levels@[i]).1 as nat,
        ))
    &&& (forall|i: int|
        0 <= i < nodes.len() && !reached(es, rs, nodes[i]) && !nodes.subrange(0, i).contains(nodes[i])
            ==> (#[trigger] r.levels@[i]).1 == r.depth + 1 + fresh_count(nodes, reach_set(es, rs), i))
    &&& (forall|i: int, j: int|
        0 <= i < nodes.len() && 0 <= j < nodes.len() && nodes[i] == nodes[j] ==> (#[trigger] r.levels@[i]).1
            == (#[trigger] r.levels@[j]).1)
    &&& r.levels_total == r.depth + 1 + fresh_count(nodes, reach_set(es, rs), nodes.len() as int)
    &&& r.rows@.len() == r.levels_total
    &&& (forall|l: int| 0 <= l < r.levels_total ==> (#[trigger] r.rows@[l])@ == nodes_at(r.levels@, l).sort_by(ascending()))
}

/// The layered layout of the graph pane for the analysed blocks `nodes` and
/// the `edges` between them, with the edge kinds `f` draws. The levels
/// count drawn edges from the roots (see `roots`); a block no path reaches
/// gets a level of its own below the deepest, in the order the blocks come.
pub fn graph_layout(nodes: &[u32], edges: &[Edge], f: EdgeFilter) -> (r: GraphLayout)
    requires
        nodes@.len() + edges@.len() < usize::MAX,
    ensures
        layout_of(nodes@, edges@, f, r),
{
    broadcast use vstd::std_specs::hash::group_hash_axioms;

    // The drawn edges.
    let mut es: Vec<Edge> = Vec::new();
    let mut i: usize = 0;
    while i < edges.len()
        invariant
            i <= edges@.len(),
            es@ == drawn(edges@.subrange(0, i as int), f),
            es@.len() <= i,
        decreases edges@.len() - i,
    {
        let e = edges[i];
        assert(edges@.subrange(0, i + 1).drop_last() =~= edges@.subrange(0, i as int));
        let show = match e.kind {
            EdgeKind::Fallthrough => f.ft,
            EdgeKind::Branch => f.br,
            EdgeKind::CondBranch => f.cbr,
            EdgeKind::Call => f.call,
        };
        if show {
            es.push(e);
        }
        i = i + 1;
    }
    assert(edges@.subrange(0, edges@.len() as int) =~= edges@);
    let ghost esv = es@;
    // The addresses some drawn edge enters.
    let mut targets: HashSet<u32> = HashSet::new();
    let mut i: usize = 0;
    while i < es.len()
        invariant
            i <= es@.len(),
            forall|v: u32| #[trigger] targets@.contains(v) <==> exists|q: int| 0 <= q < i && es@[q].to == v,
        decreases es@.len() - i,
    {
        targets.insert(es[i].to);
        i = i + 1;
    }
    assert forall|v: u32| #[trigger] targets@.contains(v) == has_incoming(esv, v) by {
        if has_incoming(esv, v) {
            let q = choose|q: int| 0 <= q < esv.len() && #[trigger] esv[q].to == v;
        }
    }
    // The roots.
    let mut rv: Vec<u32> = Vec::new();
    let mut i: usize = 0;
    while i < nodes.len()
        invariant
            i <= nodes@.len(),
            forall|v: u32| #[trigger] targets@.contains(v) == has_incoming(esv, v),
            rv@ == free_nodes(nodes@, esv, i as int),
        decreases nodes@.len() - i,
    {
        let pc = nodes[i];
        if !targets.contains(&pc) {
            rv.push(pc);
        }
        i = i + 1;
    }
    let ghost rs = roots(nodes@, esv);
    proof {
        lemma_roots(nodes@, esv);
    }
    if rv.len() == 0 && nodes.len() > 0 {
        rv.push(nodes[0]);
        assert(rv@ =~= seq![nodes@[0]]);
    }
    assert(seq_set(rv@) == rs);
    let (mut level, depth) = bfs(&rv, &es);
    let ghost known = reach_set(esv, rs);
    proof {
        assert forall|v: u32| #[trigger] known.contains(v) == level@.contains_key(v) by {
            if reached(esv, rs, v) {
                let k = choose|k: nat| #[trigger] within(esv, rs, k).contains(v);
                if k <= depth {
                    lemma_within_grows(esv, rs, k, depth as nat);
                } else {
                    lemma_within_stays(esv, rs, depth as nat, k);
                }
            } else {
                assert(!within(esv, rs, depth as nat).contains(v));
            }
        }
        assert forall|v: u32, k: nat| #[trigger] at_level(esv, rs, v, k) implies k <= depth by {
            if k > depth {
                lemma_within_stays(esv, rs, depth as nat, (k - 1) as nat);
            }
        }
        assert(level@.dom() =~= known);
    }
    let ghost lb = level@;
    // Blocks no path reaches get levels of their own, below the deepest.
    proof {
        assert(fresh_count(nodes@, known, nodes@.len() as int) <= nodes@.len()) by {
            lemma_fresh_le(nodes@, known, nodes@.len() as int);
        }
    }
    let next_level = assign_unreached(&mut level, nodes, depth + 1);
    // Each block's level, in order.
    assert forall|q: int| 0 <= q < nodes@.len() implies level@.contains_key(#[trigger] nodes@[q]) by {
        assert(seq_set(nodes@).contains(nodes@[q]));
    }
    let mut levels: Vec<(u32, usize)> = Vec::new();
    let mut i: usize = 0;
    while i < nodes.len()
        invariant
            i <= nodes@.len(),
            levels@.len() == i,
            forall|q: int| 0 <= q < nodes@.len() ==> level@.contains_key(#[trigger] nodes@[q]),
            forall|q: int| 0 <= q < i ==> (#[trigger] levels@[q]).0 == nodes@[q] && levels@[q].1 == level@[nodes@[q]],
        decreases nodes@.len() - i,
    {
        let pc = nodes[i];
        let l = match level.get(&pc) {
            Some(x) => *x,
            None => 0,
        };
        levels.push((pc, l));
        i = i + 1;
    }
    // The rows of each level, in address order.
    let mut rows: Vec<Vec<u32>> = Vec::new();
    let mut l: usize = 0;
    while l < next_level
        invariant
            l <= next_level,
            rows@.len() == l,
            forall|m: int| 0 <= m < l ==> (#[trigger] rows@[m])@ == nodes_at(levels@, m).sort_by(ascending()),
        decreases next_level - l,
    {
        let mut row: Vec<u32> = Vec::new();
        let mut q: usize = 0;
        while q < levels.len()
            invariant
                q <= levels@.len(),
                row@ == nodes_at(levels@.subrange(0, q as int), l as int),
            decreases levels@.len() - q,
        {
            assert(levels@.subrange(0, q + 1).drop_last() =~= levels@.subrange(0, q as int));
            if levels[q].1 == l {
                row.push(levels[q].0);
            }
            q = q + 1;
        }
        assert(levels@.subrange(0, levels@.len() as int) =~= levels@);
        rows.push(sort_ascending(row));
        l = l + 1;
    }
    assert(esv == drawn(edges@, f));
    let r = GraphLayout { levels, depth, levels_total: next_level, rows };
    proof {
        if nodes@.len() > 0 {
            let w = choose|v: u32| at_level(esv, rs, v, depth as nat);
            assert(at_level(drawn(edges@, f), roots(nodes@, drawn(edges@, f)), w, r.depth as nat));
        }
    }
    assert(layout_of(nodes@, edges@, f, r));
    r
}

proof fn lemma_least_level(es: Seq<Edge>, r: Set<u32>, v: u32, n: nat)
    requires
        within(es, r, n).contains(v),
    ensures
        exists|j: nat| j <= n && #[trigger] at_level(es, r, v, j),
    decreases n,
{
    if n == 0 {
        assert(at_level(es, r, v, 0));
    } else if within(es, r, (n - 1) as nat).contains(v) {
        lemma_least_level(es, r, v, (n - 1) as nat);
        let j = choose|j: nat| j <= n - 1 && #[trigger] at_level(es, r, v, j);
        assert(j <= n && at_level(es, r, v, j));
    } else {
        assert(at_level(es, r, v, n));
    }
}

/// Along an edge the level grows by at most one: the target of an edge
/// whose source lies `k` edges from the roots lies at most `k + 1` from them.
pub proof fn lemma_edge_level_step(es: Seq<Edge>, r: Set<u32>, i: int, k: nat)
    requires
        0 <= i < es.len(),
        at_level(es, r, es[i].from, k),
    ensures
        exists|j: nat| j <= k + 1 && #[trigger] at_level(es, r, es[i].to, j),
{
    assert(succ(es, within(es, r, k)).contains(es[i].to));
    lemma_least_level(es, r, es[i].to, k + 1);
}

} // verus!
