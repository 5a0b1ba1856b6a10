//! Topology of the coupled graph.
//!
//! Coupling a system of `n_a` nodes with one of `n_b` nodes builds a graph on
//! `n_a + n_b` nodes: the first system's nodes come first, then the second's.
//! Each system's nodes form a complete graph, and the first (at most)
//! [`BRIDGE_NODES`] nodes of each system are joined pairwise across the two.
//! Edge weights are floating-point and computed by the caller; this module
//! says which node pairs carry an edge and where each edge sits in the
//! adjacency matrix.

use vstd::prelude::*;

verus! {

/// How many leading nodes of each system take part in the bridge between them.
pub const BRIDGE_NODES: usize = 3;

/// The part of the coupled graph that an edge belongs to.
#[derive(Debug, Clone, Copy, PartialEq, Eq, Structural)]
pub enum EdgeBlock {
    /// Both ends in the first system.
    First,
    /// Both ends in the second system.
    Second,
    /// One end in each system.
    Bridge,
}

/// An edge of the coupled graph, with each end given by its index inside its
/// own system. Within a system, `i < j`; on the bridge, `i` is a node of the
/// first system and `j` a node of the second.
#[derive(Debug, Clone, Copy, PartialEq, Eq, Structural)]
pub struct CouplingEdge {
    pub block: EdgeBlock,
    pub i: usize,
    pub j: usize,
}

/// Number of nodes of a system of `n` nodes that the bridge uses.
pub open spec fn bridge_width(n: nat) -> nat {
    if n < BRIDGE_NODES {
        n
    } else {
        BRIDGE_NODES as nat
    }
}

/// `e` is an edge of the graph that couples a system of `n_a` nodes with one
/// of `n_b` nodes.
pub open spec fn is_coupling_edge(n_a: nat, n_b: nat, e: CouplingEdge) -> bool {
    match e.block {
        EdgeBlock::First => e.i < e.j && e.j < n_a,
        EdgeBlock::Second => e.i < e.j && e.j < n_b,
        EdgeBlock::Bridge => e.i < bridge_width(n_a) && e.j < bridge_width(n_b),
    }
}

/// Position of a block in the order in which edges are listed.
pub open spec fn block_rank(b: EdgeBlock) -> nat {
    match b {
        EdgeBlock::First => 0,
        EdgeBlock::Second => 1,
        EdgeBlock::Bridge => 2,
    }
}

/// Number of unordered pairs of distinct nodes among `n`.
pub open spec fn pair_count(n: nat) -> nat {
    (n * (n - 1) / 2) as nat
}

/// Number of edges of the coupled graph.
pub open spec fn edge_count(n_a: nat, n_b: nat) -> nat {
    pair_count(n_a) + pair_count(n_b) + bridge_width(n_a) * bridge_width(n_b)
}

/// Row and column of the adjacency matrix of the coupled graph at which an
/// edge's weight is written (its mirror image sits at column and row).
pub open spec fn position(n_a: nat, e: CouplingEdge) -> (nat, nat) {
    match e.block {
        EdgeBlock::First => (e.i as nat, e.j as nat),
        EdgeBlock::Second => (n_a + e.i as nat, n_a + e.j as nat),
        EdgeBlock::Bridge => (e.i as nat, n_a + e.j as nat),
    }
}

/// Pairs among `n` nodes, counted row by row: row `j` adds `j` pairs.
proof fn lemma_pair_count_step(n: nat)
    ensures
        pair_count(n + 1) == pair_count(n) + n,
{
    assert((n + 1) * n == n * (n - 1) + 2 * n) by (nonlinear_arith);
    assert(n * (n - 1) >= 0) by (nonlinear_arith);
}

proof fn lemma_push_no_duplicates(s: Seq<CouplingEdge>, x: CouplingEdge)
    requires
        s.no_duplicates(),
        !s.contains(x),
    ensures
        s.push(x).no_duplicates(),
{
    let t = s.push(x);
    assert forall|a: int, b: int| 0 <= a < t.len() && 0 <= b < t.len() && a != b implies t[a]
        != t[b] by {
        if a < s.len() && b < s.len() {
            assert(t[a] == s[a] && t[b] == s[b]);
        } else if a < s.len() {
            assert(s.contains(s[a]));
        } else {
            assert(s.contains(s[b]));
        }
    }
}

/// Appends every pair `i < j < n` of `block`, row by row.
fn push_pairs(out: &mut Vec<CouplingEdge>, block: EdgeBlock, n: usize)
    requires
        old(out)@.no_duplicates(),
        forall|k: int| 0 <= k < old(out)@.len() ==> old(out)@[k].block != block,
    ensures
        final(out)@.no_duplicates(),
        final(out)@.len() == old(out)@.len() + pair_count(n as nat),
        forall|k: int| 0 <= k < old(out)@.len() ==> final(out)@[k] == old(out)@[k],
        forall|k: int|
            old(out)@.len() <= k < final(out)@.len() ==> #[trigger] final(out)@[k].block == block,
        forall|e: CouplingEdge|
            final(out)@.contains(e) <==> (old(out)@.contains(e) || (e.block == block && e.i
                < e.j && e.j < n)),
{
    let ghost start = out@;
    let mut j: usize = 0;
    while j < n
        invariant
            j <= n,
            start.no_duplicates(),
            forall|k: int| 0 <= k < start.len() ==> start[k].block != block,
            out@.no_duplicates(),
            out@.len() == start.len() + pair_count(j as nat),
            forall|k: int| 0 <= k < start.len() ==> out@[k] == start[k],
            forall|k: int| start.len() <= k < out@.len() ==> #[trigger] out@[k].block == block,
            forall|e: CouplingEdge|
                #[trigger] out@.contains(e) <==> (start.contains(e) || (e.block == block && e.i
                    < e.j && e.j < j)),
        decreases n - j,
    {
        let mut i: usize = 0;
        while i < j
            invariant
                i <= j < n,
                start.no_duplicates(),
                forall|k: int| 0 <= k < start.len() ==> start[k].block != block,
                out@.no_duplicates(),
                out@.len() == start.len() + pair_count(j as nat) + i,
                forall|k: int| 0 <= k < start.len() ==> out@[k] == start[k],
                forall|k: int| start.len() <= k < out@.len() ==> #[trigger] out@[k].block == block,
                forall|e: CouplingEdge|
                    #[trigger] out@.contains(e) <==> (start.contains(e) || (e.block == block && ((e.i
                        < e.j && e.j < j) || (e.j == j && e.i < i)))),
            decreases j - i,
        {
            let edge = CouplingEdge { block, i, j };
            let ghost before = out@;
            proof {
                if start.contains(edge) {
                    let k = choose|k: int| 0 <= k < start.len() && start[k] == edge;
                    assert(start[k].block == block);
                }
                assert(!out@.contains(edge));
                lemma_push_no_duplicates(out@, edge);
            }
            out.push(edge);
            proof {
                assert forall|e: CouplingEdge|
                    #[trigger] out@.contains(e) <==> (start.contains(e) || (e.block == block && ((e.i
                        < e.j && e.j < j) || (e.j == j && e.i < i + 1)))) by {
                    assert(out@ == before.push(edge));
                    vstd::seq_lib::lemma_seq_contains_after_push(before, edge, e);
                    assert((edge == e) == (e.block == edge.block && e.i == edge.i && e.j == edge.j));
                }
            }
            i = i + 1;
        }
        proof {
            lemma_pair_count_step(j as nat);
        }
        j = j + 1;
    }
}

/// Appends every bridge pair `i < wa`, `j < wb`, row by row.
fn push_bridge(out: &mut Vec<CouplingEdge>, wa: usize, wb: usize)
    requires
        old(out)@.no_duplicates(),
        forall|k: int| 0 <= k < old(out)@.len() ==> old(out)@[k].block != EdgeBlock::Bridge,
    ensures
        final(out)@.no_duplicates(),
        final(out)@.len() == old(out)@.len() + wa * wb,
        forall|k: int| 0 <= k < old(out)@.len() ==> final(out)@[k] == old(out)@[k],
        forall|k: int|
            old(out)@.len() <= k < final(out)@.len() ==> #[trigger] final(out)@[k].block
                == EdgeBlock::Bridge,
        forall|e: CouplingEdge|
            final(out)@.contains(e) <==> (old(out)@.contains(e) || (e.block == EdgeBlock::Bridge
                && e.i < wa && e.j < wb)),
{
    let ghost start = out@;
    let mut i: usize = 0;
    while i < wa
        invariant
            i <= wa,
            start.no_duplicates(),
            forall|k: int| 0 <= k < start.len() ==> start[k].block != EdgeBlock::Bridge,
            out@.no_duplicates(),
            out@.len() == start.len() + i * wb,
            forall|k: int| 0 <= k < start.len() ==> out@[k] == start[k],
            forall|k: int|
                start.len() <= k < out@.len() ==> #[trigger] out@[k].block == EdgeBlock::Bridge,
            forall|e: CouplingEdge|
                #[trigger] out@.contains(e) <==> (start.contains(e) || (e.block == EdgeBlock::Bridge
                    && e.i < i && e.j < wb)),
        decreases wa - i,
    {
        let mut j: usize = 0;
        while j < wb
            invariant
                i < wa,
                j <= wb,
                start.no_duplicates(),
                forall|k: int| 0 <= k < start.len() ==> start[k].block != EdgeBlock::Bridge,
                out@.no_duplicates(),
                out@.len() == start.len() + i * wb + j,
                forall|k: int| 0 <= k < start.len() ==> out@[k] == start[k],
                forall|k: int|
                    start.len() <= k < out@.len() ==> #[trigger] out@[k].block == EdgeBlock::Bridge,
                forall|e: CouplingEdge|
                    #[trigger] out@.contains(e) <==> (start.contains(e) || (e.block
                        == EdgeBlock::Bridge && ((e.i < i && e.j < wb) || (e.i == i && e.j < j)))),
            decreases wb - j,
        {
            let edge = CouplingEdge { block: EdgeBlock::Bridge, i, j };
            let ghost before = out@;
            proof {
                if start.contains(edge) {
                    let k = choose|k: int| 0 <= k < start.len() && start[k] == edge;
                    assert(start[k].block == EdgeBlock::Bridge);
                }
                assert(!out@.contains(edge));
                lemma_push_no_duplicates(out@, edge);
            }
            out.push(edge);
            proof {
                assert forall|e: CouplingEdge|
                    #[trigger] out@.contains(e) <==> (start.contains(e) || (e.block
                        == EdgeBlock::Bridge && ((e.i < i && e.j < wb) || (e.i == i && e.j < j
                        + 1)))) by {
                    assert(out@ == before.push(edge));
                    vstd::seq_lib::lemma_seq_contains_after_push(before, edge, e);
                    assert((edge == e) == (e.block == edge.block && e.i == edge.i && e.j == edge.j));
                }
            }
            j = j + 1;
        }
        proof {
            assert((i + 1) * wb == i * wb + wb) by (nonlinear_arith);
        }
        i = i + 1;
    }
}

/// All edges of the graph that couples a system of `n_a` nodes with one of
/// `n_b` nodes, each once: the pairs within the first system, then those
/// within the second, then the bridge.
pub fn coupling_edges(n_a: usize, n_b: usize) -> (edges: Vec<CouplingEdge>)
    ensures
        forall|e: CouplingEdge| edges@.contains(e) <==> is_coupling_edge(n_a as nat, n_b as nat, e),
        edges@.no_duplicates(),
        edges@.len() == edge_count(n_a as nat, n_b as nat),
        forall|k1: int, k2: int|
            0 <= k1 < k2 < edges@.len() ==> block_rank(#[trigger] edges@[k1].block) <= block_rank(
                #[trigger] edges@[k2].block,
            ),
        // The same, written out over the sizes alone.
        forall|e: CouplingEdge|
            #[trigger] edges@.contains(e) <==> match e.block {
                EdgeBlock::First => e.i < e.j && e.j < n_a,
                EdgeBlock::Second => e.i < e.j && e.j < n_b,
                EdgeBlock::Bridge => e.i < n_a && e.i < BRIDGE_NODES && e.j < n_b && e.j
                    < BRIDGE_NODES,
            },
        edges@.len() == n_a * (n_a - 1) / 2 + n_b * (n_b - 1) / 2 + (if n_a < BRIDGE_NODES {
            n_a
        } else {
            BRIDGE_NODES
        }) * (if n_b < BRIDGE_NODES {
            n_b
        } else {
            BRIDGE_NODES
        }),
        forall|k: int|
            0 <= k < edges@.len() ==> {
                &&& (#[trigger] edges@[k].block == EdgeBlock::First) <==> k < n_a * (n_a - 1) / 2
                &&& (edges@[k].block == EdgeBlock::Bridge) <==> n_a * (n_a - 1) / 2 + n_b * (n_b
                    - 1) / 2 <= k
            },
{
    let mut edges: Vec<CouplingEdge> = Vec::new();
    push_pairs(&mut edges, EdgeBlock::First, n_a);
    let ghost firsts = edges@;
    push_pairs(&mut edges, EdgeBlock::Second, n_b);
    let ghost seconds = edges@;
    let wa: usize = if n_a < BRIDGE_NODES { n_a } else { BRIDGE_NODES };
    let wb: usize = if n_b < BRIDGE_NODES { n_b } else { BRIDGE_NODES };
    push_bridge(&mut edges, wa, wb);
    proof {
        assert(n_a * (n_a - 1) >= 0) by (nonlinear_arith);
        assert(n_b * (n_b - 1) >= 0) by (nonlinear_arith);
    }
    assert forall|k: int| 0 <= k < edges@.len() implies block_rank(#[trigger] edges@[k].block) == (
    if k < firsts.len() {
        0int
    } else if k < seconds.len() {
        1int
    } else {
        2int
    }) by {
        if k < seconds.len() {
            assert(edges@[k] == seconds[k]);
            if k < firsts.len() {
                assert(seconds[k] == firsts[k]);
            }
        }
    }
    edges
}

/// Row and column of the adjacency matrix of the coupled graph (`n_a + n_b`
/// nodes) at which the weight of edge `e` is written.
pub fn edge_position(n_a: usize, n_b: usize, e: CouplingEdge) -> (pos: (usize, usize))
    requires
        n_a + n_b <= usize::MAX,
        is_coupling_edge(n_a as nat, n_b as nat, e),
    ensures
        (pos.0 as nat, pos.1 as nat) == position(n_a as nat, e),
        // The same, written out: node `i` of the first system is row/column
        // `i`, node `j` of the second is row/column `n_a + j`.
        e.block == EdgeBlock::First ==> pos.0 == e.i && pos.1 == e.j,
        e.block == EdgeBlock::Second ==> pos.0 == n_a + e.i && pos.1 == n_a + e.j,
        e.block == EdgeBlock::Bridge ==> pos.0 == e.i && pos.1 == n_a + e.j,
{
    match e.block {
        EdgeBlock::First => (e.i, e.j),
        EdgeBlock::Second => (n_a + e.i, n_a + e.j),
        EdgeBlock::Bridge => (e.i, n_a + e.j),
    }
}

/// Every edge of the coupled graph lands strictly above the diagonal of its
/// adjacency matrix: inside the first system's diagonal block, inside the
/// second's, or in the bridge block between them, as its kind says; and no
/// two edges land on the same entry, so filling the matrix edge by edge writes
/// each entry at most once.
pub proof fn lemma_edge_positions_distinct(n_a: nat, n_b: nat, e1: CouplingEdge, e2: CouplingEdge)
    requires
        is_coupling_edge(n_a, n_b, e1),
        is_coupling_edge(n_a, n_b, e2),
    ensures
        position(n_a, e1).0 < position(n_a, e1).1,
        position(n_a, e1).1 < n_a + n_b,
        (e1.block == EdgeBlock::First) <==> position(n_a, e1).1 < n_a,
        (e1.block == EdgeBlock::Second) <==> n_a <= position(n_a, e1).0,
        (e1.block == EdgeBlock::Bridge) <==> (position(n_a, e1).0 < n_a <= position(n_a, e1).1),
        position(n_a, e1) == position(n_a, e2) ==> e1 == e2,
{
}

/// The node of the coupled graph at row or column `g` of its adjacency
/// matrix: whether it belongs to the second system, and its index inside its
/// own system.
pub open spec fn node_at(n_a: nat, g: nat) -> (bool, nat) {
    if g < n_a {
        (false, g)
    } else {
        (true, (g - n_a) as nat)
    }
}

/// The bridge uses `min(n, BRIDGE_NODES)` nodes of a system of `n` nodes:
/// never more than the system has, never more than `BRIDGE_NODES`, and as
/// many as one of the two allows.
pub proof fn lemma_bridge_width_is_min(n: nat)
    ensures
        bridge_width(n) <= n,
        bridge_width(n) <= BRIDGE_NODES,
        bridge_width(n) == n || bridge_width(n) == BRIDGE_NODES,
{
}

/// Each system keeps its complete graph in the coupling: two distinct nodes
/// of the same system are joined exactly when both exist in it, whatever the
/// size of the other system.
pub proof fn lemma_systems_stay_complete(n_a: nat, n_b: nat, m: nat, i: usize, j: usize)
    ensures
        is_coupling_edge(n_a, n_b, CouplingEdge { block: EdgeBlock::First, i, j }) <==> (i < j
            && j < n_a),
        is_coupling_edge(n_a, n_b, CouplingEdge { block: EdgeBlock::Second, i, j }) <==> (i < j
            && j < n_b),
        is_coupling_edge(n_a, n_b, CouplingEdge { block: EdgeBlock::First, i, j })
            == is_coupling_edge(n_a, m, CouplingEdge { block: EdgeBlock::First, i, j }),
        is_coupling_edge(n_a, n_b, CouplingEdge { block: EdgeBlock::Second, i, j })
            == is_coupling_edge(m, n_b, CouplingEdge { block: EdgeBlock::Second, i, j }),
{
}

/// The bridge joins node `i` of the first system with node `j` of the second
/// exactly when each is among the first `BRIDGE_NODES` nodes of its own
/// system; so which nodes of one system it reaches does not depend on the
/// size of the other.
pub proof fn lemma_bridge_edges(n_a: nat, n_b: nat, m_a: nat, m_b: nat, i: usize, j: usize)
    ensures
        is_coupling_edge(n_a, n_b, CouplingEdge { block: EdgeBlock::Bridge, i, j }) <==> (i < n_a
            && i < BRIDGE_NODES && j < n_b && j < BRIDGE_NODES),
        i < n_a && i < m_a ==> (is_coupling_edge(n_a, n_b, CouplingEdge { block: EdgeBlock::Bridge, i, j })
            == is_coupling_edge(m_a, n_b, CouplingEdge { block: EdgeBlock::Bridge, i, j })),
        j < n_b && j < m_b ==> (is_coupling_edge(n_a, n_b, CouplingEdge { block: EdgeBlock::Bridge, i, j })
            == is_coupling_edge(n_a, m_b, CouplingEdge { block: EdgeBlock::Bridge, i, j })),
{
}

/// The coupled graph has `n_a(n_a-1)/2` edges within the first system,
/// `n_b(n_b-1)/2` within the second and `min(n_a, 3) * min(n_b, 3)` across.
pub proof fn lemma_edge_count_formula(n_a: nat, n_b: nat)
    ensures
        pair_count(n_a) == n_a * (n_a - 1) / 2,
        pair_count(n_b) == n_b * (n_b - 1) / 2,
        edge_count(n_a, n_b) == n_a * (n_a - 1) / 2 + n_b * (n_b - 1) / 2 + (if n_a
            < BRIDGE_NODES {
            n_a
        } else {
            BRIDGE_NODES as nat
        }) * (if n_b < BRIDGE_NODES {
            n_b
        } else {
            BRIDGE_NODES as nat
        }),
{
    assert(n_a * (n_a - 1) >= 0) by (nonlinear_arith);
    assert(n_b * (n_b - 1) >= 0) by (nonlinear_arith);
}

/// The matrix entry of an edge joins exactly the two nodes the edge names:
/// nodes `i` and `j` of the first system, nodes `i` and `j` of the second,
/// or, on the bridge, node `i` of the first with node `j` of the second.
pub proof fn lemma_edge_joins_its_nodes(n_a: nat, n_b: nat, e: CouplingEdge)
    requires
        is_coupling_edge(n_a, n_b, e),
    ensures
        node_at(n_a, position(n_a, e).0) == (match e.block {
            EdgeBlock::Second => (true, e.i as nat),
            _ => (false, e.i as nat),
        }),
        node_at(n_a, position(n_a, e).1) == (match e.block {
            EdgeBlock::First => (false, e.j as nat),
            _ => (true, e.j as nat),
        }),
{
}

} // verus!
