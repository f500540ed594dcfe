//! The pointer-graph builder: bounded backward-chain discovery of "who
//! points near this address", collected into a directed graph whose node
//! weights are the discovered addresses and whose edges run from each
//! discovered pointer location to the node it points at.
use crate::error::{BetrayalError, BetrayalResult};
use crate::memory::ReadFromBytes;
use crate::process::find_in_range;
use petgraph::graph::Graph;
use petgraph::Directed;
use vstd::prelude::*;
use vstd::string::*;

verus! {

#[verifier::external_type_specification]
#[verifier::external_body]
#[verifier::reject_recursive_types(N)]
#[verifier::reject_recursive_types(E)]
#[verifier::reject_recursive_types(Ty)]
#[verifier::reject_recursive_types(Ix)]
pub struct ExGraph<N, E, Ty, Ix>(Graph<N, E, Ty, Ix>);

#[verifier::external_type_specification]
#[verifier::external_body]
pub struct ExDirected(Directed);

/// The graph a pointer map is collected into: node weights are addresses.
pub type PointerGraph = Graph<u64, (), Directed, u32>;

/// The node weights the graph holds, in insertion order.
pub uninterp spec fn pointer_graph_nodes(g: PointerGraph) -> Seq<u64>;

/// The edges the graph holds, as pairs of node positions, in insertion
/// order.
pub uninterp spec fn pointer_graph_edges(g: PointerGraph) -> Seq<(int, int)>;

/// Relies on petgraph's `Graph::new`: an empty graph.
#[verifier::external_body]
fn graph_new() -> (g: PointerGraph)
    ensures
        pointer_graph_nodes(g) == Seq::<u64>::empty(),
        pointer_graph_edges(g) == Seq::<(int, int)>::empty(),
{
    Graph::new()
}

/// Relies on petgraph's `Graph::try_add_node`: on success the node is
/// appended and its index (the old node count) returned; at the index
/// limit nothing changes and an error comes back.
#[verifier::external_body]
fn graph_add_node(g: &mut PointerGraph, w: u64) -> (r: Result<usize, ()>)
    ensures
        match r {
            Ok(i) => pointer_graph_nodes(*old(g)).len() < u32::MAX && pointer_graph_nodes(
                *final(g),
            ) == pointer_graph_nodes(*old(g)).push(w) && pointer_graph_edges(*final(g))
                == pointer_graph_edges(*old(g)) && i == pointer_graph_nodes(*old(g)).len(),
            Err(()) => pointer_graph_nodes(*final(g)) == pointer_graph_nodes(*old(g))
                && pointer_graph_edges(*final(g)) == pointer_graph_edges(*old(g)),
        },
{
    match g.try_add_node(w) {
        Ok(i) => Ok(i.index()),
        Err(_e) => Err(()),
    }
}

/// Relies on petgraph's `Graph::try_add_edge`: on success the edge
/// `a → b` is appended; with an index out of bounds or at the edge limit
/// nothing changes and an error comes back.  The index type converts by
/// truncation, so only values below its limit are admitted.
#[verifier::external_body]
fn graph_add_edge(g: &mut PointerGraph, a: usize, b: usize) -> (r: Result<(), ()>)
    requires
        a < u32::MAX as usize,
        b < u32::MAX as usize,
    ensures
        match r {
            Ok(()) => pointer_graph_edges(*final(g)) == pointer_graph_edges(*old(g)).push(
                (a as int, b as int),
            ) && pointer_graph_nodes(*final(g)) == pointer_graph_nodes(*old(g)),
            Err(()) => pointer_graph_nodes(*final(g)) == pointer_graph_nodes(*old(g))
                && pointer_graph_edges(*final(g)) == pointer_graph_edges(*old(g)),
        },
{
    match g.try_add_edge(
        petgraph::graph::NodeIndex::new(a),
        petgraph::graph::NodeIndex::new(b),
        (),
    ) {
        Ok(_i) => Ok(()),
        Err(_e) => Err(()),
    }
}

/// Some node holds `value`.
pub open spec fn has_node(nodes: Seq<u64>, value: int) -> bool {
    exists|j: int| 0 <= j < nodes.len() && (#[trigger] nodes[j]) as int == value
}

/// Some node holds `value` and an edge runs from it to position `parent`.
pub open spec fn linked_into(nodes: Seq<u64>, edges: Seq<(int, int)>, value: int, parent: int) -> bool {
    exists|j: int|
        0 <= j < nodes.len() && (#[trigger] nodes[j]) as int == value && edges.contains(
            (j, parent),
        )
}

/// A prefix agrees with the longer sequence at every index it covers.
proof fn lemma_prefix_index<A>(s1: Seq<A>, s2: Seq<A>, k: int)
    requires
        s1.is_prefix_of(s2),
        0 <= k < s1.len(),
    ensures
        s2[k] == s1[k],
{
    assert(s1 =~= s2.subrange(0, s1.len() as int));
}

/// Appending nodes or edges never unlinks what is already present.
proof fn lemma_growth_keeps_links(
    nodes1: Seq<u64>,
    edges1: Seq<(int, int)>,
    nodes2: Seq<u64>,
    edges2: Seq<(int, int)>,
    value: int,
    parent: int,
)
    requires
        nodes1.is_prefix_of(nodes2),
        edges1.is_prefix_of(edges2),
    ensures
        has_node(nodes1, value) ==> has_node(nodes2, value),
        linked_into(nodes1, edges1, value, parent) ==> linked_into(nodes2, edges2, value, parent),
{
    if has_node(nodes1, value) {
        let j = choose|j: int| 0 <= j < nodes1.len() && (#[trigger] nodes1[j]) as int == value;
        assert(nodes2[j] == nodes1[j]);
    }
    if linked_into(nodes1, edges1, value, parent) {
        let j = choose|j: int|
            0 <= j < nodes1.len() && (#[trigger] nodes1[j]) as int == value && edges1.contains(
                (j, parent),
            );
        assert(nodes2[j] == nodes1[j]);
        let e = choose|e: int| 0 <= e < edges1.len() && #[trigger] edges1[e] == (j, parent);
        assert(edges2[e] == (j, parent));
    }
}

/// Expand the pointer chain backward: give every address of `addresses` a
/// node of its own (and an edge to `current`, the node it points near),
/// then, while `levels` allows, discover who points into
/// `[address − depth, address]` with a fresh ranged scan and recurse on
/// the discovered locations.  The graph only ever grows; duplicate
/// discoveries of one address keep separate nodes.
pub fn build_pointer_tree<T: ReadFromBytes>(
    pid: i32,
    tree: &mut PointerGraph,
    current: Option<usize>,
    addresses: &Vec<T>,
    depth: T,
    levels: usize,
) -> (r: BetrayalResult<()>)
    requires
        current matches Some(c) ==> c < pointer_graph_nodes(*old(tree)).len(),
    ensures
        pointer_graph_nodes(*old(tree)).is_prefix_of(pointer_graph_nodes(*final(tree))),
        pointer_graph_edges(*old(tree)).is_prefix_of(pointer_graph_edges(*final(tree))),
        r is Ok ==> forall|k: int|
            pointer_graph_edges(*old(tree)).len() <= k < pointer_graph_edges(
                *final(tree),
            ).len() ==> pointer_graph_nodes(*old(tree)).len() <= (#[trigger] pointer_graph_edges(
                *final(tree),
            )[k]).0 < pointer_graph_nodes(*final(tree)).len() && 0 <= pointer_graph_edges(
                *final(tree),
            )[k].1 < pointer_graph_edges(*final(tree))[k].0,
        r is Ok ==> forall|p: int, q: int|
            pointer_graph_edges(*old(tree)).len() <= p < q < pointer_graph_edges(
                *final(tree),
            ).len() ==> (#[trigger] pointer_graph_edges(*final(tree))[p]).0 < (
            #[trigger] pointer_graph_edges(*final(tree))[q]).0,
        r is Ok ==> pointer_graph_edges(*final(tree)).len() - pointer_graph_edges(
            *old(tree),
        ).len() == pointer_graph_nodes(*final(tree)).len() - pointer_graph_nodes(
            *old(tree),
        ).len() - (if current is None {
            addresses@.len() as int
        } else {
            0
        }),
        r is Ok && addresses@.len() > 0 ==> pointer_graph_nodes(*final(tree))[pointer_graph_nodes(
            *old(tree),
        ).len() as int] as int == addresses@[0].as_int(),
        r is Ok ==> forall|i: int|
            0 <= i < addresses@.len() ==> has_node(
                pointer_graph_nodes(*final(tree)),
                (#[trigger] addresses@[i]).as_int(),
            ) && (current matches Some(c) ==> linked_into(
                pointer_graph_nodes(*final(tree)),
                pointer_graph_edges(*final(tree)),
                addresses@[i].as_int(),
                c as int,
            )),
        r is Err ==> r->Err_0 is BadPid || r->Err_0 is BadWrite,
    decreases levels, addresses@.len(),
{
    let n = addresses.len();
    let mut i: usize = 0;
    while i < n
        invariant
            0 <= i <= n,
            n == addresses@.len(),
            pointer_graph_nodes(*old(tree)).is_prefix_of(pointer_graph_nodes(*tree)),
            pointer_graph_edges(*old(tree)).is_prefix_of(pointer_graph_edges(*tree)),
            current matches Some(c) ==> c < pointer_graph_nodes(*old(tree)).len(),
            forall|k: int|
                pointer_graph_edges(*old(tree)).len() <= k < pointer_graph_edges(*tree).len()
                    ==> pointer_graph_nodes(*old(tree)).len() <= (
                #[trigger] pointer_graph_edges(*tree)[k]).0 < pointer_graph_nodes(*tree).len()
                    && 0 <= pointer_graph_edges(*tree)[k].1 < pointer_graph_edges(*tree)[k].0,
            forall|p: int, q: int|
                pointer_graph_edges(*old(tree)).len() <= p < q < pointer_graph_edges(
                    *tree,
                ).len() ==> (#[trigger] pointer_graph_edges(*tree)[p]).0 < (
                #[trigger] pointer_graph_edges(*tree)[q]).0,
            pointer_graph_edges(*tree).len() - pointer_graph_edges(*old(tree)).len()
                == pointer_graph_nodes(*tree).len() - pointer_graph_nodes(*old(tree)).len() - (
            if current is None {
                i as int
            } else {
                0
            }),
            i == 0 ==> pointer_graph_nodes(*tree) == pointer_graph_nodes(*old(tree)),
            pointer_graph_nodes(*tree).len() >= pointer_graph_nodes(*old(tree)).len() + i,
            i > 0 && n > 0 ==> pointer_graph_nodes(*tree)[pointer_graph_nodes(
                *old(tree),
            ).len() as int] as int == addresses@[0].as_int(),
            forall|k: int|
                0 <= k < i ==> has_node(
                    pointer_graph_nodes(*tree),
                    (#[trigger] addresses@[k]).as_int(),
                ) && (current matches Some(c) ==> linked_into(
                    pointer_graph_nodes(*tree),
                    pointer_graph_edges(*tree),
                    addresses@[k].as_int(),
                    c as int,
                )),
        decreases n - i,
    {
        let ghost pre_nodes = pointer_graph_nodes(*tree);
        let ghost pre_edges = pointer_graph_edges(*tree);
        let address = addresses[i];
        let weight = match address.to_usize() {
            Some(u) => u as u64,
            None => {
                return Err(BetrayalError::BadWrite(String::from_str("address out of range")));
            },
        };
        let node = match graph_add_node(tree, weight) {
            Ok(node) => node,
            Err(()) => {
                return Err(BetrayalError::BadWrite(String::from_str("pointer graph is full")));
            },
        };
        match current {
            Some(c) => {
                proof {
                    assert(pointer_graph_nodes(*old(tree)).len() <= pre_nodes.len());
                    assert(c < u32::MAX as usize);
                    assert(node < u32::MAX as usize);
                }
                match graph_add_edge(tree, node, c) {
                    Ok(()) => (),
                    Err(()) => {
                        return Err(
                            BetrayalError::BadWrite(String::from_str("pointer graph is full")),
                        );
                    },
                }
            },
            None => (),
        }
        let ghost mid_nodes = pointer_graph_nodes(*tree);
        let ghost mid_edges = pointer_graph_edges(*tree);
        if levels > 0 {
            let lo = address.value_sub(&depth);
            let children_values = match find_in_range(pid, lo, address) {
                Ok(v) => v,
                Err(e) => {
                    return Err(e);
                },
            };
            let mut children: Vec<T> = Vec::new();
            let mut c2: usize = 0;
            while c2 < children_values.len()
                invariant
                    0 <= c2 <= children_values.len(),
                decreases children_values.len() - c2,
            {
                match T::from_usize(children_values[c2].1) {
                    Some(child) => children.push(child),
                    None => (),
                }
                c2 = c2 + 1;
            }
            match build_pointer_tree(pid, tree, Some(node), &children, depth, levels - 1) {
                Ok(()) => (),
                Err(e) => {
                    return Err(e);
                },
            }
        }
        proof {
            assert(mid_nodes[node as int] as int == address.as_int());
            assert(mid_nodes.is_prefix_of(pointer_graph_nodes(*tree)));
            assert(mid_edges.is_prefix_of(pointer_graph_edges(*tree)));
            assert(pointer_graph_nodes(*old(tree)).len() <= pre_nodes.len());
            assert(pointer_graph_edges(*old(tree)).len() <= pre_edges.len());
            assert forall|k: int|
                pointer_graph_edges(*old(tree)).len() <= k < pointer_graph_edges(*tree).len()
                    implies pointer_graph_nodes(*old(tree)).len() <= (
                #[trigger] pointer_graph_edges(*tree)[k]).0 < pointer_graph_nodes(*tree).len()
                    && 0 <= pointer_graph_edges(*tree)[k].1 < pointer_graph_edges(*tree)[k].0 by {
                if k < pre_edges.len() {
                    lemma_prefix_index(mid_edges, pointer_graph_edges(*tree), k);
                    assert(mid_edges[k] == pre_edges[k]);
                } else if k < mid_edges.len() {
                    lemma_prefix_index(mid_edges, pointer_graph_edges(*tree), k);
                }
            }
            assert forall|p: int, q: int|
                pointer_graph_edges(*old(tree)).len() <= p < q < pointer_graph_edges(
                    *tree,
                ).len() implies (#[trigger] pointer_graph_edges(*tree)[p]).0 < (
            #[trigger] pointer_graph_edges(*tree)[q]).0 by {
                if p < mid_edges.len() {
                    lemma_prefix_index(mid_edges, pointer_graph_edges(*tree), p);
                    if p < pre_edges.len() {
                        assert(mid_edges[p] == pre_edges[p]);
                        assert(pre_edges[p].0 < pre_nodes.len());
                    }
                }
                if q < mid_edges.len() {
                    lemma_prefix_index(mid_edges, pointer_graph_edges(*tree), q);
                    if q < pre_edges.len() {
                        assert(mid_edges[q] == pre_edges[q]);
                    }
                } else {
                    assert(mid_nodes.len() <= pointer_graph_edges(*tree)[q].0);
                }
            }
            if i == 0 {
                assert(pre_nodes == pointer_graph_nodes(*old(tree)));
                assert(mid_nodes[node as int] == weight);
                lemma_prefix_index(mid_nodes, pointer_graph_nodes(*tree), node as int);
                assert(pointer_graph_nodes(*tree)[pointer_graph_nodes(
                    *old(tree),
                ).len() as int] as int == addresses@[0].as_int());
            } else if n > 0 {
                lemma_prefix_index(
                    pre_nodes,
                    pointer_graph_nodes(*tree),
                    pointer_graph_nodes(*old(tree)).len() as int,
                );
                assert(pointer_graph_nodes(*tree)[pointer_graph_nodes(
                    *old(tree),
                ).len() as int] == pre_nodes[pointer_graph_nodes(*old(tree)).len() as int]);
            }
            if current is Some {
                let c = current->Some_0;
                assert(mid_edges.contains((node as int, c as int))) by {
                    assert(mid_edges[mid_edges.len() - 1] == (node as int, c as int));
                }
                assert(linked_into(mid_nodes, mid_edges, address.as_int(), c as int));
            }
            assert forall|k: int|
                0 <= k < i + 1 implies has_node(
                pointer_graph_nodes(*tree),
                (#[trigger] addresses@[k]).as_int(),
            ) && (current matches Some(c) ==> linked_into(
                pointer_graph_nodes(*tree),
                pointer_graph_edges(*tree),
                addresses@[k].as_int(),
                c as int,
            )) by {
                if k < i {
                    lemma_growth_keeps_links(
                        pre_nodes,
                        pre_edges,
                        pointer_graph_nodes(*tree),
                        pointer_graph_edges(*tree),
                        addresses@[k].as_int(),
                        match current {
                            Some(c) => c as int,
                            None => 0,
                        },
                    );
                } else {
                    lemma_growth_keeps_links(
                        mid_nodes,
                        mid_edges,
                        pointer_graph_nodes(*tree),
                        pointer_graph_edges(*tree),
                        addresses@[k].as_int(),
                        match current {
                            Some(c) => c as int,
                            None => 0,
                        },
                    );
                    assert(has_node(mid_nodes, address.as_int()));
                }
            }
        }
        i = i + 1;
    }
    Ok(())
}

/// Build the pointer map for `address`: a graph whose first node holds
/// the address itself, with one discovery level expanded (every location
/// whose stored value lands in `[address − depth, address]` becomes a
/// child node with an edge to the root).  One edge per non-root node,
/// sources strictly increasing and always above their targets: the root
/// has no outgoing edge, every other node exactly one, and following
/// edges always reaches an earlier node.
pub fn pointer_map<T: ReadFromBytes>(pid: i32, address: T, depth: T) -> (r: BetrayalResult<
    PointerGraph,
>)
    ensures
        r matches Ok(g) ==> ({
            let nodes = pointer_graph_nodes(g);
            let edges = pointer_graph_edges(g);
            &&& nodes.len() >= 1
            &&& nodes[0] as int == address.as_int()
            &&& has_node(nodes, address.as_int())
            &&& edges.len() == nodes.len() - 1
            &&& forall|k: int|
                0 <= k < edges.len() ==> 1 <= (#[trigger] edges[k]).0 < nodes.len() && 0 <= edges[
                    k
                ].1 < edges[k].0
            &&& forall|p: int, q: int| 0 <= p < q < edges.len() ==> edges[p].0 < edges[q].0
        }),
{
    let mut graph = graph_new();
    let mut roots: Vec<T> = Vec::new();
    roots.push(address);
    match build_pointer_tree(pid, &mut graph, None, &roots, depth, 1) {
        Ok(()) => (),
        Err(e) => {
            return Err(e);
        },
    }
    proof {
        assert(roots@[0] == address);
        assert(has_node(pointer_graph_nodes(graph), address.as_int()));
    }
    Ok(graph)
}

} // verus!
