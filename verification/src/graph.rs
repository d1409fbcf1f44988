//! The graph store: index-addressed nodes and directed edges.
//!
//! An [`Edge`] is a directed arc from one producer [`Port`] to one consumer
//! [`Port`]. Edges are held in one insertion-ordered list; a node's incoming
//! and outgoing adjacency is the subsequence of edges that name it, so
//! insertion order within each node's adjacency is the order of the edge
//! list. Rewiring a consumer mutates its edge in place, which preserves that
//! order, as the optimizer requires.

use vstd::prelude::*;

verus! {

/// A produced value's address: a node and the index of one of its outputs.
/// It is a value-type relation, never an owning handle.
#[derive(Clone, Copy, PartialEq, Eq, Structural, Debug)]
pub struct Port {
    pub node: usize,
    pub port: usize,
}

impl Port {
    pub fn new(node: usize, port: usize) -> (r: Self)
        ensures
            r.node == node && r.port == port,
    {
        Port { node, port }
    }

    /// The same output index on another node.
    pub fn with(&self, node: usize) -> (r: Self)
        ensures
            r.node == node && r.port == self.port,
    {
        Port { node, port: self.port }
    }
}

/// A directed arc from a producer port to a consumer port. The consumer-side
/// `port` index names which input position of the consuming node this arc
/// feeds.
#[derive(Clone, Copy, PartialEq, Eq, Structural, Debug)]
pub struct Edge {
    pub port_out: Port,
    pub port_in: Port,
}

/// Every edge of `edges` rewired away from `from`: an edge leaving `from`
/// leaves `to` instead, all else is unchanged.
pub open spec fn reconnect_edges_spec(edges: Seq<Edge>, from: Port, to: Port) -> Seq<Edge> {
    edges.map_values(
        |e: Edge|
            if e.port_out == from {
                Edge { port_out: to, port_in: e.port_in }
            } else {
                e
            },
    )
}

/// Index-addressed node storage plus the shared edge list.
#[derive(Clone, PartialEq, Eq, Debug)]
pub struct Graph<N> {
    pub nodes: Vec<N>,
    pub edges: Vec<Edge>,
}

impl<N> Graph<N> {
    /// Every edge endpoint names an existing node.
    pub open spec fn wf(self) -> bool {
        forall|i: int|
            0 <= i < self.edges.len() ==> (#[trigger] self.edges[i]).port_out.node
                < self.nodes.len() && self.edges[i].port_in.node < self.nodes.len()
    }

    pub fn new() -> (r: Self)
        ensures
            r.nodes.len() == 0,
            r.edges.len() == 0,
            r.wf(),
    {
        Graph { nodes: Vec::new(), edges: Vec::new() }
    }

    pub fn add_node(&mut self, node: N) -> (r: usize)
        ensures
            final(self).nodes@ == old(self).nodes@.push(node),
            final(self).edges == old(self).edges,
            r == old(self).nodes.len(),
            old(self).wf() ==> final(self).wf(),
    {
        let id = self.nodes.len();
        self.nodes.push(node);
        id
    }

    /// Replaces the node stored at `node_id`, keeping every edge.
    pub fn insert_node(&mut self, node_id: usize, node: N)
        requires
            node_id < old(self).nodes.len(),
        ensures
            final(self).nodes@ == old(self).nodes@.update(node_id as int, node),
            final(self).edges == old(self).edges,
            old(self).wf() ==> final(self).wf(),
    {
        self.nodes.set(node_id, node);
    }

    pub fn add_edge(&mut self, port_out: Port, port_in: Port) -> (r: usize)
        requires
            port_out.node < old(self).nodes.len(),
            port_in.node < old(self).nodes.len(),
        ensures
            final(self).edges@ == old(self).edges@.push(Edge { port_out, port_in }),
            final(self).nodes == old(self).nodes,
            r == old(self).edges.len(),
            old(self).wf() ==> final(self).wf(),
    {
        let id = self.edges.len();
        self.edges.push(Edge { port_out, port_in });
        id
    }

    /// Removes one edge; later edges keep their relative order.
    pub fn remove_edge(&mut self, edge_id: usize)
        requires
            edge_id < old(self).edges.len(),
        ensures
            final(self).edges@ == old(self).edges@.remove(edge_id as int),
            final(self).nodes == old(self).nodes,
            old(self).wf() ==> final(self).wf(),
    {
        self.edges.remove(edge_id);
    }

    pub fn node_count(&self) -> (r: usize)
        ensures
            r == self.nodes.len(),
    {
        self.nodes.len()
    }

    pub fn edge_count(&self) -> (r: usize)
        ensures
            r == self.edges.len(),
    {
        self.edges.len()
    }

    /// The id the next added node will get.
    pub fn last_node_id(&self) -> (r: usize)
        ensures
            r == self.nodes.len(),
    {
        self.nodes.len()
    }

    pub fn reserve_nodes(&mut self, additional: usize)
        ensures
            *final(self) == *old(self),
    {
        let _ = additional;
    }

    pub fn reserve_edges(&mut self, additional: usize)
        ensures
            *final(self) == *old(self),
    {
        let _ = additional;
    }

    /// The consumer ports fed by edges into `node_id`, in adjacency order.
    pub fn incoming(&self, node_id: usize) -> (r: IncomingEdges)
        ensures
            r.node == node_id,
            r.pos == 0,
    {
        IncomingEdges { node: node_id, pos: 0 }
    }

    /// A cursor over the consumers of one specific output port.
    pub fn outgoing(&self, port: Port) -> (r: OutgoingEdges)
        ensures
            r.port == port,
            r.pos == 0,
    {
        OutgoingEdges { port, pos: 0 }
    }

    /// The producer ports feeding `node_id`, ordered by input position.
    /// Returns `None` where an input position lacks exactly one producer.
    pub fn inputs_of(&self, node_id: usize, arity: usize) -> (r: Option<Vec<Port>>)
        ensures
            match r {
                Some(ports) => {
                    &&& ports.len() == arity
                    &&& forall|k: int|
                        0 <= k < arity ==> is_input_of(
                            self.edges@,
                            node_id,
                            k,
                            (#[trigger] ports@[k]),
                        )
                    &&& forall|k: int|
                        0 <= k < arity ==> first_input(self.edges@, node_id, k as usize) == Some(
                            #[trigger] ports@[k],
                        )
                },
                None => exists|k: int|
                    0 <= k < arity && (#[trigger] first_input(
                        self.edges@,
                        node_id,
                        k as usize,
                    )) is None,
            },
    {
        let mut ports: Vec<Port> = Vec::new();
        let mut k: usize = 0;
        while k < arity
            invariant
                ports.len() == k,
                k <= arity,
                forall|j: int|
                    0 <= j < k ==> is_input_of(self.edges@, node_id, j, (#[trigger] ports@[j])),
                forall|j: int|
                    0 <= j < k ==> first_input(self.edges@, node_id, j as usize) == Some(
                        #[trigger] ports@[j],
                    ),
            decreases arity - k,
        {
            match self.input_at(node_id, k) {
                Some(p) => ports.push(p),
                None => {
                    proof {
                        let ghost ki = k as int;
                        assert(0 <= ki < arity && first_input(
                            self.edges@,
                            node_id,
                            ki as usize,
                        ) is None);
                    }
                    return None;
                },
            }
            k = k + 1;
        }
        Some(ports)
    }

    /// The producer feeding input position `pos` of `node_id`, if any: the
    /// first matching edge in adjacency order.
    pub fn input_at(&self, node_id: usize, pos: usize) -> (r: Option<Port>)
        ensures
            r == first_input(self.edges@, node_id, pos),
            match r {
                Some(p) => is_input_of(self.edges@, node_id, pos as int, p),
                None => true,
            },
    {
        proof {
            lemma_first_input_is_input(self.edges@, node_id, pos);
            assert(self.edges@.skip(0) =~= self.edges@);
        }
        let mut i: usize = 0;
        while i < self.edges.len()
            invariant
                i <= self.edges.len(),
                first_input(self.edges@, node_id, pos) == first_input(
                    self.edges@.skip(i as int),
                    node_id,
                    pos,
                ),
            decreases self.edges.len() - i,
        {
            let e = self.edges[i];
            proof {
                assert(self.edges@.skip(i as int).drop_first() =~= self.edges@.skip(i + 1));
                assert(self.edges@.skip(i as int)[0] == self.edges@[i as int]);
            }
            if e.port_in.node == node_id && e.port_in.port == pos {
                return Some(e.port_out);
            }
            i = i + 1;
        }
        proof {
            assert(self.edges@.skip(self.edges@.len() as int).len() == 0);
        }
        None
    }

    /// Rewires every consumer of `old_port` to `new_port`, in place, which
    /// preserves edge order within every affected node's adjacency.
    pub fn reconnect_all_outgoing(&mut self, old_port: Port, new_port: Port)
        requires
            new_port.node < old(self).nodes.len(),
        ensures
            final(self).edges@ == reconnect_edges_spec(old(self).edges@, old_port, new_port),
            final(self).nodes == old(self).nodes,
            old(self).wf() ==> final(self).wf(),
    {
        let ghost orig = self.edges@;
        let mut i: usize = 0;
        while i < self.edges.len()
            invariant
                i <= self.edges.len(),
                self.edges.len() == orig.len(),
                self.nodes == old(self).nodes,
                new_port.node < self.nodes.len(),
                forall|j: int| i <= j < orig.len() ==> self.edges@[j] == orig[j],
                forall|j: int|
                    0 <= j < i ==> self.edges@[j] == reconnect_edges_spec(
                        orig,
                        old_port,
                        new_port,
                    )[j],
            decreases self.edges.len() - i,
        {
            let e = self.edges[i];
            if e.port_out.node == old_port.node && e.port_out.port == old_port.port {
                self.edges.set(i, Edge { port_out: new_port, port_in: e.port_in });
            }
            i = i + 1;
        }
        proof {
            assert(final(self).edges@ =~= reconnect_edges_spec(orig, old_port, new_port));
        }
    }

    /// Removes every edge that touches `node_id`, keeping the rest in order.
    pub fn remove_all_edges(&mut self, node_id: usize)
        ensures
            final(self).edges@ == old(self).edges@.filter(
                |e: Edge| e.port_out.node != node_id && e.port_in.node != node_id,
            ),
            final(self).nodes == old(self).nodes,
            old(self).wf() ==> final(self).wf(),
    {
        let ghost orig = self.edges@;
        let ghost pred = |e: Edge| e.port_out.node != node_id && e.port_in.node != node_id;
        let mut kept: Vec<Edge> = Vec::new();
        let mut i: usize = 0;
        while i < self.edges.len()
            invariant
                i <= self.edges.len(),
                self.edges@ == orig,
                self.nodes == old(self).nodes,
                pred == (|e: Edge| e.port_out.node != node_id && e.port_in.node != node_id),
                kept@ == orig.take(i as int).filter(pred),
                old(self).wf() ==> forall|j: int|
                    0 <= j < kept.len() ==> (#[trigger] kept@[j]).port_out.node < self.nodes.len()
                        && kept@[j].port_in.node < self.nodes.len(),
            decreases self.edges.len() - i,
        {
            let e = self.edges[i];
            proof {
                assert(orig.take(i + 1).drop_last() =~= orig.take(i as int));
                assert(orig.take(i + 1).last() == orig[i as int]);
                assert(orig.take(i + 1).len() == i + 1 > 0);
                assert(orig.take(i + 1).filter(pred) == if pred(orig[i as int]) {
                    orig.take(i as int).filter(pred).push(orig[i as int])
                } else {
                    orig.take(i as int).filter(pred)
                }) by {
                    reveal_with_fuel(Seq::<_>::filter, 2);
                }
            }
            if e.port_out.node != node_id && e.port_in.node != node_id {
                kept.push(e);
            }
            i = i + 1;
        }
        proof {
            assert(orig.take(orig.len() as int) =~= orig);
        }
        self.edges = kept;
    }

    /// Removes every edge entering `node_id`, keeping the rest in order.
    pub fn remove_inc_edges(&mut self, node_id: usize)
        ensures
            final(self).edges@ == old(self).edges@.filter(
                |e: Edge| e.port_in.node != node_id,
            ),
            final(self).nodes == old(self).nodes,
            old(self).wf() ==> final(self).wf(),
    {
        let ghost orig = self.edges@;
        let ghost pred = |e: Edge| e.port_in.node != node_id;
        let mut kept: Vec<Edge> = Vec::new();
        let mut i: usize = 0;
        while i < self.edges.len()
            invariant
                i <= self.edges.len(),
                self.edges@ == orig,
                self.nodes == old(self).nodes,
                pred == (|e: Edge| e.port_in.node != node_id),
                kept@ == orig.take(i as int).filter(pred),
                old(self).wf() ==> forall|j: int|
                    0 <= j < kept.len() ==> (#[trigger] kept@[j]).port_out.node < self.nodes.len()
                        && kept@[j].port_in.node < self.nodes.len(),
            decreases self.edges.len() - i,
        {
            let e = self.edges[i];
            proof {
                assert(orig.take(i + 1).drop_last() =~= orig.take(i as int));
                assert(orig.take(i + 1).last() == orig[i as int]);
                assert(orig.take(i + 1).len() == i + 1 > 0);
                assert(orig.take(i + 1).filter(pred) == if pred(orig[i as int]) {
                    orig.take(i as int).filter(pred).push(orig[i as int])
                } else {
                    orig.take(i as int).filter(pred)
                }) by {
                    reveal_with_fuel(Seq::<_>::filter, 2);
                }
            }
            if e.port_in.node != node_id {
                kept.push(e);
            }
            i = i + 1;
        }
        proof {
            assert(orig.take(orig.len() as int) =~= orig);
        }
        self.edges = kept;
    }
}

/// Every element a filter keeps is an element of the original sequence.
pub proof fn lemma_filter_is_subset<A>(s: Seq<A>, pred: spec_fn(A) -> bool)
    ensures
        forall|i: int|
            0 <= i < s.filter(pred).len() ==> s.contains(#[trigger] s.filter(pred)[i]),
    decreases s.len(),
{
    if s.len() > 0 {
        lemma_filter_is_subset(s.drop_last(), pred);
        assert(s.filter(pred) == if pred(s.last()) {
            s.drop_last().filter(pred).push(s.last())
        } else {
            s.drop_last().filter(pred)
        }) by {
            reveal_with_fuel(Seq::<_>::filter, 2);
        }
        assert forall|i: int| 0 <= i < s.filter(pred).len() implies s.contains(
            #[trigger] s.filter(pred)[i],
        ) by {
            let x = s.filter(pred)[i];
            if pred(s.last()) && i == s.filter(pred).len() - 1 {
                assert(x == s.last());
                assert(s[s.len() - 1] == x);
            } else {
                assert(s.drop_last().contains(x));
                let j = choose|j: int| 0 <= j < s.drop_last().len() && s.drop_last()[j] == x;
                assert(s[j] == x);
            }
        }
    }
}

/// `p` is a producer wired into input position `pos` of node `node_id`.
pub open spec fn is_input_of(edges: Seq<Edge>, node_id: usize, pos: int, p: Port) -> bool {
    exists|j: int|
        0 <= j < edges.len() && (#[trigger] edges[j]).port_in.node == node_id
            && edges[j].port_in.port == pos && edges[j].port_out == p
}

/// The first producer wired into input position `pos` of `node_id`, in edge
/// order: the node's input at that position.
pub open spec fn first_input(edges: Seq<Edge>, node_id: usize, pos: usize) -> Option<Port>
    decreases edges.len(),
{
    if edges.len() == 0 {
        None
    } else if edges[0].port_in.node == node_id && edges[0].port_in.port == pos {
        Some(edges[0].port_out)
    } else {
        first_input(edges.drop_first(), node_id, pos)
    }
}

/// Appending one edge changes a first input only where none existed.
pub proof fn lemma_first_input_push(edges: Seq<Edge>, e: Edge, node_id: usize, pos: usize)
    ensures
        first_input(edges.push(e), node_id, pos) == (match first_input(edges, node_id, pos) {
            Some(q) => Some(q),
            None => if e.port_in.node == node_id && e.port_in.port == pos {
                Some(e.port_out)
            } else {
                None
            },
        }),
    decreases edges.len(),
{
    if edges.len() == 0 {
        assert(edges.push(e)[0] == e);
        assert(edges.push(e).drop_first() =~= edges);
    } else {
        assert(edges.push(e)[0] == edges[0]);
        assert(edges.push(e).drop_first() =~= edges.drop_first().push(e));
        lemma_first_input_push(edges.drop_first(), e, node_id, pos);
    }
}

/// Filtering away edges that enter other nodes leaves a node's first inputs
/// as they were.
pub proof fn lemma_first_input_filter_keeps(
    edges: Seq<Edge>,
    keep: spec_fn(Edge) -> bool,
    node_id: usize,
    pos: usize,
)
    requires
        forall|e: Edge| e.port_in.node == node_id ==> #[trigger] keep(e),
    ensures
        first_input(edges.filter(keep), node_id, pos) == first_input(edges, node_id, pos),
    decreases edges.len(),
{
    if edges.len() > 0 {
        let sub = edges.drop_last();
        lemma_first_input_filter_keeps(sub, keep, node_id, pos);
        reveal_with_fuel(Seq::filter, 2);
        assert(edges =~= sub.push(edges.last()));
        lemma_first_input_push(sub, edges.last(), node_id, pos);
        if keep(edges.last()) {
            assert(edges.filter(keep) == sub.filter(keep).push(edges.last()));
            lemma_first_input_push(sub.filter(keep), edges.last(), node_id, pos);
        } else {
            assert(edges.filter(keep) == sub.filter(keep));
        }
    } else {
        reveal_with_fuel(Seq::filter, 1);
        assert(edges.filter(keep) =~= edges);
    }
}

/// Re-sourcing edges (any rewriting that keeps each edge's consumer) maps a
/// node's first input pointwise and never adds or removes one.
pub proof fn lemma_first_input_resourced(
    a: Seq<Edge>,
    b: Seq<Edge>,
    f: spec_fn(Port) -> Port,
    node_id: usize,
    pos: usize,
)
    requires
        b.len() == a.len(),
        forall|j: int| 0 <= j < a.len() ==> #[trigger] b[j] == (Edge {
            port_out: f(a[j].port_out),
            port_in: a[j].port_in,
        }),
    ensures
        first_input(b, node_id, pos) == (match first_input(a, node_id, pos) {
            Some(q) => Some(f(q)),
            None => None,
        }),
    decreases a.len(),
{
    if a.len() > 0 {
        assert(b[0] == Edge { port_out: f(a[0].port_out), port_in: a[0].port_in });
        assert(b.drop_first().len() == a.drop_first().len());
        assert(forall|j: int|
            0 <= j < a.drop_first().len() ==> #[trigger] b.drop_first()[j] == Edge {
                port_out: f(a.drop_first()[j].port_out),
                port_in: a.drop_first()[j].port_in,
            });
        lemma_first_input_resourced(a.drop_first(), b.drop_first(), f, node_id, pos);
    }
}

/// Among edges that never enter a node, it has no first input.
pub proof fn lemma_first_input_none_no_match(edges: Seq<Edge>, node_id: usize, pos: usize)
    requires
        forall|j: int| 0 <= j < edges.len() ==> (#[trigger] edges[j]).port_in.node != node_id,
    ensures
        first_input(edges, node_id, pos) is None,
    decreases edges.len(),
{
    if edges.len() > 0 {
        lemma_first_input_none_no_match(edges.drop_first(), node_id, pos);
    }
}

/// Appending edges that all enter other nodes leaves a node's first inputs
/// as they were.
pub proof fn lemma_first_input_append_foreign(
    orig: Seq<Edge>,
    added: Seq<Edge>,
    node_id: usize,
    pos: usize,
)
    requires
        forall|j: int| 0 <= j < added.len() ==> (#[trigger] added[j]).port_in.node != node_id,
    ensures
        first_input(orig + added, node_id, pos) == first_input(orig, node_id, pos),
    decreases orig.len(),
{
    if orig.len() == 0 {
        assert((orig + added) =~= added);
        lemma_first_input_none_no_match(added, node_id, pos);
    } else {
        assert((orig + added)[0] == orig[0]);
        if !(orig[0].port_in.node == node_id && orig[0].port_in.port == pos) {
            assert((orig + added).drop_first() =~= orig.drop_first() + added);
            lemma_first_input_append_foreign(orig.drop_first(), added, node_id, pos);
        }
    }
}

/// A found first input is a producer of that position, and a valid port in a
/// well-formed graph.
pub proof fn lemma_first_input_is_input(edges: Seq<Edge>, node_id: usize, pos: usize)
    ensures
        match first_input(edges, node_id, pos) {
            Some(p) => is_input_of(edges, node_id, pos as int, p) && exists|j: int|
                0 <= j < edges.len() && (#[trigger] edges[j]).port_out == p,
            None => true,
        },
    decreases edges.len(),
{
    if edges.len() > 0 {
        if !(edges[0].port_in.node == node_id && edges[0].port_in.port == pos) {
            lemma_first_input_is_input(edges.drop_first(), node_id, pos);
            if first_input(edges, node_id, pos) is Some {
                let p = first_input(edges, node_id, pos)->Some_0;
                let j = choose|j: int|
                    0 <= j < edges.drop_first().len() && (#[trigger] edges.drop_first()[j]).port_in.node
                        == node_id && edges.drop_first()[j].port_in.port == pos
                        && edges.drop_first()[j].port_out == p;
                assert(edges[j + 1] == edges.drop_first()[j]);
                let k = choose|k: int|
                    0 <= k < edges.drop_first().len() && (#[trigger] edges.drop_first()[k]).port_out
                        == p;
                assert(edges[k + 1] == edges.drop_first()[k]);
            }
        }
    }
}

/// A cursor over the edges entering one node, in adjacency order. It survives
/// mutation of the edge list: an edge removed ahead is skipped, one inserted
/// behind is visited.
#[derive(Clone, Copy, PartialEq, Eq, Structural, Debug)]
pub struct IncomingEdges {
    pub node: usize,
    pub pos: usize,
}

impl IncomingEdges {
    /// The next edge into the node at or after the cursor, if any: the first
    /// match is yielded, none is skipped, and `None` means none remains.
    pub fn next_<N>(&mut self, graph: &Graph<N>) -> (r: Option<usize>)
        ensures
            match r {
                Some(edge_id) => old(self).pos <= edge_id < graph.edges.len()
                    && graph.edges@[edge_id as int].port_in.node == old(self).node
                    && (forall|j: int|
                    old(self).pos <= j < edge_id ==> (#[trigger] graph.edges@[j]).port_in.node
                        != old(self).node) && final(self).node == old(self).node
                    && final(self).pos == edge_id + 1,
                None => *final(self) == *old(self) && (forall|j: int|
                    old(self).pos <= j < graph.edges.len() ==> (
                    #[trigger] graph.edges@[j]).port_in.node != old(self).node),
            },
    {
        let mut i = self.pos;
        while i < graph.edges.len()
            invariant
                self == old(self),
                old(self).pos <= i,
                forall|j: int|
                    old(self).pos <= j < i ==> (#[trigger] graph.edges@[j]).port_in.node != old(
                        self,
                    ).node,
            decreases graph.edges.len() - i,
        {
            if graph.edges[i].port_in.node == self.node {
                self.pos = i + 1;
                return Some(i);
            }
            i = i + 1;
        }
        None
    }
}

/// A cursor over the consumers of one output port, in adjacency order.
#[derive(Clone, Copy, PartialEq, Eq, Structural, Debug)]
pub struct OutgoingEdges {
    pub port: Port,
    pub pos: usize,
}

impl OutgoingEdges {
    /// The next edge leaving the port at or after the cursor, if any: the
    /// first match is yielded, none is skipped, and `None` means none
    /// remains.
    pub fn next_<N>(&mut self, graph: &Graph<N>) -> (r: Option<usize>)
        ensures
            match r {
                Some(edge_id) => old(self).pos <= edge_id < graph.edges.len()
                    && graph.edges@[edge_id as int].port_out == old(self).port
                    && (forall|j: int|
                    old(self).pos <= j < edge_id ==> (#[trigger] graph.edges@[j]).port_out
                        != old(self).port) && final(self).port == old(self).port
                    && final(self).pos == edge_id + 1,
                None => *final(self) == *old(self) && (forall|j: int|
                    old(self).pos <= j < graph.edges.len() ==> (#[trigger] graph.edges@[j]).port_out
                        != old(self).port),
            },
    {
        let mut i = self.pos;
        while i < graph.edges.len()
            invariant
                self == old(self),
                old(self).pos <= i,
                forall|j: int|
                    old(self).pos <= j < i ==> (#[trigger] graph.edges@[j]).port_out != old(
                        self,
                    ).port,
            decreases graph.edges.len() - i,
        {
            let e = graph.edges[i];
            if e.port_out.node == self.port.node && e.port_out.port == self.port.port {
                self.pos = i + 1;
                return Some(i);
            }
            i = i + 1;
        }
        None
    }
}

} // verus!
