//! The netlist container: all modules, the designated top module, and the
//! global optimizer configuration.
//!
//! A module is referenced elsewhere only as an index into this container;
//! the container is the sole owner.

use vstd::prelude::*;
use crate::graph::{Edge, Port};
use crate::module::{redirect_port, redirect_edges_spec, Module};
use crate::node::{clone_sym, node_equiv, Node, NodeKind, NodeOutput, PassNode};

verus! {

/// The caller-side inlining policy.
#[derive(Clone, Copy, PartialEq, Eq, Structural, Debug)]
pub enum InlineMod {
    /// Inline every instantiation.
    All,
    /// Inline by heuristics: hint-marked targets, port-less callers, small
    /// targets, or constant-fed instantiations.
    Auto,
    /// Never inline.
    Never,
}

/// Global configuration: inlining policy and budget, and whether local
/// constant de-duplication is disabled.
#[derive(Clone, Copy, PartialEq, Eq, Structural, Debug)]
pub struct NetListCfg {
    pub inline_mod: InlineMod,
    /// A bounded count of inlines per pipeline run; `None` is unbounded.
    pub max_inlines: Option<usize>,
    pub no_eliminate_const: bool,
}

impl NetListCfg {
    /// The default configuration: automatic inlining, no budget, constant
    /// de-duplication enabled.
    pub fn new() -> (r: Self)
        ensures
            r.inline_mod == InlineMod::Auto,
            r.max_inlines is None,
            !r.no_eliminate_const,
    {
        NetListCfg { inline_mod: InlineMod::Auto, max_inlines: None, no_eliminate_const: false }
    }
}

/// The container of all modules plus the designated top module.
#[derive(Clone, PartialEq, Eq, Debug)]
pub struct NetList {
    pub top: Option<usize>,
    pub modules: Vec<Module>,
    pub cfg: NetListCfg,
}

impl NetList {
    /// Well-formed: the top module exists, every module is well-formed, and
    /// every instantiation targets an existing module.
    pub open spec fn wf(self) -> bool {
        &&& (self.top matches Some(t) ==> t < self.modules.len())
        &&& forall|m: int| 0 <= m < self.modules.len() ==> (#[trigger] self.modules[m]).wf()
        &&& forall|m: int, n: int|
            0 <= m < self.modules.len() && 0 <= n < (#[trigger] self.modules[m]).graph.nodes.len()
                ==> ((#[trigger] self.modules[m].graph.nodes[n]).kind matches NodeKind::ModInst(mi)
                ==> mi.mod_id < self.modules.len())
    }

    pub fn new(cfg: NetListCfg) -> (r: Self)
        ensures
            r.top is None,
            r.modules.len() == 0,
            r.cfg == cfg,
            r.wf(),
    {
        NetList { top: None, modules: Vec::new(), cfg }
    }

    pub fn cfg(&self) -> (r: &NetListCfg)
        ensures
            *r == self.cfg,
    {
        &self.cfg
    }

    /// Adds a module; a module flagged `is_top` becomes the designated top.
    pub fn add_module(&mut self, module: Module) -> (r: usize)
        requires
            old(self).wf(),
            module.wf(),
            forall|n: int|
                0 <= n < module.graph.nodes.len() ==> ((#[trigger] module.graph.nodes[n]).kind
                    matches NodeKind::ModInst(mi) ==> mi.mod_id <= old(self).modules.len()),
        ensures
            final(self).wf(),
            r == old(self).modules.len(),
            final(self).modules@ == old(self).modules@.push(module),
            final(self).cfg == old(self).cfg,
            final(self).top == if module.is_top {
                Some(r)
            } else {
                old(self).top
            },
    {
        let id = self.modules.len();
        if module.is_top {
            self.top = Some(id);
        }
        self.modules.push(module);
        id
    }

    pub fn module_count(&self) -> (r: usize)
        ensures
            r == self.modules.len(),
    {
        self.modules.len()
    }

    /// The ids of all modules, in insertion order.
    pub fn module_ids(&self) -> (r: Vec<usize>)
        ensures
            r.len() == self.modules.len(),
            forall|i: int| 0 <= i < r.len() ==> r@[i] == i,
    {
        let mut ids: Vec<usize> = Vec::new();
        let mut i: usize = 0;
        while i < self.modules.len()
            invariant
                i <= self.modules.len(),
                ids.len() == i,
                forall|j: int| 0 <= j < i ==> ids@[j] == j,
            decreases self.modules.len() - i,
        {
            ids.push(i);
            i = i + 1;
        }
        ids
    }

    pub fn module(&self, module_id: usize) -> (r: &Module)
        requires
            module_id < self.modules.len(),
        ensures
            *r == self.modules[module_id as int],
    {
        &self.modules[module_id]
    }

    pub fn modules(&self) -> (r: &Vec<Module>)
        ensures
            *r == self.modules,
    {
        &self.modules
    }

    /// An instantiation the splice succeeds on: a `ModInst` of another
    /// existing module, every callee input position fed from the caller,
    /// every callee input node declared as a module input, and no callee
    /// edge entering an input node.
    pub open spec fn inlinable(self, target: usize, node_id: usize) -> bool {
        let caller = self.modules[target as int];
        &&& node_id < caller.graph.nodes.len()
        &&& (match caller.graph.nodes[node_id as int].kind {
            NodeKind::ModInst(mi) => mi.mod_id != target && mi.mod_id < self.modules.len() && {
                let callee = self.modules[mi.mod_id as int];
                &&& (forall|k: int|
                    0 <= k < callee.mod_inputs.len() ==> (#[trigger] crate::graph::first_input(
                        caller.graph.edges@,
                        node_id,
                        k as usize,
                    )) is Some)
                &&& (forall|n: int|
                    0 <= n < callee.graph.nodes.len() && (#[trigger] callee.graph.nodes[n]).kind
                        is Input ==> exists|k: int|
                        0 <= k < callee.mod_inputs.len() && (#[trigger] callee.mod_inputs[k]).node as int
                            == n)
                &&& (forall|i: int|
                    0 <= i < callee.graph.edges.len() ==> !(callee.graph.nodes[(
                    #[trigger] callee.graph.edges[i]).port_in.node as int].kind is Input))
            },
            _ => false,
        })
    }

    /// Splices the callee of the instantiation `node_id` (inside module
    /// `target`) into that module: callee nodes are appended in order, the
    /// disconnected instantiation stays behind as a dead husk (node ids are
    /// never reused, so nothing moves; the husk still counts toward the
    /// caller's node total), the
    /// callee's inputs are remapped to the edges that fed the instantiation,
    /// its declared outputs to fresh identity nodes that take over the
    /// instantiation's consumers, and the instantiation is disconnected.
    /// Returns the id of the first spliced node, or `None` without any
    /// change — in particular when the instantiation targets its own
    /// containing module (self-recursion guard).
    pub fn inline_mod(&mut self, target: usize, node_id: usize) -> (r: Option<usize>)
        requires
            old(self).wf(),
            target < old(self).modules.len(),
        ensures
            final(self).wf(),
            final(self).modules.len() == old(self).modules.len(),
            final(self).cfg == old(self).cfg,
            final(self).top == old(self).top,
            forall|m: int|
                0 <= m < old(self).modules.len() && m != target ==> final(self).modules@[m] == old(
                    self,
                ).modules@[m],
            r is None ==> *final(self) == *old(self),
            node_id < old(self).modules[target as int].graph.nodes.len()
                ==> (match old(self).modules[target as int].graph.nodes[node_id as int].kind {
                NodeKind::ModInst(mi) => mi.mod_id == target ==> r is None,
                _ => r is None,
            }),
            old(self).inlinable(target, node_id) ==> r is Some,
            r matches Some(first) ==> {
                &&& first == old(self).modules[target as int].graph.nodes.len()
                &&& final(self).modules[target as int].graph.nodes.len() >= old(
                    self,
                ).modules[target as int].graph.nodes.len()
                &&& final(self).modules[target as int].mod_inputs == old(
                    self,
                ).modules[target as int].mod_inputs
                &&& final(self).modules[target as int].same_meta(old(self).modules[target as int])
                &&& (forall|n: int|
                    0 <= n < old(self).modules[target as int].graph.nodes.len()
                        ==> final(self).modules[target as int].graph.nodes@[n]
                        == old(self).modules[target as int].graph.nodes@[n])
                &&& (forall|i: int|
                    0 <= i < final(self).modules[target as int].graph.edges.len() ==> (
                    #[trigger] final(self).modules[target as int].graph.edges@[i]).port_in.node
                        != node_id)
            },
            forall|q: Port|
                old(self).modules[target as int].port_valid(q) ==> final(self).modules[target as int].port_valid(
                    q,
                ),
    {
        // Validation phase: read everything, mutate nothing.
        let mid = {
            let caller = &self.modules[target];
            if node_id >= caller.graph.nodes.len() {
                return None;
            }
            match caller.node(node_id).mod_inst_target() {
                Some(mid) => mid,
                None => {
                    return None;
                },
            }
        };
        if mid == target || mid >= self.modules.len() {
            return None;
        }
        // Snapshot the callee.
        let ghost callee0 = self.modules@[mid as int];
        let (callee_nodes, callee_edges, callee_inputs, callee_outputs) = {
            let callee = &self.modules[mid];
            let mut nodes: Vec<Node> = Vec::new();
            let mut i: usize = 0;
            while i < callee.graph.nodes.len()
                invariant
                    i <= callee.graph.nodes.len(),
                    nodes.len() == i,
                    callee == &self.modules@[mid as int],
                    forall|j: int|
                        0 <= j < i ==> node_equiv(#[trigger] nodes@[j], callee.graph.nodes@[j]),
                decreases callee.graph.nodes.len() - i,
            {
                nodes.push(callee.graph.nodes[i].duplicate());
                i = i + 1;
            }
            let mut edges: Vec<Edge> = Vec::new();
            let mut i2: usize = 0;
            while i2 < callee.graph.edges.len()
                invariant
                    i2 <= callee.graph.edges.len(),
                    edges.len() == i2,
                    callee == &self.modules@[mid as int],
                    forall|j: int| 0 <= j < i2 ==> edges@[j] == callee.graph.edges@[j],
                decreases callee.graph.edges.len() - i2,
            {
                edges.push(callee.graph.edges[i2]);
                i2 = i2 + 1;
            }
            let mut ins: Vec<Port> = Vec::new();
            let mut i3: usize = 0;
            while i3 < callee.mod_inputs.len()
                invariant
                    i3 <= callee.mod_inputs.len(),
                    ins.len() == i3,
                    callee == &self.modules@[mid as int],
                    forall|j: int| 0 <= j < i3 ==> ins@[j] == callee.mod_inputs@[j],
                decreases callee.mod_inputs.len() - i3,
            {
                ins.push(callee.mod_inputs[i3]);
                i3 = i3 + 1;
            }
            let mut outs: Vec<Port> = Vec::new();
            let mut i4: usize = 0;
            while i4 < callee.mod_outputs.len()
                invariant
                    i4 <= callee.mod_outputs.len(),
                    outs.len() == i4,
                    callee == &self.modules@[mid as int],
                    forall|j: int| 0 <= j < i4 ==> outs@[j] == callee.mod_outputs@[j],
                decreases callee.mod_outputs.len() - i4,
            {
                outs.push(callee.mod_outputs[i4]);
                i4 = i4 + 1;
            }
            (nodes, edges, ins, outs)
        };
        // Facts carried out of the snapshot: the copies mirror a well-formed
        // callee.
        proof {
            assert(callee0.wf());
            assert(forall|j: int|
                0 <= j < callee_nodes.len() ==> node_equiv(
                    #[trigger] callee_nodes@[j],
                    callee0.graph.nodes@[j],
                ));
            assert(forall|k: int|
                0 <= k < callee_outputs.len() ==> callee0.port_valid(
                    #[trigger] callee_outputs@[k],
                ));
            assert(forall|k: int|
                0 <= k < callee_outputs.len() ==> (#[trigger] callee_outputs@[k]).node
                    < callee_nodes.len() && callee_outputs@[k].port < callee_nodes@[callee_outputs@[k].node as int].outputs.len());
            assert(forall|n: int|
                0 <= n < callee_nodes.len() ==> ((#[trigger] callee_nodes@[n]).kind matches
                    NodeKind::ModInst(mi) ==> mi.mod_id < old(self).modules.len()));
        }
        // The caller-side ports that fed the instantiation, one per callee
        // input.
        let feeds = {
            let caller = &self.modules[target];
            match caller.graph.inputs_of(node_id, callee_inputs.len()) {
                Some(feeds) => feeds,
                None => {
                    return None;
                },
            }
        };
        proof {
            assert(forall|k: int|
                0 <= k < feeds.len() ==> self.modules[target as int].port_valid(
                    #[trigger] feeds@[k],
                )) by {
                assert(forall|k: int|
                    0 <= k < feeds.len() ==> crate::graph::is_input_of(
                        self.modules[target as int].graph.edges@,
                        node_id,
                        k,
                        (#[trigger] feeds@[k]),
                    ));
            }
        }
        // Which caller port replaces each callee input node.
        let mut input_feed: Vec<Option<Port>> = Vec::new();
        let mut j: usize = 0;
        while j < callee_nodes.len()
            invariant
                *self == *old(self),
                old(self).wf(),
                j <= callee_nodes.len(),
                input_feed.len() == j,
                forall|q: int| 0 <= q < j ==> (#[trigger] input_feed@[q]) is None,
            decreases callee_nodes.len() - j,
        {
            input_feed.push(None);
            j = j + 1;
        }
        let mut k: usize = 0;
        while k < callee_inputs.len()
            invariant
                *self == *old(self),
                old(self).wf(),
                k <= callee_inputs.len(),
                callee_inputs.len() == feeds.len(),
                input_feed.len() == callee_nodes.len(),
                target < self.modules.len(),
                mid < old(self).modules.len(),
                mid != target,
                node_id < old(self).modules[target as int].graph.nodes.len(),
                old(self).modules[target as int].graph.nodes[node_id as int].kind matches
                    NodeKind::ModInst(mi) && mi.mod_id == mid,
                callee_nodes.len() == old(self).modules[mid as int].graph.nodes.len(),
                forall|n: int|
                    0 <= n < callee_nodes.len() ==> node_equiv(
                        #[trigger] callee_nodes@[n],
                        old(self).modules[mid as int].graph.nodes@[n],
                    ),
                callee_inputs.len() == old(self).modules[mid as int].mod_inputs.len(),
                forall|q: int|
                    0 <= q < callee_inputs.len() ==> #[trigger] callee_inputs@[q] == old(
                        self,
                    ).modules[mid as int].mod_inputs@[q],
                callee_edges.len() == old(self).modules[mid as int].graph.edges.len(),
                forall|q: int|
                    0 <= q < callee_edges.len() ==> #[trigger] callee_edges@[q] == old(
                        self,
                    ).modules[mid as int].graph.edges@[q],
                forall|q: int|
                    0 <= q < input_feed.len() ==> ((#[trigger] input_feed@[q]) matches Some(p)
                        ==> self.modules[target as int].port_valid(p)),
                forall|q: int|
                    0 <= q < feeds.len() ==> self.modules[target as int].port_valid(
                        #[trigger] feeds@[q],
                    ),
                forall|j: int|
                    (exists|kk: int|
                        0 <= kk < k && (#[trigger] callee_inputs@[kk]).node as int == j) ==> 0 <= j
                        < input_feed.len() && (#[trigger] input_feed@[j]) is Some,
            decreases callee_inputs.len() - k,
        {
            let ip = callee_inputs[k];
            if ip.node >= input_feed.len() {
                proof {
                    assert(old(self).modules[mid as int].port_valid(
                        old(self).modules[mid as int].mod_inputs@[k as int],
                    ));
                    assert(false);
                }
                return None;
            }
            let f = feeds[k];
            input_feed.set(ip.node, Some(f));
            k = k + 1;
            proof {
                assert forall|j: int|
                    (exists|kk: int|
                        0 <= kk < k && (#[trigger] callee_inputs@[kk]).node as int == j) implies 0
                    <= j < input_feed.len() && (#[trigger] input_feed@[j]) is Some by {
                    let kk = choose|kk: int|
                        0 <= kk < k && (#[trigger] callee_inputs@[kk]).node as int == j;
                    if kk == k - 1 {
                        assert(input_feed@[j] is Some);
                    }
                }
            }
        }
        // Validate: every callee input node has a feed, and every callee edge
        // runs between copied nodes without entering an input node.
        let mut j2: usize = 0;
        while j2 < callee_nodes.len()
            invariant
                *self == *old(self),
                old(self).wf(),
                j2 <= callee_nodes.len(),
                input_feed.len() == callee_nodes.len(),
                mid < old(self).modules.len(),
                mid != target,
                node_id < old(self).modules[target as int].graph.nodes.len(),
                old(self).modules[target as int].graph.nodes[node_id as int].kind matches
                    NodeKind::ModInst(mi) && mi.mod_id == mid,
                callee_nodes.len() == old(self).modules[mid as int].graph.nodes.len(),
                forall|n: int|
                    0 <= n < callee_nodes.len() ==> node_equiv(
                        #[trigger] callee_nodes@[n],
                        old(self).modules[mid as int].graph.nodes@[n],
                    ),
                callee_inputs.len() == old(self).modules[mid as int].mod_inputs.len(),
                forall|q: int|
                    0 <= q < callee_inputs.len() ==> #[trigger] callee_inputs@[q] == old(
                        self,
                    ).modules[mid as int].mod_inputs@[q],
                callee_edges.len() == old(self).modules[mid as int].graph.edges.len(),
                forall|q: int|
                    0 <= q < callee_edges.len() ==> #[trigger] callee_edges@[q] == old(
                        self,
                    ).modules[mid as int].graph.edges@[q],
                forall|j: int|
                    (exists|kk: int|
                        0 <= kk < callee_inputs.len() && (#[trigger] callee_inputs@[kk]).node as int
                            == j) ==> 0 <= j < input_feed.len() && (
                    #[trigger] input_feed@[j]) is Some,
                forall|q: int|
                    0 <= q < j2 ==> ((#[trigger] callee_nodes@[q]).kind is Input
                        ==> input_feed@[q] is Some),
            decreases callee_nodes.len() - j2,
        {
            let is_input = match &callee_nodes[j2].kind {
                NodeKind::Input(_) => true,
                _ => false,
            };
            if is_input && input_feed[j2].is_none() {
                proof {
                    if old(self).inlinable(target, node_id) {
                        assert(old(self).modules[mid as int].graph.nodes@[j2 as int].kind
                            is Input);
                        let kk = choose|kk: int|
                            0 <= kk < old(self).modules[mid as int].mod_inputs.len() && (
                            #[trigger] old(self).modules[mid as int].mod_inputs[kk]).node as int
                                == j2 as int;
                        assert(callee_inputs@[kk].node as int == j2 as int);
                        assert(false);
                    }
                }
                return None;
            }
            j2 = j2 + 1;
        }
        let mut e: usize = 0;
        while e < callee_edges.len()
            invariant
                *self == *old(self),
                old(self).wf(),
                e <= callee_edges.len(),
                input_feed.len() == callee_nodes.len(),
                mid < old(self).modules.len(),
                mid != target,
                node_id < old(self).modules[target as int].graph.nodes.len(),
                old(self).modules[target as int].graph.nodes[node_id as int].kind matches
                    NodeKind::ModInst(mi) && mi.mod_id == mid,
                callee_nodes.len() == old(self).modules[mid as int].graph.nodes.len(),
                forall|n: int|
                    0 <= n < callee_nodes.len() ==> node_equiv(
                        #[trigger] callee_nodes@[n],
                        old(self).modules[mid as int].graph.nodes@[n],
                    ),
                callee_inputs.len() == old(self).modules[mid as int].mod_inputs.len(),
                forall|q: int|
                    0 <= q < callee_inputs.len() ==> #[trigger] callee_inputs@[q] == old(
                        self,
                    ).modules[mid as int].mod_inputs@[q],
                callee_edges.len() == old(self).modules[mid as int].graph.edges.len(),
                forall|q: int|
                    0 <= q < callee_edges.len() ==> #[trigger] callee_edges@[q] == old(
                        self,
                    ).modules[mid as int].graph.edges@[q],
                forall|q: int|
                    0 <= q < e ==> (#[trigger] callee_edges@[q]).port_out.node
                        < callee_nodes.len() && callee_edges@[q].port_in.node < callee_nodes.len()
                        && !(callee_nodes@[callee_edges@[q].port_in.node as int].kind is Input)
                        && (callee_nodes@[callee_edges@[q].port_out.node as int].kind is Input
                        || callee_edges@[q].port_out.port
                        < callee_nodes@[callee_edges@[q].port_out.node as int].outputs.len()),
            decreases callee_edges.len() - e,
        {
            let edge = callee_edges[e];
            proof {
                assert(old(self).modules[mid as int].port_valid(
                    old(self).modules[mid as int].graph.edges@[e as int].port_out,
                ));
            }
            if edge.port_out.node >= callee_nodes.len() || edge.port_in.node >= callee_nodes.len() {
                return None;
            }
            let into_input = match &callee_nodes[edge.port_in.node].kind {
                NodeKind::Input(_) => true,
                _ => false,
            };
            if into_input {
                proof {
                    if old(self).inlinable(target, node_id) {
                        assert(old(self).modules[mid as int].graph.nodes@[edge.port_in.node as int].kind
                            is Input);
                        assert(false);
                    }
                }
                return None;
            }
            let from_input = match &callee_nodes[edge.port_out.node].kind {
                NodeKind::Input(_) => true,
                _ => false,
            };
            if !from_input && edge.port_out.port >= callee_nodes[edge.port_out.node].outputs.len() {
                proof {
                    assert(false);
                }
                return None;
            }
            e = e + 1;
        }
        // Commit phase (infallible): splice.
        let first_new = self.modules[target].graph.nodes.len();
        let ghost pre = *self;
        let caller = &mut self.modules[target];
        // Copy every non-input callee node, recording its new id.
        let mut new_ids: Vec<Option<usize>> = Vec::new();
        let mut j3: usize = 0;
        while j3 < callee_nodes.len()
            invariant
                j3 <= callee_nodes.len(),
                new_ids.len() == j3,
                caller.wf(),
                caller.same_meta(pre.modules[target as int]),
                caller.same_ports(pre.modules[target as int]),
                caller.graph.nodes.len() >= pre.modules[target as int].graph.nodes.len(),
                forall|n: int|
                    0 <= n < pre.modules[target as int].graph.nodes.len()
                        ==> caller.graph.nodes@[n] == pre.modules[target as int].graph.nodes@[n],
                caller.graph.edges@ == pre.modules[target as int].graph.edges@,
                input_feed.len() == callee_nodes.len(),
                forall|q: int|
                    0 <= q < new_ids.len() ==> ((#[trigger] new_ids@[q]) is Some <==> !(
                    callee_nodes@[q].kind is Input)),
                forall|q: int|
                    0 <= q < new_ids.len() ==> ((#[trigger] new_ids@[q]) matches Some(nid) ==> nid
                        < caller.graph.nodes.len() && caller.graph.nodes[nid as int].outputs.len()
                        == callee_nodes@[q].outputs.len()),
                forall|q: int|
                    0 <= q < input_feed.len() ==> ((#[trigger] input_feed@[q]) matches Some(p)
                        ==> pre.modules[target as int].port_valid(p)),
                forall|q: Port| pre.modules[target as int].port_valid(q) ==> caller.port_valid(q),
                forall|q: int|
                    0 <= q < caller.graph.nodes.len() ==> ((
                    #[trigger] caller.graph.nodes[q]).kind matches NodeKind::ModInst(mi)
                        ==> mi.mod_id < pre.modules.len()),
                forall|n: int|
                    0 <= n < callee_nodes.len() ==> ((#[trigger] callee_nodes@[n]).kind matches
                        NodeKind::ModInst(mi) ==> mi.mod_id < pre.modules.len()),
            decreases callee_nodes.len() - j3,
        {
            let is_input = match &callee_nodes[j3].kind {
                NodeKind::Input(_) => true,
                _ => false,
            };
            let ghost cpre = *caller;
            if is_input {
                new_ids.push(None);
            } else {
                let nid = caller.graph.add_node(callee_nodes[j3].duplicate());
                new_ids.push(Some(nid));
            }
            j3 = j3 + 1;
            proof {
                assert forall|q: Port|
                    pre.modules[target as int].port_valid(q) implies caller.port_valid(q) by {
                    assert(cpre.port_valid(q));
                    assert(caller.graph.nodes@[q.node as int] == cpre.graph.nodes@[q.node as int]);
                }
            }
        }
        // Re-wire every callee edge inside the caller.
        let mut e2: usize = 0;
        while e2 < callee_edges.len()
            invariant
                e2 <= callee_edges.len(),
                new_ids.len() == callee_nodes.len(),
                input_feed.len() == callee_nodes.len(),
                caller.wf(),
                caller.same_meta(pre.modules[target as int]),
                caller.same_ports(pre.modules[target as int]),
                caller.graph.nodes.len() >= pre.modules[target as int].graph.nodes.len(),
                forall|n: int|
                    0 <= n < pre.modules[target as int].graph.nodes.len()
                        ==> caller.graph.nodes@[n] == pre.modules[target as int].graph.nodes@[n],
                forall|q: Port| pre.modules[target as int].port_valid(q) ==> caller.port_valid(q),
                forall|q: int|
                    0 <= q < callee_edges.len() ==> (#[trigger] callee_edges@[q]).port_out.node
                        < callee_nodes.len() && callee_edges@[q].port_in.node < callee_nodes.len()
                        && !(callee_nodes@[callee_edges@[q].port_in.node as int].kind is Input)
                        && (callee_nodes@[callee_edges@[q].port_out.node as int].kind is Input
                        || callee_edges@[q].port_out.port
                        < callee_nodes@[callee_edges@[q].port_out.node as int].outputs.len()),
                forall|q: int|
                    0 <= q < new_ids.len() ==> ((#[trigger] new_ids@[q]) is Some <==> !(
                    callee_nodes@[q].kind is Input)),
                forall|q: int|
                    0 <= q < new_ids.len() ==> ((#[trigger] new_ids@[q]) matches Some(nid) ==> nid
                        < caller.graph.nodes.len() && caller.graph.nodes[nid as int].outputs.len()
                        == callee_nodes@[q].outputs.len()),
                forall|q: int|
                    0 <= q < input_feed.len() ==> ((#[trigger] input_feed@[q]) matches Some(p)
                        ==> caller.port_valid(p)),
                forall|q: int|
                    0 <= q < caller.graph.nodes.len() ==> ((
                    #[trigger] caller.graph.nodes[q]).kind matches NodeKind::ModInst(mi)
                        ==> mi.mod_id < pre.modules.len()),
                forall|q: int|
                    0 <= q < input_feed.len() ==> ((#[trigger] callee_nodes@[q]).kind is Input
                        ==> input_feed@[q] is Some),
            decreases callee_edges.len() - e2,
        {
            let edge = callee_edges[e2];
            let src: Port = match new_ids[edge.port_out.node] {
                Some(nid) => Port { node: nid, port: edge.port_out.port },
                None => input_feed[edge.port_out.node].unwrap(),
            };
            let dn = new_ids[edge.port_in.node].unwrap();
            let ghost cpre2 = *caller;
            caller.graph.add_edge(src, Port { node: dn, port: edge.port_in.port });
            e2 = e2 + 1;
            proof {
                assert(caller.graph.nodes == cpre2.graph.nodes);
                assert forall|q: Port|
                    pre.modules[target as int].port_valid(q) implies caller.port_valid(q) by {
                    assert(cpre2.port_valid(q));
                }
            }
        }
        // Stand an identity node in for each declared callee output and move
        // the instantiation's consumers onto them.
        let m_outs = callee_outputs.len();
        let mut pass_ports: Vec<Port> = Vec::new();
        let mut k2: usize = 0;
        while k2 < m_outs
            invariant
                k2 <= m_outs,
                m_outs == callee_outputs.len(),
                pass_ports.len() == k2,
                new_ids.len() == callee_nodes.len(),
                input_feed.len() == callee_nodes.len(),
                node_id < pre.modules[target as int].graph.nodes.len(),
                caller.wf(),
                caller.same_meta(pre.modules[target as int]),
                caller.same_ports(pre.modules[target as int]),
                caller.graph.nodes.len() >= pre.modules[target as int].graph.nodes.len(),
                forall|n: int|
                    0 <= n < pre.modules[target as int].graph.nodes.len()
                        ==> caller.graph.nodes@[n] == pre.modules[target as int].graph.nodes@[n],
                forall|q: Port| pre.modules[target as int].port_valid(q) ==> caller.port_valid(q),
                forall|q: int|
                    0 <= q < pass_ports.len() ==> caller.port_valid(#[trigger] pass_ports@[q]),
                forall|q: int|
                    0 <= q < callee_outputs.len() ==> (#[trigger] callee_outputs@[q]).node
                        < callee_nodes.len() && callee_outputs@[q].port
                        < callee_nodes@[callee_outputs@[q].node as int].outputs.len(),
                forall|q: int|
                    0 <= q < new_ids.len() ==> ((#[trigger] new_ids@[q]) is Some <==> !(
                    callee_nodes@[q].kind is Input)),
                forall|q: int|
                    0 <= q < new_ids.len() ==> ((#[trigger] new_ids@[q]) matches Some(nid) ==> nid
                        < caller.graph.nodes.len() && caller.graph.nodes[nid as int].outputs.len()
                        == callee_nodes@[q].outputs.len()),
                forall|q: int|
                    0 <= q < input_feed.len() ==> ((#[trigger] input_feed@[q]) matches Some(p)
                        ==> caller.port_valid(p)),
                forall|q: int|
                    0 <= q < input_feed.len() ==> ((#[trigger] callee_nodes@[q]).kind is Input
                        ==> input_feed@[q] is Some),
                forall|q: int|
                    0 <= q < caller.graph.nodes.len() ==> ((
                    #[trigger] caller.graph.nodes[q]).kind matches NodeKind::ModInst(mi)
                        ==> mi.mod_id < pre.modules.len()),
            decreases m_outs - k2,
        {
            let op = callee_outputs[k2];
            let src: Port = match new_ids[op.node] {
                Some(nid) => Port { node: nid, port: op.port },
                None => input_feed[op.node].unwrap(),
            };
            let (ty, sym) = {
                let inst_node = &caller.graph.nodes[node_id];
                if k2 < inst_node.outputs.len() {
                    (inst_node.outputs[k2].ty, clone_sym(&inst_node.outputs[k2].sym))
                } else {
                    let so = &caller.graph.nodes[src.node].outputs[src.port];
                    (so.ty, clone_sym(&so.sym))
                }
            };
            let mut outputs: Vec<NodeOutput> = Vec::new();
            outputs.push(NodeOutput::wire(ty, sym));
            let ghost cpre = *caller;
            let pid = caller.graph.add_node(Node::new(NodeKind::Pass(PassNode {}), outputs));
            caller.graph.add_edge(src, Port { node: pid, port: 0 });
            pass_ports.push(Port { node: pid, port: 0 });
            k2 = k2 + 1;
            proof {
                assert forall|q: Port|
                    pre.modules[target as int].port_valid(q) implies caller.port_valid(q) by {
                    assert(cpre.port_valid(q));
                    assert(caller.graph.nodes@[q.node as int] == cpre.graph.nodes@[q.node as int]);
                }
            }
        }
        let ghost spliced = *self;
        self.modules[target].reconnect_all_outgoing(node_id, &pass_ports);
        let ghost mid_state = *self;
        self.modules[target].graph.remove_inc_edges(node_id);
        proof {
            assert forall|i: int|
                0 <= i < self.modules[target as int].graph.edges.len() implies (
            #[trigger] self.modules[target as int].graph.edges@[i]).port_in.node != node_id by {
                mid_state.modules[target as int].graph.edges@.lemma_filter_pred(
                    |ed: Edge| ed.port_in.node != node_id,
                    i,
                );
            }
            assert forall|q: Port|
                old(self).modules[target as int].port_valid(q) implies final(self).modules[target as int].port_valid(
                q,
            ) by {
                assert(spliced.modules[target as int].port_valid(q));
                assert(mid_state.modules[target as int].graph.nodes == spliced.modules[target as int].graph.nodes);
                assert(final(self).modules[target as int].graph.nodes == mid_state.modules[target as int].graph.nodes);
            }
            crate::graph::lemma_filter_is_subset(
                mid_state.modules[target as int].graph.edges@,
                |ed: Edge| ed.port_in.node != node_id,
            );
            assert(forall|i: int|
                0 <= i < final(self).modules[target as int].graph.edges.len()
                    ==> mid_state.modules[target as int].graph.edges@.contains(
                    #[trigger] final(self).modules[target as int].graph.edges@[i],
                ));
        }
        Some(first_new)
    }
}

} // verus!
