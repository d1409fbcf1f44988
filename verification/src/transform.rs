//! The Transform pass: per-node constant folding and cross-module inlining.
//!
//! Modules are visited in dependency order (callee before caller), nodes in
//! insertion order. Folds replace a node in place, so node ids stay stable
//! and the node list never shrinks; only inlining appends nodes. Values wider
//! than the 128-bit constant container are never folded (the container is a
//! documented ceiling, not a silent truncation).

use vstd::prelude::*;
use crate::const_val::{BinOp, ConstVal};
use crate::graph::{first_input, Port};
use crate::module::{redirect_edges_spec, redirect_port, Module};
use crate::netlist::{InlineMod, NetList, NetListCfg};
use crate::node::{clone_sym, Const, MultiConst, Node, NodeKind, NodeOutput};

verus! {

/// Instantiations with at most this many nodes are inlined under the
/// automatic policy.
pub const NODES_LIMIT_TO_INLINE: usize = 10;

/// The bounded count of inlines for one pipeline run.
pub struct MaxInlines {
    pub max: usize,
    pub current: usize,
}

impl MaxInlines {
    pub fn new(max: usize) -> (r: Self)
        ensures
            r.max == max,
            r.current == 0,
    {
        MaxInlines { max, current: 0 }
    }

    /// Whether the budget still allows an inline.
    pub fn should_inline(&self) -> (r: bool)
        ensures
            r == (self.current < self.max),
    {
        self.current < self.max
    }

    pub fn inc(&mut self)
        ensures
            final(self).max == old(self).max,
            final(self).current == if old(self).current == usize::MAX {
                old(self).current as int
            } else {
                old(self).current + 1
            },
    {
        if self.current < usize::MAX {
            self.current = self.current + 1;
        }
    }
}

/// One entry of the local constant value-numbering table: the first port of
/// this module seen carrying this masked value at this width.
#[derive(Clone, Copy, PartialEq, Eq, Structural, Debug)]
pub struct ConsEntry {
    pub mod_id: usize,
    pub val: u128,
    pub width: u128,
    pub port: Port,
}

/// A configuration under which no instantiation is ever spliced away: the
/// policy forbids it, or the budget is already exhausted at zero.
pub open spec fn no_inlining_cfg(cfg: NetListCfg) -> bool {
    cfg.inline_mod == InlineMod::Never || cfg.max_inlines == Some(0usize)
}

/// One pass over a module splices nothing: no `ModInst` node is newly
/// created or re-kinded into, each surviving instantiation is an original
/// one with its identity and its wired input positions intact, and any
/// appended nodes are the identity buffers of a cancellation (possibly
/// folded to constants afterwards).
pub open spec fn no_splice(a: Module, b: Module) -> bool {
    &&& b.graph.nodes.len() >= a.graph.nodes.len()
    &&& mod_insts_preserved(a, b)
    &&& (forall|n: usize, p: usize|
        #![trigger first_input(b.graph.edges@, n, p)]
        (n as int) < b.graph.nodes.len() && b.graph.nodes[n as int].kind is ModInst ==> (
        first_input(b.graph.edges@, n, p) is Some <==> first_input(a.graph.edges@, n, p) is Some))
    &&& (forall|n: int|
        a.graph.nodes.len() <= n < b.graph.nodes.len() ==> ((#[trigger] b.graph.nodes[n]).kind
            is Pass || b.graph.nodes[n].kind is Const))
    &&& (forall|n: int|
        0 <= n < a.graph.nodes.len() ==> {
            &&& ((#[trigger] a.graph.nodes[n]).kind is Pass ==> b.graph.nodes[n].kind is Pass
                || b.graph.nodes[n].kind is Const)
            &&& (a.graph.nodes[n].kind is Const ==> b.graph.nodes[n].kind is Const)
        })
}

/// `no_splice`, over every module of the netlist.
pub open spec fn netlist_no_splice(a: NetList, b: NetList) -> bool {
    b.modules.len() == a.modules.len() && forall|mm: int|
        0 <= mm < a.modules.len() ==> no_splice(#[trigger] a.modules[mm], b.modules[mm])
}

/// `no_splice` is reflexive.
pub proof fn lemma_no_splice_refl(a: Module)
    ensures
        no_splice(a, a),
{
}

/// Two splice-free steps chain into one.
pub proof fn lemma_no_splice_trans(a: Module, b: Module, c: Module)
    requires
        no_splice(a, b),
        no_splice(b, c),
    ensures
        no_splice(a, c),
{
    assert forall|n: usize, p: usize|
        (n as int) < c.graph.nodes.len() && c.graph.nodes[n as int].kind is ModInst implies ((
    #[trigger] first_input(c.graph.edges@, n, p)) is Some <==> first_input(
        a.graph.edges@,
        n,
        p,
    ) is Some) by {
        assert(first_input(c.graph.edges@, n, p) is Some <==> first_input(
            b.graph.edges@,
            n,
            p,
        ) is Some);
        assert((n as int) < b.graph.nodes.len() && b.graph.nodes[n as int].kind is ModInst);
        assert(first_input(b.graph.edges@, n, p) is Some <==> first_input(
            a.graph.edges@,
            n,
            p,
        ) is Some);
    }
    assert forall|n: int|
        a.graph.nodes.len() <= n < c.graph.nodes.len() implies ((#[trigger] c.graph.nodes[n]).kind
        is Pass || c.graph.nodes[n].kind is Const) by {
        if n < b.graph.nodes.len() {
            assert(b.graph.nodes[n].kind is Pass || b.graph.nodes[n].kind is Const);
        }
    }
}

/// A module without a single instantiation node.
pub open spec fn mod_inst_free(m: Module) -> bool {
    forall|n: int|
        0 <= n < m.graph.nodes.len() ==> !((#[trigger] m.graph.nodes[n]).kind is ModInst)
}

/// The whole pass over one module, as the chain of its per-node visits: one
/// snapshot before each visit and one after the last, node `i` visited at
/// step `i`, every step obeying the per-kind rewrite rules. The chain covers
/// the nodes a cancellation appends, which the cursor reaches in turn.
pub open spec fn visited_in_order(a: Module, b: Module, steps: Seq<Module>) -> bool {
    &&& steps.len() == b.graph.nodes.len() + 1
    &&& steps[0] == a
    &&& steps.last() == b
    &&& (forall|i: int|
        0 <= i < steps.len() - 1 ==> transform_rules_hold(
            #[trigger] steps[i],
            steps[i + 1],
            i as usize,
        ))
}

/// The first value-numbering entry of a module matching a value and width.
pub open spec fn cons_lookup(cons: Seq<ConsEntry>, mod_id: usize, val: u128, width: u128) -> Option<
    int,
>
    decreases cons.len(),
{
    if cons.len() == 0 {
        None
    } else if cons[0].mod_id == mod_id && cons[0].val == val && cons[0].width == width {
        Some(0)
    } else {
        match cons_lookup(cons.drop_first(), mod_id, val, width) {
            Some(i) => Some(i + 1),
            None => None,
        }
    }
}

/// The first matching entry is exactly the first index that matches.
proof fn lemma_cons_lookup_at(cons: Seq<ConsEntry>, mod_id: usize, val: u128, width: u128, i: int)
    requires
        0 <= i < cons.len(),
        forall|j: int|
            0 <= j < i ==> !((#[trigger] cons[j]).mod_id == mod_id && cons[j].val == val
                && cons[j].width == width),
        cons[i].mod_id == mod_id && cons[i].val == val && cons[i].width == width,
    ensures
        cons_lookup(cons, mod_id, val, width) == Some(i),
    decreases cons.len(),
{
    if i > 0 {
        assert(cons.drop_first()[i - 1] == cons[i]);
        assert(forall|j: int| 0 <= j < i - 1 ==> #[trigger] cons.drop_first()[j] == cons[j + 1]);
        lemma_cons_lookup_at(cons.drop_first(), mod_id, val, width, i - 1);
    }
}

/// With no matching entry, the lookup finds none.
proof fn lemma_cons_lookup_none(cons: Seq<ConsEntry>, mod_id: usize, val: u128, width: u128)
    requires
        forall|j: int|
            0 <= j < cons.len() ==> !((#[trigger] cons[j]).mod_id == mod_id && cons[j].val == val
                && cons[j].width == width),
    ensures
        cons_lookup(cons, mod_id, val, width) is None,
    decreases cons.len(),
{
    if cons.len() > 0 {
        assert(forall|j: int|
            0 <= j < cons.drop_first().len() ==> #[trigger] cons.drop_first()[j] == cons[j + 1]);
        lemma_cons_lookup_none(cons.drop_first(), mod_id, val, width);
    }
}

/// Re-sourcing every reader of one port onto another leaves each node's
/// wired input positions as they were.
pub proof fn lemma_someness_reconnect(a: Seq<crate::graph::Edge>, port: Port, q: Port)
    ensures
        forall|n: usize, p: usize|
            #![trigger first_input(crate::graph::reconnect_edges_spec(a, port, q), n, p)]
            (first_input(crate::graph::reconnect_edges_spec(a, port, q), n, p) is Some
                <==> first_input(a, n, p) is Some),
{
    let b = crate::graph::reconnect_edges_spec(a, port, q);
    let f = |pt: Port|
        if pt == port {
            q
        } else {
            pt
        };
    assert forall|n: usize, p: usize| (#[trigger] first_input(b, n, p)) is Some <==> first_input(
        a,
        n,
        p,
    ) is Some by {
        assert(forall|j: int|
            0 <= j < a.len() ==> #[trigger] b[j] == (crate::graph::Edge {
                port_out: f(a[j].port_out),
                port_in: a[j].port_in,
            }));
        crate::graph::lemma_first_input_resourced(a, b, f, n, p);
    }
}

/// Redirecting a node's consumers onto replacement ports leaves each node's
/// wired input positions as they were.
pub proof fn lemma_someness_redirect(a: Seq<crate::graph::Edge>, node_id: usize, ports: Seq<Port>)
    ensures
        forall|n: usize, p: usize|
            #![trigger first_input(crate::module::redirect_edges_spec(a, node_id, ports), n, p)]
            (first_input(crate::module::redirect_edges_spec(a, node_id, ports), n, p) is Some
                <==> first_input(a, n, p) is Some),
{
    let b = crate::module::redirect_edges_spec(a, node_id, ports);
    let f = |pt: Port| redirect_port(pt, node_id, ports);
    assert forall|n: usize, p: usize| (#[trigger] first_input(b, n, p)) is Some <==> first_input(
        a,
        n,
        p,
    ) is Some by {
        assert(forall|j: int|
            0 <= j < a.len() ==> #[trigger] b[j] == (crate::graph::Edge {
                port_out: f(a[j].port_out),
                port_in: a[j].port_in,
            }));
        crate::graph::lemma_first_input_resourced(a, b, f, n, p);
    }
}

/// Dropping the edges into one node leaves every other node's wired input
/// positions as they were.
pub proof fn lemma_someness_dropped(a: Seq<crate::graph::Edge>, node_id: usize)
    ensures
        forall|n: usize, p: usize|
            #![trigger first_input(spec_dropped_inputs(a, node_id), n, p)]
            n != node_id ==> (first_input(spec_dropped_inputs(a, node_id), n, p)
                == first_input(a, n, p)),
{
    let keep = |e: crate::graph::Edge| e.port_in.node != node_id;
    assert forall|n: usize, p: usize| n != node_id implies (#[trigger] first_input(
        spec_dropped_inputs(a, node_id),
        n,
        p,
    )) == first_input(a, n, p) by {
        crate::graph::lemma_first_input_filter_keeps(a, keep, n, p);
    }
}

/// Every table entry names an existing port of its module.
pub open spec fn cons_ok(cons: Seq<ConsEntry>, netlist: NetList) -> bool {
    forall|i: int|
        0 <= i < cons.len() ==> (#[trigger] cons[i]).mod_id < netlist.modules.len()
            && netlist.modules[cons[i].mod_id as int].port_valid(cons[i].port)
}

/// The constant feeding input position `pos` of a node, where one does.
pub open spec fn const_input_at(m: Module, node_id: usize, pos: usize) -> Option<ConstVal> {
    match first_input(m.graph.edges@, node_id, pos) {
        Some(p) => m.const_of(p),
        None => None,
    }
}

/// A single-output node of the matched kind whose sole input resolves to a
/// constant: the fold replaces it in place by that constant, keeping its
/// output type and symbol; every other node is untouched, its own input
/// edges are dropped, and its consumers read the constant (possibly
/// value-numbered onto an earlier equal one, `q`).
pub open spec fn folded_to_const(a: Module, b: Module, node_id: usize, value: u128) -> bool {
    &&& b.graph.nodes.len() == a.graph.nodes.len()
    &&& (forall|n: int|
        0 <= n < a.graph.nodes.len() && n != node_id ==> b.graph.nodes[n] == a.graph.nodes[n])
    &&& b.graph.nodes[node_id as int].kind == NodeKind::Const(Const { value })
    &&& b.graph.nodes[node_id as int].outputs.len() == 1
    &&& b.graph.nodes[node_id as int].outputs[0].ty == a.graph.nodes[node_id as int].outputs[0].ty
    &&& b.graph.nodes[node_id as int].outputs[0].sym == a.graph.nodes[node_id as int].outputs[0].sym
    &&& exists|q: Port|
        b.graph.edges@ == crate::graph::reconnect_edges_spec(
            #[trigger] spec_dropped_inputs(a.graph.edges@, node_id),
            Port { node: node_id, port: 0 },
            q,
        )
}

/// A node of the matched kind replaced in place by a multi-valued constant:
/// one value per output, output types and symbols kept, its own input edges
/// dropped, every other node untouched.
pub open spec fn folded_to_multi_const(a: Module, b: Module, node_id: usize, values: Seq<u128>) -> bool {
    &&& b.graph.nodes.len() == a.graph.nodes.len()
    &&& (forall|n: int|
        0 <= n < a.graph.nodes.len() && n != node_id ==> b.graph.nodes[n] == a.graph.nodes[n])
    &&& b.graph.nodes[node_id as int].kind matches NodeKind::MultiConst(mc) && mc.values@ == values
    &&& b.graph.nodes[node_id as int].outputs.len() == a.graph.nodes[node_id as int].outputs.len()
    &&& (forall|o: int|
        0 <= o < a.graph.nodes[node_id as int].outputs.len() ==> (
        #[trigger] b.graph.nodes[node_id as int].outputs[o]).ty
            == a.graph.nodes[node_id as int].outputs[o].ty
            && b.graph.nodes[node_id as int].outputs[o].sym
            == a.graph.nodes[node_id as int].outputs[o].sym)
    &&& (forall|n: usize, p: usize|
        #![trigger first_input(b.graph.edges@, n, p)]
        n != node_id ==> (first_input(b.graph.edges@, n, p) is Some <==> first_input(
            a.graph.edges@,
            n,
            p,
        ) is Some))
}

/// A splitter over a constant folds: its input resolves to a constant, its
/// ranges fit the input, and every range stays inside the 128-bit container.
pub open spec fn splitter_const_fold_applies(m: Module, node_id: usize) -> bool {
    &&& m.graph.nodes[node_id as int].kind matches NodeKind::Splitter(sp)
        && !crate::module::splitter_full_range(m, node_id) && (match first_input(
        m.graph.edges@,
        node_id,
        0,
    ) {
        Some(src) => m.const_of(src) is Some && {
            let w_in = m.port_width_spec(src) as int;
            let s0 = (match sp.start {
                Some(x) => x as int,
                None => 0int,
            });
            &&& crate::module::splitter_fits(m, node_id, w_in, s0)
            &&& splitter_ranges_small(m, node_id, w_in, s0, sp.rev)
        },
        None => false,
    })
}

/// Every splitter range starts inside the container and is at most 128 bits
/// wide.
pub open spec fn splitter_ranges_small(
    m: Module,
    node_id: usize,
    w_in: int,
    s0: int,
    rev: bool,
) -> bool {
    forall|k: int|
        0 <= k < m.graph.nodes[node_id as int].outputs.len() ==> 0
            <= #[trigger] crate::module::splitter_offset_spec(m, node_id, k, w_in, s0, rev) < 128
            && m.graph.nodes[node_id as int].outputs[k].ty.width_spec() <= 128
}

/// The constant slice a splitter output takes from its constant input.
pub open spec fn splitter_slice_value(m: Module, node_id: usize, k: int) -> u128
    recommends
        splitter_const_fold_applies(m, node_id),
{
    match m.graph.nodes[node_id as int].kind {
        NodeKind::Splitter(sp) => match first_input(m.graph.edges@, node_id, 0) {
            Some(src) => {
                let v = m.const_of(src)->Some_0;
                let w_in = m.port_width_spec(src) as int;
                let s0 = (match sp.start {
                    Some(x) => x as int,
                    None => 0int,
                });
                let off = crate::module::splitter_offset_spec(m, node_id, k, w_in, s0, sp.rev);
                ConstVal::mk(
                    v.val >> (off as u128),
                    m.graph.nodes[node_id as int].outputs[k].ty.width_spec(),
                ).val
            },
            None => 0,
        },
        _ => 0,
    }
}

/// The edges of `edges` that do not feed `node_id`.
pub open spec fn spec_dropped_inputs(edges: Seq<crate::graph::Edge>, node_id: usize) -> Seq<
    crate::graph::Edge,
> {
    edges.filter(|e: crate::graph::Edge| e.port_in.node != node_id)
}

/// A single-output node eliminated by reconnection: its consumers read its
/// input source directly, its own input edges are dropped, designated
/// outputs follow, and no node changes.
pub open spec fn eliminated_by_reconnect(a: Module, b: Module, node_id: usize, src: Port) -> bool {
    &&& b.graph.nodes == a.graph.nodes
    &&& b.graph.edges@ == spec_dropped_inputs(
        crate::module::redirect_edges_spec(a.graph.edges@, node_id, seq![src]),
        node_id,
    )
    &&& b.mod_outputs@ == a.mod_outputs@.map_values(
        |p: Port| redirect_port(p, node_id, seq![src]),
    )
}

/// The concatenation of all constant merger inputs, folded left to right
/// (first input topmost); `None` where an input is not constant or the
/// result would outgrow the 128-bit container.
pub open spec fn merger_fold(m: Module, node_id: usize, k: int) -> Option<ConstVal>
    decreases k,
{
    if k <= 0 {
        Some(ConstVal { val: 0, width: 0 })
    } else {
        match merger_fold(m, node_id, k - 1) {
            Some(acc) => match const_input_at(m, node_id, (k - 1) as usize) {
                Some(v) => if acc.width + v.width <= 128 {
                    Some(concat_cv(acc, v))
                } else {
                    None
                },
                None => None,
            },
            None => None,
        }
    }
}

/// Concatenation of two well-formed masked values whose widths fit the
/// container.
pub open spec fn concat_cv(a: ConstVal, b: ConstVal) -> ConstVal {
    ConstVal {
        val: (a.val * crate::const_val::width_bound(b.width) + b.val) as u128,
        width: (a.width + b.width) as u128,
    }
}

/// The first case of a switch that matches the selector constant, if any.
pub open spec fn first_matching_case(cases: Seq<crate::node::SwitchCase>, sel: ConstVal, k: int) -> Option<
    int,
>
    decreases k,
{
    if k <= 0 {
        None
    } else {
        match first_matching_case(cases, sel, k - 1) {
            Some(c) => Some(c),
            None => if cases[k - 1].matches_spec(sel) {
                Some(k - 1)
            } else {
                None
            },
        }
    }
}

/// The first matching case is exactly the first index that matches.
pub proof fn lemma_first_match_at(cases: Seq<crate::node::SwitchCase>, sel: ConstVal, c: int, n: int)
    requires
        0 <= c < n <= cases.len(),
        forall|j: int| 0 <= j < c ==> !(#[trigger] cases[j]).matches_spec(sel),
        cases[c].matches_spec(sel),
    ensures
        first_matching_case(cases, sel, n) == Some(c),
    decreases n,
{
    if n - 1 > c {
        lemma_first_match_at(cases, sel, c, n - 1);
    } else {
        if c > 0 {
            lemma_first_match_none(cases, sel, c);
        }
    }
}

/// With no match among the first `n` cases, there is no first match.
pub proof fn lemma_first_match_none(cases: Seq<crate::node::SwitchCase>, sel: ConstVal, n: int)
    requires
        forall|j: int| 0 <= j < n ==> !(#[trigger] cases[j]).matches_spec(sel),
    ensures
        first_matching_case(cases, sel, n) is None,
    decreases n,
{
    if n > 0 {
        lemma_first_match_none(cases, sel, n - 1);
    }
}

/// The producers wired into case `c` of a switch, one per output.
pub open spec fn case_ports(m: Module, node_id: usize, c: int) -> Seq<Option<Port>> {
    Seq::new(
        m.graph.nodes[node_id as int].outputs.len() as nat,
        |k: int| first_input(
            m.graph.edges@,
            node_id,
            (1 + c * m.graph.nodes[node_id as int].outputs.len() + k) as usize,
        ),
    )
}

/// The consumers of every output of `node_id` now read the corresponding
/// port of `ports`; designated outputs follow; nodes are untouched.
pub open spec fn reconnected_to(a: Module, b: Module, node_id: usize, ports: Seq<Port>) -> bool {
    &&& b.graph.nodes == a.graph.nodes
    &&& b.graph.edges@ == crate::module::redirect_edges_spec(a.graph.edges@, node_id, ports)
    &&& b.mod_outputs@ == a.mod_outputs@.map_values(|p: Port| redirect_port(p, node_id, ports))
}

/// A switch with several cases and a constant selector reconnects to the
/// first case whose value set matches the selector, where one does and all
/// of that case's value ports are wired.
pub open spec fn switch_const_sel_applies(m: Module, node_id: usize) -> bool {
    &&& m.graph.nodes[node_id as int].kind matches NodeKind::Switch(sw) && sw.cases.len() != 1
        && (match const_input_at(m, node_id, 0) {
        Some(sel) => (match first_matching_case(sw.cases@, sel, sw.cases.len() as int) {
            Some(c) => all_present(case_ports(m, node_id, c)) && 1 + c
                * m.graph.nodes[node_id as int].outputs.len()
                + m.graph.nodes[node_id as int].outputs.len() <= usize::MAX + 1,
            None => false,
        }),
        None => false,
    })
}

/// The matched case of a switch with a constant selector.
pub open spec fn switch_matched_case(m: Module, node_id: usize) -> int {
    match m.graph.nodes[node_id as int].kind {
        NodeKind::Switch(sw) => match const_input_at(m, node_id, 0) {
            Some(sel) => first_matching_case(sw.cases@, sel, sw.cases.len() as int)->Some_0,
            None => 0,
        },
        _ => 0,
    }
}

/// The producers wired into the single case of a switch, one per output.
pub open spec fn single_case_ports(m: Module, node_id: usize) -> Seq<Option<Port>> {
    Seq::new(
        m.graph.nodes[node_id as int].outputs.len() as nat,
        |k: int| first_input(m.graph.edges@, node_id, (1 + k) as usize),
    )
}

pub open spec fn all_present(ports: Seq<Option<Port>>) -> bool {
    forall|k: int| 0 <= k < ports.len() ==> (#[trigger] ports[k]) is Some
}

pub open spec fn unwrap_ports(ports: Seq<Option<Port>>) -> Seq<Port> {
    ports.map_values(|p: Option<Port>| p->Some_0)
}

/// A register whose reset input is wired to a constant asserted value, and
/// whose enable input (if any) is not a constant positive value: the Transform
/// pass reconnects its consumers directly to its initial value.
pub open spec fn dff_reset_collapse_applies(m: Module, node_id: usize) -> bool {
    &&& m.graph.nodes[node_id as int].kind matches NodeKind::DFF(d)
    &&& d.has_data
    &&& d.has_rst
    &&& first_input(m.graph.edges@, node_id, 0) is Some
    &&& first_input(m.graph.edges@, node_id, d.init_pos_spec()) is Some
    &&& first_input(m.graph.edges@, node_id, d.data_pos_spec()) is Some
    &&& (d.has_en ==> first_input(m.graph.edges@, node_id, d.en_pos_spec()) is Some)
    &&& match first_input(m.graph.edges@, node_id, d.rst_pos_spec()) {
        Some(rp) => m.const_of(rp) matches Some(v) && !d.rst_pol.is_inactive_spec(v.val),
        None => false,
    }
    &&& (d.has_en ==> !(match first_input(m.graph.edges@, node_id, d.en_pos_spec()) {
        Some(ep) => m.const_of(ep) matches Some(v) && v.val > 0,
        None => false,
    }))
}

/// A register whose enable input is wired to a constant zero (never
/// enabled), and whose reset (if any) is not a constant deasserted value:
/// the Transform pass reconnects its consumers directly to its initial
/// value.
pub open spec fn dff_dead_enable_applies(m: Module, node_id: usize) -> bool {
    &&& m.graph.nodes[node_id as int].kind matches NodeKind::DFF(d)
    &&& d.has_data
    &&& d.has_en
    &&& first_input(m.graph.edges@, node_id, 0) is Some
    &&& (d.has_rst ==> first_input(m.graph.edges@, node_id, d.rst_pos_spec()) is Some)
    &&& first_input(m.graph.edges@, node_id, d.init_pos_spec()) is Some
    &&& first_input(m.graph.edges@, node_id, d.data_pos_spec()) is Some
    &&& match first_input(m.graph.edges@, node_id, d.en_pos_spec()) {
        Some(ep) => m.const_of(ep) matches Some(v) && v.val == 0,
        None => false,
    }
    &&& (d.has_rst ==> !(match first_input(m.graph.edges@, node_id, d.rst_pos_spec()) {
        Some(rp) => m.const_of(rp) matches Some(v) && d.rst_pol.is_inactive_spec(v.val),
        None => false,
    }))
}

/// The initial-value port of a register.
/// A register whose reset or enable line has a constant feed: the trigger
/// for any register rewrite (an input prune or a collapse).
pub open spec fn dff_const_ctrl(m: Module, node_id: usize) -> bool {
    match m.graph.nodes[node_id as int].kind {
        NodeKind::DFF(d) => (d.has_rst && const_input_at(m, node_id, d.rst_pos_spec()) is Some)
            || (d.has_en && const_input_at(m, node_id, d.en_pos_spec()) is Some),
        _ => false,
    }
}

pub open spec fn dff_init_port(m: Module, node_id: usize) -> Port
    recommends
        m.graph.nodes[node_id as int].kind is DFF,
{
    match m.graph.nodes[node_id as int].kind {
        NodeKind::DFF(d) => first_input(m.graph.edges@, node_id, d.init_pos_spec())->Some_0,
        _ => Port { node: 0, port: 0 },
    }
}

/// The Transform pass state: the per-module constant table and the remaining
/// inlining budget.
pub struct Transform {
    pub cons: Vec<ConsEntry>,
    pub max_inlines: Option<MaxInlines>,
}

impl Transform {
    /// The budget mirrors the configuration it was built from.
    pub open spec fn budget_matches(self, cfg: NetListCfg) -> bool {
        match cfg.max_inlines {
            Some(mx) => self.max_inlines matches Some(b) && b.max == mx,
            None => self.max_inlines is None,
        }
    }

    pub fn new(cfg: &NetListCfg) -> (r: Self)
        ensures
            r.budget_matches(*cfg),
            r.cons.len() == 0,
    {
        let max_inlines = match cfg.max_inlines {
            Some(mx) => Some(MaxInlines::new(mx)),
            None => None,
        };
        Transform { cons: Vec::new(), max_inlines }
    }

    /// Whether the budget still allows an inline; with a zero budget this is
    /// never true.
    pub fn should_inline(&self) -> (r: bool)
        ensures
            r == match self.max_inlines {
                Some(b) => b.current < b.max,
                None => true,
            },
    {
        match &self.max_inlines {
            Some(b) => b.should_inline(),
            None => true,
        }
    }

    fn inc_inlines(&mut self)
        ensures
            final(self).cons == old(self).cons,
            old(self).max_inlines matches Some(b) ==> final(self).max_inlines matches Some(b2)
                && b2.max == b.max,
            old(self).max_inlines is None ==> final(self).max_inlines is None,
    {
        match &mut self.max_inlines {
            Some(b) => b.inc(),
            None => {},
        }
    }

    /// Local constant value-numbering: reconnects the consumers of `port` to
    /// an earlier equal-valued, equal-width constant of the same module, or
    /// records `port` as the first such constant. Never applied to a
    /// designated module output.
    fn eliminate_const(&mut self, m: &mut Module, mod_id: usize, val: ConstVal, port: Port)
        requires
            old(m).wf(),
            old(m).port_valid(port),
            forall|i: int|
                0 <= i < old(self).cons.len() && (#[trigger] old(self).cons@[i]).mod_id == mod_id
                    ==> old(m).port_valid(old(self).cons@[i].port),
        ensures
            final(m).wf(),
            final(m).graph.nodes == old(m).graph.nodes,
            final(m).mod_inputs == old(m).mod_inputs,
            final(m).same_meta(*old(m)),
            forall|i: int|
                0 <= i < final(self).cons.len() && (#[trigger] final(self).cons@[i]).mod_id
                    == mod_id ==> final(m).port_valid(final(self).cons@[i].port),
            forall|i: int|
                0 <= i < final(self).cons.len() && (#[trigger] final(self).cons@[i]).mod_id
                    != mod_id ==> old(self).cons@.contains(final(self).cons@[i]),
            final(self).max_inlines == old(self).max_inlines,
            final(m).mod_outputs@ == old(m).mod_outputs@,
            exists|q: Port|
                final(m).graph.edges@ == crate::graph::reconnect_edges_spec(
                    old(m).graph.edges@,
                    port,
                    q,
                ),
            old(m).mod_outputs@.contains(port) ==> *final(m) == *old(m) && *final(self) == *old(
                self,
            ),
            !old(m).mod_outputs@.contains(port) ==> (match cons_lookup(
                old(self).cons@,
                mod_id,
                val.val,
                val.width,
            ) {
                Some(i) => final(self).cons == old(self).cons && (if old(self).cons@[i].port
                    == port {
                    *final(m) == *old(m)
                } else {
                    final(m).graph.edges@ == crate::graph::reconnect_edges_spec(
                        old(m).graph.edges@,
                        port,
                        old(self).cons@[i].port,
                    )
                }),
                None => *final(m) == *old(m) && final(self).cons@ == old(self).cons@.push(
                    ConsEntry { mod_id, val: val.val, width: val.width, port },
                ),
            }),
    {
        proof {
            assert(old(m).graph.edges@ =~= crate::graph::reconnect_edges_spec(
                old(m).graph.edges@,
                port,
                port,
            ));
        }
        if m.is_mod_output(port) {
            return ;
        }
        let mut i: usize = 0;
        while i < self.cons.len()
            invariant
                i <= self.cons.len(),
                m.wf(),
                m.port_valid(port),
                *m == *old(m),
                !m.mod_outputs@.contains(port),
                self.cons == old(self).cons,
                forall|j: int|
                    0 <= j < i ==> !((#[trigger] old(self).cons@[j]).mod_id == mod_id
                        && old(self).cons@[j].val == val.val && old(self).cons@[j].width
                        == val.width),
                self.max_inlines == old(self).max_inlines,
                forall|j: int|
                    0 <= j < self.cons.len() && (#[trigger] self.cons@[j]).mod_id == mod_id
                        ==> m.port_valid(self.cons@[j].port),
            decreases self.cons.len() - i,
        {
            let e = self.cons[i];
            if e.mod_id == mod_id && e.val == val.val && e.width == val.width {
                proof {
                    lemma_cons_lookup_at(old(self).cons@, mod_id, val.val, val.width, i as int);
                }
                let prev = e.port;
                if !(prev.node == port.node && prev.port == port.port) {
                    let ghost pre = *m;
                    m.reconnect_port(port, prev);
                    proof {
                        assert(m.mod_outputs@ =~= pre.mod_outputs@) by {
                            assert(forall|k: int|
                                0 <= k < pre.mod_outputs.len() ==> pre.mod_outputs@[k] != port);
                        }
                    }
                } else {
                    proof {
                        assert(m.graph.edges@ =~= crate::graph::reconnect_edges_spec(
                            old(m).graph.edges@,
                            port,
                            port,
                        ));
                    }
                }
                return ;
            }
            i = i + 1;
        }
        proof {
            lemma_cons_lookup_none(old(self).cons@, mod_id, val.val, val.width);
        }
        self.cons.push(ConsEntry { mod_id, val: val.val, width: val.width, port });
    }

    /// Value-numbers every output of a multi-valued constant.
    fn eliminate_multi_const(&mut self, m: &mut Module, mod_id: usize, node_id: usize)
        requires
            old(m).wf(),
            node_id < old(m).graph.nodes.len(),
            forall|i: int|
                0 <= i < old(self).cons.len() && (#[trigger] old(self).cons@[i]).mod_id == mod_id
                    ==> old(m).port_valid(old(self).cons@[i].port),
        ensures
            final(m).wf(),
            final(m).graph.nodes == old(m).graph.nodes,
            final(m).mod_inputs == old(m).mod_inputs,
            final(m).same_meta(*old(m)),
            forall|i: int|
                0 <= i < final(self).cons.len() && (#[trigger] final(self).cons@[i]).mod_id
                    == mod_id ==> final(m).port_valid(final(self).cons@[i].port),
            forall|i: int|
                0 <= i < final(self).cons.len() && (#[trigger] final(self).cons@[i]).mod_id
                    != mod_id ==> old(self).cons@.contains(final(self).cons@[i]),
            final(self).max_inlines == old(self).max_inlines,
            forall|n: usize, p: usize|
                #![trigger first_input(final(m).graph.edges@, n, p)]
                (first_input(final(m).graph.edges@, n, p) is Some <==> first_input(
                    old(m).graph.edges@,
                    n,
                    p,
                ) is Some),
    {
        let out_count = m.graph.nodes[node_id].outputs.len();
        let mut idx: usize = 0;
        while idx < out_count
            invariant
                idx <= out_count,
                node_id < m.graph.nodes.len(),
                out_count == m.graph.nodes[node_id as int].outputs.len(),
                m.wf(),
                m.same_meta(*old(m)),
                m.mod_inputs == old(m).mod_inputs,
                m.graph.nodes == old(m).graph.nodes,
                forall|n: usize, p: usize|
                    #![trigger first_input(m.graph.edges@, n, p)]
                    (first_input(m.graph.edges@, n, p) is Some <==> first_input(
                        old(m).graph.edges@,
                        n,
                        p,
                    ) is Some),
                forall|j: int|
                    0 <= j < self.cons.len() && (#[trigger] self.cons@[j]).mod_id == mod_id
                        ==> m.port_valid(self.cons@[j].port),
                forall|j: int|
                    0 <= j < self.cons.len() && (#[trigger] self.cons@[j]).mod_id != mod_id
                        ==> old(self).cons@.contains(self.cons@[j]),
                self.max_inlines == old(self).max_inlines,
            decreases out_count - idx,
        {
            let port = Port { node: node_id, port: idx };
            let ghost pre = *m;
            match m.to_const(port) {
                Some(v) => {
                    self.eliminate_const(m, mod_id, v, port);
                    proof {
                        let q = choose|q: Port|
                            m.graph.edges@ == crate::graph::reconnect_edges_spec(
                                pre.graph.edges@,
                                port,
                                q,
                            );
                        lemma_someness_reconnect(pre.graph.edges@, port, q);
                    }
                },
                None => {},
            }
            idx = idx + 1;
        }
    }
}


/// The value-numbering table entries for one module stay valid across a
/// rewrite of that module.
pub open spec fn cons_valid_for(cons: Seq<ConsEntry>, mod_id: usize, m: Module) -> bool {
    forall|i: int|
        0 <= i < cons.len() && (#[trigger] cons[i]).mod_id == mod_id ==> m.port_valid(cons[i].port)
}

/// The entries for every other module are carried over unchanged.
pub open spec fn cons_others_from(cons: Seq<ConsEntry>, old_cons: Seq<ConsEntry>, mod_id: usize) -> bool {
    forall|i: int|
        0 <= i < cons.len() && (#[trigger] cons[i]).mod_id != mod_id ==> old_cons.contains(cons[i])
}

/// Instantiation nodes survive a rewrite untouched: whatever is a `ModInst`
/// afterwards was that same `ModInst` before.
pub open spec fn mod_insts_preserved(a: Module, b: Module) -> bool {
    forall|n: int|
        0 <= n < b.graph.nodes.len() && (#[trigger] b.graph.nodes[n]).kind is ModInst ==> n
            < a.graph.nodes.len() && a.graph.nodes[n].kind == b.graph.nodes[n].kind
}

impl Transform {
    /// Replaces a single-output node with a constant of that value and
    /// value-numbers it.
    fn replace_with_const(&mut self, m: &mut Module, mod_id: usize, node_id: usize, value: u128)
        requires
            old(m).wf(),
            node_id < old(m).graph.nodes.len(),
            old(m).graph.nodes[node_id as int].outputs.len() == 1,
            !(old(m).graph.nodes[node_id as int].kind is ModInst),
            !(old(m).graph.nodes[node_id as int].kind is MultiConst),
            cons_valid_for(old(self).cons@, mod_id, *old(m)),
        ensures
            insts_kept_or_folded(*old(m), *final(m)),
            final(m).wf(),
            final(m).graph.nodes.len() == old(m).graph.nodes.len(),
            final(m).mod_inputs == old(m).mod_inputs,
            final(m).same_meta(*old(m)),
            mod_insts_preserved(*old(m), *final(m)),
            insts_kept_or_folded(*old(m), *final(m)),
            cons_valid_for(final(self).cons@, mod_id, *final(m)),
            cons_others_from(final(self).cons@, old(self).cons@, mod_id),
            final(self).max_inlines == old(self).max_inlines,
            final(m).mod_outputs@ == old(m).mod_outputs@,
            folded_to_const(*old(m), *final(m), node_id, value),
    {
        let ty = m.graph.nodes[node_id].outputs[0].ty;
        let sym = clone_sym(&m.graph.nodes[node_id].outputs[0].sym);
        let mut outputs: Vec<NodeOutput> = Vec::new();
        outputs.push(NodeOutput::wire(ty, sym));
        let empty: Vec<Port> = Vec::new();
        let ghost before = *m;
        m.replace_node(node_id, Node::new(NodeKind::Const(Const { value }), outputs), &empty);
        proof {
            assert forall|q: Port| before.port_valid(q) implies m.port_valid(q) by {
                assert(m.graph.nodes@[q.node as int].outputs.len()
                    == before.graph.nodes@[q.node as int].outputs.len());
            }
        }
        let ghost mid = *m;
        proof {
            assert(mid.graph.edges@ =~= spec_dropped_inputs(old(m).graph.edges@, node_id));
            assert(mid.graph.edges@ =~= crate::graph::reconnect_edges_spec(
                spec_dropped_inputs(old(m).graph.edges@, node_id),
                Port { node: node_id, port: 0 },
                Port { node: node_id, port: 0 },
            ));
        }
        let w = ty.width();
        if w <= 128 {
            let v = ConstVal::new(value, w);
            self.eliminate_const(m, mod_id, v, Port { node: node_id, port: 0 });
            proof {
                let q0 = choose|q: Port|
                    m.graph.edges@ == crate::graph::reconnect_edges_spec(
                        mid.graph.edges@,
                        Port { node: node_id, port: 0 },
                        q,
                    );
                assert(m.graph.edges@ == crate::graph::reconnect_edges_spec(
                    spec_dropped_inputs(old(m).graph.edges@, node_id),
                    Port { node: node_id, port: 0 },
                    q0,
                ));
            }
        }
    }
}


impl Transform {
    /// An identity buffer folds to a constant when its input is one, and is
    /// otherwise eliminated by reconnection where widths agree and no module
    /// boundary is involved.
    fn fold_pass(&mut self, m: &mut Module, mod_id: usize, node_id: usize)
        requires
            old(m).wf(),
            node_id < old(m).graph.nodes.len(),
            old(m).graph.nodes[node_id as int].kind is Pass,
            cons_valid_for(old(self).cons@, mod_id, *old(m)),
        ensures
            final(m).wf(),
            final(m).graph.nodes.len() == old(m).graph.nodes.len(),
            final(m).mod_inputs == old(m).mod_inputs,
            final(m).same_meta(*old(m)),
            mod_insts_preserved(*old(m), *final(m)),
            insts_kept_or_folded(*old(m), *final(m)),
            cons_valid_for(final(self).cons@, mod_id, *final(m)),
            cons_others_from(final(self).cons@, old(self).cons@, mod_id),
            final(self).max_inlines == old(self).max_inlines,
            old(m).graph.nodes[node_id as int].outputs.len() == 1 ==> (const_input_at(
                *old(m),
                node_id,
                0,
            ) matches Some(c) ==> folded_to_const(*old(m), *final(m), node_id, c.val)),
            (match first_input(old(m).graph.edges@, node_id, 0) {
                Some(src) => old(m).graph.nodes[node_id as int].outputs.len() == 1 && old(
                    m,
                ).const_of(src) is None && !old(m).mod_outputs@.contains(
                    Port { node: node_id, port: 0 },
                ) && !old(m).mod_inputs@.contains(src) && old(m).port_width_spec(src) == old(
                    m,
                ).graph.nodes[node_id as int].outputs[0].ty.width_spec() ==> eliminated_by_reconnect(
                    *old(m),
                    *final(m),
                    node_id,
                    src,
                ),
                None => true,
            }),
            (!const_fold_applies(*old(m), node_id) && !pass_elim_applies(*old(m), node_id))
                ==> *final(m) == *old(m) && *final(self) == *old(self),
    {
        let input = match m.graph.input_at(node_id, 0) {
            Some(p) => p,
            None => {
                return ;
            },
        };
        match m.to_const(input) {
            Some(v) => {
                if m.graph.nodes[node_id].outputs.len() == 1 {
                    self.replace_with_const(m, mod_id, node_id, v.val());
                }
            },
            None => {
                proof {
                    crate::graph::lemma_first_input_is_input(m.graph.edges@, node_id, 0);
                    let es = m.graph.edges@;
                    let j = choose|j: int|
                        0 <= j < es.len() && (#[trigger] es[j]).port_in.node == node_id
                            && es[j].port_in.port == 0 && es[j].port_out == input;
                    assert(m.port_valid(es[j].port_out));
                }
                if m.graph.nodes[node_id].outputs.len() == 1 && !m.is_mod_output(
                    Port { node: node_id, port: 0 },
                ) && !m.is_mod_input(input) && m.port_width(input) == m.graph.nodes[node_id].outputs[0].ty.width() {
                    m.reconnect(node_id);
                }
            },
        }
    }

    /// A bitwise complement of a constant folds to the masked complement.
    fn fold_bit_not(&mut self, m: &mut Module, mod_id: usize, node_id: usize)
        requires
            old(m).wf(),
            node_id < old(m).graph.nodes.len(),
            old(m).graph.nodes[node_id as int].kind is BitNot,
            cons_valid_for(old(self).cons@, mod_id, *old(m)),
        ensures
            final(m).wf(),
            final(m).graph.nodes.len() == old(m).graph.nodes.len(),
            final(m).mod_inputs == old(m).mod_inputs,
            final(m).same_meta(*old(m)),
            mod_insts_preserved(*old(m), *final(m)),
            insts_kept_or_folded(*old(m), *final(m)),
            cons_valid_for(final(self).cons@, mod_id, *final(m)),
            cons_others_from(final(self).cons@, old(self).cons@, mod_id),
            final(self).max_inlines == old(self).max_inlines,
            old(m).graph.nodes[node_id as int].outputs.len() == 1 ==> (const_input_at(
                *old(m),
                node_id,
                0,
            ) matches Some(c) ==> folded_to_const(
                *old(m),
                *final(m),
                node_id,
                ConstVal::mk(!c.val, c.width).val,
            )),
            !const_fold_applies(*old(m), node_id) ==> *final(m) == *old(m) && *final(self)
                == *old(self),
    {
        let input = match m.graph.input_at(node_id, 0) {
            Some(p) => p,
            None => {
                return ;
            },
        };
        match m.to_const(input) {
            Some(v) => {
                if m.graph.nodes[node_id].outputs.len() == 1 {
                    let folded = ConstVal::new(!v.val(), v.width());
                    self.replace_with_const(m, mod_id, node_id, folded.val());
                }
            },
            None => {},
        }
    }

    /// A dyadic operation over two constants folds to the evaluated constant,
    /// where the operation is well-defined at the operands.
    fn fold_bin_op(&mut self, m: &mut Module, mod_id: usize, node_id: usize)
        requires
            old(m).wf(),
            node_id < old(m).graph.nodes.len(),
            cons_valid_for(old(self).cons@, mod_id, *old(m)),
        ensures
            final(m).wf(),
            final(m).graph.nodes.len() == old(m).graph.nodes.len(),
            final(m).mod_inputs == old(m).mod_inputs,
            final(m).same_meta(*old(m)),
            mod_insts_preserved(*old(m), *final(m)),
            insts_kept_or_folded(*old(m), *final(m)),
            cons_valid_for(final(self).cons@, mod_id, *final(m)),
            cons_others_from(final(self).cons@, old(self).cons@, mod_id),
            final(self).max_inlines == old(self).max_inlines,
            (match old(m).graph.nodes[node_id as int].kind {
                NodeKind::BinOp(bo) => (match (
                    const_input_at(*old(m), node_id, 0),
                    const_input_at(*old(m), node_id, 1),
                ) {
                    (Some(x), Some(y)) => old(m).graph.nodes[node_id as int].outputs.len() == 1
                        && x.width == y.width ==> {
                        &&& (crate::const_val::bin_op_in_range(x, y, bo.bin_op)
                            ==> folded_to_const(
                            *old(m),
                            *final(m),
                            node_id,
                            crate::const_val::eval_bin_op_spec(x, y, bo.bin_op).val,
                        ))
                        &&& (!crate::const_val::bin_op_in_range(x, y, bo.bin_op) ==> *final(m)
                            == *old(m) && final(self).cons == old(self).cons)
                    },
                    _ => true,
                }),
                _ => true,
            }),
            !bin_op_fold_applies(*old(m), node_id) ==> *final(m) == *old(m) && *final(self)
                == *old(self),
    {
        let op = match &m.graph.nodes[node_id].kind {
            NodeKind::BinOp(b) => b.bin_op,
            _ => {
                return ;
            },
        };
        if m.graph.nodes[node_id].outputs.len() != 1 {
            return ;
        }
        let lhs = match m.graph.input_at(node_id, 0) {
            Some(p) => p,
            None => {
                return ;
            },
        };
        let rhs = match m.graph.input_at(node_id, 1) {
            Some(p) => p,
            None => {
                return ;
            },
        };
        let a = match m.to_const(lhs) {
            Some(v) => v,
            None => {
                return ;
            },
        };
        let b = match m.to_const(rhs) {
            Some(v) => v,
            None => {
                return ;
            },
        };
        if a.width() != b.width() {
            return ;
        }
        // The container checks the original treats as fatal construction
        // errors; a violating fold is left alone here.
        let ok: bool = match op {
            BinOp::Add => a.val() <= u128::MAX - b.val(),
            BinOp::Sub => a.val() >= b.val(),
            BinOp::Mul => b.val() == 0 || a.val() <= u128::MAX / b.val(),
            BinOp::Div => b.val() != 0,
            BinOp::Rem => b.val() != 0,
            BinOp::Sll => b.val() < 128,
            BinOp::Slr => b.val() < 128,
            BinOp::Sra => b.val() < 128,
            _ => true,
        };
        proof {
            if op == BinOp::Mul && b.val_spec() != 0 {
                if a.val_spec() <= u128::MAX as int / b.val_spec() as int {
                    lemma_mul_guard(a.val_spec(), b.val_spec());
                } else {
                    lemma_mul_guard_converse(a.val_spec(), b.val_spec());
                }
            }
            assert(ok == crate::const_val::bin_op_in_range(a, b, op));
        }
        if !ok {
            return ;
        }
        let folded = a.eval_bin_op(b, op);
        self.replace_with_const(m, mod_id, node_id, folded.val());
    }

    /// A concatenation of constants folds to the concatenated constant, where
    /// it fits the 128-bit container.
    fn fold_merger(&mut self, m: &mut Module, mod_id: usize, node_id: usize)
        requires
            old(m).wf(),
            node_id < old(m).graph.nodes.len(),
            cons_valid_for(old(self).cons@, mod_id, *old(m)),
        ensures
            final(m).wf(),
            final(m).graph.nodes.len() == old(m).graph.nodes.len(),
            final(m).mod_inputs == old(m).mod_inputs,
            final(m).same_meta(*old(m)),
            mod_insts_preserved(*old(m), *final(m)),
            insts_kept_or_folded(*old(m), *final(m)),
            cons_valid_for(final(self).cons@, mod_id, *final(m)),
            cons_others_from(final(self).cons@, old(self).cons@, mod_id),
            final(self).max_inlines == old(self).max_inlines,
            (match old(m).graph.nodes[node_id as int].kind {
                NodeKind::Merger(mg) => old(m).graph.nodes[node_id as int].outputs.len() == 1
                    ==> (merger_fold(*old(m), node_id, mg.inputs as int) matches Some(c)
                    ==> folded_to_const(*old(m), *final(m), node_id, c.val)),
                _ => true,
            }),
            !merger_fold_applies(*old(m), node_id) ==> *final(m) == *old(m) && *final(self)
                == *old(self),
    {
        let n = match &m.graph.nodes[node_id].kind {
            NodeKind::Merger(mg) => mg.inputs,
            _ => {
                return ;
            },
        };
        if m.graph.nodes[node_id].outputs.len() != 1 {
            return ;
        }
        let ports = match m.graph.inputs_of(node_id, n) {
            Some(ps) => ps,
            None => {
                proof {
                    if merger_fold(*old(m), node_id, n as int) is Some {
                        lemma_merger_fold_inputs_present(*old(m), node_id, n as int);
                    }
                }
                return ;
            },
        };
        let mut acc = ConstVal::zero(0);
        let mut k: usize = 0;
        while k < n
            invariant
                k <= n,
                n == ports.len(),
                acc.wf(),
                *m == *old(m),
                m.wf(),
                node_id < m.graph.nodes.len(),
                self.cons == old(self).cons,
                self.max_inlines == old(self).max_inlines,
                cons_valid_for(self.cons@, mod_id, *m),
                m.graph.nodes[node_id as int].outputs.len() == 1,
                old(m).graph.nodes[node_id as int].kind matches NodeKind::Merger(mg) && mg.inputs
                    == n,
                merger_fold(*old(m), node_id, k as int) == Some(acc),
                forall|j: int|
                    0 <= j < n ==> first_input(m.graph.edges@, node_id, j as usize) == Some(
                        #[trigger] ports@[j],
                    ),
            decreases n - k,
        {
            let v = match m.to_const(ports[k]) {
                Some(v) => v,
                None => {
                    proof {
                        assert(merger_fold(*old(m), node_id, k + 1) is None);
                        lemma_merger_fold_none_up(*old(m), node_id, k + 1, n as int);
                    }
                    return ;
                },
            };
            if v.width() > 128 - acc.width() {
                proof {
                    assert(merger_fold(*old(m), node_id, k + 1) is None);
                    lemma_merger_fold_none_up(*old(m), node_id, k + 1, n as int);
                }
                return ;
            }
            acc.shift(v);
            k = k + 1;
            proof {
                assert(merger_fold(*old(m), node_id, k as int) == Some(acc));
            }
        }
        self.replace_with_const(m, mod_id, node_id, acc.val());
    }

    /// An extension of a constant folds to that constant; one that does not
    /// widen is eliminated by reconnection.
    ///
    /// The fold keeps the stored magnitude as it is, whatever the extension's
    /// sign flag says: sign extension is a property of how a consumer reads
    /// the bits at its width, not of the stored value, so a signed extension
    /// of a negative constant folds to the same masked magnitude a zero
    /// extension would. The contract states exactly that.
    fn fold_extend(&mut self, m: &mut Module, mod_id: usize, node_id: usize)
        requires
            old(m).wf(),
            node_id < old(m).graph.nodes.len(),
            old(m).graph.nodes[node_id as int].kind is Extend,
            cons_valid_for(old(self).cons@, mod_id, *old(m)),
        ensures
            final(m).wf(),
            final(m).graph.nodes.len() == old(m).graph.nodes.len(),
            final(m).mod_inputs == old(m).mod_inputs,
            final(m).same_meta(*old(m)),
            mod_insts_preserved(*old(m), *final(m)),
            insts_kept_or_folded(*old(m), *final(m)),
            cons_valid_for(final(self).cons@, mod_id, *final(m)),
            cons_others_from(final(self).cons@, old(self).cons@, mod_id),
            final(self).max_inlines == old(self).max_inlines,
            old(m).graph.nodes[node_id as int].outputs.len() == 1 ==> (const_input_at(
                *old(m),
                node_id,
                0,
            ) matches Some(c) ==> folded_to_const(*old(m), *final(m), node_id, c.val)),
            (match first_input(old(m).graph.edges@, node_id, 0) {
                Some(src) => old(m).graph.nodes[node_id as int].outputs.len() == 1 && old(
                    m,
                ).const_of(src) is None && old(m).port_width_spec(src) == old(
                    m,
                ).graph.nodes[node_id as int].outputs[0].ty.width_spec()
                    ==> eliminated_by_reconnect(*old(m), *final(m), node_id, src),
                None => true,
            }),
            (!const_fold_applies(*old(m), node_id) && !extend_elim_applies(*old(m), node_id))
                ==> *final(m) == *old(m) && *final(self) == *old(self),
    {
        if m.graph.nodes[node_id].outputs.len() != 1 {
            return ;
        }
        let input = match m.graph.input_at(node_id, 0) {
            Some(p) => p,
            None => {
                return ;
            },
        };
        proof {
            crate::graph::lemma_first_input_is_input(m.graph.edges@, node_id, 0);
            let es = m.graph.edges@;
            let j = choose|j: int|
                0 <= j < es.len() && (#[trigger] es[j]).port_in.node == node_id
                    && es[j].port_in.port == 0 && es[j].port_out == input;
            assert(m.port_valid(es[j].port_out));
        }
        match m.to_const(input) {
            Some(v) => {
                self.replace_with_const(m, mod_id, node_id, v.val());
            },
            None => {
                if m.port_width(input) == m.graph.nodes[node_id].outputs[0].ty.width() {
                    m.reconnect(node_id);
                }
            },
        }
    }

    /// A splitter that passes all bits is eliminated; one over a constant
    /// folds to one shifted-and-masked slice per output; one that undoes a
    /// mismatched-order concatenation cancels against it.
    fn fold_splitter(&mut self, m: &mut Module, mod_id: usize, node_id: usize)
        requires
            old(m).wf(),
            node_id < old(m).graph.nodes.len(),
            cons_valid_for(old(self).cons@, mod_id, *old(m)),
        ensures
            final(m).wf(),
            final(m).graph.nodes.len() >= old(m).graph.nodes.len(),
            final(m).mod_inputs == old(m).mod_inputs,
            final(m).same_meta(*old(m)),
            mod_insts_preserved(*old(m), *final(m)),
            insts_kept_or_folded(*old(m), *final(m)),
            cons_valid_for(final(self).cons@, mod_id, *final(m)),
            cons_others_from(final(self).cons@, old(self).cons@, mod_id),
            final(self).max_inlines == old(self).max_inlines,
            crate::module::splitter_full_range(*old(m), node_id) ==> eliminated_by_reconnect(
                *old(m),
                *final(m),
                node_id,
                first_input(old(m).graph.edges@, node_id, 0)->Some_0,
            ),
            splitter_const_fold_applies(*old(m), node_id) ==> folded_to_multi_const(
                *old(m),
                *final(m),
                node_id,
                Seq::new(
                    old(m).graph.nodes[node_id as int].outputs.len() as nat,
                    |k: int| splitter_slice_value(*old(m), node_id, k),
                ),
            ),
            (match old(m).graph.nodes[node_id as int].kind {
                NodeKind::Splitter(sp) => (match first_input(old(m).graph.edges@, node_id, 0) {
                    Some(src) => (!crate::module::splitter_full_range(*old(m), node_id) && old(
                        m,
                    ).const_of(src) is None) ==> (match old(m).graph.nodes[src.node as int].kind {
                        NodeKind::Merger(mg) => (mg.rev != sp.rev
                            && crate::module::merger_splitter_reversible(
                            *old(m),
                            src.node,
                            node_id,
                        )) ==> crate::module::cancellation_spec(
                            *old(m),
                            *final(m),
                            src.node,
                            node_id,
                        ),
                        _ => true,
                    }),
                    None => true,
                }),
                _ => true,
            }),
            (!crate::module::splitter_full_range(*old(m), node_id) && !splitter_const_fold_applies(
                *old(m),
                node_id,
            ) && !cancel_applies(*old(m), node_id)) ==> *final(m) == *old(m) && *final(self)
                == *old(self),
    {
        let rev = match &m.graph.nodes[node_id].kind {
            NodeKind::Splitter(sp) => sp.rev,
            _ => {
                return ;
            },
        };
        if m.splitter_passes_all_bits(node_id) {
            m.reconnect(node_id);
            return ;
        }
        let input = match m.graph.input_at(node_id, 0) {
            Some(p) => p,
            None => {
                return ;
            },
        };
        proof {
            crate::graph::lemma_first_input_is_input(m.graph.edges@, node_id, 0);
            let es = m.graph.edges@;
            let j = choose|j: int|
                0 <= j < es.len() && (#[trigger] es[j]).port_in.node == node_id
                    && es[j].port_in.port == 0 && es[j].port_out == input;
            assert(m.port_valid(es[j].port_out));
        }
        let ghost fold_ok = splitter_const_fold_applies(*old(m), node_id);
        match m.to_const(input) {
            Some(v) => {
                let offs = match m.splitter_offsets(node_id) {
                    Some(o) => o,
                    None => {
                        proof {
                            if fold_ok {
                                assert(false);
                            }
                        }
                        return ;
                    },
                };
                let out_count = m.graph.nodes[node_id].outputs.len();
                let mut values: Vec<u128> = Vec::new();
                let mut outputs: Vec<NodeOutput> = Vec::new();
                let mut k: usize = 0;
                while k < out_count
                    invariant
                        k <= out_count,
                        out_count == offs.len(),
                        values.len() == k,
                        outputs.len() == k,
                        *m == *old(m),
                        m.wf(),
                        node_id < m.graph.nodes.len(),
                        out_count == m.graph.nodes[node_id as int].outputs.len(),
                        self.cons == old(self).cons,
                        self.max_inlines == old(self).max_inlines,
                        cons_valid_for(self.cons@, mod_id, *m),
                        !crate::module::splitter_full_range(*old(m), node_id),
                        fold_ok == splitter_const_fold_applies(*old(m), node_id),
                        first_input(old(m).graph.edges@, node_id, 0) == Some(input),
                        old(m).const_of(input) == Some(v),
                        v.wf(),
                        old(m).graph.nodes[node_id as int].kind matches NodeKind::Splitter(spp)
                            && (forall|j: int|
                            0 <= j < offs.len() ==> (#[trigger] offs@[j]) as int
                                == crate::module::splitter_offset_spec(
                                *old(m),
                                node_id,
                                j,
                                old(m).port_width_spec(input) as int,
                                (match spp.start {
                                    Some(x) => x as int,
                                    None => 0int,
                                }),
                                spp.rev,
                            )),
                        forall|j: int|
                            0 <= j < k ==> outputs@[j] == m.graph.nodes[node_id as int].outputs@[j],
                        fold_ok ==> forall|j: int|
                            0 <= j < k ==> (#[trigger] values@[j]) == splitter_slice_value(
                                *old(m),
                                node_id,
                                j,
                            ),
                        forall|j: int|
                            0 <= j < k ==> (#[trigger] offs@[j]) < 128
                                && old(m).graph.nodes[node_id as int].outputs[j].ty.width_spec()
                                <= 128,
                    decreases out_count - k,
                {
                    let off = offs[k];
                    proof {
                        if fold_ok {
                            let spv = old(m).graph.nodes[node_id as int].kind->Splitter_0;
                            let srcv = first_input(old(m).graph.edges@, node_id, 0)->Some_0;
                            assert(srcv == input);
                            let w_in = old(m).port_width_spec(srcv) as int;
                            let s0 = (match spv.start {
                                Some(x) => x as int,
                                None => 0int,
                            });
                            assert(splitter_ranges_small(*old(m), node_id, w_in, s0, spv.rev));
                            assert(0 <= crate::module::splitter_offset_spec(
                                *old(m),
                                node_id,
                                k as int,
                                w_in,
                                s0,
                                spv.rev,
                            ) < 128);
                            assert(offs@[k as int] as int == crate::module::splitter_offset_spec(
                                *old(m),
                                node_id,
                                k as int,
                                w_in,
                                s0,
                                spv.rev,
                            ));
                            assert(old(m).graph.nodes[node_id as int].outputs[k as int].ty.width_spec()
                                <= 128);
                        }
                    }
                    if off >= 128 {
                        proof {
                            if fold_ok {
                                assert(false);
                            }
                        }
                        return ;
                    }
                    let w = m.graph.nodes[node_id].outputs[k].ty.width();
                    if w > 128 {
                        proof {
                            if fold_ok {
                                assert(false);
                            }
                        }
                        return ;
                    }
                    let slice_val = ConstVal::new(v.val() >> off, w);
                    values.push(slice_val.val());
                    outputs.push(m.graph.nodes[node_id].outputs[k].duplicate());
                    proof {
                        let spp = old(m).graph.nodes[node_id as int].kind->Splitter_0;
                        let s0 = (match spp.start {
                            Some(x) => x as int,
                            None => 0int,
                        });
                        assert(crate::module::splitter_offset_spec(
                            *old(m),
                            node_id,
                            k as int,
                            old(m).port_width_spec(input) as int,
                            s0,
                            spp.rev,
                        ) == off as int);
                        assert(old(m).graph.nodes[node_id as int].outputs[k as int].ty.width_spec()
                            == w);
                    }
                    k = k + 1;
                }
                proof {
                    let spp = old(m).graph.nodes[node_id as int].kind->Splitter_0;
                    let w_in = old(m).port_width_spec(input) as int;
                    let s0 = (match spp.start {
                        Some(x) => x as int,
                        None => 0int,
                    });
                    assert forall|j: int|
                        0 <= j < old(m).graph.nodes[node_id as int].outputs.len() implies 0 <= (
                    #[trigger] crate::module::splitter_offset_spec(
                        *old(m),
                        node_id,
                        j,
                        w_in,
                        s0,
                        spp.rev,
                    )) < 128 && old(m).graph.nodes[node_id as int].outputs[j].ty.width_spec()
                        <= 128 by {
                        assert(offs@[j] < 128);
                        assert(offs@[j] as int == crate::module::splitter_offset_spec(
                            *old(m),
                            node_id,
                            j,
                            w_in,
                            s0,
                            spp.rev,
                        ));
                    }
                    assert(splitter_ranges_small(*old(m), node_id, w_in, s0, spp.rev));
                    assert(splitter_const_fold_applies(*old(m), node_id));
                }
                let ghost before = *m;
                let empty: Vec<Port> = Vec::new();
                m.replace_node(
                    node_id,
                    Node::new(NodeKind::MultiConst(MultiConst { values }), outputs),
                    &empty,
                );
                proof {
                    assert forall|q: Port| before.port_valid(q) implies m.port_valid(q) by {
                        assert(m.graph.nodes@[q.node as int].outputs.len()
                            == before.graph.nodes@[q.node as int].outputs.len());
                    }
                }
                proof {
                    assert(m.graph.edges@ =~= spec_dropped_inputs(before.graph.edges@, node_id));
                    lemma_someness_dropped(before.graph.edges@, node_id);
                    assert forall|n: usize, p2: usize| n != node_id implies ((#[trigger] first_input(
                        m.graph.edges@,
                        n,
                        p2,
                    )) is Some <==> first_input(before.graph.edges@, n, p2) is Some) by {
                        assert(first_input(spec_dropped_inputs(before.graph.edges@, node_id), n, p2)
                            == first_input(before.graph.edges@, n, p2));
                    }
                }
                let ghost dropped = *m;
                self.eliminate_multi_const(m, mod_id, node_id);
                proof {
                    if fold_ok {
                        assert(values@ =~= Seq::new(
                            old(m).graph.nodes[node_id as int].outputs.len() as nat,
                            |k: int| splitter_slice_value(*old(m), node_id, k),
                        ));
                    }
                }
            },
            None => {
                let src_node = input.node;
                let (is_merger, mg_rev) = match &m.graph.nodes[src_node].kind {
                    NodeKind::Merger(mg) => (true, mg.rev),
                    _ => (false, false),
                };
                if is_merger && mg_rev != rev {
                    if m.is_reversible(src_node, node_id) {
                        proof {
                            assert(forall|j: int|
                                0 <= j < m.graph.nodes[node_id as int].outputs.len() ==> (
                                #[trigger] first_input(
                                    m.graph.edges@,
                                    src_node,
                                    j as usize,
                                )) is Some);
                        }
                        m.reconnect_from_inputs_to_outputs(src_node, node_id);
                    }
                }
            },
        }
    }
}

/// A failed fold prefix never recovers: once the running concatenation is
/// `None`, every longer prefix is too.
proof fn lemma_merger_fold_none_up(m: Module, node_id: usize, i: int, j: int)
    requires
        merger_fold(m, node_id, i) is None,
        i <= j,
    ensures
        merger_fold(m, node_id, j) is None,
    decreases j - i,
{
    if j > i {
        lemma_merger_fold_none_up(m, node_id, i, j - 1);
    }
}

/// A successful fold had a producer wired into every input position.
proof fn lemma_merger_fold_inputs_present(m: Module, node_id: usize, k: int)
    requires
        merger_fold(m, node_id, k) is Some,
    ensures
        forall|j: int|
            0 <= j < k ==> (#[trigger] first_input(m.graph.edges@, node_id, j as usize)) is Some,
    decreases k,
{
    if k > 0 {
        lemma_merger_fold_inputs_present(m, node_id, k - 1);
        assert(const_input_at(m, node_id, (k - 1) as usize) is Some);
    }
}

/// If `a > MAX / b` with `b` positive, the product outgrows the container.
proof fn lemma_mul_guard_converse(a: u128, b: u128)
    requires
        b != 0,
        a as int > u128::MAX as int / b as int,
    ensures
        a * b > u128::MAX,
{
    let q = u128::MAX as int / b as int;
    vstd::arithmetic::div_mod::lemma_fundamental_div_mod(u128::MAX as int, b as int);
    vstd::arithmetic::div_mod::lemma_mod_bound(u128::MAX as int, b as int);
    vstd::arithmetic::mul::lemma_mul_inequality(q + 1, a as int, b as int);
    vstd::arithmetic::mul::lemma_mul_is_distributive_add_other_way(b as int, q, 1);
    vstd::arithmetic::mul::lemma_mul_is_commutative(q, b as int);
}

/// If `a <= MAX / b` with `b` positive, the product fits the container.
proof fn lemma_mul_guard(a: u128, b: u128)
    requires
        b != 0,
        a <= u128::MAX as int / b as int,
    ensures
        a * b <= u128::MAX,
{
    let q = u128::MAX as int / b as int;
    vstd::arithmetic::div_mod::lemma_fundamental_div_mod(u128::MAX as int, b as int);
    vstd::arithmetic::div_mod::lemma_mod_bound(u128::MAX as int, b as int);
    vstd::arithmetic::mul::lemma_mul_inequality(a as int, q, b as int);
    vstd::arithmetic::mul::lemma_mul_is_commutative(q, b as int);
}


impl Transform {
    /// A switch with exactly one case reconnects unconditionally to that
    /// case's value ports, whatever the selector; with a constant selector,
    /// to the first case whose value set matches.
    fn fold_switch(&mut self, m: &mut Module, mod_id: usize, node_id: usize)
        requires
            old(m).wf(),
            node_id < old(m).graph.nodes.len(),
            cons_valid_for(old(self).cons@, mod_id, *old(m)),
        ensures
            final(m).wf(),
            final(m).graph.nodes.len() == old(m).graph.nodes.len(),
            final(m).graph.nodes == old(m).graph.nodes,
            final(m).mod_inputs == old(m).mod_inputs,
            final(m).same_meta(*old(m)),
            mod_insts_preserved(*old(m), *final(m)),
            insts_kept_or_folded(*old(m), *final(m)),
            cons_valid_for(final(self).cons@, mod_id, *final(m)),
            cons_others_from(final(self).cons@, old(self).cons@, mod_id),
            final(self).max_inlines == old(self).max_inlines,
            (old(m).graph.nodes[node_id as int].kind matches NodeKind::Switch(sw)
                && sw.cases.len() == 1 && all_present(single_case_ports(*old(m), node_id))) ==> {
                &&& final(m).graph.edges@ == redirect_edges_spec(
                    old(m).graph.edges@,
                    node_id,
                    unwrap_ports(single_case_ports(*old(m), node_id)),
                )
                &&& final(m).mod_outputs@ == old(m).mod_outputs@.map_values(
                    |p: Port| redirect_port(
                        p,
                        node_id,
                        unwrap_ports(single_case_ports(*old(m), node_id)),
                    ),
                )
            },
            switch_const_sel_applies(*old(m), node_id) ==> reconnected_to(
                *old(m),
                *final(m),
                node_id,
                unwrap_ports(case_ports(*old(m), node_id, switch_matched_case(*old(m), node_id))),
            ),
            (!single_case_applies(*old(m), node_id) && !switch_const_sel_applies(*old(m), node_id))
                ==> *final(m) == *old(m) && *final(self) == *old(self),
    {
        let n_cases = match &m.graph.nodes[node_id].kind {
            NodeKind::Switch(sw) => sw.cases.len(),
            _ => {
                return ;
            },
        };
        if n_cases == 1 {
            match m.switch_chunk(node_id, 0) {
                Some(chunk) => {
                    proof {
                        let scp = single_case_ports(*m, node_id);
                        assert forall|k: int| 0 <= k < scp.len() implies (#[trigger] scp[k])
                            == Some(chunk@[k]) by {
                            assert(crate::graph::first_input(
                                m.graph.edges@,
                                node_id,
                                (1 + 0 * m.graph.nodes[node_id as int].outputs.len()
                                    + k) as usize,
                            ) == Some(chunk@[k]));
                            assert((1 + 0 * m.graph.nodes[node_id as int].outputs.len()
                                + k) as usize == (1 + k) as usize);
                        }
                        assert(chunk@ =~= unwrap_ports(scp));
                    }
                    m.reconnect_all_outgoing(node_id, &chunk);
                },
                None => {
                    proof {
                        let outs = m.graph.nodes[node_id as int].outputs.len() as int;
                        vstd::arithmetic::mul::lemma_mul_basics(outs);
                        assert(0 * outs == 0);
                        if all_present(single_case_ports(*m, node_id)) {
                            let k = choose|k: int|
                                0 <= k < outs && (#[trigger] crate::graph::first_input(
                                    m.graph.edges@,
                                    node_id,
                                    (1 + 0 * outs + k) as usize,
                                )) is None;
                            assert(single_case_ports(*m, node_id)[k] == crate::graph::first_input(
                                m.graph.edges@,
                                node_id,
                                (1 + k) as usize,
                            ));
                            assert(false);
                        }
                    }
                },
            }
            return ;
        }
        let sel = match m.graph.input_at(node_id, 0) {
            Some(p) => p,
            None => {
                return ;
            },
        };
        let selv = match m.to_const(sel) {
            Some(v) => v,
            None => {
                return ;
            },
        };
        let mut c: usize = 0;
        while c < n_cases
            invariant
                c <= n_cases,
                *m == *old(m),
                m.wf(),
                selv.wf(),
                node_id < m.graph.nodes.len(),
                m.graph.nodes[node_id as int].kind matches NodeKind::Switch(sw) && sw.cases.len()
                    == n_cases && n_cases != 1,
                const_input_at(*old(m), node_id, 0) == Some(selv),
                (match old(m).graph.nodes[node_id as int].kind {
                    NodeKind::Switch(sw2) => forall|j: int|
                        0 <= j < c ==> !(#[trigger] sw2.cases@[j]).matches_spec(selv),
                    _ => false,
                }),
                self.cons == old(self).cons,
                self.max_inlines == old(self).max_inlines,
                cons_valid_for(self.cons@, mod_id, *m),
            decreases n_cases - c,
        {
            let matched = match &m.graph.nodes[node_id].kind {
                NodeKind::Switch(sw) => sw.cases[c].is_match(selv),
                _ => false,
            };
            if matched {
                proof {
                    let sw2 = old(m).graph.nodes[node_id as int].kind->Switch_0;
                    lemma_first_match_at(sw2.cases@, selv, c as int, n_cases as int);
                    assert(switch_matched_case(*old(m), node_id) == c as int);
                }
                match m.switch_chunk(node_id, c) {
                    Some(chunk) => {
                        proof {
                            let cp = case_ports(*old(m), node_id, c as int);
                            assert forall|k: int| 0 <= k < cp.len() implies (#[trigger] cp[k])
                                == Some(chunk@[k]) by {
                                assert(first_input(
                                    m.graph.edges@,
                                    node_id,
                                    (1 + (c as int) * m.graph.nodes[node_id as int].outputs.len()
                                        + k) as usize,
                                ) == Some(chunk@[k]));
                            }
                            assert(chunk@ =~= unwrap_ports(cp));
                        }
                        m.reconnect_all_outgoing(node_id, &chunk);
                    },
                    None => {
                        proof {
                            if switch_const_sel_applies(*old(m), node_id) {
                                let outs = m.graph.nodes[node_id as int].outputs.len() as int;
                                vstd::arithmetic::mul::lemma_mul_basics(outs);
                                vstd::arithmetic::mul::lemma_mul_nonnegative(c as int, outs);
                                let k = choose|k: int|
                                    0 <= k < outs && (#[trigger] first_input(
                                        m.graph.edges@,
                                        node_id,
                                        (1 + (c as int) * outs + k) as usize,
                                    )) is None;
                                assert(case_ports(*old(m), node_id, c as int)[k] == first_input(
                                    m.graph.edges@,
                                    node_id,
                                    (1 + (c as int) * outs + k) as usize,
                                ));
                                assert(false);
                            }
                        }
                    },
                }
                return ;
            }
            c = c + 1;
        }
        proof {
            if switch_const_sel_applies(*old(m), node_id) {
                let sw2 = old(m).graph.nodes[node_id as int].kind->Switch_0;
                lemma_first_match_none(sw2.cases@, selv, n_cases as int);
                assert(false);
            }
        }
    }

    /// A register with a constant deasserted reset or constant live enable
    /// drops that input; one with a constant asserted reset or constant dead
    /// enable collapses to its initial value.
    fn fold_dff(&mut self, m: &mut Module, mod_id: usize, node_id: usize)
        requires
            old(m).wf(),
            node_id < old(m).graph.nodes.len(),
            cons_valid_for(old(self).cons@, mod_id, *old(m)),
        ensures
            final(m).wf(),
            final(m).graph.nodes.len() == old(m).graph.nodes.len(),
            final(m).mod_inputs == old(m).mod_inputs,
            final(m).same_meta(*old(m)),
            mod_insts_preserved(*old(m), *final(m)),
            insts_kept_or_folded(*old(m), *final(m)),
            cons_valid_for(final(self).cons@, mod_id, *final(m)),
            cons_others_from(final(self).cons@, old(self).cons@, mod_id),
            final(self).max_inlines == old(self).max_inlines,
            dff_dead_enable_applies(*old(m), node_id) ==> reconnected_to(
                *old(m),
                *final(m),
                node_id,
                seq![dff_init_port(*old(m), node_id)],
            ),
            dff_reset_collapse_applies(*old(m), node_id) ==> {
                &&& final(m).graph.nodes == old(m).graph.nodes
                &&& final(m).graph.edges@ == redirect_edges_spec(
                    old(m).graph.edges@,
                    node_id,
                    seq![dff_init_port(*old(m), node_id)],
                )
                &&& final(m).mod_outputs@ == old(m).mod_outputs@.map_values(
                    |p: Port| redirect_port(
                        p,
                        node_id,
                        seq![dff_init_port(*old(m), node_id)],
                    ),
                )
            },
            !dff_const_ctrl(*old(m), node_id) ==> *final(m) == *old(m) && *final(self) == *old(
                self,
            ),
            old(m).graph.nodes[node_id as int].kind is DFF
                ==> final(m).graph.nodes[node_id as int].kind is DFF,
            forall|n: int|
                0 <= n < old(m).graph.nodes.len() && n != node_id ==> final(m).graph.nodes@[n]
                    == old(m).graph.nodes@[n],
            forall|n: usize, p: usize|
                #![trigger first_input(final(m).graph.edges@, n, p)]
                n != node_id ==> (first_input(final(m).graph.edges@, n, p) is Some
                    <==> first_input(old(m).graph.edges@, n, p) is Some),
    {
        let ghost pre = *m;
        let acted = self.dff_round(m, mod_id, node_id);
        if acted {
            let ghost mid = *m;
            let _ = self.dff_round(m, mod_id, node_id);
            proof {
                assert forall|n: usize, p: usize| n != node_id implies ((#[trigger] first_input(
                    m.graph.edges@,
                    n,
                    p,
                )) is Some <==> first_input(pre.graph.edges@, n, p) is Some) by {
                    assert(first_input(m.graph.edges@, n, p) is Some <==> first_input(
                        mid.graph.edges@,
                        n,
                        p,
                    ) is Some);
                }
            }
        }
    }

    /// One register rewrite round: returns whether an input was dropped (a
    /// further round may then collapse the register).
    fn dff_round(&mut self, m: &mut Module, mod_id: usize, node_id: usize) -> (acted: bool)
        requires
            old(m).wf(),
            node_id < old(m).graph.nodes.len(),
            cons_valid_for(old(self).cons@, mod_id, *old(m)),
        ensures
            final(m).wf(),
            final(m).graph.nodes.len() == old(m).graph.nodes.len(),
            final(m).mod_inputs == old(m).mod_inputs,
            final(m).same_meta(*old(m)),
            mod_insts_preserved(*old(m), *final(m)),
            insts_kept_or_folded(*old(m), *final(m)),
            cons_valid_for(final(self).cons@, mod_id, *final(m)),
            cons_others_from(final(self).cons@, old(self).cons@, mod_id),
            final(self).max_inlines == old(self).max_inlines,
            !acted ==> final(self).cons == old(self).cons,
            dff_dead_enable_applies(*old(m), node_id) ==> !acted && reconnected_to(
                *old(m),
                *final(m),
                node_id,
                seq![dff_init_port(*old(m), node_id)],
            ),
            dff_reset_collapse_applies(*old(m), node_id) ==> !acted && {
                &&& final(m).graph.nodes == old(m).graph.nodes
                &&& final(m).graph.edges@ == redirect_edges_spec(
                    old(m).graph.edges@,
                    node_id,
                    seq![dff_init_port(*old(m), node_id)],
                )
                &&& final(m).mod_outputs@ == old(m).mod_outputs@.map_values(
                    |p: Port| redirect_port(
                        p,
                        node_id,
                        seq![dff_init_port(*old(m), node_id)],
                    ),
                )
            },
            !dff_reset_collapse_applies(*old(m), node_id) && !acted && final(self).cons == old(
                self,
            ).cons ==> *final(m) == *old(m) || final(m).graph.nodes == old(m).graph.nodes,
            !dff_const_ctrl(*old(m), node_id) ==> *final(m) == *old(m) && *final(self) == *old(
                self,
            ) && !acted,
            old(m).graph.nodes[node_id as int].kind is DFF
                ==> final(m).graph.nodes[node_id as int].kind is DFF,
            forall|n: int|
                0 <= n < old(m).graph.nodes.len() && n != node_id ==> final(m).graph.nodes@[n]
                    == old(m).graph.nodes@[n],
            forall|n: usize, p: usize|
                #![trigger first_input(final(m).graph.edges@, n, p)]
                n != node_id ==> (first_input(final(m).graph.edges@, n, p) is Some
                    <==> first_input(old(m).graph.edges@, n, p) is Some),
    {
        let d = match &m.graph.nodes[node_id].kind {
            NodeKind::DFF(d) => *d,
            _ => {
                return false;
            },
        };
        let di = match m.dff_inputs(node_id) {
            Some(di) => di,
            None => {
                return false;
            },
        };
        let mut drop_rst = false;
        let mut true_rst = false;
        match &di.rst {
            Some(rp) => {
                match m.to_const(*rp) {
                    Some(v) => {
                        if d.rst_pol.is_inactive(v.val()) {
                            drop_rst = true;
                        } else {
                            true_rst = true;
                        }
                    },
                    None => {},
                }
            },
            None => {},
        }
        let mut drop_en = false;
        let mut false_en = false;
        match &di.en {
            Some(ep) => {
                match m.to_const(*ep) {
                    Some(v) => {
                        if v.val() > 0 {
                            drop_en = true;
                        } else {
                            false_en = true;
                        }
                    },
                    None => {},
                }
            },
            None => {},
        }
        if drop_rst || drop_en {
            // Rebuild the register without the dropped inputs, keeping its
            // outputs and outgoing edges.
            let skip = m.graph.nodes[node_id].skip;
            let mut outputs: Vec<NodeOutput> = Vec::new();
            let mut k: usize = 0;
            let n_outs = m.graph.nodes[node_id].outputs.len();
            while k < n_outs
                invariant
                    k <= n_outs,
                    outputs.len() == k,
                    node_id < m.graph.nodes.len(),
                    n_outs == m.graph.nodes[node_id as int].outputs.len(),
                    *m == *old(m),
                decreases n_outs - k,
            {
                outputs.push(m.graph.nodes[node_id].outputs[k].duplicate());
                k = k + 1;
            }
            let keep_rst = d.has_rst && !drop_rst;
            let keep_en = d.has_en && !drop_en;
            let new_d = crate::node::DFF {
                rst_kind: d.rst_kind,
                rst_pol: d.rst_pol,
                has_rst: keep_rst,
                has_en: keep_en,
                has_data: true,
            };
            let mut inputs: Vec<Port> = Vec::new();
            inputs.push(di.clk);
            if keep_rst {
                match &di.rst {
                    Some(rp) => inputs.push(*rp),
                    None => {},
                }
            }
            if keep_en {
                match &di.en {
                    Some(ep) => inputs.push(*ep),
                    None => {},
                }
            }
            inputs.push(di.init);
            inputs.push(di.data);
            proof {
                lemma_dff_ports_valid(*m, node_id, di);
            }
            let ghost before = *m;
            let ghost pre_rep = *m;
            m.replace_node(node_id, Node { kind: NodeKind::DFF(new_d), outputs, skip }, &inputs);
            proof {
                let dropped_es = spec_dropped_inputs(pre_rep.graph.edges@, node_id);
                let added = Seq::new(
                    inputs@.len() as nat,
                    |k: int| crate::graph::Edge {
                        port_out: inputs@[k],
                        port_in: Port { node: node_id, port: k as usize },
                    },
                );
                assert(m.graph.edges@ == dropped_es + added);
                lemma_someness_dropped(pre_rep.graph.edges@, node_id);
                assert forall|n: usize, p: usize| n != node_id implies ((#[trigger] first_input(
                    m.graph.edges@,
                    n,
                    p,
                )) is Some <==> first_input(pre_rep.graph.edges@, n, p) is Some) by {
                    assert(forall|j: int|
                        0 <= j < added.len() ==> (#[trigger] added[j]).port_in.node != n);
                    crate::graph::lemma_first_input_append_foreign(dropped_es, added, n, p);
                    assert(first_input(dropped_es, n, p) == first_input(
                        pre_rep.graph.edges@,
                        n,
                        p,
                    ));
                }
            }
            proof {
                assert forall|q: Port| before.port_valid(q) implies m.port_valid(q) by {
                    assert(m.graph.nodes@[q.node as int].outputs.len()
                        == before.graph.nodes@[q.node as int].outputs.len());
                }
            }
            true
        } else if true_rst || false_en {
            let mut ports: Vec<Port> = Vec::new();
            ports.push(di.init);
            proof {
                assert(ports@ =~= seq![di.init]);
                assert(m.port_valid(di.init));
            }
            let ghost pre_rc = *m;
            m.reconnect_all_outgoing(node_id, &ports);
            proof {
                assert(m.graph.edges@ == redirect_edges_spec(pre_rc.graph.edges@, node_id, ports@));
                lemma_someness_redirect(pre_rc.graph.edges@, node_id, ports@);
            }
            false
        } else {
            false
        }
    }
}

/// The producers a register reads are valid ports of a well-formed module.
proof fn lemma_dff_ports_valid(m: Module, node_id: usize, di: crate::module::DFFInputs)
    requires
        m.wf(),
        node_id < m.graph.nodes.len(),
        m.graph.nodes[node_id as int].kind matches NodeKind::DFF(d) && {
            &&& first_input(m.graph.edges@, node_id, 0) == Some(di.clk)
            &&& (d.has_rst ==> first_input(m.graph.edges@, node_id, d.rst_pos_spec()) == di.rst)
            &&& (d.has_en ==> first_input(m.graph.edges@, node_id, d.en_pos_spec()) == di.en)
            &&& first_input(m.graph.edges@, node_id, d.init_pos_spec()) == Some(di.init)
            &&& first_input(m.graph.edges@, node_id, d.data_pos_spec()) == Some(di.data)
            &&& (d.has_rst <==> di.rst is Some)
            &&& (d.has_en <==> di.en is Some)
        },
    ensures
        m.port_valid(di.clk),
        di.rst matches Some(p) ==> m.port_valid(p),
        di.en matches Some(p) ==> m.port_valid(p),
        m.port_valid(di.init),
        m.port_valid(di.data),
{
    let d = m.graph.nodes[node_id as int].kind->DFF_0;
    lemma_first_input_valid(m, node_id, 0);
    lemma_first_input_valid(m, node_id, d.rst_pos_spec());
    lemma_first_input_valid(m, node_id, d.en_pos_spec());
    lemma_first_input_valid(m, node_id, d.init_pos_spec());
    lemma_first_input_valid(m, node_id, d.data_pos_spec());
}

/// A first input found in a well-formed module is a valid port.
proof fn lemma_first_input_valid(m: Module, node_id: usize, pos: usize)
    requires
        m.wf(),
    ensures
        first_input(m.graph.edges@, node_id, pos) matches Some(p) ==> m.port_valid(p),
{
    crate::graph::lemma_first_input_is_input(m.graph.edges@, node_id, pos);
    match first_input(m.graph.edges@, node_id, pos) {
        Some(p) => {
            let es = m.graph.edges@;
            let j = choose|j: int|
                0 <= j < es.len() && (#[trigger] es[j]).port_in.node == node_id
                    && es[j].port_in.port == pos && es[j].port_out == p;
            assert(m.port_valid(es[j].port_out));
        },
        None => {},
    }
}


/// The instantiation rules: a target whose outputs are all constants folds
/// the whole instantiation to the matching multi-valued constant (and asks
/// for no inlining); otherwise the configured policy alone decides whether
/// to inline — always, never, or by the documented heuristics.
pub open spec fn mod_inst_rules(
    a: NetList,
    b: NetList,
    mod_id: usize,
    node_id: usize,
    tgt: usize,
    inline: bool,
) -> bool {
    let caller = a.modules[mod_id as int];
    let target = a.modules[tgt as int];
    let all_const = forall|k: int|
        0 <= k < target.mod_outputs.len() ==> target.const_of(
            #[trigger] target.mod_outputs@[k],
        ) is Some;
    let fold = all_const && target.mod_outputs.len()
        == caller.graph.nodes[node_id as int].outputs.len();
    &&& (fold ==> folded_to_multi_const(
        caller,
        b.modules[mod_id as int],
        node_id,
        Seq::new(
            caller.graph.nodes[node_id as int].outputs.len() as nat,
            |k: int| target.const_of(target.mod_outputs@[k])->Some_0.val,
        ),
    ) && inline == false)
    &&& (!fold ==> b == a)
    &&& (!fold ==> inline == (match a.cfg.inline_mod {
        InlineMod::All => true,
        InlineMod::Never => false,
        InlineMod::Auto => target.inline || caller.mod_inputs.len() == 0
            || caller.mod_outputs.len() == 0 || target.graph.nodes.len()
            <= NODES_LIMIT_TO_INLINE || (forall|i: int|
            0 <= i < caller.graph.edges.len() && (#[trigger] caller.graph.edges@[i]).port_in.node
                == node_id ==> caller.const_of(caller.graph.edges@[i].port_out) is Some),
    }))
}

/// A single-output node whose first input resolves to a constant: the
/// constant-fold trigger shared by several kinds.
pub open spec fn const_fold_applies(m: Module, node_id: usize) -> bool {
    m.graph.nodes[node_id as int].outputs.len() == 1 && const_input_at(m, node_id, 0) is Some
}

/// The trigger for eliminating an identity buffer by reconnection.
pub open spec fn pass_elim_applies(m: Module, node_id: usize) -> bool {
    match first_input(m.graph.edges@, node_id, 0) {
        Some(src) => m.graph.nodes[node_id as int].outputs.len() == 1 && m.const_of(src) is None
            && !m.mod_outputs@.contains(Port { node: node_id, port: 0 })
            && !m.mod_inputs@.contains(src) && m.port_width_spec(src)
            == m.graph.nodes[node_id as int].outputs[0].ty.width_spec(),
        None => false,
    }
}

/// The trigger for eliminating a non-widening extension by reconnection.
pub open spec fn extend_elim_applies(m: Module, node_id: usize) -> bool {
    match first_input(m.graph.edges@, node_id, 0) {
        Some(src) => m.graph.nodes[node_id as int].outputs.len() == 1 && m.const_of(src) is None
            && m.port_width_spec(src)
            == m.graph.nodes[node_id as int].outputs[0].ty.width_spec(),
        None => false,
    }
}

/// The trigger for folding a dyadic operation over two constants.
pub open spec fn bin_op_fold_applies(m: Module, node_id: usize) -> bool {
    match (const_input_at(m, node_id, 0), const_input_at(m, node_id, 1)) {
        (Some(x), Some(y)) => m.graph.nodes[node_id as int].outputs.len() == 1 && x.width
            == y.width,
        _ => false,
    }
}

/// The trigger for folding a concatenation of constants.
pub open spec fn merger_fold_applies(m: Module, node_id: usize) -> bool {
    match m.graph.nodes[node_id as int].kind {
        NodeKind::Merger(mg) => m.graph.nodes[node_id as int].outputs.len() == 1 && merger_fold(
            m,
            node_id,
            mg.inputs as int,
        ) is Some,
        _ => false,
    }
}

/// The trigger for cancelling a merger/splitter pair.
pub open spec fn cancel_applies(m: Module, node_id: usize) -> bool {
    match m.graph.nodes[node_id as int].kind {
        NodeKind::Splitter(sp) => (match first_input(m.graph.edges@, node_id, 0) {
            Some(src) => !crate::module::splitter_full_range(m, node_id) && m.const_of(
                src,
            ) is None && (match m.graph.nodes[src.node as int].kind {
                NodeKind::Merger(mg) => mg.rev != sp.rev
                    && crate::module::merger_splitter_reversible(m, src.node, node_id),
                _ => false,
            }),
            None => false,
        }),
        _ => false,
    }
}

/// The trigger for redirecting a switch with a single case.
pub open spec fn single_case_applies(m: Module, node_id: usize) -> bool {
    m.graph.nodes[node_id as int].kind matches NodeKind::Switch(sw) && sw.cases.len() == 1
        && all_present(single_case_ports(m, node_id))
}

/// Every per-kind rewrite rule, as one relation between the module before
/// and after one node visit. Each clause is guarded by the node's old kind,
/// so for any one node exactly one group applies and the rest hold vacuously.
pub open spec fn transform_rules_hold(a: Module, b: Module, node_id: usize) -> bool {
    &&& (a.graph.nodes[node_id as int].kind is Input ==> b == a)
    &&& (a.graph.nodes[node_id as int].kind is Const ==> b.graph.nodes == a.graph.nodes
        && exists|q: Port|
        b.graph.edges@ == crate::graph::reconnect_edges_spec(
            a.graph.edges@,
            Port { node: node_id, port: 0 },
            q,
        ))
    &&& (a.graph.nodes[node_id as int].kind is MultiConst ==> b.graph.nodes == a.graph.nodes)
    &&& (a.graph.nodes[node_id as int].kind is Pass ==> {
        &&& (a.graph.nodes[node_id as int].outputs.len() == 1 ==> (const_input_at(
            a,
            node_id,
            0,
        ) matches Some(c) ==> folded_to_const(a, b, node_id, c.val)))
        &&& (match first_input(a.graph.edges@, node_id, 0) {
            Some(src) => a.graph.nodes[node_id as int].outputs.len() == 1 && a.const_of(
                src,
            ) is None && !a.mod_outputs@.contains(Port { node: node_id, port: 0 })
                && !a.mod_inputs@.contains(src) && a.port_width_spec(src)
                == a.graph.nodes[node_id as int].outputs[0].ty.width_spec()
                ==> eliminated_by_reconnect(a, b, node_id, src),
            None => true,
        })
    })
    &&& (a.graph.nodes[node_id as int].kind is BitNot ==> (a.graph.nodes[node_id as int].outputs.len()
        == 1 ==> (const_input_at(a, node_id, 0) matches Some(c) ==> folded_to_const(
        a,
        b,
        node_id,
        ConstVal::mk(!c.val, c.width).val,
    ))))
    &&& (match a.graph.nodes[node_id as int].kind {
        NodeKind::BinOp(bo) => (match (const_input_at(a, node_id, 0), const_input_at(
            a,
            node_id,
            1,
        )) {
            (Some(x), Some(y)) => a.graph.nodes[node_id as int].outputs.len() == 1 && x.width
                == y.width ==> {
                &&& (crate::const_val::bin_op_in_range(x, y, bo.bin_op) ==> folded_to_const(
                    a,
                    b,
                    node_id,
                    crate::const_val::eval_bin_op_spec(x, y, bo.bin_op).val,
                ))
                &&& (!crate::const_val::bin_op_in_range(x, y, bo.bin_op) ==> b == a)
            },
            _ => true,
        }),
        _ => true,
    })
    &&& (match a.graph.nodes[node_id as int].kind {
        NodeKind::Merger(mg) => a.graph.nodes[node_id as int].outputs.len() == 1 ==> (merger_fold(
            a,
            node_id,
            mg.inputs as int,
        ) matches Some(c) ==> folded_to_const(a, b, node_id, c.val)),
        _ => true,
    })
    &&& (a.graph.nodes[node_id as int].kind is Extend ==> {
        &&& (a.graph.nodes[node_id as int].outputs.len() == 1 ==> (const_input_at(
            a,
            node_id,
            0,
        ) matches Some(c) ==> folded_to_const(a, b, node_id, c.val)))
        &&& (match first_input(a.graph.edges@, node_id, 0) {
            Some(src) => a.graph.nodes[node_id as int].outputs.len() == 1 && a.const_of(
                src,
            ) is None && a.port_width_spec(src)
                == a.graph.nodes[node_id as int].outputs[0].ty.width_spec()
                ==> eliminated_by_reconnect(a, b, node_id, src),
            None => true,
        })
    })
    &&& (crate::module::splitter_full_range(a, node_id) ==> eliminated_by_reconnect(
        a,
        b,
        node_id,
        first_input(a.graph.edges@, node_id, 0)->Some_0,
    ))
    &&& (splitter_const_fold_applies(a, node_id) ==> folded_to_multi_const(
        a,
        b,
        node_id,
        Seq::new(
            a.graph.nodes[node_id as int].outputs.len() as nat,
            |k: int| splitter_slice_value(a, node_id, k),
        ),
    ))
    &&& (match a.graph.nodes[node_id as int].kind {
        NodeKind::Splitter(sp) => (match first_input(a.graph.edges@, node_id, 0) {
            Some(src) => (!crate::module::splitter_full_range(a, node_id) && a.const_of(
                src,
            ) is None) ==> (match a.graph.nodes[src.node as int].kind {
                NodeKind::Merger(mg) => (mg.rev != sp.rev
                    && crate::module::merger_splitter_reversible(a, src.node, node_id))
                    ==> crate::module::cancellation_spec(a, b, src.node, node_id),
                _ => true,
            }),
            None => true,
        }),
        _ => true,
    })
    &&& ((a.graph.nodes[node_id as int].kind matches NodeKind::Switch(sw) && sw.cases.len() == 1
        && all_present(single_case_ports(a, node_id))) ==> reconnected_to(
        a,
        b,
        node_id,
        unwrap_ports(single_case_ports(a, node_id)),
    ))
    &&& (switch_const_sel_applies(a, node_id) ==> reconnected_to(
        a,
        b,
        node_id,
        unwrap_ports(case_ports(a, node_id, switch_matched_case(a, node_id))),
    ))
    &&& (dff_reset_collapse_applies(a, node_id) ==> reconnected_to(
        a,
        b,
        node_id,
        seq![dff_init_port(a, node_id)],
    ))
    &&& (dff_dead_enable_applies(a, node_id) ==> reconnected_to(
        a,
        b,
        node_id,
        seq![dff_init_port(a, node_id)],
    ))
    &&& (a.graph.nodes[node_id as int].kind is Pass ==> ((!const_fold_applies(a, node_id)
        && !pass_elim_applies(a, node_id)) ==> b == a))
    &&& (a.graph.nodes[node_id as int].kind is BitNot ==> (!const_fold_applies(a, node_id) ==> b
        == a))
    &&& (a.graph.nodes[node_id as int].kind is BinOp ==> (!bin_op_fold_applies(a, node_id) ==> b
        == a))
    &&& (a.graph.nodes[node_id as int].kind is Merger ==> (!merger_fold_applies(a, node_id) ==> b
        == a))
    &&& (a.graph.nodes[node_id as int].kind is Extend ==> ((!const_fold_applies(a, node_id)
        && !extend_elim_applies(a, node_id)) ==> b == a))
    &&& (a.graph.nodes[node_id as int].kind is Splitter ==> ((!crate::module::splitter_full_range(
        a,
        node_id,
    ) && !splitter_const_fold_applies(a, node_id) && !cancel_applies(a, node_id)) ==> b == a))
    &&& (a.graph.nodes[node_id as int].kind is Switch ==> ((!single_case_applies(a, node_id)
        && !switch_const_sel_applies(a, node_id)) ==> b == a))
    &&& (a.graph.nodes[node_id as int].kind is DFF ==> (!dff_const_ctrl(a, node_id) ==> b == a))
    &&& (a.graph.nodes[node_id as int].kind is DFF ==> {
        &&& b.graph.nodes.len() == a.graph.nodes.len()
        &&& (forall|n: int|
            0 <= n < a.graph.nodes.len() && n != node_id ==> b.graph.nodes@[n]
                == a.graph.nodes@[n])
        &&& b.graph.nodes[node_id as int].kind is DFF
        &&& (forall|n: usize, p: usize|
            #![trigger first_input(b.graph.edges@, n, p)]
            n != node_id ==> (first_input(b.graph.edges@, n, p) is Some <==> first_input(
                a.graph.edges@,
                n,
                p,
            ) is Some))
    })
    &&& (a.graph.nodes[node_id as int].kind is MultiConst ==> (forall|n: usize, p: usize|
        #![trigger first_input(b.graph.edges@, n, p)]
        (first_input(b.graph.edges@, n, p) is Some <==> first_input(
            a.graph.edges@,
            n,
            p,
        ) is Some)))
}

/// The per-kind rules pin every rewrite to a splice-free shape: whatever one
/// visit of a non-instantiation node does, no instantiation is created,
/// dismantled or unwired by it.
pub proof fn lemma_rules_no_splice(a: Module, b: Module, node_id: usize)
    requires
        node_id < a.graph.nodes.len(),
        !(a.graph.nodes[node_id as int].kind is ModInst),
        transform_rules_hold(a, b, node_id),
    ensures
        no_splice(a, b),
{
    let pt = Port { node: node_id, port: 0 };
    match a.graph.nodes[node_id as int].kind {
        NodeKind::Input(_) => {},
        NodeKind::Const(_) => {
            let q = choose|q: Port|
                b.graph.edges@ == crate::graph::reconnect_edges_spec(a.graph.edges@, pt, q);
            lemma_someness_reconnect(a.graph.edges@, pt, q);
        },
        NodeKind::MultiConst(_) => {},
        NodeKind::Pass(_) => {
            if const_fold_applies(a, node_id) {
                lemma_no_splice_of_fold(a, b, node_id);
            } else if pass_elim_applies(a, node_id) {
                let src = first_input(a.graph.edges@, node_id, 0)->Some_0;
                lemma_no_splice_of_elim(a, b, node_id, src);
            }
        },
        NodeKind::BitNot(_) => {
            if const_fold_applies(a, node_id) {
                lemma_no_splice_of_fold(a, b, node_id);
            }
        },
        NodeKind::BinOp(_) => {
            if bin_op_fold_applies(a, node_id) {
                let x = const_input_at(a, node_id, 0)->Some_0;
                let y = const_input_at(a, node_id, 1)->Some_0;
                let bo = a.graph.nodes[node_id as int].kind->BinOp_0;
                if crate::const_val::bin_op_in_range(x, y, bo.bin_op) {
                    lemma_no_splice_of_fold(a, b, node_id);
                }
            }
        },
        NodeKind::Merger(_) => {
            if merger_fold_applies(a, node_id) {
                lemma_no_splice_of_fold(a, b, node_id);
            }
        },
        NodeKind::Extend(_) => {
            if const_fold_applies(a, node_id) {
                lemma_no_splice_of_fold(a, b, node_id);
            } else if extend_elim_applies(a, node_id) {
                let src = first_input(a.graph.edges@, node_id, 0)->Some_0;
                lemma_no_splice_of_elim(a, b, node_id, src);
            }
        },
        NodeKind::Splitter(_) => {
            if crate::module::splitter_full_range(a, node_id) {
                let src = first_input(a.graph.edges@, node_id, 0)->Some_0;
                lemma_no_splice_of_elim(a, b, node_id, src);
            } else if splitter_const_fold_applies(a, node_id) {
            } else if cancel_applies(a, node_id) {
                lemma_no_splice_of_cancel(a, b, node_id);
            }
        },
        NodeKind::Switch(_) => {
            if single_case_applies(a, node_id) {
                lemma_someness_redirect(
                    a.graph.edges@,
                    node_id,
                    unwrap_ports(single_case_ports(a, node_id)),
                );
            } else if switch_const_sel_applies(a, node_id) {
                lemma_someness_redirect(
                    a.graph.edges@,
                    node_id,
                    unwrap_ports(case_ports(a, node_id, switch_matched_case(a, node_id))),
                );
            }
        },
        NodeKind::DFF(_) => {},
        NodeKind::ModInst(_) => {},
    }
}

/// A constant fold at one node splices nothing.
proof fn lemma_no_splice_of_fold(a: Module, b: Module, node_id: usize)
    requires
        node_id < a.graph.nodes.len(),
        exists|v: u128| folded_to_const(a, b, node_id, v),
    ensures
        no_splice(a, b),
{
    let v = choose|v: u128| folded_to_const(a, b, node_id, v);
    let pt = Port { node: node_id, port: 0 };
    let q = choose|q: Port|
        b.graph.edges@ == crate::graph::reconnect_edges_spec(
            #[trigger] spec_dropped_inputs(a.graph.edges@, node_id),
            pt,
            q,
        );
    lemma_someness_dropped(a.graph.edges@, node_id);
    lemma_someness_reconnect(spec_dropped_inputs(a.graph.edges@, node_id), pt, q);
    assert forall|n: usize, p: usize|
        (n as int) < b.graph.nodes.len() && b.graph.nodes[n as int].kind is ModInst implies ((
    #[trigger] first_input(b.graph.edges@, n, p)) is Some <==> first_input(
        a.graph.edges@,
        n,
        p,
    ) is Some) by {
        assert(n != node_id);
        assert(first_input(b.graph.edges@, n, p) is Some <==> first_input(
            spec_dropped_inputs(a.graph.edges@, node_id),
            n,
            p,
        ) is Some);
    }
}

/// An elimination by reconnection splices nothing.
proof fn lemma_no_splice_of_elim(a: Module, b: Module, node_id: usize, src: Port)
    requires
        node_id < a.graph.nodes.len(),
        !(a.graph.nodes[node_id as int].kind is ModInst),
        eliminated_by_reconnect(a, b, node_id, src),
    ensures
        no_splice(a, b),
{
    lemma_someness_redirect(a.graph.edges@, node_id, seq![src]);
    lemma_someness_dropped(
        crate::module::redirect_edges_spec(a.graph.edges@, node_id, seq![src]),
        node_id,
    );
    assert forall|n: usize, p: usize|
        (n as int) < b.graph.nodes.len() && b.graph.nodes[n as int].kind is ModInst implies ((
    #[trigger] first_input(b.graph.edges@, n, p)) is Some <==> first_input(
        a.graph.edges@,
        n,
        p,
    ) is Some) by {
        assert(n != node_id);
        assert(first_input(b.graph.edges@, n, p) == first_input(
            crate::module::redirect_edges_spec(a.graph.edges@, node_id, seq![src]),
            n,
            p,
        ));
    }
}

/// A merger/splitter cancellation splices nothing: it appends identity
/// buffers only.
proof fn lemma_no_splice_of_cancel(a: Module, b: Module, node_id: usize)
    requires
        node_id < a.graph.nodes.len(),
        cancel_applies(a, node_id),
        (match first_input(a.graph.edges@, node_id, 0) {
            Some(src) => crate::module::cancellation_spec(a, b, src.node, node_id),
            None => false,
        }),
    ensures
        no_splice(a, b),
{
    let src = first_input(a.graph.edges@, node_id, 0)->Some_0;
    let m_outs = a.graph.nodes[node_id as int].outputs.len() as int;
    let old_len = a.graph.nodes.len() as int;
    let pass_seq = Seq::new(m_outs as nat, |k: int| Port { node: (old_len + k) as usize, port: 0 });
    let added_seq = Seq::new(
        m_outs as nat,
        |k: int| crate::graph::Edge {
            port_out: first_input(a.graph.edges@, src.node, k as usize)->Some_0,
            port_in: Port { node: (old_len + k) as usize, port: 0 },
        },
    );
    lemma_someness_redirect(a.graph.edges@ + added_seq, node_id, pass_seq);
    assert forall|n: usize, p: usize|
        (n as int) < b.graph.nodes.len() && b.graph.nodes[n as int].kind is ModInst implies ((
    #[trigger] first_input(b.graph.edges@, n, p)) is Some <==> first_input(
        a.graph.edges@,
        n,
        p,
    ) is Some) by {
        if (n as int) >= old_len {
            let k = n as int - old_len;
            assert(b.graph.nodes@[old_len + k].kind == NodeKind::Pass(
                crate::node::PassNode {  },
            ));
            assert(false);
        }
        assert(first_input(b.graph.edges@, n, p) is Some <==> first_input(
            a.graph.edges@ + added_seq,
            n,
            p,
        ) is Some);
        assert(forall|j: int|
            0 <= j < added_seq.len() ==> (#[trigger] added_seq[j]).port_in.node != n);
        crate::graph::lemma_first_input_append_foreign(a.graph.edges@, added_seq, n, p);
    }
    assert forall|n: int| old_len <= n < b.graph.nodes.len() implies ((
    #[trigger] b.graph.nodes[n]).kind is Pass || b.graph.nodes[n].kind is Const) by {
        let k = n - old_len;
        assert(b.graph.nodes@[old_len + k].kind == NodeKind::Pass(crate::node::PassNode {  }));
    }
    assert forall|n: int|
        0 <= n < b.graph.nodes.len() && (#[trigger] b.graph.nodes[n]).kind is ModInst implies n
        < a.graph.nodes.len() && a.graph.nodes[n].kind == b.graph.nodes[n].kind by {
        if n >= old_len {
            let k = n - old_len;
            assert(b.graph.nodes@[old_len + k].kind == NodeKind::Pass(
                crate::node::PassNode {  },
            ));
        } else {
            assert(b.graph.nodes@[n] == a.graph.nodes@[n]);
        }
    }
}

/// Which rewrite a node kind selects.
#[derive(Clone, Copy, PartialEq, Eq, Structural, Debug)]
enum KindTag {
    TagInput,
    TagConst,
    TagMultiConst,
    TagPass,
    TagMerger,
    TagSplitter,
    TagExtend,
    TagBinOp,
    TagBitNot,
    TagSwitch,
    TagDff,
    TagModInst,
}

impl Transform {
    /// Decides and applies the per-kind rewrite for one node. Returns whether
    /// the node is an instantiation the policy wants inlined (the caller then
    /// spends budget and splices). Never grows or shrinks the node list.
    pub fn transform_node(&mut self, netlist: &mut NetList, mod_id: usize, node_id: usize) -> (inline: bool)
        requires
            old(netlist).wf(),
            mod_id < old(netlist).modules.len(),
            node_id < old(netlist).modules[mod_id as int].graph.nodes.len(),
            cons_ok(old(self).cons@, *old(netlist)),
        ensures
            final(netlist).wf(),
            final(netlist).modules.len() == old(netlist).modules.len(),
            final(netlist).cfg == old(netlist).cfg,
            final(netlist).top == old(netlist).top,
            forall|mm: int|
                0 <= mm < old(netlist).modules.len() && mm != mod_id ==> final(netlist).modules@[mm]
                    == old(netlist).modules@[mm],
            insts_kept_or_folded(
                old(netlist).modules[mod_id as int],
                final(netlist).modules[mod_id as int],
            ),
            final(netlist).modules[mod_id as int].mod_inputs
                == old(netlist).modules[mod_id as int].mod_inputs,
            final(netlist).modules[mod_id as int].same_meta(old(netlist).modules[mod_id as int]),
            cons_ok(final(self).cons@, *final(netlist)),
            final(self).max_inlines == old(self).max_inlines,
            inline ==> old(netlist).cfg.inline_mod != InlineMod::Never
                && old(netlist).modules[mod_id as int].graph.nodes[node_id as int].kind is ModInst,
            (old(netlist).modules[mod_id as int].graph.nodes[node_id as int].kind matches
                NodeKind::Switch(sw) && sw.cases.len() == 1 && all_present(
                single_case_ports(old(netlist).modules[mod_id as int], node_id),
            )) ==> final(netlist).modules[mod_id as int].graph.edges@ == redirect_edges_spec(
                old(netlist).modules[mod_id as int].graph.edges@,
                node_id,
                unwrap_ports(single_case_ports(old(netlist).modules[mod_id as int], node_id)),
            ),
            dff_reset_collapse_applies(old(netlist).modules[mod_id as int], node_id)
                ==> final(netlist).modules[mod_id as int].graph.edges@ == redirect_edges_spec(
                old(netlist).modules[mod_id as int].graph.edges@,
                node_id,
                seq![dff_init_port(old(netlist).modules[mod_id as int], node_id)],
            ),
            transform_rules_hold(
                old(netlist).modules[mod_id as int],
                final(netlist).modules[mod_id as int],
                node_id,
            ),
            (match old(netlist).modules[mod_id as int].graph.nodes[node_id as int].kind {
                NodeKind::ModInst(mi) => mi.mod_id != mod_id && mi.mod_id < old(
                    netlist,
                ).modules.len() ==> mod_inst_rules(
                    *old(netlist),
                    *final(netlist),
                    mod_id,
                    node_id,
                    mi.mod_id,
                    inline,
                ),
                _ => true,
            }),
            (match old(netlist).modules[mod_id as int].graph.nodes[node_id as int].kind {
                NodeKind::ModInst(mi) => (mi.mod_id == mod_id || mi.mod_id >= old(
                    netlist,
                ).modules.len()) ==> *final(netlist) == *old(netlist),
                _ => true,
            }),
            no_splice(
                old(netlist).modules[mod_id as int],
                final(netlist).modules[mod_id as int],
            ),
    {
        let no_elim = netlist.cfg.no_eliminate_const;
        let tag = match &netlist.modules[mod_id].graph.nodes[node_id].kind {
            NodeKind::Input(_) => KindTag::TagInput,
            NodeKind::Const(_) => KindTag::TagConst,
            NodeKind::MultiConst(_) => KindTag::TagMultiConst,
            NodeKind::Pass(_) => KindTag::TagPass,
            NodeKind::Merger(_) => KindTag::TagMerger,
            NodeKind::Splitter(_) => KindTag::TagSplitter,
            NodeKind::Extend(_) => KindTag::TagExtend,
            NodeKind::BinOp(_) => KindTag::TagBinOp,
            NodeKind::BitNot(_) => KindTag::TagBitNot,
            NodeKind::Switch(_) => KindTag::TagSwitch,
            NodeKind::DFF(_) => KindTag::TagDff,
            NodeKind::ModInst(_) => KindTag::TagModInst,
        };
        if tag == KindTag::TagModInst {
            return self.handle_mod_inst(netlist, mod_id, node_id);
        }
        let ghost pre = *netlist;
        let m = &mut netlist.modules[mod_id];
        proof {
            assert(forall|i: int|
                0 <= i < self.cons.len() && (#[trigger] self.cons@[i]).mod_id == mod_id
                    ==> m.port_valid(self.cons@[i].port));
        }
        match tag {
            KindTag::TagPass => {
                self.fold_pass(m, mod_id, node_id);
            },
            KindTag::TagConst => {
                if !no_elim && m.graph.nodes[node_id].outputs.len() == 1 {
                    let w = m.graph.nodes[node_id].outputs[0].ty.width();
                    let value = match &m.graph.nodes[node_id].kind {
                        NodeKind::Const(c) => c.value,
                        _ => 0,
                    };
                    if w <= 128 {
                        let v = ConstVal::new(value, w);
                        self.eliminate_const(m, mod_id, v, Port { node: node_id, port: 0 });
                    }
                }
                proof {
                    assert(m.graph.edges@ =~= crate::graph::reconnect_edges_spec(
                        m.graph.edges@,
                        Port { node: node_id, port: 0 },
                        Port { node: node_id, port: 0 },
                    ));
                }
            },
            KindTag::TagMultiConst => {
                if !no_elim {
                    self.eliminate_multi_const(m, mod_id, node_id);
                }
            },
            KindTag::TagBitNot => {
                self.fold_bit_not(m, mod_id, node_id);
            },
            KindTag::TagBinOp => {
                self.fold_bin_op(m, mod_id, node_id);
            },
            KindTag::TagMerger => {
                self.fold_merger(m, mod_id, node_id);
            },
            KindTag::TagSplitter => {
                self.fold_splitter(m, mod_id, node_id);
            },
            KindTag::TagExtend => {
                self.fold_extend(m, mod_id, node_id);
            },
            KindTag::TagSwitch => {
                self.fold_switch(m, mod_id, node_id);
            },
            KindTag::TagDff => {
                self.fold_dff(m, mod_id, node_id);
            },
            _ => {},
        }
        proof {
            assert(final(netlist).modules@ == pre.modules@.update(mod_id as int, *final(m)));
            lemma_rules_no_splice(pre.modules[mod_id as int], *final(m), node_id);
        }
        false
    }

    /// An instantiation whose target's outputs are all constants folds to a
    /// multi-valued constant; otherwise the inlining policy decides whether
    /// to splice it.
    fn handle_mod_inst(&mut self, netlist: &mut NetList, mod_id: usize, node_id: usize) -> (inline: bool)
        requires
            old(netlist).wf(),
            mod_id < old(netlist).modules.len(),
            node_id < old(netlist).modules[mod_id as int].graph.nodes.len(),
            old(netlist).modules[mod_id as int].graph.nodes[node_id as int].kind is ModInst,
            cons_ok(old(self).cons@, *old(netlist)),
        ensures
            final(netlist).wf(),
            final(netlist).modules.len() == old(netlist).modules.len(),
            final(netlist).cfg == old(netlist).cfg,
            final(netlist).top == old(netlist).top,
            forall|mm: int|
                0 <= mm < old(netlist).modules.len() && mm != mod_id ==> final(netlist).modules@[mm]
                    == old(netlist).modules@[mm],
            insts_kept_or_folded(
                old(netlist).modules[mod_id as int],
                final(netlist).modules[mod_id as int],
            ),
            final(netlist).modules[mod_id as int].mod_inputs
                == old(netlist).modules[mod_id as int].mod_inputs,
            final(netlist).modules[mod_id as int].same_meta(old(netlist).modules[mod_id as int]),
            cons_ok(final(self).cons@, *final(netlist)),
            final(self).max_inlines == old(self).max_inlines,
            inline ==> old(netlist).cfg.inline_mod != InlineMod::Never,
            (match old(netlist).modules[mod_id as int].graph.nodes[node_id as int].kind {
                NodeKind::ModInst(mi) => mi.mod_id != mod_id && mi.mod_id < old(
                    netlist,
                ).modules.len() ==> mod_inst_rules(
                    *old(netlist),
                    *final(netlist),
                    mod_id,
                    node_id,
                    mi.mod_id,
                    inline,
                ),
                _ => true,
            }),
            (match old(netlist).modules[mod_id as int].graph.nodes[node_id as int].kind {
                NodeKind::ModInst(mi) => (mi.mod_id == mod_id || mi.mod_id >= old(
                    netlist,
                ).modules.len()) ==> *final(netlist) == *old(netlist),
                _ => true,
            }),
            no_splice(
                old(netlist).modules[mod_id as int],
                final(netlist).modules[mod_id as int],
            ),
    {
        let ghost inst_rules_target = (match old(
            netlist,
        ).modules[mod_id as int].graph.nodes[node_id as int].kind {
            NodeKind::ModInst(mi) => mi.mod_id,
            _ => 0,
        });
        let no_elim = netlist.cfg.no_eliminate_const;
        let policy = netlist.cfg.inline_mod;
        let tgt = match netlist.modules[mod_id].node(node_id).mod_inst_target() {
            Some(t) => t,
            None => {
                return false;
            },
        };
        if tgt == mod_id || tgt >= netlist.modules.len() {
            return false;
        }
        // Read everything the decision needs from the target first.
        let (all_const, tgt_inline, tgt_count, tgt_out_count) = {
            let target = &netlist.modules[tgt];
            (target.has_const_outputs(), target.inline, target.node_count(), target.mod_out_count())
        };
        let n_outs = netlist.modules[mod_id].graph.nodes[node_id].outputs.len();
        if all_const && tgt_out_count == n_outs {
            // Fold the whole instantiation to a multi-valued constant, one
            // value per target output, keeping this node's own output types.
            let mut values: Vec<u128> = Vec::new();
            let mut k: usize = 0;
            while k < n_outs
                invariant
                    k <= n_outs,
                    values.len() == k,
                    *netlist == *old(netlist),
                    old(netlist).wf(),
                    tgt < netlist.modules.len(),
                    tgt_out_count == netlist.modules[tgt as int].mod_outputs.len(),
                    tgt_out_count == n_outs,
                    forall|j: int|
                        0 <= j < netlist.modules[tgt as int].mod_outputs.len() ==> netlist.modules[tgt as int].const_of(
                            #[trigger] netlist.modules[tgt as int].mod_outputs@[j],
                        ) is Some,
                    forall|j: int|
                        0 <= j < k ==> (#[trigger] values@[j]) == netlist.modules[tgt as int].const_of(
                            netlist.modules[tgt as int].mod_outputs@[j],
                        )->Some_0.val,
                decreases n_outs - k,
            {
                let target = &netlist.modules[tgt];
                let port = target.mod_outputs[k];
                let v = match target.to_const(port) {
                    Some(v) => v,
                    None => {
                        return false;
                    },
                };
                values.push(v.val());
                k = k + 1;
            }
            let ghost pre = *netlist;
            let m = &mut netlist.modules[mod_id];
            proof {
                assert(forall|i: int|
                    0 <= i < self.cons.len() && (#[trigger] self.cons@[i]).mod_id == mod_id
                        ==> m.port_valid(self.cons@[i].port));
            }
            let mut outputs: Vec<NodeOutput> = Vec::new();
            let mut k2: usize = 0;
            while k2 < n_outs
                invariant
                    k2 <= n_outs,
                    outputs.len() == k2,
                    node_id < m.graph.nodes.len(),
                    n_outs == m.graph.nodes[node_id as int].outputs.len(),
                    *m == pre.modules[mod_id as int],
                    forall|j: int|
                        0 <= j < k2 ==> (#[trigger] outputs@[j])
                            == m.graph.nodes[node_id as int].outputs@[j],
                decreases n_outs - k2,
            {
                outputs.push(m.graph.nodes[node_id].outputs[k2].duplicate());
                k2 = k2 + 1;
            }
            let ghost before = *m;
            let empty: Vec<Port> = Vec::new();
            m.replace_node(
                node_id,
                Node::new(NodeKind::MultiConst(MultiConst { values }), outputs),
                &empty,
            );
            proof {
                assert forall|q: Port| before.port_valid(q) implies m.port_valid(q) by {
                    assert(m.graph.nodes@[q.node as int].outputs.len()
                        == before.graph.nodes@[q.node as int].outputs.len());
                }
            }
            proof {
                assert(m.graph.edges@ =~= spec_dropped_inputs(before.graph.edges@, node_id));
                lemma_someness_dropped(before.graph.edges@, node_id);
                assert forall|n: usize, p2: usize| n != node_id implies ((#[trigger] first_input(
                    m.graph.edges@,
                    n,
                    p2,
                )) is Some <==> first_input(before.graph.edges@, n, p2) is Some) by {
                    assert(first_input(spec_dropped_inputs(before.graph.edges@, node_id), n, p2)
                        == first_input(before.graph.edges@, n, p2));
                }
            }
            let ghost dropped = *m;
            if !no_elim {
                self.eliminate_multi_const(m, mod_id, node_id);
            }
            proof {
                assert(final(netlist).modules@ == pre.modules@.update(mod_id as int, *final(m)));
                assert(values@ =~= Seq::new(
                    old(netlist).modules[mod_id as int].graph.nodes[node_id as int].outputs.len() as nat,
                    |k: int| old(netlist).modules[tgt as int].const_of(
                        old(netlist).modules[tgt as int].mod_outputs@[k],
                    )->Some_0.val,
                ));
            }
            false
        } else {
            match policy {
                InlineMod::All => true,
                InlineMod::Never => false,
                InlineMod::Auto => {
                    let caller_no_ports = {
                        let caller = &netlist.modules[mod_id];
                        caller.mod_in_count() == 0 || caller.mod_out_count() == 0
                    };
                    tgt_inline || caller_no_ports || tgt_count <= NODES_LIMIT_TO_INLINE
                        || netlist.modules[mod_id].node_has_const_inputs(node_id)
                },
            }
        }
    }
}


/// No instantiation is dismantled: a `ModInst` node either survives as the
/// same instantiation or folds to a multi-valued constant (when its target's
/// outputs are all known); a folded constant never turns back into anything
/// else. Splicing a callee's nodes into the caller is exactly what this
/// forbids.
pub open spec fn insts_kept_or_folded(a: Module, b: Module) -> bool {
    forall|n: int|
        0 <= n < a.graph.nodes.len() ==> {
            &&& ((#[trigger] a.graph.nodes[n]).kind is ModInst ==> n < b.graph.nodes.len() && (
            b.graph.nodes[n].kind == a.graph.nodes[n].kind || b.graph.nodes[n].kind is MultiConst))
            &&& (a.graph.nodes[n].kind is MultiConst ==> n < b.graph.nodes.len()
                && b.graph.nodes[n].kind is MultiConst)
        }
}

/// `insts_kept_or_folded`, over every module of the netlist.
pub open spec fn netlist_insts_kept_or_folded(a: NetList, b: NetList) -> bool {
    b.modules.len() == a.modules.len() && forall|mm: int|
        0 <= mm < a.modules.len() ==> insts_kept_or_folded(
            #[trigger] a.modules[mm],
            b.modules[mm],
        )
}

/// Two no-splice steps chain into one.
pub proof fn lemma_insts_kept_trans(a: Module, b: Module, c: Module)
    requires
        insts_kept_or_folded(a, b),
        insts_kept_or_folded(b, c),
    ensures
        insts_kept_or_folded(a, c),
{
    assert forall|n: int| 0 <= n < a.graph.nodes.len() implies {
        &&& ((#[trigger] a.graph.nodes[n]).kind is ModInst ==> n < c.graph.nodes.len() && (
        c.graph.nodes[n].kind == a.graph.nodes[n].kind || c.graph.nodes[n].kind is MultiConst))
        &&& (a.graph.nodes[n].kind is MultiConst ==> n < c.graph.nodes.len()
            && c.graph.nodes[n].kind is MultiConst)
    } by {
        assert(a.graph.nodes[n].kind is ModInst ==> n < b.graph.nodes.len() && (b.graph.nodes[n].kind
            == a.graph.nodes[n].kind || b.graph.nodes[n].kind is MultiConst));
        assert(a.graph.nodes[n].kind is MultiConst ==> n < b.graph.nodes.len()
            && b.graph.nodes[n].kind is MultiConst);
    }
}

impl Transform {
    /// Visits one module: each instantiation's target first (callee before
    /// caller), then every node in insertion order; eligible instantiations
    /// are spliced while the budget lasts, and the cursor continues at the
    /// first spliced node.
    pub fn visit_module(&mut self, netlist: &mut NetList, mod_id: usize, depth: usize)
        requires
            old(netlist).wf(),
            mod_id < old(netlist).modules.len(),
            cons_ok(old(self).cons@, *old(netlist)),
            old(self).budget_matches(old(netlist).cfg),
        ensures
            final(netlist).wf(),
            final(netlist).modules.len() == old(netlist).modules.len(),
            final(netlist).cfg == old(netlist).cfg,
            final(netlist).top == old(netlist).top,
            cons_ok(final(self).cons@, *final(netlist)),
            final(self).budget_matches(old(netlist).cfg),
            no_inlining_cfg(old(netlist).cfg) ==> netlist_insts_kept_or_folded(*old(netlist), *final(netlist)),
            no_inlining_cfg(old(netlist).cfg) ==> netlist_no_splice(*old(netlist), *final(netlist)),
            mod_inst_free(old(netlist).modules[mod_id as int]) ==> (forall|mm: int|
                0 <= mm < old(netlist).modules.len() && mm != mod_id ==> final(netlist).modules@[mm]
                    == old(netlist).modules@[mm]) && (exists|steps: Seq<Module>| visited_in_order(
                old(netlist).modules[mod_id as int],
                final(netlist).modules[mod_id as int],
                steps,
            )),
        decreases depth,
    {
        let ghost free = mod_inst_free(old(netlist).modules[mod_id as int]);
        let ghost steps: Seq<Module> = seq![old(netlist).modules[mod_id as int]];
        let mut i: usize = 0;
        let mut fuel: usize = usize::MAX;
        while fuel > 0 && i < netlist.modules[mod_id].graph.nodes.len()
            invariant
                netlist.wf(),
                mod_id < netlist.modules.len(),
                netlist.modules.len() == old(netlist).modules.len(),
                netlist.cfg == old(netlist).cfg,
                netlist.top == old(netlist).top,
                cons_ok(self.cons@, *netlist),
                self.budget_matches(netlist.cfg),
                no_inlining_cfg(old(netlist).cfg) ==> netlist_insts_kept_or_folded(*old(netlist), *netlist),
                no_inlining_cfg(old(netlist).cfg) ==> netlist_no_splice(*old(netlist), *netlist),
                free == mod_inst_free(old(netlist).modules[mod_id as int]),
                free ==> {
                    &&& i <= netlist.modules[mod_id as int].graph.nodes.len()
                    &&& fuel == usize::MAX - i
                    &&& mod_inst_free(netlist.modules[mod_id as int])
                    &&& steps.len() == i + 1
                    &&& steps[0] == old(netlist).modules[mod_id as int]
                    &&& steps.last() == netlist.modules[mod_id as int]
                    &&& (forall|j: int|
                        0 <= j < steps.len() - 1 ==> transform_rules_hold(
                            #[trigger] steps[j],
                            steps[j + 1],
                            j as usize,
                        ))
                    &&& (forall|mm: int|
                        0 <= mm < old(netlist).modules.len() && mm != mod_id
                            ==> netlist.modules@[mm] == old(netlist).modules@[mm])
                },
            decreases fuel,
        {
            fuel = fuel - 1;
            let tgt_opt = netlist.modules[mod_id].node(i).mod_inst_target();
            match tgt_opt {
                Some(tgt) => {
                    proof {
                        assert(netlist.modules[mod_id as int].graph.nodes[i as int].kind matches
                            NodeKind::ModInst(mi) && mi.mod_id == tgt);
                        if free {
                            assert(false);
                        }
                    }
                    if depth > 0 && tgt != mod_id {
                        self.visit_module(netlist, tgt, depth - 1);
                    }
                },
                None => {},
            }
            if i >= netlist.modules[mod_id].graph.nodes.len() {
                proof {
                    if free {
                        assert(false);
                    }
                }
                return ;
            }
            let ghost pre_tn = *netlist;
            let want_inline = self.transform_node(netlist, mod_id, i);
            proof {
                if free {
                    steps = steps.push(netlist.modules[mod_id as int]);
                    assert(transform_rules_hold(
                        pre_tn.modules[mod_id as int],
                        netlist.modules[mod_id as int],
                        i,
                    ));
                    assert(no_splice(
                        pre_tn.modules[mod_id as int],
                        netlist.modules[mod_id as int],
                    ));
                    assert(mod_inst_free(netlist.modules[mod_id as int])) by {
                        assert forall|n: int|
                            0 <= n < netlist.modules[mod_id as int].graph.nodes.len() implies !((
                        #[trigger] netlist.modules[mod_id as int].graph.nodes[n]).kind
                            is ModInst) by {
                            if netlist.modules[mod_id as int].graph.nodes[n].kind is ModInst {
                                assert(pre_tn.modules[mod_id as int].graph.nodes[n].kind
                                    is ModInst);
                            }
                        }
                    }
                }
            }
            let do_inline = want_inline && self.should_inline();
            if do_inline {
                proof {
                    assert(!no_inlining_cfg(netlist.cfg));
                    if free {
                        assert(pre_tn.modules[mod_id as int].graph.nodes[i as int].kind
                            is ModInst);
                        assert(false);
                    }
                }
                let res = netlist.inline_mod(mod_id, i);
                self.inc_inlines();
                match res {
                    Some(first) => {
                        i = first;
                    },
                    None => {
                        i = i + 1;
                    },
                }
            } else {
                i = i + 1;
            }
        }
        proof {
            if free {
                assert(i >= netlist.modules[mod_id as int].graph.nodes.len());
                assert(visited_in_order(
                    old(netlist).modules[mod_id as int],
                    netlist.modules[mod_id as int],
                    steps,
                ));
            }
        }
    }

    /// Runs the pass once over the module dependency graph, starting at the
    /// designated top module. With the policy `Never`, or with an exhausted
    /// zero budget, no instantiation is ever spliced away: every module keeps
    /// its node count.
    pub fn run(self, netlist: &mut NetList)
        requires
            old(netlist).wf(),
            self.cons.len() == 0,
            self.budget_matches(old(netlist).cfg),
        ensures
            final(netlist).wf(),
            final(netlist).modules.len() == old(netlist).modules.len(),
            final(netlist).cfg == old(netlist).cfg,
            final(netlist).top == old(netlist).top,
            no_inlining_cfg(old(netlist).cfg) ==> netlist_insts_kept_or_folded(*old(netlist), *final(netlist)),
            no_inlining_cfg(old(netlist).cfg) ==> netlist_no_splice(*old(netlist), *final(netlist)),
            (match old(netlist).top {
                Some(t) => mod_inst_free(old(netlist).modules[t as int]) ==> (forall|mm: int|
                    0 <= mm < old(netlist).modules.len() && mm != t
                        ==> final(netlist).modules@[mm] == old(netlist).modules@[mm]) && (exists|
                    steps: Seq<Module>,
                |
                    visited_in_order(
                        old(netlist).modules[t as int],
                        final(netlist).modules[t as int],
                        steps,
                    )),
                None => *final(netlist) == *old(netlist),
            }),
    {
        let depth = netlist.module_count();
        let top = match netlist.top {
            Some(t) => t,
            None => {
                return ;
            },
        };
        let mut this = self;
        this.visit_module(netlist, top, depth);
    }
}

impl NetList {
    /// The Transform pass: constant folding and inlining, in dependency
    /// order, once.
    pub fn transform(&mut self)
        requires
            old(self).wf(),
        ensures
            final(self).wf(),
            final(self).modules.len() == old(self).modules.len(),
            final(self).cfg == old(self).cfg,
            final(self).top == old(self).top,
            no_inlining_cfg(old(self).cfg) ==> netlist_insts_kept_or_folded(*old(self), *final(self)),
            no_inlining_cfg(old(self).cfg) ==> netlist_no_splice(*old(self), *final(self)),
            (match old(self).top {
                Some(t) => mod_inst_free(old(self).modules[t as int]) ==> (forall|mm: int|
                    0 <= mm < old(self).modules.len() && mm != t ==> final(self).modules@[mm]
                        == old(self).modules@[mm]) && (exists|steps: Seq<Module>|
                    visited_in_order(
                        old(self).modules[t as int],
                        final(self).modules[t as int],
                        steps,
                    )),
                None => *final(self) == *old(self),
            }),
    {
        let t = Transform::new(&self.cfg);
        t.run(self);
    }
}

} // verus!
