//! The Reachability pass: dead-code marking.
//!
//! Every output, node and module is presumed dead (`skip` set) until this
//! pass clears the flag. It seeds from each module's designated outputs and
//! walks backward over incoming edges; an instantiation reached with a live,
//! port-bearing connection schedules its target module, which is processed
//! once for the whole program. Nothing is ever deleted and no flag is ever
//! set, so node ids stay stable and a second run over an already-processed
//! netlist changes nothing at all (see the contracts of [`Reachability::run`]).
//!
//! A register's initial-value edge is excluded from the backward walk when
//! that constant's only consumer is the register itself, so an otherwise-dead
//! register's reset literal cannot force unrelated logic live.

use vstd::prelude::*;
use crate::graph::Port;
use crate::module::Module;
use crate::netlist::NetList;
use crate::node::{Node, NodeKind, NodeOutput};

verus! {

/// The dead-code mark of one produced value.
pub open spec fn out_skip(m: Module, p: Port) -> bool
    recommends
        m.port_valid(p),
{
    m.graph.nodes[p.node as int].outputs[p.port as int].skip
}

/// A port the walk never needs to touch again: already live, or zero-width.
pub open spec fn port_settled(m: Module, p: Port) -> bool
    recommends
        m.port_valid(p),
{
    !out_skip(m, p) || m.port_width_spec(p) == 0
}

/// A module the pass has nothing left to do on: every designated output is
/// settled.
pub open spec fn module_stable(m: Module) -> bool {
    forall|k: int| 0 <= k < m.mod_outputs.len() ==> port_settled(m, #[trigger] m.mod_outputs[k])
}

/// `p` produces a value some edge carries into `node_id`.
pub open spec fn feeds_node(edges: Seq<crate::graph::Edge>, p: Port, node_id: usize) -> bool {
    exists|e: int|
        0 <= e < edges.len() && (#[trigger] edges[e]).port_out == p && edges[e].port_in.node
            == node_id
}

/// The flag of `v` went from dead in `a` to live in `b`.
pub open spec fn cleared(a: Module, b: Module, v: Port) -> bool {
    a.port_valid(v) && out_skip(a, v) && !out_skip(b, v)
}

/// Every flag the pass cleared is justified backward: a cleared port has
/// nonzero width and a live node, and is a designated output or produces a
/// value consumed by a node one of whose own ports was also cleared.
/// Following the justifications backward always ends at a designated output,
/// so flags are cleared only along backward paths from the outputs — never
/// on logic the outputs do not read.
pub open spec fn clears_justified(a: Module, b: Module) -> bool {
    forall|v: Port|
        #![trigger out_skip(b, v)]
        cleared(a, b, v) ==> a.port_width_spec(v) != 0 && !b.graph.nodes[v.node as int].skip && (
        a.mod_outputs@.contains(v) || exists|q: Port|
            feeds_node(a.graph.edges@, v, q.node) && a.port_valid(q) && #[trigger] cleared(
                a,
                b,
                q,
            ))
}

/// `p` produces a value some edge carries into `node_id`.
pub open spec fn is_source_into(m: Module, p: Port, node_id: usize) -> bool {
    exists|e: int|
        0 <= e < m.graph.edges.len() && (#[trigger] m.graph.edges[e]).port_out == p
            && m.graph.edges[e].port_in.node == node_id
}

/// Edge `e` into `node_id` is the one kind of edge the walk leaves out: a
/// register's initial-value feed from a constant that nothing else reads.
pub open spec fn edge_excluded(m: Module, e: int, node_id: usize) -> bool {
    match m.graph.nodes[node_id as int].kind {
        NodeKind::DFF(d) => m.graph.edges@[e].port_in.port == d.init_pos_spec() && (
        m.graph.nodes[m.graph.edges@[e].port_out.node as int].kind is Const
            || m.graph.nodes[m.graph.edges@[e].port_out.node as int].kind is MultiConst) && !(
        exists|i: int|
            0 <= i < m.graph.edges.len() && (#[trigger] m.graph.edges@[i]).port_out
                == m.graph.edges@[e].port_out && m.graph.edges@[i].port_in.node != node_id),
        _ => false,
    }
}

/// Every edge carrying `w` into `node_id` is an excluded initial-value feed.
pub open spec fn excluded_feed(m: Module, w: Port, node_id: usize) -> bool {
    forall|e: int|
        0 <= e < m.graph.edges.len() && (#[trigger] m.graph.edges@[e]).port_out == w
            && m.graph.edges@[e].port_in.node == node_id ==> edge_excluded(m, e, node_id)
}

/// The backward walk is complete: every nonzero-width producer feeding a
/// node one of whose ports the pass cleared is itself cleared, except a
/// register's private initial-value literal.
pub open spec fn walk_complete(a: Module, b: Module) -> bool {
    forall|v: Port, w: Port|
        #![trigger cleared(a, b, v), feeds_node(a.graph.edges@, w, v.node)]
        cleared(a, b, v) && a.port_valid(w) && feeds_node(a.graph.edges@, w, v.node)
            && a.port_width_spec(w) != 0 && !excluded_feed(a, w, v.node) ==> !out_skip(b, w)
}

/// The exclusion reads wiring and kinds only, which a flag-clearing pass
/// never changes.
pub proof fn lemma_excluded_same(a: Module, b: Module, w: Port, node_id: usize)
    requires
        a.wf(),
        only_flags_cleared(a, b),
        node_id < a.graph.nodes.len(),
    ensures
        excluded_feed(a, w, node_id) == excluded_feed(b, w, node_id),
{
    assert(b.graph.edges@ == a.graph.edges@);
    assert forall|e: int| 0 <= e < a.graph.edges.len() implies edge_excluded(a, e, node_id)
        == edge_excluded(b, e, node_id) by {
        assert(b.graph.nodes[node_id as int].kind == a.graph.nodes[node_id as int].kind);
        assert(a.port_valid(a.graph.edges@[e].port_out));
        assert(b.graph.nodes[a.graph.edges@[e].port_out.node as int].kind
            == a.graph.nodes[a.graph.edges@[e].port_out.node as int].kind);
    }
    if excluded_feed(a, w, node_id) {
        assert forall|e: int|
            0 <= e < b.graph.edges.len() && (#[trigger] b.graph.edges@[e]).port_out == w
                && b.graph.edges@[e].port_in.node == node_id implies edge_excluded(
            b,
            e,
            node_id,
        ) by {
            assert(edge_excluded(a, e, node_id));
        }
    } else {
        let e = choose|e: int|
            0 <= e < a.graph.edges.len() && (#[trigger] a.graph.edges@[e]).port_out == w
                && a.graph.edges@[e].port_in.node == node_id && !edge_excluded(a, e, node_id);
        assert(!edge_excluded(b, e, node_id));
        assert(!excluded_feed(b, w, node_id));
    }
}

/// `b` is `a` with some dead-code flags cleared: identical structure, and no
/// flag that was clear is ever set again.
pub open spec fn only_flags_cleared(a: Module, b: Module) -> bool {
    &&& b.name == a.name
    &&& b.is_top == a.is_top
    &&& b.inline == a.inline
    &&& (b.skip ==> a.skip)
    &&& b.graph.edges == a.graph.edges
    &&& b.mod_inputs == a.mod_inputs
    &&& b.mod_outputs == a.mod_outputs
    &&& b.graph.nodes.len() == a.graph.nodes.len()
    &&& forall|n: int|
        0 <= n < b.graph.nodes.len() ==> (#[trigger] b.graph.nodes[n]).kind == a.graph.nodes[n].kind
            && (b.graph.nodes[n].skip ==> a.graph.nodes[n].skip) && b.graph.nodes[n].outputs.len()
            == a.graph.nodes[n].outputs.len() && (forall|o: int|
            0 <= o < b.graph.nodes[n].outputs.len() ==> (#[trigger] b.graph.nodes[n].outputs[o]).ty
                == a.graph.nodes[n].outputs[o].ty && b.graph.nodes[n].outputs[o].sym
                == a.graph.nodes[n].outputs[o].sym && (b.graph.nodes[n].outputs[o].skip
                ==> a.graph.nodes[n].outputs[o].skip))
}

/// How many output dead-code flags of the first `k` outputs are still set.
pub open spec fn count_out_skips(outs: Seq<NodeOutput>, k: int) -> nat
    decreases k,
{
    if k <= 0 {
        0
    } else {
        count_out_skips(outs, k - 1) + if outs[k - 1].skip {
            1nat
        } else {
            0nat
        }
    }
}

/// How many output dead-code flags of the first `n` nodes are still set.
pub open spec fn count_node_skips(ns: Seq<Node>, n: int) -> nat
    decreases n,
{
    if n <= 0 {
        0
    } else {
        count_node_skips(ns, n - 1) + count_out_skips(
            ns[n - 1].outputs@,
            ns[n - 1].outputs.len() as int,
        )
    }
}

/// The pass's termination measure: set output flags left in the module.
pub open spec fn count_skips(m: Module) -> nat {
    count_node_skips(m.graph.nodes@, m.graph.nodes.len() as int)
}

/// Clearing one set flag lowers the per-node count by exactly one.
proof fn lemma_count_out_clear(outs: Seq<NodeOutput>, outs2: Seq<NodeOutput>, j: int, k: int)
    requires
        0 <= j < outs.len(),
        outs.len() == outs2.len(),
        outs[j].skip,
        !outs2[j].skip,
        forall|o: int| 0 <= o < outs.len() && o != j ==> outs2[o] == outs[o],
        k <= outs.len(),
    ensures
        j < k ==> count_out_skips(outs2, k) + 1 == count_out_skips(outs, k),
        j >= k ==> count_out_skips(outs2, k) == count_out_skips(outs, k),
    decreases k,
{
    if k > 0 {
        lemma_count_out_clear(outs, outs2, j, k - 1);
    }
}

/// Clearing one set flag in one node lowers the module count by exactly one.
proof fn lemma_count_node_clear(ns: Seq<Node>, ns2: Seq<Node>, i: int, j: int, n: int)
    requires
        0 <= i < ns.len(),
        ns.len() == ns2.len(),
        0 <= j < ns[i].outputs.len(),
        ns[i].outputs[j].skip,
        ns2[i].outputs.len() == ns[i].outputs.len(),
        !ns2[i].outputs[j].skip,
        forall|o: int|
            0 <= o < ns[i].outputs.len() && o != j ==> ns2[i].outputs[o] == ns[i].outputs[o],
        forall|q: int| 0 <= q < ns.len() && q != i ==> ns2[q] == ns[q],
        n <= ns.len(),
    ensures
        i < n ==> count_node_skips(ns2, n) + 1 == count_node_skips(ns, n),
        i >= n ==> count_node_skips(ns2, n) == count_node_skips(ns, n),
    decreases n,
{
    if n > 0 {
        lemma_count_node_clear(ns, ns2, i, j, n - 1);
        if i == n - 1 {
            lemma_count_out_clear(
                ns[i].outputs@,
                ns2[i].outputs@,
                j,
                ns[i].outputs.len() as int,
            );
        }
    }
}

/// The backward dead-code walk over one module. Returns the target modules of
/// every instantiation it proved live, for the caller to schedule.
///
/// On a module whose designated outputs are already settled this is a no-op:
/// the module comes back unchanged and nothing is scheduled.
#[verifier::rlimit(60)]
pub fn visit_module(m: &mut Module) -> (scheduled: Vec<usize>)
    requires
        old(m).wf(),
    ensures
        final(m).wf(),
        only_flags_cleared(*old(m), *final(m)),
        module_stable(*final(m)),
        module_stable(*old(m)) ==> *final(m) == *old(m) && scheduled.len() == 0,
        clears_justified(*old(m), *final(m)),
        walk_complete(*old(m), *final(m)),
{
    let ghost m0 = *old(m);
    let mut scheduled: Vec<usize> = Vec::new();
    let mut stack: Vec<Port> = Vec::new();
    // Designated outputs, in reverse order so the first is handled first.
    let mut k = m.mod_outputs.len();
    while k > 0
        invariant
            k <= m.mod_outputs.len(),
            *m == m0,
            m0.wf(),
            forall|i: int| 0 <= i < stack.len() ==> m0.port_valid(#[trigger] stack@[i]),
            forall|i: int| 0 <= i < stack.len() ==> m0.mod_outputs@.contains(#[trigger] stack@[i]),
            forall|i: int|
                (k as int) <= i < m0.mod_outputs.len() ==> stack@.contains(
                    #[trigger] m0.mod_outputs@[i],
                ),
        decreases k,
    {
        k = k - 1;
        let p = m.mod_outputs[k];
        let ghost old_stack = stack@;
        stack.push(p);
        proof {
            assert forall|i: int|
                (k as int) <= i < m0.mod_outputs.len() implies stack@.contains(
                #[trigger] m0.mod_outputs@[i],
            ) by {
                if i == k {
                    assert(stack@[stack@.len() - 1] == p);
                } else {
                    assert(old_stack.contains(m0.mod_outputs@[i]));
                    let j = choose|j: int|
                        0 <= j < old_stack.len() && old_stack[j] == m0.mod_outputs@[i];
                    assert(stack@[j] == m0.mod_outputs@[i]);
                }
            }
        }
    }
    while stack.len() > 0
        invariant
            m.wf(),
            only_flags_cleared(m0, *m),
            forall|i: int| 0 <= i < stack.len() ==> m.port_valid(#[trigger] stack@[i]),
            forall|i: int|
                #![trigger stack@[i]]
                0 <= i < stack.len() ==> m0.mod_outputs@.contains(stack@[i]) || (exists|q: Port|
                    feeds_node(m0.graph.edges@, stack@[i], q.node) && m0.port_valid(q)
                        && #[trigger] cleared(m0, *m, q)),
            clears_justified(m0, *m),
            forall|v: Port, w: Port|
                #![trigger cleared(m0, *m, v), feeds_node(m0.graph.edges@, w, v.node)]
                cleared(m0, *m, v) && m0.port_valid(w) && feeds_node(m0.graph.edges@, w, v.node)
                    && m0.port_width_spec(w) != 0 && !excluded_feed(m0, w, v.node) ==> (!out_skip(
                    *m,
                    w,
                ) || stack@.contains(w)),
            forall|i: int|
                0 <= i < m.mod_outputs.len() ==> stack@.contains(#[trigger] m.mod_outputs@[i])
                    || port_settled(*m, m.mod_outputs@[i]),
            module_stable(m0) ==> *m == m0 && scheduled.len() == 0 && (forall|i: int|
                0 <= i < stack.len() ==> m0.mod_outputs@.contains(#[trigger] stack@[i])),
        decreases count_skips(*m), stack.len(),
    {
        let ghost m_pre = *m;
        let ghost stack_pre = stack@;
        let p = match stack.pop() {
            Some(p) => p,
            None => {
                proof {
                    assert(false);
                }
                Port { node: 0, port: 0 }
            },
        };
        proof {
            assert(forall|x: Port| stack@.contains(x) ==> stack_pre.contains(x)) by {
                assert(forall|i: int| 0 <= i < stack@.len() ==> stack@[i] == stack_pre[i]);
            }
        }
        let live_already = !m.graph.nodes[p.node].outputs[p.port].skip;
        let zero_width = m.graph.nodes[p.node].outputs[p.port].ty.width() == 0;
        if live_already || zero_width {
            proof {
                assert(clears_justified(m0, *m));
                assert(port_settled(*m, p));
                assert forall|v: Port, w: Port|
                    (#[trigger] cleared(m0, *m, v)) && m0.port_valid(w) && #[trigger] feeds_node(
                        m0.graph.edges@,
                        w,
                        v.node,
                    ) && m0.port_width_spec(w) != 0 && !excluded_feed(m0, w, v.node) implies (
                !out_skip(*m, w) || stack@.contains(w)) by {
                    if out_skip(*m, w) {
                        if w == p {
                            assert(m0.port_width_spec(p) == m.port_width_spec(p));
                            assert(false);
                        } else {
                            assert(stack_pre.contains(w));
                            let j = choose|j: int| 0 <= j < stack_pre.len() && stack_pre[j] == w;
                            assert(stack_pre[stack_pre.len() - 1] == p);
                            assert(j < stack@.len());
                            assert(stack@[j] == w);
                        }
                    }
                }
                assert forall|i: int|
                    0 <= i < m.mod_outputs.len() implies stack@.contains(
                    #[trigger] m.mod_outputs@[i],
                ) || port_settled(*m, m.mod_outputs@[i]) by {
                    if !port_settled(*m, m.mod_outputs@[i]) {
                        assert(m.mod_outputs@[i] != p);
                        assert(stack_pre.contains(m.mod_outputs@[i]));
                        let j = choose|j: int|
                            0 <= j < stack_pre.len() && stack_pre[j] == m.mod_outputs@[i];
                        assert(stack_pre[stack_pre.len() - 1] == p);
                        assert(j < stack@.len());
                        assert(stack@[j] == m.mod_outputs@[i]);
                    }
                }
            }
            continue ;
        }
        proof {
            if module_stable(m0) {
                assert(m0.mod_outputs@.contains(p));
                let j = choose|j: int| 0 <= j < m0.mod_outputs.len() && m0.mod_outputs@[j] == p;
                assert(port_settled(m0, m0.mod_outputs@[j]));
                assert(false);
            }
        }
        // A live, port-bearing instantiation schedules its target module.
        match &m.graph.nodes[p.node].kind {
            NodeKind::ModInst(mi) => {
                if mi.in_count > 0 || m.graph.nodes[p.node].outputs.len() > 0 {
                    scheduled.push(mi.mod_id);
                }
            },
            _ => {},
        }
        // Clear the flags: this output, its node, and the module are live.
        m.graph.nodes[p.node].outputs[p.port].skip = false;
        m.graph.nodes[p.node].skip = false;
        m.skip = false;
        proof {
            lemma_count_node_clear(
                m_pre.graph.nodes@,
                m.graph.nodes@,
                p.node as int,
                p.port as int,
                m_pre.graph.nodes.len() as int,
            );
            assert(count_skips(*m) < count_skips(m_pre));
        }
        let ghost stack_before_push = stack@;
        // Walk to the producers feeding this node, leaving out a register's
        // private initial-value literal.
        push_live_sources(m, p.node, &mut stack);
        proof {
            // The popped port is now cleared, and it was justified while on
            // the stack: a designated output, or a producer feeding a node
            // with an already-cleared port.
            assert(cleared(m0, *m, p));
            // Every freshly pushed producer feeds the popped port's node,
            // whose port `p` is cleared; older stack entries keep their
            // justification, since the cleared set only grows.
            assert forall|i: int|
                #![trigger stack@[i]]
                0 <= i < stack.len() implies m0.mod_outputs@.contains(stack@[i]) || (exists|
                q: Port,
            |
                feeds_node(m0.graph.edges@, stack@[i], q.node) && m0.port_valid(q)
                    && #[trigger] cleared(m0, *m, q)) by {
                if i < stack_before_push.len() {
                    assert(stack@[i] == stack_before_push[i]);
                    assert(stack_before_push[i] == stack_pre[i]);
                    if !m0.mod_outputs@.contains(stack@[i]) {
                        let q0 = choose|q0: Port|
                            feeds_node(m0.graph.edges@, stack_pre[i], q0.node) && m0.port_valid(
                                q0,
                            ) && #[trigger] cleared(m0, m_pre, q0);
                        assert(cleared(m0, *m, q0));
                    }
                } else {
                    assert(is_source_into(*m, stack@[i], p.node));
                    let e = choose|e: int|
                        0 <= e < m.graph.edges.len() && (#[trigger] m.graph.edges[e]).port_out
                            == stack@[i] && m.graph.edges[e].port_in.node == p.node;
                    assert(m.graph.edges@ == m0.graph.edges@);
                    assert(feeds_node(m0.graph.edges@, stack@[i], p.node)) by {
                        assert(0 <= e < m0.graph.edges@.len() && (
                        #[trigger] m0.graph.edges@[e]).port_out == stack@[i]
                            && m0.graph.edges@[e].port_in.node == p.node);
                    }
                    assert(cleared(m0, *m, p));
                }
            }
            // The only flag this step cleared is the popped port's, which the
            // stack invariant justifies; everything cleared before stays
            // justified because the cleared set only grows.
            assert forall|v: Port|
                #![trigger out_skip(*m, v)]
                cleared(m0, *m, v) implies m0.port_width_spec(v) != 0
                && !m.graph.nodes[v.node as int].skip && (m0.mod_outputs@.contains(v) || exists|
                q: Port,
            |
                feeds_node(m0.graph.edges@, v, q.node) && m0.port_valid(q) && #[trigger] cleared(
                    m0,
                    *m,
                    q,
                )) by {
                if v.node == p.node && v.port == p.port {
                    assert(v == p);
                    assert(m0.port_width_spec(p) == m_pre.port_width_spec(p));
                    if !m0.mod_outputs@.contains(p) {
                        let q0 = choose|q0: Port|
                            feeds_node(m0.graph.edges@, p, q0.node) && m0.port_valid(q0)
                                && #[trigger] cleared(m0, m_pre, q0);
                        assert(cleared(m0, *m, q0));
                    }
                } else {
                    if cleared(m0, m_pre, v) {
                        assert(!m_pre.graph.nodes[v.node as int].skip);
                        if !m0.mod_outputs@.contains(v) {
                            let q0 = choose|q0: Port|
                                feeds_node(m0.graph.edges@, v, q0.node) && m0.port_valid(q0)
                                    && #[trigger] cleared(m0, m_pre, q0);
                            assert(cleared(m0, *m, q0));
                        }
                    } else {
                        assert(out_skip(*m, v) == out_skip(m_pre, v));
                    }
                }
            }
            assert(clears_justified(m0, *m));
            assert forall|v: Port, w: Port|
                (#[trigger] cleared(m0, *m, v)) && m0.port_valid(w) && #[trigger] feeds_node(
                    m0.graph.edges@,
                    w,
                    v.node,
                ) && m0.port_width_spec(w) != 0 && !excluded_feed(m0, w, v.node) implies (
            !out_skip(*m, w) || stack@.contains(w)) by {
                if out_skip(*m, w) {
                    if v.node == p.node && v.port == p.port {
                        assert(v == p);
                        assert(only_flags_cleared(m0, *m));
                        lemma_excluded_same(m0, *m, w, p.node);
                        assert(m.graph.edges@ == m0.graph.edges@);
                        assert(feeds_node(m.graph.edges@, w, p.node));
                        assert(stack@.contains(w));
                    } else {
                        assert(cleared(m0, m_pre, v));
                        assert(out_skip(m_pre, w));
                        assert(stack_pre.contains(w));
                        let j = choose|j: int| 0 <= j < stack_pre.len() && stack_pre[j] == w;
                        if j == stack_pre.len() - 1 {
                            assert(w == p);
                            assert(!out_skip(*m, p));
                            assert(false);
                        } else {
                            assert(stack_before_push[j] == w);
                            assert(stack@[j] == w);
                        }
                    }
                }
            }
            assert forall|i: int|
                0 <= i < m.mod_outputs.len() implies stack@.contains(#[trigger] m.mod_outputs@[i])
                || port_settled(*m, m.mod_outputs@[i]) by {
                if !port_settled(*m, m.mod_outputs@[i]) {
                    assert(!port_settled(m_pre, m.mod_outputs@[i]));
                    assert(stack_pre.contains(m.mod_outputs@[i]));
                    if m.mod_outputs@[i] == p {
                        assert(port_settled(*m, p));
                        assert(false);
                    }
                    let j = choose|j: int|
                        0 <= j < stack_pre.len() && stack_pre[j] == m.mod_outputs@[i];
                    assert(stack_pre[stack_pre.len() - 1] == p);
                    assert(j < stack_pre.len() - 1);
                    assert(stack_pre.drop_last()[j] == m.mod_outputs@[i]);
                    assert(stack@[j] == m.mod_outputs@[i]);
                    assert(stack@.contains(m.mod_outputs@[i]));
                }
            }
        }
    }
    scheduled
}

/// Pushes the producer port of every edge into `node_id`, except a register's
/// initial-value edge whose constant producer has no other consumer.
fn push_live_sources(m: &Module, node_id: usize, stack: &mut Vec<Port>)
    requires
        m.wf(),
        node_id < m.graph.nodes.len(),
        forall|i: int| 0 <= i < old(stack).len() ==> m.port_valid(#[trigger] old(stack)@[i]),
    ensures
        forall|i: int| 0 <= i < final(stack).len() ==> m.port_valid(#[trigger] final(stack)@[i]),
        final(stack).len() >= old(stack).len(),
        forall|i: int| 0 <= i < old(stack).len() ==> #[trigger] final(stack)@[i] == old(stack)@[i],
        forall|i: int|
            old(stack).len() <= i < final(stack).len() ==> is_source_into(
                *m,
                #[trigger] final(stack)@[i],
                node_id,
            ),
        forall|w: Port|
            feeds_node(m.graph.edges@, w, node_id) && !(#[trigger] excluded_feed(*m, w, node_id))
                ==> final(stack)@.contains(w),
{
    let init_pos: Option<usize> = match &m.graph.nodes[node_id].kind {
        NodeKind::DFF(d) => Some(d.init_pos()),
        _ => None,
    };
    let ghost base = stack@;
    let mut i: usize = 0;
    while i < m.graph.edges.len()
        invariant
            i <= m.graph.edges.len(),
            m.wf(),
            node_id < m.graph.nodes.len(),
            forall|j: int| 0 <= j < stack.len() ==> m.port_valid(#[trigger] stack@[j]),
            base.len() <= stack@.len(),
            forall|j: int| 0 <= j < base.len() ==> #[trigger] stack@[j] == base[j],
            forall|j: int|
                base.len() <= j < stack.len() ==> is_source_into(
                    *m,
                    #[trigger] stack@[j],
                    node_id,
                ),
            init_pos == (match m.graph.nodes[node_id as int].kind {
                NodeKind::DFF(d) => Some(d.init_pos_spec()),
                _ => None::<usize>,
            }),
            forall|e: int|
                0 <= e < i && (#[trigger] m.graph.edges@[e]).port_in.node == node_id
                    && !edge_excluded(*m, e, node_id) ==> stack@.contains(
                    m.graph.edges@[e].port_out,
                ),
        decreases m.graph.edges.len() - i,
    {
        let e = m.graph.edges[i];
        let ghost iter_stack = stack@;
        if e.port_in.node == node_id {
            let excluded: bool = match init_pos {
                Some(pos) => {
                    if e.port_in.port == pos {
                        let is_const = match &m.graph.nodes[e.port_out.node].kind {
                            NodeKind::Const(_) => true,
                            NodeKind::MultiConst(_) => true,
                            _ => false,
                        };
                        is_const && !has_other_consumer(m, e.port_out, node_id)
                    } else {
                        false
                    }
                },
                None => false,
            };
            proof {
                assert(excluded == edge_excluded(*m, i as int, node_id));
            }
            if !excluded {
                let ghost pre_stack = stack@;
                stack.push(e.port_out);
                proof {
                    assert forall|j: int|
                        base.len() <= j < stack.len() implies is_source_into(
                        *m,
                        #[trigger] stack@[j],
                        node_id,
                    ) by {
                        if j < pre_stack.len() {
                            assert(stack@[j] == pre_stack[j]);
                        } else {
                            assert(m.graph.edges@[i as int].port_out == stack@[j]
                                && m.graph.edges@[i as int].port_in.node == node_id);
                            assert((#[trigger] m.graph.edges[i as int]).port_out == stack@[j]);
                        }
                    }
                }
            }
        }
        proof {
            assert forall|e2: int|
                0 <= e2 < i + 1 && (#[trigger] m.graph.edges@[e2]).port_in.node == node_id
                    && !edge_excluded(*m, e2, node_id) implies stack@.contains(
                m.graph.edges@[e2].port_out,
            ) by {
                if e2 < i {
                    assert(iter_stack.contains(m.graph.edges@[e2].port_out));
                    let j = choose|j: int|
                        0 <= j < iter_stack.len() && iter_stack[j] == m.graph.edges@[e2].port_out;
                    assert(stack@[j] == m.graph.edges@[e2].port_out);
                } else {
                    assert(stack@[stack@.len() - 1] == m.graph.edges@[i as int].port_out);
                }
            }
        }
        i = i + 1;
    }
    proof {
        assert forall|w: Port|
            feeds_node(m.graph.edges@, w, node_id) && !(#[trigger] excluded_feed(
                *m,
                w,
                node_id,
            )) implies stack@.contains(w) by {
            let e = choose|e: int|
                0 <= e < m.graph.edges@.len() && (#[trigger] m.graph.edges@[e]).port_out == w
                    && m.graph.edges@[e].port_in.node == node_id && !edge_excluded(
                    *m,
                    e,
                    node_id,
                );
            assert(stack@.contains(m.graph.edges@[e].port_out));
        }
    }
}

/// Whether any consumer other than `except` reads the port.
fn has_other_consumer(m: &Module, p: Port, except: usize) -> (r: bool)
    ensures
        r == exists|i: int|
            0 <= i < m.graph.edges.len() && (#[trigger] m.graph.edges@[i]).port_out == p
                && m.graph.edges@[i].port_in.node != except,
{
    let mut i: usize = 0;
    while i < m.graph.edges.len()
        invariant
            i <= m.graph.edges.len(),
            forall|j: int|
                0 <= j < i ==> !((#[trigger] m.graph.edges@[j]).port_out == p
                    && m.graph.edges@[j].port_in.node != except),
        decreases m.graph.edges.len() - i,
    {
        let e = m.graph.edges[i];
        if e.port_out.node == p.node && e.port_out.port == p.port && e.port_in.node != except {
            proof {
                assert(m.graph.edges@[i as int].port_out == p);
            }
            return true;
        }
        i = i + 1;
    }
    false
}

/// The Reachability pass over a whole netlist.
pub struct Reachability {
    /// Modules already processed: a submodule is walked once for the whole
    /// program, not once per call site.
    pub handled: Vec<bool>,
}

impl Reachability {
    pub fn new() -> (r: Self)
        ensures
            r.handled.len() == 0,
    {
        Reachability { handled: Vec::new() }
    }

    /// Seeds the walk at the designated top module and processes every
    /// scheduled module once.
    ///
    /// Running the pass a second time changes nothing: the first run leaves
    /// the top module stable, and on a netlist whose top module is stable the
    /// pass is the identity.
    pub fn run(self, netlist: &mut NetList)
        requires
            old(netlist).wf(),
        ensures
            final(netlist).wf(),
            final(netlist).modules.len() == old(netlist).modules.len(),
            final(netlist).cfg == old(netlist).cfg,
            final(netlist).top == old(netlist).top,
            old(netlist).top matches Some(t) ==> module_stable(final(netlist).modules[t as int]),
            forall|mm: int|
                0 <= mm < old(netlist).modules.len() ==> only_flags_cleared(
                    old(netlist).modules[mm],
                    (#[trigger] final(netlist).modules[mm]),
                ),
            forall|mm: int|
                0 <= mm < old(netlist).modules.len() ==> clears_justified(
                    old(netlist).modules[mm],
                    (#[trigger] final(netlist).modules[mm]),
                ),
            forall|mm: int|
                0 <= mm < old(netlist).modules.len() ==> walk_complete(
                    old(netlist).modules[mm],
                    (#[trigger] final(netlist).modules[mm]),
                ),
            forall|mm: int|
                0 <= mm < old(netlist).modules.len() ==> (final(netlist).modules@[mm] == old(
                    netlist,
                ).modules@[mm] || module_stable(#[trigger] final(netlist).modules[mm])),
            (match old(netlist).top {
                Some(t) => module_stable(old(netlist).modules[t as int]),
                None => true,
            }) ==> final(netlist).modules@ == old(netlist).modules@,
    {
        let top = match netlist.top {
            Some(t) => t,
            None => {
                return ;
            },
        };
        let mut handled: Vec<bool> = Vec::new();
        let n_mods = netlist.module_count();
        let mut j: usize = 0;
        while j < n_mods
            invariant
                j <= n_mods,
                handled.len() == j,
                *netlist == *old(netlist),
                forall|q: int| 0 <= q < j ==> !(#[trigger] handled@[q]),
            decreases n_mods - j,
        {
            handled.push(false);
            j = j + 1;
        }
        let mut queue: Vec<usize> = Vec::new();
        queue.push(top);
        let mut head: usize = 0;
        let mut fuel: usize = usize::MAX;
        let ghost stable_case = module_stable(old(netlist).modules[top as int]);
        while head < queue.len() && fuel > 0
            invariant
                netlist.wf(),
                netlist.modules.len() == old(netlist).modules.len(),
                netlist.cfg == old(netlist).cfg,
                netlist.top == old(netlist).top,
                old(netlist).top == Some(top),
                handled.len() == netlist.modules.len(),
                head <= queue.len(),
                stable_case == module_stable(old(netlist).modules[top as int]),
                forall|mm: int|
                    0 <= mm < netlist.modules.len() ==> only_flags_cleared(
                        old(netlist).modules[mm],
                        (#[trigger] netlist.modules[mm]),
                    ),
                forall|mm: int|
                    0 <= mm < netlist.modules.len() ==> clears_justified(
                        old(netlist).modules[mm],
                        (#[trigger] netlist.modules[mm]),
                    ),
                forall|mm: int|
                    0 <= mm < netlist.modules.len() ==> walk_complete(
                        old(netlist).modules[mm],
                        (#[trigger] netlist.modules[mm]),
                    ),
                forall|mm: int|
                    0 <= mm < netlist.modules.len() ==> (!(#[trigger] handled@[mm])
                        ==> netlist.modules@[mm] == old(netlist).modules@[mm]),
                forall|mm: int|
                    0 <= mm < netlist.modules.len() ==> (#[trigger] handled@[mm]
                        ==> module_stable(netlist.modules[mm])),
                top < netlist.modules.len(),
                head > 0 ==> handled@[top as int],
                queue.len() >= 1,
                queue@[0] == top,
                stable_case ==> netlist.modules@ == old(netlist).modules@ && queue.len() == 1,
                fuel >= queue.len() - head,
            decreases fuel,
        {
            fuel = fuel - 1;
            let mid = queue[head];
            head = head + 1;
            if mid < netlist.module_count() && !handled[mid] {
                handled.set(mid, true);
                let ghost pre_mods = netlist.modules@;
                let m = &mut netlist.modules[mid];
                let scheduled = visit_module(m);
                proof {
                    if stable_case {
                        assert(netlist.modules@ =~= pre_mods);
                    }
                }
                let mut s: usize = 0;
                while s < scheduled.len()
                    invariant
                        s <= scheduled.len(),
                        head <= queue.len(),
                        queue.len() >= 1,
                        queue@[0] == top,
                        fuel >= queue.len() - head,
                        stable_case ==> scheduled.len() == 0,
                        stable_case ==> queue.len() == 1,
                    decreases scheduled.len() - s,
                {
                    if fuel > queue.len() - head {
                        queue.push(scheduled[s]);
                    }
                    s = s + 1;
                }
            }
        }
        proof {
            assert forall|mm: int|
                0 <= mm < old(netlist).modules.len() implies (netlist.modules@[mm] == old(
                netlist,
            ).modules@[mm] || module_stable(#[trigger] netlist.modules[mm])) by {
                if handled@[mm] {
                    assert(module_stable(netlist.modules[mm]));
                } else {
                    assert(netlist.modules@[mm] == old(netlist).modules@[mm]);
                }
            }
        }
    }
}

impl NetList {
    /// The Reachability pass: clears the dead-code marks of everything the
    /// designated outputs transitively read, starting at the top module.
    pub fn reachability(&mut self)
        requires
            old(self).wf(),
        ensures
            final(self).wf(),
            final(self).modules.len() == old(self).modules.len(),
            final(self).cfg == old(self).cfg,
            final(self).top == old(self).top,
            old(self).top matches Some(t) ==> module_stable(final(self).modules[t as int]),
            forall|mm: int|
                0 <= mm < old(self).modules.len() ==> only_flags_cleared(
                    old(self).modules[mm],
                    (#[trigger] final(self).modules[mm]),
                ),
            forall|mm: int|
                0 <= mm < old(self).modules.len() ==> clears_justified(
                    old(self).modules[mm],
                    (#[trigger] final(self).modules[mm]),
                ),
            forall|mm: int|
                0 <= mm < old(self).modules.len() ==> walk_complete(
                    old(self).modules[mm],
                    (#[trigger] final(self).modules[mm]),
                ),
            forall|mm: int|
                0 <= mm < old(self).modules.len() ==> (final(self).modules@[mm] == old(
                    self,
                ).modules@[mm] || module_stable(#[trigger] final(self).modules[mm])),
            (match old(self).top {
                Some(t) => module_stable(old(self).modules[t as int]),
                None => true,
            }) ==> final(self).modules@ == old(self).modules@,
    {
        let r = Reachability::new();
        r.run(self);
    }
}

} // verus!
