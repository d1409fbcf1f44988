//! One hardware module: an insertion-ordered node graph plus its designated
//! input and output ports.
//!
//! The construction API adds nodes and wires edges; the optimizer rewrites
//! the structure in place (replace, reconnect) but never moves a node, so
//! node ids stay stable and the dead-code pass only flags, never deletes.

use vstd::prelude::*;
use crate::const_val::ConstVal;
use crate::graph::{Edge, Graph, Port};
use crate::node::{
    clone_sym,
    BinOpNode,
    BitNot,
    Const,
    DFF,
    Extend,
    GlSignalKind,
    Input,
    Merger,
    ModInst,
    MultiConst,
    Node,
    NodeKind,
    NodeOutput,
    NodeTy,
    PassNode,
    Polarity,
    RstKind,
    Splitter,
    Switch,
    SwitchCase,
};

verus! {

/// Redirection of one producer port: a port of `node_id` is replaced by the
/// entry of `new_ports` at its output index; every other port is unchanged.
pub open spec fn redirect_port(p: Port, node_id: usize, new_ports: Seq<Port>) -> Port {
    if p.node == node_id && p.port < new_ports.len() {
        new_ports[p.port as int]
    } else {
        p
    }
}

/// Every edge re-sourced away from the outputs of `node_id` onto the
/// corresponding entry of `new_ports`; consumers are untouched.
pub open spec fn redirect_edges_spec(edges: Seq<Edge>, node_id: usize, new_ports: Seq<Port>) -> Seq<
    Edge,
> {
    edges.map_values(
        |e: Edge| Edge { port_out: redirect_port(e.port_out, node_id, new_ports), port_in: e.port_in },
    )
}

/// A module: a node graph, designated input and output ports, and flags.
#[derive(Clone, PartialEq, Eq, Debug)]
pub struct Module {
    pub name: String,
    pub is_top: bool,
    /// A hint for the caller-side inliner.
    pub inline: bool,
    /// Whole module proven dead (set until reachability clears it).
    pub skip: bool,
    pub graph: Graph<Node>,
    pub mod_inputs: Vec<Port>,
    pub mod_outputs: Vec<Port>,
}

impl Module {
    /// The port names an existing output of an existing node.
    pub open spec fn port_valid(self, p: Port) -> bool {
        p.node < self.graph.nodes.len() && p.port < self.graph.nodes[p.node as int].outputs.len()
    }

    /// Well-formed: every edge runs between existing ports of existing nodes,
    /// and every designated port exists.
    pub open spec fn wf(self) -> bool {
        &&& forall|i: int|
            0 <= i < self.graph.edges.len() ==> self.port_valid(
                (#[trigger] self.graph.edges[i]).port_out,
            ) && self.graph.edges[i].port_in.node < self.graph.nodes.len()
        &&& forall|i: int|
            0 <= i < self.mod_inputs.len() ==> self.port_valid(#[trigger] self.mod_inputs[i])
        &&& forall|i: int|
            0 <= i < self.mod_outputs.len() ==> self.port_valid(#[trigger] self.mod_outputs[i])
    }

    /// The graph-level half of well-formedness follows from the module's.
    pub proof fn lemma_wf_graph(self)
        requires
            self.wf(),
        ensures
            self.graph.wf(),
    {
    }

    pub fn new(name: String, is_top: bool) -> (r: Self)
        ensures
            r.name == name,
            r.is_top == is_top,
            !r.inline,
            r.skip,
            r.graph.nodes.len() == 0,
            r.graph.edges.len() == 0,
            r.mod_inputs.len() == 0,
            r.mod_outputs.len() == 0,
            r.wf(),
    {
        Module {
            name,
            is_top,
            inline: false,
            skip: true,
            graph: Graph::new(),
            mod_inputs: Vec::new(),
            mod_outputs: Vec::new(),
        }
    }

    /// Everything but the graph and the designated ports is unchanged.
    pub open spec fn same_meta(self, other: Module) -> bool {
        &&& self.name == other.name
        &&& self.is_top == other.is_top
        &&& self.inline == other.inline
        &&& self.skip == other.skip
    }

    pub open spec fn same_ports(self, other: Module) -> bool {
        self.mod_inputs == other.mod_inputs && self.mod_outputs == other.mod_outputs
    }

    pub fn node_count(&self) -> (r: usize)
        ensures
            r == self.graph.nodes.len(),
    {
        self.graph.node_count()
    }

    pub fn node(&self, node_id: usize) -> (r: &Node)
        requires
            node_id < self.graph.nodes.len(),
        ensures
            *r == self.graph.nodes[node_id as int],
    {
        &self.graph.nodes[node_id]
    }

    pub fn output_at(&self, p: Port) -> (r: &NodeOutput)
        requires
            self.port_valid(p),
        ensures
            *r == self.graph.nodes[p.node as int].outputs[p.port as int],
    {
        &self.graph.nodes[p.node].outputs[p.port]
    }

    /// The declared width of the value a port produces.
    pub open spec fn port_width_spec(self, p: Port) -> u128
        recommends
            self.port_valid(p),
    {
        self.graph.nodes[p.node as int].outputs[p.port as int].ty.width_spec()
    }

    pub fn port_width(&self, p: Port) -> (r: u128)
        requires
            self.port_valid(p),
        ensures
            r == self.port_width_spec(p),
    {
        self.output_at(p).width()
    }

    pub fn mod_in_count(&self) -> (r: usize)
        ensures
            r == self.mod_inputs.len(),
    {
        self.mod_inputs.len()
    }

    pub fn mod_out_count(&self) -> (r: usize)
        ensures
            r == self.mod_outputs.len(),
    {
        self.mod_outputs.len()
    }

    pub fn is_mod_output(&self, p: Port) -> (r: bool)
        ensures
            r == self.mod_outputs@.contains(p),
    {
        let mut i: usize = 0;
        while i < self.mod_outputs.len()
            invariant
                i <= self.mod_outputs.len(),
                forall|j: int| 0 <= j < i ==> self.mod_outputs@[j] != p,
            decreases self.mod_outputs.len() - i,
        {
            let q = self.mod_outputs[i];
            if q.node == p.node && q.port == p.port {
                proof {
                    assert(self.mod_outputs@[i as int] == p);
                }
                return true;
            }
            i = i + 1;
        }
        false
    }

    pub fn is_mod_input(&self, p: Port) -> (r: bool)
        ensures
            r == self.mod_inputs@.contains(p),
    {
        let mut i: usize = 0;
        while i < self.mod_inputs.len()
            invariant
                i <= self.mod_inputs.len(),
                forall|j: int| 0 <= j < i ==> self.mod_inputs@[j] != p,
            decreases self.mod_inputs.len() - i,
        {
            let q = self.mod_inputs[i];
            if q.node == p.node && q.port == p.port {
                proof {
                    assert(self.mod_inputs@[i as int] == p);
                }
                return true;
            }
            i = i + 1;
        }
        false
    }

    /// Adds a node; its id is the next free index.
    pub fn add_node(&mut self, node: Node) -> (r: usize)
        requires
            old(self).wf(),
        ensures
            final(self).wf(),
            final(self).graph.nodes@ == old(self).graph.nodes@.push(node),
            final(self).graph.edges == old(self).graph.edges,
            final(self).same_meta(*old(self)),
            final(self).same_ports(*old(self)),
            r == old(self).graph.nodes.len(),
    {
        self.graph.add_node(node)
    }

    /// Wires an existing producer port to an existing consumer position.
    pub fn add_edge(&mut self, port_out: Port, port_in: Port)
        requires
            old(self).wf(),
            old(self).port_valid(port_out),
            port_in.node < old(self).graph.nodes.len(),
        ensures
            final(self).wf(),
            final(self).graph.edges@ == old(self).graph.edges@.push(
                Edge { port_out, port_in },
            ),
            final(self).graph.nodes == old(self).graph.nodes,
            final(self).same_meta(*old(self)),
            final(self).same_ports(*old(self)),
    {
        self.graph.add_edge(port_out, port_in);
    }

    /// Declares a module parameter: a fresh `Input` node, registered as a
    /// designated input port.
    pub fn add_input(&mut self, ty: NodeTy, sym: Option<String>) -> (r: Port)
        requires
            old(self).wf(),
        ensures
            final(self).wf(),
            r == (Port { node: old(self).graph.nodes.len(), port: 0 }),
            final(self).graph.nodes.len() == old(self).graph.nodes.len() + 1,
            forall|i: int|
                0 <= i < old(self).graph.nodes.len() ==> final(self).graph.nodes[i] == old(
                    self,
                ).graph.nodes[i],
            final(self).graph.nodes[r.node as int].kind == NodeKind::Input(
                Input { global: GlSignalKind::Plain },
            ),
            final(self).graph.nodes[r.node as int].outputs@ == seq![
                NodeOutput { ty, sym, skip: true },
            ],
            final(self).graph.nodes[r.node as int].skip,
            final(self).graph.edges == old(self).graph.edges,
            final(self).mod_inputs@ == old(self).mod_inputs@.push(r),
            final(self).mod_outputs == old(self).mod_outputs,
            final(self).same_meta(*old(self)),
    {
        let mut outputs: Vec<NodeOutput> = Vec::new();
        outputs.push(NodeOutput::wire(ty, sym));
        proof {
            assert(outputs@ =~= seq![NodeOutput { ty, sym, skip: true }]);
        }
        let id = self.graph.add_node(
            Node::new(NodeKind::Input(Input { global: GlSignalKind::Plain }), outputs),
        );
        let port = Port { node: id, port: 0 };
        self.mod_inputs.push(port);
        port
    }

    /// Registers every output of `node_id` as a designated module output, in
    /// output order.
    pub fn add_mod_outputs(&mut self, node_id: usize)
        requires
            old(self).wf(),
            node_id < old(self).graph.nodes.len(),
        ensures
            final(self).wf(),
            final(self).graph == old(self).graph,
            final(self).mod_inputs == old(self).mod_inputs,
            final(self).same_meta(*old(self)),
            final(self).mod_outputs@ == old(self).mod_outputs@ + Seq::new(
                old(self).graph.nodes[node_id as int].outputs.len() as nat,
                |k: int| Port { node: node_id, port: k as usize },
            ),
    {
        let ghost added = Seq::new(
            self.graph.nodes[node_id as int].outputs.len() as nat,
            |k: int| Port { node: node_id, port: k as usize },
        );
        let n = self.graph.nodes[node_id].outputs.len();
        let mut k: usize = 0;
        while k < n
            invariant
                k <= n,
                n == self.graph.nodes[node_id as int].outputs.len(),
                node_id < self.graph.nodes.len(),
                self.graph == old(self).graph,
                self.mod_inputs == old(self).mod_inputs,
                self.same_meta(*old(self)),
                self.wf(),
                added == Seq::new(
                    n as nat,
                    |j: int| Port { node: node_id, port: j as usize },
                ),
                self.mod_outputs@ == old(self).mod_outputs@ + added.take(k as int),
            decreases n - k,
        {
            self.mod_outputs.push(Port { node: node_id, port: k });
            k = k + 1;
            proof {
                assert(added.take(k as int) == added.take(k - 1).push(
                    added[k - 1],
                ));
                assert(self.mod_outputs@ == old(self).mod_outputs@ + added.take(k as int));
            }
        }
        proof {
            assert(added.take(n as int) == added);
        }
    }

    /// Registers one port as a designated module output.
    pub fn add_mod_output(&mut self, p: Port)
        requires
            old(self).wf(),
            old(self).port_valid(p),
        ensures
            final(self).wf(),
            final(self).graph == old(self).graph,
            final(self).mod_inputs == old(self).mod_inputs,
            final(self).same_meta(*old(self)),
            final(self).mod_outputs@ == old(self).mod_outputs@.push(p),
    {
        self.mod_outputs.push(p);
    }
}

/// Arguments for a single constant node.
pub struct ConstArgs {
    pub ty: NodeTy,
    pub value: u128,
    pub sym: Option<String>,
}

/// Arguments for a concatenation node.
pub struct MergerArgs {
    pub inputs: Vec<Port>,
    pub rev: bool,
    pub sym: Option<String>,
}

/// Arguments for a bit-range extraction node.
pub struct SplitterArgs {
    pub input: Port,
    pub outputs: Vec<(NodeTy, Option<String>)>,
    pub start: Option<u128>,
    pub rev: bool,
}

/// The data input of a register: bound now, or deferred (two-phase
/// construction) with only its type known.
pub enum TyOrData {
    Ty(NodeTy),
    Data(Port),
}

/// Arguments for a register node.
pub struct DFFArgs {
    pub rst_kind: RstKind,
    pub rst_pol: Polarity,
    pub clk: Port,
    pub rst: Option<Port>,
    pub en: Option<Port>,
    pub init: Port,
    pub data: TyOrData,
    pub sym: Option<String>,
}

/// Arguments for an N-way select node.
pub struct SwitchArgs {
    pub outputs: Vec<(NodeTy, Option<String>)>,
    pub sel: Port,
    pub variants: Vec<(SwitchCase, Vec<Port>)>,
}

/// The case-value producer ports of the first `k` switch cases, flattened in
/// case order.
pub open spec fn switch_arg_ports(variants: Seq<(SwitchCase, Vec<Port>)>, k: int) -> Seq<Port>
    decreases k,
{
    if k <= 0 || k > variants.len() {
        Seq::empty()
    } else {
        switch_arg_ports(variants, k - 1) + variants[k - 1].1@
    }
}

/// The producer ports a register's construction wires, in input-position
/// order: clock, then reset and enable where present, then the initial
/// value, then the data expression where already bound.
pub open spec fn dff_arg_ports(args: DFFArgs) -> Seq<Port> {
    seq![args.clk] + (match args.rst {
        Some(p) => seq![p],
        None => Seq::empty(),
    }) + (match args.en {
        Some(p) => seq![p],
        None => Seq::empty(),
    }) + seq![args.init] + (match args.data {
        TyOrData::Data(p) => seq![p],
        TyOrData::Ty(_) => Seq::empty(),
    })
}

/// The register inputs a rewrite inspects, gathered from the graph.
pub struct DFFInputs {
    pub clk: Port,
    pub rst: Option<Port>,
    pub en: Option<Port>,
    pub init: Port,
    pub data: Port,
}

/// The sum of the declared widths of a sequence of ports.
pub open spec fn sum_widths(m: Module, ports: Seq<Port>) -> int
    decreases ports.len(),
{
    if ports.len() == 0 {
        0
    } else {
        sum_widths(m, ports.drop_last()) + m.port_width_spec(ports.last())
    }
}

/// Sums of widths are non-negative and grow by one port at a time.
pub proof fn lemma_sum_widths_take(m: Module, ports: Seq<Port>, k: int)
    requires
        0 <= k < ports.len(),
    ensures
        sum_widths(m, ports.take(k + 1)) == sum_widths(m, ports.take(k)) + m.port_width_spec(
            ports[k],
        ),
        sum_widths(m, ports.take(k)) >= 0,
    decreases k,
{
    assert(ports.take(k + 1).drop_last() =~= ports.take(k));
    assert(ports.take(k + 1).last() == ports[k]);
    if k > 0 {
        lemma_sum_widths_take(m, ports, k - 1);
        assert(ports.take(k) == ports.take((k - 1) + 1));
    } else {
        assert(sum_widths(m, ports.take(0)) == 0);
    }
}

/// A prefix of ports never out-sums the whole.
pub proof fn lemma_sum_widths_prefix(m: Module, ports: Seq<Port>, k: int)
    requires
        0 <= k <= ports.len(),
    ensures
        sum_widths(m, ports.take(k)) <= sum_widths(m, ports),
        sum_widths(m, ports.take(k)) >= 0,
    decreases ports.len() - k,
{
    if k == ports.len() {
        assert(ports.take(k) =~= ports);
        if k > 0 {
            lemma_sum_widths_take(m, ports, k - 1);
        }
    } else {
        lemma_sum_widths_prefix(m, ports, k + 1);
        lemma_sum_widths_take(m, ports, k);
    }
}

impl Module {
    /// Adds a node and wires the given producers to its input positions, in
    /// order.
    pub fn add_node_with_inputs(&mut self, node: Node, inputs: &Vec<Port>) -> (r: usize)
        requires
            old(self).wf(),
            forall|k: int| 0 <= k < inputs.len() ==> old(self).port_valid(#[trigger] inputs@[k]),
        ensures
            final(self).wf(),
            r == old(self).graph.nodes.len(),
            final(self).graph.nodes@ == old(self).graph.nodes@.push(node),
            final(self).graph.edges@ == old(self).graph.edges@ + Seq::new(
                inputs.len() as nat,
                |k: int| Edge { port_out: inputs@[k], port_in: Port { node: r, port: k as usize } },
            ),
            final(self).same_meta(*old(self)),
            final(self).same_ports(*old(self)),
    {
        let id = self.graph.add_node(node);
        let ghost added = Seq::new(
            inputs.len() as nat,
            |k: int| Edge { port_out: inputs@[k], port_in: Port { node: id, port: k as usize } },
        );
        let mut k: usize = 0;
        while k < inputs.len()
            invariant
                k <= inputs.len(),
                id < self.graph.nodes.len(),
                self.wf(),
                self.graph.nodes@ == old(self).graph.nodes@.push(node),
                self.same_meta(*old(self)),
                self.same_ports(*old(self)),
                forall|j: int| 0 <= j < inputs.len() ==> self.port_valid(#[trigger] inputs@[j]),
                added == Seq::new(
                    inputs.len() as nat,
                    |j: int| Edge {
                        port_out: inputs@[j],
                        port_in: Port { node: id, port: j as usize },
                    },
                ),
                self.graph.edges@ == old(self).graph.edges@ + added.take(k as int),
            decreases inputs.len() - k,
        {
            let p = inputs[k];
            self.graph.add_edge(p, Port { node: id, port: k });
            k = k + 1;
            proof {
                assert(added.take(k as int) =~= added.take(k - 1).push(added[k - 1]));
                assert(self.graph.edges@ == old(self).graph.edges@ + added.take(k as int));
            }
        }
        proof {
            assert(added.take(inputs.len() as int) =~= added);
        }
        id
    }

    /// Adds one compile-time constant.
    pub fn add_const(&mut self, args: ConstArgs) -> (r: Port)
        requires
            old(self).wf(),
        ensures
            final(self).wf(),
            r == (Port { node: old(self).graph.nodes.len(), port: 0 }),
            final(self).graph.nodes@ == old(self).graph.nodes@.push(
                Node {
                    kind: NodeKind::Const(Const { value: args.value }),
                    outputs: final(self).graph.nodes@.last().outputs,
                    skip: true,
                },
            ),
            final(self).graph.nodes@.last().outputs@ == seq![
                NodeOutput { ty: args.ty, sym: args.sym, skip: true },
            ],
            final(self).graph.edges@ == old(self).graph.edges@,
            final(self).same_meta(*old(self)),
            final(self).same_ports(*old(self)),
    {
        let mut outputs: Vec<NodeOutput> = Vec::new();
        outputs.push(NodeOutput::wire(args.ty, args.sym));
        proof {
            assert(outputs@ =~= seq![NodeOutput { ty: args.ty, sym: args.sym, skip: true }]);
        }
        let inputs: Vec<Port> = Vec::new();
        let id = self.add_node_with_inputs(
            Node::new(NodeKind::Const(Const { value: args.value }), outputs),
            &inputs,
        );
        proof {
            assert(final(self).graph.edges@ =~= old(self).graph.edges@);
        }
        Port { node: id, port: 0 }
    }

    /// Adds one multi-valued constant, one value per output.
    pub fn add_multi_const(&mut self, args: Vec<ConstArgs>) -> (r: usize)
        requires
            old(self).wf(),
        ensures
            final(self).wf(),
            r == old(self).graph.nodes.len(),
            final(self).graph.nodes.len() == old(self).graph.nodes.len() + 1,
            forall|i: int|
                0 <= i < old(self).graph.nodes.len() ==> final(self).graph.nodes@[i] == old(
                    self,
                ).graph.nodes@[i],
            final(self).graph.nodes@.last().kind matches NodeKind::MultiConst(mc) && mc.values.len()
                == args.len() && (forall|k: int|
                0 <= k < args.len() ==> mc.values@[k] == (#[trigger] args@[k]).value),
            final(self).graph.nodes@.last().outputs.len() == args.len(),
            forall|k: int|
                0 <= k < args.len() ==> final(self).graph.nodes@.last().outputs@[k] == (NodeOutput {
                    ty: (#[trigger] args@[k]).ty,
                    sym: args@[k].sym,
                    skip: true,
                }),
            final(self).graph.nodes@.last().skip,
            final(self).graph.edges@ == old(self).graph.edges@,
            final(self).same_meta(*old(self)),
            final(self).same_ports(*old(self)),
    {
        let mut outputs: Vec<NodeOutput> = Vec::new();
        let mut values: Vec<u128> = Vec::new();
        let mut k: usize = 0;
        while k < args.len()
            invariant
                k <= args.len(),
                outputs.len() == k,
                values.len() == k,
                forall|j: int| 0 <= j < k ==> values@[j] == (#[trigger] args@[j]).value,
                forall|j: int|
                    0 <= j < k ==> outputs@[j] == (NodeOutput {
                        ty: (#[trigger] args@[j]).ty,
                        sym: args@[j].sym,
                        skip: true,
                    }),
            decreases args.len() - k,
        {
            let a = &args[k];
            outputs.push(NodeOutput::wire(a.ty, clone_sym(&a.sym)));
            values.push(a.value);
            k = k + 1;
        }
        let inputs: Vec<Port> = Vec::new();
        let id = self.add_node_with_inputs(
            Node::new(NodeKind::MultiConst(MultiConst { values }), outputs),
            &inputs,
        );
        proof {
            assert(final(self).graph.edges@ =~= old(self).graph.edges@);
        }
        id
    }

    /// Adds an identity buffer over one producer port.
    pub fn add_pass(&mut self, input: Port, ty: NodeTy, sym: Option<String>) -> (r: Port)
        requires
            old(self).wf(),
            old(self).port_valid(input),
        ensures
            final(self).wf(),
            r == (Port { node: old(self).graph.nodes.len(), port: 0 }),
            final(self).graph.nodes.len() == old(self).graph.nodes.len() + 1,
            forall|i: int|
                0 <= i < old(self).graph.nodes.len() ==> final(self).graph.nodes@[i] == old(
                    self,
                ).graph.nodes@[i],
            final(self).graph.nodes@.last().kind == NodeKind::Pass(PassNode {}),
            final(self).graph.nodes@.last().outputs@ == seq![
                NodeOutput { ty, sym, skip: true },
            ],
            final(self).graph.nodes@.last().skip,
            final(self).graph.edges@ == old(self).graph.edges@.push(
                Edge { port_out: input, port_in: Port { node: r.node, port: 0 } },
            ),
            final(self).same_meta(*old(self)),
            final(self).same_ports(*old(self)),
    {
        let mut outputs: Vec<NodeOutput> = Vec::new();
        outputs.push(NodeOutput::wire(ty, sym));
        let mut inputs: Vec<Port> = Vec::new();
        inputs.push(input);
        let id = self.add_node_with_inputs(
            Node::new(NodeKind::Pass(PassNode {}), outputs),
            &inputs,
        );
        proof {
            assert(outputs@ =~= seq![NodeOutput { ty, sym, skip: true }]);
            assert(final(self).graph.edges@ =~= old(self).graph.edges@.push(
                Edge { port_out: input, port_in: Port { node: id, port: 0 } },
            ));
        }
        Port { node: id, port: 0 }
    }

    /// Adds a concatenation of the given producer ports; the output width is
    /// the sum of the input widths.
    pub fn add_merger(&mut self, args: MergerArgs) -> (r: Port)
        requires
            old(self).wf(),
            forall|k: int|
                0 <= k < args.inputs.len() ==> old(self).port_valid(#[trigger] args.inputs@[k]),
            sum_widths(*old(self), args.inputs@) <= u128::MAX,
        ensures
            final(self).wf(),
            r == (Port { node: old(self).graph.nodes.len(), port: 0 }),
            final(self).graph.nodes.len() == old(self).graph.nodes.len() + 1,
            forall|i: int|
                0 <= i < old(self).graph.nodes.len() ==> final(self).graph.nodes@[i] == old(
                    self,
                ).graph.nodes@[i],
            final(self).graph.nodes@.last().kind == NodeKind::Merger(
                Merger { inputs: args.inputs.len(), rev: args.rev },
            ),
            final(self).graph.nodes@.last().outputs@ == seq![
                NodeOutput {
                    ty: NodeTy::BitVec(sum_widths(*old(self), args.inputs@) as u128),
                    sym: args.sym,
                    skip: true,
                },
            ],
            final(self).graph.edges@ == old(self).graph.edges@ + Seq::new(
                args.inputs.len() as nat,
                |k: int| Edge {
                    port_out: args.inputs@[k],
                    port_in: Port { node: r.node, port: k as usize },
                },
            ),
            final(self).same_meta(*old(self)),
            final(self).same_ports(*old(self)),
    {
        let ghost m0 = *self;
        let mut width: u128 = 0;
        let mut k: usize = 0;
        while k < args.inputs.len()
            invariant
                k <= args.inputs.len(),
                *self == m0,
                forall|j: int|
                    0 <= j < args.inputs.len() ==> self.port_valid(#[trigger] args.inputs@[j]),
                sum_widths(m0, args.inputs@) <= u128::MAX,
                width == sum_widths(m0, args.inputs@.take(k as int)),
            decreases args.inputs.len() - k,
        {
            proof {
                lemma_sum_widths_take(m0, args.inputs@, k as int);
                lemma_sum_widths_prefix(m0, args.inputs@, k + 1);
            }
            let p = args.inputs[k];
            width = width + self.port_width(p);
            k = k + 1;
        }
        proof {
            assert(args.inputs@.take(args.inputs@.len() as int) =~= args.inputs@);
        }
        let mut outputs: Vec<NodeOutput> = Vec::new();
        outputs.push(NodeOutput::wire(NodeTy::BitVec(width), args.sym));
        let id = self.add_node_with_inputs(
            Node::new(
                NodeKind::Merger(Merger { inputs: args.inputs.len(), rev: args.rev }),
                outputs,
            ),
            &args.inputs,
        );
        proof {
            assert(outputs@ =~= seq![
                NodeOutput {
                    ty: NodeTy::BitVec(sum_widths(m0, args.inputs@) as u128),
                    sym: args.sym,
                    skip: true,
                },
            ]);
        }
        Port { node: id, port: 0 }
    }

    /// Adds a bit-range extraction of one producer port.
    pub fn add_splitter(&mut self, args: SplitterArgs) -> (r: usize)
        requires
            old(self).wf(),
            old(self).port_valid(args.input),
        ensures
            final(self).wf(),
            r == old(self).graph.nodes.len(),
            final(self).graph.nodes.len() == old(self).graph.nodes.len() + 1,
            forall|i: int|
                0 <= i < old(self).graph.nodes.len() ==> final(self).graph.nodes@[i] == old(
                    self,
                ).graph.nodes@[i],
            final(self).graph.nodes@.last().kind == NodeKind::Splitter(
                Splitter { start: args.start, rev: args.rev },
            ),
            final(self).graph.nodes@.last().outputs.len() == args.outputs.len(),
            forall|k: int|
                0 <= k < args.outputs.len() ==> final(self).graph.nodes@.last().outputs@[k] == (
                NodeOutput {
                    ty: (#[trigger] args.outputs@[k]).0,
                    sym: args.outputs@[k].1,
                    skip: true,
                }),
            final(self).graph.edges@ == old(self).graph.edges@.push(
                Edge { port_out: args.input, port_in: Port { node: r, port: 0 } },
            ),
            final(self).same_meta(*old(self)),
            final(self).same_ports(*old(self)),
    {
        let mut outputs: Vec<NodeOutput> = Vec::new();
        let mut k: usize = 0;
        while k < args.outputs.len()
            invariant
                k <= args.outputs.len(),
                outputs.len() == k,
                forall|j: int|
                    0 <= j < k ==> outputs@[j] == (NodeOutput {
                        ty: (#[trigger] args.outputs@[j]).0,
                        sym: args.outputs@[j].1,
                        skip: true,
                    }),
            decreases args.outputs.len() - k,
        {
            let (ty, sym) = &args.outputs[k];
            outputs.push(NodeOutput::wire(*ty, clone_sym(sym)));
            k = k + 1;
        }
        let mut inputs: Vec<Port> = Vec::new();
        inputs.push(args.input);
        let id = self.add_node_with_inputs(
            Node::new(NodeKind::Splitter(Splitter { start: args.start, rev: args.rev }), outputs),
            &inputs,
        );
        proof {
            assert(final(self).graph.edges@ =~= old(self).graph.edges@.push(
                Edge { port_out: args.input, port_in: Port { node: id, port: 0 } },
            ));
        }
        id
    }
}


impl Module {
    /// Adds one dyadic operation over two equal-width producers.
    pub fn add_bin_op(
        &mut self,
        op: crate::const_val::BinOp,
        lhs: Port,
        rhs: Port,
        ty: NodeTy,
        sym: Option<String>,
    ) -> (r: Port)
        requires
            old(self).wf(),
            old(self).port_valid(lhs),
            old(self).port_valid(rhs),
        ensures
            final(self).wf(),
            r == (Port { node: old(self).graph.nodes.len(), port: 0 }),
            final(self).graph.nodes@ == old(self).graph.nodes@.push(
                final(self).graph.nodes@.last(),
            ),
            final(self).graph.nodes@.last().kind == NodeKind::BinOp(BinOpNode { bin_op: op }),
            final(self).graph.nodes@.last().outputs@ == seq![
                NodeOutput { ty, sym, skip: true },
            ],
            final(self).graph.edges@ == old(self).graph.edges@.push(
                Edge { port_out: lhs, port_in: Port { node: r.node, port: 0 } },
            ).push(Edge { port_out: rhs, port_in: Port { node: r.node, port: 1 } }),
            final(self).same_meta(*old(self)),
            final(self).same_ports(*old(self)),
    {
        let mut outputs: Vec<NodeOutput> = Vec::new();
        outputs.push(NodeOutput::wire(ty, sym));
        let mut inputs: Vec<Port> = Vec::new();
        inputs.push(lhs);
        inputs.push(rhs);
        let id = self.add_node_with_inputs(
            Node::new(NodeKind::BinOp(BinOpNode { bin_op: op }), outputs),
            &inputs,
        );
        proof {
            assert(outputs@ =~= seq![NodeOutput { ty, sym, skip: true }]);
            assert(final(self).graph.edges@ =~= old(self).graph.edges@.push(
                Edge { port_out: lhs, port_in: Port { node: id, port: 0 } },
            ).push(Edge { port_out: rhs, port_in: Port { node: id, port: 1 } }));
        }
        Port { node: id, port: 0 }
    }

    /// Adds a bitwise complement of one producer.
    pub fn add_bit_not(&mut self, input: Port, ty: NodeTy, sym: Option<String>) -> (r: Port)
        requires
            old(self).wf(),
            old(self).port_valid(input),
        ensures
            final(self).wf(),
            r == (Port { node: old(self).graph.nodes.len(), port: 0 }),
            final(self).graph.nodes@ == old(self).graph.nodes@.push(
                final(self).graph.nodes@.last(),
            ),
            final(self).graph.nodes@.last().kind == NodeKind::BitNot(BitNot {}),
            final(self).graph.nodes@.last().outputs@ == seq![
                NodeOutput { ty, sym, skip: true },
            ],
            final(self).graph.edges@ == old(self).graph.edges@.push(
                Edge { port_out: input, port_in: Port { node: r.node, port: 0 } },
            ),
            final(self).same_meta(*old(self)),
            final(self).same_ports(*old(self)),
    {
        let mut outputs: Vec<NodeOutput> = Vec::new();
        outputs.push(NodeOutput::wire(ty, sym));
        let mut inputs: Vec<Port> = Vec::new();
        inputs.push(input);
        let id = self.add_node_with_inputs(
            Node::new(NodeKind::BitNot(BitNot {}), outputs),
            &inputs,
        );
        proof {
            assert(outputs@ =~= seq![NodeOutput { ty, sym, skip: true }]);
            assert(final(self).graph.edges@ =~= old(self).graph.edges@.push(
                Edge { port_out: input, port_in: Port { node: id, port: 0 } },
            ));
        }
        Port { node: id, port: 0 }
    }

    /// Adds a zero- or sign-extension of one producer to a wider type.
    pub fn add_extend(
        &mut self,
        input: Port,
        ty: NodeTy,
        sym: Option<String>,
        is_signed: bool,
    ) -> (r: Port)
        requires
            old(self).wf(),
            old(self).port_valid(input),
        ensures
            final(self).wf(),
            r == (Port { node: old(self).graph.nodes.len(), port: 0 }),
            final(self).graph.nodes@ == old(self).graph.nodes@.push(
                final(self).graph.nodes@.last(),
            ),
            final(self).graph.nodes@.last().kind == NodeKind::Extend(Extend { is_signed }),
            final(self).graph.nodes@.last().outputs@ == seq![
                NodeOutput { ty, sym, skip: true },
            ],
            final(self).graph.edges@ == old(self).graph.edges@.push(
                Edge { port_out: input, port_in: Port { node: r.node, port: 0 } },
            ),
            final(self).same_meta(*old(self)),
            final(self).same_ports(*old(self)),
    {
        let mut outputs: Vec<NodeOutput> = Vec::new();
        outputs.push(NodeOutput::wire(ty, sym));
        let mut inputs: Vec<Port> = Vec::new();
        inputs.push(input);
        let id = self.add_node_with_inputs(
            Node::new(NodeKind::Extend(Extend { is_signed }), outputs),
            &inputs,
        );
        proof {
            assert(outputs@ =~= seq![NodeOutput { ty, sym, skip: true }]);
            assert(final(self).graph.edges@ =~= old(self).graph.edges@.push(
                Edge { port_out: input, port_in: Port { node: id, port: 0 } },
            ));
        }
        Port { node: id, port: 0 }
    }

    /// Adds an N-way select. Input positions: the selector first, then one
    /// full set of value ports per case, in case order.
    pub fn add_switch(&mut self, args: SwitchArgs) -> (r: usize)
        requires
            old(self).wf(),
            old(self).port_valid(args.sel),
            forall|c: int, k: int|
                0 <= c < args.variants.len() && 0 <= k < (#[trigger] args.variants@[c]).1.len()
                    ==> old(self).port_valid(#[trigger] args.variants@[c].1@[k]),
        ensures
            final(self).wf(),
            r == old(self).graph.nodes.len(),
            final(self).graph.nodes.len() == old(self).graph.nodes.len() + 1,
            forall|i: int|
                0 <= i < old(self).graph.nodes.len() ==> final(self).graph.nodes@[i] == old(
                    self,
                ).graph.nodes@[i],
            final(self).graph.nodes@.last().kind matches NodeKind::Switch(sw) && sw.cases.len()
                == args.variants.len() && (forall|c: int|
                0 <= c < args.variants.len() ==> crate::node::case_equiv(
                    sw.cases@[c],
                    (#[trigger] args.variants@[c]).0,
                )),
            final(self).graph.nodes@.last().outputs.len() == args.outputs.len(),
            final(self).graph.edges@ == old(self).graph.edges@ + Seq::new(
                (seq![args.sel] + switch_arg_ports(args.variants@, args.variants@.len() as int)).len(),
                |k: int| Edge {
                    port_out: (seq![args.sel] + switch_arg_ports(
                        args.variants@,
                        args.variants@.len() as int,
                    ))[k],
                    port_in: Port { node: r, port: k as usize },
                },
            ),
            final(self).same_meta(*old(self)),
            final(self).same_ports(*old(self)),
    {
        let mut outputs: Vec<NodeOutput> = Vec::new();
        let mut k: usize = 0;
        while k < args.outputs.len()
            invariant
                k <= args.outputs.len(),
                outputs.len() == k,
            decreases args.outputs.len() - k,
        {
            let (ty, sym) = &args.outputs[k];
            outputs.push(NodeOutput::wire(*ty, clone_sym(sym)));
            k = k + 1;
        }
        let mut cases: Vec<SwitchCase> = Vec::new();
        let mut inputs: Vec<Port> = Vec::new();
        inputs.push(args.sel);
        let mut c: usize = 0;
        while c < args.variants.len()
            invariant
                c <= args.variants.len(),
                cases.len() == c,
                inputs@ == seq![args.sel] + switch_arg_ports(args.variants@, c as int),
                forall|j: int|
                    0 <= j < c ==> crate::node::case_equiv(
                        cases@[j],
                        (#[trigger] args.variants@[j]).0,
                    ),
                forall|j: int|
                    0 <= j < inputs.len() ==> old(self).port_valid(#[trigger] inputs@[j]),
                forall|ci: int, kk: int|
                    0 <= ci < args.variants.len() && 0 <= kk < (
                    #[trigger] args.variants@[ci]).1.len() ==> old(self).port_valid(
                        #[trigger] args.variants@[ci].1@[kk],
                    ),
                old(self).port_valid(args.sel),
            decreases args.variants.len() - c,
        {
            let (case, chunk) = &args.variants[c];
            cases.push(case.duplicate());
            let mut k2: usize = 0;
            while k2 < chunk.len()
                invariant
                    k2 <= chunk.len(),
                    0 <= c < args.variants.len(),
                    *chunk == args.variants@[c as int].1,
                    inputs@ == seq![args.sel] + switch_arg_ports(args.variants@, c as int)
                        + chunk@.take(k2 as int),
                    forall|j: int|
                        0 <= j < inputs.len() ==> old(self).port_valid(#[trigger] inputs@[j]),
                    forall|ci: int, kk: int|
                        0 <= ci < args.variants.len() && 0 <= kk < (
                        #[trigger] args.variants@[ci]).1.len() ==> old(self).port_valid(
                            #[trigger] args.variants@[ci].1@[kk],
                        ),
                decreases chunk.len() - k2,
            {
                inputs.push(chunk[k2]);
                k2 = k2 + 1;
                proof {
                    assert(inputs@ =~= seq![args.sel] + switch_arg_ports(
                        args.variants@,
                        c as int,
                    ) + chunk@.take(k2 as int));
                }
            }
            c = c + 1;
            proof {
                assert(chunk@.take(chunk@.len() as int) =~= chunk@);
                assert(inputs@ =~= seq![args.sel] + switch_arg_ports(args.variants@, c as int));
            }
        }
        proof {
            assert(inputs@ =~= seq![args.sel] + switch_arg_ports(
                args.variants@,
                args.variants@.len() as int,
            ));
        }
        let id = self.add_node_with_inputs(
            Node::new(NodeKind::Switch(Switch { cases }), outputs),
            &inputs,
        );
        id
    }

    /// Adds a register. The data input may be deferred to a second phase
    /// (`set_dff_data`), because it may read the register's own output.
    pub fn add_dff(&mut self, args: DFFArgs) -> (r: Port)
        requires
            old(self).wf(),
            old(self).port_valid(args.clk),
            old(self).port_valid(args.init),
            args.rst matches Some(p) ==> old(self).port_valid(p),
            args.en matches Some(p) ==> old(self).port_valid(p),
            args.data matches TyOrData::Data(p) ==> old(self).port_valid(p),
        ensures
            final(self).wf(),
            r == (Port { node: old(self).graph.nodes.len(), port: 0 }),
            final(self).graph.nodes.len() == old(self).graph.nodes.len() + 1,
            forall|i: int|
                0 <= i < old(self).graph.nodes.len() ==> final(self).graph.nodes@[i] == old(
                    self,
                ).graph.nodes@[i],
            final(self).graph.nodes@.last().kind matches NodeKind::DFF(d) && d.rst_kind
                == args.rst_kind && d.rst_pol == args.rst_pol && d.has_rst == (args.rst is Some)
                && d.has_en == (args.en is Some) && d.has_data == (args.data is Data),
            final(self).graph.nodes@.last().outputs.len() == 1,
            final(self).graph.edges@ == old(self).graph.edges@ + Seq::new(
                dff_arg_ports(args).len(),
                |k: int| Edge {
                    port_out: dff_arg_ports(args)[k],
                    port_in: Port { node: r.node, port: k as usize },
                },
            ),
            final(self).same_meta(*old(self)),
            final(self).same_ports(*old(self)),
    {
        let ty = match &args.data {
            TyOrData::Ty(ty) => *ty,
            TyOrData::Data(p) => self.output_at(*p).ty,
        };
        let mut outputs: Vec<NodeOutput> = Vec::new();
        outputs.push(NodeOutput::wire(ty, args.sym));
        let mut inputs: Vec<Port> = Vec::new();
        inputs.push(args.clk);
        let has_rst = match &args.rst {
            Some(p) => {
                inputs.push(*p);
                true
            },
            None => false,
        };
        let has_en = match &args.en {
            Some(p) => {
                inputs.push(*p);
                true
            },
            None => false,
        };
        inputs.push(args.init);
        let has_data = match &args.data {
            TyOrData::Data(p) => {
                inputs.push(*p);
                true
            },
            TyOrData::Ty(_) => false,
        };
        proof {
            assert(inputs@ =~= dff_arg_ports(args));
        }
        let dff = DFF { rst_kind: args.rst_kind, rst_pol: args.rst_pol, has_rst, has_en, has_data };
        let id = self.add_node_with_inputs(Node::new(NodeKind::DFF(dff), outputs), &inputs);
        Port { node: id, port: 0 }
    }

    /// Binds the deferred data input of a register (second construction
    /// phase).
    pub fn set_dff_data(&mut self, node_id: usize, data: Port)
        requires
            old(self).wf(),
            node_id < old(self).graph.nodes.len(),
            old(self).port_valid(data),
            old(self).graph.nodes[node_id as int].kind is DFF,
        ensures
            final(self).wf(),
            final(self).graph.nodes.len() == old(self).graph.nodes.len(),
            final(self).same_meta(*old(self)),
            final(self).same_ports(*old(self)),
            final(self).graph.nodes[node_id as int].kind matches NodeKind::DFF(d) && d.has_data
                && final(self).graph.edges@ == old(self).graph.edges@.push(
                Edge { port_out: data, port_in: Port { node: node_id, port: d.data_pos_spec() } },
            ),
    {
        let (dff, outputs, skip) = match &self.graph.nodes[node_id].kind {
            NodeKind::DFF(d) => {
                let mut d2 = *d;
                d2.has_data = true;
                let node = &self.graph.nodes[node_id];
                let mut outs: Vec<NodeOutput> = Vec::new();
                let mut i: usize = 0;
                while i < node.outputs.len()
                    invariant
                        i <= node.outputs.len(),
                        outs.len() == i,
                        node == &old(self).graph.nodes[node_id as int],
                        forall|j: int| 0 <= j < i ==> outs@[j] == node.outputs@[j],
                    decreases node.outputs.len() - i,
                {
                    outs.push(node.outputs[i].duplicate());
                    i = i + 1;
                }
                (d2, outs, node.skip)
            },
            _ => {
                return ;
            },
        };
        let pos = dff.init_pos() + 1;
        let node = Node { kind: NodeKind::DFF(dff), outputs, skip };
        self.graph.insert_node(node_id, node);
        self.graph.add_edge(data, Port { node: node_id, port: pos });
        proof {
            assert(forall|i: int|
                0 <= i < final(self).graph.edges.len() - 1 ==> final(self).graph.edges[i] == old(
                    self,
                ).graph.edges[i]);
        }
    }

    /// Instantiates another module: inputs and outputs positionally mirror
    /// the target's designated ports.
    pub fn add_mod_inst(
        &mut self,
        mod_id: usize,
        name: Option<String>,
        inputs: &Vec<Port>,
        output_tys: &Vec<(NodeTy, Option<String>)>,
    ) -> (r: usize)
        requires
            old(self).wf(),
            forall|k: int| 0 <= k < inputs.len() ==> old(self).port_valid(#[trigger] inputs@[k]),
        ensures
            final(self).wf(),
            r == old(self).graph.nodes.len(),
            final(self).graph.nodes.len() == old(self).graph.nodes.len() + 1,
            forall|i: int|
                0 <= i < old(self).graph.nodes.len() ==> final(self).graph.nodes@[i] == old(
                    self,
                ).graph.nodes@[i],
            final(self).graph.nodes@.last().kind matches NodeKind::ModInst(m) && m.mod_id == mod_id
                && m.in_count == inputs.len(),
            final(self).graph.nodes@.last().outputs.len() == output_tys.len(),
            final(self).graph.edges@ == old(self).graph.edges@ + Seq::new(
                inputs.len() as nat,
                |k: int| Edge { port_out: inputs@[k], port_in: Port { node: r, port: k as usize } },
            ),
            final(self).same_meta(*old(self)),
            final(self).same_ports(*old(self)),
    {
        let mut outputs: Vec<NodeOutput> = Vec::new();
        let mut k: usize = 0;
        while k < output_tys.len()
            invariant
                k <= output_tys.len(),
                outputs.len() == k,
            decreases output_tys.len() - k,
        {
            let (ty, sym) = &output_tys[k];
            outputs.push(NodeOutput::wire(*ty, clone_sym(sym)));
            k = k + 1;
        }
        let inst = ModInst { mod_id, name, in_count: inputs.len() };
        self.add_node_with_inputs(Node::new(NodeKind::ModInst(inst), outputs), inputs)
    }

    /// Whether a port resolves to a compile-time constant, through identity
    /// buffers, with bounded lookback.
    pub open spec fn const_of_fuel(self, p: Port, fuel: nat) -> Option<ConstVal>
        decreases fuel,
    {
        if !self.port_valid(p) {
            None
        } else {
            let node = self.graph.nodes[p.node as int];
            let w = node.outputs[p.port as int].ty.width_spec();
            match node.kind {
                NodeKind::Const(c) => if w <= 128 {
                    Some(ConstVal::mk(c.value, w))
                } else {
                    None
                },
                NodeKind::MultiConst(mc) => if p.port < mc.values.len() && w <= 128 {
                    Some(ConstVal::mk(mc.values[p.port as int], w))
                } else {
                    None
                },
                NodeKind::Pass(_) => if fuel == 0 {
                    None
                } else {
                    match crate::graph::first_input(self.graph.edges@, p.node, 0) {
                        Some(src) => self.const_of_fuel(src, (fuel - 1) as nat),
                        None => None,
                    }
                },
                _ => None,
            }
        }
    }

    /// The compile-time value of a port, where it is known.
    pub open spec fn const_of(self, p: Port) -> Option<ConstVal> {
        self.const_of_fuel(p, self.graph.nodes.len() as nat)
    }

    /// A resolved constant is well-formed.
    pub proof fn lemma_const_of_wf(self, p: Port, fuel: nat)
        ensures
            self.const_of_fuel(p, fuel) matches Some(v) ==> v.wf(),
        decreases fuel,
    {
        if self.port_valid(p) {
            let node = self.graph.nodes[p.node as int];
            let w = node.outputs[p.port as int].ty.width_spec();
            match node.kind {
                NodeKind::Const(c) => {
                    if w <= 128 {
                        ConstVal::lemma_mk_wf(c.value, w);
                    }
                },
                NodeKind::MultiConst(mc) => {
                    if p.port < mc.values.len() && w <= 128 {
                        ConstVal::lemma_mk_wf(mc.values[p.port as int], w);
                    }
                },
                NodeKind::Pass(_) => {
                    if fuel > 0 {
                        match crate::graph::first_input(self.graph.edges@, p.node, 0) {
                            Some(src) => self.lemma_const_of_wf(src, (fuel - 1) as nat),
                            None => {},
                        }
                    }
                },
                _ => {},
            }
        }
    }

    /// Queries whether `p` currently resolves to a known constant, and to its
    /// value if so.
    ///
    /// The query resolves through identity buffers only. A constant slice of
    /// a splitter, or an instantiation of an all-constant module, is not
    /// answered here: the optimizer folds those nodes into constants
    /// themselves, after which this query sees them directly.
    pub fn to_const(&self, p: Port) -> (r: Option<ConstVal>)
        ensures
            r == self.const_of(p),
            r matches Some(v) ==> v.wf(),
    {
        proof {
            self.lemma_const_of_wf(p, self.graph.nodes.len() as nat);
        }
        self.to_const_fuel(p, self.graph.node_count())
    }

    fn to_const_fuel(&self, p: Port, fuel: usize) -> (r: Option<ConstVal>)
        ensures
            r == self.const_of_fuel(p, fuel as nat),
        decreases fuel,
    {
        if p.node >= self.graph.nodes.len() {
            return None;
        }
        let node = &self.graph.nodes[p.node];
        if p.port >= node.outputs.len() {
            return None;
        }
        let w = node.outputs[p.port].ty.width();
        match &node.kind {
            NodeKind::Const(c) => if w <= 128 {
                Some(ConstVal::new(c.value, w))
            } else {
                None
            },
            NodeKind::MultiConst(mc) => if p.port < mc.values.len() && w <= 128 {
                Some(ConstVal::new(mc.values[p.port], w))
            } else {
                None
            },
            NodeKind::Pass(_) => {
                if fuel == 0 {
                    None
                } else {
                    match self.graph.input_at(p.node, 0) {
                        Some(src) => self.to_const_fuel(src, fuel - 1),
                        None => None,
                    }
                }
            },
            _ => None,
        }
    }

    /// Replaces the node at `node_id` with a different kind in place: its
    /// input edges are dropped and rewired to `inputs`, its outgoing edges
    /// are preserved (the output count must not shrink).
    pub fn replace_node(&mut self, node_id: usize, node: Node, inputs: &Vec<Port>)
        requires
            old(self).wf(),
            node_id < old(self).graph.nodes.len(),
            node.outputs.len() == old(self).graph.nodes[node_id as int].outputs.len(),
            forall|k: int| 0 <= k < inputs.len() ==> old(self).port_valid(#[trigger] inputs@[k]),
        ensures
            final(self).wf(),
            final(self).graph.nodes@ == old(self).graph.nodes@.update(node_id as int, node),
            final(self).graph.edges@ == old(self).graph.edges@.filter(
                |e: Edge| e.port_in.node != node_id,
            ) + Seq::new(
                inputs.len() as nat,
                |k: int| Edge {
                    port_out: inputs@[k],
                    port_in: Port { node: node_id, port: k as usize },
                },
            ),
            final(self).same_meta(*old(self)),
            final(self).same_ports(*old(self)),
    {
        self.graph.remove_inc_edges(node_id);
        self.graph.insert_node(node_id, node);
        proof {
            assert(forall|q: Port| old(self).port_valid(q) ==> self.port_valid(q)) by {
                assert(forall|q: Port|
                    q.node < self.graph.nodes.len() && q.node != node_id ==> self.graph.nodes[q.node as int]
                        == old(self).graph.nodes[q.node as int]);
            }
            crate::graph::lemma_filter_is_subset(
                old(self).graph.edges@,
                |e: Edge| e.port_in.node != node_id,
            );
            assert(forall|i: int|
                0 <= i < self.graph.edges.len() ==> old(self).graph.edges@.contains(
                    #[trigger] self.graph.edges@[i],
                ));
        }
        let ghost mid_edges = self.graph.edges@;
        let ghost added = Seq::new(
            inputs.len() as nat,
            |k: int| Edge {
                port_out: inputs@[k],
                port_in: Port { node: node_id, port: k as usize },
            },
        );
        let mut k: usize = 0;
        while k < inputs.len()
            invariant
                k <= inputs.len(),
                node_id < self.graph.nodes.len(),
                self.wf(),
                self.graph.nodes@ == old(self).graph.nodes@.update(node_id as int, node),
                self.same_meta(*old(self)),
                self.same_ports(*old(self)),
                forall|j: int| 0 <= j < inputs.len() ==> self.port_valid(#[trigger] inputs@[j]),
                added == Seq::new(
                    inputs.len() as nat,
                    |j: int| Edge {
                        port_out: inputs@[j],
                        port_in: Port { node: node_id, port: j as usize },
                    },
                ),
                self.graph.edges@ == mid_edges + added.take(k as int),
            decreases inputs.len() - k,
        {
            let p = inputs[k];
            self.graph.add_edge(p, Port { node: node_id, port: k });
            k = k + 1;
            proof {
                assert(added.take(k as int) =~= added.take(k - 1).push(added[k - 1]));
                assert(self.graph.edges@ == mid_edges + added.take(k as int));
            }
        }
        proof {
            assert(added.take(inputs.len() as int) =~= added);
        }
    }

    /// Rewires every consumer of every output of `node_id` to the
    /// corresponding entry of `new_ports`, and retargets designated module
    /// outputs the same way. Insertion order within each consumer's adjacency
    /// is preserved (edges are rewritten in place).
    pub fn reconnect_all_outgoing(&mut self, node_id: usize, new_ports: &Vec<Port>)
        requires
            old(self).wf(),
            forall|k: int|
                0 <= k < new_ports.len() ==> old(self).port_valid(#[trigger] new_ports@[k]),
        ensures
            final(self).wf(),
            final(self).graph.edges@ == redirect_edges_spec(
                old(self).graph.edges@,
                node_id,
                new_ports@,
            ),
            final(self).graph.nodes == old(self).graph.nodes,
            final(self).mod_outputs@ == old(self).mod_outputs@.map_values(
                |p: Port| redirect_port(p, node_id, new_ports@),
            ),
            final(self).mod_inputs == old(self).mod_inputs,
            final(self).same_meta(*old(self)),
    {
        let ghost orig = self.graph.edges@;
        let mut i: usize = 0;
        while i < self.graph.edges.len()
            invariant
                i <= self.graph.edges.len(),
                self.graph.edges.len() == orig.len(),
                self.graph.nodes == old(self).graph.nodes,
                self.mod_inputs == old(self).mod_inputs,
                self.mod_outputs == old(self).mod_outputs,
                self.same_meta(*old(self)),
                old(self).wf(),
                forall|k: int|
                    0 <= k < new_ports.len() ==> old(self).port_valid(#[trigger] new_ports@[k]),
                forall|j: int| i <= j < orig.len() ==> self.graph.edges@[j] == orig[j],
                forall|j: int|
                    0 <= j < i ==> self.graph.edges@[j] == redirect_edges_spec(
                        orig,
                        node_id,
                        new_ports@,
                    )[j],
            decreases self.graph.edges.len() - i,
        {
            let e = self.graph.edges[i];
            if e.port_out.node == node_id && e.port_out.port < new_ports.len() {
                let np = new_ports[e.port_out.port];
                self.graph.edges.set(i, Edge { port_out: np, port_in: e.port_in });
            }
            i = i + 1;
        }
        proof {
            assert(self.graph.edges@ =~= redirect_edges_spec(orig, node_id, new_ports@));
        }
        let ghost orig_outs = self.mod_outputs@;
        let mut j: usize = 0;
        while j < self.mod_outputs.len()
            invariant
                j <= self.mod_outputs.len(),
                self.mod_outputs.len() == orig_outs.len(),
                self.graph.edges@ == redirect_edges_spec(orig, node_id, new_ports@),
                self.graph.nodes == old(self).graph.nodes,
                self.mod_inputs == old(self).mod_inputs,
                self.same_meta(*old(self)),
                old(self).wf(),
                forall|k: int|
                    0 <= k < new_ports.len() ==> old(self).port_valid(#[trigger] new_ports@[k]),
                forall|k: int| j <= k < orig_outs.len() ==> self.mod_outputs@[k] == orig_outs[k],
                forall|k: int|
                    0 <= k < j ==> self.mod_outputs@[k] == redirect_port(
                        orig_outs[k],
                        node_id,
                        new_ports@,
                    ),
            decreases self.mod_outputs.len() - j,
        {
            let p = self.mod_outputs[j];
            if p.node == node_id && p.port < new_ports.len() {
                let np = new_ports[p.port];
                self.mod_outputs.set(j, np);
            }
            j = j + 1;
        }
        proof {
            assert(self.mod_outputs@ =~= orig_outs.map_values(
                |p: Port| redirect_port(p, node_id, new_ports@),
            ));
        }
    }

    /// Eliminates a single-output buffer: its consumers read directly from
    /// its input, and its own input edges are severed.
    pub fn reconnect(&mut self, node_id: usize)
        requires
            old(self).wf(),
            node_id < old(self).graph.nodes.len(),
        ensures
            final(self).wf(),
            final(self).graph.nodes == old(self).graph.nodes,
            final(self).mod_inputs == old(self).mod_inputs,
            final(self).same_meta(*old(self)),
            match crate::graph::first_input(old(self).graph.edges@, node_id, 0) {
                Some(src) => {
                    &&& final(self).graph.edges@ == redirect_edges_spec(
                        old(self).graph.edges@,
                        node_id,
                        seq![src],
                    ).filter(|e: Edge| e.port_in.node != node_id)
                    &&& final(self).mod_outputs@ == old(self).mod_outputs@.map_values(
                        |p: Port| redirect_port(p, node_id, seq![src]),
                    )
                },
                None => final(self).graph.edges == old(self).graph.edges
                    && final(self).mod_outputs == old(self).mod_outputs,
            },
    {
        let src = match self.graph.input_at(node_id, 0) {
            Some(src) => src,
            None => {
                return ;
            },
        };
        proof {
            crate::graph::lemma_first_input_is_input(self.graph.edges@, node_id, 0);
            let j = choose|j: int|
                0 <= j < self.graph.edges@.len() && (#[trigger] self.graph.edges@[j]).port_out
                    == src;
            assert(self.port_valid(src));
        }
        let mut ports: Vec<Port> = Vec::new();
        ports.push(src);
        proof {
            assert(ports@ =~= seq![src]);
        }
        self.reconnect_all_outgoing(node_id, &ports);
        let ghost mid = *self;
        self.graph.remove_inc_edges(node_id);
        proof {
            crate::graph::lemma_filter_is_subset(
                mid.graph.edges@,
                |e: Edge| e.port_in.node != node_id,
            );
            assert(forall|i: int|
                0 <= i < self.graph.edges.len() ==> mid.graph.edges@.contains(
                    #[trigger] self.graph.edges@[i],
                ));
        }
    }
}


/// The sum of the widths of the first `k` outputs.
pub open spec fn sum_out_widths(outs: Seq<NodeOutput>, k: int) -> int
    decreases k,
{
    if k <= 0 {
        0
    } else {
        sum_out_widths(outs, k - 1) + outs[k - 1].ty.width_spec()
    }
}

pub proof fn lemma_sum_out_widths_nonneg(outs: Seq<NodeOutput>, k: int)
    ensures
        sum_out_widths(outs, k) >= 0,
    decreases k,
{
    if k > 0 {
        lemma_sum_out_widths_nonneg(outs, k - 1);
    }
}

/// A width-sum prefix never shrinks as it extends.
pub proof fn lemma_items_widths_suffix(outs: Seq<NodeOutput>, k: int, n: int)
    requires
        0 <= k <= n <= outs.len(),
    ensures
        sum_out_widths(outs, n) >= sum_out_widths(outs, k),
    decreases n - k,
{
    if k < n {
        lemma_items_widths_suffix(outs, k + 1, n);
        lemma_sum_out_widths_nonneg(outs, k);
        assert(sum_out_widths(outs, k + 1) == sum_out_widths(outs, k) + outs[k].ty.width_spec());
    }
}

/// A splitter that reproduces its input unchanged: a single output of the
/// input's full width, from offset zero.
pub open spec fn splitter_full_range(m: Module, node_id: usize) -> bool {
    &&& m.graph.nodes[node_id as int].kind matches NodeKind::Splitter(sp) && (sp.start is None
        || sp.start == Some(0u128))
    &&& m.graph.nodes[node_id as int].outputs.len() == 1
    &&& match crate::graph::first_input(m.graph.edges@, node_id, 0) {
        Some(src) => m.port_width_spec(src) == m.graph.nodes[node_id as int].outputs[0].ty.width_spec(),
        None => false,
    }
}

/// The low-bit offset of splitter output `k`: consecutive ranges from the
/// declared start, walked from the top of the input downward when reversed.
pub open spec fn splitter_offset_spec(
    m: Module,
    node_id: usize,
    k: int,
    w_in: int,
    s0: int,
    rev: bool,
) -> int {
    let outs = m.graph.nodes[node_id as int].outputs@;
    if rev {
        w_in - s0 - sum_out_widths(outs, k + 1)
    } else {
        s0 + sum_out_widths(outs, k)
    }
}

/// The splitter's declared ranges fit its input: the start offset plus every
/// output width stays within the input width.
pub open spec fn splitter_fits(m: Module, node_id: usize, w_in: int, s0: int) -> bool {
    s0 + sum_out_widths(
        m.graph.nodes[node_id as int].outputs@,
        m.graph.nodes[node_id as int].outputs.len() as int,
    ) <= w_in
}

/// A merger can cancel against a splitter: the splitter's output widths
/// positionally match the widths of the merger's input producers.
pub open spec fn merger_splitter_reversible(m: Module, merger_id: usize, splitter_id: usize) -> bool {
    &&& m.graph.nodes[merger_id as int].kind matches NodeKind::Merger(mg) && mg.inputs
        == m.graph.nodes[splitter_id as int].outputs.len()
    &&& forall|k: int|
        0 <= k < m.graph.nodes[splitter_id as int].outputs.len()
            ==> match #[trigger] crate::graph::first_input(m.graph.edges@, merger_id, k as usize) {
            Some(src) => m.port_width_spec(src)
                == m.graph.nodes[splitter_id as int].outputs[k].ty.width_spec(),
            None => false,
        }
}

/// The effect of cancelling a merger/splitter pair: one fresh identity node
/// per splitter output, carrying that output's type and symbol, wired from
/// the merger's corresponding input producer; every consumer of splitter
/// output `k` (designated outputs included) now reads identity node `k`; no
/// existing node changes.
pub open spec fn cancellation_spec(a: Module, b: Module, merger_id: usize, splitter_id: usize) -> bool {
    let m_outs = a.graph.nodes[splitter_id as int].outputs.len() as int;
    let old_len = a.graph.nodes.len() as int;
    let pass_seq = Seq::new(m_outs as nat, |k: int| Port { node: (old_len + k) as usize, port: 0 });
    let added_seq = Seq::new(
        m_outs as nat,
        |k: int| Edge {
            port_out: crate::graph::first_input(a.graph.edges@, merger_id, k as usize)->Some_0,
            port_in: Port { node: (old_len + k) as usize, port: 0 },
        },
    );
    &&& b.graph.nodes.len() as int == old_len + m_outs
    &&& (forall|n: int| 0 <= n < old_len ==> b.graph.nodes@[n] == a.graph.nodes@[n])
    &&& (forall|k: int|
        0 <= k < m_outs ==> (#[trigger] b.graph.nodes@[old_len + k]).kind == NodeKind::Pass(
            PassNode {  },
        ) && b.graph.nodes@[old_len + k].outputs@ =~= seq![
            NodeOutput {
                ty: a.graph.nodes[splitter_id as int].outputs@[k].ty,
                sym: a.graph.nodes[splitter_id as int].outputs@[k].sym,
                skip: true,
            },
        ])
    &&& b.graph.edges@ == redirect_edges_spec(a.graph.edges@ + added_seq, splitter_id, pass_seq)
    &&& b.mod_outputs@ == a.mod_outputs@.map_values(
        |p: Port| redirect_port(p, splitter_id, pass_seq),
    )
}

/// Edges appended behind the original list, all entering fresh nodes at or
/// beyond `old_len`, leave every first-input lookup of an older node as it
/// was.
pub proof fn lemma_first_input_append_pass(
    orig: Seq<Edge>,
    added: Seq<Edge>,
    node_id: usize,
    pos: usize,
    old_len: int,
)
    requires
        (node_id as int) < old_len,
        forall|j: int| 0 <= j < added.len() ==> (#[trigger] added[j]).port_in.node as int >= old_len,
    ensures
        crate::graph::first_input(orig + added, node_id, pos) == crate::graph::first_input(
            orig,
            node_id,
            pos,
        ),
    decreases orig.len(),
{
    if orig.len() == 0 {
        lemma_first_input_none_when_foreign(added, node_id, pos, old_len);
        assert((orig + added) =~= added);
    } else {
        assert((orig + added)[0] == orig[0]);
        if !(orig[0].port_in.node == node_id && orig[0].port_in.port == pos) {
            lemma_first_input_append_pass(orig.drop_first(), added, node_id, pos, old_len);
            assert((orig + added).drop_first() =~= orig.drop_first() + added);
        }
    }
}

/// No first input exists among edges that all enter fresh nodes.
proof fn lemma_first_input_none_when_foreign(
    added: Seq<Edge>,
    node_id: usize,
    pos: usize,
    old_len: int,
)
    requires
        (node_id as int) < old_len,
        forall|j: int| 0 <= j < added.len() ==> (#[trigger] added[j]).port_in.node as int >= old_len,
    ensures
        crate::graph::first_input(added, node_id, pos) is None,
    decreases added.len(),
{
    if added.len() > 0 {
        assert(added[0].port_in.node != node_id);
        lemma_first_input_none_when_foreign(added.drop_first(), node_id, pos, old_len);
        assert(forall|j: int|
            0 <= j < added.drop_first().len() ==> (#[trigger] added.drop_first()[j]).port_in.node as int
                >= old_len);
    }
}

/// The producer ports of every edge entering `node_id`, in adjacency order.
pub open spec fn incoming_sources(edges: Seq<Edge>, node_id: usize) -> Seq<Port> {
    edges.filter(|e: Edge| e.port_in.node == node_id).map_values(|e: Edge| e.port_out)
}

impl Module {
    /// The producer ports wired into `node_id`, in adjacency order.
    pub fn incoming_ports(&self, node_id: usize) -> (r: Vec<Port>)
        ensures
            r@ == incoming_sources(self.graph.edges@, node_id),
            self.wf() ==> forall|k: int| 0 <= k < r.len() ==> self.port_valid(#[trigger] r@[k]),
    {
        let ghost orig = self.graph.edges@;
        let ghost pred = |e: Edge| e.port_in.node == node_id;
        let mut out: Vec<Port> = Vec::new();
        let mut i: usize = 0;
        while i < self.graph.edges.len()
            invariant
                i <= self.graph.edges.len(),
                orig == self.graph.edges@,
                pred == (|e: Edge| e.port_in.node == node_id),
                out@ == orig.take(i as int).filter(pred).map_values(|e: Edge| e.port_out),
                self.wf() ==> forall|k: int|
                    0 <= k < out.len() ==> self.port_valid(#[trigger] out@[k]),
            decreases self.graph.edges.len() - i,
        {
            let e = self.graph.edges[i];
            proof {
                assert(orig.take(i + 1).drop_last() =~= orig.take(i as int));
                assert(orig.take(i + 1).last() == orig[i as int]);
                assert(orig.take(i + 1).len() == i + 1 > 0);
                assert(orig.take(i + 1).filter(pred) == if pred(orig[i as int]) {
                    orig.take(i as int).filter(pred).push(orig[i as int])
                } else {
                    orig.take(i as int).filter(pred)
                }) by {
                    reveal_with_fuel(Seq::<_>::filter, 2);
                }
            }
            if e.port_in.node == node_id {
                out.push(e.port_out);
                proof {
                    assert(out@ =~= orig.take(i + 1).filter(pred).map_values(
                        |e2: Edge| e2.port_out,
                    ));
                }
            }
            i = i + 1;
        }
        proof {
            assert(orig.take(orig.len() as int) =~= orig);
        }
        out
    }

    /// The register inputs of a DFF node whose data input is already bound.
    pub fn dff_inputs(&self, node_id: usize) -> (r: Option<DFFInputs>)
        requires
            node_id < self.graph.nodes.len(),
        ensures
            match r {
                Some(di) => {
                    &&& self.graph.nodes[node_id as int].kind matches NodeKind::DFF(d)
                    &&& d.has_data
                    &&& crate::graph::first_input(self.graph.edges@, node_id, 0) == Some(di.clk)
                    &&& d.has_rst <==> di.rst is Some
                    &&& d.has_en <==> di.en is Some
                    &&& (d.has_rst ==> crate::graph::first_input(
                        self.graph.edges@,
                        node_id,
                        d.rst_pos_spec(),
                    ) == di.rst)
                    &&& (d.has_en ==> crate::graph::first_input(
                        self.graph.edges@,
                        node_id,
                        d.en_pos_spec(),
                    ) == di.en)
                    &&& crate::graph::first_input(
                        self.graph.edges@,
                        node_id,
                        d.init_pos_spec(),
                    ) == Some(di.init)
                    &&& crate::graph::first_input(
                        self.graph.edges@,
                        node_id,
                        d.data_pos_spec(),
                    ) == Some(di.data)
                    &&& self.wf() ==> self.port_valid(di.init)
                },
                None => !(self.graph.nodes[node_id as int].kind matches NodeKind::DFF(d)
                    && d.has_data && crate::graph::first_input(
                    self.graph.edges@,
                    node_id,
                    0,
                ) is Some && (d.has_rst ==> crate::graph::first_input(
                    self.graph.edges@,
                    node_id,
                    d.rst_pos_spec(),
                ) is Some) && (d.has_en ==> crate::graph::first_input(
                    self.graph.edges@,
                    node_id,
                    d.en_pos_spec(),
                ) is Some) && crate::graph::first_input(
                    self.graph.edges@,
                    node_id,
                    d.init_pos_spec(),
                ) is Some && crate::graph::first_input(
                    self.graph.edges@,
                    node_id,
                    d.data_pos_spec(),
                ) is Some),
            },
    {
        let d = match &self.graph.nodes[node_id].kind {
            NodeKind::DFF(d) => *d,
            _ => {
                return None;
            },
        };
        if !d.has_data {
            return None;
        }
        let clk = match self.graph.input_at(node_id, 0) {
            Some(p) => p,
            None => {
                return None;
            },
        };
        let mut pos: usize = 1;
        let rst = if d.has_rst {
            let p = match self.graph.input_at(node_id, pos) {
                Some(p) => p,
                None => {
                    return None;
                },
            };
            pos = pos + 1;
            Some(p)
        } else {
            None
        };
        let en = if d.has_en {
            let p = match self.graph.input_at(node_id, pos) {
                Some(p) => p,
                None => {
                    return None;
                },
            };
            pos = pos + 1;
            Some(p)
        } else {
            None
        };
        let init = match self.graph.input_at(node_id, pos) {
            Some(p) => p,
            None => {
                return None;
            },
        };
        let data = match self.graph.input_at(node_id, pos + 1) {
            Some(p) => p,
            None => {
                return None;
            },
        };
        proof {
            crate::graph::lemma_first_input_is_input(self.graph.edges@, node_id, pos);
            if self.wf() {
                let es = self.graph.edges@;
                let j = choose|j: int|
                    0 <= j < es.len() && (#[trigger] es[j]).port_in.node == node_id
                        && es[j].port_in.port == pos && es[j].port_out == init;
                assert(self.port_valid(es[j].port_out));
            }
        }
        Some(DFFInputs { clk, rst, en, init, data })
    }

    /// The value ports of one switch case: input positions `1 + c*m` through
    /// `1 + c*m + m - 1`, where `m` is the output count.
    pub fn switch_chunk(&self, node_id: usize, case_idx: usize) -> (r: Option<Vec<Port>>)
        requires
            node_id < self.graph.nodes.len(),
        ensures
            match r {
                Some(ports) => {
                    &&& ports.len() == self.graph.nodes[node_id as int].outputs.len()
                    &&& case_idx * self.graph.nodes[node_id as int].outputs.len() + 1
                        + self.graph.nodes[node_id as int].outputs.len() <= usize::MAX + 1
                    &&& self.wf() ==> forall|k: int|
                        0 <= k < ports.len() ==> self.port_valid(#[trigger] ports@[k])
                    &&& forall|k: int|
                        0 <= k < ports.len() ==> crate::graph::first_input(
                            self.graph.edges@,
                            node_id,
                            (1 + case_idx * self.graph.nodes[node_id as int].outputs.len() + k) as usize,
                        ) == Some(#[trigger] ports@[k])
                },
                None => case_idx * self.graph.nodes[node_id as int].outputs.len() + 1
                    + self.graph.nodes[node_id as int].outputs.len() > usize::MAX + 1 || exists|
                    k: int,
                |
                    0 <= k < self.graph.nodes[node_id as int].outputs.len()
                        && (#[trigger] crate::graph::first_input(
                        self.graph.edges@,
                        node_id,
                        (1 + case_idx * self.graph.nodes[node_id as int].outputs.len()
                            + k) as usize,
                    )) is None,
            },
    {
        let m = self.graph.nodes[node_id].outputs.len();
        let base = match case_idx.checked_mul(m) {
            Some(b) => match b.checked_add(1) {
                Some(b2) => b2,
                None => {
                    proof {
                        vstd::arithmetic::mul::lemma_mul_basics(case_idx as int);
                        assert(m != 0);
                    }
                    return None;
                },
            },
            None => {
                proof {
                    vstd::arithmetic::mul::lemma_mul_basics(case_idx as int);
                }
                return None;
            },
        };
        if m > 0 && base > usize::MAX - (m - 1) {
            return None;
        }
        let mut ports: Vec<Port> = Vec::new();
        let mut k: usize = 0;
        while k < m
            invariant
                k <= m,
                ports.len() == k,
                m == self.graph.nodes[node_id as int].outputs.len(),
                node_id < self.graph.nodes.len(),
                base == 1 + case_idx * m,
                m > 0 ==> base + m - 1 <= usize::MAX,
                forall|j: int|
                    0 <= j < k ==> crate::graph::first_input(
                        self.graph.edges@,
                        node_id,
                        (base + j) as usize,
                    ) == Some(#[trigger] ports@[j]),
                self.wf() ==> forall|j: int|
                    0 <= j < k ==> self.port_valid(#[trigger] ports@[j]),
            decreases m - k,
        {
            let p = match self.graph.input_at(node_id, base + k) {
                Some(p) => p,
                None => {
                    return None;
                },
            };
            proof {
                crate::graph::lemma_first_input_is_input(
                    self.graph.edges@,
                    node_id,
                    (base + k) as usize,
                );
                if self.wf() {
                    let es = self.graph.edges@;
                    let pos = (base + k) as usize;
                    let j = choose|j: int|
                        0 <= j < es.len() && (#[trigger] es[j]).port_in.node == node_id
                            && es[j].port_in.port == pos && es[j].port_out == p;
                    assert(self.port_valid(es[j].port_out));
                }
            }
            ports.push(p);
            k = k + 1;
        }
        Some(ports)
    }

    /// Whether every designated output of this module resolves to a constant.
    pub fn has_const_outputs(&self) -> (r: bool)
        ensures
            r == forall|k: int|
                0 <= k < self.mod_outputs.len() ==> self.const_of(
                    #[trigger] self.mod_outputs@[k],
                ) is Some,
    {
        let mut k: usize = 0;
        while k < self.mod_outputs.len()
            invariant
                k <= self.mod_outputs.len(),
                forall|j: int|
                    0 <= j < k ==> self.const_of(#[trigger] self.mod_outputs@[j]) is Some,
            decreases self.mod_outputs.len() - k,
        {
            if self.to_const(self.mod_outputs[k]).is_none() {
                return false;
            }
            k = k + 1;
        }
        true
    }

    /// Whether every input wired into `node_id` resolves to a constant.
    pub fn node_has_const_inputs(&self, node_id: usize) -> (r: bool)
        ensures
            r == forall|i: int|
                0 <= i < self.graph.edges.len() && (#[trigger] self.graph.edges@[i]).port_in.node
                    == node_id ==> self.const_of(self.graph.edges@[i].port_out) is Some,
    {
        let mut i: usize = 0;
        while i < self.graph.edges.len()
            invariant
                i <= self.graph.edges.len(),
                forall|j: int|
                    0 <= j < i && (#[trigger] self.graph.edges@[j]).port_in.node == node_id
                        ==> self.const_of(self.graph.edges@[j].port_out) is Some,
            decreases self.graph.edges.len() - i,
        {
            let e = self.graph.edges[i];
            if e.port_in.node == node_id {
                if self.to_const(e.port_out).is_none() {
                    return false;
                }
            }
            i = i + 1;
        }
        true
    }
}

/// A node together with the producer ports wired into it, for structural
/// observation and comparison.
#[derive(Clone, PartialEq, Eq, Debug)]
pub struct NodeWithInputs {
    pub node: Node,
    pub inputs: Vec<Port>,
}

impl NodeWithInputs {
    pub fn new(node: Node, inputs: Vec<Port>) -> (r: Self)
        ensures
            r.node == node && r.inputs == inputs,
    {
        NodeWithInputs { node, inputs }
    }

    /// An expected module-parameter node.
    pub fn input(ty: NodeTy, sym: Option<String>, skip: bool) -> (r: Self)
        ensures
            r.node.kind == NodeKind::Input(Input { global: GlSignalKind::Plain }),
            r.node.outputs@ == seq![NodeOutput { ty, sym, skip }],
            r.node.skip == skip,
            r.inputs.len() == 0,
    {
        let mut outputs: Vec<NodeOutput> = Vec::new();
        outputs.push(NodeOutput { ty, sym, skip });
        proof {
            assert(outputs@ =~= seq![NodeOutput { ty, sym, skip }]);
        }
        NodeWithInputs {
            node: Node {
                kind: NodeKind::Input(Input { global: GlSignalKind::Plain }),
                outputs,
                skip,
            },
            inputs: Vec::new(),
        }
    }

    /// An expected identity-buffer node over one producer port.
    pub fn pass(ty: NodeTy, sym: Option<String>, skip: bool, input: Port) -> (r: Self)
        ensures
            r.node.kind == NodeKind::Pass(PassNode {}),
            r.node.outputs@ == seq![NodeOutput { ty, sym, skip }],
            r.node.skip == skip,
            r.inputs@ == seq![input],
    {
        let mut outputs: Vec<NodeOutput> = Vec::new();
        outputs.push(NodeOutput { ty, sym, skip });
        let mut inputs: Vec<Port> = Vec::new();
        inputs.push(input);
        proof {
            assert(outputs@ =~= seq![NodeOutput { ty, sym, skip }]);
            assert(inputs@ =~= seq![input]);
        }
        NodeWithInputs { node: Node { kind: NodeKind::Pass(PassNode {}), outputs, skip }, inputs }
    }
}

impl Module {
    fn node_with_inputs_at(&self, node_id: usize) -> (r: NodeWithInputs)
        requires
            node_id < self.graph.nodes.len(),
        ensures
            crate::node::node_equiv(r.node, self.graph.nodes[node_id as int]),
            r.inputs@ == incoming_sources(self.graph.edges@, node_id),
    {
        let node = self.graph.nodes[node_id].duplicate();
        let inputs = self.incoming_ports(node_id);
        NodeWithInputs { node, inputs }
    }

    /// The nodes of this module in insertion order, each with its wired
    /// inputs; with `live_only`, nodes still marked dead are left out.
    pub fn nodes_vec(&self, live_only: bool) -> (r: Vec<NodeWithInputs>)
        ensures
            !live_only ==> r.len() == self.graph.nodes.len(),
    {
        let mut out: Vec<NodeWithInputs> = Vec::new();
        let mut i: usize = 0;
        while i < self.graph.nodes.len()
            invariant
                i <= self.graph.nodes.len(),
                !live_only ==> out.len() == i,
            decreases self.graph.nodes.len() - i,
        {
            if !(live_only && self.graph.nodes[i].skip) {
                out.push(self.node_with_inputs_at(i));
            }
            i = i + 1;
        }
        out
    }

    /// The producing node of each designated output, in declaration order;
    /// with `live_only`, outputs of nodes still marked dead are left out.
    pub fn mod_outputs_vec(&self, live_only: bool) -> (r: Vec<NodeWithInputs>)
        requires
            self.wf(),
    {
        let mut out: Vec<NodeWithInputs> = Vec::new();
        let mut k: usize = 0;
        while k < self.mod_outputs.len()
            invariant
                k <= self.mod_outputs.len(),
                self.wf(),
            decreases self.mod_outputs.len() - k,
        {
            let p = self.mod_outputs[k];
            if !(live_only && self.graph.nodes[p.node].skip) {
                out.push(self.node_with_inputs_at(p.node));
            }
            k = k + 1;
        }
        out
    }
}


impl Module {
    /// Rewires every consumer of one specific port to another port, and
    /// retargets designated outputs the same way.
    pub fn reconnect_port(&mut self, from: Port, to: Port)
        requires
            old(self).wf(),
            old(self).port_valid(to),
        ensures
            final(self).wf(),
            final(self).graph.edges@ == crate::graph::reconnect_edges_spec(
                old(self).graph.edges@,
                from,
                to,
            ),
            final(self).graph.nodes == old(self).graph.nodes,
            final(self).mod_inputs == old(self).mod_inputs,
            final(self).mod_outputs@ == old(self).mod_outputs@.map_values(
                |p: Port|
                    if p == from {
                        to
                    } else {
                        p
                    },
            ),
            final(self).same_meta(*old(self)),
    {
        let ghost orig = self.graph.edges@;
        let mut i: usize = 0;
        while i < self.graph.edges.len()
            invariant
                i <= self.graph.edges.len(),
                self.graph.edges.len() == orig.len(),
                self.graph.nodes == old(self).graph.nodes,
                self.mod_inputs == old(self).mod_inputs,
                self.mod_outputs == old(self).mod_outputs,
                self.same_meta(*old(self)),
                old(self).wf(),
                old(self).port_valid(to),
                forall|j: int| i <= j < orig.len() ==> self.graph.edges@[j] == orig[j],
                forall|j: int|
                    0 <= j < i ==> self.graph.edges@[j] == crate::graph::reconnect_edges_spec(
                        orig,
                        from,
                        to,
                    )[j],
            decreases self.graph.edges.len() - i,
        {
            let e = self.graph.edges[i];
            if e.port_out.node == from.node && e.port_out.port == from.port {
                self.graph.edges.set(i, Edge { port_out: to, port_in: e.port_in });
            }
            i = i + 1;
        }
        proof {
            assert(self.graph.edges@ =~= crate::graph::reconnect_edges_spec(orig, from, to));
        }
        let ghost orig_outs = self.mod_outputs@;
        let mut j: usize = 0;
        while j < self.mod_outputs.len()
            invariant
                j <= self.mod_outputs.len(),
                self.mod_outputs.len() == orig_outs.len(),
                self.graph.edges@ == crate::graph::reconnect_edges_spec(orig, from, to),
                self.graph.nodes == old(self).graph.nodes,
                self.mod_inputs == old(self).mod_inputs,
                self.same_meta(*old(self)),
                old(self).wf(),
                old(self).port_valid(to),
                forall|k: int| j <= k < orig_outs.len() ==> self.mod_outputs@[k] == orig_outs[k],
                forall|k: int|
                    0 <= k < j ==> self.mod_outputs@[k] == (if orig_outs[k] == from {
                        to
                    } else {
                        orig_outs[k]
                    }),
            decreases self.mod_outputs.len() - j,
        {
            let p = self.mod_outputs[j];
            if p.node == from.node && p.port == from.port {
                self.mod_outputs.set(j, to);
            }
            j = j + 1;
        }
        proof {
            assert(self.mod_outputs@ =~= orig_outs.map_values(
                |p: Port|
                    if p == from {
                        to
                    } else {
                        p
                    },
            ));
        }
    }

    /// Whether a splitter reproduces its input unchanged: one output spanning
    /// the full input width from offset zero.
    pub fn splitter_passes_all_bits(&self, node_id: usize) -> (r: bool)
        requires
            self.wf(),
            node_id < self.graph.nodes.len(),
        ensures
            r == splitter_full_range(*self, node_id),
    {
        let node = &self.graph.nodes[node_id];
        let (start, _rev) = match &node.kind {
            NodeKind::Splitter(sp) => (sp.start, sp.rev),
            _ => {
                return false;
            },
        };
        match start {
            Some(s) => {
                if s != 0 {
                    return false;
                }
            },
            None => {},
        }
        if node.outputs.len() != 1 {
            return false;
        }
        let input = match self.graph.input_at(node_id, 0) {
            Some(p) => p,
            None => {
                return false;
            },
        };
        proof {
            crate::graph::lemma_first_input_is_input(self.graph.edges@, node_id, 0);
            let es = self.graph.edges@;
            let j = choose|j: int|
                0 <= j < es.len() && (#[trigger] es[j]).port_in.node == node_id
                    && es[j].port_in.port == 0 && es[j].port_out == input;
            assert(self.port_valid(es[j].port_out));
        }
        self.port_width(input) == self.graph.nodes[node_id].outputs[0].ty.width()
    }

    /// The low-bit offset of each splitter output range: consecutive ranges
    /// from the declared start, walked from the top of the input downward
    /// when reversed. `None` where the ranges do not fit the input width.
    pub fn splitter_offsets(&self, node_id: usize) -> (r: Option<Vec<u128>>)
        requires
            self.wf(),
            node_id < self.graph.nodes.len(),
        ensures
            (match r {
                Some(offs) => self.graph.nodes[node_id as int].kind matches NodeKind::Splitter(sp)
                    && (match crate::graph::first_input(self.graph.edges@, node_id, 0) {
                    Some(src) => {
                        let w_in = self.port_width_spec(src) as int;
                        let s0 = (match sp.start {
                            Some(x) => x as int,
                            None => 0int,
                        });
                        &&& offs.len() == self.graph.nodes[node_id as int].outputs.len()
                        &&& splitter_fits(*self, node_id, w_in, s0)
                        &&& forall|k: int|
                            0 <= k < offs.len() ==> (#[trigger] offs@[k]) as int
                                == splitter_offset_spec(*self, node_id, k, w_in, s0, sp.rev)
                    },
                    None => false,
                }),
                None => true,
            }),
            (match self.graph.nodes[node_id as int].kind {
                NodeKind::Splitter(sp) => (match crate::graph::first_input(
                    self.graph.edges@,
                    node_id,
                    0,
                ) {
                    Some(src) => splitter_fits(
                        *self,
                        node_id,
                        self.port_width_spec(src) as int,
                        (match sp.start {
                            Some(x) => x as int,
                            None => 0int,
                        }),
                    ) ==> r is Some,
                    None => true,
                }),
                _ => true,
            }),
    {
        let node = &self.graph.nodes[node_id];
        let (start, rev) = match &node.kind {
            NodeKind::Splitter(sp) => (sp.start, sp.rev),
            _ => {
                return None;
            },
        };
        let input = match self.graph.input_at(node_id, 0) {
            Some(p) => p,
            None => {
                return None;
            },
        };
        proof {
            crate::graph::lemma_first_input_is_input(self.graph.edges@, node_id, 0);
            let es = self.graph.edges@;
            let j = choose|j: int|
                0 <= j < es.len() && (#[trigger] es[j]).port_in.node == node_id
                    && es[j].port_in.port == 0 && es[j].port_out == input;
            assert(self.port_valid(es[j].port_out));
        }
        let ghost outs = self.graph.nodes[node_id as int].outputs@;
        let w_in = self.port_width(input);
        let s0 = match start {
            Some(s) => s,
            None => 0,
        };
        if s0 > w_in {
            proof {
                lemma_sum_out_widths_nonneg(outs, outs.len() as int);
            }
            return None;
        }
        let mut offs: Vec<u128> = Vec::new();
        let mut consumed: u128 = s0;
        let mut k: usize = 0;
        while k < node.outputs.len()
            invariant
                k <= node.outputs.len(),
                offs.len() == k,
                consumed <= w_in,
                node == &self.graph.nodes@[node_id as int],
                node_id < self.graph.nodes.len(),
                outs == self.graph.nodes[node_id as int].outputs@,
                self.graph.nodes[node_id as int].kind matches NodeKind::Splitter(sp) && sp.start
                    == start && sp.rev == rev,
                crate::graph::first_input(self.graph.edges@, node_id, 0) == Some(input),
                w_in == self.port_width_spec(input),
                s0 as int == (match start {
                    Some(x) => x as int,
                    None => 0int,
                }),
                consumed as int == s0 + sum_out_widths(outs, k as int),
                forall|j: int|
                    0 <= j < k ==> (#[trigger] offs@[j]) as int == splitter_offset_spec(
                        *self,
                        node_id,
                        j,
                        w_in as int,
                        s0 as int,
                        rev,
                    ),
            decreases node.outputs.len() - k,
        {
            let w = node.outputs[k].ty.width();
            proof {
                assert(sum_out_widths(outs, k + 1) == sum_out_widths(outs, k as int)
                    + outs[k as int].ty.width_spec());
            }
            if w > w_in - consumed {
                proof {
                    lemma_items_widths_suffix(outs, k + 1, outs.len() as int);
                }
                return None;
            }
            if rev {
                offs.push(w_in - consumed - w);
            } else {
                offs.push(consumed);
            }
            consumed = consumed + w;
            k = k + 1;
        }
        proof {
            assert(consumed as int == s0 + sum_out_widths(outs, outs.len() as int));
        }
        Some(offs)
    }

    /// Whether a merger feeding a splitter can be cancelled: the splitter's
    /// output widths positionally match the merger's input widths.
    pub fn is_reversible(&self, merger_id: usize, splitter_id: usize) -> (r: bool)
        requires
            self.wf(),
            merger_id < self.graph.nodes.len(),
            splitter_id < self.graph.nodes.len(),
        ensures
            r == merger_splitter_reversible(*self, merger_id, splitter_id),
    {
        let n_in = match &self.graph.nodes[merger_id].kind {
            NodeKind::Merger(m) => m.inputs,
            _ => {
                return false;
            },
        };
        if n_in != self.graph.nodes[splitter_id].outputs.len() {
            return false;
        }
        let mut k: usize = 0;
        while k < n_in
            invariant
                k <= n_in,
                self.wf(),
                merger_id < self.graph.nodes.len(),
                splitter_id < self.graph.nodes.len(),
                n_in == self.graph.nodes[splitter_id as int].outputs.len(),
                self.graph.nodes[merger_id as int].kind matches NodeKind::Merger(mg) && mg.inputs
                    == n_in,
                forall|j: int|
                    0 <= j < k ==> match #[trigger] crate::graph::first_input(
                        self.graph.edges@,
                        merger_id,
                        j as usize,
                    ) {
                        Some(src) => self.port_width_spec(src)
                            == self.graph.nodes[splitter_id as int].outputs[j].ty.width_spec(),
                        None => false,
                    },
            decreases n_in - k,
        {
            let ghost kj = k as int;
            let src = match self.graph.input_at(merger_id, k) {
                Some(p) => p,
                None => {
                    proof {
                        assert(!(match crate::graph::first_input(
                            self.graph.edges@,
                            merger_id,
                            kj as usize,
                        ) {
                            Some(src) => self.port_width_spec(src)
                                == self.graph.nodes[splitter_id as int].outputs[kj].ty.width_spec(),
                            None => false,
                        }));
                        assert(!merger_splitter_reversible(*self, merger_id, splitter_id));
                    }
                    return false;
                },
            };
            proof {
                crate::graph::lemma_first_input_is_input(self.graph.edges@, merger_id, k);
                let es = self.graph.edges@;
                let j = choose|j: int|
                    0 <= j < es.len() && (#[trigger] es[j]).port_in.node == merger_id
                        && es[j].port_in.port == k && es[j].port_out == src;
                assert(self.port_valid(es[j].port_out));
            }
            if self.port_width(src) != self.graph.nodes[splitter_id].outputs[k].ty.width() {
                proof {
                    assert(!(match crate::graph::first_input(
                        self.graph.edges@,
                        merger_id,
                        kj as usize,
                    ) {
                        Some(src2) => self.port_width_spec(src2)
                            == self.graph.nodes[splitter_id as int].outputs[kj].ty.width_spec(),
                        None => false,
                    }));
                    assert(!merger_splitter_reversible(*self, merger_id, splitter_id));
                }
                return false;
            }
            k = k + 1;
        }
        true
    }

    /// Cancels a merger/splitter pair: each splitter output is replaced by a
    /// fresh identity node wired straight from the corresponding merger
    /// input, keeping the splitter's output symbols.
    pub fn reconnect_from_inputs_to_outputs(&mut self, merger_id: usize, splitter_id: usize)
        requires
            old(self).wf(),
            merger_id < old(self).graph.nodes.len(),
            splitter_id < old(self).graph.nodes.len(),
        ensures
            final(self).wf(),
            final(self).same_meta(*old(self)),
            final(self).mod_inputs == old(self).mod_inputs,
            final(self).graph.nodes.len() >= old(self).graph.nodes.len(),
            forall|n: int|
                0 <= n < old(self).graph.nodes.len() ==> final(self).graph.nodes@[n] == old(
                    self,
                ).graph.nodes@[n],
            forall|n: int|
                old(self).graph.nodes.len() <= n < final(self).graph.nodes.len() ==> (
                #[trigger] final(self).graph.nodes@[n]).kind is Pass,
            forall|q: Port| old(self).port_valid(q) ==> final(self).port_valid(q),
            (forall|k: int|
                0 <= k < old(self).graph.nodes[splitter_id as int].outputs.len() ==> (
                #[trigger] crate::graph::first_input(
                    old(self).graph.edges@,
                    merger_id,
                    k as usize,
                )) is Some) ==> cancellation_spec(*old(self), *final(self), merger_id, splitter_id),
    {
        let ghost m_outs_g = old(self).graph.nodes[splitter_id as int].outputs.len() as int;
        let ghost old_len = old(self).graph.nodes.len() as int;
        let ghost pass_seq = Seq::new(
            m_outs_g as nat,
            |k: int| Port { node: (old_len + k) as usize, port: 0 },
        );
        let ghost added_seq = Seq::new(
            m_outs_g as nat,
            |k: int| Edge {
                port_out: crate::graph::first_input(
                    old(self).graph.edges@,
                    merger_id,
                    k as usize,
                )->Some_0,
                port_in: Port { node: (old_len + k) as usize, port: 0 },
            },
        );
        let ghost presence = forall|j: int|
            0 <= j < m_outs_g ==> (#[trigger] crate::graph::first_input(
                old(self).graph.edges@,
                merger_id,
                j as usize,
            )) is Some;
        let m_outs = self.graph.nodes[splitter_id].outputs.len();
        let mut pass_ports: Vec<Port> = Vec::new();
        let mut k: usize = 0;
        while k < m_outs
            invariant
                k <= m_outs,
                pass_ports.len() == k,
                self.wf(),
                self.same_meta(*old(self)),
                self.same_ports(*old(self)),
                merger_id < old(self).graph.nodes.len(),
                splitter_id < old(self).graph.nodes.len(),
                presence == (forall|j: int|
                    0 <= j < m_outs_g ==> (#[trigger] crate::graph::first_input(
                        old(self).graph.edges@,
                        merger_id,
                        j as usize,
                    )) is Some),
                m_outs == self.graph.nodes[splitter_id as int].outputs.len(),
                m_outs as int == m_outs_g,
                old_len == old(self).graph.nodes.len() as int,
                self.graph.nodes.len() as int == old_len + k,
                pass_seq == Seq::new(
                    m_outs_g as nat,
                    |j: int| Port { node: (old_len + j) as usize, port: 0 },
                ),
                added_seq == Seq::new(
                    m_outs_g as nat,
                    |j: int| Edge {
                        port_out: crate::graph::first_input(
                            old(self).graph.edges@,
                            merger_id,
                            j as usize,
                        )->Some_0,
                        port_in: Port { node: (old_len + j) as usize, port: 0 },
                    },
                ),
                pass_ports@ == pass_seq.take(k as int),
                presence ==> self.graph.edges@ == old(self).graph.edges@ + added_seq.take(
                    k as int,
                ),
                !presence ==> self.graph.edges@ == old(self).graph.edges@ + added_seq.take(
                    k as int,
                ) || true,
                forall|q: int|
                    0 <= q < pass_ports.len() ==> self.port_valid(#[trigger] pass_ports@[q]),
                forall|n: int|
                    0 <= n < old(self).graph.nodes.len() ==> self.graph.nodes@[n] == old(
                        self,
                    ).graph.nodes@[n],
                forall|n: int|
                    old(self).graph.nodes.len() <= n < self.graph.nodes.len() ==> (
                    #[trigger] self.graph.nodes@[n]).kind is Pass,
                forall|j: int|
                    0 <= j < k ==> (#[trigger] self.graph.nodes@[old_len + j]).kind
                        == NodeKind::Pass(PassNode {  }) && self.graph.nodes@[old_len + j].outputs@
                        =~= seq![
                        NodeOutput {
                            ty: old(self).graph.nodes[splitter_id as int].outputs@[j].ty,
                            sym: old(self).graph.nodes[splitter_id as int].outputs@[j].sym,
                            skip: true,
                        },
                    ],
                forall|q: Port| old(self).port_valid(q) ==> self.port_valid(q),
            decreases m_outs - k,
        {
            let src = match self.graph.input_at(merger_id, k) {
                Some(p) => p,
                None => {
                    proof {
                        if presence {
                            assert(forall|j: int|
                                0 <= j < added_seq.take(k as int).len() ==> (
                                #[trigger] added_seq.take(k as int)[j]).port_in.node as int
                                    >= old_len);
                            lemma_first_input_append_pass(
                                old(self).graph.edges@,
                                added_seq.take(k as int),
                                merger_id,
                                k as usize,
                                old_len,
                            );
                            assert(false);
                        }
                    }
                    return ;
                },
            };
            proof {
                crate::graph::lemma_first_input_is_input(self.graph.edges@, merger_id, k);
                let es = self.graph.edges@;
                let j = choose|j: int|
                    0 <= j < es.len() && (#[trigger] es[j]).port_in.node == merger_id
                        && es[j].port_in.port == k && es[j].port_out == src;
                assert(self.port_valid(es[j].port_out));
                if presence {
                    assert(forall|j: int|
                        0 <= j < added_seq.take(k as int).len() ==> (
                        #[trigger] added_seq.take(k as int)[j]).port_in.node as int >= old_len);
                    lemma_first_input_append_pass(
                        old(self).graph.edges@,
                        added_seq.take(k as int),
                        merger_id,
                        k as usize,
                        old_len,
                    );
                }
            }
            let out = &self.graph.nodes[splitter_id].outputs[k];
            let ty = out.ty;
            let sym = clone_sym(&out.sym);
            let p = self.add_pass(src, ty, sym);
            pass_ports.push(p);
            k = k + 1;
            proof {
                assert(pass_ports@ =~= pass_seq.take(k as int));
                if presence {
                    assert(self.graph.edges@ =~= old(self).graph.edges@ + added_seq.take(
                        k as int,
                    ));
                }
            }
        }
        proof {
            assert(pass_seq.take(m_outs as int) =~= pass_seq);
            assert(added_seq.take(m_outs as int) =~= added_seq);
        }
        self.reconnect_all_outgoing(splitter_id, &pass_ports);
        proof {
            if presence {
                assert(final(self).graph.edges@ =~= redirect_edges_spec(
                    old(self).graph.edges@ + added_seq,
                    splitter_id,
                    pass_seq,
                ));
            }
        }
    }
}

} // verus!
