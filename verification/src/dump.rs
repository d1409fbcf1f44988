//! A textual dump of a netlist, for inspection.
//!
//! The dump is built as one string; writing it anywhere is the caller's
//! business. With `skip` set, everything still marked dead is left out, which
//! shows what emission would keep.

use vstd::prelude::*;
use vstd::string::StringExecFns;
use crate::module::Module;
use crate::netlist::NetList;
use crate::node::{Node, NodeKind};
use crate::set_names::dec_string;

verus! {

/// The display tag of one node kind.
pub fn kind_name(node: &Node) -> (r: &'static str) {
    match &node.kind {
        NodeKind::Input(_) => "input",
        NodeKind::Const(_) => "const",
        NodeKind::MultiConst(_) => "multi_const",
        NodeKind::Pass(_) => "pass",
        NodeKind::Merger(_) => "merger",
        NodeKind::Splitter(_) => "splitter",
        NodeKind::Extend(_) => "extend",
        NodeKind::BinOp(_) => "bin_op",
        NodeKind::BitNot(_) => "bit_not",
        NodeKind::Switch(_) => "switch",
        NodeKind::DFF(_) => "dff",
        NodeKind::ModInst(_) => "mod_inst",
    }
}

/// The netlist dump pass.
pub struct Dump {
    /// Leave out everything still marked dead.
    pub skip: bool,
}

impl Dump {
    pub fn new(skip: bool) -> (r: Self)
        ensures
            r.skip == skip,
    {
        Dump { skip }
    }

    /// One module as text: its name, then one line per node with its kind,
    /// output names and widths, and the ports wired into it.
    pub fn visit_module(&self, m: &Module) -> (r: String)
        requires
            m.wf(),
    {
        let mut out = String::new().concat("module ").concat(m.name.as_str()).concat("\n");
        let n = m.node_count();
        let mut i: usize = 0;
        while i < n
            invariant
                i <= n,
                m.wf(),
                n == m.graph.nodes.len(),
            decreases n - i,
        {
            let node = m.node(i);
            if !(self.skip && node.skip) {
                out = out.concat("  ").concat(dec_string(i as u128).as_str()).concat(
                    ": ",
                ).concat(kind_name(node));
                let n_outs = node.outputs.len();
                let mut o: usize = 0;
                while o < n_outs
                    invariant
                        o <= n_outs,
                        i < m.graph.nodes.len(),
                        n_outs == m.graph.nodes[i as int].outputs.len(),
                        m.wf(),
                    decreases n_outs - o,
                {
                    let output = &m.node(i).outputs[o];
                    out = out.concat(" ");
                    match &output.sym {
                        Some(sym) => {
                            out = out.concat(sym.as_str());
                        },
                        None => {
                            out = out.concat("_");
                        },
                    }
                    out = out.concat("[").concat(
                        dec_string(output.ty.width()).as_str(),
                    ).concat("]");
                    o = o + 1;
                }
                let inputs = m.incoming_ports(i);
                let mut k: usize = 0;
                while k < inputs.len()
                    invariant
                        k <= inputs.len(),
                    decreases inputs.len() - k,
                {
                    out = out.concat(" <- (").concat(
                        dec_string(inputs[k].node as u128).as_str(),
                    ).concat(" ").concat(dec_string(inputs[k].port as u128).as_str()).concat(")");
                    k = k + 1;
                }
                out = out.concat("\n");
            }
            i = i + 1;
        }
        out
    }

    /// The whole netlist as text, module by module.
    pub fn run(&self, netlist: &NetList) -> (r: String)
        requires
            netlist.wf(),
    {
        let mut out = String::new();
        let n = netlist.module_count();
        let mut i: usize = 0;
        while i < n
            invariant
                i <= n,
                netlist.wf(),
                n == netlist.modules.len(),
            decreases n - i,
        {
            let m = netlist.module(i);
            if !(self.skip && m.skip) {
                let text = self.visit_module(m);
                out = out.concat(text.as_str());
            }
            i = i + 1;
        }
        out
    }
}

impl NetList {
    /// The whole netlist as text; with `skip`, only what emission would keep.
    pub fn dump(&self, skip: bool) -> (r: String)
        requires
            self.wf(),
    {
        Dump::new(skip).run(self)
    }

    /// One module as text, by id.
    pub fn dump_by_mod_id(&self, mod_id: usize, skip: bool) -> (r: String)
        requires
            self.wf(),
            mod_id < self.modules.len(),
    {
        Dump::new(skip).visit_module(self.module(mod_id))
    }

    /// One module as text.
    pub fn dump_mod(&self, m: &Module, skip: bool) -> (r: String)
        requires
            m.wf(),
    {
        Dump::new(skip).visit_module(m)
    }
}

} // verus!
