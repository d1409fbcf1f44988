//! The closed set of node kinds and their typed outputs.
//!
//! A [`Node`] is one tagged variant over the closed kind set, together with
//! the [`NodeOutput`]s it owns and a dead-code mark. A node does not own its
//! producers: its inputs are the edges wired into it, held by the graph.

use vstd::prelude::*;
use crate::const_val::{BinOp, ConstVal};

verus! {

/// The type of one produced value: a primitive bit width.
#[derive(Clone, Copy, PartialEq, Eq, Structural, Debug)]
pub enum NodeTy {
    Bit,
    Clock,
    Unsigned(u128),
    BitVec(u128),
}

impl NodeTy {
    pub open spec fn width_spec(self) -> u128 {
        match self {
            NodeTy::Bit => 1,
            NodeTy::Clock => 1,
            NodeTy::Unsigned(n) => n,
            NodeTy::BitVec(n) => n,
        }
    }

    pub fn width(&self) -> (r: u128)
        ensures
            r == self.width_spec(),
    {
        match self {
            NodeTy::Bit => 1,
            NodeTy::Clock => 1,
            NodeTy::Unsigned(n) => *n,
            NodeTy::BitVec(n) => *n,
        }
    }
}

/// Whether a module input carries an ordinary value or a global clock or
/// reset signal, which the optimizer must never fold as data.
#[derive(Clone, Copy, PartialEq, Eq, Structural, Debug)]
pub enum GlSignalKind {
    Plain,
    Clk,
    Rst,
}

/// One produced value: its type, an optional display symbol, and the
/// dead-code mark (presumed dead until reachability clears it; it never
/// affects semantics, only emission).
#[derive(Clone, PartialEq, Eq, Debug)]
pub struct NodeOutput {
    pub ty: NodeTy,
    pub sym: Option<String>,
    pub skip: bool,
}

impl NodeOutput {
    /// A fresh wire output, presumed dead.
    pub fn wire(ty: NodeTy, sym: Option<String>) -> (r: Self)
        ensures
            r.ty == ty && r.sym == sym && r.skip,
    {
        NodeOutput { ty, sym, skip: true }
    }

    /// A field-for-field copy.
    pub fn duplicate(&self) -> (r: Self)
        ensures
            r == *self,
    {
        NodeOutput { ty: self.ty, sym: clone_sym(&self.sym), skip: self.skip }
    }

    pub open spec fn width_spec(self) -> u128 {
        self.ty.width_spec()
    }

    pub fn width(&self) -> (r: u128)
        ensures
            r == self.width_spec(),
    {
        self.ty.width()
    }
}

/// A copy of an optional display symbol.
pub fn clone_sym(sym: &Option<String>) -> (r: Option<String>)
    ensures
        r == *sym,
{
    match sym {
        Some(s) => Some(s.clone()),
        None => None,
    }
}

/// A module parameter. Inputs produce one output and are never folded.
#[derive(Clone, Copy, PartialEq, Eq, Structural, Debug)]
pub struct Input {
    pub global: GlSignalKind,
}

/// One compile-time-known value.
#[derive(Clone, Copy, PartialEq, Eq, Structural, Debug)]
pub struct Const {
    pub value: u128,
}

impl Const {
    pub fn new(value: u128) -> (r: Self)
        ensures
            r.value == value,
    {
        Const { value }
    }
}

/// Several compile-time-known values, one per output.
#[derive(Clone, PartialEq, Eq, Debug)]
pub struct MultiConst {
    pub values: Vec<u128>,
}

impl MultiConst {
    pub fn new(values: Vec<u128>) -> (r: Self)
        ensures
            r.values == values,
    {
        MultiConst { values }
    }
}

/// An identity/rename buffer: one input, one output of the same width.
#[derive(Clone, Copy, PartialEq, Eq, Structural, Debug)]
pub struct PassNode {
}

/// Concatenates its inputs into one bit vector, in declared or reversed
/// order; the output width is the sum of the input widths.
#[derive(Clone, Copy, PartialEq, Eq, Structural, Debug)]
pub struct Merger {
    pub inputs: usize,
    pub rev: bool,
}

/// Extracts one or more contiguous bit ranges of its single input; an
/// explicit start offset is optional, and the ranges may be walked from the
/// top downward (`rev`).
#[derive(Clone, Copy, PartialEq, Eq, Structural, Debug)]
pub struct Splitter {
    pub start: Option<u128>,
    pub rev: bool,
}

/// Zero- or sign-extends its input to a wider output.
#[derive(Clone, Copy, PartialEq, Eq, Structural, Debug)]
pub struct Extend {
    pub is_signed: bool,
}

/// One dyadic operator over two equal-width inputs.
#[derive(Clone, Copy, PartialEq, Eq, Structural, Debug)]
pub struct BinOpNode {
    pub bin_op: BinOp,
}

/// Bitwise complement of its single input.
#[derive(Clone, Copy, PartialEq, Eq, Structural, Debug)]
pub struct BitNot {
}

/// One case of a switch: the selector constants it matches, or the wildcard
/// default.
#[derive(Clone, PartialEq, Eq, Debug)]
pub struct SwitchCase {
    pub values: Vec<u128>,
    pub is_default: bool,
}

impl SwitchCase {
    /// Whether this case matches the selector value `sel` (masked equality at
    /// the selector's width).
    pub open spec fn matches_spec(self, sel: ConstVal) -> bool {
        self.is_default || exists|i: int|
            0 <= i < self.values.len() && ConstVal::mk(#[trigger] self.values[i], sel.width).val
                == sel.val
    }

    /// A copy equal in every observable part.
    pub fn duplicate(&self) -> (r: Self)
        ensures
            case_equiv(r, *self),
    {
        let mut values: Vec<u128> = Vec::new();
        let mut i: usize = 0;
        while i < self.values.len()
            invariant
                i <= self.values.len(),
                values@ == self.values@.take(i as int),
            decreases self.values.len() - i,
        {
            values.push(self.values[i]);
            i = i + 1;
            proof {
                assert(values@ =~= self.values@.take(i as int));
            }
        }
        proof {
            assert(self.values@.take(self.values.len() as int) =~= self.values@);
        }
        SwitchCase { values, is_default: self.is_default }
    }

    pub fn is_match(&self, sel: ConstVal) -> (r: bool)
        requires
            sel.wf(),
        ensures
            r == self.matches_spec(sel),
    {
        if self.is_default {
            return true;
        }
        let mut i: usize = 0;
        while i < self.values.len()
            invariant
                i <= self.values.len(),
                sel.wf(),
                forall|j: int|
                    0 <= j < i ==> ConstVal::mk(#[trigger] self.values@[j], sel.width).val
                        != sel.val,
            decreases self.values.len() - i,
        {
            let v = ConstVal::new(self.values[i], sel.width());
            if v.val() == sel.val() {
                return true;
            }
            i = i + 1;
        }
        false
    }
}

/// Two switch cases with the same match set and default flag.
pub open spec fn case_equiv(a: SwitchCase, b: SwitchCase) -> bool {
    a.values@ == b.values@ && a.is_default == b.is_default
}

/// Two kinds equal in every observable part (collection-bearing kinds are
/// compared by contents).
pub open spec fn kind_equiv(a: NodeKind, b: NodeKind) -> bool {
    match (a, b) {
        (NodeKind::MultiConst(x), NodeKind::MultiConst(y)) => x.values@ == y.values@,
        (NodeKind::Switch(x), NodeKind::Switch(y)) => x.cases.len() == y.cases.len() && (forall|
            i: int,
        |
            0 <= i < x.cases.len() ==> case_equiv(#[trigger] x.cases@[i], y.cases@[i])),
        _ => a == b,
    }
}

/// Two nodes equal in every observable part.
pub open spec fn node_equiv(a: Node, b: Node) -> bool {
    kind_equiv(a.kind, b.kind) && a.outputs@ == b.outputs@ && a.skip == b.skip
}

/// An N-way select: one selector input, then one full set of value inputs
/// per case. Case sets must not overlap.
#[derive(Clone, PartialEq, Eq, Debug)]
pub struct Switch {
    pub cases: Vec<SwitchCase>,
}

/// Whether a reset is observed synchronously or asynchronously (an emission
/// concern; the optimizer only carries it).
#[derive(Clone, Copy, PartialEq, Eq, Structural, Debug)]
pub enum RstKind {
    Sync,
    Async,
}

/// The polarity at which a reset or enable input counts as asserted.
#[derive(Clone, Copy, PartialEq, Eq, Structural, Debug)]
pub enum Polarity {
    ActiveHigh,
    ActiveLow,
}

impl Polarity {
    /// Whether a constant driving an input of this polarity leaves it
    /// deasserted.
    pub open spec fn is_inactive_spec(self, val: u128) -> bool {
        match self {
            Polarity::ActiveHigh => val == 0,
            Polarity::ActiveLow => val != 0,
        }
    }

    pub fn is_inactive(&self, val: u128) -> (r: bool)
        ensures
            r == self.is_inactive_spec(val),
    {
        match self {
            Polarity::ActiveHigh => val == 0,
            Polarity::ActiveLow => val != 0,
        }
    }
}

/// A registered value: clock, optional reset, optional enable, an initial
/// value, and the data expression. The data input is bound in a second
/// construction phase because it may reference the register's own output —
/// the only sanctioned cycle in the graph.
#[derive(Clone, Copy, PartialEq, Eq, Structural, Debug)]
pub struct DFF {
    pub rst_kind: RstKind,
    pub rst_pol: Polarity,
    pub has_rst: bool,
    pub has_en: bool,
    pub has_data: bool,
}

impl DFF {
    /// Input positions: clock, then reset and enable where present, then the
    /// initial value, then (once bound) the data expression.
    pub open spec fn in_count_spec(self) -> usize {
        (2 + (if self.has_rst {
            1int
        } else {
            0int
        }) + (if self.has_en {
            1int
        } else {
            0int
        }) + (if self.has_data {
            1int
        } else {
            0int
        })) as usize
    }

    pub open spec fn rst_pos_spec(self) -> usize {
        1
    }

    pub open spec fn en_pos_spec(self) -> usize {
        (1 + (if self.has_rst {
            1int
        } else {
            0int
        })) as usize
    }

    pub open spec fn init_pos_spec(self) -> usize {
        (1 + (if self.has_rst {
            1int
        } else {
            0int
        }) + (if self.has_en {
            1int
        } else {
            0int
        })) as usize
    }

    pub open spec fn data_pos_spec(self) -> usize {
        (self.init_pos_spec() + 1) as usize
    }

    pub fn init_pos(&self) -> (r: usize)
        ensures
            r == self.init_pos_spec(),
    {
        let mut pos: usize = 1;
        if self.has_rst {
            pos = pos + 1;
        }
        if self.has_en {
            pos = pos + 1;
        }
        pos
    }
}

/// Instantiates another module; inputs and outputs positionally mirror the
/// target module's designated ports.
#[derive(Clone, PartialEq, Eq, Debug)]
pub struct ModInst {
    pub mod_id: usize,
    pub name: Option<String>,
    pub in_count: usize,
}

/// The closed kind set. Every pass matches exhaustively over it.
#[derive(Clone, PartialEq, Eq, Debug)]
pub enum NodeKind {
    Input(Input),
    Const(Const),
    MultiConst(MultiConst),
    Pass(PassNode),
    Merger(Merger),
    Splitter(Splitter),
    Extend(Extend),
    BinOp(BinOpNode),
    BitNot(BitNot),
    Switch(Switch),
    DFF(DFF),
    ModInst(ModInst),
}

impl NodeKind {
    /// How many input positions this kind owns, given its output count.
    pub open spec fn in_count_spec(self, out_count: int) -> int {
        match self {
            NodeKind::Input(_) => 0,
            NodeKind::Const(_) => 0,
            NodeKind::MultiConst(_) => 0,
            NodeKind::Pass(_) => 1,
            NodeKind::Merger(m) => m.inputs as int,
            NodeKind::Splitter(_) => 1,
            NodeKind::Extend(_) => 1,
            NodeKind::BinOp(_) => 2,
            NodeKind::BitNot(_) => 1,
            NodeKind::Switch(s) => 1 + s.cases.len() * out_count,
            NodeKind::DFF(d) => d.in_count_spec() as int,
            NodeKind::ModInst(m) => m.in_count as int,
        }
    }
}

/// A node: its kind, the outputs it owns, and the node-level dead-code mark.
#[derive(Clone, PartialEq, Eq, Debug)]
pub struct Node {
    pub kind: NodeKind,
    pub outputs: Vec<NodeOutput>,
    pub skip: bool,
}

impl Node {
    /// A fresh node with the given outputs, presumed dead.
    pub fn new(kind: NodeKind, outputs: Vec<NodeOutput>) -> (r: Self)
        ensures
            r.kind == kind && r.outputs == outputs && r.skip,
    {
        Node { kind, outputs, skip: true }
    }

    pub open spec fn out_count_spec(self) -> int {
        self.outputs.len() as int
    }

    pub fn out_count(&self) -> (r: usize)
        ensures
            r == self.outputs.len(),
    {
        self.outputs.len()
    }

    pub open spec fn is_mod_inst(self) -> bool {
        self.kind is ModInst
    }

    pub open spec fn is_const_kind(self) -> bool {
        self.kind is Const || self.kind is MultiConst
    }

    /// The target module, where this node instantiates one.
    pub fn mod_inst_target(&self) -> (r: Option<usize>)
        ensures
            match r {
                Some(id) => self.kind matches NodeKind::ModInst(m) && m.mod_id == id,
                None => !(self.kind is ModInst),
            },
    {
        match &self.kind {
            NodeKind::ModInst(m) => Some(m.mod_id),
            _ => None,
        }
    }
}


impl NodeKind {
    /// A copy equal in every observable part.
    pub fn duplicate(&self) -> (r: Self)
        ensures
            kind_equiv(r, *self),
    {
        match self {
            NodeKind::Input(x) => NodeKind::Input(*x),
            NodeKind::Const(x) => NodeKind::Const(*x),
            NodeKind::MultiConst(mc) => {
                let mut values: Vec<u128> = Vec::new();
                let mut i: usize = 0;
                while i < mc.values.len()
                    invariant
                        i <= mc.values.len(),
                        values@ == mc.values@.take(i as int),
                    decreases mc.values.len() - i,
                {
                    values.push(mc.values[i]);
                    i = i + 1;
                    proof {
                        assert(values@ =~= mc.values@.take(i as int));
                    }
                }
                proof {
                    assert(mc.values@.take(mc.values.len() as int) =~= mc.values@);
                }
                NodeKind::MultiConst(MultiConst { values })
            },
            NodeKind::Pass(x) => NodeKind::Pass(*x),
            NodeKind::Merger(x) => NodeKind::Merger(*x),
            NodeKind::Splitter(x) => NodeKind::Splitter(*x),
            NodeKind::Extend(x) => NodeKind::Extend(*x),
            NodeKind::BinOp(x) => NodeKind::BinOp(*x),
            NodeKind::BitNot(x) => NodeKind::BitNot(*x),
            NodeKind::Switch(sw) => {
                let mut cases: Vec<SwitchCase> = Vec::new();
                let mut i: usize = 0;
                while i < sw.cases.len()
                    invariant
                        i <= sw.cases.len(),
                        cases.len() == i,
                        forall|j: int|
                            0 <= j < i ==> case_equiv(#[trigger] cases@[j], sw.cases@[j]),
                    decreases sw.cases.len() - i,
                {
                    cases.push(sw.cases[i].duplicate());
                    i = i + 1;
                }
                NodeKind::Switch(Switch { cases })
            },
            NodeKind::DFF(x) => NodeKind::DFF(*x),
            NodeKind::ModInst(m) => NodeKind::ModInst(
                ModInst { mod_id: m.mod_id, name: clone_sym(&m.name), in_count: m.in_count },
            ),
        }
    }
}

impl Node {
    /// A copy equal in every observable part.
    pub fn duplicate(&self) -> (r: Self)
        ensures
            node_equiv(r, *self),
    {
        let mut outputs: Vec<NodeOutput> = Vec::new();
        let mut i: usize = 0;
        while i < self.outputs.len()
            invariant
                i <= self.outputs.len(),
                outputs@ == self.outputs@.take(i as int),
            decreases self.outputs.len() - i,
        {
            outputs.push(self.outputs[i].duplicate());
            i = i + 1;
            proof {
                assert(outputs@ =~= self.outputs@.take(i as int));
            }
        }
        proof {
            assert(self.outputs@.take(self.outputs.len() as int) =~= self.outputs@);
        }
        Node { kind: self.kind.duplicate(), outputs, skip: self.skip }
    }
}

} // verus!
