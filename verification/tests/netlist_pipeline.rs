use ferrum_hdl::const_val::{BinOp, ConstVal};
use ferrum_hdl::graph::Port;
use ferrum_hdl::module::{
    ConstArgs, DFFArgs, MergerArgs, Module, NodeWithInputs, SplitterArgs, SwitchArgs, TyOrData,
};
use ferrum_hdl::netlist::{InlineMod, NetList, NetListCfg};
use ferrum_hdl::node::{NodeKind, NodeTy, Polarity, RstKind, SwitchCase};
use ferrum_hdl::reachability;
use ferrum_hdl::transform::Transform;

fn transform(netlist: &mut NetList, mod_id: usize) {
    let cfg = *netlist.cfg();
    let depth = netlist.module_count();
    let mut t = Transform::new(&cfg);
    t.visit_module(netlist, mod_id, depth);
    reachability::visit_module(&mut netlist.modules[mod_id]);
}

#[test]
fn merger_splitter_pattern() {
    let mut module = Module::new("test".to_string(), false);

    const IN1: u128 = 1;
    let input1_ty = NodeTy::Unsigned(IN1);
    let input1_sym = Some("input1".to_string());
    let input1 = module.add_input(input1_ty, input1_sym.clone());

    const IN2: u128 = 3;
    let input2_ty = NodeTy::Unsigned(IN2);
    let input2_sym = Some("input2".to_string());
    let input2 = module.add_input(input2_ty, input2_sym.clone());

    const IN3: u128 = 5;
    let input3_ty = NodeTy::Unsigned(IN3);
    let input3_sym = Some("input3".to_string());
    let input3 = module.add_input(input3_ty, input3_sym.clone());

    let merger = module.add_merger(MergerArgs {
        inputs: vec![input1, input2, input3],
        rev: false,
        sym: Some("merger".to_string()),
    });

    let splitter = module.add_splitter(SplitterArgs {
        input: merger,
        outputs: vec![
            (input1_ty, Some("splitter_1".to_string())),
            (input2_ty, Some("splitter_2".to_string())),
            (input3_ty, Some("splitter_3".to_string())),
        ],
        start: None,
        rev: true,
    });

    module.add_mod_outputs(splitter);

    let mut netlist = NetList::new(NetListCfg::new());
    let mod_id = netlist.add_module(module);

    transform(&mut netlist, mod_id);

    let pass1 = NodeWithInputs::pass(input1_ty, Some("splitter_1".to_string()), false, input1);
    let pass2 = NodeWithInputs::pass(input2_ty, Some("splitter_2".to_string()), false, input2);
    let pass3 = NodeWithInputs::pass(input3_ty, Some("splitter_3".to_string()), false, input3);

    let module = &netlist.modules[mod_id];
    assert_eq!(module.nodes_vec(true), vec![
        NodeWithInputs::input(input1_ty, input1_sym, false),
        NodeWithInputs::input(input2_ty, input2_sym, false),
        NodeWithInputs::input(input3_ty, input3_sym, false),
        pass1.clone(),
        pass2.clone(),
        pass3.clone()
    ]);

    assert_eq!(module.mod_outputs_vec(true), vec![pass1, pass2, pass3]);
}

#[test]
fn single_case_switch_reconnects() {
    let mut module = Module::new("test".to_string(), true);
    let sel = module.add_input(NodeTy::Unsigned(2), Some("sel".to_string()));
    let a = module.add_input(NodeTy::Unsigned(4), Some("a".to_string()));
    let switch = module.add_switch(SwitchArgs {
        outputs: vec![(NodeTy::Unsigned(4), Some("out".to_string()))],
        sel,
        variants: vec![(SwitchCase { values: vec![0], is_default: false }, vec![a])],
    });
    module.add_mod_outputs(switch);

    let mut netlist = NetList::new(NetListCfg::new());
    let mod_id = netlist.add_module(module);
    transform(&mut netlist, mod_id);

    // The switch is gone from the designated outputs: its single case's
    // value feeds them directly, selector notwithstanding.
    assert_eq!(netlist.modules[mod_id].mod_outputs, vec![a]);
}

#[test]
fn dff_asserted_reset_collapses_to_init() {
    let mut module = Module::new("test".to_string(), true);
    let clk = module.add_input(NodeTy::Clock, Some("clk".to_string()));
    let data = module.add_input(NodeTy::Unsigned(8), Some("data".to_string()));
    let rst = module.add_const(ConstArgs {
        ty: NodeTy::Unsigned(1),
        value: 1,
        sym: Some("rst".to_string()),
    });
    let init = module.add_const(ConstArgs {
        ty: NodeTy::Unsigned(8),
        value: 42,
        sym: Some("init".to_string()),
    });
    let dff = module.add_dff(DFFArgs {
        rst_kind: RstKind::Sync,
        rst_pol: Polarity::ActiveHigh,
        clk,
        rst: Some(rst),
        en: None,
        init,
        data: TyOrData::Data(data),
        sym: Some("reg_out".to_string()),
    });
    module.add_mod_output(dff);

    let mut netlist = NetList::new(NetListCfg::new());
    let mod_id = netlist.add_module(module);
    transform(&mut netlist, mod_id);

    // The register's output is rewired to its initial value...
    assert_eq!(netlist.modules[mod_id].mod_outputs, vec![init]);
    // ...and a reachability run leaves the clock and data inputs dead.
    let m = &netlist.modules[mod_id];
    assert!(!m.graph.nodes[init.node].skip);
    assert!(m.graph.nodes[clk.node].skip);
    assert!(m.graph.nodes[data.node].skip);
    assert!(m.graph.nodes[dff.node].skip);
}

#[test]
fn bin_op_folds_to_masked_constant() {
    let mut module = Module::new("test".to_string(), true);
    let a = module.add_const(ConstArgs { ty: NodeTy::Unsigned(4), value: 12, sym: None });
    let b = module.add_const(ConstArgs { ty: NodeTy::Unsigned(4), value: 7, sym: None });
    let sum = module.add_bin_op(BinOp::Add, a, b, NodeTy::Unsigned(4), None);
    module.add_mod_output(sum);

    let mut netlist = NetList::new(NetListCfg::new());
    let mod_id = netlist.add_module(module);
    transform(&mut netlist, mod_id);

    // (12 + 7) mod 2^4 == 3.
    match &netlist.modules[mod_id].graph.nodes[sum.node].kind {
        NodeKind::Const(c) => assert_eq!(c.value, 3),
        other => panic!("expected a folded constant, found {:?}", other),
    }
}

#[test]
fn width_masked_value_semantics() {
    // Equality and the masked magnitude depend only on the masked bits.
    let a = ConstVal::new(0x13, 4);
    let b = ConstVal::new(0x3, 4);
    assert_eq!(a, b);
    assert_eq!(a.val(), 3);

    // (a + b).val() == (a.val() + b.val()) mod 2^W.
    let x = ConstVal::new(12, 4);
    let y = ConstVal::new(7, 4);
    assert_eq!(x.eval_bin_op(y, BinOp::Add).val(), 3);
    assert_eq!(x.eval_bin_op(y, BinOp::Sub).val(), 5);
    assert_eq!(x.eval_bin_op(y, BinOp::Mul).val(), (12 * 7) % 16);
    assert_eq!(x.eval_bin_op(y, BinOp::Div).val(), 1);
    assert_eq!(x.eval_bin_op(y, BinOp::BitAnd).val(), 12 & 7);
    assert_eq!(x.eval_bin_op(y, BinOp::Lt).val(), 0);
    assert_eq!(x.eval_bin_op(y, BinOp::Gt).val(), 1);

    // Arithmetic shift right replicates the declared width's top bit; the
    // logical shift does not.
    let neg = ConstVal::new(0b10, 2);
    let one = ConstVal::new(1, 2);
    assert_eq!(neg.eval_bin_op(one, BinOp::Sra).val(), 0b11);
    assert_eq!(neg.eval_bin_op(one, BinOp::Slr).val(), 0b01);
    let pos = ConstVal::new(0b01, 2);
    assert_eq!(pos.eval_bin_op(one, BinOp::Sra).val(), 0);
    let wide = ConstVal::new(0x80, 8);
    assert_eq!(wide.eval_bin_op(ConstVal::new(3, 8), BinOp::Sra).val(), 0xF0);

    // Concatenation widens by the appended width.
    let mut acc = ConstVal::zero(0);
    acc.shift(ConstVal::new(0b1, 1));
    acc.shift(ConstVal::new(0b010, 3));
    assert_eq!(acc.width(), 4);
    assert_eq!(acc.val(), 0b1010);

    // Slicing extracts the declared range.
    assert_eq!(acc.slice(1, 3).val(), 0b101);
}

#[test]
fn reachability_is_idempotent() {
    let mut module = Module::new("top".to_string(), true);
    let a = module.add_input(NodeTy::Unsigned(4), Some("a".to_string()));
    let b = module.add_input(NodeTy::Unsigned(4), Some("b".to_string()));
    let sum = module.add_bin_op(BinOp::Add, a, b, NodeTy::Unsigned(4), None);
    let _unused = module.add_const(ConstArgs { ty: NodeTy::Unsigned(4), value: 9, sym: None });
    module.add_mod_output(sum);

    let mut netlist = NetList::new(NetListCfg::new());
    netlist.add_module(module);

    netlist.reachability();
    let after_first = netlist.clone();
    netlist.reachability();
    assert_eq!(after_first, netlist);

    // The unused constant stayed dead; the used cone is live.
    let m = &netlist.modules[0];
    assert!(!m.graph.nodes[a.node].skip);
    assert!(!m.graph.nodes[sum.node].skip);
    assert!(m.graph.nodes[3].skip);
}

#[test]
fn inlining_budget_and_policy() {
    // A small callee that the automatic policy would inline.
    let mut callee = Module::new("callee".to_string(), false);
    let ci = callee.add_input(NodeTy::Unsigned(4), Some("x".to_string()));
    let cp = callee.add_pass(ci, NodeTy::Unsigned(4), Some("y".to_string()));
    callee.add_mod_output(cp);

    let build = |cfg: NetListCfg, callee: Module| -> NetList {
        let mut netlist = NetList::new(cfg);
        let callee_id = netlist.add_module(callee);
        let mut caller = Module::new("caller".to_string(), true);
        let a = caller.add_input(NodeTy::Unsigned(4), Some("a".to_string()));
        let inst = caller.add_mod_inst(
            callee_id,
            None,
            &vec![a],
            &vec![(NodeTy::Unsigned(4), None)],
        );
        caller.add_mod_output(Port { node: inst, port: 0 });
        netlist.add_module(caller);
        netlist
    };

    // With a zero budget no instantiation is ever spliced, whatever the
    // policy asks for.
    let mut cfg = NetListCfg::new();
    cfg.inline_mod = InlineMod::All;
    cfg.max_inlines = Some(0);
    let mut netlist = build(cfg, callee.clone());
    let nodes_before: Vec<usize> =
        netlist.modules.iter().map(|m| m.graph.nodes.len()).collect();
    netlist.transform();
    let nodes_after: Vec<usize> =
        netlist.modules.iter().map(|m| m.graph.nodes.len()).collect();
    assert_eq!(nodes_before, nodes_after);
    assert!(matches!(
        netlist.modules[1].graph.nodes[1].kind,
        NodeKind::ModInst(_)
    ));

    // With the policy that never inlines, the budget is irrelevant.
    let mut cfg = NetListCfg::new();
    cfg.inline_mod = InlineMod::Never;
    cfg.max_inlines = None;
    let mut netlist = build(cfg, callee.clone());
    netlist.transform();
    assert!(matches!(
        netlist.modules[1].graph.nodes[1].kind,
        NodeKind::ModInst(_)
    ));

    // Under the automatic policy the tiny callee is spliced away.
    let mut netlist = build(NetListCfg::new(), callee);
    netlist.transform();
    assert!(netlist.modules[1].graph.nodes.len() > 2);
}

#[test]
fn name_uniqueness_suffixes() {
    // Two outputs asking for "tmp" resolve to "tmp" and "tmp_1"; two modules
    // asking for "top" resolve to "top" and "top_1".
    let mut m1 = Module::new("top".to_string(), true);
    let c1 = m1.add_const(ConstArgs {
        ty: NodeTy::Unsigned(4),
        value: 1,
        sym: Some("tmp".to_string()),
    });
    let c2 = m1.add_const(ConstArgs {
        ty: NodeTy::Unsigned(4),
        value: 2,
        sym: Some("tmp".to_string()),
    });
    m1.add_mod_output(c1);
    m1.add_mod_output(c2);
    let m2 = Module::new("top".to_string(), false);

    let mut netlist = NetList::new(NetListCfg::new());
    netlist.add_module(m1);
    netlist.add_module(m2);
    netlist.reachability();
    netlist.modules[1].skip = false;
    netlist.set_names();

    assert_eq!(netlist.modules[0].name, "top");
    assert_eq!(netlist.modules[1].name, "top_1");
    let n = &netlist.modules[0].graph.nodes;
    assert_eq!(n[c1.node].outputs[0].sym.as_deref(), Some("tmp"));
    assert_eq!(n[c2.node].outputs[0].sym.as_deref(), Some("tmp_1"));
}

#[test]
fn reserved_names_are_remapped() {
    let mut m = Module::new("input".to_string(), true);
    let c = m.add_const(ConstArgs {
        ty: NodeTy::Unsigned(1),
        value: 0,
        sym: Some("reg".to_string()),
    });
    m.add_mod_output(c);
    let mut netlist = NetList::new(NetListCfg::new());
    netlist.add_module(m);
    netlist.reachability();
    netlist.set_names();
    assert_eq!(netlist.modules[0].name, "input$");
    assert_eq!(
        netlist.modules[0].graph.nodes[0].outputs[0].sym.as_deref(),
        Some("reg$")
    );
}

#[test]
fn pass_of_constant_folds() {
    let mut module = Module::new("test".to_string(), true);
    let c = module.add_const(ConstArgs { ty: NodeTy::Unsigned(8), value: 200, sym: None });
    let p = module.add_pass(c, NodeTy::Unsigned(8), Some("buffered".to_string()));
    module.add_mod_output(p);

    let mut netlist = NetList::new(NetListCfg::new());
    let mod_id = netlist.add_module(module);
    transform(&mut netlist, mod_id);

    match &netlist.modules[mod_id].graph.nodes[p.node].kind {
        NodeKind::Const(k) => assert_eq!(k.value, 200),
        other => panic!("expected a folded constant, found {:?}", other),
    }
}

#[test]
fn whole_pipeline_runs_once() {
    let mut module = Module::new("top".to_string(), true);
    let a = module.add_input(NodeTy::Unsigned(4), Some("a".to_string()));
    let not = module.add_bit_not(a, NodeTy::Unsigned(4), None);
    module.add_mod_output(not);

    let mut netlist = NetList::new(NetListCfg::new());
    netlist.add_module(module);
    netlist.run_visitors();

    let m = &netlist.modules[0];
    assert!(!m.skip);
    assert!(!m.graph.nodes[not.node].skip);
    assert!(m.graph.nodes[not.node].outputs[0].sym.is_some());
}
