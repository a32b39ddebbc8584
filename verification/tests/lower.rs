use petgraph::graph::NodeIndex;
use rvsdg::cfg::{BasicBlock, BlockName, BranchOp, Cfg};
use rvsdg::error::RvsdgError;
use rvsdg::ir::{Argument, Code, ColRow, ControlOp, Function, Position, Type};
use rvsdg::commit::blocks_commit_once;
use rvsdg::lower::{to_cfg, try_to_cfg, MAX_ITEMS};

fn at(row: u64, col: u64) -> Option<Position> {
    Some(Position { pos: ColRow { col, row }, pos_end: None, src: None })
}

fn label(name: &str) -> Code {
    Code::Label { label: name.to_string(), pos: None }
}

fn label_at(name: &str, row: u64) -> Code {
    Code::Label { label: name.to_string(), pos: at(row, 1) }
}

fn names(list: &[&str]) -> Vec<String> {
    list.iter().map(|s| s.to_string()).collect()
}

fn control(op: ControlOp, args: &[&str], labels: &[&str], pos: Option<Position>) -> Code {
    Code::Control { op, args: names(args), labels: names(labels), pos }
}

fn jmp(target: &str) -> Code {
    control(ControlOp::Jump, &[], &[target], None)
}

fn br(arg: &str, on_true: &str, on_false: &str) -> Code {
    control(ControlOp::Branch, &[arg], &[on_true, on_false], None)
}

fn ret(args: &[&str]) -> Code {
    control(ControlOp::Return, args, &[], None)
}

fn function(instrs: Vec<Code>) -> Function {
    Function { args: Vec::new(), instrs }
}

fn graph_of(instrs: Vec<Code>) -> Cfg {
    to_cfg(&function(instrs)).unwrap()
}

fn block(cfg: &Cfg, index: usize) -> &BasicBlock {
    cfg.graph.node_weight(NodeIndex::new(index)).unwrap()
}

fn named(cfg: &Cfg, name: &str) -> usize {
    let wanted = BlockName::Named(name.to_string());
    let found: Vec<usize> =
        (0..cfg.graph.node_count()).filter(|i| block(cfg, *i).name == wanted).collect();
    assert_eq!(found.len(), 1);
    found[0]
}

fn edges(cfg: &Cfg) -> Vec<(usize, usize, &BranchOp)> {
    cfg.graph
        .raw_edges()
        .iter()
        .map(|e| (e.source().index(), e.target().index(), &e.weight.op))
        .collect()
}

fn cond(arg: &str, val: bool) -> BranchOp {
    BranchOp::Cond { arg: arg.to_string(), val }
}

fn ret_val(arg: &str) -> BranchOp {
    BranchOp::RetVal { arg: arg.to_string() }
}

#[test]
fn jump_to_label_then_return() {
    // jmp .L; .L: print x; ret
    let cfg = graph_of(vec![jmp("L"), label("L"), Code::Instruction, ret(&[])]);
    assert_eq!(cfg.graph.node_count(), 3);
    let l = named(&cfg, "L");
    assert_eq!(
        edges(&cfg),
        vec![(cfg.entry, l, &BranchOp::Jmp), (l, cfg.exit, &BranchOp::Jmp)]
    );
    assert_eq!(block(&cfg, l).instrs, vec![2]);
    assert!(block(&cfg, cfg.entry).instrs.is_empty());
    assert!(block(&cfg, cfg.exit).instrs.is_empty());
}

#[test]
fn branch_to_two_returns() {
    // br cond .T .F; .T: ret v; .F: ret w
    let cfg = graph_of(vec![
        br("cond", "T", "F"),
        label("T"),
        ret(&["v"]),
        label("F"),
        ret(&["w"]),
    ]);
    assert_eq!(cfg.graph.node_count(), 4);
    let t = named(&cfg, "T");
    let f = named(&cfg, "F");
    assert_ne!(t, f);
    assert_eq!(
        edges(&cfg),
        vec![
            (cfg.entry, t, &cond("cond", true)),
            (cfg.entry, f, &cond("cond", false)),
            (t, cfg.exit, &ret_val("v")),
            (f, cfg.exit, &ret_val("w")),
        ]
    );
}

#[test]
fn empty_function_is_sealed() {
    let cfg = graph_of(vec![]);
    assert_eq!(cfg.graph.node_count(), 2);
    assert_eq!(edges(&cfg), vec![(cfg.entry, cfg.exit, &BranchOp::Jmp)]);
    assert!(cfg.graph.raw_edges()[0].weight.pos.is_none());
    assert!(block(&cfg, cfg.entry).instrs.is_empty());
}

#[test]
fn straight_line_fills_entry() {
    let cfg = graph_of(vec![Code::Instruction, Code::Instruction, Code::Instruction]);
    assert_eq!(cfg.graph.node_count(), 2);
    assert_eq!(block(&cfg, cfg.entry).instrs, vec![0, 1, 2]);
    assert!(block(&cfg, cfg.exit).instrs.is_empty());
    assert_eq!(edges(&cfg), vec![(cfg.entry, cfg.exit, &BranchOp::Jmp)]);
}

#[test]
fn entry_and_exit_are_the_first_two_nodes() {
    let cfg = graph_of(vec![label("a"), jmp("b"), label("b"), ret(&[])]);
    assert_eq!(cfg.entry, 0);
    assert_eq!(cfg.exit, 1);
    let entries =
        (0..cfg.graph.node_count()).filter(|i| block(&cfg, *i).name == BlockName::Entry).count();
    let exits =
        (0..cfg.graph.node_count()).filter(|i| block(&cfg, *i).name == BlockName::Exit).count();
    assert_eq!(entries, 1);
    assert_eq!(exits, 1);
    assert_eq!(block(&cfg, cfg.entry).name, BlockName::Entry);
    assert_eq!(block(&cfg, cfg.exit).name, BlockName::Exit);
    assert!(block(&cfg, cfg.entry).pos.is_none());
    assert!(block(&cfg, cfg.exit).pos.is_none());
}

#[test]
fn label_after_plain_code_falls_through() {
    // print; .A: print; .B: ret
    let cfg = graph_of(vec![
        Code::Instruction,
        label_at("A", 2),
        Code::Instruction,
        label_at("B", 4),
        ret(&[]),
    ]);
    let a = named(&cfg, "A");
    let b = named(&cfg, "B");
    assert_eq!(
        edges(&cfg),
        vec![
            (cfg.entry, a, &BranchOp::Jmp),
            (a, b, &BranchOp::Jmp),
            (b, cfg.exit, &BranchOp::Jmp),
        ]
    );
    assert_eq!(cfg.graph.raw_edges()[0].weight.pos, at(2, 1));
    assert_eq!(cfg.graph.raw_edges()[1].weight.pos, at(4, 1));
    assert_eq!(block(&cfg, a).pos, at(2, 1));
    assert_eq!(block(&cfg, b).pos, at(4, 1));
    assert_eq!(block(&cfg, cfg.entry).instrs, vec![0]);
    assert_eq!(block(&cfg, a).instrs, vec![2]);
    assert!(block(&cfg, b).instrs.is_empty());
}

#[test]
fn label_after_terminator_does_not_fall_through() {
    let cfg = graph_of(vec![label("A"), ret(&[]), label("B"), ret(&[])]);
    let a = named(&cfg, "A");
    let b = named(&cfg, "B");
    assert_eq!(
        edges(&cfg),
        vec![
            (cfg.entry, a, &BranchOp::Jmp),
            (a, cfg.exit, &BranchOp::Jmp),
            (b, cfg.exit, &BranchOp::Jmp),
        ]
    );
}

#[test]
fn code_after_terminator_stays_in_its_block_without_fallthrough() {
    // jmp .B; print; .B: ret
    let cfg = graph_of(vec![jmp("B"), Code::Instruction, label("B"), ret(&[])]);
    let b = named(&cfg, "B");
    assert_eq!(
        edges(&cfg),
        vec![(cfg.entry, b, &BranchOp::Jmp), (b, cfg.exit, &BranchOp::Jmp)]
    );
    assert_eq!(block(&cfg, cfg.entry).instrs, vec![1]);
}

#[test]
fn consecutive_labels_make_empty_blocks() {
    let cfg = graph_of(vec![label("A"), label("B"), label("C")]);
    let (a, b, c) = (named(&cfg, "A"), named(&cfg, "B"), named(&cfg, "C"));
    assert_eq!((a, b, c), (2, 3, 4));
    assert_eq!(
        edges(&cfg),
        vec![(cfg.entry, a, &BranchOp::Jmp), (a, b, &BranchOp::Jmp), (b, c, &BranchOp::Jmp)]
    );
    for i in 0..cfg.graph.node_count() {
        assert!(block(&cfg, i).instrs.is_empty());
    }
}

#[test]
fn forward_reference_and_declaration_share_a_node() {
    // jmp .later; .first: jmp .later; .later: jmp .first
    let cfg = graph_of(vec![
        jmp("later"),
        label("first"),
        jmp("later"),
        label("later"),
        jmp("first"),
    ]);
    assert_eq!(cfg.graph.node_count(), 4);
    let later = named(&cfg, "later");
    let first = named(&cfg, "first");
    assert_eq!((later, first), (2, 3));
    assert_eq!(
        edges(&cfg),
        vec![
            (cfg.entry, later, &BranchOp::Jmp),
            (first, later, &BranchOp::Jmp),
            (later, first, &BranchOp::Jmp),
        ]
    );
}

#[test]
fn nodes_are_numbered_by_first_mention() {
    let cfg = graph_of(vec![br("c", "x", "y"), label("y"), jmp("z"), label("x"), label("z")]);
    assert_eq!(block(&cfg, 2).name, BlockName::Named("x".to_string()));
    assert_eq!(block(&cfg, 3).name, BlockName::Named("y".to_string()));
    assert_eq!(block(&cfg, 4).name, BlockName::Named("z".to_string()));
    assert_eq!(cfg.graph.node_count(), 5);
}

#[test]
fn branch_to_one_label_makes_two_edges() {
    let cfg = graph_of(vec![br("c", "same", "same"), label("same"), ret(&[])]);
    let same = named(&cfg, "same");
    assert_eq!(
        edges(&cfg),
        vec![
            (cfg.entry, same, &cond("c", true)),
            (cfg.entry, same, &cond("c", false)),
            (same, cfg.exit, &BranchOp::Jmp),
        ]
    );
}

#[test]
fn edges_carry_the_position_of_their_instruction() {
    let cfg = graph_of(vec![
        control(ControlOp::Branch, &["c"], &["a", "b"], at(1, 3)),
        label_at("a", 2),
        control(ControlOp::Jump, &[], &["b"], at(3, 3)),
        label_at("b", 4),
        control(ControlOp::Return, &["r"], &[], at(5, 3)),
    ]);
    let got: Vec<Option<Position>> =
        cfg.graph.raw_edges().iter().map(|e| e.weight.pos.clone()).collect();
    assert_eq!(got, vec![at(1, 3), at(1, 3), at(3, 3), at(5, 3)]);
}

#[test]
fn position_with_end_and_file_is_kept() {
    let pos = Some(Position {
        pos: ColRow { col: 1, row: 7 },
        pos_end: Some(ColRow { col: 9, row: 7 }),
        src: Some("main.bril".to_string()),
    });
    let cfg = graph_of(vec![Code::Label { label: "a".to_string(), pos: pos.clone() }]);
    assert_eq!(block(&cfg, 2).pos, pos);
    assert_eq!(cfg.graph.raw_edges()[0].weight.pos, pos);
}

#[test]
fn returns_are_the_edges_into_exit() {
    let cfg = graph_of(vec![
        br("c", "a", "b"),
        label("a"),
        ret(&["x"]),
        label("b"),
        ret(&[]),
        label("c"),
        ret(&["y"]),
    ]);
    let into_exit: Vec<&BranchOp> =
        edges(&cfg).into_iter().filter(|e| e.1 == cfg.exit).map(|e| e.2).collect();
    assert_eq!(into_exit, vec![&ret_val("x"), &BranchOp::Jmp, &ret_val("y")]);
}

#[test]
fn return_without_label_leaves_entry() {
    let cfg = graph_of(vec![Code::Instruction, ret(&["x"])]);
    assert_eq!(edges(&cfg), vec![(cfg.entry, cfg.exit, &ret_val("x"))]);
    assert_eq!(block(&cfg, cfg.entry).instrs, vec![0]);
}

#[test]
fn jump_ignores_its_arguments_and_return_its_labels() {
    let cfg = graph_of(vec![
        control(ControlOp::Jump, &["a", "b"], &["l"], None),
        label("l"),
        control(ControlOp::Return, &[], &["l", "m"], None),
    ]);
    let l = named(&cfg, "l");
    assert_eq!(cfg.graph.node_count(), 3);
    assert_eq!(
        edges(&cfg),
        vec![(cfg.entry, l, &BranchOp::Jmp), (l, cfg.exit, &BranchOp::Jmp)]
    );
}

#[test]
fn arguments_are_copied() {
    let args = vec![
        Argument { name: "n".to_string(), arg_type: Type::Int },
        Argument { name: "p".to_string(), arg_type: Type::Pointer(Box::new(Type::Bool)) },
        Argument { name: "x".to_string(), arg_type: Type::Float },
        Argument { name: "c".to_string(), arg_type: Type::Char },
    ];
    let func = Function { args, instrs: vec![ret(&[])] };
    let cfg = to_cfg(&func).unwrap();
    assert_eq!(cfg.args, func.args);
}

#[test]
fn branch_with_one_label_is_malformed() {
    let func = function(vec![
        Code::Instruction,
        control(ControlOp::Branch, &["c"], &["a"], at(2, 5)),
    ]);
    assert_eq!(
        to_cfg(&func).err(),
        Some(RvsdgError::MalformedTerminator { op: ControlOp::Branch, pos: at(2, 5) })
    );
}

#[test]
fn branch_without_argument_is_malformed() {
    let func = function(vec![control(ControlOp::Branch, &[], &["a", "b"], None)]);
    assert_eq!(
        to_cfg(&func).err(),
        Some(RvsdgError::MalformedTerminator { op: ControlOp::Branch, pos: None })
    );
}

#[test]
fn branch_with_two_arguments_is_malformed() {
    let func = function(vec![control(ControlOp::Branch, &["c", "d"], &["a", "b"], None)]);
    assert!(to_cfg(&func).is_err());
}

#[test]
fn jump_without_label_is_malformed() {
    let func = function(vec![control(ControlOp::Jump, &[], &[], at(9, 1))]);
    assert_eq!(
        to_cfg(&func).err(),
        Some(RvsdgError::MalformedTerminator { op: ControlOp::Jump, pos: at(9, 1) })
    );
}

#[test]
fn jump_with_two_labels_is_malformed() {
    let func = function(vec![control(ControlOp::Jump, &[], &["a", "b"], None)]);
    assert!(to_cfg(&func).is_err());
}

#[test]
fn return_with_two_arguments_is_malformed() {
    let func = function(vec![control(ControlOp::Return, &["a", "b"], &[], at(4, 2))]);
    assert_eq!(
        to_cfg(&func).err(),
        Some(RvsdgError::MalformedTerminator { op: ControlOp::Return, pos: at(4, 2) })
    );
}

#[test]
fn first_malformed_transfer_is_reported() {
    let func = function(vec![
        jmp("a"),
        control(ControlOp::Return, &["a", "b"], &[], at(2, 1)),
        control(ControlOp::Jump, &[], &[], at(3, 1)),
    ]);
    assert_eq!(
        to_cfg(&func).err(),
        Some(RvsdgError::MalformedTerminator { op: ControlOp::Return, pos: at(2, 1) })
    );
}

#[test]
fn label_declared_again_after_empty_body_is_accepted() {
    let func = function(vec![label_at("L", 1), label_at("L", 2), Code::Instruction, ret(&[])]);
    assert!(blocks_commit_once(&func));
    let cfg = to_cfg(&func).unwrap();
    let l = named(&cfg, "L");
    assert_eq!(cfg.graph.node_count(), 3);
    assert_eq!(block(&cfg, l).instrs, vec![2]);
    assert_eq!(block(&cfg, l).pos, at(2, 1));
    assert_eq!(
        edges(&cfg),
        vec![(cfg.entry, l, &BranchOp::Jmp), (l, l, &BranchOp::Jmp), (l, cfg.exit, &BranchOp::Jmp)]
    );
}

#[test]
fn label_declared_again_after_a_body_is_refused() {
    assert!(!blocks_commit_once(&function(vec![label("L"), Code::Instruction, label("L")])));
    assert!(!blocks_commit_once(&function(vec![
        label("L"),
        jmp("M"),
        Code::Instruction,
        label("M"),
        label("L"),
    ])));
}

#[test]
fn streams_with_distinct_labels_commit_once() {
    assert!(blocks_commit_once(&function(vec![])));
    assert!(blocks_commit_once(&function(vec![
        Code::Instruction,
        label("a"),
        Code::Instruction,
        label("b"),
        Code::Instruction,
    ])));
    // A control transfer is no body.
    assert!(blocks_commit_once(&function(vec![label("a"), ret(&[]), label("a")])));
    // The body of the last declaration may hold anything.
    assert!(blocks_commit_once(&function(vec![label("a"), label("a"), Code::Instruction])));
}

#[test]
fn item_limit_leaves_room_for_the_graph() {
    assert_eq!(MAX_ITEMS, 2147483646);
    assert!(2 * (MAX_ITEMS as u64) + 2 < u32::MAX as u64);
}

#[test]
fn try_to_cfg_gives_the_graph_of_an_accepted_function() {
    let func = function(vec![jmp("L"), label("L"), Code::Instruction, ret(&[])]);
    let cfg = try_to_cfg(&func).unwrap().unwrap();
    let l = named(&cfg, "L");
    assert_eq!(
        edges(&cfg),
        vec![(cfg.entry, l, &BranchOp::Jmp), (l, cfg.exit, &BranchOp::Jmp)]
    );
    assert_eq!(block(&cfg, l).instrs, vec![2]);
}

#[test]
fn try_to_cfg_reports_a_malformed_transfer() {
    let func = function(vec![control(ControlOp::Jump, &[], &[], at(1, 1))]);
    assert_eq!(
        try_to_cfg(&func).unwrap().err(),
        Some(RvsdgError::MalformedTerminator { op: ControlOp::Jump, pos: at(1, 1) })
    );
}

#[test]
fn try_to_cfg_refuses_a_block_filled_twice() {
    let func = function(vec![label("L"), Code::Instruction, label("L"), ret(&[])]);
    assert!(try_to_cfg(&func).is_none());
    let behind = function(vec![label("L"), Code::Instruction, label("M"), label("L")]);
    assert!(try_to_cfg(&behind).is_none());
}

#[test]
fn mentioned_label_without_declaration_has_an_empty_block() {
    let cfg = graph_of(vec![Code::Instruction, br("c", "a", "nowhere"), label_at("a", 3), ret(&[])]);
    let nowhere = named(&cfg, "nowhere");
    assert!(block(&cfg, nowhere).instrs.is_empty());
    assert!(block(&cfg, nowhere).pos.is_none());
    assert_eq!(block(&cfg, named(&cfg, "a")).pos, at(3, 1));
    assert!(edges(&cfg).iter().all(|e| e.0 != nowhere));
}

#[test]
fn no_edge_leaves_exit() {
    let cfg = graph_of(vec![ret(&[]), Code::Instruction, label("a"), ret(&["x"]), ret(&[])]);
    assert!(edges(&cfg).iter().all(|e| e.0 != cfg.exit));
    assert_eq!(edges(&cfg).iter().filter(|e| e.1 == cfg.exit).count(), 3);
}
