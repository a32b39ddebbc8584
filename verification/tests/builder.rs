use petgraph::graph::NodeIndex;
use rvsdg::builder::{clone_args, CfgBuilder};
use rvsdg::cfg::{BasicBlock, BlockName, Branch, BranchOp};
use rvsdg::ir::{clone_pos, Argument, ColRow, Function, Position, Type};

fn no_items() -> Function {
    Function { args: Vec::new(), instrs: Vec::new() }
}

fn node(builder: &CfgBuilder, index: usize) -> &BasicBlock {
    builder.cfg.graph.node_weight(NodeIndex::new(index)).unwrap()
}

fn links(builder: &CfgBuilder) -> Vec<(usize, usize, &BranchOp)> {
    builder
        .cfg
        .graph
        .raw_edges()
        .iter()
        .map(|e| (e.source().index(), e.target().index(), &e.weight.op))
        .collect()
}

fn line(row: u64) -> Option<Position> {
    Some(Position { pos: ColRow { col: 1, row }, pos_end: None, src: None })
}

#[test]
fn empty_block_has_name_only() {
    let block = BasicBlock::empty(BlockName::Named("loop".to_string()));
    assert!(block.instrs.is_empty());
    assert_eq!(block.name, BlockName::Named("loop".to_string()));
    assert!(block.pos.is_none());
}

#[test]
fn new_builder_holds_entry_and_exit() {
    let func = Function {
        args: vec![Argument { name: "a".to_string(), arg_type: Type::Bool }],
        instrs: Vec::new(),
    };
    let builder = CfgBuilder::new(&func);
    assert_eq!(builder.cfg.graph.node_count(), 2);
    assert_eq!(builder.cfg.graph.edge_count(), 0);
    assert_eq!(builder.cfg.entry, 0);
    assert_eq!(builder.cfg.exit, 1);
    assert_eq!(node(&builder, 0).name, BlockName::Entry);
    assert_eq!(node(&builder, 1).name, BlockName::Exit);
    assert!(node(&builder, 0).instrs.is_empty());
    assert!(node(&builder, 1).instrs.is_empty());
    assert!(node(&builder, 0).pos.is_none());
    assert!(builder.label_to_block.is_empty());
    assert_eq!(builder.cfg.args, func.args);
}

#[test]
fn get_index_makes_a_block_once() {
    let mut builder = CfgBuilder::new(&no_items());
    let a = builder.get_index("a");
    let b = builder.get_index("b");
    assert_eq!((a, b), (2, 3));
    assert_eq!(builder.cfg.graph.node_count(), 4);
    assert_eq!(builder.get_index("a"), a);
    assert_eq!(builder.get_index("b"), b);
    assert_eq!(builder.get_index("a"), a);
    assert_eq!(builder.cfg.graph.node_count(), 4);
    assert_eq!(builder.label_to_block.len(), 2);
    assert_eq!(node(&builder, a).name, BlockName::Named("a".to_string()));
    assert_eq!(node(&builder, b).name, BlockName::Named("b".to_string()));
    assert!(node(&builder, a).instrs.is_empty());
    assert!(node(&builder, a).pos.is_none());
    assert_eq!(builder.cfg.graph.edge_count(), 0);
}

#[test]
fn finish_block_stores_the_instructions() {
    let mut builder = CfgBuilder::new(&no_items());
    let a = builder.get_index("a");
    builder.finish_block(a, vec![3, 4, 7]);
    assert_eq!(node(&builder, a).instrs, vec![3, 4, 7]);
    assert_eq!(node(&builder, a).name, BlockName::Named("a".to_string()));
    assert!(node(&builder, 0).instrs.is_empty());
    builder.finish_block(0, vec![1]);
    assert_eq!(node(&builder, 0).instrs, vec![1]);
    assert_eq!(node(&builder, a).instrs, vec![3, 4, 7]);
}

#[test]
fn finish_block_with_nothing_leaves_the_block_open() {
    let mut builder = CfgBuilder::new(&no_items());
    builder.finish_block(0, Vec::new());
    builder.finish_block(0, vec![5]);
    assert_eq!(node(&builder, 0).instrs, vec![5]);
}

#[test]
fn set_pos_records_and_replaces() {
    let mut builder = CfgBuilder::new(&no_items());
    let a = builder.get_index("a");
    builder.set_pos(a, line(3));
    assert_eq!(node(&builder, a).pos, line(3));
    assert!(node(&builder, 0).pos.is_none());
    builder.set_pos(a, line(8));
    assert_eq!(node(&builder, a).pos, line(8));
    builder.set_pos(a, None);
    assert!(node(&builder, a).pos.is_none());
    assert_eq!(node(&builder, a).name, BlockName::Named("a".to_string()));
}

#[test]
fn add_edge_appends_and_allows_parallel_edges() {
    let mut builder = CfgBuilder::new(&no_items());
    let a = builder.get_index("a");
    builder.add_edge(0, a, Branch { op: BranchOp::Jmp, pos: line(1) });
    builder.add_edge(0, a, Branch { op: BranchOp::Jmp, pos: None });
    builder.add_edge(a, a, Branch { op: BranchOp::RetVal { arg: "v".to_string() }, pos: None });
    assert_eq!(
        links(&builder),
        vec![
            (0, a, &BranchOp::Jmp),
            (0, a, &BranchOp::Jmp),
            (a, a, &BranchOp::RetVal { arg: "v".to_string() }),
        ]
    );
    assert_eq!(builder.cfg.graph.raw_edges()[0].weight.pos, line(1));
    assert_eq!(builder.cfg.graph.node_count(), 3);
}

#[test]
fn build_seals_an_entry_that_nothing_leaves() {
    let mut builder = CfgBuilder::new(&no_items());
    let a = builder.get_index("a");
    builder.add_edge(a, 1, Branch { op: BranchOp::Jmp, pos: None });
    let cfg = builder.build();
    let got: Vec<(usize, usize)> =
        cfg.graph.raw_edges().iter().map(|e| (e.source().index(), e.target().index())).collect();
    assert_eq!(got, vec![(a, 1), (0, 1)]);
    assert_eq!(cfg.graph.raw_edges()[1].weight.op, BranchOp::Jmp);
    assert!(cfg.graph.raw_edges()[1].weight.pos.is_none());
    assert_eq!((cfg.entry, cfg.exit), (0, 1));
}

#[test]
fn build_keeps_an_entry_that_something_leaves() {
    let mut builder = CfgBuilder::new(&no_items());
    let a = builder.get_index("a");
    builder.add_edge(a, 1, Branch { op: BranchOp::Jmp, pos: None });
    builder.add_edge(0, a, Branch { op: BranchOp::Cond { arg: "c".to_string(), val: true }, pos: None });
    let cfg = builder.build();
    assert_eq!(cfg.graph.edge_count(), 2);
    assert_eq!(cfg.graph.node_count(), 3);
}

#[test]
fn build_counts_an_edge_from_entry_to_itself() {
    let mut builder = CfgBuilder::new(&no_items());
    builder.add_edge(0, 0, Branch { op: BranchOp::Jmp, pos: None });
    let cfg = builder.build();
    assert_eq!(cfg.graph.edge_count(), 1);
}

#[test]
fn copies_equal_what_they_copy() {
    let pos = Some(Position {
        pos: ColRow { col: 2, row: 3 },
        pos_end: Some(ColRow { col: 4, row: 5 }),
        src: Some("f.bril".to_string()),
    });
    assert_eq!(clone_pos(&pos), pos);
    assert_eq!(clone_pos(&None), None);
    assert_eq!(pos.clone(), pos);
    let deep = Type::Pointer(Box::new(Type::Pointer(Box::new(Type::Char))));
    assert_eq!(deep.clone(), deep);
    assert_eq!(Type::Float.clone(), Type::Float);
    let args = vec![
        Argument { name: "x".to_string(), arg_type: deep },
        Argument { name: "y".to_string(), arg_type: Type::Int },
    ];
    assert_eq!(clone_args(&args), args);
    assert_eq!(args[0].clone(), args[0]);
    assert!(clone_args(&Vec::new()).is_empty());
}
