//! The graph: basic blocks, branches between them, and the whole of a
//! function's control flow.
use crate::graph::{graph_edges, graph_nodes};
use crate::ir::{Argument, ArgumentView, Position, PositionView};
use petgraph::graph::Graph;
use vstd::prelude::*;

verus! {

/// Which block a node is.
#[derive(Debug, PartialEq, Eq, Hash)]
pub enum BlockName {
    /// The block in which the function starts.
    Entry,
    /// The block that every return leads to.
    Exit,
    /// The block that a label heads.
    Named(String),
}

/// The mathematical value of a [`BlockName`].
pub enum BlockNameView {
    Entry,
    Exit,
    Named(Seq<char>),
}

impl DeepView for BlockName {
    type V = BlockNameView;

    open spec fn deep_view(&self) -> BlockNameView {
        match self {
            BlockName::Entry => BlockNameView::Entry,
            BlockName::Exit => BlockNameView::Exit,
            BlockName::Named(label) => BlockNameView::Named(label@),
        }
    }
}

impl View for BlockName {
    type V = BlockNameView;

    open spec fn view(&self) -> BlockNameView {
        self.deep_view()
    }
}

impl Clone for BlockName {
    fn clone(&self) -> (name: Self)
        ensures
            name@ == self@,
    {
        match self {
            BlockName::Entry => BlockName::Entry,
            BlockName::Exit => BlockName::Exit,
            BlockName::Named(label) => BlockName::Named(label.clone()),
        }
    }
}

/// A node of the graph: the instructions of a block, by their places in the
/// function's stream, the block's name, and where its label was written.
#[derive(Debug)]
pub struct BasicBlock {
    pub instrs: Vec<usize>,
    pub name: BlockName,
    pub pos: Option<Position>,
}

/// The mathematical value of a [`BasicBlock`].
pub struct BasicBlockView {
    pub instrs: Seq<usize>,
    pub name: BlockNameView,
    pub pos: Option<PositionView>,
}

impl BasicBlockView {
    /// The block of that name that holds nothing yet.
    pub open spec fn empty(name: BlockNameView) -> BasicBlockView {
        BasicBlockView { instrs: Seq::empty(), name, pos: None }
    }
}

impl DeepView for BasicBlock {
    type V = BasicBlockView;

    open spec fn deep_view(&self) -> BasicBlockView {
        BasicBlockView { instrs: self.instrs@, name: self.name@, pos: self.pos.deep_view() }
    }
}

impl View for BasicBlock {
    type V = BasicBlockView;

    open spec fn view(&self) -> BasicBlockView {
        self.deep_view()
    }
}

impl BasicBlock {
    /// A block with no instructions and no position.
    pub fn empty(name: BlockName) -> (block: BasicBlock)
        ensures
            block@ == BasicBlockView::empty(name@),
    {
        BasicBlock { instrs: Vec::new(), name, pos: None }
    }
}

/// What an edge does.
#[derive(Debug, PartialEq, Eq)]
pub enum BranchOp {
    /// An unconditional transfer.
    Jmp,
    /// A transfer taken when the variable `arg` holds `val`.
    Cond { arg: String, val: bool },
    /// A return that yields the variable `arg`.
    RetVal { arg: String },
}

/// The mathematical value of a [`BranchOp`].
pub enum BranchOpView {
    Jmp,
    Cond { arg: Seq<char>, val: bool },
    RetVal { arg: Seq<char> },
}

impl DeepView for BranchOp {
    type V = BranchOpView;

    open spec fn deep_view(&self) -> BranchOpView {
        match self {
            BranchOp::Jmp => BranchOpView::Jmp,
            BranchOp::Cond { arg, val } => BranchOpView::Cond { arg: arg@, val: *val },
            BranchOp::RetVal { arg } => BranchOpView::RetVal { arg: arg@ },
        }
    }
}

impl View for BranchOp {
    type V = BranchOpView;

    open spec fn view(&self) -> BranchOpView {
        self.deep_view()
    }
}

/// An edge of the graph: what it does, and where the instruction that caused
/// it was written.
#[derive(Debug)]
pub struct Branch {
    pub op: BranchOp,
    pub pos: Option<Position>,
}

/// The mathematical value of a [`Branch`].
pub struct BranchView {
    pub op: BranchOpView,
    pub pos: Option<PositionView>,
}

impl DeepView for Branch {
    type V = BranchView;

    open spec fn deep_view(&self) -> BranchView {
        BranchView { op: self.op@, pos: self.pos.deep_view() }
    }
}

impl View for Branch {
    type V = BranchView;

    open spec fn view(&self) -> BranchView {
        self.deep_view()
    }
}

/// An edge with the nodes it joins.
pub struct EdgeView {
    pub src: int,
    pub dst: int,
    pub branch: BranchView,
}

/// The control-flow graph of one function.
///
/// A node is named by its index in the graph, which is the order in which
/// the nodes were made: `entry`, then `exit`, then one node for each label in
/// the order in which the function first mentions them.
pub struct Cfg {
    /// The function's formal arguments.
    pub args: Vec<Argument>,
    /// The blocks and the branches between them.
    pub graph: Graph<BasicBlock, Branch>,
    /// The index of the entry block.
    pub entry: usize,
    /// The index of the exit block.
    pub exit: usize,
}

/// The mathematical value of a [`Cfg`]: nodes and edges in the order in which
/// they were added.
pub struct CfgView {
    pub args: Seq<ArgumentView>,
    pub nodes: Seq<BasicBlockView>,
    pub edges: Seq<EdgeView>,
    pub entry: int,
    pub exit: int,
}

/// The values of the nodes that a graph holds.
pub open spec fn node_views(nodes: Seq<BasicBlock>) -> Seq<BasicBlockView> {
    Seq::new(nodes.len(), |i: int| nodes[i]@)
}

/// The values of the edges that a graph holds.
pub open spec fn edge_views(edges: Seq<(int, int, Branch)>) -> Seq<EdgeView> {
    Seq::new(edges.len(), |i: int| EdgeView { src: edges[i].0, dst: edges[i].1, branch: edges[i].2@ })
}

impl View for Cfg {
    type V = CfgView;

    open spec fn view(&self) -> CfgView {
        CfgView {
            args: self.args.deep_view(),
            nodes: node_views(graph_nodes(self.graph)),
            edges: edge_views(graph_edges(self.graph)),
            entry: self.entry as int,
            exit: self.exit as int,
        }
    }
}

} // verus!
