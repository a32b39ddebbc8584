//! The incremental builder: it owns the graph while it grows, and the map
//! from labels to their nodes.
use crate::cfg::{
    BasicBlock, BasicBlockView, BlockName, BlockNameView, Branch, BranchOp, BranchOpView,
    BranchView, Cfg, CfgView, EdgeView,
};
use crate::graph::{
    graph_add_edge, graph_add_node, graph_edges, graph_has_outgoing, graph_new,
    graph_node_weight_mut,
};
use crate::ir::{Argument, ArgumentView, Function, Position, PositionView};
use vstd::hash_map::StringHashMap;
use vstd::prelude::*;

verus! {

/// The mathematical value of a [`CfgBuilder`].
pub struct BuilderView {
    /// The function's formal arguments.
    pub args: Seq<ArgumentView>,
    /// The blocks made so far.
    pub nodes: Seq<BasicBlockView>,
    /// The branches made so far.
    pub edges: Seq<EdgeView>,
    /// The node of each label mentioned so far.
    pub labels: Map<Seq<char>, int>,
}

impl BuilderView {
    /// A builder that holds an empty entry block and an empty exit block.
    pub open spec fn new(args: Seq<ArgumentView>) -> BuilderView {
        BuilderView {
            args,
            nodes: seq![
                BasicBlockView::empty(BlockNameView::Entry),
                BasicBlockView::empty(BlockNameView::Exit),
            ],
            edges: Seq::empty(),
            labels: Map::empty(),
        }
    }

    /// The invariant of a builder: node 0 is the entry block, node 1 the exit
    /// block, the other nodes are the blocks of the labels mentioned so far,
    /// one for each, and every edge joins two nodes.
    pub open spec fn wf(self) -> bool {
        &&& self.nodes.len() >= 2
        &&& self.nodes[0].name == BlockNameView::Entry
        &&& self.nodes[1].name == BlockNameView::Exit
        &&& forall|label: Seq<char>| #[trigger]
            self.labels.contains_key(label) ==> 2 <= self.labels[label] < self.nodes.len()
                && self.nodes[self.labels[label]].name == BlockNameView::Named(label)
        &&& forall|k: int|
            2 <= k < self.nodes.len() ==> (#[trigger] self.nodes[k]).name is Named
                && self.labels.contains_key(self.nodes[k].name->Named_0)
                && self.labels[self.nodes[k].name->Named_0] == k
        &&& forall|k: int|
            0 <= k < self.edges.len() ==> 0 <= (#[trigger] self.edges[k]).src < self.nodes.len()
                && 0 <= self.edges[k].dst < self.nodes.len()
    }

    /// The node that stands for `label`: the one it was given when it was
    /// first mentioned, or else the next node to be made.
    pub open spec fn index_of(self, label: Seq<char>) -> int {
        if self.labels.contains_key(label) {
            self.labels[label]
        } else {
            self.nodes.len() as int
        }
    }

    /// The builder after `label` was looked up: a label not mentioned before
    /// has a new empty block, and nothing else has changed.
    pub open spec fn with_label(self, label: Seq<char>) -> BuilderView {
        if self.labels.contains_key(label) {
            self
        } else {
            BuilderView {
                nodes: self.nodes.push(BasicBlockView::empty(BlockNameView::Named(label))),
                labels: self.labels.insert(label, self.nodes.len() as int),
                ..self
            }
        }
    }

    /// The builder after the block `node` was given its instructions.
    pub open spec fn with_block(self, node: int, instrs: Seq<usize>) -> BuilderView {
        BuilderView {
            nodes: self.nodes.update(node, BasicBlockView { instrs, ..self.nodes[node] }),
            ..self
        }
    }

    /// The builder after the block `node` was given a position.
    pub open spec fn with_pos(self, node: int, pos: Option<PositionView>) -> BuilderView {
        BuilderView {
            nodes: self.nodes.update(node, BasicBlockView { pos, ..self.nodes[node] }),
            ..self
        }
    }

    /// The builder after an edge was added.
    pub open spec fn with_edge(self, src: int, dst: int, branch: BranchView) -> BuilderView {
        BuilderView { edges: self.edges.push(EdgeView { src, dst, branch }), ..self }
    }

    /// Whether some edge leaves the entry block.
    pub open spec fn entry_leaves(self) -> bool {
        exists|k: int| 0 <= k < self.edges.len() && (#[trigger] self.edges[k]).src == 0
    }

    /// The finished graph: an entry block that nothing leaves gets a jump to
    /// the exit block.
    pub open spec fn built(self) -> CfgView {
        CfgView {
            args: self.args,
            nodes: self.nodes,
            edges: if self.entry_leaves() {
                self.edges
            } else {
                self.edges.push(
                    EdgeView {
                        src: 0,
                        dst: 1,
                        branch: BranchView { op: BranchOpView::Jmp, pos: None },
                    },
                )
            },
            entry: 0,
            exit: 1,
        }
    }
}

/// The graph of a function while it is being built.
pub struct CfgBuilder {
    /// The graph so far.
    pub cfg: Cfg,
    /// The node of each label mentioned so far.
    pub label_to_block: StringHashMap<usize>,
}

impl View for CfgBuilder {
    type V = BuilderView;

    open spec fn view(&self) -> BuilderView {
        BuilderView {
            args: self.cfg@.args,
            nodes: self.cfg@.nodes,
            edges: self.cfg@.edges,
            labels: Map::new(
                |label: Seq<char>| self.label_to_block@.contains_key(label),
                |label: Seq<char>| self.label_to_block@[label] as int,
            ),
        }
    }
}

/// Copies a list of arguments.
pub fn clone_args(args: &Vec<Argument>) -> (copy: Vec<Argument>)
    ensures
        copy.deep_view() == args.deep_view(),
{
    let mut copy: Vec<Argument> = Vec::new();
    let mut i: usize = 0;
    while i < args.len()
        invariant
            i <= args.len(),
            copy.len() == i,
            forall|k: int| 0 <= k < i ==> copy[k]@ == args[k]@,
        decreases args.len() - i,
    {
        copy.push(args[i].clone());
        i += 1;
    }
    assert(copy.deep_view() =~= args.deep_view());
    copy
}

impl CfgBuilder {
    /// Whether the builder is one that [`CfgBuilder::new`] made and the
    /// methods below changed.
    pub open spec fn wf(&self) -> bool {
        &&& self@.wf()
        &&& self.cfg.entry == 0
        &&& self.cfg.exit == 1
    }

    /// A builder for the graph of `func`: an entry block, an exit block, no
    /// edges, no labels.
    pub fn new(func: &Function) -> (builder: CfgBuilder)
        ensures
            builder.wf(),
            builder@ == BuilderView::new(func@.args),
    {
        let mut graph = graph_new();
        let entry = graph_add_node(&mut graph, BasicBlock::empty(BlockName::Entry));
        let exit = graph_add_node(&mut graph, BasicBlock::empty(BlockName::Exit));
        let builder = CfgBuilder {
            cfg: Cfg { args: clone_args(&func.args), graph, entry, exit },
            label_to_block: StringHashMap::new(),
        };
        assert(builder@.nodes =~= BuilderView::new(func@.args).nodes);
        assert(builder@.edges =~= BuilderView::new(func@.args).edges);
        assert(builder@.labels =~= BuilderView::new(func@.args).labels);
        builder
    }

    /// The finished graph. If nothing leaves the entry block, a jump from the
    /// entry block to the exit block is added first.
    pub fn build(self) -> (cfg: Cfg)
        requires
            self.wf(),
            self@.edges.len() < u32::MAX,
        ensures
            cfg@ == self@.built(),
    {
        let mut this = self;
        let leaves = graph_has_outgoing(&this.cfg.graph, this.cfg.entry);
        proof {
            let edges = graph_edges(this.cfg.graph);
            if leaves {
                let k = choose|k: int| 0 <= k < edges.len() && (#[trigger] edges[k]).0 == 0;
                assert(self@.edges[k].src == 0);
            }
            if self@.entry_leaves() {
                let k = choose|k: int|
                    0 <= k < self@.edges.len() && (#[trigger] self@.edges[k]).src == 0;
                assert(edges[k].0 == 0);
            }
            assert(leaves == self@.entry_leaves());
        }
        if !leaves {
            graph_add_edge(
                &mut this.cfg.graph,
                this.cfg.entry,
                this.cfg.exit,
                Branch { op: BranchOp::Jmp, pos: None },
            );
        }
        assert(this.cfg@.edges =~= self@.built().edges);
        this.cfg
    }

    /// The node of `label`. A label that was not mentioned before gets a new
    /// empty block named after it; one that was keeps the node it has, and
    /// the builder does not change.
    pub fn get_index(&mut self, label: &str) -> (index: usize)
        requires
            old(self).wf(),
            !old(self)@.labels.contains_key(label@) ==> old(self)@.nodes.len() < u32::MAX,
        ensures
            final(self).wf(),
            final(self)@ == old(self)@.with_label(label@),
            index == old(self)@.index_of(label@),
    {
        match self.label_to_block.get(label) {
            Some(index) => {
                let index: usize = *index;
                assert(self@.labels =~= old(self)@.labels);
                index
            },
            None => {
                let name = BlockName::Named(label.to_owned());
                let index = graph_add_node(&mut self.cfg.graph, BasicBlock::empty(name));
                self.label_to_block.insert(label.to_owned(), index);
                assert(self@.nodes =~= old(self)@.with_label(label@).nodes);
                assert(self@.edges =~= old(self)@.with_label(label@).edges);
                assert(self@.labels =~= old(self)@.with_label(label@).labels);
                index
            },
        }
    }

    /// Gives the block `index` its instructions. A block gets them once:
    /// it must not hold any yet.
    pub fn finish_block(&mut self, index: usize, block: Vec<usize>)
        requires
            old(self).wf(),
            index < old(self)@.nodes.len(),
            old(self)@.nodes[index as int].instrs.len() == 0,
        ensures
            final(self).wf(),
            final(self)@ == old(self)@.with_block(index as int, block@),
    {
        match graph_node_weight_mut(&mut self.cfg.graph, index) {
            Some(weight) => {
                weight.instrs = block;
            },
            None => {},
        }
        assert(self@.nodes =~= old(self)@.with_block(index as int, block@).nodes);
        assert(self@.edges =~= old(self)@.edges);
        assert(self@.labels =~= old(self)@.labels);
    }

    /// Records where the label of the block `index` was written.
    pub fn set_pos(&mut self, index: usize, pos: Option<Position>)
        requires
            old(self).wf(),
            index < old(self)@.nodes.len(),
        ensures
            final(self).wf(),
            final(self)@ == old(self)@.with_pos(index as int, pos.deep_view()),
    {
        match graph_node_weight_mut(&mut self.cfg.graph, index) {
            Some(weight) => {
                weight.pos = pos;
            },
            None => {},
        }
        assert(self@.nodes =~= old(self)@.with_pos(index as int, pos.deep_view()).nodes);
        assert(self@.edges =~= old(self)@.edges);
        assert(self@.labels =~= old(self)@.labels);
    }

    /// Adds an edge from the block `src` to the block `dst`. Edges between
    /// the same two blocks may repeat.
    pub fn add_edge(&mut self, src: usize, dst: usize, branch: Branch)
        requires
            old(self).wf(),
            src < old(self)@.nodes.len(),
            dst < old(self)@.nodes.len(),
            old(self)@.edges.len() < u32::MAX,
        ensures
            final(self).wf(),
            final(self)@ == old(self)@.with_edge(src as int, dst as int, branch@),
    {
        graph_add_edge(&mut self.cfg.graph, src, dst, branch);
        assert(self@.nodes =~= old(self)@.nodes);
        assert(self@.edges =~= old(self)@.with_edge(src as int, dst as int, branch@).edges);
        assert(self@.labels =~= old(self)@.labels);
    }
}

} // verus!
