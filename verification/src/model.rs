//! What the construction computes, as a state machine over the items of a
//! function.
//!
//! [`run`] is the state after a number of items, and [`cfg_of`] the graph of
//! a whole function.
use crate::builder::BuilderView;
use crate::cfg::{
    BasicBlockView, BlockNameView, BranchOpView, BranchView, CfgView, EdgeView,
};
use crate::ir::{ArgumentView, CodeView, ControlOp, FunctionView, PositionView};
use vstd::prelude::*;

verus! {

/// Whether a control transfer has the wrong number of arguments or labels:
/// a branch needs one argument and two labels, a jump one label, and a return
/// takes at most one argument.
pub open spec fn malformed(item: CodeView) -> bool {
    match item {
        CodeView::Control { op: ControlOp::Branch, args, labels, .. } => labels.len() != 2
            || args.len() != 1,
        CodeView::Control { op: ControlOp::Jump, labels, .. } => labels.len() != 1,
        CodeView::Control { op: ControlOp::Return, args, .. } => args.len() > 1,
        _ => false,
    }
}

/// Whether no control transfer of the stream is malformed.
pub open spec fn well_formed(items: Seq<CodeView>) -> bool {
    forall|i: int| 0 <= i < items.len() ==> !malformed(#[trigger] items[i])
}

/// The place of the last label among the first `n` items, or -1 if there is
/// none: the label whose block is being filled when item `n` is read.
pub open spec fn last_label(items: Seq<CodeView>, n: int) -> int
    decreases n,
{
    if n <= 0 {
        -1
    } else if items[n - 1] is Label {
        n - 1
    } else {
        last_label(items, n - 1)
    }
}

/// The places of the instructions, other than control transfers, that stand
/// among the first `n` items in the block that the label at `start` heads,
/// in the order of the stream. For the block before the first label,
/// `start` is -1.
pub open spec fn body(items: Seq<CodeView>, start: int, n: int) -> Seq<usize>
    decreases n,
{
    if n <= 0 {
        Seq::empty()
    } else if items[n - 1] is Instruction && last_label(items, n - 1) == start {
        body(items, start, n - 1).push((n - 1) as usize)
    } else {
        body(items, start, n - 1)
    }
}

/// Whether `label` is declared among the first `n` items.
pub open spec fn declared_before(items: Seq<CodeView>, label: Seq<char>, n: int) -> bool {
    exists|j: int| 0 <= j < n && #[trigger] items[j] is Label && items[j]->label == label
}

/// The block that the label at `start` heads, as far as the first `n` items
/// fill it: its instructions, its name and the position of the label. For
/// the block before the first label, `start` is -1.
pub open spec fn block_of(items: Seq<CodeView>, start: int, n: int) -> BasicBlockView {
    BasicBlockView {
        instrs: body(items, start, n),
        name: if start < 0 {
            BlockNameView::Entry
        } else {
            BlockNameView::Named(items[start]->label)
        },
        pos: if start < 0 {
            None
        } else {
            items[start]->Label_pos
        },
    }
}

/// Whether the label at `p` is not declared again among the first `n` items.
pub open spec fn last_declaration(items: Seq<CodeView>, p: int, n: int) -> bool {
    &&& 0 <= p < n
    &&& items[p] is Label
    &&& forall|j: int|
        p < j < n && #[trigger] items[j] is Label ==> items[j]->label != items[p]->label
}

/// What a return does: it yields its argument, or only jumps.
pub open spec fn return_op(args: Seq<Seq<char>>) -> BranchOpView {
    if args.len() == 1 {
        BranchOpView::RetVal { arg: args[0] }
    } else {
        BranchOpView::Jmp
    }
}

/// The state of the construction between two items.
pub struct BuildState {
    /// The graph and the labels so far.
    pub builder: BuilderView,
    /// The block that is being filled.
    pub current: int,
    /// The places of the instructions read for `current` and not yet stored.
    pub pending: Seq<usize>,
    /// Whether a control transfer has left `current` since it was entered.
    pub terminated: bool,
}

impl BuildState {
    /// The state before the first item: the entry block is being filled.
    pub open spec fn init(args: Seq<ArgumentView>) -> BuildState {
        BuildState {
            builder: BuilderView::new(args),
            current: 0,
            pending: Seq::empty(),
            terminated: false,
        }
    }

    /// Adds an edge from the current block and notes that control has left it.
    pub open spec fn transfer(self, target: int, op: BranchOpView, pos: Option<PositionView>)
        -> BuildState {
        BuildState {
            builder: self.builder.with_edge(self.current, target, BranchView { op, pos }),
            terminated: true,
            ..self
        }
    }

    /// A label: the current block is stored, the label's block gets the
    /// label's position and becomes the current one, and control falls
    /// through into it unless a control transfer has left the block before.
    pub open spec fn enter(self, label: Seq<char>, pos: Option<PositionView>) -> BuildState {
        let next = self.builder.index_of(label);
        let placed = self.builder.with_label(label).with_block(self.current, self.pending).with_pos(
            next,
            pos,
        );
        BuildState {
            builder: if self.terminated {
                placed
            } else {
                placed.with_edge(self.current, next, BranchView { op: BranchOpView::Jmp, pos })
            },
            current: next,
            pending: Seq::empty(),
            terminated: false,
        }
    }

    /// The state in which `label` has a node.
    pub open spec fn mention(self, label: Seq<char>) -> BuildState {
        BuildState { builder: self.builder.with_label(label), ..self }
    }

    /// A conditional branch on `arg`: an edge to the block of `on_true` and
    /// one to the block of `on_false`, in this order.
    pub open spec fn branch(
        self,
        arg: Seq<char>,
        on_true: Seq<char>,
        on_false: Seq<char>,
        pos: Option<PositionView>,
    ) -> BuildState {
        let both = self.mention(on_true).mention(on_false);
        both.transfer(both.builder.index_of(on_true), BranchOpView::Cond { arg, val: true }, pos)
            .transfer(both.builder.index_of(on_false), BranchOpView::Cond { arg, val: false }, pos)
    }

    /// A jump: an edge to the block of `target`.
    pub open spec fn jump(self, target: Seq<char>, pos: Option<PositionView>) -> BuildState {
        let there = self.mention(target);
        there.transfer(there.builder.index_of(target), BranchOpView::Jmp, pos)
    }

    /// A return: an edge into the exit block.
    pub open spec fn leave(self, args: Seq<Seq<char>>, pos: Option<PositionView>) -> BuildState {
        self.transfer(1, return_op(args), pos)
    }

    /// The state after the item `item`, which stands at `place` in the stream.
    /// A malformed control transfer changes nothing.
    pub open spec fn step(self, item: CodeView, place: int) -> BuildState {
        if malformed(item) {
            self
        } else {
            match item {
                CodeView::Label { label, pos } => self.enter(label, pos),
                CodeView::Control { op: ControlOp::Branch, args, labels, pos } => self.branch(
                    args[0],
                    labels[0],
                    labels[1],
                    pos,
                ),
                CodeView::Control { op: ControlOp::Jump, labels, pos, .. } => self.jump(
                    labels[0],
                    pos,
                ),
                CodeView::Control { op: ControlOp::Return, args, pos, .. } => self.leave(
                    args,
                    pos,
                ),
                CodeView::Instruction => BuildState {
                    pending: self.pending.push(place as usize),
                    ..self
                },
            }
        }
    }

    /// The finished graph: the current block is stored, and an entry block
    /// that nothing leaves gets a jump to the exit block.
    pub open spec fn finish(self) -> CfgView {
        self.builder.with_block(self.current, self.pending).built()
    }
}

/// The state after the first `n` items of a function.
pub open spec fn run(func: FunctionView, n: nat) -> BuildState
    decreases n,
{
    if n == 0 {
        BuildState::init(func.args)
    } else {
        run(func, (n - 1) as nat).step(func.instrs[n - 1], n - 1)
    }
}

/// The number of edges made before the item at `i` is read. The edges that
/// the item makes stand from this place on.
pub open spec fn edges_before(func: FunctionView, i: nat) -> int {
    run(func, i).builder.edges.len() as int
}

/// The block that is being filled when the item at `i` is read.
pub open spec fn block_at(func: FunctionView, i: nat) -> int {
    run(func, i).current
}

/// Whether a control transfer stands between the last label before `i` (or
/// the start) and `i`: control has then left the block that is being filled
/// when the item at `i` is read.
pub open spec fn terminated_before(items: Seq<CodeView>, i: int) -> bool {
    exists|c: int| last_label(items, i) < c < i && #[trigger] items[c] is Control
}

/// Whether the stream holds neither a label nor a control transfer.
pub open spec fn straight_line(items: Seq<CodeView>) -> bool {
    forall|i: int| 0 <= i < items.len() ==> #[trigger] items[i] is Instruction
}

/// The branch that an edge into the exit block carries.
pub open spec fn exit_branch(edge: EdgeView) -> Option<BranchView> {
    if edge.dst == 1 {
        Some(edge.branch)
    } else {
        None
    }
}

/// The branch that a return makes.
pub open spec fn return_branch(item: CodeView) -> Option<BranchView> {
    match item {
        CodeView::Control { op: ControlOp::Return, args, pos, .. } => Some(
            BranchView { op: return_op(args), pos },
        ),
        _ => None,
    }
}

/// The branches of the edges into the exit block, in the order of the edges.
pub open spec fn exit_branches(edges: Seq<EdgeView>) -> Seq<BranchView> {
    edges.filter_map(|edge: EdgeView| exit_branch(edge))
}

/// The branches that the returns of a stream make, in the order of the
/// stream.
pub open spec fn return_branches(items: Seq<CodeView>) -> Seq<BranchView> {
    items.filter_map(|item: CodeView| return_branch(item))
}

/// The control-flow graph of a function.
pub open spec fn cfg_of(func: FunctionView) -> CfgView {
    run(func, func.instrs.len()).finish()
}

} // verus!
