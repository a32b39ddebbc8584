//! What holds of every graph that the construction makes.
use crate::builder::BuilderView;
use crate::cfg::{BasicBlockView, BlockNameView, BranchOpView, BranchView, CfgView, EdgeView};
use crate::ir::{CodeView, ControlOp, FunctionView};
use crate::model::{
    block_at, block_of, cfg_of, declared_before, edges_before, exit_branches, last_declaration,
    last_label, malformed, return_branch, return_branches, return_op, run, straight_line,
    terminated_before, well_formed, BuildState,
};
use crate::commit::{commits_once, declared_from, has_body};
use crate::steps::{
    lemma_block_at, lemma_block_at_start, lemma_body_holds, lemma_last_label,
    lemma_run_contents, lemma_run_extends, lemma_run_in_cfg, lemma_run_places, lemma_run_wf,
    lemma_step_wf, lemma_with_label, places_of_instructions,
};
use vstd::prelude::*;

verus! {

/// A graph has exactly one entry block and exactly one exit block.
pub proof fn lemma_single_entry_exit(func: FunctionView)
    ensures
        ({
            let cfg = cfg_of(func);
            &&& 0 <= cfg.entry < cfg.nodes.len()
            &&& 0 <= cfg.exit < cfg.nodes.len()
            &&& forall|k: int|
                0 <= k < cfg.nodes.len() ==> ((#[trigger] cfg.nodes[k]).name
                    == BlockNameView::Entry <==> k == cfg.entry)
            &&& forall|k: int|
                0 <= k < cfg.nodes.len() ==> ((#[trigger] cfg.nodes[k]).name == BlockNameView::Exit
                    <==> k == cfg.exit)
        }),
{
    lemma_run_wf(func, func.instrs.len());
}

/// No two blocks of a graph have the same name: a label has one block,
/// however often and wherever it is mentioned.
pub proof fn lemma_names_distinct(func: FunctionView)
    ensures
        forall|a: int, b: int|
            0 <= a < b < cfg_of(func).nodes.len() ==> (#[trigger] cfg_of(func).nodes[a]).name != (
            #[trigger] cfg_of(func).nodes[b]).name,
{
    lemma_run_wf(func, func.instrs.len());
}

/// No edge leaves the exit block.
pub proof fn lemma_exit_is_final(func: FunctionView)
    ensures
        forall|k: int|
            0 <= k < cfg_of(func).edges.len() ==> (#[trigger] cfg_of(func).edges[k]).src != cfg_of(
                func,
            ).exit,
{
    lemma_run_wf(func, func.instrs.len());
}

/// Every edge of a graph joins two of its blocks.
pub proof fn lemma_edges_in_graph(func: FunctionView)
    ensures
        forall|k: int|
            0 <= k < cfg_of(func).edges.len() ==> 0 <= (#[trigger] cfg_of(func).edges[k]).src
                < cfg_of(func).nodes.len() && 0 <= cfg_of(func).edges[k].dst < cfg_of(
                func,
            ).nodes.len(),
{
    lemma_run_wf(func, func.instrs.len());
}

/// A conditional branch makes exactly two edges, one after the other and
/// both from the block being filled: the first is taken when the argument
/// is true and enters the block of the first label, the second is taken
/// when it is false and enters the block of the second label.
pub proof fn lemma_branch_edges(func: FunctionView, i: nat)
    requires
        i < func.instrs.len(),
        func.instrs[i as int] is Control,
        func.instrs[i as int]->op == ControlOp::Branch,
        !malformed(func.instrs[i as int]),
    ensures
        ({
            let item = func.instrs[i as int];
            let k = edges_before(func, i);
            let cfg = cfg_of(func);
            let on_true = cfg.edges[k];
            let on_false = cfg.edges[k + 1];
            &&& edges_before(func, i + 1) == k + 2
            &&& k + 2 <= cfg.edges.len()
            &&& on_true.src == block_at(func, i)
            &&& on_false.src == block_at(func, i)
            &&& on_true.branch == BranchView {
                op: BranchOpView::Cond { arg: item->args[0], val: true },
                pos: item->Control_pos,
            }
            &&& on_false.branch == BranchView {
                op: BranchOpView::Cond { arg: item->args[0], val: false },
                pos: item->Control_pos,
            }
            &&& 0 <= on_true.dst < cfg.nodes.len()
            &&& cfg.nodes[on_true.dst].name == BlockNameView::Named(item->labels[0])
            &&& 0 <= on_false.dst < cfg.nodes.len()
            &&& cfg.nodes[on_false.dst].name == BlockNameView::Named(item->labels[1])
        }),
{
    let item = func.instrs[i as int];
    let s = run(func, i);
    let t = run(func, i + 1);
    lemma_run_wf(func, i);
    lemma_run_in_cfg(func, i + 1);
    let b1 = s.builder.with_label(item->labels[0]);
    lemma_with_label(s.builder, item->labels[0]);
    lemma_with_label(b1, item->labels[1]);
    assert(t == s.branch(item->args[0], item->labels[0], item->labels[1], item->Control_pos));
}

/// A jump makes exactly one edge, from the block being filled into the
/// block of its label.
pub proof fn lemma_jump_edge(func: FunctionView, i: nat)
    requires
        i < func.instrs.len(),
        func.instrs[i as int] is Control,
        func.instrs[i as int]->op == ControlOp::Jump,
        !malformed(func.instrs[i as int]),
    ensures
        ({
            let item = func.instrs[i as int];
            let k = edges_before(func, i);
            let cfg = cfg_of(func);
            &&& edges_before(func, i + 1) == k + 1
            &&& k + 1 <= cfg.edges.len()
            &&& cfg.edges[k].src == block_at(func, i)
            &&& cfg.edges[k].branch == BranchView {
                op: BranchOpView::Jmp,
                pos: item->Control_pos,
            }
            &&& 0 <= cfg.edges[k].dst < cfg.nodes.len()
            &&& cfg.nodes[cfg.edges[k].dst].name == BlockNameView::Named(item->labels[0])
        }),
{
    let item = func.instrs[i as int];
    let s = run(func, i);
    let t = run(func, i + 1);
    lemma_run_wf(func, i);
    lemma_run_in_cfg(func, i + 1);
    lemma_with_label(s.builder, item->labels[0]);
    assert(t == s.jump(item->labels[0], item->Control_pos));
}

/// A return makes exactly one edge, from the block being filled into the
/// exit block: it yields the return's argument if there is one, and only
/// jumps if there is none.
pub proof fn lemma_return_edge(func: FunctionView, i: nat)
    requires
        i < func.instrs.len(),
        func.instrs[i as int] is Control,
        func.instrs[i as int]->op == ControlOp::Return,
        !malformed(func.instrs[i as int]),
    ensures
        ({
            let item = func.instrs[i as int];
            let k = edges_before(func, i);
            let cfg = cfg_of(func);
            &&& edges_before(func, i + 1) == k + 1
            &&& k + 1 <= cfg.edges.len()
            &&& cfg.edges[k] == EdgeView {
                src: block_at(func, i),
                dst: cfg.exit,
                branch: BranchView { op: return_op(item->args), pos: item->Control_pos },
            }
        }),
{
    let item = func.instrs[i as int];
    let s = run(func, i);
    let t = run(func, i + 1);
    lemma_run_wf(func, i);
    lemma_run_in_cfg(func, i + 1);
    assert(t == s.leave(item->args, item->Control_pos));
}

/// Control has left the block being filled exactly if a control transfer
/// stands between the block's label (or the start) and the item to be read.
pub proof fn lemma_terminated(func: FunctionView, n: nat)
    requires
        n <= func.instrs.len(),
        well_formed(func.instrs),
    ensures
        run(func, n).terminated == terminated_before(func.instrs, n as int),
    decreases n,
{
    let items = func.instrs;
    if n > 0 {
        let m = (n - 1) as nat;
        lemma_terminated(func, m);
        lemma_last_label(items, m as int);
        let s = run(func, m);
        let item = items[m as int];
        assert(!malformed(item));
        match item {
            CodeView::Label { .. } => {
                assert(last_label(items, n as int) == m);
            },
            CodeView::Control { .. } => {
                assert(last_label(items, n as int) == last_label(items, m as int));
                assert(last_label(items, n as int) < m < n && items[m as int] is Control);
                assert(run(func, n).terminated);
            },
            CodeView::Instruction => {
                assert(last_label(items, n as int) == last_label(items, m as int));
                if terminated_before(items, n as int) {
                    let c = choose|c: int|
                        last_label(items, n as int) < c < n && #[trigger] items[c] is Control;
                    assert(last_label(items, m as int) < c < m && items[c] is Control);
                }
                if terminated_before(items, m as int) {
                    let c = choose|c: int|
                        last_label(items, m as int) < c < m && #[trigger] items[c] is Control;
                    assert(last_label(items, n as int) < c < n && items[c] is Control);
                }
            },
        }
    }
}

/// A label makes one edge, a jump from the block being filled into the
/// label's block, if no control transfer has left the block being filled
/// since it was entered; otherwise it makes no edge.
pub proof fn lemma_fallthrough(func: FunctionView, i: nat)
    requires
        i < func.instrs.len(),
        func.instrs[i as int] is Label,
        well_formed(func.instrs),
    ensures
        ({
            let item = func.instrs[i as int];
            let k = edges_before(func, i);
            let cfg = cfg_of(func);
            &&& 0 <= block_at(func, i + 1) < cfg.nodes.len()
            &&& cfg.nodes[block_at(func, i + 1)].name == BlockNameView::Named(item->label)
            &&& terminated_before(func.instrs, i as int) ==> edges_before(func, i + 1) == k
            &&& !terminated_before(func.instrs, i as int) ==> {
                &&& edges_before(func, i + 1) == k + 1
                &&& k + 1 <= cfg.edges.len()
                &&& cfg.edges[k] == EdgeView {
                    src: block_at(func, i),
                    dst: block_at(func, i + 1),
                    branch: BranchView { op: BranchOpView::Jmp, pos: item->Label_pos },
                }
            }
        }),
{
    let item = func.instrs[i as int];
    let s = run(func, i);
    let t = run(func, i + 1);
    lemma_run_wf(func, i);
    lemma_run_in_cfg(func, i + 1);
    lemma_terminated(func, i);
    lemma_with_label(s.builder, item->label);
    assert(t == s.enter(item->label, item->Label_pos));
}

/// Where no instruction stands behind a control transfer in its block, the
/// item just before a label decides: after a branch, a jump or a return
/// the label makes no edge, and otherwise it makes one, a jump from the
/// block being filled into the label's block.
pub proof fn lemma_fallthrough_after(func: FunctionView, i: nat)
    requires
        i < func.instrs.len(),
        func.instrs[i as int] is Label,
        well_formed(func.instrs),
        i > 0 && func.instrs[i - 1] is Instruction ==> !terminated_before(func.instrs, i - 1),
    ensures
        ({
            let item = func.instrs[i as int];
            let k = edges_before(func, i);
            let cfg = cfg_of(func);
            &&& i > 0 && func.instrs[i - 1] is Control ==> edges_before(func, i + 1) == k
            &&& !(i > 0 && func.instrs[i - 1] is Control) ==> {
                &&& edges_before(func, i + 1) == k + 1
                &&& k + 1 <= cfg.edges.len()
                &&& cfg.edges[k] == EdgeView {
                    src: block_at(func, i),
                    dst: block_at(func, i + 1),
                    branch: BranchView { op: BranchOpView::Jmp, pos: item->Label_pos },
                }
            }
        }),
{
    let items = func.instrs;
    lemma_fallthrough(func, i);
    if i > 0 {
        lemma_last_label(items, i as int);
        if items[i - 1] is Control {
            assert(last_label(items, i as int) < i - 1 < i && items[i - 1] is Control);
        } else if terminated_before(items, i as int) {
            let c = choose|c: int|
                last_label(items, i as int) < c < i && #[trigger] items[c] is Control;
            assert(last_label(items, i - 1) < c < i - 1 && items[c] is Control);
        }
    }
}

/// The entry block holds the instructions before the first label, and the
/// block of a label holds the instructions between the last declaration of
/// the label and the next label, in the order of the stream, and has the
/// position of that declaration. `p` is the place of the declaration, or
/// -1 for the entry block.
pub proof fn lemma_block_contents(func: FunctionView, p: int)
    requires
        -1 <= p < func.instrs.len(),
        p >= 0 ==> last_declaration(func.instrs, p, func.instrs.len() as int),
    ensures
        0 <= block_at(func, (p + 1) as nat) < cfg_of(func).nodes.len(),
        p < 0 ==> block_at(func, (p + 1) as nat) == cfg_of(func).entry,
        cfg_of(func).nodes[block_at(func, (p + 1) as nat)] == block_of(
            func.instrs,
            p,
            func.instrs.len() as int,
        ),
{
    let items = func.instrs;
    let n = items.len();
    lemma_run_contents(func, n);
    lemma_run_wf(func, n);
    lemma_block_at_start(func, n);
    lemma_block_at(func, (p + 1) as nat);
    lemma_run_in_cfg(func, (p + 1) as nat);
    if p >= 0 {
        assert(last_label(items, p + 1) == p);
    }
    if p != last_label(items, n as int) {
        lemma_last_label(items, n as int);
        lemma_block_at(func, n);
        lemma_run_extends(func, (p + 1) as nat, n);
        if p >= 0 {
            assert(items[last_label(items, n as int)] is Label);
        }
        assert(block_at(func, (p + 1) as nat) != block_at(func, n));
    }
}

/// Every place that a block holds is the place of an instruction of the
/// stream that is no control transfer.
pub proof fn lemma_blocks_hold_instructions(func: FunctionView)
    requires
        func.instrs.len() <= usize::MAX,
    ensures
        forall|k: int|
            0 <= k < cfg_of(func).nodes.len() ==> places_of_instructions(
                (#[trigger] cfg_of(func).nodes[k]).instrs,
                func.instrs,
                func.instrs.len() as int,
            ),
{
    lemma_run_places(func, func.instrs.len());
    lemma_run_wf(func, func.instrs.len());
}

/// In a function in which every block gets its instructions once, no
/// instruction is lost: the block that was being filled when an
/// instruction was read holds the place of the instruction.
pub proof fn lemma_instruction_kept(func: FunctionView, i: nat)
    requires
        commits_once(func.instrs),
        i < func.instrs.len() <= usize::MAX,
        func.instrs[i as int] is Instruction,
    ensures
        0 <= block_at(func, i) < cfg_of(func).nodes.len(),
        cfg_of(func).nodes[block_at(func, i)].instrs.contains(i as usize),
{
    let items = func.instrs;
    let start = last_label(items, i as int);
    lemma_last_label(items, i as int);
    lemma_block_at_start(func, i);
    if start >= 0 {
        assert(start < i < items.len() && items[i as int] is Instruction && last_label(
            items,
            i as int,
        ) == start);
        assert(has_body(items, start));
        assert forall|j: int| start < j < items.len() && #[trigger] items[j] is Label implies items[j]->label
            != items[start]->label by {
            if items[j]->label == items[start]->label {
                assert(start + 1 <= j < items.len() && items[j] is Label);
                assert(declared_from(items, items[start]->label, start + 1));
            }
        }
    }
    lemma_block_contents(func, start);
    lemma_body_holds(items, start, items.len() as int, i as int);
}

/// The exit block holds no instructions and has no position.
pub proof fn lemma_exit_block(func: FunctionView)
    ensures
        0 <= cfg_of(func).exit < cfg_of(func).nodes.len(),
        cfg_of(func).nodes[cfg_of(func).exit] == BasicBlockView::empty(BlockNameView::Exit),
{
    lemma_run_contents(func, func.instrs.len());
    lemma_run_wf(func, func.instrs.len());
}

/// The block of a label that is mentioned and not declared holds no
/// instructions and has no position.
pub proof fn lemma_undeclared_block(func: FunctionView, k: int)
    requires
        2 <= k < cfg_of(func).nodes.len(),
        !declared_before(
            func.instrs,
            cfg_of(func).nodes[k].name->Named_0,
            func.instrs.len() as int,
        ),
    ensures
        cfg_of(func).nodes[k] == BasicBlockView::empty(cfg_of(func).nodes[k].name),
{
    let items = func.instrs;
    let n = items.len();
    lemma_run_contents(func, n);
    lemma_run_wf(func, n);
    lemma_block_at(func, n);
    lemma_last_label(items, n as int);
    let start = last_label(items, n as int);
    if start >= 0 && k == block_at(func, n) {
        assert(0 <= start < n && items[start] is Label);
    }
}

/// A function without labels and control transfers has the graph of two
/// blocks and one edge: the entry block holds all its instructions and
/// jumps to the empty exit block.
pub proof fn lemma_straight_line(func: FunctionView)
    requires
        straight_line(func.instrs),
    ensures
        cfg_of(func) == (CfgView {
            args: func.args,
            nodes: seq![
                BasicBlockView {
                    instrs: Seq::new(func.instrs.len(), |i: int| i as usize),
                    name: BlockNameView::Entry,
                    pos: None,
                },
                BasicBlockView::empty(BlockNameView::Exit),
            ],
            edges: seq![
                EdgeView {
                    src: 0,
                    dst: 1,
                    branch: BranchView { op: BranchOpView::Jmp, pos: None },
                },
            ],
            entry: 0,
            exit: 1,
        }),
{
    lemma_straight_run(func, func.instrs.len());
    let last = run(func, func.instrs.len());
    assert(!last.builder.with_block(last.current, last.pending).entry_leaves());
    assert(cfg_of(func).nodes =~= seq![
        BasicBlockView {
            instrs: Seq::new(func.instrs.len(), |i: int| i as usize),
            name: BlockNameView::Entry,
            pos: None,
        },
        BasicBlockView::empty(BlockNameView::Exit),
    ]);
    assert(cfg_of(func).edges =~= seq![
        EdgeView { src: 0, dst: 1, branch: BranchView { op: BranchOpView::Jmp, pos: None } },
    ]);
}

/// While only plain instructions have been read, nothing has been built:
/// their places are pending for the entry block.
proof fn lemma_straight_run(func: FunctionView, n: nat)
    requires
        n <= func.instrs.len(),
        forall|i: int| 0 <= i < n ==> #[trigger] func.instrs[i] is Instruction,
    ensures
        run(func, n) == (BuildState {
            builder: BuilderView::new(func.args),
            current: 0,
            pending: Seq::new(n, |i: int| i as usize),
            terminated: false,
        }),
    decreases n,
{
    if n == 0 {
        assert(run(func, n).pending =~= Seq::new(n, |i: int| i as usize));
    } else {
        lemma_straight_run(func, (n - 1) as nat);
        assert(func.instrs[n - 1] is Instruction);
        assert(run(func, n).pending =~= Seq::new(n, |i: int| i as usize));
    }
}

/// A jump enters the block that the declaration of its label fills, whether
/// the declaration stands before the jump or after it.
pub proof fn lemma_jump_enters_declared_block(func: FunctionView, i: nat, j: nat)
    requires
        i < func.instrs.len(),
        j < func.instrs.len(),
        func.instrs[i as int] is Control,
        func.instrs[i as int]->op == ControlOp::Jump,
        !malformed(func.instrs[i as int]),
        func.instrs[j as int] is Label,
        func.instrs[j as int]->label == func.instrs[i as int]->labels[0],
    ensures
        edges_before(func, i) < cfg_of(func).edges.len(),
        cfg_of(func).edges[edges_before(func, i)].dst == block_at(func, j + 1),
{
    let label = func.instrs[j as int]->label;
    lemma_jump_edge(func, i);
    lemma_run_wf(func, i);
    lemma_run_wf(func, j);
    lemma_run_in_cfg(func, i + 1);
    lemma_with_label(run(func, i).builder, label);
    lemma_with_label(run(func, j).builder, label);
    assert(run(func, i + 1).builder.labels[label] == cfg_of(func).edges[edges_before(func, i)].dst);
    assert(run(func, j + 1).builder.labels[label] == block_at(func, j + 1));
    if i < j {
        lemma_run_extends(func, i + 1, j + 1);
    } else {
        lemma_run_extends(func, j + 1, i + 1);
    }
}

/// Adding an edge adds its branch to those that enter the exit block
/// exactly if the edge enters the exit block.
proof fn lemma_exit_branches_push(edges: Seq<EdgeView>, edge: EdgeView)
    ensures
        exit_branches(edges.push(edge)) == if edge.dst == 1 {
            exit_branches(edges).push(edge.branch)
        } else {
            exit_branches(edges)
        },
{
    assert(edges.push(edge).drop_last() =~= edges);
    if edge.dst == 1 {
        assert(exit_branches(edges) + seq![edge.branch] =~= exit_branches(edges).push(
            edge.branch,
        ));
    }
}

/// Adding an item adds its branch to those that the returns make exactly
/// if the item is a return.
proof fn lemma_return_branches_push(items: Seq<CodeView>, item: CodeView)
    ensures
        return_branches(items.push(item)) == match return_branch(item) {
            Some(branch) => return_branches(items).push(branch),
            None => return_branches(items),
        },
{
    assert(items.push(item).drop_last() =~= items);
    match return_branch(item) {
        Some(branch) => {
            assert(return_branches(items) + seq![branch] =~= return_branches(items).push(branch));
        },
        None => {},
    }
}

/// After any number of items, the edges into the exit block are the edges
/// of the returns read so far, and an edge leaves the entry block exactly
/// if a label or a control transfer has been read.
proof fn lemma_returns_so_far(func: FunctionView, n: nat)
    requires
        n <= func.instrs.len(),
        well_formed(func.instrs),
    ensures
        exit_branches(run(func, n).builder.edges) == return_branches(func.instrs.take(n as int)),
        run(func, n).builder.entry_leaves() <==> !straight_line(func.instrs.take(n as int)),
    decreases n,
{
    let items = func.instrs;
    if n == 0 {
        assert(items.take(0) =~= Seq::<CodeView>::empty());
        assert(run(func, n).builder.edges =~= Seq::<EdgeView>::empty());
    } else {
        let m = (n - 1) as nat;
        lemma_returns_so_far(func, m);
        lemma_run_wf(func, m);
        lemma_block_at(func, m);
        lemma_terminated(func, m);
        lemma_last_label(items, m as int);
        let s = run(func, m);
        let t = run(func, n);
        let item = items[m as int];
        let before = items.take(m as int);
        let now = items.take(n as int);
        assert(now =~= before.push(item));
        lemma_return_branches_push(before, item);
        assert(!malformed(item));
        assert(t == s.step(item, m as int));
        assert(forall|k: int| 0 <= k < m ==> before[k] == now[k]);
        if !straight_line(before) {
            let k = choose|k: int| 0 <= k < before.len() && !(#[trigger] before[k] is Instruction);
            assert(!(now[k] is Instruction));
            let e = choose|e: int|
                0 <= e < s.builder.edges.len() && (#[trigger] s.builder.edges[e]).src == 0;
            lemma_step_wf(s, item, m as int);
            assert(t.builder.edges[e].src == 0);
        }
        match item {
            CodeView::Label { label, pos } => {
                lemma_with_label(s.builder, label);
                let next = s.builder.index_of(label);
                assert(!(now[m as int] is Instruction));
                if s.terminated {
                    let c = choose|c: int|
                        last_label(items, m as int) < c < m && #[trigger] items[c] is Control;
                    assert(!(before[c] is Instruction));
                } else {
                    let placed = s.builder.with_label(label).with_block(
                        s.current,
                        s.pending,
                    ).with_pos(next, pos);
                    let edge = EdgeView {
                        src: s.current,
                        dst: next,
                        branch: BranchView { op: BranchOpView::Jmp, pos },
                    };
                    assert(t.builder.edges == s.builder.edges.push(edge));
                    lemma_exit_branches_push(s.builder.edges, edge);
                    if straight_line(before) {
                        assert(last_label(items, m as int) < 0) by {
                            if last_label(items, m as int) >= 0 {
                                assert(!(before[last_label(items, m as int)] is Instruction));
                            }
                        }
                        assert(t.builder.edges[s.builder.edges.len() as int].src == 0);
                    }
                }
            },
            CodeView::Control { op, args, labels, pos } => {
                assert(!(now[m as int] is Instruction));
                if straight_line(before) {
                    assert(last_label(items, m as int) < 0) by {
                        if last_label(items, m as int) >= 0 {
                            assert(!(before[last_label(items, m as int)] is Instruction));
                        }
                    }
                }
                match op {
                    ControlOp::Branch => {
                        let b1 = s.builder.with_label(labels[0]);
                        let b2 = b1.with_label(labels[1]);
                        lemma_with_label(s.builder, labels[0]);
                        lemma_with_label(b1, labels[1]);
                        let first = EdgeView {
                            src: s.current,
                            dst: b2.index_of(labels[0]),
                            branch: BranchView {
                                op: BranchOpView::Cond { arg: args[0], val: true },
                                pos,
                            },
                        };
                        let second = EdgeView {
                            src: s.current,
                            dst: b2.index_of(labels[1]),
                            branch: BranchView {
                                op: BranchOpView::Cond { arg: args[0], val: false },
                                pos,
                            },
                        };
                        assert(t.builder.edges == s.builder.edges.push(first).push(second));
                        lemma_exit_branches_push(s.builder.edges, first);
                        lemma_exit_branches_push(s.builder.edges.push(first), second);
                        assert(t.builder.edges[s.builder.edges.len() as int].src == s.current);
                    },
                    ControlOp::Jump => {
                        let b1 = s.builder.with_label(labels[0]);
                        lemma_with_label(s.builder, labels[0]);
                        let edge = EdgeView {
                            src: s.current,
                            dst: b1.index_of(labels[0]),
                            branch: BranchView { op: BranchOpView::Jmp, pos },
                        };
                        assert(t.builder.edges == s.builder.edges.push(edge));
                        lemma_exit_branches_push(s.builder.edges, edge);
                        assert(t.builder.edges[s.builder.edges.len() as int].src == s.current);
                    },
                    ControlOp::Return => {
                        let edge = EdgeView {
                            src: s.current,
                            dst: 1,
                            branch: BranchView { op: return_op(args), pos },
                        };
                        assert(t.builder.edges == s.builder.edges.push(edge));
                        lemma_exit_branches_push(s.builder.edges, edge);
                        assert(t.builder.edges[s.builder.edges.len() as int].src == s.current);
                    },
                }
            },
            CodeView::Instruction => {
                assert(t.builder == s.builder);
                if straight_line(before) {
                    assert forall|k: int| 0 <= k < now.len() implies #[trigger] now[k]
                        is Instruction by {
                        if k < m {
                            assert(before[k] is Instruction);
                        }
                    }
                }
            },
        }
    }
}

/// In the graph of a function that holds a label or a control transfer,
/// the edges into the exit block are the edges of the returns, in the
/// order of the returns: as many as there are returns, each yielding its
/// return's argument if it has one and only jumping if it has none.
pub proof fn lemma_returns_reach_exit(func: FunctionView)
    requires
        well_formed(func.instrs),
        !straight_line(func.instrs),
    ensures
        exit_branches(cfg_of(func).edges) == return_branches(func.instrs),
        exit_branches(cfg_of(func).edges).len() == return_branches(func.instrs).len(),
{
    lemma_returns_so_far(func, func.instrs.len());
    assert(func.instrs.take(func.instrs.len() as int) =~= func.instrs);
    let last = run(func, func.instrs.len());
    let stored = last.builder.with_block(last.current, last.pending);
    let e = choose|e: int|
        0 <= e < last.builder.edges.len() && (#[trigger] last.builder.edges[e]).src == 0;
    assert(stored.edges[e].src == 0);
}

} // verus!
