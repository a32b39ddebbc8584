//! What holds of the construction between any two items: the facts that
//! the one pass over a function rests on, and from which the laws of the
//! finished graph follow.
use crate::builder::BuilderView;
use crate::cfg::{BasicBlockView, BlockNameView};
use crate::ir::{CodeView, ControlOp, FunctionView};
use crate::commit::{commits_once, declared_from, has_body};
use crate::model::{
    block_at, block_of, body, cfg_of, declared_before, last_declaration, last_label, malformed,
    run, BuildState,
};
use vstd::prelude::*;

verus! {

/// The last label before `n` is a label, and no label follows it before `n`.
pub proof fn lemma_last_label(items: Seq<CodeView>, n: int)
    requires
        0 <= n <= items.len(),
    ensures
        -1 <= last_label(items, n) < n,
        last_label(items, n) >= 0 ==> items[last_label(items, n)] is Label,
        forall|m: int| last_label(items, n) < m < n ==> !(#[trigger] items[m] is Label),
    decreases n,
{
    if n > 0 && !(items[n - 1] is Label) {
        lemma_last_label(items, n - 1);
    }
}

/// From a label on, the last label is that one or a later one.
pub proof fn lemma_last_label_from(items: Seq<CodeView>, j: int, k: int)
    requires
        0 <= j < k <= items.len(),
        items[j] is Label,
    ensures
        last_label(items, k) >= j,
    decreases k,
{
    if k - 1 > j && !(items[k - 1] is Label) {
        lemma_last_label_from(items, j, k - 1);
    }
}

/// A label that is declared at `b` or later is declared at `a` or later,
/// for `a` before `b`.
pub proof fn lemma_declared_from_earlier(items: Seq<CodeView>, label: Seq<char>, a: int, b: int)
    requires
        a <= b,
        declared_from(items, label, b),
    ensures
        declared_from(items, label, a),
{
    let j = choose|j: int|
        b <= j < items.len() && #[trigger] items[j] is Label && items[j]->label == label;
    assert(a <= j < items.len() && items[j] is Label && items[j]->label == label);
}

/// Whether `later` keeps all that `earlier` holds: every edge at its place,
/// every node at its index under its name, and every label at its node.
pub open spec fn extends(earlier: BuilderView, later: BuilderView) -> bool {
    &&& earlier.args == later.args
    &&& earlier.edges.len() <= later.edges.len()
    &&& forall|k: int|
        0 <= k < earlier.edges.len() ==> #[trigger] later.edges[k] == earlier.edges[k]
    &&& earlier.nodes.len() <= later.nodes.len()
    &&& forall|k: int|
        0 <= k < earlier.nodes.len() ==> (#[trigger] later.nodes[k]).name == earlier.nodes[k].name
    &&& forall|label: Seq<char>| #[trigger]
        earlier.labels.contains_key(label) ==> later.labels.contains_key(label)
            && later.labels[label] == earlier.labels[label]
}

/// Whether the state is one that the construction can be in: its builder is
/// well formed, the block being filled is a block other than the exit
/// block, and no edge leaves the exit block.
pub open spec fn state_wf(s: BuildState) -> bool {
    &&& s.builder.wf()
    &&& 0 <= s.current < s.builder.nodes.len()
    &&& s.current != 1
    &&& forall|k: int| 0 <= k < s.builder.edges.len() ==> (#[trigger] s.builder.edges[k]).src != 1
}

/// Looking a label up keeps the builder well formed and keeps what it holds.
/// Afterwards the label has a node that bears its name, and looking it up
/// again changes nothing and gives the same node.
pub proof fn lemma_with_label(b: BuilderView, label: Seq<char>)
    requires
        b.wf(),
    ensures
        b.with_label(label).wf(),
        extends(b, b.with_label(label)),
        b.with_label(label).labels.contains_key(label),
        b.with_label(label).labels[label] == b.index_of(label),
        b.with_label(label).index_of(label) == b.index_of(label),
        b.with_label(label).with_label(label) == b.with_label(label),
        2 <= b.index_of(label) < b.with_label(label).nodes.len(),
        b.with_label(label).nodes[b.index_of(label)].name == BlockNameView::Named(label),
        b.with_label(label).nodes.len() <= b.nodes.len() + 1,
        b.with_label(label).edges == b.edges,
{
}

/// An item takes a well-formed state to a well-formed state that keeps what
/// the first one held.
pub proof fn lemma_step_wf(s: BuildState, item: CodeView, place: int)
    requires
        state_wf(s),
    ensures
        state_wf(s.step(item, place)),
        extends(s.builder, s.step(item, place).builder),
{
    let t = s.step(item, place);
    if !malformed(item) {
        match item {
            CodeView::Label { label, pos } => {
                lemma_with_label(s.builder, label);
                let next = s.builder.index_of(label);
                let stored = s.builder.with_label(label).with_block(s.current, s.pending);
                let placed = stored.with_pos(next, pos);
                assert(stored.wf());
                assert(placed.wf());
                assert(extends(s.builder, placed));
            },
            CodeView::Control { op: ControlOp::Branch, args, labels, pos } => {
                let first = s.builder.with_label(labels[0]);
                let both = first.with_label(labels[1]);
                lemma_with_label(s.builder, labels[0]);
                lemma_with_label(first, labels[1]);
                assert(t == s.branch(args[0], labels[0], labels[1], pos));
                assert(t.builder.nodes == both.nodes);
                assert(t.builder.labels == both.labels);
                assert(extends(s.builder, both));
            },
            CodeView::Control { op: ControlOp::Jump, labels, pos, .. } => {
                let there = s.builder.with_label(labels[0]);
                lemma_with_label(s.builder, labels[0]);
                assert(t == s.jump(labels[0], pos));
                assert(t.builder.nodes == there.nodes);
                assert(t.builder.labels == there.labels);
            },
            CodeView::Control { op: ControlOp::Return, args, pos, .. } => {
                assert(t == s.leave(args, pos));
            },
            CodeView::Instruction => {},
        }
    }
}

/// The state between any two items is well formed.
pub proof fn lemma_run_wf(func: FunctionView, n: nat)
    ensures
        state_wf(run(func, n)),
        run(func, n).builder.args == func.args,
    decreases n,
{
    if n > 0 {
        lemma_run_wf(func, (n - 1) as nat);
        lemma_step_wf(run(func, (n - 1) as nat), func.instrs[n - 1], n - 1);
    }
}

/// What the construction has made after `n` items is still there after `m`.
pub proof fn lemma_run_extends(func: FunctionView, n: nat, m: nat)
    requires
        n <= m,
    ensures
        extends(run(func, n).builder, run(func, m).builder),
    decreases m,
{
    if n < m {
        lemma_run_extends(func, n, (m - 1) as nat);
        lemma_run_wf(func, (m - 1) as nat);
        lemma_step_wf(run(func, (m - 1) as nat), func.instrs[m - 1], m - 1);
    }
}

/// What the construction has made after `n` items is in the finished graph:
/// every edge at its place and every node at its index under its name.
pub proof fn lemma_run_in_cfg(func: FunctionView, n: nat)
    requires
        n <= func.instrs.len(),
    ensures
        cfg_of(func).args == func.args,
        cfg_of(func).nodes.len() == run(func, func.instrs.len()).builder.nodes.len(),
        run(func, n).builder.nodes.len() <= cfg_of(func).nodes.len(),
        forall|k: int|
            0 <= k < run(func, n).builder.nodes.len() ==> (#[trigger] cfg_of(func).nodes[k]).name
                == run(func, n).builder.nodes[k].name,
        run(func, n).builder.edges.len() <= cfg_of(func).edges.len(),
        forall|k: int|
            0 <= k < run(func, n).builder.edges.len() ==> #[trigger] cfg_of(func).edges[k] == run(
                func,
                n,
            ).builder.edges[k],
{
    lemma_run_extends(func, n, func.instrs.len());
    lemma_run_wf(func, func.instrs.len());
}

/// The block being filled when the item at `n` is read is the entry block
/// before the first label, and afterwards the block of the last label.
pub proof fn lemma_block_at(func: FunctionView, n: nat)
    requires
        n <= func.instrs.len(),
    ensures
        0 <= block_at(func, n) < run(func, n).builder.nodes.len() <= cfg_of(func).nodes.len(),
        last_label(func.instrs, n as int) < 0 ==> block_at(func, n) == cfg_of(func).entry,
        last_label(func.instrs, n as int) >= 0 ==> {
            let name = BlockNameView::Named(func.instrs[last_label(func.instrs, n as int)]->label);
            &&& run(func, n).builder.nodes[block_at(func, n)].name == name
            &&& cfg_of(func).nodes[block_at(func, n)].name == name
        },
    decreases n,
{
    lemma_run_wf(func, n);
    lemma_run_in_cfg(func, n);
    if n > 0 {
        let m = (n - 1) as nat;
        lemma_block_at(func, m);
        lemma_run_wf(func, m);
        lemma_step_wf(run(func, m), func.instrs[m as int], m as int);
        match func.instrs[m as int] {
            CodeView::Label { label, .. } => {
                lemma_with_label(run(func, m).builder, label);
            },
            _ => {},
        }
    }
}

/// What holds between any two items of a function in which every block
/// gets its instructions once: the block being filled holds nothing yet,
/// pending instructions are the body of its label, and a block that holds
/// instructions is not declared again.
pub open spec fn commit_inv(func: FunctionView, n: nat) -> bool {
    let s = run(func, n);
    let items = func.instrs;
    let nodes = s.builder.nodes;
    let start = last_label(items, n as int);
    &&& nodes[s.current].instrs.len() == 0
    &&& s.pending.len() > 0 && start >= 0 ==> has_body(items, start)
    &&& forall|k: int|
        0 <= k < nodes.len() && (#[trigger] nodes[k]).instrs.len() > 0 && nodes[k].name is Named
            ==> !declared_from(items, nodes[k].name->Named_0, n as int)
}

/// A label keeps [`commit_inv`].
proof fn lemma_enter_commits(func: FunctionView, m: nat)
    requires
        m < func.instrs.len(),
        commits_once(func.instrs),
        commit_inv(func, m),
        func.instrs[m as int] is Label,
    ensures
        commit_inv(func, m + 1),
{
    let items = func.instrs;
    let n = m + 1;
    let s = run(func, m);
    let t = run(func, (m + 1) as nat);
    let label = items[m as int]->label;
    let start = last_label(items, m as int);
    let next = s.builder.index_of(label);
    lemma_last_label(items, m as int);
    lemma_run_wf(func, m);
    lemma_block_at(func, m);
    lemma_with_label(s.builder, label);
    assert(t == s.enter(label, items[m as int]->Label_pos));
    assert(declared_from(items, label, m as int)) by {
        assert(items[m as int] is Label && items[m as int]->label == label);
    }
    assert(t.builder.nodes[next].instrs.len() == 0) by {
        if next == s.current {
            if s.pending.len() > 0 {
                assert(!declared_from(items, label, start + 1));
                lemma_declared_from_earlier(items, label, start + 1, m as int);
            }
        } else if s.builder.labels.contains_key(label) {
            assert(t.builder.nodes[next].instrs == s.builder.nodes[next].instrs);
        }
    }
    assert forall|k: int|
        0 <= k < t.builder.nodes.len() && (#[trigger] t.builder.nodes[k]).instrs.len() > 0
            && t.builder.nodes[k].name is Named implies !declared_from(
        items,
        t.builder.nodes[k].name->Named_0,
        n as int,
    ) by {
        let name = t.builder.nodes[k].name->Named_0;
        if declared_from(items, name, n as int) {
            lemma_declared_from_earlier(items, name, m as int, n as int);
            if k == s.current {
                assert(t.builder.nodes[k].instrs == s.pending);
                assert(s.builder.nodes[k].name == t.builder.nodes[k].name);
                lemma_declared_from_earlier(items, name, start + 1, n as int);
            } else if k < s.builder.nodes.len() {
                assert(t.builder.nodes[k].instrs == s.builder.nodes[k].instrs);
                assert(t.builder.nodes[k].name == s.builder.nodes[k].name);
            }
        }
    }
}

/// A control transfer or another instruction keeps [`commit_inv`].
proof fn lemma_other_commits(func: FunctionView, m: nat)
    requires
        m < func.instrs.len(),
        commit_inv(func, m),
        !(func.instrs[m as int] is Label),
    ensures
        commit_inv(func, m + 1),
{
    let items = func.instrs;
    let n = m + 1;
    let s = run(func, m);
    let t = run(func, (m + 1) as nat);
    let item = items[m as int];
    let start = last_label(items, m as int);
    lemma_last_label(items, m as int);
    lemma_run_wf(func, m);
    lemma_step_wf(s, item, m as int);
    assert(t == s.step(item, m as int));
    lemma_other_keeps_blocks(s, item, m as int);
    if item is Instruction && start >= 0 {
        assert(items[m as int] is Instruction && last_label(items, m as int) == start);
    }
    assert forall|k: int|
        0 <= k < t.builder.nodes.len() && (#[trigger] t.builder.nodes[k]).instrs.len() > 0
            && t.builder.nodes[k].name is Named implies !declared_from(
        items,
        t.builder.nodes[k].name->Named_0,
        n as int,
    ) by {
        let name = t.builder.nodes[k].name->Named_0;
        if declared_from(items, name, n as int) {
            lemma_declared_from_earlier(items, name, m as int, n as int);
        }
    }
}

/// [`commit_inv`] holds between any two items of a function in which every
/// block gets its instructions once.
pub proof fn lemma_run_commits(func: FunctionView, n: nat)
    requires
        n <= func.instrs.len(),
        commits_once(func.instrs),
    ensures
        commit_inv(func, n),
    decreases n,
{
    if n > 0 {
        let m = (n - 1) as nat;
        lemma_run_commits(func, m);
        if func.instrs[m as int] is Label {
            lemma_enter_commits(func, m);
        } else {
            lemma_other_commits(func, m);
        }
    }
}

/// The block being filled stays the same from one label to the next.
pub proof fn lemma_block_at_start(func: FunctionView, n: nat)
    requires
        n <= func.instrs.len(),
    ensures
        block_at(func, n) == block_at(func, (last_label(func.instrs, n as int) + 1) as nat),
    decreases n,
{
    if n > 0 && !(func.instrs[n - 1] is Label) {
        lemma_block_at_start(func, (n - 1) as nat);
    }
}

/// A block has no instructions before its label.
pub proof fn lemma_body_starts_empty(items: Seq<CodeView>, start: int, n: int)
    requires
        n <= start + 1,
        n <= items.len(),
    ensures
        body(items, start, n) == Seq::<usize>::empty(),
    decreases n,
{
    if n > 0 {
        lemma_body_starts_empty(items, start, n - 1);
        lemma_last_label(items, n - 1);
    }
}

/// What holds of the blocks between any two items: the places that are
/// pending are the body, so far, of the block being filled, which has its
/// name and position; every block that was left is the block of the label
/// that was the last to head it; and the exit block and the blocks of
/// labels that are not declared are empty.
pub open spec fn content_inv(func: FunctionView, n: nat) -> bool {
    let s = run(func, n);
    let items = func.instrs;
    let nodes = s.builder.nodes;
    let start = last_label(items, n as int);
    &&& s.pending == body(items, start, n as int)
    &&& nodes[s.current].name == block_of(items, start, n as int).name
    &&& nodes[s.current].pos == block_of(items, start, n as int).pos
    &&& nodes[1] == BasicBlockView::empty(BlockNameView::Exit)
    &&& forall|p: int|
        -1 <= p < n && p != start && (p >= 0 ==> last_declaration(items, p, n as int))
            ==> nodes[block_at(func, (p + 1) as nat)] == #[trigger] block_of(items, p, n as int)
    &&& forall|k: int|
        2 <= k < nodes.len() && !declared_before(items, (#[trigger] nodes[k]).name->Named_0, n as int)
            ==> nodes[k] == BasicBlockView::empty(nodes[k].name)
}

/// A block that was left is another block than the one being filled, if
/// its label is not declared again.
proof fn lemma_left_block_differs(func: FunctionView, p: int, n: nat)
    requires
        n <= func.instrs.len(),
        -1 <= p < n,
        p != last_label(func.instrs, n as int),
        p >= 0 ==> last_declaration(func.instrs, p, n as int),
    ensures
        0 <= block_at(func, (p + 1) as nat) < run(func, n).builder.nodes.len(),
        block_at(func, (p + 1) as nat) != block_at(func, n),
        block_at(func, (p + 1) as nat) != 1,
        p >= 0 ==> run(func, n).builder.nodes[block_at(func, (p + 1) as nat)].name
            == BlockNameView::Named(func.instrs[p]->label),
{
    let items = func.instrs;
    let start = last_label(items, n as int);
    lemma_last_label(items, n as int);
    lemma_block_at(func, n);
    lemma_block_at(func, (p + 1) as nat);
    lemma_run_wf(func, n);
    lemma_run_wf(func, (p + 1) as nat);
    lemma_run_extends(func, (p + 1) as nat, n);
    if p >= 0 {
        assert(last_label(items, p + 1) == p);
        assert(items[start] is Label);
    }
}

/// An item that is no label changes no block that was there, and a block
/// that it makes is empty.
proof fn lemma_other_keeps_blocks(s: BuildState, item: CodeView, place: int)
    requires
        state_wf(s),
        !(item is Label),
    ensures
        forall|k: int|
            0 <= k < s.step(item, place).builder.nodes.len() ==> #[trigger] s.step(
                item,
                place,
            ).builder.nodes[k] == if k < s.builder.nodes.len() {
                s.builder.nodes[k]
            } else {
                BasicBlockView::empty(s.step(item, place).builder.nodes[k].name)
            },
{
    let t = s.step(item, place);
    if !malformed(item) {
        match item {
            CodeView::Control { op: ControlOp::Branch, args, labels, pos } => {
                lemma_with_label(s.builder, labels[0]);
                lemma_with_label(s.builder.with_label(labels[0]), labels[1]);
                assert(t == s.branch(args[0], labels[0], labels[1], pos));
            },
            CodeView::Control { op: ControlOp::Jump, labels, pos, .. } => {
                assert(t == s.jump(labels[0], pos));
            },
            CodeView::Control { op: ControlOp::Return, args, pos, .. } => {
                assert(t == s.leave(args, pos));
            },
            _ => {},
        }
    }
}

/// A label that is declared among the first items is declared among more.
proof fn lemma_declared_before_later(items: Seq<CodeView>, label: Seq<char>, a: int, b: int)
    requires
        a <= b,
        declared_before(items, label, a),
    ensures
        declared_before(items, label, b),
{
    let j = choose|j: int| 0 <= j < a && #[trigger] items[j] is Label && items[j]->label == label;
    assert(0 <= j < b && items[j] is Label && items[j]->label == label);
}

/// An item keeps [`content_inv`].
proof fn lemma_step_contents(func: FunctionView, m: nat)
    requires
        m < func.instrs.len(),
        content_inv(func, m),
    ensures
        content_inv(func, m + 1),
{
    let items = func.instrs;
    let n = m + 1;
    let s = run(func, m);
    let t = run(func, (m + 1) as nat);
    let item = items[m as int];
    let start = last_label(items, m as int);
    lemma_last_label(items, m as int);
    lemma_run_wf(func, m);
    lemma_step_wf(s, item, m as int);
    lemma_block_at_start(func, m);
    lemma_block_at(func, m);
    assert(t == s.step(item, m as int));
    if item is Label {
        lemma_with_label(s.builder, item->label);
        lemma_body_starts_empty(items, m as int, m as int);
        assert(t == s.enter(item->label, item->Label_pos));
    } else {
        lemma_other_keeps_blocks(s, item, m as int);
    }
    assert forall|p: int|
        -1 <= p < n && p != last_label(items, n as int) && (p >= 0 ==> last_declaration(
            items,
            p,
            n as int,
        )) implies t.builder.nodes[block_at(func, (p + 1) as nat)] == #[trigger] block_of(
        items,
        p,
        n as int,
    ) by {
        let held = block_at(func, (p + 1) as nat);
        assert(p < m);
        assert(block_of(items, p, n as int) == block_of(items, p, m as int));
        if p >= 0 {
            assert(last_declaration(items, p, m as int));
        }
        if p == start {
            // The label at `m` has just ended the block.
            assert(item is Label);
            assert(held == s.current);
            assert(p >= 0 ==> item->label != items[p]->label);
            assert(t.builder.nodes[held].instrs == s.pending);
        } else {
            lemma_left_block_differs(func, p, m);
            assert(s.builder.nodes[held] == block_of(items, p, m as int));
            if item is Label {
                assert(p >= 0 ==> item->label != items[p]->label);
                assert(t.builder.nodes[held] == s.builder.nodes[held]);
            }
        }
    }
    assert forall|k: int|
        2 <= k < t.builder.nodes.len() && !declared_before(
            items,
            (#[trigger] t.builder.nodes[k]).name->Named_0,
            n as int,
        ) implies t.builder.nodes[k] == BasicBlockView::empty(t.builder.nodes[k].name) by {
        let label = t.builder.nodes[k].name->Named_0;
        if declared_before(items, label, m as int) {
            lemma_declared_before_later(items, label, m as int, n as int);
        }
        if item is Label {
            assert(item->label != label) by {
                if item->label == label {
                    assert(0 <= m < n && items[m as int] is Label && items[m as int]->label
                        == label);
                }
            }
            if start >= 0 {
                assert(items[start]->label != label) by {
                    if items[start]->label == label {
                        assert(0 <= start < n && items[start] is Label);
                    }
                }
            }
            if k < s.builder.nodes.len() {
                assert(s.builder.nodes[k].name == t.builder.nodes[k].name);
                assert(t.builder.nodes[k] == s.builder.nodes[k]);
            }
        }
    }
}

/// [`content_inv`] holds between any two items.
pub proof fn lemma_run_contents(func: FunctionView, n: nat)
    requires
        n <= func.instrs.len(),
    ensures
        content_inv(func, n),
    decreases n,
{
    if n > 0 {
        lemma_run_contents(func, (n - 1) as nat);
        lemma_step_contents(func, (n - 1) as nat);
    }
}

/// Whether every place in `places` is, among the first `n` items, the
/// place of an instruction that is no control transfer.
pub open spec fn places_of_instructions(places: Seq<usize>, items: Seq<CodeView>, n: int) -> bool {
    forall|j: int|
        0 <= j < places.len() ==> 0 <= #[trigger] places[j] < n && items[places[j] as int]
            is Instruction
}

/// Between any two items, the pending places and the places that the
/// blocks hold are places of instructions read so far.
pub proof fn lemma_run_places(func: FunctionView, n: nat)
    requires
        n <= func.instrs.len() <= usize::MAX,
    ensures
        places_of_instructions(run(func, n).pending, func.instrs, n as int),
        forall|k: int|
            0 <= k < run(func, n).builder.nodes.len() ==> places_of_instructions(
                (#[trigger] run(func, n).builder.nodes[k]).instrs,
                func.instrs,
                n as int,
            ),
    decreases n,
{
    if n > 0 {
        let m = (n - 1) as nat;
        let s = run(func, m);
        let t = run(func, n);
        let item = func.instrs[m as int];
        lemma_run_places(func, m);
        lemma_run_wf(func, m);
        lemma_step_wf(s, item, m as int);
        if item is Label {
            lemma_with_label(s.builder, item->label);
            assert(t == s.enter(item->label, item->Label_pos));
        } else {
            lemma_other_keeps_blocks(s, item, m as int);
        }
        assert forall|k: int| 0 <= k < t.builder.nodes.len() implies places_of_instructions(
            (#[trigger] t.builder.nodes[k]).instrs,
            func.instrs,
            n as int,
        ) by {
            if k < s.builder.nodes.len() {
                assert(places_of_instructions(s.builder.nodes[k].instrs, func.instrs, m as int));
            }
        }
    }
}

/// The body of a block holds the place of every instruction of the block.
pub proof fn lemma_body_holds(items: Seq<CodeView>, start: int, n: int, k: int)
    requires
        0 <= k < n <= items.len() <= usize::MAX,
        items[k] is Instruction,
        last_label(items, k) == start,
    ensures
        body(items, start, n).contains(k as usize),
    decreases n,
{
    if k == n - 1 {
        assert(body(items, start, n).last() == k as usize);
    } else {
        lemma_body_holds(items, start, n - 1, k);
        let rest = body(items, start, n - 1);
        let j = choose|j: int| 0 <= j < rest.len() && (#[trigger] rest[j]) == k as usize;
        assert(body(items, start, n)[j] == k as usize);
    }
}

} // verus!
