//! From a function's stream of items to its control-flow graph, in one pass.
use crate::builder::CfgBuilder;
use crate::cfg::{Branch, BranchOp, Cfg};
use crate::error::{RvsdgError, RvsdgErrorView};
use crate::ir::{clone_pos, Code, CodeView, ControlOp, Function, FunctionView};
use crate::commit::{blocks_commit_once, commits_once};
use crate::model::{cfg_of, malformed, run, well_formed};
use crate::steps::{lemma_run_commits, lemma_run_wf};
use vstd::prelude::*;

verus! {

/// The longest stream that a graph has room for: the graph counts its nodes
/// and its edges in 32 bits, and an item adds at most two of each.
pub const MAX_ITEMS: usize = 2147483646;

/// Whether the item at `i` is the first malformed control transfer.
pub open spec fn first_malformed(items: Seq<CodeView>, i: int) -> bool {
    &&& 0 <= i < items.len()
    &&& malformed(items[i])
    &&& forall|j: int| 0 <= j < i ==> !malformed(#[trigger] items[j])
}

/// The error that reports a malformed control transfer.
pub open spec fn malformed_error(item: CodeView) -> RvsdgErrorView {
    RvsdgErrorView::MalformedTerminator { op: item->op, pos: item->Control_pos }
}

/// Whether the construction takes the function: it is not longer than
/// [`MAX_ITEMS`], and every block gets its instructions once.
pub open spec fn accepted(func: FunctionView) -> bool {
    &&& func.instrs.len() <= MAX_ITEMS
    &&& commits_once(func.instrs)
}

/// Whether `result` is what the construction owes for `func`: the graph of
/// the function if no control transfer is malformed, and else the error
/// that reports the first malformed one.
pub open spec fn graph_or_error(func: FunctionView, result: Result<Cfg, RvsdgError>) -> bool {
    match result {
        Ok(cfg) => well_formed(func.instrs) && cfg@ == cfg_of(func),
        Err(error) => exists|i: int| #[trigger]
            first_malformed(func.instrs, i) && error@ == malformed_error(func.instrs[i]),
    }
}

/// The control-flow graph of `func`.
///
/// The blocks and branches follow the stream exactly, except that every
/// return becomes an edge into the one exit block. The first control
/// transfer with the wrong number of arguments or labels is reported, and
/// then there is no graph.
///
/// The function must not be longer than [`MAX_ITEMS`], and every block must
/// get its instructions once. [`try_to_cfg`] asks no such thing.
pub fn to_cfg(func: &Function) -> (result: Result<Cfg, RvsdgError>)
    requires
        accepted(func@),
    ensures
        graph_or_error(func@, result),
{
    let mut builder = CfgBuilder::new(func);
    let mut block: Vec<usize> = Vec::new();
    let mut current = builder.cfg.entry;
    let mut had_branch = false;
    let mut i: usize = 0;
    while i < func.instrs.len()
        invariant
            i <= func.instrs.len(),
            accepted(func@),
            builder.wf(),
            builder@ == run(func@, i as nat).builder,
            current == run(func@, i as nat).current,
            block@ == run(func@, i as nat).pending,
            had_branch == run(func@, i as nat).terminated,
            forall|j: int| 0 <= j < i ==> !malformed(#[trigger] func@.instrs[j]),
            builder@.nodes.len() <= 2 + 2 * i,
            builder@.edges.len() <= 2 * i,
        decreases func.instrs.len() - i,
    {
        proof {
            lemma_run_wf(func@, i as nat);
            lemma_run_commits(func@, i as nat);
            assert(func@.instrs[i as int] == func.instrs[i as int]@);
        }
        let ghost before = run(func@, i as nat);
        let ghost item = func@.instrs[i as int];
        match &func.instrs[i] {
            Code::Label { label, pos } => {
                let next_block = builder.get_index(label.as_str());
                let mut done: Vec<usize> = Vec::new();
                std::mem::swap(&mut done, &mut block);
                builder.finish_block(current, done);
                builder.set_pos(next_block, clone_pos(pos));
                if !had_branch {
                    builder.add_edge(
                        current,
                        next_block,
                        Branch { op: BranchOp::Jmp, pos: clone_pos(pos) },
                    );
                }
                current = next_block;
                had_branch = false;
            },
            Code::Control { op, args, labels, pos } => {
                match op {
                    ControlOp::Branch => {
                        if labels.len() != 2 || args.len() != 1 {
                            assert(first_malformed(func@.instrs, i as int));
                            return Err(
                                RvsdgError::MalformedTerminator { op: *op, pos: clone_pos(pos) },
                            );
                        }
                        had_branch = true;
                        let true_block = builder.get_index(labels[0].as_str());
                        let false_block = builder.get_index(labels[1].as_str());
                        let arg = &args[0];
                        builder.add_edge(
                            current,
                            true_block,
                            Branch {
                                op: BranchOp::Cond { arg: arg.clone(), val: true },
                                pos: clone_pos(pos),
                            },
                        );
                        builder.add_edge(
                            current,
                            false_block,
                            Branch {
                                op: BranchOp::Cond { arg: arg.clone(), val: false },
                                pos: clone_pos(pos),
                            },
                        );
                    },
                    ControlOp::Jump => {
                        if labels.len() != 1 {
                            assert(first_malformed(func@.instrs, i as int));
                            return Err(
                                RvsdgError::MalformedTerminator { op: *op, pos: clone_pos(pos) },
                            );
                        }
                        had_branch = true;
                        let dest_block = builder.get_index(labels[0].as_str());
                        builder.add_edge(
                            current,
                            dest_block,
                            Branch { op: BranchOp::Jmp, pos: clone_pos(pos) },
                        );
                    },
                    ControlOp::Return => {
                        if args.len() > 1 {
                            assert(first_malformed(func@.instrs, i as int));
                            return Err(
                                RvsdgError::MalformedTerminator { op: *op, pos: clone_pos(pos) },
                            );
                        }
                        had_branch = true;
                        let exit = builder.cfg.exit;
                        if args.len() == 0 {
                            builder.add_edge(
                                current,
                                exit,
                                Branch { op: BranchOp::Jmp, pos: clone_pos(pos) },
                            );
                        } else {
                            builder.add_edge(
                                current,
                                exit,
                                Branch {
                                    op: BranchOp::RetVal { arg: args[0].clone() },
                                    pos: clone_pos(pos),
                                },
                            );
                        }
                    },
                }
            },
            Code::Instruction => {
                block.push(i);
            },
        }
        proof {
            assert(run(func@, (i + 1) as nat) == before.step(item, i as int));
        }
        i += 1;
    }
    proof {
        lemma_run_wf(func@, i as nat);
        lemma_run_commits(func@, i as nat);
    }
    builder.finish_block(current, block);
    Ok(builder.build())
}

/// The control-flow graph of `func`, as [`to_cfg`] gives it, or `None` for
/// a function that is longer than [`MAX_ITEMS`] or in which a block would
/// get its instructions twice.
pub fn try_to_cfg(func: &Function) -> (result: Option<Result<Cfg, RvsdgError>>)
    ensures
        match result {
            Some(inner) => accepted(func@) && graph_or_error(func@, inner),
            None => !accepted(func@),
        },
{
    if func.instrs.len() <= MAX_ITEMS && blocks_commit_once(func) {
        Some(to_cfg(func))
    } else {
        None
    }
}

} // verus!
