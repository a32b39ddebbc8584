//! Whether every block of a function gets its instructions once.
//!
//! A block gets its instructions when the next label is read. A label that
//! is declared twice heads one block, which would get instructions twice if
//! any followed the first declaration.
use crate::ir::{Code, CodeView, Function};
use crate::model::last_label;
use crate::steps::{lemma_last_label, lemma_last_label_from};
use vstd::hash_map::StringHashMap;
use vstd::prelude::*;

verus! {

/// Whether an instruction other than a control transfer stands between the
/// label at `i` and the next label.
pub open spec fn has_body(items: Seq<CodeView>, i: int) -> bool {
    exists|k: int|
        i < k < items.len() && #[trigger] items[k] is Instruction && last_label(items, k) == i
}

/// Whether `label` is declared at `n` or later.
pub open spec fn declared_from(items: Seq<CodeView>, label: Seq<char>, n: int) -> bool {
    exists|j: int|
        n <= j < items.len() && #[trigger] items[j] is Label && items[j]->label == label
}

/// Whether every block gets its instructions once: a label that is declared
/// again further down has no instructions between it and the next label.
pub open spec fn commits_once(items: Seq<CodeView>) -> bool {
    forall|i: int|
        0 <= i < items.len() && #[trigger] items[i] is Label && has_body(items, i)
            ==> !declared_from(items, items[i]->label, i + 1)
}

/// Whether an instruction other than a control transfer stands between the
/// label at `i` and the next label, among the first `n` items.
pub open spec fn has_body_before(items: Seq<CodeView>, i: int, n: int) -> bool {
    exists|k: int| i < k < n && #[trigger] items[k] is Instruction && last_label(items, k) == i
}

/// The labels that are declared among the first `n` items and have a body
/// there.
pub open spec fn closed_labels(items: Seq<CodeView>, n: int) -> Set<Seq<char>> {
    Set::new(
        |label: Seq<char>|
            exists|p: int|
                0 <= p < n && #[trigger] items[p] is Label && items[p]->label == label
                    && has_body_before(items, p, n),
    )
}

/// Whether no label with a body is declared again among the first `n` items.
pub open spec fn commits_once_before(items: Seq<CodeView>, n: int) -> bool {
    forall|p: int, j: int|
        0 <= p < j < n && #[trigger] items[p] is Label && #[trigger] items[j] is Label
            && items[p]->label == items[j]->label ==> !has_body(items, p)
}

/// The body of a label lies before the next label.
proof fn lemma_body_before(items: Seq<CodeView>, i: int, j: int)
    requires
        0 <= i < j < items.len(),
        items[j] is Label,
        has_body(items, i),
    ensures
        has_body_before(items, i, j),
{
    let k = choose|k: int|
        i < k < items.len() && #[trigger] items[k] is Instruction && last_label(items, k) == i;
    if k > j {
        lemma_last_label_from(items, j, k);
    }
    assert(i < k < j && items[k] is Instruction && last_label(items, k) == i);
}

/// An item gives a body to the label of its block if it is an instruction
/// other than a control transfer, and to no label otherwise.
proof fn lemma_closed_labels_next(items: Seq<CodeView>, n: int)
    requires
        0 <= n < items.len(),
    ensures
        closed_labels(items, n + 1) == if items[n] is Instruction && last_label(items, n) >= 0 {
            closed_labels(items, n).insert(items[last_label(items, n)]->label)
        } else {
            closed_labels(items, n)
        },
{
    let start = last_label(items, n);
    let grows = items[n] is Instruction && start >= 0;
    let next = if grows {
        closed_labels(items, n).insert(items[start]->label)
    } else {
        closed_labels(items, n)
    };
    lemma_last_label(items, n);
    assert forall|label: Seq<char>| closed_labels(items, n + 1).contains(label) implies next.contains(
        label,
    ) by {
        let p = choose|p: int|
            0 <= p < n + 1 && #[trigger] items[p] is Label && items[p]->label == label
                && has_body_before(items, p, n + 1);
        let k = choose|k: int|
            p < k < n + 1 && #[trigger] items[k] is Instruction && last_label(items, k) == p;
        if k < n {
            assert(p < k < n && items[k] is Instruction && last_label(items, k) == p);
            assert(0 <= p < n && items[p] is Label && has_body_before(items, p, n));
        }
    }
    assert forall|label: Seq<char>| next.contains(label) implies closed_labels(items, n + 1).contains(
        label,
    ) by {
        if closed_labels(items, n).contains(label) {
            let p = choose|p: int|
                0 <= p < n && #[trigger] items[p] is Label && items[p]->label == label
                    && has_body_before(items, p, n);
            let k = choose|k: int|
                p < k < n && #[trigger] items[k] is Instruction && last_label(items, k) == p;
            assert(p < k < n + 1 && items[k] is Instruction && last_label(items, k) == p);
            assert(0 <= p < n + 1 && items[p] is Label && has_body_before(items, p, n + 1));
        } else {
            assert(start < n < n + 1 && items[n] is Instruction && last_label(items, n) == start);
            assert(0 <= start < n + 1 && items[start] is Label && has_body_before(
                items,
                start,
                n + 1,
            ));
        }
    }
    assert(closed_labels(items, n + 1) =~= next);
}

/// A label with a body that is declared again breaks the rule.
proof fn lemma_closed_label_again(items: Seq<CodeView>, n: int)
    requires
        0 <= n < items.len(),
        items[n] is Label,
        closed_labels(items, n).contains(items[n]->label),
    ensures
        !commits_once(items),
{
    let label = items[n]->label;
    let p = choose|p: int|
        0 <= p < n && #[trigger] items[p] is Label && items[p]->label == label && has_body_before(
            items,
            p,
            n,
        );
    let k = choose|k: int|
        p < k < n && #[trigger] items[k] is Instruction && last_label(items, k) == p;
    assert(has_body(items, p));
    assert(p + 1 <= n < items.len() && items[n] is Label && items[n]->label == label);
    assert(declared_from(items, label, p + 1));
}

/// A label without a body so far may be declared again.
proof fn lemma_open_label_again(items: Seq<CodeView>, n: int)
    requires
        0 <= n < items.len(),
        commits_once_before(items, n),
        items[n] is Label ==> !closed_labels(items, n).contains(items[n]->label),
    ensures
        commits_once_before(items, n + 1),
{
    assert forall|p: int, j: int|
        0 <= p < j < n + 1 && #[trigger] items[p] is Label && #[trigger] items[j] is Label
            && items[p]->label == items[j]->label implies !has_body(items, p) by {
        if j == n && has_body(items, p) {
            lemma_body_before(items, p, n);
            assert(closed_labels(items, n).contains(items[n]->label));
        }
    }
}

/// The rule holds of a stream if it holds of all its items.
proof fn lemma_commits_once_whole(items: Seq<CodeView>)
    requires
        commits_once_before(items, items.len() as int),
    ensures
        commits_once(items),
{
    assert forall|p: int|
        0 <= p < items.len() && #[trigger] items[p] is Label && has_body(
            items,
            p,
        ) implies !declared_from(items, items[p]->label, p + 1) by {
        if declared_from(items, items[p]->label, p + 1) {
            let j = choose|j: int|
                p + 1 <= j < items.len() && #[trigger] items[j] is Label && items[j]->label
                    == items[p]->label;
            assert(items[p] is Label && items[j] is Label);
        }
    }
}

/// Whether every block of `func` gets its instructions once: whether no
/// label that instructions follow, before the next label, is declared again
/// further down.
pub fn blocks_commit_once(func: &Function) -> (ok: bool)
    ensures
        ok == commits_once(func@.instrs),
{
    let ghost items = func@.instrs;
    let mut closed: StringHashMap<()> = StringHashMap::new();
    let mut start: Option<usize> = None;
    let mut i: usize = 0;
    while i < func.instrs.len()
        invariant
            i <= func.instrs.len(),
            items == func@.instrs,
            match start {
                Some(p) => p == last_label(items, i as int),
                None => last_label(items, i as int) < 0,
            },
            closed@.dom() =~= closed_labels(items, i as int),
            commits_once_before(items, i as int),
        decreases func.instrs.len() - i,
    {
        proof {
            lemma_last_label(items, i as int);
            lemma_closed_labels_next(items, i as int);
            assert(items[i as int] == func.instrs[i as int]@);
        }
        match &func.instrs[i] {
            Code::Label { label, .. } => {
                if closed.contains_key(label.as_str()) {
                    proof {
                        lemma_closed_label_again(items, i as int);
                    }
                    return false;
                }
                start = Some(i);
            },
            Code::Control { .. } => {},
            Code::Instruction => {
                match start {
                    Some(p) => {
                        assert(items[p as int] == func.instrs[p as int]@);
                        match &func.instrs[p] {
                            Code::Label { label, .. } => {
                                closed.insert(label.clone(), ());
                            },
                            _ => {},
                        }
                    },
                    None => {},
                }
            },
        }
        proof {
            lemma_open_label_again(items, i as int);
        }
        i += 1;
    }
    proof {
        lemma_commits_once_whole(items);
    }
    true
}

} // verus!
