//! How failures are shown, and what they say.
use vstd::prelude::*;
use crate::exec::context::RunContextView;
use crate::exec::error::RuntimeErrorView;
use crate::exec::machine::{
    answers, context_failure, first_row, machine_ok, others_cancelled, stepped, AtView,
    DirChangeView, EventView, UpdateView,
};
use crate::exec::machine::{GoalView, MachineView};
use crate::exec::model::TaskStatus;
use crate::exec::resolve::{resolved, ResolvedView};
use crate::ir::program::{NodeKindView, NodeView, ProgramView};
use crate::ir::TemplateView;
use crate::names::lookup;

verus! {

broadcast use vstd::string::group_string_axioms;

/// Whether a node has no row of its own.
pub open spec fn is_rowless(node: NodeView) -> bool {
    node.kind is Switch || node.kind is Project
}

/// Whether updates say that a project could not be entered: the first row among
/// the nodes under it says why and shows an error, all other nodes under it are
/// cancelled, and its own node has failed.
pub open spec fn tells_of_project(
    p: ProgramView,
    updates: Seq<UpdateView>,
    node: usize,
    e: RuntimeErrorView,
) -> bool {
    let ids = p.subtree(p.nodes[node as int].children);
    &&& updates.len() > 0
    &&& updates.last() == UpdateView::Status(node, TaskStatus::Error)
    &&& forall|k: int|
        0 <= k < ids.len() && !is_rowless(#[trigger] p.nodes[ids[k] as int]) && (forall|j: int|
            0 <= j < k ==> is_rowless(#[trigger] p.nodes[ids[j] as int])) ==> {
            &&& updates.contains(UpdateView::Status(ids[k], TaskStatus::Error))
            &&& updates.contains(UpdateView::Output(ids[k], "Error: "@ + e.message()))
            &&& forall|j: int|
                0 <= j < ids.len() && #[trigger] ids[j] != ids[k] ==> updates.contains(
                    UpdateView::Status(ids[j], TaskStatus::Cancelled),
                )
            &&& !updates.contains(UpdateView::Status(ids[k], TaskStatus::Cancelled))
        }
}

proof fn lemma_first(nodes: Seq<NodeView>, ids: Seq<usize>, k: int)
    requires
        0 <= k < ids.len(),
        !is_rowless(nodes[ids[k] as int]),
        forall|j: int| 0 <= j < k ==> is_rowless(nodes[#[trigger] ids[j] as int]),
    ensures
        first_row(nodes, ids) == Some(ids[k]),
    decreases k,
{
    if k > 0 {
        let rest = ids.skip(1);
        assert(is_rowless(nodes[ids[0] as int]));
        assert forall|j: int| 0 <= j < k - 1 implies is_rowless(
            nodes[#[trigger] rest[j] as int],
        ) by {
            assert(rest[j] == ids[j + 1]);
        }
        assert(rest[k - 1] == ids[k]);
        lemma_first(nodes, rest, k - 1);
    }
}

proof fn lemma_others(ids: Seq<usize>, one: usize, j: int)
    requires
        0 <= j < ids.len(),
    ensures
        ids[j] != one ==> others_cancelled(ids, one).contains(
            UpdateView::Status(ids[j], TaskStatus::Cancelled),
        ),
        !others_cancelled(ids, one).contains(UpdateView::Status(one, TaskStatus::Cancelled)),
    decreases ids.len(),
{
    let init = ids.drop_last();
    let before = others_cancelled(init, one);
    let all = others_cancelled(ids, one);
    let u = UpdateView::Status(ids[j], TaskStatus::Cancelled);
    if init.len() > 0 {
        lemma_others(init, one, if j < init.len() { j } else { 0 });
    }
    if j < init.len() && ids[j] != one {
        assert(init[j] == ids[j]);
        let i = choose|i: int| 0 <= i < before.len() && before[i] == u;
        assert(all[i] == u);
    }
    if j == init.len() && ids[j] != one {
        assert(all[before.len() as int] == u);
    }
    let w = UpdateView::Status(one, TaskStatus::Cancelled);
    if all.contains(w) {
        let i = choose|i: int| 0 <= i < all.len() && all[i] == w;
        if i < before.len() {
            assert(before[i] == w);
        }
    }
}

proof fn lemma_tells(p: ProgramView, updates: Seq<UpdateView>, node: usize, e: RuntimeErrorView)
    requires
        updates == context_failure(p, p.nodes[node as int].children, e).push(
            UpdateView::Status(node, TaskStatus::Error),
        ),
    ensures
        tells_of_project(p, updates, node, e),
{
    let ids = p.subtree(p.nodes[node as int].children);
    let shown = context_failure(p, p.nodes[node as int].children, e);
    assert forall|k: int|
        0 <= k < ids.len() && !is_rowless(#[trigger] p.nodes[ids[k] as int]) && (forall|j: int|
            0 <= j < k ==> is_rowless(#[trigger] p.nodes[ids[j] as int])) implies ({
        &&& updates.contains(UpdateView::Status(ids[k], TaskStatus::Error))
        &&& updates.contains(UpdateView::Output(ids[k], "Error: "@ + e.message()))
        &&& forall|j: int|
            0 <= j < ids.len() && #[trigger] ids[j] != ids[k] ==> updates.contains(
                UpdateView::Status(ids[j], TaskStatus::Cancelled),
            )
        &&& !updates.contains(UpdateView::Status(ids[k], TaskStatus::Cancelled))
    }) by {
        assert forall|j: int| 0 <= j < k implies is_rowless(p.nodes[#[trigger] ids[j] as int]) by {
            assert(is_rowless(p.nodes[ids[j] as int]));
        }
        lemma_first(p.nodes, ids, k);
        let others = others_cancelled(ids, ids[k]);
        assert(updates[0] == UpdateView::Status(ids[k], TaskStatus::Error));
        assert(updates[1] == UpdateView::Output(ids[k], e.line()));
        assert forall|j: int| 0 <= j < ids.len() && #[trigger] ids[j] != ids[k] implies
            updates.contains(UpdateView::Status(ids[j], TaskStatus::Cancelled)) by {
            lemma_others(ids, ids[k], j);
            let u = UpdateView::Status(ids[j], TaskStatus::Cancelled);
            let i = choose|i: int| 0 <= i < others.len() && others[i] == u;
            assert(updates[i + 2] == u);
        }
        lemma_others(ids, ids[k], k);
        let w = UpdateView::Status(ids[k], TaskStatus::Cancelled);
        if updates.contains(w) {
            let i = choose|i: int| 0 <= i < updates.len() && updates[i] == w;
            assert(2 <= i < updates.len() - 1);
            assert(others[i - 2] == w);
        }
    }
}

/// A statement that fails says why, in a line of its own output, and shows that
/// it was cancelled where it was, and otherwise that it failed. A project has no
/// row: the first row under it says why it could not be entered.
pub proof fn law_a_failure_is_shown(
    p: ProgramView,
    run: RunContextView,
    m: MachineView,
    e: EventView,
    node: usize,
    error: RuntimeErrorView,
)
    requires
        machine_ok(p, m),
        answers(m, e),
        match m.at {
            AtView::Resolve { node: at, .. } => at == node,
            AtView::Capture { node: at, .. } => at == node,
            AtView::Live { node: at, .. } => at == node,
            AtView::Dir { node: at, .. } => at == node,
            AtView::Allow { node: at, .. } => at == node,
            _ => false,
        },
        stepped(p, run, m, e).machine.at == AtView::Finished(Err(error)),
    ensures
        ({
            let updates = stepped(p, run, m, e).updates;
            ||| tells_of_project(p, updates, node, error)
            ||| updates == seq![
                UpdateView::Output(node, "Error: "@ + error.message()),
                UpdateView::Status(
                    node,
                    if error is Cancelled {
                        TaskStatus::Cancelled
                    } else {
                        TaskStatus::Error
                    },
                ),
            ]
        }),
        p.nodes[node as int].kind is Project && !(m.at is Live) && !(m.at is Dir)
            ==> tells_of_project(p, stepped(p, run, m, e).updates, node, error),
{
    let updates = stepped(p, run, m, e).updates;
    let own = seq![
        UpdateView::Output(node, "Error: "@ + error.message()),
        UpdateView::Status(
            node,
            if error is Cancelled {
                TaskStatus::Cancelled
            } else {
                TaskStatus::Error
            },
        ),
    ];
    let project = context_failure(p, p.nodes[node as int].children, error).push(
        UpdateView::Status(node, TaskStatus::Error),
    );
    if updates == project {
        lemma_tells(p, updates, node, error);
    } else {
        assert(updates =~= own);
    }
}

/// What is said of a directory that is not there, or is none, and of a project
/// that is not known or has no name.
pub proof fn law_what_is_not_found_is_named(
    p: ProgramView,
    run: RunContextView,
    m: MachineView,
    node: usize,
    target: Seq<char>,
    why: Seq<char>,
)
    requires
        machine_ok(p, m),
        m.at == (AtView::Dir { node, target }),
    ensures
        stepped(p, run, m, EventView::DirChanged(DirChangeView::Missing(why))).machine.at
            == AtView::Finished(
            Err(RuntimeErrorView::Lookup("cd "@ + target + ": "@ + why)),
        ),
        stepped(p, run, m, EventView::DirChanged(DirChangeView::NotADirectory)).machine.at
            == AtView::Finished(
            Err(RuntimeErrorView::Lookup("cd "@ + target + ": not a directory"@)),
        ),
{
}

/// What is said of a project that is not in the table, and of one without a name.
pub proof fn law_an_unknown_project_is_named(
    p: ProgramView,
    run: RunContextView,
    m: MachineView,
    e: EventView,
    node: usize,
    goal: GoalView,
    outputs: Seq<Seq<char>>,
    name: TemplateView,
    text: Seq<char>,
)
    requires
        machine_ok(p, m),
        answers(m, e),
        m.at == (AtView::Resolve { node, goal, outputs }),
        p.nodes[node as int].kind == NodeKindView::Project(name),
        resolved(name, m.context.values, outputs, 0) matches ResolvedView::Text { text: t, .. }
            && t == text,
        text.len() == 0 || lookup(run.projects, text) is None,
    ensures
        stepped(p, run, m, e).machine.at == AtView::Finished(
            Err(
                RuntimeErrorView::Lookup(
                    if text.len() == 0 {
                        "project name resolved to empty"@
                    } else {
                        "unknown project: `"@ + text + "` (no [project."@ + text
                            + "] entry in kiru.toml)"@
                    },
                ),
            ),
        ),
{
}

/// Each failure says what kind it is, and of what.
pub proof fn law_messages_name_what_failed(a: Seq<char>, b: Seq<char>, secs: u64)
    ensures
        RuntimeErrorView::Lookup(a).message() == "lookup error: "@ + a,
        RuntimeErrorView::Io(a).message() == "IO error: "@ + a,
        RuntimeErrorView::Cancelled(a).message() == "cancelled: "@ + a,
        (RuntimeErrorView::Exec { cmd: a, detail: b }).message() == "execution failed: "@ + a
            + ": "@ + b,
        (RuntimeErrorView::Timeout { cmd: a, secs }).message()
            == "timeout: command timed out after "@ + crate::text::decimal(secs as nat) + "s: "@
            + a,
{
}

} // verus!
