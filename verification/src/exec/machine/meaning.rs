//! What the steps of an execution are for: what each kind of statement does, in
//! terms of the program, the context and the answers.
use vstd::prelude::*;
use crate::exec::context::{
    law_the_last_layer_wins, merged, CommandView, ContextView, ProjectExecView, RunContextView,
};
use crate::exec::error::{Outcome, RuntimeErrorView};
use crate::exec::machine::{
    answers, applied, body_left, joins, joint_outcome, machine_ok, marked, others_skipped, stepped,
    taken_arm, template_for, ActionView, AtView, BodyView, DirChangeView, EventView, ExitView,
    GoalView, MachineView, MoveView, UpdateView,
};
use crate::exec::model::{NodeStateView, TaskStatus};
use crate::exec::resolve::{resolved, ResolvedView};
use crate::exec::subprocess::{exit_failure, SubprocessErrorView, SubprocessExit};
use crate::ir::program::{subtree, NodeKindView, NodeView, ProgramView};
use crate::ir::{has_command, TemplateView};
use crate::names::{insert_entry, law_insert_then_lookup, lookup, Entries};
use crate::plan::ArmPatternView;

verus! {

broadcast use vstd::string::group_string_axioms;

// ── Projects ─────────────────────────────────────────────────────────────────

/// Whether a step enters the body of a project in the directory and with the
/// environment of an entry, at its first statement.
pub open spec fn enters_project(
    p: ProgramView,
    m: MachineView,
    next: MoveView,
    node: usize,
    entry: ProjectExecView,
) -> bool {
    &&& next.machine.bodies.len() == m.bodies.len() + 1
    &&& next.machine.bodies.last().children == p.nodes[node as int].children
    &&& next.machine.bodies.last().next == 0
    &&& next.machine.bodies.last().exit == (ExitView::Project {
        node,
        cwd: m.context.cwd,
        direnv: m.context.direnv,
    })
    &&& next.machine.at == AtView::Next
    &&& next.machine.context.cwd == entry.dir
    &&& next.machine.context.direnv == entry.direnv
    &&& next.machine.context.layers == m.context.layers
}

/// The body of a project runs in the directory that the table of projects gives
/// for its name. A project that is not in the table, or whose name is empty, is
/// not entered; one that asks for its environment is entered only after the
/// environment was approved.
pub proof fn law_a_project_runs_in_its_directory(
    p: ProgramView,
    run: RunContextView,
    m: MachineView,
    e: EventView,
    node: usize,
    goal: GoalView,
    outputs: Seq<Seq<char>>,
    name: TemplateView,
)
    requires
        machine_ok(p, m),
        answers(m, e),
        m.at == (AtView::Resolve { node, goal, outputs }),
        p.nodes[node as int].kind == NodeKindView::Project(name),
    ensures
        ({
            let next = stepped(p, run, m, e);
            match resolved(name, m.context.values, outputs, 0) {
                ResolvedView::Run { cmd, .. } => next.machine.bodies == m.bodies
                    && next.machine.context == m.context && next.action is Capture,
                ResolvedView::Text { text, .. } => match lookup(run.projects, text) {
                    None => next.machine.bodies == m.bodies && next.machine.context.cwd
                        == m.context.cwd && (next.machine.at matches AtView::Finished(r) && r
                        is Err),
                    Some(entry) => if text.len() == 0 {
                        next.machine.bodies == m.bodies && (next.machine.at matches
                            AtView::Finished(r) && r is Err)
                    } else if entry.direnv {
                        &&& next.machine.bodies == m.bodies
                        &&& next.machine.context.cwd == m.context.cwd
                        &&& next.machine.at == (AtView::Allow { node, name: text })
                        &&& next.action matches ActionView::Allow(command) && command.argv == seq![
                            "direnv"@,
                            "allow"@,
                            entry.dir,
                        ]
                    } else {
                        enters_project(p, m, next, node, entry)
                    },
                },
            }
        }),
{
}

/// After the approval of its environment a project is entered, in the directory
/// that the table of projects gives for its name, just where the approval ended
/// with success and was not stopped.
pub proof fn law_an_approved_project_runs_in_its_directory(
    p: ProgramView,
    run: RunContextView,
    m: MachineView,
    e: EventView,
    node: usize,
    name: Seq<char>,
    entry: ProjectExecView,
)
    requires
        machine_ok(p, m),
        answers(m, e),
        m.at == (AtView::Allow { node, name }),
        lookup(run.projects, name) == Some(entry),
    ensures
        ({
            let next = stepped(p, run, m, e);
            let approved = e matches EventView::Approved { end: Ok(exit), .. }
                && !exit.killed_by_switch && exit.status.code == Some(0i32);
            if approved {
                enters_project(p, m, next, node, entry)
            } else {
                next.machine.bodies == m.bodies && next.machine.context == m.context && (
                next.machine.at matches AtView::Finished(r) && r is Err)
            }
        }),
{
}

// ── Commands ─────────────────────────────────────────────────────────────────

/// The layer that decides on a variable: the last one that sets it.
pub open spec fn decides(layers: Seq<Entries<Seq<char>>>, name: Seq<char>, i: int) -> bool {
    0 <= i < layers.len() && lookup(layers[i], name) is Some && forall|j: int|
        i < j < layers.len() ==> (#[trigger] lookup(layers[j], name)) is None
}

/// Whether a command runs in a context: in its directory, through the shell of
/// the run, with the environment of the directory where that is asked for, and
/// with each variable as the innermost block that sets it says.
pub open spec fn runs_in(
    c: CommandView,
    context: ContextView,
    run: RunContextView,
    text: Seq<char>,
) -> bool {
    let shell = seq![run.shell, "-c"@, text];
    &&& c.dir == Some(context.cwd)
    &&& c.argv == if context.direnv {
        seq!["direnv"@, "exec"@, context.cwd] + shell
    } else {
        shell
    }
    &&& forall|name: Seq<char>, i: int|
        #[trigger] decides(context.layers, name, i) ==> lookup(c.env, name) == lookup(
            context.layers[i],
            name,
        )
    &&& forall|name: Seq<char>|
        (forall|i: int| 0 <= i < context.layers.len() ==> lookup(context.layers[i], name) is None)
            ==> (#[trigger] lookup(c.env, name)) is None
}

proof fn lemma_merged_decided(layers: Seq<Entries<Seq<char>>>, name: Seq<char>, i: int)
    requires
        decides(layers, name, i),
    ensures
        lookup(merged(layers), name) == lookup(layers[i], name),
    decreases layers.len(),
{
    law_the_last_layer_wins(layers, name);
    if i < layers.len() - 1 {
        let init = layers.drop_last();
        assert(lookup(layers[layers.len() - 1], name) is None);
        assert(decides(init, name, i)) by {
            assert(init[i] == layers[i]);
            assert forall|j: int| i < j < init.len() implies (#[trigger] lookup(
                init[j],
                name,
            )) is None by {
                assert(init[j] == layers[j]);
                assert(lookup(layers[j], name) is None);
            }
        }
        lemma_merged_decided(init, name, i);
        assert(init[i] == layers[i]);
    }
}

proof fn lemma_merged_unset(layers: Seq<Entries<Seq<char>>>, name: Seq<char>)
    requires
        forall|i: int| 0 <= i < layers.len() ==> (#[trigger] lookup(layers[i], name)) is None,
    ensures
        lookup(merged(layers), name) is None,
    decreases layers.len(),
{
    if layers.len() > 0 {
        law_the_last_layer_wins(layers, name);
        let init = layers.drop_last();
        assert(lookup(layers[layers.len() - 1], name) is None);
        assert forall|i: int| 0 <= i < init.len() implies (#[trigger] lookup(
            init[i],
            name,
        )) is None by {
            assert(init[i] == layers[i]);
            assert(lookup(layers[i], name) is None);
        }
        lemma_merged_unset(init, name);
    }
}

proof fn lemma_runs_in(context: ContextView, run: RunContextView, text: Seq<char>)
    ensures
        runs_in(context.command(run, text), context, run, text),
{
    let c = context.command(run, text);
    let shell = seq![run.shell, "-c"@, text];
    assert(Seq::<Seq<char>>::empty() + shell =~= shell);
    assert forall|name: Seq<char>, i: int| #[trigger]
        decides(context.layers, name, i) implies lookup(c.env, name) == lookup(
        context.layers[i],
        name,
    ) by {
        lemma_merged_decided(context.layers, name, i);
    }
    assert forall|name: Seq<char>|
        (forall|i: int| 0 <= i < context.layers.len() ==> lookup(
            context.layers[i],
            name,
        ) is None) implies (#[trigger] lookup(c.env, name)) is None by {
        lemma_merged_unset(context.layers, name);
    }
}

/// Every command that is asked for runs in the context: in its directory,
/// through the shell of the run, with the variables that are set. The command of
/// a statement is the text of its template.
pub proof fn law_commands_run_in_the_context(
    p: ProgramView,
    run: RunContextView,
    m: MachineView,
    e: EventView,
    node: usize,
    goal: GoalView,
    outputs: Seq<Seq<char>>,
    command: TemplateView,
)
    requires
        machine_ok(p, m),
        answers(m, e),
        m.at == (AtView::Resolve { node, goal, outputs }),
        p.nodes[node as int].kind == NodeKindView::Exec(command),
    ensures
        ({
            let next = stepped(p, run, m, e);
            match resolved(command, m.context.values, outputs, 0) {
                ResolvedView::Run { cmd, .. } => next.action matches ActionView::Capture(c)
                    && runs_in(c, m.context, run, cmd) && next.machine.bodies == m.bodies,
                ResolvedView::Text { text, .. } => {
                    &&& next.action matches ActionView::RunLive { node: shown, command: c }
                        && shown == node && runs_in(c, m.context, run, text)
                    &&& next.machine.at == (AtView::Live { node, cmd: text })
                    &&& next.machine.bodies == m.bodies
                    &&& next.machine.context.cwd == m.context.cwd
                },
            }
        }),
{
    match resolved(command, m.context.values, outputs, 0) {
        ResolvedView::Run { cmd, .. } => {
            lemma_runs_in(m.context, run, cmd);
        },
        ResolvedView::Text { text, values, .. } => {
            let context = ContextView { values, ..m.context };
            lemma_runs_in(context, run, text);
            assert(runs_in(context.command(run, text), m.context, run, text));
        },
    }
}

/// The commands of templates run in the context too, whatever the statement.
pub proof fn law_captured_commands_run_in_the_context(
    p: ProgramView,
    run: RunContextView,
    m: MachineView,
    e: EventView,
)
    requires
        machine_ok(p, m),
        answers(m, e),
    ensures
        stepped(p, run, m, e).action matches ActionView::Capture(c) ==> {
            &&& runs_in(c, m.context, run, c.desc)
            &&& m.at is Resolve
            &&& stepped(p, run, m, e).machine.at matches AtView::Capture { cmd, .. } && cmd
                == c.desc
        },
{
    if stepped(p, run, m, e).action is Capture {
        match m.at {
            AtView::Resolve { node, goal, outputs } => {
                let t = template_for(p.nodes[node as int].kind, goal);
                match resolved(t, m.context.values, outputs, 0) {
                    ResolvedView::Run { cmd, .. } => {
                        lemma_runs_in(m.context, run, cmd);
                    },
                    _ => {},
                }
            },
            _ => {},
        }
    }
}

/// The end of a command decides on its statement. Where the run did not stop it,
/// the statement succeeds just where the command ended with code zero; any other
/// code, and a signal, is a failure of the command. What the run stopped is
/// cancelled, and what ran for too long or did not start is a failure.
pub proof fn law_the_end_of_a_command_decides(
    p: ProgramView,
    run: RunContextView,
    m: MachineView,
    node: usize,
    cmd: Seq<char>,
    end: Result<SubprocessExit, SubprocessErrorView>,
)
    requires
        machine_ok(p, m),
        m.at == (AtView::Live { node, cmd }),
    ensures
        ({
            let next = stepped(p, run, m, EventView::Exited(end));
            &&& next.machine.bodies == m.bodies
            &&& next.machine.context == m.context
            &&& match end {
                Ok(exit) => if exit.killed_by_switch {
                    next.machine.at matches AtView::Finished(Err(error)) && error is Cancelled
                } else if exit.status.code == Some(0i32) {
                    next.machine.at == AtView::Finished(Ok(())) && next.updates == seq![
                        UpdateView::Status(node, TaskStatus::Success),
                    ]
                } else {
                    next.machine.at matches AtView::Finished(Err(error)) && (error matches
                        RuntimeErrorView::Exec { cmd: failed, detail } && failed == cmd && detail
                        == exit_failure(exit.status))
                },
                Err(SubprocessErrorView::Timeout { command, .. }) => next.machine.at
                    == AtView::Finished(
                    Err(
                        RuntimeErrorView::Timeout {
                            cmd: command,
                            secs: match run.timeout {
                                Some(secs) => secs,
                                None => 0,
                            },
                        },
                    ),
                ),
                Err(SubprocessErrorView::Spawn(why)) => next.machine.at matches AtView::Finished(
                    Err(error),
                ) && (error matches RuntimeErrorView::Exec { cmd: failed, detail } && failed == cmd
                    && detail == "failed to spawn process: "@ + why),
            }
        }),
{
    let next = stepped(p, run, m, EventView::Exited(end));
    if end is Ok && !end->Ok_0.killed_by_switch && end->Ok_0.status.code == Some(0i32) {
        assert(next.updates =~= seq![UpdateView::Status(node, TaskStatus::Success)]);
    }
}

// ── Directories ──────────────────────────────────────────────────────────────

/// A change of directory asks for its target as it is seen from where the
/// execution is.
pub proof fn law_a_directory_is_looked_for(
    p: ProgramView,
    run: RunContextView,
    m: MachineView,
    e: EventView,
    node: usize,
    goal: GoalView,
    outputs: Seq<Seq<char>>,
    target: TemplateView,
)
    requires
        machine_ok(p, m),
        answers(m, e),
        m.at == (AtView::Resolve { node, goal, outputs }),
        p.nodes[node as int].kind == NodeKindView::Cd(target),
        resolved(target, m.context.values, outputs, 0) is Text,
    ensures
        ({
            let next = stepped(p, run, m, e);
            let text = resolved(target, m.context.values, outputs, 0)->Text_text;
            &&& next.action == (ActionView::ChangeDir { from: m.context.cwd, target: text })
            &&& next.machine.at == (AtView::Dir { node, target: text })
            &&& next.machine.bodies == m.bodies
            &&& next.machine.context.cwd == m.context.cwd
        }),
{
}

/// After a change of directory what follows runs in the directory that was
/// found; where none was found the statement fails and nothing moves.
pub proof fn law_a_found_directory_is_entered(
    p: ProgramView,
    run: RunContextView,
    m: MachineView,
    node: usize,
    target: Seq<char>,
    change: DirChangeView,
)
    requires
        machine_ok(p, m),
        m.at == (AtView::Dir { node, target }),
    ensures
        ({
            let next = stepped(p, run, m, EventView::DirChanged(change));
            &&& next.machine.bodies == m.bodies
            &&& match change {
                DirChangeView::Found(path) => next.machine.at == AtView::Finished(Ok(()))
                    && next.machine.context == (ContextView { cwd: path, ..m.context }),
                _ => next.machine.context == m.context && (next.machine.at matches
                    AtView::Finished(Err(error)) && error is Lookup),
            }
        }),
{
}

// ── Variables of blocks ──────────────────────────────────────────────────────

/// Each variable of a block gets the text of its value, one after another, and
/// the body runs with all of them set over those that were set before.
pub proof fn law_a_block_sets_its_variables(
    p: ProgramView,
    run: RunContextView,
    m: MachineView,
    e: EventView,
    node: usize,
    index: nat,
    layer: Entries<Seq<char>>,
    outputs: Seq<Seq<char>>,
    pairs: Seq<crate::ir::EnvPairView>,
)
    requires
        machine_ok(p, m),
        answers(m, e),
        m.at == (AtView::Resolve { node, goal: GoalView::Pair { index, layer }, outputs }),
        p.nodes[node as int].kind == NodeKindView::Env(pairs),
        resolved(pairs[index as int].value, m.context.values, outputs, 0) is Text,
        crate::names::ascending(layer),
    ensures
        ({
            let next = stepped(p, run, m, e).machine;
            let text = resolved(
                pairs[index as int].value,
                m.context.values,
                outputs,
                0,
            )->Text_text;
            let key = pairs[index as int].key;
            if index + 1 < pairs.len() {
                next.bodies == m.bodies && next.context.layers == m.context.layers && (
                next.at matches AtView::Resolve {
                    node: at,
                    goal: GoalView::Pair { index: i, layer: grown },
                    outputs: none,
                } && at == node && i == index + 1 && none.len() == 0 && sets(
                    layer,
                    grown,
                    key,
                    text,
                ))
            } else {
                &&& next.context.layers.len() == m.context.layers.len() + 1
                &&& next.context.layers.drop_last() == m.context.layers
                &&& sets(layer, next.context.layers.last(), key, text)
                &&& next.context.cwd == m.context.cwd
                &&& next.bodies.len() == m.bodies.len() + 1
                &&& next.bodies.last().children == p.nodes[node as int].children
                &&& next.bodies.last().next == 0
                &&& next.bodies.last().exit == (ExitView::Env { node })
                &&& next.at == AtView::Next
            }
        }),
{
    let key = pairs[index as int].key;
    let r = resolved(pairs[index as int].value, m.context.values, outputs, 0);
    let text = r->Text_text;
    lemma_sets(layer, key, text);
    let next = stepped(p, run, m, e).machine;
    if index + 1 >= pairs.len() {
        assert(next.context.layers.drop_last() =~= m.context.layers);
    }
}

/// Whether a layer is another with one variable set in it.
pub open spec fn sets(
    before: Entries<Seq<char>>,
    after: Entries<Seq<char>>,
    key: Seq<char>,
    text: Seq<char>,
) -> bool {
    &&& lookup(after, key) == Some(text)
    &&& forall|other: Seq<char>|
        other != key ==> (#[trigger] lookup(after, other)) == lookup(before, other)
}

proof fn lemma_sets(layer: Entries<Seq<char>>, key: Seq<char>, text: Seq<char>)
    requires
        crate::names::ascending(layer),
    ensures
        sets(layer, insert_entry(layer, key, text), key, text),
{
    let after = insert_entry(layer, key, text);
    law_insert_then_lookup(layer, key, text, key);
    assert forall|other: Seq<char>| other != key implies (#[trigger] lookup(after, other))
        == lookup(layer, other) by {
        law_insert_then_lookup(layer, key, text, other);
    }
}

// ── Switches ─────────────────────────────────────────────────────────────────

/// Whether an arm is for a text: its pattern is the text, or it is the default.
pub open spec fn is_for(kind: NodeKindView, text: Seq<char>) -> bool {
    kind == NodeKindView::Arm(ArmPatternView::Lit(text)) || kind == NodeKindView::Arm(
        ArmPatternView::Default,
    )
}

proof fn lemma_taken(nodes: Seq<NodeView>, arms: Seq<usize>, text: Seq<char>, from: nat)
    ensures
        match taken_arm(nodes, arms, text, from) {
            Some(k) => {
                &&& from <= k < arms.len()
                &&& is_for(nodes[arms[k as int] as int].kind, text)
                &&& forall|i: int|
                    from <= i < k ==> !is_for(nodes[#[trigger] arms[i] as int].kind, text)
            },
            None => forall|i: int|
                from <= i < arms.len() ==> !is_for(nodes[#[trigger] arms[i] as int].kind, text),
        },
    decreases arms.len() - from,
{
    if from < arms.len() {
        lemma_taken(nodes, arms, text, from + 1);
    }
}

/// Whether updates say of a node that it was skipped.
pub open spec fn says(updates: Seq<UpdateView>, id: usize, status: TaskStatus) -> bool {
    updates.contains(UpdateView::Status(id, status))
}

proof fn lemma_skips(p: ProgramView, arms: Seq<usize>, taken: Option<nat>, n: nat, i: int, k: int)
    requires
        0 <= i < n <= arms.len(),
        taken != Some(i as nat),
        0 <= k < p.subtree(seq![arms[i]]).len(),
    ensures
        says(
            others_skipped(p, arms, taken, n),
            p.subtree(seq![arms[i]])[k],
            TaskStatus::Skipped,
        ),
    decreases n,
{
    let u = UpdateView::Status(p.subtree(seq![arms[i]])[k], TaskStatus::Skipped);
    let before = others_skipped(p, arms, taken, (n - 1) as nat);
    let all = others_skipped(p, arms, taken, n);
    if i < n - 1 {
        lemma_skips(p, arms, taken, (n - 1) as nat, i, k);
        let j = choose|j: int| 0 <= j < before.len() && before[j] == u;
        assert(all[j] == u);
    } else {
        let m = marked(p, seq![arms[i]], TaskStatus::Skipped);
        assert(all == before + m);
        assert(m[k] == u);
        assert(all[before.len() + k] == u);
    }
}

/// Of a switch the first arm that is for the text of its subject is executed,
/// and every other arm is skipped with all that is under it. Where no arm is for
/// the text, the switch succeeds.
#[verifier::rlimit(40)]
pub proof fn law_a_switch_runs_the_first_arm_for_its_subject(
    p: ProgramView,
    run: RunContextView,
    m: MachineView,
    e: EventView,
    node: usize,
    goal: GoalView,
    outputs: Seq<Seq<char>>,
    subject: TemplateView,
    k: int,
)
    requires
        machine_ok(p, m),
        answers(m, e),
        m.at == (AtView::Resolve { node, goal, outputs }),
        p.nodes[node as int].kind == NodeKindView::Switch(subject),
        resolved(subject, m.context.values, outputs, 0) is Text,
        0 <= k < p.nodes[node as int].children.len(),
    ensures
        ({
            let next = stepped(p, run, m, e);
            let text = resolved(subject, m.context.values, outputs, 0)->Text_text;
            let arms = p.nodes[node as int].children;
            let first = is_for(p.nodes[arms[k] as int].kind, text) && forall|i: int|
                0 <= i < k ==> !is_for(p.nodes[#[trigger] arms[i] as int].kind, text);
            &&& first ==> {
                &&& next.machine.bodies.len() == m.bodies.len() + 1
                &&& next.machine.bodies.last().children == p.nodes[arms[k] as int].children
                &&& next.machine.bodies.last().next == 0
                &&& next.machine.bodies.last().exit == (ExitView::Arm {
                    arm: arms[k],
                    switch: Some(node),
                })
                &&& next.machine.at == AtView::Next
                &&& next.updates.last() == UpdateView::Status(arms[k], TaskStatus::Running)
            }
            &&& !first ==> forall|j: int|
                0 <= j < p.subtree(seq![arms[k]]).len() ==> says(
                    next.updates,
                    #[trigger] p.subtree(seq![arms[k]])[j],
                    TaskStatus::Skipped,
                )
            &&& (forall|i: int|
                0 <= i < arms.len() ==> !is_for(p.nodes[#[trigger] arms[i] as int].kind, text))
                ==> next.machine.at == AtView::Finished(Ok(())) && next.machine.bodies == m.bodies
        }),
{
    let next = stepped(p, run, m, e);
    let text = resolved(subject, m.context.values, outputs, 0)->Text_text;
    let arms = p.nodes[node as int].children;
    lemma_taken(p.nodes, arms, text, 0);
    let taken = taken_arm(p.nodes, arms, text, 0);
    let first = is_for(p.nodes[arms[k] as int].kind, text) && forall|i: int|
        0 <= i < k ==> !is_for(p.nodes[#[trigger] arms[i] as int].kind, text);
    let skipped = others_skipped(p, arms, taken, arms.len());
    if first {
        assert(taken is Some);
        let t = taken->0;
        if t < k {
            assert(!is_for(p.nodes[arms[t as int] as int].kind, text));
        }
        if k < t {
            assert(!is_for(p.nodes[arms[k] as int].kind, text));
        }
        assert(t == k);
    } else {
        assert(taken != Some(k as nat));
        assert forall|j: int| 0 <= j < p.subtree(seq![arms[k]]).len() implies says(
            next.updates,
            #[trigger] p.subtree(seq![arms[k]])[j],
            TaskStatus::Skipped,
        ) by {
            lemma_skips(p, arms, taken, arms.len(), k, j);
            let u = UpdateView::Status(p.subtree(seq![arms[k]])[j], TaskStatus::Skipped);
            let x = choose|x: int| 0 <= x < skipped.len() && skipped[x] == u;
            assert(next.updates[x] == u);
        }
    }
}

// ── Outputs of commands in templates ─────────────────────────────────────────

/// Whether a text is another without the line breaks at its end.
pub open spec fn is_without_newlines(s: Seq<char>, text: Seq<char>) -> bool {
    &&& s.len() <= text.len()
    &&& text.take(s.len() as int) == s
    &&& s.len() > 0 ==> s.last() != '\n'
    &&& forall|i: int| s.len() <= i < text.len() ==> #[trigger] text[i] == '\n'
}

proof fn lemma_without_newlines(text: Seq<char>)
    ensures
        is_without_newlines(crate::exec::machine::without_newlines(text), text),
    decreases text.len(),
{
    if text.len() > 0 && text.last() == '\n' {
        let init = text.drop_last();
        lemma_without_newlines(init);
        let s = crate::exec::machine::without_newlines(text);
        assert(text.take(s.len() as int) =~= init.take(s.len() as int));
        assert forall|i: int| s.len() <= i < text.len() implies #[trigger] text[i] == '\n' by {
            if i < text.len() - 1 {
                assert(init[i] == text[i]);
            }
        }
    } else {
        assert(text.take(text.len() as int) =~= text);
    }
}

/// What a command in a template wrote stands in the template without the line
/// breaks at its end; of a command that ran for too long nothing stands there;
/// and one that could not be run fails the statement.
pub proof fn law_output_stands_in_the_template(
    p: ProgramView,
    run: RunContextView,
    m: MachineView,
    node: usize,
    goal: GoalView,
    outputs: Seq<Seq<char>>,
    cmd: Seq<char>,
    captured: Result<Seq<char>, SubprocessErrorView>,
)
    requires
        machine_ok(p, m),
        m.at == (AtView::Capture { node, goal, outputs, cmd }),
    ensures
        ({
            let next = stepped(p, run, m, EventView::Captured(captured)).machine;
            &&& next.bodies == m.bodies
            &&& match captured {
                Ok(text) => next.context == m.context && (next.at matches AtView::Resolve {
                    node: at,
                    goal: for_goal,
                    outputs: all,
                } && at == node && for_goal == goal && all.len() == outputs.len() + 1
                    && all.drop_last() == outputs && is_without_newlines(all.last(), text)),
                Err(SubprocessErrorView::Timeout { .. }) => next.context == m.context && (
                next.at matches AtView::Resolve { node: at, goal: for_goal, outputs: all } && at
                    == node && for_goal == goal && all == outputs.push(Seq::empty())),
                Err(SubprocessErrorView::Spawn(why)) => next.at matches AtView::Finished(
                    Err(error),
                ) && (error matches RuntimeErrorView::Exec { cmd: failed, detail } && failed == cmd
                    && detail == "failed to spawn process: "@ + why),
            }
        }),
{
    match captured {
        Ok(text) => {
            lemma_without_newlines(text);
            let s = crate::exec::machine::without_newlines(text);
            assert(outputs.push(s).drop_last() =~= outputs);
        },
        Err(_) => {},
    }
}

// ── Order ────────────────────────────────────────────────────────────────────

/// The statements of a body are executed in order: before each the run is asked
/// for, each is shown as running, and after the last the body ends.
#[verifier::rlimit(40)]
pub proof fn law_statements_run_in_order(p: ProgramView, run: RunContextView, m: MachineView, e: EventView)
    requires
        machine_ok(p, m),
        answers(m, e),
    ensures
        ({
            let next = stepped(p, run, m, e);
            let top = m.bodies.last();
            &&& m.at is Next && top.next >= top.children.len() ==> next.machine == (MachineView {
                at: AtView::End(Ok(())),
                ..m
            })
            &&& m.at is Next && top.next < top.children.len() ==> next.machine == (MachineView {
                at: AtView::Check,
                ..m
            }) && next.action == ActionView::CheckRun
            &&& m.at is Check && e == EventView::RunFailed(false) ==> next.updates.len() > 0
                && next.updates[0] == UpdateView::Status(
                top.children[top.next as int],
                TaskStatus::Running,
            )
            &&& m.at == AtView::Finished(Ok(())) ==> next.machine.at == AtView::Next
                && next.machine.bodies.len() == m.bodies.len() && next.machine.bodies.last() == (
            BodyView { next: top.next + 1, ..top }) && next.machine.bodies.drop_last()
                == m.bodies.drop_last() && next.machine.context == m.context && next.updates.len()
                == 0
        }),
{
    let next = stepped(p, run, m, e);
    if m.at == AtView::Finished(Ok(())) {
        assert(next.machine.bodies.drop_last() =~= m.bodies.drop_last());
    }
}

/// What the beginning of a statement is, by its kind.
#[verifier::rlimit(40)]
pub proof fn law_a_statement_is_begun(p: ProgramView, run: RunContextView, m: MachineView)
    requires
        machine_ok(p, m),
        m.at is Check,
    ensures
        ({
            let next = stepped(p, run, m, EventView::RunFailed(false));
            let node = m.bodies.last().children[m.bodies.last().next as int];
            let children = p.nodes[node as int].children;
            let awaits_text = next.machine == (MachineView {
                at: AtView::Resolve { node, goal: GoalView::Statement, outputs: Seq::empty() },
                ..m
            });
            match p.nodes[node as int].kind {
                NodeKindView::Exec(_) => awaits_text,
                NodeKindView::Cd(_) => awaits_text,
                NodeKindView::Switch(_) => awaits_text,
                NodeKindView::Project(_) => awaits_text,
                NodeKindView::Log(t) => if has_command(t) {
                    awaits_text
                } else {
                    next.machine == (MachineView { at: AtView::Finished(Ok(())), ..m })
                        && next.updates.last() == UpdateView::Status(node, TaskStatus::Success)
                },
                NodeKindView::Env(pairs) => if pairs.len() > 0 {
                    next.machine.bodies == m.bodies && next.machine.context == m.context && (
                    next.machine.at matches AtView::Resolve {
                        node: at,
                        goal: GoalView::Pair { index, layer },
                        outputs,
                    } && at == node && index == 0 && layer.len() == 0 && outputs.len() == 0)
                } else {
                    next.machine.bodies.len() == m.bodies.len() + 1
                        && next.machine.bodies.last().children == children
                },
                NodeKindView::Async => {
                    &&& next.action == (ActionView::Spawn {
                        node,
                        body: MachineView {
                            context: m.context,
                            bodies: seq![
                                BodyView {
                                    children,
                                    next: 0,
                                    started: Seq::empty(),
                                    exit: ExitView::Run,
                                },
                            ],
                            at: AtView::Next,
                        },
                    })
                    &&& next.machine.at == AtView::Finished(Ok(()))
                    &&& next.machine.context == m.context
                    &&& next.machine.bodies.last().started == m.bodies.last().started.push(node)
                    &&& next.machine.bodies.last().children == m.bodies.last().children
                    &&& next.machine.bodies.last().next == m.bodies.last().next
                },
                NodeKindView::Arm(_) => next.machine.bodies.len() == m.bodies.len() + 1
                    && next.machine.bodies.last().children == children,
            }
        }),
{
}

// ── Ends ─────────────────────────────────────────────────────────────────────

/// The status that tells how a statement ended.
pub open spec fn tells(status: TaskStatus, outcome: Outcome) -> bool {
    match outcome {
        Ok(_) => status == TaskStatus::Success,
        Err(RuntimeErrorView::Cancelled(_)) => status == TaskStatus::Cancelled,
        Err(_) => status == TaskStatus::Error,
    }
}

/// A body that has ended waits for those that were started beside it; the
/// statement that it belongs to ends as they do together, and shows it.
#[verifier::rlimit(40)]
pub proof fn law_a_body_ends_with_its_statement(
    p: ProgramView,
    run: RunContextView,
    m: MachineView,
    e: EventView,
    own: Outcome,
)
    requires
        machine_ok(p, m),
        answers(m, e),
        m.at == AtView::End(own) || m.at == AtView::Join(own),
    ensures
        ({
            let next = stepped(p, run, m, e);
            let top = m.bodies.last();
            if m.at is End && top.started.len() > 0 {
                next.action == ActionView::Join(top.started) && next.machine == (MachineView {
                    at: AtView::Join(own),
                    ..m
                })
            } else {
                &&& next.machine.bodies == m.bodies.drop_last()
                &&& match top.exit {
                    ExitView::Run => next.machine.at == AtView::Over && (next.action matches
                        ActionView::Done(r) && (m.at is End ==> r == own) && (own is Err ==> r
                        == own)),
                    _ => next.machine.at matches AtView::Finished(r) && (m.at is End ==> r == own)
                        && (own is Err ==> r == own) && (next.updates.last() matches
                        UpdateView::Status(_, status) && tells(status, r)),
                }
            }
        }),
{
}

/// The bodies that were waited for decide where the body itself succeeded: the
/// first of them that failed says why. Each shows how it ended.
#[verifier::rlimit(40)]
pub proof fn law_the_first_failure_beside_counts(
    p: ProgramView,
    run: RunContextView,
    m: MachineView,
    outcomes: Seq<Outcome>,
    k: int,
)
    requires
        machine_ok(p, m),
        m.at == AtView::Join(Ok(())),
        outcomes.len() == m.bodies.last().started.len(),
        0 <= k < outcomes.len(),
        outcomes[k] is Err,
        forall|i: int| 0 <= i < k ==> (#[trigger] outcomes[i]) is Ok,
    ensures
        ({
            let next = stepped(p, run, m, EventView::Joined(outcomes));
            &&& next.machine.at == AtView::Finished(outcomes[k]) || next.action == ActionView::Done(
                outcomes[k],
            )
            &&& next.updates.len() >= outcomes.len()
            &&& forall|i: int|
                0 <= i < outcomes.len() ==> ((#[trigger] next.updates[i]) matches
                    UpdateView::Status(id, status) && id == m.bodies.last().started[i] && tells(
                    status,
                    outcomes[i],
                ))
        }),
{
    lemma_first_failure(Ok(()), outcomes, k);
    let started = m.bodies.last().started;
    lemma_left_shows(m, joins(started, outcomes), outcomes[k]);
    let next = stepped(p, run, m, EventView::Joined(outcomes));
    assert(next == body_left(m, joins(started, outcomes), outcomes[k]));
    assert forall|i: int| 0 <= i < outcomes.len() implies ((#[trigger] next.updates[i]) matches
        UpdateView::Status(id, status) && id == started[i] && tells(status, outcomes[i])) by {
        assert(next.updates[i] == joins(started, outcomes)[i]);
    }
}

proof fn lemma_left_shows(m: MachineView, updates: Seq<UpdateView>, outcome: Outcome)
    ensures
        ({
            let next = body_left(m, updates, outcome);
            &&& next.machine.at == AtView::Finished(outcome) || next.action == ActionView::Done(
                outcome,
            )
            &&& next.updates.len() >= updates.len()
            &&& forall|i: int|
                0 <= i < updates.len() ==> (#[trigger] next.updates[i]) == updates[i]
        }),
{
}

proof fn lemma_first_failure(own: Outcome, outcomes: Seq<Outcome>, k: int)
    requires
        own is Ok,
        0 <= k < outcomes.len(),
        outcomes[k] is Err,
        forall|i: int| 0 <= i < k ==> (#[trigger] outcomes[i]) is Ok,
    ensures
        joint_outcome(own, outcomes) == outcomes[k],
    decreases outcomes.len(),
{
    if k == 0 {
        reveal_with_fuel(joint_outcome, 2);
    } else {
        assert(outcomes[0] is Ok);
        let rest = outcomes.skip(1);
        assert(rest[k - 1] == outcomes[k]);
        assert forall|i: int| 0 <= i < k - 1 implies (#[trigger] rest[i]) is Ok by {
            assert(rest[i] == outcomes[i + 1]);
        }
        lemma_first_failure(outcomes[0], rest, k - 1);
    }
}

/// A statement that fails shows its error, fails, and takes those after it with
/// it: each of them, and all that is under them, is cancelled. The same befalls
/// what is left of a body when the run has failed elsewhere.
pub proof fn law_what_follows_a_failure_is_cancelled(
    p: ProgramView,
    run: RunContextView,
    m: MachineView,
    e: EventView,
    error: RuntimeErrorView,
    id: usize,
)
    requires
        machine_ok(p, m),
        answers(m, e),
    ensures
        ({
            let next = stepped(p, run, m, e);
            let top = m.bodies.last();
            &&& m.at == AtView::Finished(Err(error)) && p.subtree(
                top.children.skip(top.next as int + 1),
            ).contains(id) ==> says(next.updates, id, TaskStatus::Cancelled)
            &&& m.at is Check && e == EventView::RunFailed(true) && p.subtree(
                top.children.skip(top.next as int),
            ).contains(id) ==> says(next.updates, id, TaskStatus::Cancelled)
        }),
{
    let next = stepped(p, run, m, e);
    let top = m.bodies.last();
    let after = p.subtree(top.children.skip(top.next as int + 1));
    if m.at == AtView::Finished(Err(error)) && after.contains(id) {
        let i = choose|i: int| 0 <= i < after.len() && after[i] == id;
        assert(next.updates[i] == UpdateView::Status(id, TaskStatus::Cancelled));
    }
    let left = p.subtree(top.children.skip(top.next as int));
    if m.at is Check && e == EventView::RunFailed(true) && left.contains(id) {
        let i = choose|i: int| 0 <= i < left.len() && left[i] == id;
        assert(next.updates[i] == UpdateView::Status(id, TaskStatus::Cancelled));
    }
}

/// The value of a statement becomes its label where it was not known before.
pub proof fn law_a_value_becomes_the_label(
    p: ProgramView,
    run: RunContextView,
    m: MachineView,
    e: EventView,
    node: usize,
    goal: GoalView,
    outputs: Seq<Seq<char>>,
    t: TemplateView,
)
    requires
        machine_ok(p, m),
        answers(m, e),
        m.at == (AtView::Resolve { node, goal, outputs }),
        resolved(t, m.context.values, outputs, 0) is Text,
        p.nodes[node as int].kind == NodeKindView::Log(t) || p.nodes[node as int].kind
            == NodeKindView::Exec(t),
    ensures
        ({
            let next = stepped(p, run, m, e);
            let text = resolved(t, m.context.values, outputs, 0)->Text_text;
            match p.nodes[node as int].kind {
                NodeKindView::Log(_) => {
                    &&& next.machine.at == AtView::Finished(Ok(()))
                    &&& next.machine.bodies == m.bodies
                    &&& next.updates == seq![
                        UpdateView::Label(node, "log"@ + ": "@ + text),
                        UpdateView::Status(node, TaskStatus::Success),
                    ]
                },
                _ => next.updates == if has_command(t) {
                    seq![UpdateView::Label(node, "exec"@ + ": "@ + text)]
                } else {
                    Seq::empty()
                },
            }
        }),
{
    let next = stepped(p, run, m, e);
    let text = resolved(t, m.context.values, outputs, 0)->Text_text;
    match p.nodes[node as int].kind {
        NodeKindView::Log(_) => {
            assert(next.updates =~= seq![
                UpdateView::Label(node, "log"@ + ": "@ + text),
                UpdateView::Status(node, TaskStatus::Success),
            ]);
        },
        _ => {},
    }
}

/// A dynamic name of a project becomes the annotation of all that is under it.
#[verifier::rlimit(40)]
pub proof fn law_a_dynamic_project_annotates_its_rows(
    p: ProgramView,
    run: RunContextView,
    m: MachineView,
    e: EventView,
    node: usize,
    goal: GoalView,
    outputs: Seq<Seq<char>>,
    name: TemplateView,
    id: usize,
)
    requires
        machine_ok(p, m),
        answers(m, e),
        m.at == (AtView::Resolve { node, goal, outputs }),
        p.nodes[node as int].kind == NodeKindView::Project(name),
        stepped(p, run, m, e).machine.bodies.len() == m.bodies.len() + 1,
        has_command(name),
        p.subtree(p.nodes[node as int].children).contains(id),
    ensures
        resolved(name, m.context.values, outputs, 0) matches ResolvedView::Text { text, .. }
            && stepped(p, run, m, e).updates.contains(UpdateView::Project(id, text)),
{
    let ids = p.subtree(p.nodes[node as int].children);
    let i = choose|i: int| 0 <= i < ids.len() && ids[i] == id;
    let updates = stepped(p, run, m, e).updates;
    assert(updates[i].node() == id);
}

// ── The display ──────────────────────────────────────────────────────────────

/// An update changes the state of its node in what it says and nothing else.
pub proof fn law_an_update_changes_what_it_says(
    states: Seq<NodeStateView>,
    update: UpdateView,
    id: usize,
)
    requires
        update.node() < states.len(),
        id < states.len(),
    ensures
        ({
            let after = applied(states, seq![update]);
            &&& after.len() == states.len()
            &&& id != update.node() ==> after[id as int] == states[id as int]
            &&& id == update.node() ==> match update {
                UpdateView::Status(_, status) => after[id as int] == (NodeStateView {
                    status,
                    ..states[id as int]
                }),
                UpdateView::Label(_, label) => after[id as int] == (NodeStateView {
                    label: Some(label),
                    ..states[id as int]
                }),
                UpdateView::Project(_, project) => after[id as int] == (NodeStateView {
                    project: Some(project),
                    ..states[id as int]
                }),
                UpdateView::Output(_, line) => after[id as int] == (NodeStateView {
                    output: states[id as int].output.push(line),
                    ..states[id as int]
                }),
            }
        }),
{
    assert(seq![update].drop_last() =~= Seq::<UpdateView>::empty());
    reveal_with_fuel(applied, 2);
}

/// Updates are carried out one after another.
pub proof fn law_updates_are_carried_out_in_order(
    states: Seq<NodeStateView>,
    a: Seq<UpdateView>,
    b: Seq<UpdateView>,
)
    ensures
        applied(states, a + b) == applied(applied(states, a), b),
    decreases b.len(),
{
    if b.len() == 0 {
        assert(a + b =~= a);
    } else {
        assert((a + b).drop_last() =~= a + b.drop_last());
        law_updates_are_carried_out_in_order(states, a, b.drop_last());
    }
}

} // verus!
