//! What holds of every execution.
use vstd::prelude::*;
use crate::exec::context::{ContextView, RunContextView};
use crate::exec::error::{Outcome, RuntimeErrorView};
use crate::exec::machine::{
    answers, applied, arm_matches, body_left, child_begun, current, exit_node, goal_ok, joins,
    joint_outcome, law_steps_stay_sound, machine_ok, move_ok, nested, project_named, stepped,
    taken_arm, template_for, text_known, updates_within, ActionView, AtView, BodyView, EventView,
    ExitView, GoalView, MachineView, MoveView, UpdateView,
};
use crate::exec::model::{is_terminal, NodeStateView, TaskStatus};
use crate::exec::resolve::{resolved, ResolvedView};
use crate::ir::program::{within, NodeKindView, NodeView, ProgramView};
use crate::names::Entries;

verus! {

broadcast use vstd::string::group_string_axioms;

/// What a step does to the bodies: none is entered or left, and each keeps its
/// exit; or one is entered, with what it will restore; or the last is left, and
/// what it ran in is restored.
pub open spec fn keeps_exits(m: MachineView, next: MachineView) -> bool {
    ||| {
        &&& next.bodies.len() == m.bodies.len()
        &&& forall|i: int|
            0 <= i < m.bodies.len() ==> (#[trigger] next.bodies[i]).exit == m.bodies[i].exit
        &&& next.context.layers == m.context.layers
        &&& next.context.direnv == m.context.direnv
    }
    ||| {
        &&& next.bodies.len() == m.bodies.len() + 1
        &&& next.bodies.drop_last() == m.bodies
        &&& match next.bodies.last().exit {
            ExitView::Project { cwd, direnv, .. } => cwd == m.context.cwd && direnv
                == m.context.direnv && next.context.layers == m.context.layers,
            ExitView::Env { .. } => next.context.layers.len() == m.context.layers.len() + 1
                && next.context.layers.drop_last() == m.context.layers,
            _ => next.context.layers == m.context.layers,
        }
    }
    ||| {
        &&& m.bodies.len() > 0
        &&& next.bodies == m.bodies.drop_last()
        &&& match m.bodies.last().exit {
            ExitView::Project { cwd, direnv, .. } => next.context.cwd == cwd && next.context.direnv
                == direnv && next.context.layers == m.context.layers,
            ExitView::Env { .. } => m.context.layers.len() > 0 ==> next.context.layers
                == m.context.layers.drop_last(),
            _ => next.context == m.context,
        }
    }
}

proof fn lemma_step_keeps_exits(p: ProgramView, run: RunContextView, m: MachineView, e: EventView)
    requires
        machine_ok(p, m),
        answers(m, e),
    ensures
        keeps_exits(m, stepped(p, run, m, e).machine),
{
    let next = stepped(p, run, m, e).machine;
    if next.bodies.len() == m.bodies.len() + 1 {
        assert(next.bodies.drop_last() =~= m.bodies);
        if next.bodies.last().exit is Env {
            assert(next.context.layers.drop_last() =~= m.context.layers);
        }
    }
}

/// A project leaves no trace in the context around it: while its body runs, the
/// directory and the environment from before are kept, and when it has ended
/// they are in force again.
pub proof fn law_a_project_restores_its_context(
    p: ProgramView,
    run: RunContextView,
    m: MachineView,
    e: EventView,
    k: int,
)
    requires
        machine_ok(p, m),
        answers(m, e),
        0 <= k < m.bodies.len(),
        m.bodies[k].exit is Project,
    ensures
        ({
            let next = stepped(p, run, m, e).machine;
            ||| k < next.bodies.len() && next.bodies[k].exit == m.bodies[k].exit
            ||| next.bodies.len() == k && (match m.bodies[k].exit {
                ExitView::Project { cwd, direnv, .. } => next.context.cwd == cwd
                    && next.context.direnv == direnv,
                _ => false,
            })
        }),
{
    lemma_step_keeps_exits(p, run, m, e);
    let next = stepped(p, run, m, e).machine;
    if next.bodies.len() == m.bodies.len() + 1 {
        assert(next.bodies.drop_last()[k] == next.bodies[k]);
    } else if next.bodies.len() != m.bodies.len() && k < next.bodies.len() {
        assert(m.bodies.drop_last()[k] == m.bodies[k]);
    }
}

/// How many of the first `n` bodies are blocks that set variables.
pub open spec fn blocks(bodies: Seq<BodyView>, n: nat) -> nat
    decreases n,
{
    if n == 0 {
        0
    } else {
        blocks(bodies, (n - 1) as nat) + (if bodies[n - 1].exit is Env {
            1nat
        } else {
            0
        })
    }
}

/// Whether the layers are those that were there at the start, and one for each
/// block that is being executed.
pub open spec fn layered(base: Seq<Entries<Seq<char>>>, m: MachineView) -> bool {
    let layers = m.context.layers;
    &&& layers.len() == base.len() + blocks(m.bodies, m.bodies.len())
    &&& layers.take(base.len() as int) == base
}

proof fn lemma_blocks_same(a: Seq<BodyView>, b: Seq<BodyView>, n: nat)
    requires
        n <= a.len(),
        n <= b.len(),
        forall|i: int| 0 <= i < n ==> (#[trigger] a[i]).exit == b[i].exit,
    ensures
        blocks(a, n) == blocks(b, n),
    decreases n,
{
    if n > 0 {
        lemma_blocks_same(a, b, (n - 1) as nat);
        assert(a[n - 1].exit == b[n - 1].exit);
    }
}

/// The variables of a block are set in its body and nowhere else: at every step
/// the layers are those of the start, with one for each block that is being
/// executed. When the execution is over, they are those of the start.
pub proof fn law_variables_stay_in_their_block(
    p: ProgramView,
    run: RunContextView,
    m: MachineView,
    e: EventView,
    base: Seq<Entries<Seq<char>>>,
)
    requires
        machine_ok(p, m),
        answers(m, e),
        layered(base, m),
    ensures
        layered(base, stepped(p, run, m, e).machine),
        stepped(p, run, m, e).machine.bodies.len() == 0 ==> stepped(
            p,
            run,
            m,
            e,
        ).machine.context.layers == base,
{
    lemma_step_keeps_exits(p, run, m, e);
    let next = stepped(p, run, m, e).machine;
    let layers = m.context.layers;
    let n = m.bodies.len();
    if next.bodies.len() == n {
        lemma_blocks_same(next.bodies, m.bodies, n);
    } else if next.bodies.len() == n + 1 {
        assert forall|i: int| 0 <= i < n implies (#[trigger] next.bodies[i]).exit
            == m.bodies[i].exit by {
            assert(next.bodies.drop_last()[i] == next.bodies[i]);
        }
        lemma_blocks_same(next.bodies, m.bodies, n);
        if next.bodies.last().exit is Env {
            assert(next.context.layers.take(base.len() as int)
                =~= next.context.layers.drop_last().take(base.len() as int));
        }
    } else {
        lemma_blocks_same(next.bodies, m.bodies, (n - 1) as nat);
        if m.bodies.last().exit is Env {
            assert(layers.drop_last().take(base.len() as int) =~= layers.take(base.len() as int));
        }
    }
    if next.bodies.len() == 0 {
        assert(next.context.layers.take(base.len() as int) =~= next.context.layers);
    }
}

/// Once the run has failed, no further statement of a body is started.
pub proof fn law_nothing_starts_in_a_failed_run(p: ProgramView, run: RunContextView, m: MachineView)
    requires
        machine_ok(p, m),
        m.at is Check,
    ensures
        ({
            let next = stepped(p, run, m, EventView::RunFailed(true));
            &&& next.action == ActionView::Continue
            &&& next.machine.at matches AtView::End(Err(error)) && error is Cancelled
            &&& next.machine.bodies == m.bodies
        }),
{
}

/// A statement that fails ends its body: none of those after it is started. The
/// run fails with it, unless it was only stopped.
pub proof fn law_a_failure_ends_its_body(
    p: ProgramView,
    run: RunContextView,
    m: MachineView,
    e: EventView,
    error: RuntimeErrorView,
)
    requires
        machine_ok(p, m),
        m.at == AtView::Finished(Err(error)),
    ensures
        ({
            let next = stepped(p, run, m, e);
            &&& next.machine.at == AtView::End(Err(error))
            &&& next.machine.bodies == m.bodies
            &&& next.action is FailRun <==> !(error is Cancelled)
        }),
{
}

/// A body succeeds together with the bodies beside it just where all of them
/// succeed, and its own failure comes before theirs.
pub proof fn law_a_body_answers_for_those_beside_it(own: Outcome, outcomes: Seq<Outcome>)
    ensures
        joint_outcome(own, outcomes) is Ok <==> own is Ok && forall|i: int|
            0 <= i < outcomes.len() ==> (#[trigger] outcomes[i]) is Ok,
        own is Err ==> joint_outcome(own, outcomes) == own,
    decreases outcomes.len(),
{
    if own is Ok && outcomes.len() > 0 {
        let rest = outcomes.skip(1);
        law_a_body_answers_for_those_beside_it(outcomes[0], rest);
        if forall|i: int| 0 <= i < outcomes.len() ==> (#[trigger] outcomes[i]) is Ok {
            assert forall|i: int| 0 <= i < rest.len() implies (#[trigger] rest[i]) is Ok by {
                assert(rest[i] == outcomes[i + 1]);
            }
        }
        if outcomes[0] is Ok && forall|i: int| 0 <= i < rest.len() ==> (#[trigger] rest[i]) is Ok {
            assert forall|i: int| 0 <= i < outcomes.len() implies (#[trigger] outcomes[i]) is Ok by {
                if i > 0 {
                    assert(rest[i - 1] == outcomes[i]);
                }
            }
        }
    }
}

/// The execution of nodes of a program in which every path ends is sound from
/// the start.
pub proof fn law_an_execution_starts_sound(
    p: ProgramView,
    context: ContextView,
    children: Seq<usize>,
)
    requires
        p.closed(),
        within(children, p.nodes.len()),
    ensures
        machine_ok(p, MachineView::start(context, children)),
{
}

/// A body that is executed beside another starts on a copy of the context, and
/// what it does there changes nothing in the context it was started from.
pub proof fn law_a_body_beside_runs_on_a_copy(
    p: ProgramView,
    run: RunContextView,
    m: MachineView,
    e: EventView,
)
    requires
        machine_ok(p, m),
        answers(m, e),
    ensures
        stepped(p, run, m, e).action matches ActionView::Spawn { node, body } ==> {
            &&& body == MachineView::start(m.context, p.nodes[node as int].children)
            &&& stepped(p, run, m, e).machine.context == m.context
        },
{
}

/// Of the arms of a switch the first that matches is taken, and none where none
/// matches.
pub proof fn law_the_first_match_is_taken(nodes: Seq<NodeView>, arms: Seq<usize>, text: Seq<char>)
    ensures
        match taken_arm(nodes, arms, text, 0) {
            Some(k) => {
                &&& k < arms.len()
                &&& arm_matches(nodes[arms[k as int] as int].kind, text)
                &&& forall|i: int|
                    0 <= i < k ==> !arm_matches(nodes[#[trigger] arms[i] as int].kind, text)
            },
            None => forall|i: int|
                0 <= i < arms.len() ==> !arm_matches(nodes[#[trigger] arms[i] as int].kind, text),
        },
{
    lemma_first_match(nodes, arms, text, 0);
}

proof fn lemma_first_match(nodes: Seq<NodeView>, arms: Seq<usize>, text: Seq<char>, from: nat)
    ensures
        match taken_arm(nodes, arms, text, from) {
            Some(k) => {
                &&& from <= k < arms.len()
                &&& arm_matches(nodes[arms[k as int] as int].kind, text)
                &&& forall|i: int|
                    from <= i < k ==> !arm_matches(nodes[#[trigger] arms[i] as int].kind, text)
            },
            None => forall|i: int|
                from <= i < arms.len() ==> !arm_matches(nodes[#[trigger] arms[i] as int].kind, text),
        },
    decreases arms.len() - from,
{
    if from < arms.len() && !arm_matches(nodes[arms[from as int] as int].kind, text) {
        lemma_first_match(nodes, arms, text, from + 1);
    }
}

proof fn lemma_applied_len(states: Seq<NodeStateView>, updates: Seq<UpdateView>)
    requires
        updates_within(updates, states.len()),
    ensures
        applied(states, updates).len() == states.len(),
    decreases updates.len(),
{
    if updates.len() > 0 {
        assert(updates[updates.len() - 1].node() < states.len());
        assert forall|i: int| 0 <= i < updates.drop_last().len() implies (
        #[trigger] updates.drop_last()[i]).node() < states.len() by {
            assert(updates.drop_last()[i] == updates[i]);
        }
        lemma_applied_len(states, updates.drop_last());
    }
}

/// Whether an update gives a node a status that will not change any more.
pub open spec fn settles(update: UpdateView) -> bool {
    update matches UpdateView::Status(_, status) && is_terminal(status)
}

proof fn lemma_settled(states: Seq<NodeStateView>, updates: Seq<UpdateView>, k: int)
    requires
        updates_within(updates, states.len()),
        0 <= k < updates.len(),
        forall|i: int| k <= i < updates.len() ==> settles(#[trigger] updates[i]),
    ensures
        is_terminal(applied(states, updates)[updates[k].node() as int].status),
    decreases updates.len(),
{
    let init = updates.drop_last();
    assert forall|i: int| 0 <= i < init.len() implies (#[trigger] init[i]).node()
        < states.len() by {
        assert(init[i] == updates[i]);
    }
    lemma_applied_len(states, init);
    let before = applied(states, init);
    let last = updates.last();
    assert(last == updates[updates.len() - 1]);
    assert(settles(last));
    assert(updates[k].node() < states.len());
    assert(last.node() < states.len());
    if k < updates.len() - 1 {
        assert forall|i: int| k <= i < init.len() implies settles(#[trigger] init[i]) by {
            assert(init[i] == updates[i]);
        }
        assert(init[k] == updates[k]);
        lemma_settled(states, init, k);
    }
}

/// A statement that has ended shows that it has: when a body goes on from one
/// of its children, the display gives the child a status that is final. Only a
/// body that was started beside it is awaited.
pub proof fn law_a_child_that_ends_is_settled(
    p: ProgramView,
    run: RunContextView,
    m: MachineView,
    e: EventView,
    states: Seq<NodeStateView>,
)
    requires
        machine_ok(p, m),
        answers(m, e),
        states.len() == p.nodes.len(),
    ensures
        ({
            let next = stepped(p, run, m, e);
            next.machine.at is Finished && !(next.action is Spawn) ==> is_terminal(
                applied(states, next.updates)[current(next.machine.top()) as int].status,
            )
        }),
{
    law_steps_stay_sound(p, run, m, e);
    lemma_step_ends_with_status(p, run, m, e);
    lemma_move_settled(p, stepped(p, run, m, e), states);
}

/// Whether a step by which a child ends gives it a final status at last.
pub open spec fn ends_with_status(next: MoveView) -> bool {
    next.machine.at is Finished && !(next.action is Spawn) ==> {
        &&& next.updates.len() > 0
        &&& settles(next.updates.last())
        &&& next.updates.last().node() == current(next.machine.top())
    }
}

proof fn lemma_move_settled(p: ProgramView, next: MoveView, states: Seq<NodeStateView>)
    requires
        move_ok(p, next),
        ends_with_status(next),
        states.len() == p.nodes.len(),
    ensures
        next.machine.at is Finished && !(next.action is Spawn) ==> is_terminal(
            applied(states, next.updates)[current(next.machine.top()) as int].status,
        ),
{
    if next.machine.at is Finished && !(next.action is Spawn) {
        lemma_settled(states, next.updates, next.updates.len() - 1);
    }
}

proof fn lemma_text_ends_with_status(
    p: ProgramView,
    run: RunContextView,
    m: MachineView,
    node: usize,
    goal: GoalView,
    text: Seq<char>,
)
    requires
        node == current(m.top()),
        goal_ok(p.nodes[node as int].kind, goal),
    ensures
        ends_with_status(text_known(p, run, m, node, goal, text)),
{
    match p.nodes[node as int].kind {
        NodeKindView::Project(_) => {
            lemma_project_ends_with_status(p, run, m, node, text);
        },
        NodeKindView::Switch(_) => {},
        _ => {},
    }
}

proof fn lemma_project_ends_with_status(
    p: ProgramView,
    run: RunContextView,
    m: MachineView,
    node: usize,
    name: Seq<char>,
)
    requires
        node == current(m.top()),
    ensures
        ends_with_status(project_named(p, run, m, node, name)),
{
}

proof fn lemma_left_ends_with_status(m: MachineView, updates: Seq<UpdateView>, outcome: Outcome)
    requires
        m.bodies.len() > 0,
        nested(m.bodies),
        m.top().exit is Run || m.bodies.len() > 1,
    ensures
        ends_with_status(body_left(m, updates, outcome)),
{
    let n = m.bodies.len();
    if n > 1 {
        assert(exit_node(m.bodies[n - 1].exit) == Some(current(m.bodies[n - 2])));
        assert(m.bodies.drop_last().last() == m.bodies[n - 2]);
    }
}

proof fn lemma_step_ends_with_status(
    p: ProgramView,
    run: RunContextView,
    m: MachineView,
    e: EventView,
)
    requires
        machine_ok(p, m),
        answers(m, e),
    ensures
        ends_with_status(stepped(p, run, m, e)),
{
    let n = m.bodies.len();
    assert(m.bodies[n - 1].exit is Run <==> n == 1);
    match (m.at, e) {
        (AtView::Check, EventView::RunFailed(failed)) => {
            if !failed {
                let node = current(m.top());
                let begun = child_begun(p, m, node);
                let running = UpdateView::Status(node, TaskStatus::Running);
                if begun.updates.len() > 0 {
                    assert((seq![running] + begun.updates).last() == begun.updates.last());
                }
                assert(ends_with_status(begun));
            }
        },
        (AtView::Resolve { node, goal, outputs }, _) => {
            let template = template_for(p.nodes[node as int].kind, goal);
            match resolved(template, m.context.values, outputs, 0) {
                ResolvedView::Run { .. } => {},
                ResolvedView::Text { text, values, .. } => {
                    let inner = MachineView {
                        context: ContextView { values, ..m.context },
                        ..m
                    };
                    lemma_text_ends_with_status(p, run, inner, node, goal, text);
                },
            }
        },
        (AtView::End(outcome), _) => {
            lemma_left_ends_with_status(m, Seq::empty(), outcome);
        },
        (AtView::Join(outcome), EventView::Joined(outcomes)) => {
            lemma_left_ends_with_status(
                m,
                joins(m.top().started, outcomes),
                joint_outcome(outcome, outcomes),
            );
        },
        _ => {},
    }
}

/// The bodies that were started beside a body are settled when they have been
/// waited for.
pub proof fn law_what_was_awaited_is_settled(
    p: ProgramView,
    run: RunContextView,
    m: MachineView,
    e: EventView,
    states: Seq<NodeStateView>,
    k: int,
)
    requires
        machine_ok(p, m),
        answers(m, e),
        m.at is Join,
        states.len() == p.nodes.len(),
        0 <= k < m.top().started.len(),
    ensures
        is_terminal(
            applied(states, stepped(p, run, m, e).updates)[m.top().started[k] as int].status,
        ),
{
    law_steps_stay_sound(p, run, m, e);
    let outcomes = e->Joined_0;
    let outcome = m.at->Join_0;
    lemma_awaited_settled(p, m, outcomes, joint_outcome(outcome, outcomes), states, k);
}

proof fn lemma_awaited_settled(
    p: ProgramView,
    m: MachineView,
    outcomes: Seq<Outcome>,
    outcome: Outcome,
    states: Seq<NodeStateView>,
    k: int,
)
    requires
        move_ok(p, body_left(m, joins(m.top().started, outcomes), outcome)),
        states.len() == p.nodes.len(),
        0 <= k < m.top().started.len(),
    ensures
        is_terminal(
            applied(
                states,
                body_left(m, joins(m.top().started, outcomes), outcome).updates,
            )[m.top().started[k] as int].status,
        ),
{
    let first = joins(m.top().started, outcomes);
    let updates = body_left(m, first, outcome).updates;
    assert(updates[k] == first[k]);
    assert forall|i: int| k <= i < updates.len() implies settles(#[trigger] updates[i]) by {
        if i < first.len() {
            assert(updates[i] == first[i]);
        }
    }
    lemma_settled(states, updates, k);
}

} // verus!
