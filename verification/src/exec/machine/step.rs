//! The steps of an execution.
use vstd::prelude::*;
use vstd::slice::slice_subrange;
use crate::exec::context::{layer_view, layer_views, ContextView, ExecContext, RunContext};
use crate::exec::direnv::{allow_command, allow_outcome};
use crate::exec::error::{failure_status_or_success, outcome_view, Outcome, RuntimeError};
use crate::exec::machine::{
    annotated, answers, approval_known, arm_matches, block_entered, body_left, body_views, body_ok,
    child_begun, child_ended, child_failed, child_left, context_failure, dir_known, first_row,
    goal_ok, has_child, law_steps_stay_sound, lemma_nodes, joined_views, joins, joint_outcome,
    labelled, live_ended, live_outcome, machine_ok, marked, others_cancelled, others_skipped,
    output_known, project_entered, project_failed, project_named, quietly, resolving, statuses,
    stepped, switched, taken_arm, template_for, text_failed, text_known, unknown_project,
    update_views, updates_within, without_last, without_newlines, Action, ActionView, At, AtView,
    Body, BodyView, DirChange, Event, Exit, Goal, GoalView, Joined, Machine, MachineView, Move,
    Update, UpdateView,
};
use crate::exec::model::{line_views, TaskStatus};
use crate::exec::resolve::{resolve, Resolved, Values};
use crate::exec::subprocess::{
    describe_exit_failure, exit_view, SubprocessError, SubprocessExit, SubprocessLine,
};
use crate::ir::program::{within, NodeKind, Program};
use crate::ir::Template;
use crate::names::{lemma_map_insert, lemma_map_lookup, NameMap};
use crate::plan::ArmPattern;
use crate::text::{chars_of, same, text_of};

verus! {

broadcast use vstd::string::group_string_axioms;

// ── Updates ──────────────────────────────────────────────────────────────────

proof fn lemma_push_update(s: Seq<Update>, u: Update)
    ensures
        update_views(s.push(u)) == update_views(s).push(u@),
{
    assert(update_views(s.push(u)) =~= update_views(s).push(u@));
}

fn push(updates: &mut Vec<Update>, update: Update)
    ensures
        update_views(final(updates)@) == update_views(old(updates)@).push(update@),
{
    proof {
        lemma_push_update(updates@, update);
    }
    updates.push(update);
}

fn none() -> (r: Vec<Update>)
    ensures
        update_views(r@) == Seq::<UpdateView>::empty(),
{
    let r: Vec<Update> = Vec::new();
    assert(update_views(r@) =~= Seq::<UpdateView>::empty());
    r
}

fn push_statuses(updates: &mut Vec<Update>, ids: &Vec<usize>, status: TaskStatus)
    ensures
        update_views(final(updates)@) == update_views(old(updates)@) + statuses(ids@, status),
{
    let ghost before = update_views(updates@);
    let mut i: usize = 0;
    assert(before + statuses(ids@.take(0), status) =~= before);
    while i < ids.len()
        invariant
            i <= ids@.len(),
            update_views(updates@) == before + statuses(ids@.take(i as int), status),
        decreases ids@.len() - i,
    {
        push(updates, Update::Status(ids[i], status));
        assert(update_views(updates@) =~= before + statuses(ids@.take(i + 1), status));
        i += 1;
    }
    assert(ids@.take(i as int) =~= ids@);
}

/// Give nodes, and what is under them, a status.
fn mark_subtree(updates: &mut Vec<Update>, program: &Program, roots: &[usize], status: TaskStatus)
    requires
        program@.closed(),
        within(roots@, program@.nodes.len()),
    ensures
        update_views(final(updates)@) == update_views(old(updates)@) + marked(
            program@,
            roots@,
            status,
        ),
{
    let ids = program.visit_subtree(roots);
    push_statuses(updates, &ids, status);
}

fn push_annotations(updates: &mut Vec<Update>, ids: &Vec<usize>, name: &str)
    ensures
        update_views(final(updates)@) == update_views(old(updates)@) + annotated(ids@, name@),
{
    let ghost before = update_views(updates@);
    let mut i: usize = 0;
    assert(before + annotated(ids@.take(0), name@) =~= before);
    while i < ids.len()
        invariant
            i <= ids@.len(),
            update_views(updates@) == before + annotated(ids@.take(i as int), name@),
        decreases ids@.len() - i,
    {
        push(updates, Update::Project(ids[i], name.to_owned()));
        assert(update_views(updates@) =~= before + annotated(ids@.take(i + 1), name@));
        i += 1;
    }
    assert(ids@.take(i as int) =~= ids@);
}

fn label_updates(kind: &NodeKind, node: usize, text: &str) -> (r: Vec<Update>)
    ensures
        update_views(r@) == labelled(kind@, node, text@),
{
    let mut updates = none();
    match kind.resolved_label(text) {
        Some(label) => {
            push(&mut updates, Update::Label(node, label));
        },
        None => {},
    }
    assert(update_views(updates@) =~= labelled(kind@, node, text@));
    updates
}

fn find_first_row(program: &Program, ids: &Vec<usize>) -> (r: Option<usize>)
    requires
        within(ids@, program@.nodes.len()),
    ensures
        r == first_row(program@.nodes, ids@),
{
    let mut i: usize = 0;
    assert(ids@.skip(0) =~= ids@);
    while i < ids.len()
        invariant
            i <= ids@.len(),
            within(ids@, program@.nodes.len()),
            first_row(program@.nodes, ids@) == first_row(program@.nodes, ids@.skip(i as int)),
        decreases ids@.len() - i,
    {
        proof {
            assert(ids@.skip(i as int)[0] == ids@[i as int]);
            assert(ids@.skip(i as int).skip(1) =~= ids@.skip(i + 1));
        }
        if program.node(ids[i]).kind.row_label().is_some() {
            return Some(ids[i]);
        }
        i += 1;
    }
    None
}

fn push_others_cancelled(updates: &mut Vec<Update>, ids: &Vec<usize>, one: usize)
    ensures
        update_views(final(updates)@) == update_views(old(updates)@) + others_cancelled(ids@, one),
{
    let ghost before = update_views(updates@);
    let mut i: usize = 0;
    proof {
        assert(ids@.take(0) =~= Seq::<usize>::empty());
        assert(before + Seq::<UpdateView>::empty() =~= before);
    }
    while i < ids.len()
        invariant
            i <= ids@.len(),
            update_views(updates@) == before + others_cancelled(ids@.take(i as int), one),
        decreases ids@.len() - i,
    {
        proof {
            let next = ids@.take(i + 1);
            assert(next.drop_last() =~= ids@.take(i as int));
            assert(next.last() == ids@[i as int]);
        }
        if ids[i] != one {
            push(updates, Update::Status(ids[i], TaskStatus::Cancelled));
        }
        assert(update_views(updates@) =~= before + others_cancelled(ids@.take(i + 1), one));
        i += 1;
    }
    assert(ids@.take(i as int) =~= ids@);
}

/// Show at the first row under a project why it could not be entered.
fn report_context_failure(program: &Program, roots: &[usize], error: &RuntimeError) -> (r: Vec<
    Update,
>)
    requires
        program@.closed(),
        within(roots@, program@.nodes.len()),
    ensures
        update_views(r@) == context_failure(program@, roots@, error@),
{
    let ids = program.visit_subtree(roots);
    let mut updates = none();
    match find_first_row(program, &ids) {
        None => {},
        Some(first) => {
            push(&mut updates, Update::Status(first, TaskStatus::Error));
            push(&mut updates, Update::Output(first, error.line()));
            assert(update_views(updates@) =~= seq![
                UpdateView::Status(first, TaskStatus::Error),
                UpdateView::Output(first, error@.line()),
            ]);
            push_others_cancelled(&mut updates, &ids, first);
        },
    }
    assert(update_views(updates@) =~= context_failure(program@, roots@, error@));
    updates
}

// ── Ends of children ─────────────────────────────────────────────────────────

/// An outcome, to be reported and to be passed on.
fn copy_outcome(r: &Result<(), RuntimeError>) -> (c: Result<(), RuntimeError>)
    ensures
        outcome_view(c) == outcome_view(*r),
{
    match r {
        Ok(_) => Ok(()),
        Err(e) => Err(e.duplicate()),
    }
}

impl Machine {
    /// The execution of a body in a context.
    pub fn start(context: ExecContext, children: Vec<usize>) -> (r: Self)
        ensures
            r@ == MachineView::start(context@, children@),
    {
        let started: Vec<usize> = Vec::new();
        let body = Body { children, next: 0, started, exit: Exit::Run };
        let bodies = vec![body];
        assert(body@.started =~= Seq::<usize>::empty());
        assert(body_views(bodies@) =~= seq![body@]);
        Machine { context, bodies, at: At::Next }
    }

    fn quiet(self) -> (r: Move)
        ensures
            r@ == quietly(self@),
    {
        Move { machine: self, updates: none(), action: Action::Continue }
    }

    fn goes(self, at: At) -> (r: Machine)
        ensures
            r@ == self@.goes(at@),
    {
        Machine { context: self.context, bodies: self.bodies, at }
    }

    fn enters(self, children: Vec<usize>, exit: Exit) -> (r: Machine)
        ensures
            r@ == self@.enters(children@, exit@),
    {
        let mut bodies = self.bodies;
        let ghost before = bodies@;
        let started: Vec<usize> = Vec::new();
        let body = Body { children, next: 0, started, exit };
        proof {
            assert(body@.started =~= Seq::<usize>::empty());
            assert(body_views(before.push(body)) =~= body_views(before).push(body@));
        }
        bodies.push(body);
        Machine { context: self.context, bodies, at: At::Next }
    }

    /// A child has ended.
    fn finish(self, node: usize, updates: Vec<Update>, result: Result<(), RuntimeError>) -> (r: Move)
        ensures
            r@ == child_ended(self@, node, update_views(updates@), outcome_view(result)),
    {
        let mut updates = updates;
        push(&mut updates, Update::Status(node, failure_status_or_success(&result)));
        Move { machine: self.goes(At::Finished(result)), updates, action: Action::Continue }
    }

    /// A child has failed, and shows why.
    fn fail(self, node: usize, error: RuntimeError) -> (r: Move)
        ensures
            r@ == child_failed(self@, node, error@),
    {
        let mut updates = none();
        push(&mut updates, Update::Output(node, error.line()));
        assert(update_views(updates@) =~= seq![UpdateView::Output(node, error@.line())]);
        self.finish(node, updates, Err(error))
    }

    // ── Projects ─────────────────────────────────────────────────────────────

    fn fail_project(self, program: &Program, node: usize, error: RuntimeError) -> (r: Move)
        requires
            program@.closed(),
            node < program@.nodes.len(),
            within(program@.nodes[node as int].children, program@.nodes.len()),
        ensures
            r@ == project_failed(program@, self@, node, error@),
    {
        let mut updates = report_context_failure(
            program,
            program.node(node).children.as_slice(),
            &error,
        );
        push(&mut updates, Update::Status(node, TaskStatus::Error));
        Move { machine: self.goes(At::Finished(Err(error))), updates, action: Action::Continue }
    }

    fn enter_project(self, program: &Program, node: usize, name: &str, dir: String, direnv: bool) -> (r:
        Move)
        requires
            program@.closed(),
            node < program@.nodes.len(),
            within(program@.nodes[node as int].children, program@.nodes.len()),
        ensures
            r@ == project_entered(program@, self@, node, name@, dir@, direnv),
    {
        let entry = program.node(node);
        let dynamic = match &entry.kind {
            NodeKind::Project(t) => t.is_dynamic(),
            _ => false,
        };
        let mut updates = none();
        if dynamic {
            let ids = program.visit_subtree(entry.children.as_slice());
            push_annotations(&mut updates, &ids, name);
            assert(update_views(updates@) =~= annotated(ids@, name@));
        }
        let Machine { context, bodies, at } = self;
        let ExecContext { cwd, var_values, env_layers, direnv_wrap } = context;
        let exit = Exit::Project { node, cwd, direnv: direnv_wrap };
        let inner = Machine {
            context: ExecContext { cwd: dir, var_values, env_layers, direnv_wrap: direnv },
            bodies,
            at,
        };
        let children = copy_ids(&entry.children);
        Move { machine: inner.enters(children, exit), updates, action: Action::Continue }
    }

    fn name_project(self, program: &Program, run: &RunContext, node: usize, name: String) -> (r: Move)
        requires
            program@.closed(),
            node < program@.nodes.len(),
            within(program@.nodes[node as int].children, program@.nodes.len()),
        ensures
            r@ == project_named(program@, run@, self@, node, name@),
    {
        if name.as_str().is_empty() {
            return self.fail_project(
                program,
                node,
                RuntimeError::Lookup("project name resolved to empty".to_owned()),
            );
        }
        proof {
            lemma_map_lookup(
                run.projects@,
                crate::exec::context::project_exec_viewer(),
                name@,
            );
        }
        match run.projects.get(name.as_str()) {
            None => self.fail_project(
                program,
                node,
                RuntimeError::Lookup(unknown_project_text(name.as_str())),
            ),
            Some(entry) => {
                if entry.direnv {
                    let command = allow_command(entry.dir.as_str());
                    Move {
                        machine: self.goes(At::Allow { node, name }),
                        updates: none(),
                        action: Action::Allow(command),
                    }
                } else {
                    self.enter_project(program, node, name.as_str(), entry.dir.clone(), false)
                }
            },
        }
    }

    fn approve(
        self,
        program: &Program,
        run: &RunContext,
        node: usize,
        name: String,
        end: Result<SubprocessExit, SubprocessError>,
        lines: &Vec<SubprocessLine>,
    ) -> (r: Move)
        requires
            program@.closed(),
            node < program@.nodes.len(),
            within(program@.nodes[node as int].children, program@.nodes.len()),
        ensures
            r@ == approval_known(
                program@,
                run@,
                self@,
                node,
                name@,
                exit_view(end),
                crate::exec::subprocess::line_views(lines@),
            ),
    {
        proof {
            lemma_map_lookup(
                run.projects@,
                crate::exec::context::project_exec_viewer(),
                name@,
            );
        }
        match run.projects.get(name.as_str()) {
            None => self.fail_project(
                program,
                node,
                RuntimeError::Lookup(unknown_project_text(name.as_str())),
            ),
            Some(entry) => {
                let invocation = allow_command(entry.dir.as_str()).desc;
                match allow_outcome(invocation.as_str(), end, lines, run.secs()) {
                    Ok(_) => self.enter_project(
                        program,
                        node,
                        name.as_str(),
                        entry.dir.clone(),
                        entry.direnv,
                    ),
                    Err(e) => self.fail_project(program, node, e),
                }
            },
        }
    }
}

fn unknown_project_text(name: &str) -> (r: String)
    ensures
        r@ == unknown_project(name@),
{
    let mut out = "unknown project: `".to_owned();
    out.push_str(name);
    out.push_str("` (no [project.");
    out.push_str(name);
    out.push_str("] entry in kiru.toml)");
    out
}

fn copy_ids(ids: &Vec<usize>) -> (r: Vec<usize>)
    ensures
        r@ == ids@,
{
    let mut out: Vec<usize> = Vec::new();
    let mut i: usize = 0;
    while i < ids.len()
        invariant
            i <= ids@.len(),
            out@ == ids@.take(i as int),
        decreases ids@.len() - i,
    {
        out.push(ids[i]);
        assert(out@ =~= ids@.take(i + 1));
        i += 1;
    }
    assert(out@ =~= ids@);
    out
}

fn find_arm(program: &Program, arms: &Vec<usize>, text: &str) -> (r: Option<usize>)
    requires
        within(arms@, program@.nodes.len()),
    ensures
        taken_arm(program@.nodes, arms@, text@, 0) == match r {
            Some(i) => Some(i as nat),
            None => None,
        },
        r matches Some(i) ==> i < arms@.len(),
{
    let mut i: usize = 0;
    while i < arms.len()
        invariant
            i <= arms@.len(),
            within(arms@, program@.nodes.len()),
            taken_arm(program@.nodes, arms@, text@, 0) == taken_arm(
                program@.nodes,
                arms@,
                text@,
                i as nat,
            ),
        decreases arms@.len() - i,
    {
        assert(arms@[i as int] < program@.nodes.len());
        let matched = match &program.node(arms[i]).kind {
            NodeKind::Arm(ArmPattern::Lit(pattern)) => same(pattern.as_str(), text),
            NodeKind::Arm(ArmPattern::Default) => true,
            _ => false,
        };
        assert(matched == arm_matches(program@.nodes[arms@[i as int] as int].kind, text@));
        if matched {
            return Some(i);
        }
        i += 1;
    }
    None
}

fn skip_others(program: &Program, arms: &Vec<usize>, taken: Option<usize>) -> (r: Vec<Update>)
    requires
        program@.closed(),
        within(arms@, program@.nodes.len()),
    ensures
        update_views(r@) == others_skipped(
            program@,
            arms@,
            match taken {
                Some(i) => Some(i as nat),
                None => None,
            },
            arms@.len(),
        ),
{
    let ghost chosen = match taken {
        Some(i) => Some(i as nat),
        None => None,
    };
    let mut updates = none();
    let mut i: usize = 0;
    while i < arms.len()
        invariant
            i <= arms@.len(),
            program@.closed(),
            within(arms@, program@.nodes.len()),
            chosen == match taken {
                Some(i) => Some(i as nat),
                None => None,
            },
            update_views(updates@) == others_skipped(program@, arms@, chosen, i as nat),
        decreases arms@.len() - i,
    {
        let is_taken = match taken {
            Some(t) => t == i,
            None => false,
        };
        if !is_taken {
            let arm = vec![arms[i]];
            assert(arm@ =~= seq![arms@[i as int]]);
            mark_subtree(&mut updates, program, arm.as_slice(), TaskStatus::Skipped);
        }
        i += 1;
    }
    updates
}

fn trim_newlines(text: &str) -> (r: String)
    ensures
        r@ == without_newlines(text@),
{
    let chars = chars_of(text);
    let mut n: usize = chars.len();
    assert(chars@.take(n as int) =~= chars@);
    while n > 0 && chars[n - 1] == '\n'
        invariant
            n <= chars@.len(),
            chars@ == text@,
            without_newlines(chars@.take(n as int)) == without_newlines(text@),
        decreases n,
    {
        assert(chars@.take(n as int).drop_last() =~= chars@.take(n - 1));
        n -= 1;
    }
    let r = text_of(&chars, 0, n);
    assert(r@ =~= chars@.take(n as int));
    r
}

impl Machine {
    // ── Statements ───────────────────────────────────────────────────────────

    fn take_arm(self, program: &Program, node: usize, text: &str) -> (r: Move)
        requires
            program@.closed(),
            node < program@.nodes.len(),
            within(program@.nodes[node as int].children, program@.nodes.len()),
        ensures
            r@ == switched(program@, self@, node, text@),
    {
        let arms = &program.node(node).children;
        let taken = find_arm(program, arms, text);
        let mut updates = skip_others(program, arms, taken);
        match taken {
            None => self.finish(node, updates, Ok(())),
            Some(i) => {
                let arm: usize = arms[i];
                assert(arms@[i as int] < program@.nodes.len());
                push(&mut updates, Update::Status(arm, TaskStatus::Running));
                let children = copy_ids(&program.node(arm).children);
                Move {
                    machine: self.enters(children, Exit::Arm { arm, switch: Some(node) }),
                    updates,
                    action: Action::Continue,
                }
            },
        }
    }

    fn enter_block(self, program: &Program, node: usize, layer: NameMap<String>) -> (r: Move)
        requires
            node < program@.nodes.len(),
        ensures
            r@ == block_entered(program@, self@, node, layer_view(layer)),
    {
        let children = copy_ids(&program.node(node).children);
        let Machine { context, bodies, at } = self;
        let ExecContext { cwd, var_values, env_layers, direnv_wrap } = context;
        let mut env_layers = env_layers;
        let ghost before = env_layers@;
        env_layers.push(layer);
        assert(layer_views(env_layers@) =~= layer_views(before).push(layer_view(layer)));
        let inner = Machine {
            context: ExecContext { cwd, var_values, env_layers, direnv_wrap },
            bodies,
            at,
        };
        inner.enters(children, Exit::Env { node }).quiet()
    }

    fn await_text(self, node: usize, goal: Goal) -> (r: Move)
        ensures
            r@ == quietly(
                self@.goes(AtView::Resolve { node, goal: goal@, outputs: Seq::empty() }),
            ),
    {
        let outputs: Vec<String> = Vec::new();
        assert(line_views(outputs@) =~= Seq::<Seq<char>>::empty());
        self.goes(At::Resolve { node, goal, outputs }).quiet()
    }

    fn spawn(self, program: &Program, node: usize) -> (r: Move)
        requires
            node < program@.nodes.len(),
            program@.nodes[node as int].kind is Async,
            self@.bodies.len() > 0,
        ensures
            r@ == child_begun(program@, self@, node),
    {
        let children = copy_ids(&program.node(node).children);
        let body = Machine::start(self.context.fork(), children);
        let Machine { context, bodies, .. } = self;
        let mut bodies = bodies;
        let ghost before = bodies@;
        let last: usize = bodies.len() - 1;
        bodies[last].started.push(node);
        assert(body_views(bodies@) =~= body_views(before).update(
            last as int,
            BodyView {
                started: before[last as int]@.started.push(node),
                ..before[last as int]@
            },
        ));
        Move {
            machine: Machine { context, bodies, at: At::Finished(Ok(())) },
            updates: none(),
            action: Action::Spawn { node, body },
        }
    }

    fn begin(self, program: &Program, node: usize) -> (r: Move)
        requires
            program@.closed(),
            node < program@.nodes.len(),
            self@.bodies.len() > 0,
        ensures
            r@ == child_begun(program@, self@, node),
    {
        match &program.node(node).kind {
            NodeKind::Log(t) => {
                if t.is_dynamic() {
                    self.await_text(node, Goal::Statement)
                } else {
                    self.finish(node, none(), Ok(()))
                }
            },
            NodeKind::Env(pairs) => {
                let layer: NameMap<String> = NameMap::new();
                assert(layer_view(layer) =~= Seq::<(Seq<char>, Seq<char>)>::empty());
                if pairs.len() == 0 {
                    self.enter_block(program, node, layer)
                } else {
                    self.await_text(node, Goal::Pair { index: 0, layer })
                }
            },
            NodeKind::Async => self.spawn(program, node),
            NodeKind::Arm(_) => {
                let children = copy_ids(&program.node(node).children);
                let mut updates = none();
                push(&mut updates, Update::Status(node, TaskStatus::Running));
                assert(update_views(updates@) =~= seq![
                    UpdateView::Status(node, TaskStatus::Running),
                ]);
                Move {
                    machine: self.enters(children, Exit::Arm { arm: node, switch: None }),
                    updates,
                    action: Action::Continue,
                }
            },
            _ => self.await_text(node, Goal::Statement),
        }
    }

    fn next_pair(
        self,
        program: &Program,
        run: &RunContext,
        node: usize,
        index: usize,
        layer: NameMap<String>,
        text: String,
    ) -> (r: Move)
        requires
            node < program@.nodes.len(),
            program@.nodes[node as int].kind matches crate::ir::program::NodeKindView::Env(pairs)
                && index < pairs.len(),
        ensures
            r@ == text_known(
                program@,
                run@,
                self@,
                node,
                GoalView::Pair { index: index as nat, layer: layer_view(layer) },
                text@,
            ),
    {
        match &program.node(node).kind {
            NodeKind::Env(pairs) => {
                let key = pairs[index].key.clone();
                let total: usize = pairs.len();
                let mut layer = layer;
                proof {
                    lemma_map_insert(layer@, crate::ir::text_viewer(), key@, text);
                }
                layer.insert(key, text);
                if index + 1 < total {
                    self.await_text(node, Goal::Pair { index: index + 1, layer })
                } else {
                    self.enter_block(program, node, layer)
                }
            },
            _ => self.quiet(),
        }
    }

    fn take_text(self, program: &Program, run: &RunContext, node: usize, goal: Goal, text: String) -> (r:
        Move)
        requires
            program@.closed(),
            node < program@.nodes.len(),
            within(program@.nodes[node as int].children, program@.nodes.len()),
            goal_ok(program@.nodes[node as int].kind, goal@),
        ensures
            r@ == text_known(program@, run@, self@, node, goal@, text@),
    {
        let kind = &program.node(node).kind;
        match kind {
            NodeKind::Log(_) => {
                let updates = label_updates(kind, node, text.as_str());
                self.finish(node, updates, Ok(()))
            },
            NodeKind::Exec(t) => {
                let updates = if t.is_dynamic() {
                    label_updates(kind, node, text.as_str())
                } else {
                    none()
                };
                let command = self.context.command(run, text.as_str());
                Move {
                    machine: self.goes(At::Live { node, cmd: text }),
                    updates,
                    action: Action::RunLive { node, command },
                }
            },
            NodeKind::Cd(_) => {
                let from = self.context.cwd.clone();
                let target = text.clone();
                Move {
                    machine: self.goes(At::Dir { node, target: text }),
                    updates: none(),
                    action: Action::ChangeDir { from, target },
                }
            },
            NodeKind::Switch(_) => self.take_arm(program, node, text.as_str()),
            NodeKind::Project(_) => self.name_project(program, run, node, text),
            _ => match goal {
                Goal::Pair { index, layer } => self.next_pair(
                    program,
                    run,
                    node,
                    index,
                    layer,
                    text,
                ),
                Goal::Statement => self.goes(At::Finished(Ok(()))).quiet(),
            },
        }
    }
}

/// The template whose text is needed.
fn template_at<'a>(program: &'a Program, node: usize, goal: &Goal) -> (r: Option<&'a Template>)
    requires
        node < program@.nodes.len(),
        goal_ok(program@.nodes[node as int].kind, goal@),
    ensures
        r matches Some(t) && t@ == template_for(program@.nodes[node as int].kind, goal@),
{
    match &program.nodes[node].kind {
        NodeKind::Log(t) => Some(t),
        NodeKind::Exec(t) => Some(t),
        NodeKind::Cd(t) => Some(t),
        NodeKind::Switch(t) => Some(t),
        NodeKind::Project(t) => Some(t),
        NodeKind::Env(pairs) => match goal {
            Goal::Pair { index, .. } => Some(&pairs[*index].value),
            Goal::Statement => None,
        },
        _ => None,
    }
}

impl Machine {
    fn with_values(self, values: Values) -> (r: Machine)
        ensures
            r@ == (MachineView {
                context: ContextView { values: values@, ..self@.context },
                ..self@
            }),
    {
        let Machine { context, bodies, at } = self;
        let ExecContext { cwd, env_layers, direnv_wrap, .. } = context;
        Machine {
            context: ExecContext { cwd, var_values: values, env_layers, direnv_wrap },
            bodies,
            at,
        }
    }

    fn resolve_text(
        self,
        program: &Program,
        run: &RunContext,
        node: usize,
        goal: Goal,
        outputs: Vec<String>,
    ) -> (r: Move)
        requires
            program@.closed(),
            node < program@.nodes.len(),
            within(program@.nodes[node as int].children, program@.nodes.len()),
            goal_ok(program@.nodes[node as int].kind, goal@),
        ensures
            r@ == resolving(program@, run@, self@, node, goal@, line_views(outputs@)),
    {
        let template = match template_at(program, node, &goal) {
            Some(t) => t,
            None => {
                return self.quiet();
            },
        };
        match resolve(template, self.context.var_values.duplicate(), &outputs, 0) {
            Resolved::Run { cmd, .. } => {
                let command = self.context.command(run, cmd.as_str());
                Move {
                    machine: self.goes(At::Capture { node, goal, outputs, cmd }),
                    updates: none(),
                    action: Action::Capture(command),
                }
            },
            Resolved::Text { text, values, .. } => self.with_values(values).take_text(
                program,
                run,
                node,
                goal,
                text,
            ),
        }
    }

    fn fail_text(self, program: &Program, node: usize, error: RuntimeError) -> (r: Move)
        requires
            program@.closed(),
            node < program@.nodes.len(),
            within(program@.nodes[node as int].children, program@.nodes.len()),
        ensures
            r@ == text_failed(program@, self@, node, error@),
    {
        match &program.node(node).kind {
            NodeKind::Project(_) => self.fail_project(program, node, error),
            _ => self.fail(node, error),
        }
    }

    fn take_output(
        self,
        program: &Program,
        node: usize,
        goal: Goal,
        outputs: Vec<String>,
        cmd: String,
        captured: Result<String, SubprocessError>,
    ) -> (r: Move)
        requires
            program@.closed(),
            node < program@.nodes.len(),
            within(program@.nodes[node as int].children, program@.nodes.len()),
            goal_ok(program@.nodes[node as int].kind, goal@),
        ensures
            r@ == output_known(
                program@,
                self@,
                node,
                goal@,
                line_views(outputs@),
                cmd@,
                match captured {
                    Ok(s) => Ok(s@),
                    Err(e) => Err(e@),
                },
            ),
    {
        let mut outputs = outputs;
        let ghost before = outputs@;
        match captured {
            Ok(text) => {
                let output = trim_newlines(text.as_str());
                assert(line_views(before.push(output)) =~= line_views(before).push(output@));
                outputs.push(output);
                self.goes(At::Resolve { node, goal, outputs }).quiet()
            },
            Err(SubprocessError::Timeout { .. }) => {
                let output = String::new();
                assert(output@ =~= Seq::<char>::empty());
                assert(line_views(before.push(output)) =~= line_views(before).push(output@));
                outputs.push(output);
                self.goes(At::Resolve { node, goal, outputs }).quiet()
            },
            Err(e) => {
                let template = match template_at(program, node, &goal) {
                    Some(t) => t,
                    None => {
                        return self.quiet();
                    },
                };
                let values = match resolve(
                    template,
                    self.context.var_values.duplicate(),
                    &outputs,
                    0,
                ) {
                    Resolved::Run { values, .. } => values,
                    Resolved::Text { values, .. } => values,
                };
                let error = RuntimeError::exec_io_error(cmd.as_str(), e.message().as_str());
                self.with_values(values).fail_text(program, node, error)
            },
        }
    }

    fn end_live(
        self,
        run: &RunContext,
        node: usize,
        cmd: &str,
        end: Result<SubprocessExit, SubprocessError>,
    ) -> (r: Move)
        ensures
            r@ == live_ended(self@, node, live_outcome(run@, cmd@, exit_view(end))),
    {
        match end {
            Ok(exit) => {
                if exit.killed_by_switch {
                    self.fail(
                        node,
                        RuntimeError::Cancelled("stopped because another task failed".to_owned()),
                    )
                } else if exit.status.success() {
                    self.finish(node, none(), Ok(()))
                } else {
                    self.fail(
                        node,
                        RuntimeError::exec_io_error(
                            cmd,
                            describe_exit_failure(&exit.status).as_str(),
                        ),
                    )
                }
            },
            Err(SubprocessError::Timeout { command, .. }) => self.fail(
                node,
                RuntimeError::Timeout { cmd: command, secs: run.secs() },
            ),
            Err(e) => self.fail(node, RuntimeError::exec_io_error(cmd, e.message().as_str())),
        }
    }

    fn change_dir(self, program: &Program, node: usize, target: &str, change: DirChange) -> (r: Move)
        requires
            node < program@.nodes.len(),
        ensures
            r@ == dir_known(program@, self@, node, target@, change@),
    {
        let kind = &program.node(node).kind;
        let dynamic = match kind {
            NodeKind::Cd(t) => t.is_dynamic(),
            _ => false,
        };
        match change {
            DirChange::Found(path) => {
                let updates = if dynamic {
                    label_updates(kind, node, target)
                } else {
                    none()
                };
                let Machine { context, bodies, at } = self;
                let ExecContext { var_values, env_layers, direnv_wrap, .. } = context;
                let moved = Machine {
                    context: ExecContext { cwd: path, var_values, env_layers, direnv_wrap },
                    bodies,
                    at,
                };
                moved.finish(node, updates, Ok(()))
            },
            DirChange::Missing(why) => {
                let mut msg = "cd ".to_owned();
                msg.push_str(target);
                msg.push_str(": ");
                msg.push_str(why.as_str());
                self.fail(node, RuntimeError::Lookup(msg))
            },
            DirChange::NotADirectory => {
                let mut msg = "cd ".to_owned();
                msg.push_str(target);
                msg.push_str(": not a directory");
                self.fail(node, RuntimeError::Lookup(msg))
            },
        }
    }

    // ── Bodies ───────────────────────────────────────────────────────────────

    fn cancel_from(&self, program: &Program, skip: usize) -> (r: Vec<Update>)
        requires
            program@.closed(),
            self@.bodies.len() > 0,
            within(self@.top().children, program@.nodes.len()),
            self@.top().next + skip <= self@.top().children.len(),
        ensures
            update_views(r@) == marked(
                program@,
                self@.top().children.skip(self@.top().next as int + skip),
                TaskStatus::Cancelled,
            ),
    {
        let top = &self.bodies[self.bodies.len() - 1];
        assert(top@ == self@.top());
        let total: usize = top.children.len();
        let from: usize = top.next + skip;
        let rest = slice_subrange(top.children.as_slice(), from, total);
        proof {
            assert(rest@ =~= top.children@.skip(from as int));
            assert forall|i: int| 0 <= i < rest@.len() implies (#[trigger] rest@[i])
                < program@.nodes.len() by {
                assert(rest@[i] == top.children@[i + from]);
            }
        }
        let mut updates = none();
        mark_subtree(&mut updates, program, rest, TaskStatus::Cancelled);
        assert(update_views(updates@) =~= marked(program@, rest@, TaskStatus::Cancelled));
        updates
    }

    fn leave_child(self, program: &Program, result: Result<(), RuntimeError>) -> (r: Move)
        requires
            program@.closed(),
            self@.bodies.len() > 0,
            within(self@.top().children, program@.nodes.len()),
            has_child(self@.top()),
        ensures
            r@ == child_left(program@, self@, outcome_view(result)),
    {
        match result {
            Ok(_) => {
                let Machine { context, bodies, .. } = self;
                let mut bodies = bodies;
                let ghost before = bodies@;
                let last: usize = bodies.len() - 1;
                assert(before[last as int]@ == self@.top());
                let total: usize = bodies[last].children.len();
                let at: usize = bodies[last].next;
                assert(at < total);
                bodies[last].next = at + 1;
                assert(body_views(bodies@) =~= body_views(before).update(
                    last as int,
                    BodyView {
                        next: before[last as int]@.next + 1,
                        ..before[last as int]@
                    },
                ));
                Machine { context, bodies, at: At::Next }.quiet()
            },
            Err(e) => {
                let updates = self.cancel_from(program, 1);
                let action = if e.is_cancelled() {
                    Action::Continue
                } else {
                    Action::FailRun
                };
                Move { machine: self.goes(At::End(Err(e))), updates, action }
            },
        }
    }

    fn leave_body(self, updates: Vec<Update>, result: Result<(), RuntimeError>) -> (r: Move)
        requires
            self@.bodies.len() > 0,
        ensures
            r@ == body_left(self@, update_views(updates@), outcome_view(result)),
    {
        let ghost whole = self@;
        let Machine { context, bodies, at } = self;
        let mut bodies = bodies;
        let ghost before = bodies@;
        let mut updates = updates;
        match bodies.pop() {
            None => {
                assert(false);
                Machine { context, bodies, at }.quiet()
            },
            Some(top) => {
                assert(top@ == whole.top());
                assert(body_views(bodies@) =~= body_views(before).drop_last());
                match top.exit {
                    Exit::Run => Move {
                        machine: Machine { context, bodies, at: At::Over },
                        updates,
                        action: Action::Done(result),
                    },
                    Exit::Env { node } => {
                        let ExecContext { cwd, var_values, env_layers, direnv_wrap } = context;
                        let mut env_layers = env_layers;
                        let ghost layers = env_layers@;
                        env_layers.pop();
                        assert(layer_views(env_layers@) =~= without_last(layer_views(layers)));
                        let context = ExecContext { cwd, var_values, env_layers, direnv_wrap };
                        Machine { context, bodies, at }.finish(node, updates, result)
                    },
                    Exit::Arm { arm, switch } => {
                        let status = failure_status_or_success(&result);
                        push(&mut updates, Update::Status(arm, status));
                        match switch {
                            Some(node) => {
                                push(&mut updates, Update::Status(node, status));
                            },
                            None => {},
                        }
                        Move {
                            machine: Machine { context, bodies, at: At::Finished(result) },
                            updates,
                            action: Action::Continue,
                        }
                    },
                    Exit::Project { node, cwd, direnv } => {
                        let ExecContext { var_values, env_layers, .. } = context;
                        let context = ExecContext {
                            cwd,
                            var_values,
                            env_layers,
                            direnv_wrap: direnv,
                        };
                        Machine { context, bodies, at }.finish(node, updates, result)
                    },
                }
            },
        }
    }
}

/// How a body ended that ran beside another. One that broke off failed.
fn joined_outcome(j: &Joined) -> (r: Result<(), RuntimeError>)
    ensures
        outcome_view(r) == j@,
{
    match j {
        Joined::Ended(r) => copy_outcome(r),
        Joined::Panicked => Err(RuntimeError::exec_io_error("async", "task panicked")),
    }
}

proof fn lemma_joint_error(own: Outcome, outcomes: Seq<Outcome>)
    requires
        own is Err,
    ensures
        joint_outcome(own, outcomes) == own,
{
}

fn join_updates(nodes: &Vec<usize>, outcomes: &Vec<Joined>) -> (r: Vec<Update>)
    requires
        nodes@.len() == outcomes@.len(),
    ensures
        update_views(r@) == joins(nodes@, joined_views(outcomes@)),
{
    let ghost ends = joined_views(outcomes@);
    let mut updates = none();
    let mut i: usize = 0;
    assert(joins(nodes@.take(0), ends) =~= Seq::<UpdateView>::empty());
    while i < nodes.len()
        invariant
            i <= nodes@.len(),
            nodes@.len() == outcomes@.len(),
            ends == joined_views(outcomes@),
            update_views(updates@) == joins(nodes@.take(i as int), ends),
        decreases nodes@.len() - i,
    {
        let status = failure_status_or_success(&joined_outcome(&outcomes[i]));
        push(&mut updates, Update::Status(nodes[i], status));
        assert(update_views(updates@) =~= joins(nodes@.take(i + 1), ends));
        i += 1;
    }
    assert(nodes@.take(i as int) =~= nodes@);
    updates
}

fn join_outcome(own: Result<(), RuntimeError>, outcomes: &Vec<Joined>) -> (r: Result<
    (),
    RuntimeError,
>)
    ensures
        outcome_view(r) == joint_outcome(outcome_view(own), joined_views(outcomes@)),
{
    let ghost ends = joined_views(outcomes@);
    let ghost start = outcome_view(own);
    let mut result = own;
    let mut i: usize = 0;
    assert(ends.skip(0) =~= ends);
    while i < outcomes.len()
        invariant
            i <= outcomes@.len(),
            ends == joined_views(outcomes@),
            start == outcome_view(own),
            joint_outcome(start, ends) == joint_outcome(outcome_view(result), ends.skip(i as int)),
        decreases outcomes@.len() - i,
    {
        if result.is_err() {
            proof {
                lemma_joint_error(outcome_view(result), ends.skip(i as int));
            }
            return result;
        }
        proof {
            assert(ends.skip(i as int)[0] == outcomes@[i as int]@);
            assert(ends.skip(i as int).skip(1) =~= ends.skip(i + 1));
        }
        result = joined_outcome(&outcomes[i]);
        i += 1;
    }
    result
}

impl Machine {
    /// Take in the answer to the last action, and go on to the next.
    pub fn step(self, program: &Program, run: &RunContext, event: Event) -> (r: Move)
        requires
            machine_ok(program@, self@),
            answers(self@, event@),
        ensures
            r@ == stepped(program@, run@, self@, event@),
            machine_ok(program@, r@.machine),
            updates_within(r@.updates, program@.nodes.len()),
            r@.action matches ActionView::Spawn { body, .. } ==> machine_ok(program@, body),
    {
        proof {
            law_steps_stay_sound(program@, run@, self@, event@);
            lemma_nodes(program@, self@);
            if self@.bodies.len() > 0 {
                assert(body_ok(self@.bodies[self@.bodies.len() - 1], program@.nodes.len()));
            }
        }
        let ghost whole = self@;
        let Machine { context, bodies, at } = self;
        match (at, event) {
            (At::Next, _) => {
                let top = &bodies[bodies.len() - 1];
                assert(top@ == whole.top());
                if top.next >= top.children.len() {
                    Machine { context, bodies, at: At::End(Ok(())) }.quiet()
                } else {
                    Move {
                        machine: Machine { context, bodies, at: At::Check },
                        updates: none(),
                        action: Action::CheckRun,
                    }
                }
            },
            (At::Check, Event::RunFailed(failed)) => {
                let machine = Machine { context, bodies, at: At::Check };
                if failed {
                    let updates = machine.cancel_from(program, 0);
                    Move {
                        machine: machine.goes(
                            At::End(
                                Err(
                                    RuntimeError::Cancelled(
                                        "run failed in another task".to_owned(),
                                    ),
                                ),
                            ),
                        ),
                        updates,
                        action: Action::Continue,
                    }
                } else {
                    let top = &machine.bodies[machine.bodies.len() - 1];
                    assert(top@ == whole.top());
                    let node: usize = top.children[top.next];
                    let begun = machine.begin(program, node);
                    let mut updates = none();
                    push(&mut updates, Update::Status(node, TaskStatus::Running));
                    let ghost first = update_views(updates@);
                    let ghost own = update_views(begun.updates@);
                    let mut more = begun.updates;
                    let ghost all_more = more@;
                    let ghost all = updates@;
                    updates.append(&mut more);
                    assert(update_views(all + all_more) =~= first + own);
                    assert(first =~= seq![UpdateView::Status(node, TaskStatus::Running)]);
                    Move { machine: begun.machine, updates, action: begun.action }
                }
            },
            (At::Resolve { node, goal, outputs }, _) => {
                Machine { context, bodies, at: At::Next }.resolve_text(
                    program,
                    run,
                    node,
                    goal,
                    outputs,
                )
            },
            (At::Capture { node, goal, outputs, cmd }, Event::Captured(captured)) => {
                Machine { context, bodies, at: At::Next }.take_output(
                    program,
                    node,
                    goal,
                    outputs,
                    cmd,
                    captured,
                )
            },
            (At::Live { node, cmd }, Event::Exited(end)) => {
                Machine { context, bodies, at: At::Next }.end_live(run, node, cmd.as_str(), end)
            },
            (At::Dir { node, target }, Event::DirChanged(change)) => {
                Machine { context, bodies, at: At::Next }.change_dir(
                    program,
                    node,
                    target.as_str(),
                    change,
                )
            },
            (At::Allow { node, name }, Event::Approved { end, lines }) => {
                Machine { context, bodies, at: At::Next }.approve(
                    program,
                    run,
                    node,
                    name,
                    end,
                    &lines,
                )
            },
            (At::Finished(result), _) => {
                Machine { context, bodies, at: At::Next }.leave_child(program, result)
            },
            (At::End(result), _) => {
                let machine = Machine { context, bodies, at: At::Next };
                let top = &machine.bodies[machine.bodies.len() - 1];
                assert(top@ == whole.top());
                if top.started.len() == 0 {
                    machine.leave_body(none(), result)
                } else {
                    let started = copy_ids(&top.started);
                    Move {
                        machine: machine.goes(At::Join(result)),
                        updates: none(),
                        action: Action::Join(started),
                    }
                }
            },
            (At::Join(result), Event::Joined(outcomes)) => {
                let machine = Machine { context, bodies, at: At::Next };
                let top = &machine.bodies[machine.bodies.len() - 1];
                assert(top@ == whole.top());
                let updates = join_updates(&top.started, &outcomes);
                let result = join_outcome(result, &outcomes);
                machine.leave_body(updates, result)
            },
            (at, _) => Machine { context, bodies, at }.quiet(),
        }
    }
}

} // verus!
