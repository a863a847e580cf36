//! The execution of a body, one step at a time.
//!
//! The machine decides what is run, in what order and in which context, and
//! what the display is told. It asks its driver for what lies outside: commands,
//! directories and the bodies that run beside it. The driver carries out the
//! updates and the action of a step, and hands the answer to the next step.
use vstd::prelude::*;
use crate::exec::context::{
    layer_view, CommandView, Command, ContextView, ExecContext, RunContextView,
};
use crate::exec::direnv::{allowed, allowing, invocation_of};
use crate::exec::error::{ended, outcome_view, Outcome, RuntimeError, RuntimeErrorView};
use crate::exec::model::{line_views, Display, NodeStateView, TaskStatus};
use crate::exec::resolve::{resolved, values_after, ResolvedView};
use crate::exec::subprocess;
use crate::exec::subprocess::{
    exit_failure, exit_view, LineView, SubprocessError, SubprocessErrorView, SubprocessExit,
    SubprocessLine,
};
use crate::ir::program::{
    label_of, label_with, lemma_closed_children, lemma_closed_subtree, within, NodeKindView, NodeView, ProgramView,
};
use crate::ir::{has_command, TemplateView};
use crate::names::{insert_entry, lookup, Entries, NameMap};
use crate::plan::ArmPatternView;

pub mod ending;
pub mod failures;
pub mod laws;
pub mod meaning;
pub mod step;

verus! {

broadcast use vstd::string::group_string_axioms;

// ── Updates of the display ───────────────────────────────────────────────────

/// A change of the display.
#[derive(Debug, PartialEq)]
pub enum Update {
    Status(usize, TaskStatus),
    Label(usize, String),
    Project(usize, String),
    Output(usize, String),
}

/// The contents of an [`Update`].
pub enum UpdateView {
    Status(usize, TaskStatus),
    Label(usize, Seq<char>),
    Project(usize, Seq<char>),
    Output(usize, Seq<char>),
}

impl UpdateView {
    /// The node that an update is about.
    pub open spec fn node(self) -> usize {
        match self {
            UpdateView::Status(id, _) => id,
            UpdateView::Label(id, _) => id,
            UpdateView::Project(id, _) => id,
            UpdateView::Output(id, _) => id,
        }
    }

    /// What an update makes of the state of its node.
    pub open spec fn state(self, s: NodeStateView) -> NodeStateView {
        match self {
            UpdateView::Status(_, status) => NodeStateView { status, ..s },
            UpdateView::Label(_, label) => NodeStateView { label: Some(label), ..s },
            UpdateView::Project(_, project) => NodeStateView { project: Some(project), ..s },
            UpdateView::Output(_, line) => NodeStateView { output: s.output.push(line), ..s },
        }
    }
}

impl Update {
    pub open spec fn view(&self) -> UpdateView {
        match self {
            Update::Status(id, status) => UpdateView::Status(*id, *status),
            Update::Label(id, label) => UpdateView::Label(*id, label@),
            Update::Project(id, project) => UpdateView::Project(*id, project@),
            Update::Output(id, line) => UpdateView::Output(*id, line@),
        }
    }
}

pub open spec fn update_views(s: Seq<Update>) -> Seq<UpdateView> {
    Seq::new(s.len(), |i: int| s[i]@)
}

/// Whether updates are about nodes of an arena of `n` nodes.
pub open spec fn updates_within(updates: Seq<UpdateView>, n: nat) -> bool {
    forall|i: int| 0 <= i < updates.len() ==> (#[trigger] updates[i]).node() < n
}

/// The states after updates.
pub open spec fn applied(states: Seq<NodeStateView>, updates: Seq<UpdateView>) -> Seq<NodeStateView>
    decreases updates.len(),
{
    if updates.len() == 0 {
        states
    } else {
        let before = applied(states, updates.drop_last());
        let last = updates.last();
        before.update(last.node() as int, last.state(before[last.node() as int]))
    }
}

/// Carry out updates of the display.
pub fn apply(display: &mut Display, updates: Vec<Update>)
    requires
        updates_within(update_views(updates@), old(display)@.len()),
    ensures
        final(display)@ == applied(old(display)@, update_views(updates@)),
        final(display)@.len() == old(display)@.len(),
{
    let ghost start = display@;
    let ghost views = update_views(updates@);
    let mut i: usize = 0;
    assert(views.take(0) =~= Seq::<UpdateView>::empty());
    while i < updates.len()
        invariant
            i <= updates@.len(),
            views == update_views(updates@),
            updates_within(views, start.len()),
            display@.len() == start.len(),
            display@ == applied(start, views.take(i as int)),
        decreases updates@.len() - i,
    {
        proof {
            let next = views.take(i + 1);
            assert(next.drop_last() =~= views.take(i as int));
            assert(next.last() == updates@[i as int]@);
            assert(views[i as int].node() < start.len());
        }
        match &updates[i] {
            Update::Status(id, status) => {
                display.set_status(*id, *status);
            },
            Update::Label(id, label) => {
                display.set_label(*id, label.clone());
            },
            Update::Project(id, project) => {
                display.set_project(*id, project.clone());
            },
            Update::Output(id, line) => {
                display.push_output(*id, line.clone());
            },
        }
        i += 1;
    }
    assert(views.take(i as int) =~= views);
}

// ── The state of an execution ────────────────────────────────────────────────

/// What happens when a body has ended.
#[derive(Debug)]
pub enum Exit {
    /// The execution is over.
    Run,
    /// The variables of a block are unset.
    Env { node: usize },
    /// An arm has ended, and the switch that it was taken in.
    Arm { arm: usize, switch: Option<usize> },
    /// The context before a project is restored.
    Project { node: usize, cwd: String, direnv: bool },
}

/// The contents of an [`Exit`].
pub enum ExitView {
    Run,
    Env { node: usize },
    Arm { arm: usize, switch: Option<usize> },
    Project { node: usize, cwd: Seq<char>, direnv: bool },
}

impl Exit {
    pub open spec fn view(&self) -> ExitView {
        match self {
            Exit::Run => ExitView::Run,
            Exit::Env { node } => ExitView::Env { node: *node },
            Exit::Arm { arm, switch } => ExitView::Arm { arm: *arm, switch: *switch },
            Exit::Project { node, cwd, direnv } => ExitView::Project {
                node: *node,
                cwd: cwd@,
                direnv: *direnv,
            },
        }
    }
}

/// A body that is being executed.
#[derive(Debug)]
pub struct Body {
    pub children: Vec<usize>,
    /// The child that it has come to.
    pub next: usize,
    /// The children that run beside it.
    pub started: Vec<usize>,
    pub exit: Exit,
}

/// The contents of a [`Body`].
pub struct BodyView {
    pub children: Seq<usize>,
    pub next: nat,
    pub started: Seq<usize>,
    pub exit: ExitView,
}

impl Body {
    pub open spec fn view(&self) -> BodyView {
        BodyView {
            children: self.children@,
            next: self.next as nat,
            started: self.started@,
            exit: self.exit@,
        }
    }
}

pub open spec fn body_views(s: Seq<Body>) -> Seq<BodyView> {
    Seq::new(s.len(), |i: int| s[i]@)
}

/// What the text of a template is needed for.
#[derive(Debug)]
pub enum Goal {
    /// The statement itself.
    Statement,
    /// A variable of a block, after those in the layer.
    Pair { index: usize, layer: NameMap<String> },
}

/// The contents of a [`Goal`].
pub enum GoalView {
    Statement,
    Pair { index: nat, layer: Entries<Seq<char>> },
}

impl Goal {
    pub open spec fn view(&self) -> GoalView {
        match self {
            Goal::Statement => GoalView::Statement,
            Goal::Pair { index, layer } => GoalView::Pair {
                index: *index as nat,
                layer: layer_view(*layer),
            },
        }
    }
}

/// Where an execution stands.
#[derive(Debug)]
pub enum At {
    /// Before the next child.
    Next,
    /// The run may have failed elsewhere.
    Check,
    /// A template is resolved with the outputs that there are.
    Resolve { node: usize, goal: Goal, outputs: Vec<String> },
    /// The output of a command is awaited.
    Capture { node: usize, goal: Goal, outputs: Vec<String>, cmd: String },
    /// The end of a command is awaited.
    Live { node: usize, cmd: String },
    /// A directory is looked for.
    Dir { node: usize, target: String },
    /// The approval of an environment is awaited.
    Allow { node: usize, name: String },
    /// A child has ended.
    Finished(Result<(), RuntimeError>),
    /// A body has ended.
    End(Result<(), RuntimeError>),
    /// The bodies beside a body that has ended are awaited.
    Join(Result<(), RuntimeError>),
    /// The execution is over.
    Over,
}

/// The contents of an [`At`].
pub enum AtView {
    Next,
    Check,
    Resolve { node: usize, goal: GoalView, outputs: Seq<Seq<char>> },
    Capture { node: usize, goal: GoalView, outputs: Seq<Seq<char>>, cmd: Seq<char> },
    Live { node: usize, cmd: Seq<char> },
    Dir { node: usize, target: Seq<char> },
    Allow { node: usize, name: Seq<char> },
    Finished(Outcome),
    End(Outcome),
    Join(Outcome),
    Over,
}

impl At {
    pub open spec fn view(&self) -> AtView {
        match self {
            At::Next => AtView::Next,
            At::Check => AtView::Check,
            At::Resolve { node, goal, outputs } => AtView::Resolve {
                node: *node,
                goal: goal@,
                outputs: line_views(outputs@),
            },
            At::Capture { node, goal, outputs, cmd } => AtView::Capture {
                node: *node,
                goal: goal@,
                outputs: line_views(outputs@),
                cmd: cmd@,
            },
            At::Live { node, cmd } => AtView::Live { node: *node, cmd: cmd@ },
            At::Dir { node, target } => AtView::Dir { node: *node, target: target@ },
            At::Allow { node, name } => AtView::Allow { node: *node, name: name@ },
            At::Finished(r) => AtView::Finished(outcome_view(*r)),
            At::End(r) => AtView::End(outcome_view(*r)),
            At::Join(r) => AtView::Join(outcome_view(*r)),
            At::Over => AtView::Over,
        }
    }
}

/// The execution of a body and of those under it.
#[derive(Debug)]
pub struct Machine {
    pub context: ExecContext,
    pub bodies: Vec<Body>,
    pub at: At,
}

/// The contents of a [`Machine`]: the bodies stand one in another.
pub struct MachineView {
    pub context: ContextView,
    pub bodies: Seq<BodyView>,
    pub at: AtView,
}

impl Machine {
    pub open spec fn view(&self) -> MachineView {
        MachineView {
            context: self.context@,
            bodies: body_views(self.bodies@),
            at: self.at@,
        }
    }
}

// ── What an execution asks for, and the answers ──────────────────────────────

/// What the driver is asked to do.
#[derive(Debug)]
pub enum Action {
    /// Nothing.
    Continue,
    /// Find out whether the run has failed.
    CheckRun,
    /// Run a command for its output.
    Capture(Command),
    /// Run a command and show its output at a node.
    RunLive { node: usize, command: Command },
    /// Find a directory, seen from another.
    ChangeDir { from: String, target: String },
    /// Run a command that approves an environment.
    Allow(Command),
    /// Execute a body beside this one.
    Spawn { node: usize, body: Machine },
    /// The run has failed: stop what is running.
    FailRun,
    /// Wait for the bodies that were started at these nodes.
    Join(Vec<usize>),
    /// Nothing more: the execution has ended.
    Done(Result<(), RuntimeError>),
}

/// The contents of an [`Action`].
pub enum ActionView {
    Continue,
    CheckRun,
    Capture(CommandView),
    RunLive { node: usize, command: CommandView },
    ChangeDir { from: Seq<char>, target: Seq<char> },
    Allow(CommandView),
    Spawn { node: usize, body: MachineView },
    FailRun,
    Join(Seq<usize>),
    Done(Outcome),
}

impl Action {
    pub open spec fn view(&self) -> ActionView {
        match self {
            Action::Continue => ActionView::Continue,
            Action::CheckRun => ActionView::CheckRun,
            Action::Capture(c) => ActionView::Capture(c@),
            Action::RunLive { node, command } => ActionView::RunLive {
                node: *node,
                command: command@,
            },
            Action::ChangeDir { from, target } => ActionView::ChangeDir {
                from: from@,
                target: target@,
            },
            Action::Allow(c) => ActionView::Allow(c@),
            Action::Spawn { node, body } => ActionView::Spawn { node: *node, body: body@ },
            Action::FailRun => ActionView::FailRun,
            Action::Join(ids) => ActionView::Join(ids@),
            Action::Done(r) => ActionView::Done(outcome_view(*r)),
        }
    }
}

/// What became of a change of directory.
#[derive(Debug, PartialEq)]
pub enum DirChange {
    /// The directory, by its full path.
    Found(String),
    /// There is nothing of that name; the message says why.
    Missing(String),
    /// What has that name is not a directory.
    NotADirectory,
}

/// The contents of a [`DirChange`].
pub enum DirChangeView {
    Found(Seq<char>),
    Missing(Seq<char>),
    NotADirectory,
}

impl DirChange {
    pub open spec fn view(&self) -> DirChangeView {
        match self {
            DirChange::Found(s) => DirChangeView::Found(s@),
            DirChange::Missing(s) => DirChangeView::Missing(s@),
            DirChange::NotADirectory => DirChangeView::NotADirectory,
        }
    }
}

/// What became of a body that ran beside another.
#[derive(Debug, PartialEq)]
pub enum Joined {
    Ended(Result<(), RuntimeError>),
    /// It broke off.
    Panicked,
}

impl Joined {
    /// How the body ended. One that broke off failed.
    pub open spec fn view(&self) -> Outcome {
        match self {
            Joined::Ended(r) => outcome_view(*r),
            Joined::Panicked => Err(
                RuntimeErrorView::Exec { cmd: "async"@, detail: "task panicked"@ },
            ),
        }
    }
}

pub open spec fn joined_views(s: Seq<Joined>) -> Seq<Outcome> {
    Seq::new(s.len(), |i: int| s[i]@)
}

/// The answer to an action.
#[derive(Debug)]
pub enum Event {
    /// There is nothing to answer.
    Go,
    /// Whether the run has failed.
    RunFailed(bool),
    /// What a command wrote to its output stream, or why it did not end.
    Captured(Result<String, SubprocessError>),
    /// How a command ended.
    Exited(Result<SubprocessExit, SubprocessError>),
    /// What became of a change of directory.
    DirChanged(DirChange),
    /// How an approval ended, and what it wrote.
    Approved { end: Result<SubprocessExit, SubprocessError>, lines: Vec<SubprocessLine> },
    /// How the bodies ended that were waited for.
    Joined(Vec<Joined>),
}

/// The contents of an [`Event`].
pub enum EventView {
    Go,
    RunFailed(bool),
    Captured(Result<Seq<char>, SubprocessErrorView>),
    Exited(Result<SubprocessExit, SubprocessErrorView>),
    DirChanged(DirChangeView),
    Approved { end: Result<SubprocessExit, SubprocessErrorView>, lines: Seq<LineView> },
    Joined(Seq<Outcome>),
}

impl Event {
    pub open spec fn view(&self) -> EventView {
        match self {
            Event::Go => EventView::Go,
            Event::RunFailed(b) => EventView::RunFailed(*b),
            Event::Captured(r) => EventView::Captured(
                match r {
                    Ok(s) => Ok(s@),
                    Err(e) => Err(e@),
                },
            ),
            Event::Exited(r) => EventView::Exited(exit_view(*r)),
            Event::DirChanged(d) => EventView::DirChanged(d@),
            Event::Approved { end, lines } => EventView::Approved {
                end: exit_view(*end),
                lines: subprocess::line_views(lines@),
            },
            Event::Joined(s) => EventView::Joined(joined_views(s@)),
        }
    }
}

/// Whether an event answers what an execution asked for.
pub open spec fn answers(m: MachineView, e: EventView) -> bool {
    match m.at {
        AtView::Check => e is RunFailed,
        AtView::Capture { .. } => e is Captured,
        AtView::Live { .. } => e is Exited,
        AtView::Dir { .. } => e is DirChanged,
        AtView::Allow { .. } => e is Approved,
        AtView::Join(_) => e is Joined && e->Joined_0.len() == m.bodies.last().started.len(),
        AtView::Over => false,
        _ => true,
    }
}

// ── A step ───────────────────────────────────────────────────────────────────

/// A step: the next state, the updates of the display, and what the driver is
/// asked to do.
#[derive(Debug)]
pub struct Move {
    pub machine: Machine,
    pub updates: Vec<Update>,
    pub action: Action,
}

/// The contents of a [`Move`].
pub struct MoveView {
    pub machine: MachineView,
    pub updates: Seq<UpdateView>,
    pub action: ActionView,
}

impl Move {
    pub open spec fn view(&self) -> MoveView {
        MoveView {
            machine: self.machine@,
            updates: update_views(self.updates@),
            action: self.action@,
        }
    }
}

/// The updates that give nodes a status.
pub open spec fn statuses(ids: Seq<usize>, status: TaskStatus) -> Seq<UpdateView> {
    Seq::new(ids.len(), |i: int| UpdateView::Status(ids[i], status))
}

/// The updates that give nodes, and what is under them, a status.
pub open spec fn marked(p: ProgramView, roots: Seq<usize>, status: TaskStatus) -> Seq<UpdateView> {
    statuses(p.subtree(roots), status)
}

/// The update that names the value of a statement.
pub open spec fn labelled(kind: NodeKindView, node: usize, text: Seq<char>) -> Seq<UpdateView> {
    match label_with(kind, text) {
        Some(label) => seq![UpdateView::Label(node, label)],
        None => Seq::empty(),
    }
}

/// The update that names the value of a statement, where it was not known
/// before.
pub open spec fn labelled_if(
    dynamic: bool,
    kind: NodeKindView,
    node: usize,
    text: Seq<char>,
) -> Seq<UpdateView> {
    if dynamic {
        labelled(kind, node, text)
    } else {
        Seq::empty()
    }
}

/// A text without the line breaks at its end.
pub open spec fn without_newlines(s: Seq<char>) -> Seq<char>
    decreases s.len(),
{
    if s.len() > 0 && s.last() == '\n' {
        without_newlines(s.drop_last())
    } else {
        s
    }
}

impl MachineView {
    /// The execution of a body in a context.
    pub open spec fn start(context: ContextView, children: Seq<usize>) -> Self {
        MachineView {
            context,
            bodies: seq![
                BodyView { children, next: 0, started: Seq::empty(), exit: ExitView::Run },
            ],
            at: AtView::Next,
        }
    }

    /// The body that is being executed.
    pub open spec fn top(self) -> BodyView {
        self.bodies.last()
    }

    pub open spec fn goes(self, at: AtView) -> Self {
        MachineView { at, ..self }
    }

    /// A body is executed in the one that is being executed.
    pub open spec fn enters(self, children: Seq<usize>, exit: ExitView) -> Self {
        MachineView {
            bodies: self.bodies.push(
                BodyView { children, next: 0, started: Seq::empty(), exit },
            ),
            at: AtView::Next,
            ..self
        }
    }
}

pub open spec fn quietly(machine: MachineView) -> MoveView {
    MoveView { machine, updates: Seq::empty(), action: ActionView::Continue }
}

/// A child has ended.
pub open spec fn child_ended(
    m: MachineView,
    node: usize,
    updates: Seq<UpdateView>,
    outcome: Outcome,
) -> MoveView {
    MoveView {
        machine: m.goes(AtView::Finished(outcome)),
        updates: updates.push(UpdateView::Status(node, ended(outcome))),
        action: ActionView::Continue,
    }
}

/// A child has failed, and shows why.
pub open spec fn child_failed(m: MachineView, node: usize, e: RuntimeErrorView) -> MoveView {
    child_ended(m, node, seq![UpdateView::Output(node, e.line())], Err(e))
}

/// The first of the nodes that has a row.
pub open spec fn first_row(nodes: Seq<NodeView>, ids: Seq<usize>) -> Option<usize>
    decreases ids.len(),
{
    if ids.len() == 0 {
        None
    } else if label_of(nodes[ids[0] as int].kind) is Some {
        Some(ids[0])
    } else {
        first_row(nodes, ids.skip(1))
    }
}

/// The updates that cancel all nodes but one.
pub open spec fn others_cancelled(ids: Seq<usize>, one: usize) -> Seq<UpdateView>
    decreases ids.len(),
{
    if ids.len() == 0 {
        Seq::empty()
    } else if ids.last() == one {
        others_cancelled(ids.drop_last(), one)
    } else {
        others_cancelled(ids.drop_last(), one).push(
            UpdateView::Status(ids.last(), TaskStatus::Cancelled),
        )
    }
}

/// The updates that show why a project could not be entered: it has no row of
/// its own, so the first row under it shows the error.
pub open spec fn context_failure(
    p: ProgramView,
    roots: Seq<usize>,
    e: RuntimeErrorView,
) -> Seq<UpdateView> {
    let ids = p.subtree(roots);
    match first_row(p.nodes, ids) {
        None => Seq::empty(),
        Some(first) => seq![
            UpdateView::Status(first, TaskStatus::Error),
            UpdateView::Output(first, e.line()),
        ] + others_cancelled(ids, first),
    }
}

/// A project could not be entered.
pub open spec fn project_failed(
    p: ProgramView,
    m: MachineView,
    node: usize,
    e: RuntimeErrorView,
) -> MoveView {
    MoveView {
        machine: m.goes(AtView::Finished(Err(e))),
        updates: context_failure(p, p.nodes[node as int].children, e).push(
            UpdateView::Status(node, TaskStatus::Error),
        ),
        action: ActionView::Continue,
    }
}

/// The updates that name the project of nodes.
pub open spec fn annotated(ids: Seq<usize>, name: Seq<char>) -> Seq<UpdateView> {
    Seq::new(ids.len(), |i: int| UpdateView::Project(ids[i], name))
}

/// A project is entered: its directory and its environment are in force until
/// its body has ended.
pub open spec fn project_entered(
    p: ProgramView,
    m: MachineView,
    node: usize,
    name: Seq<char>,
    dir: Seq<char>,
    direnv: bool,
) -> MoveView {
    let children = p.nodes[node as int].children;
    let dynamic = match p.nodes[node as int].kind {
        NodeKindView::Project(t) => has_command(t),
        _ => false,
    };
    let inner = MachineView {
        context: ContextView { cwd: dir, direnv, ..m.context },
        ..m
    };
    MoveView {
        machine: inner.enters(
            children,
            ExitView::Project { node, cwd: m.context.cwd, direnv: m.context.direnv },
        ),
        updates: if dynamic {
            annotated(p.subtree(children), name)
        } else {
            Seq::empty()
        },
        action: ActionView::Continue,
    }
}

/// The message about a project that is not known.
pub open spec fn unknown_project(name: Seq<char>) -> Seq<char> {
    "unknown project: `"@ + name + "` (no [project."@ + name + "] entry in kiru.toml)"@
}

/// The name of a project is known.
pub open spec fn project_named(
    p: ProgramView,
    run: RunContextView,
    m: MachineView,
    node: usize,
    name: Seq<char>,
) -> MoveView {
    if name.len() == 0 {
        project_failed(p, m, node, RuntimeErrorView::Lookup("project name resolved to empty"@))
    } else {
        match lookup(run.projects, name) {
            None => project_failed(p, m, node, RuntimeErrorView::Lookup(unknown_project(name))),
            Some(entry) => if entry.direnv {
                MoveView {
                    machine: m.goes(AtView::Allow { node, name }),
                    updates: Seq::empty(),
                    action: ActionView::Allow(allowing(entry.dir)),
                }
            } else {
                project_entered(p, m, node, name, entry.dir, false)
            },
        }
    }
}

/// Whether an arm matches a text.
pub open spec fn arm_matches(kind: NodeKindView, text: Seq<char>) -> bool {
    match kind {
        NodeKindView::Arm(ArmPatternView::Lit(pattern)) => pattern == text,
        NodeKindView::Arm(ArmPatternView::Default) => true,
        _ => false,
    }
}

/// The first arm that matches a text, from the one at `i` on.
pub open spec fn taken_arm(nodes: Seq<NodeView>, arms: Seq<usize>, text: Seq<char>, i: nat) -> Option<
    nat,
>
    decreases arms.len() - i,
{
    if i >= arms.len() {
        None
    } else if arm_matches(nodes[arms[i as int] as int].kind, text) {
        Some(i)
    } else {
        taken_arm(nodes, arms, text, i + 1)
    }
}

/// The updates that skip the first `n` of the arms, but for the one that is
/// taken.
pub open spec fn others_skipped(p: ProgramView, arms: Seq<usize>, taken: Option<nat>, n: nat) -> Seq<
    UpdateView,
>
    decreases n,
{
    if n == 0 {
        Seq::empty()
    } else {
        let i = (n - 1) as nat;
        let before = others_skipped(p, arms, taken, i);
        if taken == Some(i) {
            before
        } else {
            before + marked(p, seq![arms[i as int]], TaskStatus::Skipped)
        }
    }
}

/// The subject of a switch is known: the first arm that matches is executed,
/// and the others are skipped.
pub open spec fn switched(p: ProgramView, m: MachineView, node: usize, text: Seq<char>) -> MoveView {
    let arms = p.nodes[node as int].children;
    let taken = taken_arm(p.nodes, arms, text, 0);
    let skipped = others_skipped(p, arms, taken, arms.len());
    match taken {
        None => child_ended(m, node, skipped, Ok(())),
        Some(i) => {
            let arm = arms[i as int];
            MoveView {
                machine: m.enters(
                    p.nodes[arm as int].children,
                    ExitView::Arm { arm, switch: Some(node) },
                ),
                updates: skipped.push(UpdateView::Status(arm, TaskStatus::Running)),
                action: ActionView::Continue,
            }
        },
    }
}

/// The body of a block is executed with its variables set.
pub open spec fn block_entered(
    p: ProgramView,
    m: MachineView,
    node: usize,
    layer: Entries<Seq<char>>,
) -> MoveView {
    let inner = MachineView {
        context: ContextView { layers: m.context.layers.push(layer), ..m.context },
        ..m
    };
    quietly(inner.enters(p.nodes[node as int].children, ExitView::Env { node }))
}

/// A child is executed.
pub open spec fn child_begun(p: ProgramView, m: MachineView, node: usize) -> MoveView {
    let children = p.nodes[node as int].children;
    let resolving = quietly(
        m.goes(AtView::Resolve { node, goal: GoalView::Statement, outputs: Seq::empty() }),
    );
    match p.nodes[node as int].kind {
        NodeKindView::Log(t) => if has_command(t) {
            resolving
        } else {
            child_ended(m, node, Seq::empty(), Ok(()))
        },
        NodeKindView::Exec(_) => resolving,
        NodeKindView::Cd(_) => resolving,
        NodeKindView::Switch(_) => resolving,
        NodeKindView::Project(_) => resolving,
        NodeKindView::Env(pairs) => if pairs.len() == 0 {
            block_entered(p, m, node, Seq::empty())
        } else {
            quietly(
                m.goes(
                    AtView::Resolve {
                        node,
                        goal: GoalView::Pair { index: 0, layer: Seq::empty() },
                        outputs: Seq::empty(),
                    },
                ),
            )
        },
        NodeKindView::Async => {
            let top = m.top();
            MoveView {
                machine: MachineView {
                    bodies: m.bodies.update(
                        m.bodies.len() - 1,
                        BodyView { started: top.started.push(node), ..top },
                    ),
                    at: AtView::Finished(Ok(())),
                    ..m
                },
                updates: Seq::empty(),
                action: ActionView::Spawn { node, body: MachineView::start(m.context, children) },
            }
        },
        NodeKindView::Arm(_) => MoveView {
            machine: m.enters(children, ExitView::Arm { arm: node, switch: None }),
            updates: seq![UpdateView::Status(node, TaskStatus::Running)],
            action: ActionView::Continue,
        },
    }
}

/// The template whose text is needed.
pub open spec fn template_for(kind: NodeKindView, goal: GoalView) -> TemplateView {
    match (kind, goal) {
        (NodeKindView::Log(t), _) => t,
        (NodeKindView::Exec(t), _) => t,
        (NodeKindView::Cd(t), _) => t,
        (NodeKindView::Switch(t), _) => t,
        (NodeKindView::Project(t), _) => t,
        (NodeKindView::Env(pairs), GoalView::Pair { index, .. }) => pairs[index as int].value,
        _ => TemplateView::empty(),
    }
}

/// The text of a template is known.
pub open spec fn text_known(
    p: ProgramView,
    run: RunContextView,
    m: MachineView,
    node: usize,
    goal: GoalView,
    text: Seq<char>,
) -> MoveView {
    let kind = p.nodes[node as int].kind;
    match kind {
        NodeKindView::Log(_) => child_ended(m, node, labelled(kind, node, text), Ok(())),
        NodeKindView::Exec(t) => MoveView {
            machine: m.goes(AtView::Live { node, cmd: text }),
            updates: labelled_if(has_command(t), kind, node, text),
            action: ActionView::RunLive { node, command: m.context.command(run, text) },
        },
        NodeKindView::Cd(_) => MoveView {
            machine: m.goes(AtView::Dir { node, target: text }),
            updates: Seq::empty(),
            action: ActionView::ChangeDir { from: m.context.cwd, target: text },
        },
        NodeKindView::Switch(_) => switched(p, m, node, text),
        NodeKindView::Project(_) => project_named(p, run, m, node, text),
        NodeKindView::Env(pairs) => match goal {
            GoalView::Pair { index, layer } => {
                let layer = insert_entry(layer, pairs[index as int].key, text);
                if index + 1 < pairs.len() {
                    quietly(
                        m.goes(
                            AtView::Resolve {
                                node,
                                goal: GoalView::Pair { index: index + 1, layer },
                                outputs: Seq::empty(),
                            },
                        ),
                    )
                } else {
                    block_entered(p, m, node, layer)
                }
            },
            GoalView::Statement => quietly(m.goes(AtView::Finished(Ok(())))),
        },
        _ => quietly(m.goes(AtView::Finished(Ok(())))),
    }
}

/// The text of a template cannot be known.
pub open spec fn text_failed(
    p: ProgramView,
    m: MachineView,
    node: usize,
    e: RuntimeErrorView,
) -> MoveView {
    match p.nodes[node as int].kind {
        NodeKindView::Project(_) => project_failed(p, m, node, e),
        _ => child_failed(m, node, e),
    }
}

/// A template is resolved as far as the outputs go.
pub open spec fn resolving(
    p: ProgramView,
    run: RunContextView,
    m: MachineView,
    node: usize,
    goal: GoalView,
    outputs: Seq<Seq<char>>,
) -> MoveView {
    let template = template_for(p.nodes[node as int].kind, goal);
    match resolved(template, m.context.values, outputs, 0) {
        ResolvedView::Run { cmd, .. } => MoveView {
            machine: m.goes(AtView::Capture { node, goal, outputs, cmd }),
            updates: Seq::empty(),
            action: ActionView::Capture(m.context.command(run, cmd)),
        },
        ResolvedView::Text { text, values, .. } => text_known(
            p,
            run,
            MachineView { context: ContextView { values, ..m.context }, ..m },
            node,
            goal,
            text,
        ),
    }
}

/// The output of a command is known. A command that ran for too long counts as
/// one without output.
pub open spec fn output_known(
    p: ProgramView,
    m: MachineView,
    node: usize,
    goal: GoalView,
    outputs: Seq<Seq<char>>,
    cmd: Seq<char>,
    captured: Result<Seq<char>, SubprocessErrorView>,
) -> MoveView {
    match captured {
        Ok(text) => quietly(
            m.goes(AtView::Resolve { node, goal, outputs: outputs.push(without_newlines(text)) }),
        ),
        Err(SubprocessErrorView::Timeout { .. }) => quietly(
            m.goes(AtView::Resolve { node, goal, outputs: outputs.push(Seq::empty()) }),
        ),
        Err(e) => {
            let template = template_for(p.nodes[node as int].kind, goal);
            let values = values_after(resolved(template, m.context.values, outputs, 0));
            text_failed(
                p,
                MachineView { context: ContextView { values, ..m.context }, ..m },
                node,
                RuntimeErrorView::Exec { cmd, detail: e.message() },
            )
        },
    }
}

/// What the end of a command means.
pub open spec fn live_outcome(
    run: RunContextView,
    cmd: Seq<char>,
    end: Result<SubprocessExit, SubprocessErrorView>,
) -> Outcome {
    match end {
        Ok(exit) => if exit.killed_by_switch {
            Err(RuntimeErrorView::Cancelled("stopped because another task failed"@))
        } else if exit.status.code == Some(0i32) {
            Ok(())
        } else {
            Err(RuntimeErrorView::Exec { cmd, detail: exit_failure(exit.status) })
        },
        Err(SubprocessErrorView::Timeout { command, .. }) => Err(
            RuntimeErrorView::Timeout { cmd: command, secs: run.secs() },
        ),
        Err(e) => Err(RuntimeErrorView::Exec { cmd, detail: e.message() }),
    }
}

/// A command has ended.
pub open spec fn live_ended(m: MachineView, node: usize, outcome: Outcome) -> MoveView {
    match outcome {
        Ok(_) => child_ended(m, node, Seq::empty(), Ok(())),
        Err(e) => child_failed(m, node, e),
    }
}

/// What became of a change of directory is known.
pub open spec fn dir_known(
    p: ProgramView,
    m: MachineView,
    node: usize,
    target: Seq<char>,
    change: DirChangeView,
) -> MoveView {
    let kind = p.nodes[node as int].kind;
    let dynamic = match kind {
        NodeKindView::Cd(t) => has_command(t),
        _ => false,
    };
    match change {
        DirChangeView::Found(path) => child_ended(
            MachineView { context: ContextView { cwd: path, ..m.context }, ..m },
            node,
            labelled_if(dynamic, kind, node, target),
            Ok(()),
        ),
        DirChangeView::Missing(why) => child_failed(
            m,
            node,
            RuntimeErrorView::Lookup("cd "@ + target + ": "@ + why),
        ),
        DirChangeView::NotADirectory => child_failed(
            m,
            node,
            RuntimeErrorView::Lookup("cd "@ + target + ": not a directory"@),
        ),
    }
}

/// An approval has ended.
pub open spec fn approval_known(
    p: ProgramView,
    run: RunContextView,
    m: MachineView,
    node: usize,
    name: Seq<char>,
    end: Result<SubprocessExit, SubprocessErrorView>,
    lines: Seq<LineView>,
) -> MoveView {
    match lookup(run.projects, name) {
        None => project_failed(p, m, node, RuntimeErrorView::Lookup(unknown_project(name))),
        Some(entry) => match allowed(invocation_of(entry.dir), end, lines, run.secs()) {
            Ok(_) => project_entered(p, m, node, name, entry.dir, entry.direnv),
            Err(e) => project_failed(p, m, node, e),
        },
    }
}

/// A child has ended: the next one follows, unless it failed. A failure that is
/// its own makes the run fail, and the children after it are cancelled.
pub open spec fn child_left(p: ProgramView, m: MachineView, outcome: Outcome) -> MoveView {
    let top = m.top();
    match outcome {
        Ok(_) => quietly(
            MachineView {
                bodies: m.bodies.update(
                    m.bodies.len() - 1,
                    BodyView { next: top.next + 1, ..top },
                ),
                at: AtView::Next,
                ..m
            },
        ),
        Err(e) => MoveView {
            machine: m.goes(AtView::End(Err(e))),
            updates: marked(p, top.children.skip(top.next as int + 1), TaskStatus::Cancelled),
            action: if e is Cancelled {
                ActionView::Continue
            } else {
                ActionView::FailRun
            },
        },
    }
}

/// The layers without the last.
pub open spec fn without_last(layers: Seq<Entries<Seq<char>>>) -> Seq<Entries<Seq<char>>> {
    if layers.len() == 0 {
        layers
    } else {
        layers.drop_last()
    }
}

/// A body has ended, and what it ran in is restored.
pub open spec fn body_left(
    m: MachineView,
    updates: Seq<UpdateView>,
    outcome: Outcome,
) -> MoveView {
    let outer = MachineView { bodies: m.bodies.drop_last(), ..m };
    match m.top().exit {
        ExitView::Run => MoveView {
            machine: outer.goes(AtView::Over),
            updates,
            action: ActionView::Done(outcome),
        },
        ExitView::Env { node } => child_ended(
            MachineView {
                context: ContextView { layers: without_last(m.context.layers), ..m.context },
                ..outer
            },
            node,
            updates,
            outcome,
        ),
        ExitView::Arm { arm, switch } => {
            let status = ended(outcome);
            let own = updates.push(UpdateView::Status(arm, status));
            MoveView {
                machine: outer.goes(AtView::Finished(outcome)),
                updates: match switch {
                    Some(node) => own.push(UpdateView::Status(node, status)),
                    None => own,
                },
                action: ActionView::Continue,
            }
        },
        ExitView::Project { node, cwd, direnv } => child_ended(
            MachineView { context: ContextView { cwd, direnv, ..m.context }, ..outer },
            node,
            updates,
            outcome,
        ),
    }
}

/// The updates that show how bodies ended.
pub open spec fn joins(nodes: Seq<usize>, outcomes: Seq<Outcome>) -> Seq<UpdateView> {
    Seq::new(nodes.len(), |i: int| UpdateView::Status(nodes[i], ended(outcomes[i])))
}

/// How a body ended together with those beside it: its own failure comes before
/// theirs, and an earlier one before a later.
pub open spec fn joint_outcome(own: Outcome, outcomes: Seq<Outcome>) -> Outcome
    decreases outcomes.len(),
{
    if own is Err || outcomes.len() == 0 {
        own
    } else {
        joint_outcome(outcomes[0], outcomes.skip(1))
    }
}

/// Whether what an exit names belongs to an arena of `n` nodes.
pub open spec fn exit_ok(exit: ExitView, n: nat) -> bool {
    match exit {
        ExitView::Run => true,
        ExitView::Env { node } => node < n,
        ExitView::Arm { arm, switch } => arm < n && match switch {
            Some(node) => node < n,
            None => true,
        },
        ExitView::Project { node, .. } => node < n,
    }
}

pub open spec fn body_ok(body: BodyView, n: nat) -> bool {
    &&& within(body.children, n)
    &&& within(body.started, n)
    &&& body.next <= body.children.len()
    &&& exit_ok(body.exit, n)
}

/// Whether a template stands where its text is needed.
pub open spec fn goal_ok(kind: NodeKindView, goal: GoalView) -> bool {
    match kind {
        NodeKindView::Log(_) => true,
        NodeKindView::Exec(_) => true,
        NodeKindView::Cd(_) => true,
        NodeKindView::Switch(_) => true,
        NodeKindView::Project(_) => true,
        NodeKindView::Env(pairs) => match goal {
            GoalView::Pair { index, .. } => index < pairs.len(),
            GoalView::Statement => false,
        },
        _ => false,
    }
}

/// Whether a body has a child that it has come to.
pub open spec fn has_child(body: BodyView) -> bool {
    body.next < body.children.len()
}

/// The child that a body has come to.
pub open spec fn current(body: BodyView) -> usize {
    body.children[body.next as int]
}

/// The child that has ended when a body has ended.
pub open spec fn exit_node(exit: ExitView) -> Option<usize> {
    match exit {
        ExitView::Run => None,
        ExitView::Env { node } => Some(node),
        ExitView::Arm { arm, switch } => match switch {
            Some(node) => Some(node),
            None => Some(arm),
        },
        ExitView::Project { node, .. } => Some(node),
    }
}

/// Whether each body belongs to the child that the body around it has come to.
pub open spec fn nested(bodies: Seq<BodyView>) -> bool {
    forall|i: int|
        0 < i < bodies.len() ==> exit_node((#[trigger] bodies[i]).exit) == Some(
            current(bodies[i - 1]),
        )
}

/// Whether the execution is over with the first body, and with no other.
pub open spec fn only_first_is_outermost(bodies: Seq<BodyView>) -> bool {
    forall|i: int| 0 <= i < bodies.len() ==> ((#[trigger] bodies[i]).exit is Run <==> i == 0)
}

/// Whether the state of an execution speaks of nodes of a program, in which
/// every path ends. It does from the start, and every step keeps it so.
pub open spec fn machine_ok(p: ProgramView, m: MachineView) -> bool {
    let n = p.nodes.len();
    &&& p.closed()
    &&& m.at is Over || m.bodies.len() > 0
    &&& forall|i: int| 0 <= i < m.bodies.len() ==> body_ok(#[trigger] m.bodies[i], n)
    &&& forall|i: int| 0 <= i < m.bodies.len() - 1 ==> has_child(#[trigger] m.bodies[i])
    &&& only_first_is_outermost(m.bodies)
    &&& nested(m.bodies)
    &&& match m.at {
        AtView::Check => has_child(m.top()),
        AtView::Finished(_) => has_child(m.top()),
        AtView::Resolve { node, goal, .. } => has_child(m.top()) && node == current(m.top())
            && goal_ok(p.nodes[node as int].kind, goal),
        AtView::Capture { node, goal, .. } => has_child(m.top()) && node == current(m.top())
            && goal_ok(p.nodes[node as int].kind, goal),
        AtView::Live { node, .. } => has_child(m.top()) && node == current(m.top()),
        AtView::Dir { node, .. } => has_child(m.top()) && node == current(m.top()),
        AtView::Allow { node, .. } => has_child(m.top()) && node == current(m.top()),
        _ => true,
    }
}

/// The step that follows an event.
pub open spec fn stepped(
    p: ProgramView,
    run: RunContextView,
    m: MachineView,
    e: EventView,
) -> MoveView {
    match (m.at, e) {
        (AtView::Next, _) => if m.top().next >= m.top().children.len() {
            quietly(m.goes(AtView::End(Ok(()))))
        } else {
            MoveView {
                machine: m.goes(AtView::Check),
                updates: Seq::empty(),
                action: ActionView::CheckRun,
            }
        },
        (AtView::Check, EventView::RunFailed(failed)) => {
            let top = m.top();
            if failed {
                MoveView {
                    machine: m.goes(
                        AtView::End(
                            Err(RuntimeErrorView::Cancelled("run failed in another task"@)),
                        ),
                    ),
                    updates: marked(
                        p,
                        top.children.skip(top.next as int),
                        TaskStatus::Cancelled,
                    ),
                    action: ActionView::Continue,
                }
            } else {
                let node = top.children[top.next as int];
                let begun = child_begun(p, m, node);
                MoveView {
                    updates: seq![UpdateView::Status(node, TaskStatus::Running)] + begun.updates,
                    ..begun
                }
            }
        },
        (AtView::Resolve { node, goal, outputs }, _) => resolving(p, run, m, node, goal, outputs),
        (AtView::Capture { node, goal, outputs, cmd }, EventView::Captured(captured)) =>
        output_known(p, m, node, goal, outputs, cmd, captured),
        (AtView::Live { node, cmd }, EventView::Exited(end)) => live_ended(
            m,
            node,
            live_outcome(run, cmd, end),
        ),
        (AtView::Dir { node, target }, EventView::DirChanged(change)) => dir_known(
            p,
            m,
            node,
            target,
            change,
        ),
        (AtView::Allow { node, name }, EventView::Approved { end, lines }) => approval_known(
            p,
            run,
            m,
            node,
            name,
            end,
            lines,
        ),
        (AtView::Finished(outcome), _) => child_left(p, m, outcome),
        (AtView::End(outcome), _) => if m.top().started.len() == 0 {
            body_left(m, Seq::empty(), outcome)
        } else {
            MoveView {
                machine: m.goes(AtView::Join(outcome)),
                updates: Seq::empty(),
                action: ActionView::Join(m.top().started),
            }
        },
        (AtView::Join(outcome), EventView::Joined(outcomes)) => body_left(
            m,
            joins(m.top().started, outcomes),
            joint_outcome(outcome, outcomes),
        ),
        _ => quietly(m),
    }
}

/// In a sound execution the children of every node belong to the program.
pub proof fn lemma_nodes(p: ProgramView, m: MachineView)
    requires
        machine_ok(p, m),
    ensures
        forall|id: usize|
            id < p.nodes.len() ==> within(
                (#[trigger] p.nodes[id as int]).children,
                p.nodes.len(),
            ),
{
    assert forall|id: usize| id < p.nodes.len() implies within(
        (#[trigger] p.nodes[id as int]).children,
        p.nodes.len(),
    ) by {
        lemma_closed_children(p.nodes, id);
    }
}

proof fn lemma_marked_within(p: ProgramView, roots: Seq<usize>, status: TaskStatus)
    requires
        p.closed(),
        within(roots, p.nodes.len()),
    ensures
        updates_within(marked(p, roots, status), p.nodes.len()),
{
    lemma_closed_subtree(p.nodes, roots);
    let updates = marked(p, roots, status);
    assert forall|i: int| 0 <= i < updates.len() implies (#[trigger] updates[i]).node()
        < p.nodes.len() by {
        assert(p.subtree(roots)[i] < p.nodes.len());
    }
}

proof fn lemma_within_join(a: Seq<UpdateView>, b: Seq<UpdateView>, n: nat)
    requires
        updates_within(a, n),
        updates_within(b, n),
    ensures
        updates_within(a + b, n),
{
    assert forall|i: int| 0 <= i < (a + b).len() implies (#[trigger] (a + b)[i]).node() < n by {
        if i < a.len() {
            assert((a + b)[i] == a[i]);
        } else {
            assert((a + b)[i] == b[i - a.len()]);
        }
    }
}

proof fn lemma_within_push(a: Seq<UpdateView>, u: UpdateView, n: nat)
    requires
        updates_within(a, n),
        u.node() < n,
    ensures
        updates_within(a.push(u), n),
{
    assert forall|i: int| 0 <= i < a.push(u).len() implies (#[trigger] a.push(u)[i]).node() < n by {
        if i < a.len() {
            assert(a.push(u)[i] == a[i]);
        }
    }
}

proof fn lemma_first_row_within(nodes: Seq<NodeView>, ids: Seq<usize>)
    requires
        within(ids, nodes.len()),
    ensures
        first_row(nodes, ids) matches Some(id) ==> id < nodes.len(),
    decreases ids.len(),
{
    if ids.len() > 0 {
        assert(ids[0] < nodes.len());
        assert forall|i: int| 0 <= i < ids.skip(1).len() implies (#[trigger] ids.skip(1)[i])
            < nodes.len() by {
            assert(ids.skip(1)[i] == ids[i + 1]);
        }
        lemma_first_row_within(nodes, ids.skip(1));
    }
}

proof fn lemma_others_within(ids: Seq<usize>, one: usize, n: nat)
    requires
        within(ids, n),
    ensures
        updates_within(others_cancelled(ids, one), n),
    decreases ids.len(),
{
    if ids.len() > 0 {
        assert(ids.last() == ids[ids.len() - 1]);
        assert forall|i: int| 0 <= i < ids.drop_last().len() implies (#[trigger] ids.drop_last()[i])
            < n by {
            assert(ids.drop_last()[i] == ids[i]);
        }
        lemma_others_within(ids.drop_last(), one, n);
        if ids.last() != one {
            lemma_within_push(
                others_cancelled(ids.drop_last(), one),
                UpdateView::Status(ids.last(), TaskStatus::Cancelled),
                n,
            );
        }
    }
}

proof fn lemma_context_failure_within(p: ProgramView, roots: Seq<usize>, e: RuntimeErrorView)
    requires
        p.closed(),
        within(roots, p.nodes.len()),
    ensures
        updates_within(context_failure(p, roots, e), p.nodes.len()),
{
    let ids = p.subtree(roots);
    lemma_closed_subtree(p.nodes, roots);
    lemma_first_row_within(p.nodes, ids);
    match first_row(p.nodes, ids) {
        None => {},
        Some(first) => {
            lemma_others_within(ids, first, p.nodes.len());
            lemma_within_join(
                seq![
                    UpdateView::Status(first, TaskStatus::Error),
                    UpdateView::Output(first, e.line()),
                ],
                others_cancelled(ids, first),
                p.nodes.len(),
            );
        },
    }
}

proof fn lemma_skipped_within(p: ProgramView, arms: Seq<usize>, taken: Option<nat>, n: nat)
    requires
        p.closed(),
        within(arms, p.nodes.len()),
        n <= arms.len(),
    ensures
        updates_within(others_skipped(p, arms, taken, n), p.nodes.len()),
    decreases n,
{
    if n > 0 {
        lemma_skipped_within(p, arms, taken, (n - 1) as nat);
        assert(arms[n - 1] < p.nodes.len());
        let one = seq![arms[n - 1]];
        lemma_marked_within(p, one, TaskStatus::Skipped);
        lemma_within_join(
            others_skipped(p, arms, taken, (n - 1) as nat),
            marked(p, one, TaskStatus::Skipped),
            p.nodes.len(),
        );
    }
}

pub proof fn lemma_taken_within(nodes: Seq<NodeView>, arms: Seq<usize>, text: Seq<char>, i: nat)
    ensures
        taken_arm(nodes, arms, text, i) matches Some(k) ==> i <= k < arms.len() && arm_matches(
            nodes[arms[k as int] as int].kind,
            text,
        ),
    decreases arms.len() - i,
{
    if i < arms.len() && !arm_matches(nodes[arms[i as int] as int].kind, text) {
        lemma_taken_within(nodes, arms, text, i + 1);
    }
}

/// Whether a step leads to a sound execution.
pub open spec fn move_ok(p: ProgramView, next: MoveView) -> bool {
    &&& machine_ok(p, next.machine)
    &&& updates_within(next.updates, p.nodes.len())
    &&& next.action matches ActionView::Spawn { body, .. } ==> machine_ok(p, body)
}

/// Whether an execution stands at a child.
pub open spec fn at_child(p: ProgramView, m: MachineView) -> bool {
    let n = p.nodes.len();
    &&& p.closed()
    &&& m.bodies.len() > 0
    &&& forall|i: int| 0 <= i < m.bodies.len() ==> body_ok(#[trigger] m.bodies[i], n)
    &&& forall|i: int| 0 <= i < m.bodies.len() ==> has_child(#[trigger] m.bodies[i])
    &&& only_first_is_outermost(m.bodies)
    &&& nested(m.bodies)
}

proof fn lemma_enters_ok(p: ProgramView, m: MachineView, children: Seq<usize>, exit: ExitView)
    requires
        at_child(p, m),
        within(children, p.nodes.len()),
        exit_ok(exit, p.nodes.len()),
        exit_node(exit) == Some(current(m.top())),
    ensures
        machine_ok(p, m.enters(children, exit)),
{
    let inner = m.enters(children, exit);
    let n = p.nodes.len();
    assert forall|i: int| 0 < i < inner.bodies.len() implies exit_node(
        (#[trigger] inner.bodies[i]).exit,
    ) == Some(current(inner.bodies[i - 1])) by {
        assert(inner.bodies[i - 1] == m.bodies[i - 1]);
        if i < m.bodies.len() {
            assert(inner.bodies[i] == m.bodies[i]);
        }
    }
    assert forall|i: int| 0 <= i < inner.bodies.len() implies ((#[trigger] inner.bodies[i]).exit is Run
        <==> i == 0) by {
        if i < m.bodies.len() {
            assert(inner.bodies[i] == m.bodies[i]);
        }
    }
    assert forall|i: int| 0 <= i < inner.bodies.len() implies body_ok(
        #[trigger] inner.bodies[i],
        n,
    ) by {
        if i < m.bodies.len() {
            assert(inner.bodies[i] == m.bodies[i]);
        }
    }
    assert forall|i: int| 0 <= i < inner.bodies.len() - 1 implies has_child(
        #[trigger] inner.bodies[i],
    ) by {
        assert(inner.bodies[i] == m.bodies[i]);
    }
}

proof fn lemma_child_failed_ok(p: ProgramView, m: MachineView, node: usize, e: RuntimeErrorView)
    requires
        at_child(p, m),
        node == current(m.top()),
        node < p.nodes.len(),
    ensures
        move_ok(p, child_failed(m, node, e)),
{
    lemma_within_push(
        seq![UpdateView::Output(node, e.line())],
        UpdateView::Status(node, e.status()),
        p.nodes.len(),
    );
}

proof fn lemma_project_failed_ok(p: ProgramView, m: MachineView, node: usize, e: RuntimeErrorView)
    requires
        at_child(p, m),
        node == current(m.top()),
        node < p.nodes.len(),
    ensures
        move_ok(p, project_failed(p, m, node, e)),
{
    lemma_closed_children(p.nodes, node);
    let children = p.nodes[node as int].children;
    lemma_context_failure_within(p, children, e);
    lemma_within_push(
        context_failure(p, children, e),
        UpdateView::Status(node, TaskStatus::Error),
        p.nodes.len(),
    );
}

proof fn lemma_project_entered_ok(
    p: ProgramView,
    m: MachineView,
    node: usize,
    name: Seq<char>,
    dir: Seq<char>,
    direnv: bool,
)
    requires
        at_child(p, m),
        node == current(m.top()),
        node < p.nodes.len(),
    ensures
        move_ok(p, project_entered(p, m, node, name, dir, direnv)),
{
    lemma_closed_children(p.nodes, node);
    let children = p.nodes[node as int].children;
    lemma_closed_subtree(p.nodes, children);
    let inner = MachineView {
        context: ContextView { cwd: dir, direnv, ..m.context },
        ..m
    };
    assert(at_child(p, inner));
    lemma_enters_ok(
        p,
        inner,
        children,
        ExitView::Project { node, cwd: m.context.cwd, direnv: m.context.direnv },
    );
    let ids = p.subtree(children);
    assert forall|i: int| 0 <= i < annotated(ids, name).len() implies (
    #[trigger] annotated(ids, name)[i]).node() < p.nodes.len() by {
        assert(ids[i] < p.nodes.len());
    }
}

proof fn lemma_project_named_ok(
    p: ProgramView,
    run: RunContextView,
    m: MachineView,
    node: usize,
    name: Seq<char>,
)
    requires
        at_child(p, m),
        node == current(m.top()),
        node < p.nodes.len(),
    ensures
        move_ok(p, project_named(p, run, m, node, name)),
{
    if name.len() == 0 {
        lemma_project_failed_ok(
            p,
            m,
            node,
            RuntimeErrorView::Lookup("project name resolved to empty"@),
        );
    } else {
        match lookup(run.projects, name) {
            None => {
                lemma_project_failed_ok(
                    p,
                    m,
                    node,
                    RuntimeErrorView::Lookup(unknown_project(name)),
                );
            },
            Some(entry) => {
                lemma_project_entered_ok(p, m, node, name, entry.dir, false);
            },
        }
    }
}

proof fn lemma_switched_ok(p: ProgramView, m: MachineView, node: usize, text: Seq<char>)
    requires
        at_child(p, m),
        node == current(m.top()),
        node < p.nodes.len(),
    ensures
        move_ok(p, switched(p, m, node, text)),
{
    let n = p.nodes.len();
    lemma_closed_children(p.nodes, node);
    let arms = p.nodes[node as int].children;
    let taken = taken_arm(p.nodes, arms, text, 0);
    lemma_taken_within(p.nodes, arms, text, 0);
    lemma_skipped_within(p, arms, taken, arms.len());
    let skipped = others_skipped(p, arms, taken, arms.len());
    match taken {
        None => {
            lemma_within_push(skipped, UpdateView::Status(node, TaskStatus::Success), n);
        },
        Some(i) => {
            let arm = arms[i as int];
            assert(arm < n);
            lemma_closed_children(p.nodes, arm);
            lemma_within_push(skipped, UpdateView::Status(arm, TaskStatus::Running), n);
            lemma_enters_ok(
                p,
                m,
                p.nodes[arm as int].children,
                ExitView::Arm { arm, switch: Some(node) },
            );
        },
    }
}

proof fn lemma_block_entered_ok(
    p: ProgramView,
    m: MachineView,
    node: usize,
    layer: Entries<Seq<char>>,
)
    requires
        at_child(p, m),
        node == current(m.top()),
        node < p.nodes.len(),
    ensures
        move_ok(p, block_entered(p, m, node, layer)),
{
    lemma_closed_children(p.nodes, node);
    let inner = MachineView {
        context: ContextView { layers: m.context.layers.push(layer), ..m.context },
        ..m
    };
    assert(at_child(p, inner));
    lemma_enters_ok(p, inner, p.nodes[node as int].children, ExitView::Env { node });
}

proof fn lemma_begun_ok(p: ProgramView, m: MachineView, node: usize)
    requires
        at_child(p, m),
        node == current(m.top()),
        node < p.nodes.len(),
    ensures
        move_ok(p, child_begun(p, m, node)),
{
    let n = p.nodes.len();
    let children = p.nodes[node as int].children;
    lemma_closed_children(p.nodes, node);
    match p.nodes[node as int].kind {
        NodeKindView::Env(pairs) => {
            lemma_block_entered_ok(p, m, node, Seq::empty());
        },
        NodeKindView::Arm(_) => {
            lemma_enters_ok(p, m, children, ExitView::Arm { arm: node, switch: None });
        },
        NodeKindView::Async => {
            let next = child_begun(p, m, node).machine;
            assert forall|i: int| 0 <= i < next.bodies.len() implies body_ok(
                #[trigger] next.bodies[i],
                n,
            ) by {
                assert(body_ok(m.bodies[i], n));
                if i == m.bodies.len() - 1 {
                    let started = m.top().started;
                    assert forall|k: int| 0 <= k < started.push(node).len() implies (
                    #[trigger] started.push(node)[k]) < n by {
                        if k < started.len() {
                            assert(started.push(node)[k] == started[k]);
                        }
                    }
                }
            }
            assert forall|i: int| 0 <= i < next.bodies.len() implies has_child(
                #[trigger] next.bodies[i],
            ) by {
                assert(has_child(m.bodies[i]));
            }
            assert forall|i: int| 0 <= i < next.bodies.len() implies ((#[trigger] next.bodies[i]).exit
                is Run <==> i == 0) by {
                assert(m.bodies[i].exit is Run <==> i == 0);
            }
            assert forall|i: int| 0 < i < next.bodies.len() implies exit_node(
                (#[trigger] next.bodies[i]).exit,
            ) == Some(current(next.bodies[i - 1])) by {
                assert(exit_node(m.bodies[i].exit) == Some(current(m.bodies[i - 1])));
            }
        },
        _ => {},
    }
}

proof fn lemma_text_known_ok(
    p: ProgramView,
    run: RunContextView,
    m: MachineView,
    node: usize,
    goal: GoalView,
    text: Seq<char>,
)
    requires
        at_child(p, m),
        node == current(m.top()),
        node < p.nodes.len(),
        goal_ok(p.nodes[node as int].kind, goal),
    ensures
        move_ok(p, text_known(p, run, m, node, goal, text)),
{
    let kind = p.nodes[node as int].kind;
    match kind {
        NodeKindView::Log(_) => {
            lemma_within_push(
                labelled(kind, node, text),
                UpdateView::Status(node, TaskStatus::Success),
                p.nodes.len(),
            );
        },
        NodeKindView::Switch(_) => {
            lemma_switched_ok(p, m, node, text);
        },
        NodeKindView::Project(_) => {
            lemma_project_named_ok(p, run, m, node, text);
        },
        NodeKindView::Env(pairs) => match goal {
            GoalView::Pair { index, layer } => {
                lemma_block_entered_ok(
                    p,
                    m,
                    node,
                    insert_entry(layer, pairs[index as int].key, text),
                );
            },
            GoalView::Statement => {},
        },
        _ => {},
    }
}

proof fn lemma_left_ok(
    p: ProgramView,
    m: MachineView,
    updates: Seq<UpdateView>,
    outcome: Outcome,
)
    requires
        machine_ok(p, m),
        m.bodies.len() > 0,
        updates_within(updates, p.nodes.len()),
    ensures
        move_ok(p, body_left(m, updates, outcome)),
{
    let n = p.nodes.len();
    assert(body_ok(m.bodies[m.bodies.len() - 1], n));
    assert(m.bodies[m.bodies.len() - 1].exit is Run <==> m.bodies.len() == 1);
    let outer = m.bodies.drop_last();
    assert forall|i: int| 0 <= i < outer.len() implies body_ok(#[trigger] outer[i], n) by {
        assert(outer[i] == m.bodies[i]);
    }
    assert forall|i: int| 0 <= i < outer.len() implies has_child(#[trigger] outer[i]) by {
        assert(outer[i] == m.bodies[i]);
    }
    assert forall|i: int| 0 <= i < outer.len() implies ((#[trigger] outer[i]).exit is Run <==> i
        == 0) by {
        assert(outer[i] == m.bodies[i]);
    }
    assert forall|i: int| 0 < i < outer.len() implies exit_node((#[trigger] outer[i]).exit) == Some(
        current(outer[i - 1]),
    ) by {
        assert(outer[i] == m.bodies[i]);
        assert(outer[i - 1] == m.bodies[i - 1]);
    }
    match m.top().exit {
        ExitView::Run => {},
        ExitView::Env { node } => {
            lemma_within_push(updates, UpdateView::Status(node, ended(outcome)), n);
        },
        ExitView::Arm { arm, switch } => {
            let own = updates.push(UpdateView::Status(arm, ended(outcome)));
            lemma_within_push(updates, UpdateView::Status(arm, ended(outcome)), n);
            if switch is Some {
                lemma_within_push(own, UpdateView::Status(switch->0, ended(outcome)), n);
            }
        },
        ExitView::Project { node, .. } => {
            lemma_within_push(updates, UpdateView::Status(node, ended(outcome)), n);
        },
    }
}

/// Every step keeps an execution sound: it only ever speaks of nodes of the
/// program.
pub proof fn law_steps_stay_sound(p: ProgramView, run: RunContextView, m: MachineView, e: EventView)
    requires
        machine_ok(p, m),
        answers(m, e),
    ensures
        move_ok(p, stepped(p, run, m, e)),
{
    let n = p.nodes.len();
    let top = m.top();
    assert(body_ok(m.bodies[m.bodies.len() - 1], n));
    if has_child(top) {
        assert forall|i: int| 0 <= i < m.bodies.len() implies has_child(
            #[trigger] m.bodies[i],
        ) by {
            if i == m.bodies.len() - 1 {
                assert(m.bodies[i] == top);
            }
        }
        assert(at_child(p, m));
        assert(top.children[top.next as int] < n);
    }
    match (m.at, e) {
        (AtView::Check, EventView::RunFailed(failed)) => {
            if failed {
                lemma_skip_within(top.children, top.next as int, n);
                lemma_marked_within(p, top.children.skip(top.next as int), TaskStatus::Cancelled);
            } else {
                let node = top.children[top.next as int];
                assert(node < n);
                lemma_begun_ok(p, m, node);
                lemma_within_join(
                    seq![UpdateView::Status(node, TaskStatus::Running)],
                    child_begun(p, m, node).updates,
                    n,
                );
            }
        },
        (AtView::Resolve { node, goal, outputs }, _) => {
            let template = template_for(p.nodes[node as int].kind, goal);
            match resolved(template, m.context.values, outputs, 0) {
                ResolvedView::Run { .. } => {},
                ResolvedView::Text { text, values, .. } => {
                    let inner = MachineView {
                        context: ContextView { values, ..m.context },
                        ..m
                    };
                    assert(at_child(p, inner));
                    lemma_text_known_ok(p, run, inner, node, goal, text);
                },
            }
        },
        (AtView::Capture { node, goal, outputs, cmd }, EventView::Captured(captured)) => {
            match captured {
                Err(error) => {
                    let template = template_for(p.nodes[node as int].kind, goal);
                    let values = values_after(resolved(template, m.context.values, outputs, 0));
                    let inner = MachineView {
                        context: ContextView { values, ..m.context },
                        ..m
                    };
                    assert(at_child(p, inner));
                    let why = RuntimeErrorView::Exec { cmd, detail: error.message() };
                    lemma_project_failed_ok(p, inner, node, why);
                    lemma_child_failed_ok(p, inner, node, why);
                },
                Ok(_) => {},
            }
        },
        (AtView::Live { node, cmd }, EventView::Exited(end)) => {
            match live_outcome(run, cmd, end) {
                Ok(_) => {},
                Err(error) => {
                    lemma_child_failed_ok(p, m, node, error);
                },
            }
        },
        (AtView::Dir { node, target }, EventView::DirChanged(change)) => {
            lemma_dir_ok(p, m, node, target, change);
        },
        (AtView::Allow { node, name }, EventView::Approved { end, lines }) => {
            match lookup(run.projects, name) {
                None => {
                    lemma_project_failed_ok(
                        p,
                        m,
                        node,
                        RuntimeErrorView::Lookup(unknown_project(name)),
                    );
                },
                Some(entry) => match allowed(invocation_of(entry.dir), end, lines, run.secs()) {
                    Ok(_) => {
                        lemma_project_entered_ok(p, m, node, name, entry.dir, entry.direnv);
                    },
                    Err(error) => {
                        lemma_project_failed_ok(p, m, node, error);
                    },
                },
            }
        },
        (AtView::Finished(outcome), _) => {
            lemma_child_left_ok(p, m, outcome);
        },
        (AtView::End(outcome), _) => {
            lemma_left_ok(p, m, Seq::empty(), outcome);
        },
        (AtView::Join(outcome), EventView::Joined(outcomes)) => {
            let updates = joins(top.started, outcomes);
            assert forall|i: int| 0 <= i < updates.len() implies (#[trigger] updates[i]).node()
                < n by {
                assert(top.started[i] < n);
            }
            lemma_left_ok(p, m, updates, joint_outcome(outcome, outcomes));
        },
        _ => {},
    }
}

proof fn lemma_skip_within(ids: Seq<usize>, k: int, n: nat)
    requires
        within(ids, n),
        0 <= k <= ids.len(),
    ensures
        within(ids.skip(k), n),
{
    assert forall|i: int| 0 <= i < ids.skip(k).len() implies (#[trigger] ids.skip(k)[i]) < n by {
        assert(ids.skip(k)[i] == ids[i + k]);
    }
}

proof fn lemma_dir_ok(
    p: ProgramView,
    m: MachineView,
    node: usize,
    target: Seq<char>,
    change: DirChangeView,
)
    requires
        at_child(p, m),
        node == current(m.top()),
        node < p.nodes.len(),
    ensures
        move_ok(p, dir_known(p, m, node, target, change)),
{
    match change {
        DirChangeView::Found(path) => {
            let inner = MachineView { context: ContextView { cwd: path, ..m.context }, ..m };
            assert(at_child(p, inner));
        },
        DirChangeView::Missing(why) => {
            lemma_child_failed_ok(
                p,
                m,
                node,
                RuntimeErrorView::Lookup("cd "@ + target + ": "@ + why),
            );
        },
        DirChangeView::NotADirectory => {
            lemma_child_failed_ok(
                p,
                m,
                node,
                RuntimeErrorView::Lookup("cd "@ + target + ": not a directory"@),
            );
        },
    }
}

proof fn lemma_child_left_ok(p: ProgramView, m: MachineView, outcome: Outcome)
    requires
        at_child(p, m),
    ensures
        move_ok(p, child_left(p, m, outcome)),
{
    let n = p.nodes.len();
    let top = m.top();
    let last = m.bodies.len() - 1;
    assert(body_ok(m.bodies[last], n));
    assert(has_child(m.bodies[last]));
    match outcome {
        Ok(_) => {
            let next = child_left(p, m, outcome).machine;
            assert forall|i: int| 0 <= i < next.bodies.len() implies body_ok(
                #[trigger] next.bodies[i],
                n,
            ) by {
                assert(body_ok(m.bodies[i], n));
            }
            assert forall|i: int| 0 <= i < next.bodies.len() - 1 implies has_child(
                #[trigger] next.bodies[i],
            ) by {
                assert(has_child(m.bodies[i]));
            }
            assert forall|i: int| 0 <= i < next.bodies.len() implies ((#[trigger] next.bodies[i]).exit
                is Run <==> i == 0) by {
                assert(m.bodies[i].exit is Run <==> i == 0);
            }
            assert forall|i: int| 0 < i < next.bodies.len() implies exit_node(
                (#[trigger] next.bodies[i]).exit,
            ) == Some(current(next.bodies[i - 1])) by {
                assert(exit_node(m.bodies[i].exit) == Some(current(m.bodies[i - 1])));
            }
        },
        Err(e) => {
            lemma_skip_within(top.children, top.next as int + 1, n);
            lemma_marked_within(p, top.children.skip(top.next as int + 1), TaskStatus::Cancelled);
        },
    }
}

} // verus!
