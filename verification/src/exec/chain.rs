//! Chains of calls: the calls of a chain run one after another, and chains run
//! beside each other.
use vstd::prelude::*;
use crate::exec::context::{project_exec_viewer, Command, ProjectExec, ProjectExecView};
use crate::exec::direnv::{allow_command, allowing};
use crate::exec::error::{outcome_view, Outcome, RuntimeError, RuntimeErrorView};
use crate::exec::machine::{update_views, Update, UpdateView};
use crate::exec::model::{line_views, TaskStatus};
use crate::exec::report::{outcome_updates, report_task_outcome, TaskOutcome, TaskOutcomeView};
use crate::ir::program::joined;
use crate::ir::{
    body_viewer, instruction_views, project_viewer, Instruction, InstructionView, Ir, IrView,
};
use crate::names::{lemma_map_lookup, lookup, Entries, NameMap};
use crate::plan::Call;

verus! {

broadcast use vstd::string::group_string_axioms;

// ── Rows ─────────────────────────────────────────────────────────────────────

/// The names of calls.
pub open spec fn call_names(calls: Seq<Call>) -> Seq<Seq<char>> {
    Seq::new(calls.len(), |i: int| calls[i].project@ + "::"@ + calls[i].function@)
}

/// A chain as it is shown: a label, and a row for each call.
#[derive(Debug, PartialEq)]
pub struct ChainRows {
    pub label: String,
    pub tasks: Vec<String>,
    /// The row of its first call.
    pub start: usize,
    /// The row at which it is shown that the chain broke off: that of its last
    /// call.
    pub report: usize,
}

/// How many calls the first `n` chains hold.
pub open spec fn calls_before(chains: Seq<Vec<Call>>, n: nat) -> nat
    decreases n,
{
    if n == 0 {
        0
    } else {
        calls_before(chains, (n - 1) as nat) + chains[n - 1]@.len()
    }
}

/// The place of the last of so many calls; the first place where there is none.
pub open spec fn last_of(len: nat) -> nat {
    if len == 0 {
        0
    } else {
        (len - 1) as nat
    }
}

fn names_of_calls(chain: &Vec<Call>) -> (r: Vec<String>)
    ensures
        line_views(r@) == call_names(chain@),
{
    let mut out: Vec<String> = Vec::new();
    let mut i: usize = 0;
    while i < chain.len()
        invariant
            i <= chain@.len(),
            out@.len() == i,
            forall|j: int| 0 <= j < i ==> (#[trigger] out@[j])@ == call_names(chain@)[j],
        decreases chain@.len() - i,
    {
        out.push(chain[i].fqn());
        i += 1;
    }
    assert(line_views(out@) =~= call_names(chain@));
    out
}

fn join_texts(texts: &Vec<String>, between: &str) -> (r: String)
    ensures
        r@ == joined(line_views(texts@), between@),
{
    let ghost views = line_views(texts@);
    let mut out = String::new();
    let mut i: usize = 0;
    proof {
        assert(views.take(0) =~= Seq::<Seq<char>>::empty());
        assert(out@ =~= Seq::<char>::empty());
    }
    while i < texts.len()
        invariant
            i <= texts@.len(),
            views == line_views(texts@),
            out@ == joined(views.take(i as int), between@),
        decreases texts@.len() - i,
    {
        let ghost next = views.take(i + 1);
        proof {
            assert(next.drop_last() =~= views.take(i as int));
            assert(next.last() == texts@[i as int]@);
        }
        if i > 0 {
            out.push_str(between);
        }
        out.push_str(texts[i].as_str());
        if i == 0 {
            assert(out@ =~= next[0]);
        }
        i += 1;
    }
    assert(views.take(i as int) =~= views);
    out
}

/// The chains as they are shown. The rows of a chain follow those of the chain
/// before it.
pub fn chain_rows(chains: &Vec<Vec<Call>>) -> (r: Vec<ChainRows>)
    requires
        calls_before(chains@, chains@.len()) <= usize::MAX,
    ensures
        r@.len() == chains@.len(),
        forall|i: int|
            0 <= i < r@.len() ==> {
                &&& line_views((#[trigger] r@[i]).tasks@) == call_names(chains@[i]@)
                &&& r@[i].label@ == joined(call_names(chains@[i]@), " => "@)
                &&& r@[i].start == calls_before(chains@, i as nat)
                &&& r@[i].report == r@[i].start + last_of(chains@[i]@.len())
            },
{
    let mut out: Vec<ChainRows> = Vec::new();
    let mut start: usize = 0;
    let mut i: usize = 0;
    while i < chains.len()
        invariant
            i <= chains@.len(),
            out@.len() == i,
            start == calls_before(chains@, i as nat),
            calls_before(chains@, chains@.len()) <= usize::MAX,
            forall|j: int|
                0 <= j < i ==> {
                    &&& line_views((#[trigger] out@[j]).tasks@) == call_names(chains@[j]@)
                    &&& out@[j].label@ == joined(call_names(chains@[j]@), " => "@)
                    &&& out@[j].start == calls_before(chains@, j as nat)
                    &&& out@[j].report == out@[j].start + last_of(chains@[j]@.len())
                },
        decreases chains@.len() - i,
    {
        let tasks = names_of_calls(&chains[i]);
        let label = join_texts(&tasks, " => ");
        proof {
            lemma_calls_grow(chains@, (i + 1) as nat, chains@.len());
        }
        let len: usize = chains[i].len();
        let report: usize = if len == 0 {
            start
        } else {
            start + (len - 1)
        };
        out.push(ChainRows { label, tasks, start, report });
        start = start + len;
        i += 1;
    }
    out
}

proof fn lemma_calls_grow(chains: Seq<Vec<Call>>, a: nat, b: nat)
    requires
        a <= b,
    ensures
        calls_before(chains, a) <= calls_before(chains, b),
    decreases b,
{
    if a < b {
        lemma_calls_grow(chains, a, (b - 1) as nat);
    }
}

// ── Calls ────────────────────────────────────────────────────────────────────

/// Where a call runs: in the directory of its project, or where the run was
/// started.
pub open spec fn place_of(
    projects: Entries<ProjectExecView>,
    invocation_cwd: Seq<char>,
    name: Seq<char>,
) -> ProjectExecView {
    match lookup(projects, name) {
        Some(p) => p,
        None => ProjectExecView { dir: invocation_cwd, direnv: false },
    }
}

/// Where a call runs.
pub fn resolve_project_env(
    projects: &NameMap<ProjectExec>,
    invocation_cwd: &str,
    project_name: &str,
) -> (r: ProjectExec)
    ensures
        r@ == place_of(
            crate::names::map_entries(projects@, project_exec_viewer()),
            invocation_cwd@,
            project_name@,
        ),
{
    proof {
        lemma_map_lookup(projects@, project_exec_viewer(), project_name@);
    }
    match projects.get(project_name) {
        Some(p) => ProjectExec { dir: p.dir.clone(), direnv: p.direnv },
        None => ProjectExec { dir: invocation_cwd.to_owned(), direnv: false },
    }
}

/// The body of a function, or what is not known of it.
pub open spec fn body_of(ir: IrView, function: Seq<char>, project: Seq<char>) -> Result<
    Seq<InstructionView>,
    RuntimeErrorView,
> {
    match lookup(ir.projects, project) {
        None => Err(RuntimeErrorView::Lookup("unknown project: "@ + project)),
        Some(p) => match lookup(p.functions, function) {
            None => Err(
                RuntimeErrorView::Lookup(
                    "unknown function "@ + function + " in project "@ + project,
                ),
            ),
            Some(body) => Ok(body),
        },
    }
}

/// Find the body of a function.
pub fn find_function<'a>(ir: &'a Ir, fn_name: &str, project_name: &str) -> (r: Result<
    &'a Vec<Instruction>,
    RuntimeError,
>)
    ensures
        body_of(ir@, fn_name@, project_name@) == match r {
            Ok(body) => Ok(instruction_views(body@)),
            Err(e) => Err(e@),
        },
{
    proof {
        lemma_map_lookup(ir.projects@, project_viewer(), project_name@);
    }
    match ir.projects.get(project_name) {
        None => {
            let mut msg = "unknown project: ".to_owned();
            msg.push_str(project_name);
            Err(RuntimeError::Lookup(msg))
        },
        Some(project) => {
            proof {
                lemma_map_lookup(project.functions@, body_viewer(), fn_name@);
            }
            match project.functions.get(fn_name) {
                None => {
                    let mut msg = "unknown function ".to_owned();
                    msg.push_str(fn_name);
                    msg.push_str(" in project ");
                    msg.push_str(project_name);
                    Err(RuntimeError::Lookup(msg))
                },
                Some(body) => Ok(body),
            }
        },
    }
}

/// The command that has to succeed before a call: the approval of the
/// environment of its project, where the project asks for it.
pub fn command_before_call(place: &ProjectExec) -> (r: Option<Command>)
    ensures
        match r {
            Some(c) => place@.direnv && c@ == allowing(place@.dir),
            None => !place@.direnv,
        },
{
    if place.direnv {
        Some(allow_command(place.dir.as_str()))
    } else {
        None
    }
}

/// The body of a call. Where the approval before it failed, its failure comes
/// before anything that is not known of the function.
pub fn body_after_approval<'a>(
    ir: &'a Ir,
    call: &Call,
    approval: Result<(), RuntimeError>,
) -> (r: Result<&'a Vec<Instruction>, RuntimeError>)
    ensures
        (match outcome_view(approval) {
            Err(e) => Err(e),
            Ok(_) => body_of(ir@, call@.function, call@.project),
        }) == match r {
            Ok(body) => Ok(instruction_views(body@)),
            Err(e) => Err(e@),
        },
{
    match approval {
        Err(e) => Err(e),
        Ok(_) => find_function(ir, call.function.as_str(), call.project.as_str()),
    }
}

// ── The execution of a chain ─────────────────────────────────────────────────

/// Where the execution of a chain stands.
#[derive(Debug, Clone, Copy, PartialEq, Eq, Structural)]
pub enum ChainAt {
    /// The run may have failed elsewhere.
    Checking,
    /// A call is being executed.
    Calling,
    /// The chain is over.
    Over,
}

/// The execution of a chain of `len` calls, whose rows start at `start`; it has
/// come to the call `next`.
#[derive(Debug, Clone, Copy, PartialEq, Eq, Structural)]
pub struct ChainRun {
    pub start: usize,
    pub len: usize,
    pub next: usize,
    pub at: ChainAt,
}

/// The answer to what a chain asks for.
#[derive(Debug)]
pub enum ChainEvent {
    /// Whether the run has failed.
    RunFailed(bool),
    /// How a call ended.
    Called(Result<(), RuntimeError>),
}

/// The contents of a [`ChainEvent`].
pub enum ChainEventView {
    RunFailed(bool),
    Called(Outcome),
}

impl ChainEvent {
    pub open spec fn view(&self) -> ChainEventView {
        match self {
            ChainEvent::RunFailed(b) => ChainEventView::RunFailed(*b),
            ChainEvent::Called(r) => ChainEventView::Called(outcome_view(*r)),
        }
    }
}

/// What a chain asks for.
#[derive(Debug)]
pub enum ChainAction {
    /// Find out whether the run has failed.
    CheckRun,
    /// Execute a call.
    Call(usize),
    /// Nothing more: the chain has ended. Where a call of its own failed, the
    /// run fails.
    Done { result: Result<(), RuntimeError>, fail_run: bool },
}

/// The contents of a [`ChainAction`].
pub enum ChainActionView {
    CheckRun,
    Call(usize),
    Done { result: Outcome, fail_run: bool },
}

impl ChainAction {
    pub open spec fn view(&self) -> ChainActionView {
        match self {
            ChainAction::CheckRun => ChainActionView::CheckRun,
            ChainAction::Call(i) => ChainActionView::Call(*i),
            ChainAction::Done { result, fail_run } => ChainActionView::Done {
                result: outcome_view(*result),
                fail_run: *fail_run,
            },
        }
    }
}

/// The updates that cancel the calls from one on.
pub open spec fn cancelled_from(c: ChainRun, from: nat) -> Seq<UpdateView> {
    Seq::new(
        (c.len - from) as nat,
        |i: int| UpdateView::Status((c.start + from + i) as usize, TaskStatus::Cancelled),
    )
}

/// Whether the rows of a chain can be counted.
pub open spec fn chain_ok(c: ChainRun) -> bool {
    c.start + c.len <= usize::MAX && c.next <= c.len && (c.at == ChainAt::Calling ==> c.next < c.len)
}

/// Whether an event answers what a chain asked for.
pub open spec fn chain_answers(c: ChainRun, e: ChainEventView) -> bool {
    match c.at {
        ChainAt::Checking => e is RunFailed,
        ChainAt::Calling => e is Called,
        ChainAt::Over => false,
    }
}

/// The step of a chain that follows an event. A call that fails ends the chain
/// and the run; once the run has failed, no call is started.
pub open spec fn chain_stepped(c: ChainRun, e: ChainEventView) -> (
    ChainRun,
    Seq<UpdateView>,
    ChainActionView,
) {
    let over = ChainRun { at: ChainAt::Over, ..c };
    match e {
        ChainEventView::RunFailed(failed) => if c.next >= c.len {
            (over, Seq::empty(), ChainActionView::Done { result: Ok(()), fail_run: false })
        } else if failed {
            (
                over,
                cancelled_from(c, c.next as nat),
                ChainActionView::Done {
                    result: Err(RuntimeErrorView::Cancelled("run failed in another chain"@)),
                    fail_run: false,
                },
            )
        } else {
            (
                ChainRun { at: ChainAt::Calling, ..c },
                seq![UpdateView::Status((c.start + c.next) as usize, TaskStatus::Running)],
                ChainActionView::Call(c.next),
            )
        },
        ChainEventView::Called(Ok(_)) => (
            ChainRun { next: (c.next + 1) as usize, at: ChainAt::Checking, ..c },
            outcome_updates((c.start + c.next) as usize, TaskOutcomeView::Success),
            ChainActionView::CheckRun,
        ),
        ChainEventView::Called(Err(error)) => (
            over,
            outcome_updates((c.start + c.next) as usize, TaskOutcomeView::Error(error))
                + cancelled_from(c, (c.next + 1) as nat),
            ChainActionView::Done { result: Err(error), fail_run: true },
        ),
    }
}

/// A chain ends only when every call has succeeded, or with the failure that
/// ended it; and it comes to its calls in order.
pub proof fn law_a_chain_takes_its_calls_in_order(c: ChainRun, e: ChainEventView)
    requires
        chain_ok(c),
        chain_answers(c, e),
    ensures
        ({
            let (next, updates, action) = chain_stepped(c, e);
            &&& chain_ok(next)
            &&& action matches ChainActionView::Call(i) ==> i == c.next
            &&& action matches ChainActionView::Done { result: Ok(_), .. } ==> c.next == c.len
            &&& next.next == c.next || (e matches ChainEventView::Called(Ok(_)) && next.next
                == c.next + 1)
        }),
{
}

impl ChainRun {
    /// The execution of a chain that has not started.
    pub fn new(start: usize, len: usize) -> (r: Self)
        requires
            start + len <= usize::MAX,
        ensures
            r == (ChainRun { start, len, next: 0, at: ChainAt::Checking }),
            chain_ok(r),
    {
        ChainRun { start, len, next: 0, at: ChainAt::Checking }
    }

    fn cancel_from(self, updates: &mut Vec<Update>, from: usize)
        requires
            chain_ok(self),
            from <= self.len,
        ensures
            update_views(final(updates)@) == update_views(old(updates)@) + cancelled_from(
                self,
                from as nat,
            ),
    {
        let ghost before = update_views(updates@);
        let ghost all = cancelled_from(self, from as nat);
        let mut i: usize = from;
        assert(before + all.take(0) =~= before);
        while i < self.len
            invariant
                from <= i <= self.len,
                chain_ok(self),
                all == cancelled_from(self, from as nat),
                update_views(updates@) == before + all.take(i - from),
            decreases self.len - i,
        {
            let ghost so_far = updates@;
            let update = Update::Status(self.start + i, TaskStatus::Cancelled);
            updates.push(update);
            proof {
                assert(update_views(so_far.push(update)) =~= update_views(so_far).push(update@));
                assert(all.take(i + 1 - from) =~= all.take(i - from).push(update@));
                assert(update_views(updates@) =~= before + all.take(i + 1 - from));
            }
            i += 1;
        }
        assert(all.take(i - from) =~= all);
    }

    /// Take in the answer to the last action, and go on to the next.
    pub fn step(self, event: ChainEvent) -> (r: (ChainRun, Vec<Update>, ChainAction))
        requires
            chain_ok(self),
            chain_answers(self, event@),
        ensures
            (r.0, update_views(r.1@), r.2@) == chain_stepped(self, event@),
            chain_ok(r.0),
    {
        let over = ChainRun { start: self.start, len: self.len, next: self.next, at: ChainAt::Over };
        let mut updates: Vec<Update> = Vec::new();
        assert(update_views(updates@) =~= Seq::<UpdateView>::empty());
        match event {
            ChainEvent::RunFailed(failed) => {
                if self.next >= self.len {
                    return (over, updates, ChainAction::Done { result: Ok(()), fail_run: false });
                }
                if failed {
                    self.cancel_from(&mut updates, self.next);
                    assert(update_views(updates@) =~= cancelled_from(self, self.next as nat));
                    let error = RuntimeError::Cancelled("run failed in another chain".to_owned());
                    (over, updates, ChainAction::Done { result: Err(error), fail_run: false })
                } else {
                    updates.push(Update::Status(self.start + self.next, TaskStatus::Running));
                    assert(update_views(updates@) =~= seq![
                        UpdateView::Status((self.start + self.next) as usize, TaskStatus::Running),
                    ]);
                    let calling = ChainRun {
                        start: self.start,
                        len: self.len,
                        next: self.next,
                        at: ChainAt::Calling,
                    };
                    (calling, updates, ChainAction::Call(self.next))
                }
            },
            ChainEvent::Called(Ok(_)) => {
                let (updates, _) = report_task_outcome(
                    self.start + self.next,
                    &TaskOutcome::Success,
                );
                let next = ChainRun {
                    start: self.start,
                    len: self.len,
                    next: self.next + 1,
                    at: ChainAt::Checking,
                };
                (next, updates, ChainAction::CheckRun)
            },
            ChainEvent::Called(Err(error)) => {
                let outcome = TaskOutcome::Error(error.duplicate());
                let (mut updates, _) = report_task_outcome(self.start + self.next, &outcome);
                self.cancel_from(&mut updates, self.next + 1);
                (over, updates, ChainAction::Done { result: Err(error), fail_run: true })
            },
        }
    }
}

} // verus!
