//! What the parts of a run do for it: chains and their calls, commands and their
//! output, templates and their values, approvals and syncs.
use vstd::prelude::*;
use crate::exec::chain::{
    body_of, call_names, calls_before, chain_ok, chain_stepped, place_of, ChainActionView, ChainAt,
    ChainEventView, ChainRun,
};
use crate::exec::context::ProjectExecView;
use crate::exec::direnv::{allowed, allowing};
use crate::exec::error::RuntimeErrorView;
use crate::exec::kill::SwitchView;
use crate::exec::machine::{applied, UpdateView};
use crate::exec::model::{NodeStateView, TaskStatus};
use crate::exec::report::{outcome_updates, panic_updates, TaskEnd, TaskOutcomeView};
use crate::exec::resolve::{resolved, resolved_parts, value_of, ResolvedView, ValuesView};
use crate::exec::subprocess::{
    captured, ends_line, exit_failure, reported, signed, supervised, without_line_end, ExitStatus,
    LineView, OrderView, Phase, ReportView, SubprocessErrorView, SubprocessExit, SupervisorView,
};
use crate::exec::sync::{
    after_space, done_count, git_args, git_command_of, git_ended, header_of, message_in, shown_beside,
    sync_row, ProjectSyncView,
};
use crate::ir::{IrView, SegmentView, TemplateView};
use crate::names::{lookup, Entries};
use crate::plan::Call;
use crate::text::{decimal, trimmed};

verus! {

broadcast use vstd::string::group_string_axioms;

// ── Chains ───────────────────────────────────────────────────────────────────

/// The state of a row after a step of a chain.
pub open spec fn row_after(
    states: Seq<NodeStateView>,
    c: ChainRun,
    e: ChainEventView,
    row: int,
) -> NodeStateView {
    applied(states, chain_stepped(c, e).1)[row]
}

proof fn lemma_statuses(
    states: Seq<NodeStateView>,
    updates: Seq<UpdateView>,
    from: int,
    status: TaskStatus,
    row: int,
)
    requires
        0 <= from,
        from + updates.len() <= states.len() <= usize::MAX,
        forall|i: int|
            0 <= i < updates.len() ==> #[trigger] updates[i] == UpdateView::Status(
                (from + i) as usize,
                status,
            ),
        0 <= row < states.len(),
    ensures
        applied(states, updates).len() == states.len(),
        from <= row < from + updates.len() ==> applied(states, updates)[row] == (NodeStateView {
            status,
            ..states[row]
        }),
        !(from <= row < from + updates.len()) ==> applied(states, updates)[row] == states[row],
    decreases updates.len(),
{
    if updates.len() > 0 {
        let init = updates.drop_last();
        assert forall|i: int| 0 <= i < init.len() implies #[trigger] init[i] == UpdateView::Status(
            (from + i) as usize,
            status,
        ) by {
            assert(init[i] == updates[i]);
        }
        lemma_statuses(states, init, from, status, row);
        let last = updates[updates.len() - 1];
        let at = from + updates.len() - 1;
        assert(last == UpdateView::Status(at as usize, status));
        lemma_statuses(states, init, from, status, at);
    }
}

/// The calls of a chain are made one after another. A call is made only while
/// the run has not failed, and it shows that it is running; the chain ends with
/// success just when there is no call left.
pub proof fn law_a_chain_makes_its_calls(
    c: ChainRun,
    failed: bool,
    states: Seq<NodeStateView>,
    row: int,
)
    requires
        chain_ok(c),
        c.at == ChainAt::Checking,
        c.start + c.len <= states.len() <= usize::MAX,
        0 <= row < states.len(),
    ensures
        ({
            let e = ChainEventView::RunFailed(failed);
            let (next, _, action) = chain_stepped(c, e);
            let after = row_after(states, c, e, row);
            if c.next == c.len {
                &&& action == ChainActionView::Done { result: Ok(()), fail_run: false }
                &&& after == states[row]
            } else if failed {
                &&& action matches ChainActionView::Done { result: Err(error), fail_run }
                    && error is Cancelled && !fail_run
                &&& next.at == ChainAt::Over
                &&& c.start + c.next <= row < c.start + c.len ==> after == (NodeStateView {
                    status: TaskStatus::Cancelled,
                    ..states[row]
                })
                &&& !(c.start + c.next <= row < c.start + c.len) ==> after == states[row]
            } else {
                &&& action == ChainActionView::Call(c.next)
                &&& next == (ChainRun { at: ChainAt::Calling, ..c })
                &&& row == c.start + c.next ==> after == (NodeStateView {
                    status: TaskStatus::Running,
                    ..states[row]
                })
                &&& row != c.start + c.next ==> after == states[row]
            }
        }),
{
    let e = ChainEventView::RunFailed(failed);
    let updates = chain_stepped(c, e).1;
    if c.next < c.len {
        let status = if failed {
            TaskStatus::Cancelled
        } else {
            TaskStatus::Running
        };
        lemma_statuses(states, updates, c.start + c.next, status, row);
    }
}

/// A call that succeeds is shown as a success, and the chain goes on to the next
/// one. A call that fails is shown as a failure, which says why unless the call
/// ran for too long; what follows it in the chain is cancelled; and the chain
/// and the run end with its failure.
pub proof fn law_a_call_that_fails_ends_its_chain(
    c: ChainRun,
    outcome: Result<(), RuntimeErrorView>,
    states: Seq<NodeStateView>,
    row: int,
)
    requires
        chain_ok(c),
        c.at == ChainAt::Calling,
        c.start + c.len <= states.len() <= usize::MAX,
        0 <= row < states.len(),
    ensures
        ({
            let e = ChainEventView::Called(outcome);
            let (next, _, action) = chain_stepped(c, e);
            let after = row_after(states, c, e, row);
            match outcome {
                Ok(_) => {
                    &&& action == ChainActionView::CheckRun
                    &&& next.next == c.next + 1 && next.at == ChainAt::Checking && next.start
                        == c.start && next.len == c.len
                    &&& row == c.start + c.next ==> after == (NodeStateView {
                        status: TaskStatus::Success,
                        ..states[row]
                    })
                    &&& row != c.start + c.next ==> after == states[row]
                },
                Err(error) => {
                    &&& action == ChainActionView::Done { result: Err(error), fail_run: true }
                    &&& next.at == ChainAt::Over
                    &&& row == c.start + c.next ==> after == (NodeStateView {
                        status: TaskStatus::Error,
                        output: if error is Timeout {
                            states[row].output
                        } else {
                            states[row].output.push("Error: "@ + error.message())
                        },
                        ..states[row]
                    })
                    &&& c.start + c.next < row < c.start + c.len ==> after == (NodeStateView {
                        status: TaskStatus::Cancelled,
                        ..states[row]
                    })
                    &&& !(c.start + c.next <= row < c.start + c.len) ==> after == states[row]
                },
            }
        }),
{
    let at = (c.start + c.next) as usize;
    match outcome {
        Ok(_) => {
            law_the_end_of_a_task_is_shown(at, TaskOutcomeView::Success, states, row);
        },
        Err(error) => {
            let own = outcome_updates(at, TaskOutcomeView::Error(error));
            let all = chain_stepped(c, ChainEventView::Called(outcome)).1;
            let rest = all.skip(own.len() as int);
            assert(all =~= own + rest);
            law_the_end_of_a_task_is_shown(at, TaskOutcomeView::Error(error), states, row);
            crate::exec::machine::meaning::law_updates_are_carried_out_in_order(states, own, rest);
            lemma_statuses(
                applied(states, own),
                rest,
                c.start + c.next + 1,
                TaskStatus::Cancelled,
                row,
            );
        },
    }
}

/// The rows of the chains lie one after another: those of a chain are as many as
/// its calls, and no two chains share one.
pub proof fn law_every_chain_has_rows_of_its_own(chains: Seq<Vec<Call>>, i: nat, j: nat)
    requires
        i < j <= chains.len(),
    ensures
        calls_before(chains, 0) == 0,
        calls_before(chains, i + 1) == calls_before(chains, i) + chains[i as int]@.len(),
        calls_before(chains, i) + chains[i as int]@.len() <= calls_before(chains, j),
    decreases j,
{
    if i + 1 < j {
        law_every_chain_has_rows_of_its_own(chains, i, (j - 1) as nat);
    }
}

/// A call runs in the directory of its project and, where the project asks for
/// it, in its environment; the call of a project without a directory runs where
/// the run was started.
pub proof fn law_a_call_runs_in_its_project(
    projects: Entries<ProjectExecView>,
    cwd: Seq<char>,
    name: Seq<char>,
)
    ensures
        lookup(projects, name) is Some ==> Some(place_of(projects, cwd, name)) == lookup(
            projects,
            name,
        ),
        lookup(projects, name) is None ==> place_of(projects, cwd, name).dir == cwd && !place_of(
            projects,
            cwd,
            name,
        ).direnv,
{
}

/// A call runs the body of its own function in its own project. It is a failure
/// just where there is no such function.
pub proof fn law_a_call_runs_its_function(ir: IrView, function: Seq<char>, project: Seq<char>)
    ensures
        ({
            let known = lookup(ir.projects, project) is Some && lookup(
                lookup(ir.projects, project)->Some_0.functions,
                function,
            ) is Some;
            &&& body_of(ir, function, project) is Ok <==> known
            &&& known ==> lookup(lookup(ir.projects, project)->Some_0.functions, function) == Some(
                body_of(ir, function, project)->Ok_0,
            )
            &&& !known ==> body_of(ir, function, project)->Err_0 is Lookup
        }),
{
}

// ── Tasks ────────────────────────────────────────────────────────────────────

/// The end of a task is shown on its row and on no other: a success as a success,
/// anything else as an error, with a line that says why. That a command ran for
/// too long has been said before.
pub proof fn law_the_end_of_a_task_is_shown(
    index: usize,
    outcome: TaskOutcomeView,
    states: Seq<NodeStateView>,
    row: int,
)
    requires
        index < states.len(),
        0 <= row < states.len(),
    ensures
        ({
            let after = applied(states, outcome_updates(index, outcome));
            &&& after.len() == states.len()
            &&& row != index ==> after[row] == states[row]
            &&& row == index ==> after[row] == (NodeStateView {
                status: if outcome is Success {
                    TaskStatus::Success
                } else {
                    TaskStatus::Error
                },
                output: match outcome {
                    TaskOutcomeView::Success => states[row].output,
                    TaskOutcomeView::Error(e) => if e is Timeout {
                        states[row].output
                    } else {
                        states[row].output.push("Error: "@ + e.message())
                    },
                    TaskOutcomeView::Panic(e) => states[row].output.push("Task panicked: "@ + e),
                },
                ..states[row]
            })
        }),
{
    let updates = outcome_updates(index, outcome);
    assert(updates.take(1).drop_last() =~= Seq::<UpdateView>::empty());
    reveal_with_fuel(applied, 3);
    if updates.len() == 1 {
        assert(updates.drop_last() =~= Seq::<UpdateView>::empty());
    } else {
        assert(updates.drop_last() =~= updates.take(1));
        assert(updates.take(1)[0] == updates[0]);
    }
}

/// Of the tasks that were waited for, those that broke off are told of, in their
/// order, and no others.
pub proof fn law_broken_tasks_are_told_of(ends: Seq<TaskEnd>, last: TaskEnd)
    ensures
        panic_updates(Seq::empty()).len() == 0,
        last.outcome@ is Panic ==> panic_updates(ends.push(last)) == panic_updates(ends)
            + outcome_updates(last.index, last.outcome@),
        !(last.outcome@ is Panic) ==> panic_updates(ends.push(last)) == panic_updates(ends),
{
    assert(ends.push(last).drop_last() =~= ends);
    assert(panic_updates(ends) + Seq::<UpdateView>::empty() =~= panic_updates(ends));
}

// ── Commands ─────────────────────────────────────────────────────────────────

/// A number is written with its sign: two numbers are never written alike.
pub proof fn law_signed_numbers_are_told_apart(a: int, b: int)
    requires
        signed(a) == signed(b),
    ensures
        a == b,
{
    reveal_strlit("-");
    let x = if a < 0 {
        -a
    } else {
        a
    };
    let y = if b < 0 {
        -b
    } else {
        b
    };
    crate::text::lemma_decimal_is_digits(x as nat);
    crate::text::lemma_decimal_is_digits(y as nat);
    crate::text::law_decimal_read_back(x as nat, (x + y) as nat);
    crate::text::law_decimal_read_back(y as nat, (x + y) as nat);
    if a < 0 {
        assert(signed(a)[0] == '-');
        assert(signed(a).skip(1) =~= decimal(x as nat));
    } else {
        assert(crate::text::is_digit(signed(a)[0]));
    }
    if b < 0 {
        assert(signed(b)[0] == '-');
        assert(signed(b).skip(1) =~= decimal(y as nat));
    } else {
        assert(crate::text::is_digit(signed(b)[0]));
    }
}

/// The end of a process is described by its signal, or else by its code.
pub proof fn law_the_end_of_a_process_is_described(n: i32, code: Option<i32>)
    ensures
        exit_failure(ExitStatus { signal: Some(n), code }) == "terminated by signal "@ + signed(
            n as int,
        ),
        exit_failure(ExitStatus { signal: None, code: Some(n) }) == "exited with code "@ + signed(
            n as int,
        ),
        exit_failure(ExitStatus { signal: None, code: None }) == "exited abnormally"@,
{
}

/// What a command wrote to its output stream is captured line by line, in order;
/// what it wrote to the other stream is not.
pub proof fn law_the_output_stream_is_captured(a: Seq<LineView>, b: Seq<LineView>, s: Seq<char>)
    ensures
        captured(Seq::empty()) == Seq::<char>::empty(),
        captured(seq![LineView::Stdout(s)]) == s.push('\n'),
        captured(seq![LineView::Stderr(s)]) == Seq::<char>::empty(),
        captured(a + b) == captured(a) + captured(b),
    decreases b.len(),
{
    reveal_strlit("\n");
    reveal_with_fuel(captured, 2);
    let none = Seq::<LineView>::empty();
    assert(seq![LineView::Stdout(s)].drop_last() =~= none);
    assert(seq![LineView::Stderr(s)].drop_last() =~= none);
    assert(captured(none) =~= Seq::<char>::empty());
    assert(Seq::<char>::empty() + (s + "\n"@) =~= s.push('\n'));
    assert(Seq::<char>::empty() + Seq::<char>::empty() =~= Seq::<char>::empty());
    if b.len() == 0 {
        assert(a + b =~= a);
        assert(captured(a) + captured(b) =~= captured(a));
    } else {
        law_the_output_stream_is_captured(a, b.drop_last(), s);
        assert((a + b).drop_last() =~= a + b.drop_last());
        assert((a + b).last() == b.last());
        let more = match b.last() {
            LineView::Stdout(s) => s + "\n"@,
            LineView::Stderr(_) => Seq::empty(),
        };
        assert(captured(b) == captured(b.drop_last()) + more);
        assert(captured(a) + captured(b.drop_last()) + more =~= captured(a) + captured(b));
    }
}

/// What a command wrote to either stream is reported line by line, in order.
pub proof fn law_both_streams_are_reported(a: Seq<LineView>, b: Seq<LineView>, s: Seq<char>)
    ensures
        reported(Seq::empty()) == Seq::<char>::empty(),
        reported(seq![LineView::Stdout(s)]) == s.push('\n'),
        reported(seq![LineView::Stderr(s)]) == s.push('\n'),
        reported(a + b) == reported(a) + reported(b),
    decreases b.len(),
{
    reveal_strlit("\n");
    reveal_with_fuel(reported, 2);
    let none = Seq::<LineView>::empty();
    assert(seq![LineView::Stdout(s)].drop_last() =~= none);
    assert(seq![LineView::Stderr(s)].drop_last() =~= none);
    assert(reported(none) =~= Seq::<char>::empty());
    assert(Seq::<char>::empty() + (s + "\n"@) =~= s.push('\n'));
    if b.len() == 0 {
        assert(a + b =~= a);
        assert(reported(a) + reported(b) =~= reported(a));
    } else {
        law_both_streams_are_reported(a, b.drop_last(), s);
        assert((a + b).drop_last() =~= a + b.drop_last());
        assert((a + b).last() == b.last());
        let more = b.last().text() + "\n"@;
        assert(reported(b) == reported(b.drop_last()) + more);
        assert(reported(a) + reported(b.drop_last()) + more =~= reported(a) + reported(b));
    }
}

/// Of a line just the line breaks at its end are taken off, all of them.
pub proof fn law_line_ends_are_taken_off(bytes: Seq<u8>)
    ensures
        ({
            let line = without_line_end(bytes);
            &&& line.len() <= bytes.len()
            &&& line == bytes.take(line.len() as int)
            &&& line.len() > 0 ==> line.last() != 10 && line.last() != 13
            &&& forall|i: int|
                line.len() <= i < bytes.len() ==> #[trigger] bytes[i] == 10 || bytes[i] == 13
        }),
    decreases bytes.len(),
{
    if bytes.len() > 0 && ends_line(bytes.last()) {
        let init = bytes.drop_last();
        law_line_ends_are_taken_off(init);
        let line = without_line_end(init);
        assert(line =~= bytes.take(line.len() as int));
        assert forall|i: int| line.len() <= i < bytes.len() implies #[trigger] bytes[i] == 10
            || bytes[i] == 13 by {
            if i < init.len() {
                assert(init[i] == bytes[i]);
            }
        }
    } else {
        assert(without_line_end(bytes) =~= bytes.take(bytes.len() as int));
    }
}

/// The supervision of a command after it has written lines.
pub open spec fn after_lines(s: SupervisorView, switch: SwitchView, lines: Seq<LineView>) -> SupervisorView
    decreases lines.len(),
{
    if lines.len() == 0 {
        s
    } else {
        supervised(
            after_lines(s, switch, lines.drop_last()),
            switch,
            ReportView::Line(lines.last()),
        ).0
    }
}

/// What was written to the error stream, each line with a line break.
pub open spec fn complained(lines: Seq<LineView>) -> Seq<char>
    decreases lines.len(),
{
    if lines.len() == 0 {
        Seq::empty()
    } else {
        complained(lines.drop_last()) + match lines.last() {
            LineView::Stdout(_) => Seq::empty(),
            LineView::Stderr(s) => s.push('\n'),
        }
    }
}

proof fn lemma_after_lines(s: SupervisorView, switch: SwitchView, lines: Seq<LineView>, pgid: i32)
    requires
        s.phase == (Phase::Watching { pgid }),
    ensures
        ({
            let after = after_lines(s, switch, lines);
            &&& after.phase == s.phase && after.timed == s.timed && after.command == s.command
            &&& s.timed ==> after.partial_stdout == s.partial_stdout + captured(lines)
            &&& s.timed ==> after.partial_stderr == s.partial_stderr + complained(lines)
        }),
    decreases lines.len(),
{
    reveal_strlit("\n");
    if lines.len() == 0 {
        assert(s.partial_stdout + captured(lines) =~= s.partial_stdout);
        assert(s.partial_stderr + complained(lines) =~= s.partial_stderr);
    } else {
        let init = lines.drop_last();
        lemma_after_lines(s, switch, init, pgid);
        let before = after_lines(s, switch, init);
        let after = after_lines(s, switch, lines);
        assert(after == supervised(before, switch, ReportView::Line(lines.last())).0);
        if s.timed {
            assert(after.partial_stdout =~= s.partial_stdout + captured(lines));
            assert(after.partial_stderr =~= s.partial_stderr + complained(lines));
        }
    }
}

/// A command that is started is counted among the groups of the run. Its output
/// is read to the end; it is waited for, and its end is its own status. The run
/// had stopped it just where it ended by a signal and its group was stopped.
pub proof fn law_a_command_is_watched_to_its_end(
    s: SupervisorView,
    switch: SwitchView,
    pgid: i32,
    lines: Seq<LineView>,
    later: SwitchView,
    status: ExitStatus,
)
    requires
        s.phase == Phase::Spawning,
        !switch.failed,
    ensures
        ({
            let (s1, w1, o1) = supervised(s, switch, ReportView::Spawned(pgid));
            let s2 = after_lines(s1, w1, lines);
            let (s3, w3, o3) = supervised(s2, w1, ReportView::Closed);
            let (s4, w4, o4) = supervised(s3, later, ReportView::Waited(status));
            &&& o1 == OrderView::Receive
            &&& w1.groups == switch.groups.insert(pgid)
            &&& w1.killed == switch.killed && !w1.failed
            &&& forall|line: LineView|
                (#[trigger] supervised(s2, w1, ReportView::Line(line))).2 == OrderView::Receive
            &&& o3 == OrderView::Wait && w3 == w1
            &&& o4 == OrderView::Done(
                Ok(
                    SubprocessExit {
                        status,
                        killed_by_switch: status.signal is Some && later.killed.contains(pgid),
                    },
                ),
            )
            &&& w4.groups == later.groups.remove(pgid)
            &&& w4.killed == later.killed && w4.failed == later.failed
        }),
{
    let (s1, w1, _) = supervised(s, switch, ReportView::Spawned(pgid));
    lemma_after_lines(s1, w1, lines, pgid);
}

/// A command that ran for too long is stopped, and its end is a timeout, which
/// keeps all that it had written, however it ended.
pub proof fn law_a_command_that_ran_for_too_long_is_stopped(
    s: SupervisorView,
    switch: SwitchView,
    pgid: i32,
    lines: Seq<LineView>,
    end: ReportView,
)
    requires
        s.phase == Phase::Spawning,
        s.timed,
        s.partial_stdout.len() == 0,
        s.partial_stderr.len() == 0,
        !switch.failed,
        end is Waited || end is WaitFailed,
    ensures
        ({
            let (s1, w1, _) = supervised(s, switch, ReportView::Spawned(pgid));
            let s2 = after_lines(s1, w1, lines);
            let (s3, w3, o3) = supervised(s2, w1, ReportView::Expired);
            let (s4, w4, o4) = supervised(s3, w3, end);
            &&& o3 == OrderView::Terminate && w3 == w1
            &&& o4 == OrderView::Done(
                Err(
                    SubprocessErrorView::Timeout {
                        command: s.command,
                        partial_stdout: captured(lines),
                        partial_stderr: complained(lines),
                    },
                ),
            )
            &&& w4.groups == w1.groups.remove(pgid)
        }),
{
    let (s1, w1, _) = supervised(s, switch, ReportView::Spawned(pgid));
    lemma_after_lines(s1, w1, lines, pgid);
    assert(s1.partial_stdout + captured(lines) =~= captured(lines));
    assert(s1.partial_stderr + complained(lines) =~= complained(lines));
}

/// A command that could not be started, or not be waited for, did not run.
pub proof fn law_a_command_that_does_not_start_fails(
    s: SupervisorView,
    switch: SwitchView,
    e: Seq<char>,
)
    ensures
        s.phase == Phase::Spawning ==> supervised(s, switch, ReportView::NotSpawned(e)).2
            == OrderView::Done(Err(SubprocessErrorView::Spawn(e))) && supervised(
            s,
            switch,
            ReportView::NotSpawned(e),
        ).1 == switch,
        s.phase is Ending ==> supervised(s, switch, ReportView::WaitFailed(e)).2
            == OrderView::Done(Err(SubprocessErrorView::Spawn(e))),
{
}

// ── Templates ────────────────────────────────────────────────────────────────

/// The text of a template is put together from its pieces in order: each goes on
/// with the values and the outputs that the ones before it left. Where a command
/// has to be run first, nothing after it is looked at.
pub proof fn law_a_text_is_put_together_in_order(
    a: Seq<SegmentView>,
    b: Seq<SegmentView>,
    values: ValuesView,
    outputs: Seq<Seq<char>>,
    used: nat,
)
    ensures
        resolved_parts(a + b, values, outputs, used) == match resolved_parts(
            a,
            values,
            outputs,
            used,
        ) {
            ResolvedView::Run { cmd, values } => ResolvedView::Run { cmd, values },
            ResolvedView::Text { text: first, values, used } => match resolved_parts(
                b,
                values,
                outputs,
                used,
            ) {
                ResolvedView::Run { cmd, values } => ResolvedView::Run { cmd, values },
                ResolvedView::Text { text, values, used } => ResolvedView::Text {
                    text: first + text,
                    values,
                    used,
                },
            },
        },
    decreases b.len(),
{
    let none = Seq::<SegmentView>::empty();
    if b.len() == 0 {
        assert(a + b =~= a);
        assert(b =~= none);
        match resolved_parts(a, values, outputs, used) {
            ResolvedView::Text { text, .. } => {
                assert(text + Seq::<char>::empty() =~= text);
            },
            _ => {},
        }
    } else {
        let init = b.drop_last();
        law_a_text_is_put_together_in_order(a, init, values, outputs, used);
        assert((a + b).drop_last() =~= a + init);
        assert((a + b).last() == b.last());
        match resolved_parts(a, values, outputs, used) {
            ResolvedView::Text { text: first, values: v1, used: u1 } => {
                match resolved_parts(init, v1, outputs, u1) {
                    ResolvedView::Text { text: second, values: v2, used: u2 } => {
                        lemma_one_more(a + b, values, outputs, used, first + second, v2, u2);
                        lemma_one_more(b, v1, outputs, u1, second, v2, u2);
                        match resolved_parts(seq![b.last()], v2, outputs, u2) {
                            ResolvedView::Text { text: third, .. } => {
                                assert(first + second + third =~= first + (second + third));
                            },
                            _ => {},
                        }
                    },
                    _ => {},
                }
            },
            _ => {},
        }
    }
}

proof fn lemma_one_more(
    parts: Seq<SegmentView>,
    values: ValuesView,
    outputs: Seq<Seq<char>>,
    used: nat,
    text: Seq<char>,
    v: ValuesView,
    u: nat,
)
    requires
        parts.len() > 0,
        resolved_parts(parts.drop_last(), values, outputs, used) == (ResolvedView::Text {
            text,
            values: v,
            used: u,
        }),
    ensures
        resolved_parts(parts, values, outputs, used) == match resolved_parts(
            seq![parts.last()],
            v,
            outputs,
            u,
        ) {
            ResolvedView::Run { cmd, values } => ResolvedView::Run { cmd, values },
            ResolvedView::Text { text: more, values, used } => ResolvedView::Text {
                text: text + more,
                values,
                used,
            },
        },
{
    law_what_a_piece_gives(parts.last(), v, outputs, u);
    let one = seq![parts.last()];
    assert(one.last() == parts.last());
}

/// What a piece of a template gives: a literal its own text; a command the next
/// output, or itself, to be run, where there is none; a variable its value, which
/// is known from then on and is not worked out again.
pub proof fn law_what_a_piece_gives(
    piece: SegmentView,
    values: ValuesView,
    outputs: Seq<Seq<char>>,
    used: nat,
)
    ensures
        ({
            let r = resolved_parts(seq![piece], values, outputs, used);
            match piece {
                SegmentView::Lit(s) => r == (ResolvedView::Text { text: s, values, used }),
                SegmentView::Cmd(t) => r == run_or_read(resolved(t, values, outputs, used), outputs),
                SegmentView::CmdAt { template, .. } => r == run_or_read(
                    resolved(template, values, outputs, used),
                    outputs,
                ),
                SegmentView::Ref { id, template } => match value_of(values, id) {
                    Some(text) => r == (ResolvedView::Text { text, values, used }),
                    None => match resolved(template, values, outputs, used) {
                        ResolvedView::Run { cmd, values } => r == (ResolvedView::Run {
                            cmd,
                            values,
                        }),
                        ResolvedView::Text { text, values, used } => {
                            &&& r matches ResolvedView::Text { text: t, values: v, used: u }
                            &&& t == text && u == used && v == values.push((id, text))
                            &&& value_of(v, id) == Some(text)
                        },
                    },
                },
            }
        }),
{
    let one = seq![piece];
    let none = Seq::<SegmentView>::empty();
    let no_text = Seq::<char>::empty();
    assert(one.drop_last() =~= none);
    assert(one.last() == piece);
    assert(resolved_parts(none, values, outputs, used) == (ResolvedView::Text {
        text: no_text,
        values,
        used,
    }));
    match piece {
        SegmentView::Lit(s) => {
            assert(no_text + s =~= s);
        },
        SegmentView::Cmd(t) => {
            match resolved(t, values, outputs, used) {
                ResolvedView::Text { used: u, .. } => {
                    if u < outputs.len() {
                        assert(no_text + outputs[u as int] =~= outputs[u as int]);
                    }
                },
                _ => {},
            }
        },
        SegmentView::CmdAt { template, .. } => {
            match resolved(template, values, outputs, used) {
                ResolvedView::Text { used: u, .. } => {
                    if u < outputs.len() {
                        assert(no_text + outputs[u as int] =~= outputs[u as int]);
                    }
                },
                _ => {},
            }
        },
        SegmentView::Ref { id, template } => {
            match value_of(values, id) {
                Some(text) => {
                    assert(no_text + text =~= text);
                },
                None => {
                    match resolved(template, values, outputs, used) {
                        ResolvedView::Text { text, values: v, .. } => {
                            assert(no_text + text =~= text);
                            law_the_last_value_counts(v, id, text, id);
                        },
                        _ => {},
                    }
                },
            }
        },
    }
}

/// The command of a text is run, unless its output is there.
pub open spec fn run_or_read(command: ResolvedView, outputs: Seq<Seq<char>>) -> ResolvedView {
    match command {
        ResolvedView::Text { text, values, used } if used < outputs.len() => ResolvedView::Text {
            text: outputs[used as int],
            values,
            used: used + 1,
        },
        ResolvedView::Text { text, values, .. } => ResolvedView::Run { cmd: text, values },
        run => run,
    }
}

/// A template is resolved as its pieces are.
pub proof fn law_a_template_is_its_pieces(
    t: TemplateView,
    values: ValuesView,
    outputs: Seq<Seq<char>>,
    used: nat,
)
    ensures
        resolved(t, values, outputs, used) == resolved_parts(t.parts, values, outputs, used),
{
}

/// A value that has become known is the value of its variable, and of no other.
pub proof fn law_the_last_value_counts(values: ValuesView, id: nat, value: Seq<char>, other: nat)
    ensures
        value_of(Seq::empty(), other) is None,
        value_of(values.push((id, value)), other) == if other == id {
            Some(value)
        } else {
            value_of(values, other)
        },
{
    assert(values.push((id, value)).drop_last() =~= values);
}

// ── Approvals and syncs ──────────────────────────────────────────────────────

/// The approval of an environment is asked for the directory itself, and it is
/// given just where the command succeeds and the run had not stopped it.
pub proof fn law_an_approval_is_a_success(
    dir: Seq<char>,
    invocation: Seq<char>,
    end: Result<SubprocessExit, SubprocessErrorView>,
    lines: Seq<LineView>,
    secs: u64,
)
    ensures
        allowing(dir).argv == seq!["direnv"@, "allow"@, dir],
        allowing(dir).dir is None,
        allowing(dir).env.len() == 0,
        ({
            let r = allowed(invocation, end, lines, secs);
            &&& r is Ok <==> (end matches Ok(exit) && exit.status.code == Some(0i32)
                && !exit.killed_by_switch)
            &&& (r matches Err(e) && e is Timeout) <==> (end matches Err(e) && e is Timeout)
            &&& (r matches Err(e) && e is Cancelled) <==> (end matches Ok(exit)
                && exit.killed_by_switch)
            &&& r matches Err(RuntimeErrorView::Timeout { cmd, secs: s }) ==> s == secs
            &&& r matches Err(RuntimeErrorView::Exec { cmd, .. }) ==> cmd == invocation
        }),
{
}

/// A project without a repository is cloned from its address into its directory;
/// one that has a repository is brought up to date there. A branch is named just
/// where the project has one.
pub proof fn law_a_project_is_cloned_or_pulled(p: ProjectSyncView, exists: bool)
    ensures
        ({
            let args = git_args(p, exists);
            &&& git_command_of(p, exists).argv == args
            &&& git_command_of(p, exists).dir is None
            &&& git_command_of(p, exists).env.len() == 0
            &&& args[0] == "git"@
            &&& exists ==> {
                &&& args[1] == "-C"@ && args[2] == p.dir
                &&& args[3] == "pull"@ && args[4] == "--ff-only"@
                &&& p.branch.len() == 0 ==> args.len() == 5
                &&& p.branch.len() > 0 ==> args.len() == 7 && args[5] == "origin"@ && args[6]
                    == p.branch
            }
            &&& !exists ==> {
                &&& args[1] == "clone"@
                &&& args[args.len() - 2] == p.url && args[args.len() - 1] == p.dir
                &&& p.branch.len() == 0 ==> args.len() == 4
                &&& p.branch.len() > 0 ==> args.len() == 6 && args[2] == "-b"@ && args[3]
                    == p.branch
            }
        }),
{
}

/// The sync of a project succeeds just where its command does.
pub proof fn law_a_sync_succeeds_with_its_command(
    cmd: Seq<char>,
    end: Result<SubprocessExit, SubprocessErrorView>,
)
    ensures
        git_ended(cmd, end) is Ok <==> (end matches Ok(exit) && exit.status.code == Some(0i32)),
        git_ended(cmd, end) matches Err(e) ==> e is Exec && e->Exec_cmd == cmd,
{
}

/// What follows the first space of a text.
pub proof fn law_what_follows_the_first_space(word: Seq<char>, rest: Seq<char>)
    requires
        !word.contains(' '),
    ensures
        after_space(word + seq![' '] + rest) == rest,
        after_space(word) == word,
    decreases word.len(),
{
    let s = word + seq![' '] + rest;
    assert(s[word.len() as int] == ' ');
    assert(s.contains(' '));
    if word.len() == 0 {
        assert(s.skip(1) =~= rest);
    } else {
        assert(word.contains(word[0]));
        assert(s[0] == word[0]);
        let tail = word.skip(1);
        assert forall|i: int| 0 <= i < tail.len() implies tail[i] != ' ' by {
            assert(word.contains(word[i + 1]));
        }
        law_what_follows_the_first_space(tail, rest);
        assert(s.skip(1) =~= tail + seq![' '] + rest);
    }
}

/// The count above the projects is that of those that have ended.
pub proof fn law_ended_projects_are_counted(states: Seq<NodeStateView>, last: NodeStateView)
    ensures
        done_count(Seq::empty()) == 0,
        done_count(states.push(last)) == done_count(states) + (if last.status
            == TaskStatus::Pending || last.status == TaskStatus::Running {
            0nat
        } else {
            1
        }),
{
    assert(states.push(last).drop_last() =~= states);
}

/// What is said of a command that ran for too long: its name, and what it wrote to
/// the error stream or, where that is blank, to the other; and of one that did
/// not start, why.
pub proof fn law_what_is_said_of_a_timeout(
    command: Seq<char>,
    partial_stdout: Seq<char>,
    partial_stderr: Seq<char>,
)
    ensures
        ({
            let said = (SubprocessErrorView::Timeout {
                command,
                partial_stdout,
                partial_stderr,
            }).message();
            let start = "command timed out: "@ + command;
            let (out, err) = (trimmed(partial_stdout), trimmed(partial_stderr));
            &&& err.len() > 0 ==> said == start + ": "@ + err
            &&& err.len() == 0 && out.len() > 0 ==> said == start + ": "@ + out
            &&& err.len() == 0 && out.len() == 0 ==> said == start
        }),
        SubprocessErrorView::Spawn(command).message() == "failed to spawn process: "@ + command,
{
}

/// The line of a project in the view of a sync: its branch, its name in brackets,
/// and the last that was heard of it. Only the last project has a branch that
/// ends.
pub proof fn law_the_line_of_a_project(states: Seq<NodeStateView>, i: nat, name: Seq<char>)
    requires
        i < states.len(),
        states[i as int].label == Some(name),
    ensures
        sync_row(states, i) == (if i == states.len() - 1 {
            "└──"@
        } else {
            "├──"@
        }) + " ["@ + name + "]  "@ + shown_beside(states[i as int]),
        states[i as int].output.len() == 0 ==> shown_beside(states[i as int]).len() == 0,
        states[i as int].output.len() > 0 ==> shown_beside(states[i as int]) == message_in(
            states[i as int].output[states[i as int].output.len() - 1],
        ),
{
}

/// The line above the projects is there as long as one of them has not ended; it
/// counts those that have, out of all.
pub proof fn law_the_line_above_the_projects(states: Seq<NodeStateView>, spinner_idx: nat)
    ensures
        ({
            let waiting = exists|i: int|
                0 <= i < states.len() && ((#[trigger] states[i]).status == TaskStatus::Pending
                    || states[i].status == TaskStatus::Running);
            &&& header_of(states, spinner_idx) is Some <==> waiting
            &&& waiting ==> header_of(states, spinner_idx) == Some(
                seq![TaskStatus::Running.glyph_view(spinner_idx)] + " Syncing projects ("@
                    + decimal(done_count(states)) + "/"@ + decimal(states.len()) + ")"@,
            )
        }),
{
    if !crate::exec::model::all_terminal(states) {
        let i = choose|i: int|
            0 <= i < states.len() && !crate::exec::model::is_terminal(
                (#[trigger] states[i]).status,
            );
        assert(states[i].status == TaskStatus::Pending || states[i].status == TaskStatus::Running);
    }
}

/// A call is named by its project and its function.
pub proof fn law_calls_are_named(calls: Seq<Call>, i: int)
    requires
        0 <= i < calls.len(),
    ensures
        call_names(calls).len() == calls.len(),
        call_names(calls)[i] == calls[i].project@ + "::"@ + calls[i].function@,
{
}

} // verus!
