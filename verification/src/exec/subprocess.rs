//! The supervision of a command: what is made of its output, of its end and of
//! its running for too long. Starting, signalling and reading are left to the
//! caller.
use vstd::prelude::*;
use crate::exec::kill::{RunKillSwitch, SwitchView};
use crate::text::{decimal, decimal_text, trim_text, trimmed};

verus! {

broadcast use vstd::string::group_string_axioms;

/// A line of output, by the stream that it came from.
#[derive(Debug, PartialEq)]
pub enum SubprocessLine {
    Stdout(String),
    Stderr(String),
}

/// The contents of a [`SubprocessLine`].
pub enum LineView {
    Stdout(Seq<char>),
    Stderr(Seq<char>),
}

impl LineView {
    /// The text of a line.
    pub open spec fn text(self) -> Seq<char> {
        match self {
            LineView::Stdout(s) => s,
            LineView::Stderr(s) => s,
        }
    }
}

impl SubprocessLine {
    pub open spec fn view(&self) -> LineView {
        match self {
            SubprocessLine::Stdout(s) => LineView::Stdout(s@),
            SubprocessLine::Stderr(s) => LineView::Stderr(s@),
        }
    }

    /// The text of a line.
    pub fn text(&self) -> (r: &str)
        ensures
            r@ == self@.text(),
    {
        match self {
            SubprocessLine::Stdout(s) => s.as_str(),
            SubprocessLine::Stderr(s) => s.as_str(),
        }
    }
}

/// How a process ended: by a signal or with a code.
#[derive(Debug, Clone, Copy, PartialEq, Eq, Structural)]
pub struct ExitStatus {
    pub signal: Option<i32>,
    pub code: Option<i32>,
}

impl ExitStatus {
    /// Whether the process succeeded.
    pub fn success(&self) -> (r: bool)
        ensures
            r == (self.code == Some(0i32)),
    {
        match self.code {
            Some(code) => code == 0,
            None => false,
        }
    }
}

/// The end of a process, and whether the run had stopped it.
#[derive(Debug, Clone, Copy, PartialEq, Eq, Structural)]
pub struct SubprocessExit {
    pub status: ExitStatus,
    pub killed_by_switch: bool,
}

/// Why a command did not come to an end of its own.
#[derive(Debug, PartialEq)]
pub enum SubprocessError {
    /// It could not be started.
    Spawn(String),
    /// It ran for too long. What it had written is kept.
    Timeout { command: String, partial_stdout: String, partial_stderr: String },
}

/// The contents of a [`SubprocessError`].
pub enum SubprocessErrorView {
    Spawn(Seq<char>),
    Timeout { command: Seq<char>, partial_stdout: Seq<char>, partial_stderr: Seq<char> },
}

impl SubprocessErrorView {
    /// What the error says. After a timeout it shows what was written to the
    /// error stream, or else to the other.
    pub open spec fn message(self) -> Seq<char> {
        match self {
            SubprocessErrorView::Spawn(e) => "failed to spawn process: "@ + e,
            SubprocessErrorView::Timeout { command, partial_stdout, partial_stderr } => {
                let detail = if trimmed(partial_stderr).len() == 0 {
                    trimmed(partial_stdout)
                } else {
                    trimmed(partial_stderr)
                };
                if detail.len() == 0 {
                    "command timed out: "@ + command
                } else {
                    "command timed out: "@ + command + ": "@ + detail
                }
            },
        }
    }
}

impl SubprocessError {
    pub open spec fn view(&self) -> SubprocessErrorView {
        match self {
            SubprocessError::Spawn(e) => SubprocessErrorView::Spawn(e@),
            SubprocessError::Timeout { command, partial_stdout, partial_stderr } =>
            SubprocessErrorView::Timeout {
                command: command@,
                partial_stdout: partial_stdout@,
                partial_stderr: partial_stderr@,
            },
        }
    }

    /// What the error says.
    pub fn message(&self) -> (r: String)
        ensures
            r@ == self@.message(),
    {
        match self {
            SubprocessError::Spawn(e) => {
                let mut out = "failed to spawn process: ".to_owned();
                out.push_str(e.as_str());
                out
            },
            SubprocessError::Timeout { command, partial_stdout, partial_stderr } => {
                let stderr = trim_text(partial_stderr.as_str());
                let detail = if stderr.as_str().is_empty() {
                    trim_text(partial_stdout.as_str())
                } else {
                    stderr
                };
                let mut out = "command timed out: ".to_owned();
                out.push_str(command.as_str());
                if !detail.as_str().is_empty() {
                    out.push_str(": ");
                    out.push_str(detail.as_str());
                }
                out
            },
        }
    }
}

/// A number in decimal, with its sign.
pub open spec fn signed(n: int) -> Seq<char> {
    if n < 0 {
        "-"@ + decimal((-n) as nat)
    } else {
        decimal(n as nat)
    }
}

fn signed_text(n: i32) -> (r: String)
    ensures
        r@ == signed(n as int),
{
    if n < 0 {
        let mut out = "-".to_owned();
        out.push_str(decimal_text((-(n as i64)) as u64).as_str());
        out
    } else {
        decimal_text(n as u64)
    }
}

/// Why a process did not succeed.
pub open spec fn exit_failure(status: ExitStatus) -> Seq<char> {
    match (status.signal, status.code) {
        (Some(signal), _) => "terminated by signal "@ + signed(signal as int),
        (None, Some(code)) => "exited with code "@ + signed(code as int),
        (None, None) => "exited abnormally"@,
    }
}

/// Why a process did not succeed.
pub fn describe_exit_failure(status: &ExitStatus) -> (r: String)
    ensures
        r@ == exit_failure(*status),
{
    match (status.signal, status.code) {
        (Some(signal), _) => {
            let mut out = "terminated by signal ".to_owned();
            out.push_str(signed_text(signal).as_str());
            out
        },
        (None, Some(code)) => {
            let mut out = "exited with code ".to_owned();
            out.push_str(signed_text(code).as_str());
            out
        },
        (None, None) => "exited abnormally".to_owned(),
    }
}

/// Whether a byte ends a line.
pub open spec fn ends_line(b: u8) -> bool {
    b == 10 || b == 13
}

/// A line without what ends it.
pub open spec fn without_line_end(bytes: Seq<u8>) -> Seq<u8>
    decreases bytes.len(),
{
    if bytes.len() > 0 && ends_line(bytes.last()) {
        without_line_end(bytes.drop_last())
    } else {
        bytes
    }
}

/// Take from a line what ends it.
pub fn strip_line_end(bytes: &mut Vec<u8>)
    ensures
        final(bytes)@ == without_line_end(old(bytes)@),
{
    let ghost start = bytes@;
    while bytes.len() > 0 && (bytes[bytes.len() - 1] == 10 || bytes[bytes.len() - 1] == 13)
        invariant
            without_line_end(bytes@) == without_line_end(start),
        decreases bytes@.len(),
    {
        let ghost before = bytes@;
        bytes.pop();
        assert(bytes@ =~= before.drop_last());
    }
}

/// What `String::from_utf8_lossy` gives for bytes.
pub uninterp spec fn lossy_text(bytes: Seq<u8>) -> Seq<char>;

/// `String::from_utf8_lossy` gives the text that bytes encode in UTF-8; bytes that
/// are no UTF-8 are replaced by U+FFFD. How many of them one replacement stands
/// for is not spelled out: the contract says that the result depends on the
/// bytes alone.
#[verifier::external_body]
fn decode_lossy(bytes: &Vec<u8>) -> (r: String)
    ensures
        r@ == lossy_text(bytes@),
        vstd::utf8::valid_utf8(bytes@) ==> r@ == vstd::utf8::decode_utf8(bytes@),
        !vstd::utf8::valid_utf8(bytes@) ==> r@.contains('\u{fffd}'),
{
    String::from_utf8_lossy(bytes).into_owned()
}

/// The text of a line of output. A byte that is no UTF-8 does not cut it short.
pub fn line_text(bytes: Vec<u8>) -> (r: String)
    ensures
        ({
            let line = without_line_end(bytes@);
            &&& r@ == lossy_text(line)
            &&& vstd::utf8::valid_utf8(line) ==> r@ == vstd::utf8::decode_utf8(line)
            &&& !vstd::utf8::valid_utf8(line) ==> r@.contains('\u{fffd}')
        }),
{
    let mut line = bytes;
    strip_line_end(&mut line);
    decode_lossy(&line)
}

/// The text of the lines that were written to the output stream, each with a
/// line break.
pub open spec fn captured(lines: Seq<LineView>) -> Seq<char>
    decreases lines.len(),
{
    if lines.len() == 0 {
        Seq::empty()
    } else {
        captured(lines.drop_last()) + match lines.last() {
            LineView::Stdout(s) => s + "\n"@,
            LineView::Stderr(_) => Seq::empty(),
        }
    }
}

/// The text of all lines, each with a line break.
pub open spec fn reported(lines: Seq<LineView>) -> Seq<char>
    decreases lines.len(),
{
    if lines.len() == 0 {
        Seq::empty()
    } else {
        reported(lines.drop_last()) + (lines.last().text() + "\n"@)
    }
}

pub open spec fn line_views(s: Seq<SubprocessLine>) -> Seq<LineView> {
    Seq::new(s.len(), |i: int| s[i]@)
}

/// The text that a command wrote to its output stream. Nothing is trimmed.
pub fn capture_text(lines: &Vec<SubprocessLine>) -> (r: String)
    ensures
        r@ == captured(line_views(lines@)),
{
    let ghost views = line_views(lines@);
    let mut out = String::new();
    let mut i: usize = 0;
    proof {
        assert(views.take(0) =~= Seq::<LineView>::empty());
        assert(out@ =~= Seq::<char>::empty());
    }
    while i < lines.len()
        invariant
            i <= lines@.len(),
            views == line_views(lines@),
            out@ == captured(views.take(i as int)),
        decreases lines@.len() - i,
    {
        let ghost before = out@;
        proof {
            let next = views.take(i + 1);
            assert(next.drop_last() =~= views.take(i as int));
            assert(next.last() == lines@[i as int]@);
        }
        match &lines[i] {
            SubprocessLine::Stdout(text) => {
                out.push_str(text.as_str());
                out.push_str("\n");
            },
            SubprocessLine::Stderr(_) => {},
        }
        assert(out@ =~= captured(views.take(i + 1)));
        i += 1;
    }
    assert(views.take(i as int) =~= views);
    out
}

/// The text that a command wrote to either stream.
pub fn report_text(lines: &Vec<SubprocessLine>) -> (r: String)
    ensures
        r@ == reported(line_views(lines@)),
{
    let ghost views = line_views(lines@);
    let mut out = String::new();
    let mut i: usize = 0;
    proof {
        assert(views.take(0) =~= Seq::<LineView>::empty());
        assert(out@ =~= Seq::<char>::empty());
    }
    while i < lines.len()
        invariant
            i <= lines@.len(),
            views == line_views(lines@),
            out@ == reported(views.take(i as int)),
        decreases lines@.len() - i,
    {
        proof {
            let next = views.take(i + 1);
            assert(next.drop_last() =~= views.take(i as int));
            assert(next.last() == lines@[i as int]@);
        }
        out.push_str(lines[i].text());
        out.push_str("\n");
        assert(out@ =~= reported(views.take(i + 1)));
        i += 1;
    }
    assert(views.take(i as int) =~= views);
    out
}

// ── Supervision ──────────────────────────────────────────────────────────────

/// How far the supervision of a command has come.
#[derive(Debug, Clone, Copy, PartialEq, Eq, Structural)]
pub enum Phase {
    /// The command is to be started.
    Spawning,
    /// Its output is read.
    Watching { pgid: i32 },
    /// Its output has ended, and it is waited for.
    Ending { pgid: i32 },
    /// It was stopped because the run had already failed.
    Stopping { pgid: i32 },
    /// It was stopped because it ran for too long.
    Expiring { pgid: i32 },
    /// The supervision is over.
    Over,
}

/// What happened to a command.
#[derive(Debug, PartialEq)]
pub enum Report {
    /// It leads a process group of its own.
    Spawned(i32),
    /// It could not be started.
    NotSpawned(String),
    /// It wrote a line.
    Line(SubprocessLine),
    /// Its output has ended.
    Closed,
    /// It ran for too long.
    Expired,
    /// It has ended.
    Waited(ExitStatus),
    /// It could not be waited for.
    WaitFailed(String),
}

/// The contents of a [`Report`].
pub enum ReportView {
    Spawned(i32),
    NotSpawned(Seq<char>),
    Line(LineView),
    Closed,
    Expired,
    Waited(ExitStatus),
    WaitFailed(Seq<char>),
}

impl Report {
    pub open spec fn view(&self) -> ReportView {
        match self {
            Report::Spawned(pgid) => ReportView::Spawned(*pgid),
            Report::NotSpawned(e) => ReportView::NotSpawned(e@),
            Report::Line(line) => ReportView::Line(line@),
            Report::Closed => ReportView::Closed,
            Report::Expired => ReportView::Expired,
            Report::Waited(status) => ReportView::Waited(*status),
            Report::WaitFailed(e) => ReportView::WaitFailed(e@),
        }
    }
}

/// What is to be done with a command next.
#[derive(Debug, PartialEq)]
pub enum Order {
    /// Start it.
    Spawn,
    /// Read its output.
    Receive,
    /// Stop its process group and wait for it.
    Terminate,
    /// Wait for it.
    Wait,
    /// Nothing.
    Done(Result<SubprocessExit, SubprocessError>),
}

/// The contents of an [`Order`].
pub enum OrderView {
    Spawn,
    Receive,
    Terminate,
    Wait,
    Done(Result<SubprocessExit, SubprocessErrorView>),
}

pub open spec fn exit_view(r: Result<SubprocessExit, SubprocessError>) -> Result<
    SubprocessExit,
    SubprocessErrorView,
> {
    match r {
        Ok(exit) => Ok(exit),
        Err(e) => Err(e@),
    }
}

impl Order {
    pub open spec fn view(&self) -> OrderView {
        match self {
            Order::Spawn => OrderView::Spawn,
            Order::Receive => OrderView::Receive,
            Order::Terminate => OrderView::Terminate,
            Order::Wait => OrderView::Wait,
            Order::Done(r) => OrderView::Done(exit_view(*r)),
        }
    }
}

/// The supervision of a command.
#[derive(Debug)]
pub struct Supervisor {
    command: String,
    /// What it wrote is kept only where it may run for too long.
    timed: bool,
    partial_stdout: String,
    partial_stderr: String,
    phase: Phase,
}

/// The contents of a [`Supervisor`].
pub struct SupervisorView {
    pub command: Seq<char>,
    pub timed: bool,
    pub partial_stdout: Seq<char>,
    pub partial_stderr: Seq<char>,
    pub phase: Phase,
}

/// Whether a report can come in a phase.
pub open spec fn can_happen(s: SupervisorView, report: ReportView) -> bool {
    match s.phase {
        Phase::Spawning => report is Spawned || report is NotSpawned,
        Phase::Watching { .. } => report is Line || report is Closed || (report is Expired
            && s.timed),
        Phase::Ending { .. } => report is Waited || report is WaitFailed,
        Phase::Stopping { .. } => report is Waited || report is WaitFailed,
        Phase::Expiring { .. } => report is Waited || report is WaitFailed,
        Phase::Over => false,
    }
}

/// What a report makes of a supervision and of the groups of the run, and what
/// is to be done next.
pub open spec fn supervised(s: SupervisorView, switch: SwitchView, report: ReportView) -> (
    SupervisorView,
    SwitchView,
    OrderView,
) {
    let over = SupervisorView { phase: Phase::Over, ..s };
    match (s.phase, report) {
        (Phase::Spawning, ReportView::Spawned(pgid)) => if switch.failed {
            // The run was lost while the command was being started.
            (
                SupervisorView { phase: Phase::Stopping { pgid }, ..s },
                SwitchView {
                    groups: switch.groups.insert(pgid),
                    killed: switch.killed.insert(pgid),
                    ..switch
                },
                OrderView::Terminate,
            )
        } else {
            (
                SupervisorView { phase: Phase::Watching { pgid }, ..s },
                SwitchView { groups: switch.groups.insert(pgid), ..switch },
                OrderView::Receive,
            )
        },
        (Phase::Watching { .. }, ReportView::Line(line)) => (
            if s.timed {
                match line {
                    LineView::Stdout(text) => SupervisorView {
                        partial_stdout: s.partial_stdout + text + "\n"@,
                        ..s
                    },
                    LineView::Stderr(text) => SupervisorView {
                        partial_stderr: s.partial_stderr + text + "\n"@,
                        ..s
                    },
                }
            } else {
                s
            },
            switch,
            OrderView::Receive,
        ),
        (Phase::Watching { pgid }, ReportView::Closed) => (
            SupervisorView { phase: Phase::Ending { pgid }, ..s },
            switch,
            OrderView::Wait,
        ),
        (Phase::Watching { pgid }, ReportView::Expired) => (
            SupervisorView { phase: Phase::Expiring { pgid }, ..s },
            switch,
            OrderView::Terminate,
        ),
        (Phase::Ending { pgid }, ReportView::Waited(status)) => (
            over,
            SwitchView { groups: switch.groups.remove(pgid), ..switch },
            OrderView::Done(
                Ok(
                    SubprocessExit {
                        status,
                        killed_by_switch: status.signal is Some && switch.killed.contains(pgid),
                    },
                ),
            ),
        ),
        (Phase::Stopping { pgid }, ReportView::Waited(status)) => (
            over,
            SwitchView { groups: switch.groups.remove(pgid), ..switch },
            OrderView::Done(Ok(SubprocessExit { status, killed_by_switch: true })),
        ),
        (Phase::Expiring { pgid }, _) => (
            over,
            SwitchView { groups: switch.groups.remove(pgid), ..switch },
            OrderView::Done(
                Err(
                    SubprocessErrorView::Timeout {
                        command: s.command,
                        partial_stdout: s.partial_stdout,
                        partial_stderr: s.partial_stderr,
                    },
                ),
            ),
        ),
        (_, ReportView::NotSpawned(e)) => (
            over,
            switch,
            OrderView::Done(Err(SubprocessErrorView::Spawn(e))),
        ),
        (_, ReportView::WaitFailed(e)) => (
            over,
            switch,
            OrderView::Done(Err(SubprocessErrorView::Spawn(e))),
        ),
        _ => (over, switch, OrderView::Receive),
    }
}

/// A command that has ended, or that ran for too long, is no longer counted
/// among the groups that are alive.
pub proof fn law_an_ended_group_is_not_alive(
    s: SupervisorView,
    switch: SwitchView,
    report: ReportView,
    pgid: i32,
)
    requires
        can_happen(s, report),
        s.phase == (Phase::Expiring { pgid }) || (report is Waited && (s.phase == (Phase::Ending {
            pgid,
        }) || s.phase == (Phase::Stopping { pgid }))),
    ensures
        !supervised(s, switch, report).1.groups.contains(pgid),
        supervised(s, switch, report).2 is Done,
{
}

/// A command that is started after the run has failed is stopped, and its end
/// is put down to the run.
pub proof fn law_a_late_command_is_stopped(
    s: SupervisorView,
    switch: SwitchView,
    pgid: i32,
    status: ExitStatus,
)
    requires
        s.phase == Phase::Spawning,
        switch.failed,
    ensures
        ({
            let first = supervised(s, switch, ReportView::Spawned(pgid));
            let second = supervised(first.0, first.1, ReportView::Waited(status));
            &&& first.2 == OrderView::Terminate
            &&& second.2 == OrderView::Done(Ok(SubprocessExit { status, killed_by_switch: true }))
            &&& !second.1.groups.contains(pgid)
        }),
{
}

impl Supervisor {
    pub closed spec fn view(&self) -> SupervisorView {
        SupervisorView {
            command: self.command@,
            timed: self.timed,
            partial_stdout: self.partial_stdout@,
            partial_stderr: self.partial_stderr@,
            phase: self.phase,
        }
    }

    /// The supervision of a command that is to be started: there must be
    /// something to start.
    pub fn start(command: &str, argv: &Vec<String>, timed: bool) -> (r: Result<
        Self,
        SubprocessError,
    >)
        ensures
            match r {
                Ok(s) => argv@.len() > 0 && s@ == (SupervisorView {
                    command: command@,
                    timed,
                    partial_stdout: Seq::empty(),
                    partial_stderr: Seq::empty(),
                    phase: Phase::Spawning,
                }),
                Err(e) => argv@.len() == 0 && e@ == SubprocessErrorView::Spawn(
                    "run_subprocess requires at least one argument (argv[0])"@,
                ),
            },
    {
        if argv.len() == 0 {
            return Err(
                SubprocessError::Spawn(
                    "run_subprocess requires at least one argument (argv[0])".to_owned(),
                ),
            );
        }
        let partial_stdout = String::new();
        let partial_stderr = String::new();
        assert(partial_stdout@ =~= Seq::<char>::empty());
        assert(partial_stderr@ =~= Seq::<char>::empty());
        Ok(
            Supervisor {
                command: command.to_owned(),
                timed,
                partial_stdout,
                partial_stderr,
                phase: Phase::Spawning,
            },
        )
    }

    /// Take in what happened, and say what is to be done next.
    pub fn step(&mut self, switch: &mut RunKillSwitch, report: Report) -> (r: Order)
        requires
            can_happen(old(self)@, report@),
        ensures
            (final(self)@, final(switch)@, r@) == supervised(old(self)@, old(switch)@, report@),
    {
        match (self.phase, report) {
            (Phase::Spawning, Report::Spawned(pgid)) => {
                switch.register(pgid);
                if switch.is_failed() {
                    switch.mark_killed(pgid);
                    self.phase = Phase::Stopping { pgid };
                    Order::Terminate
                } else {
                    self.phase = Phase::Watching { pgid };
                    Order::Receive
                }
            },
            (Phase::Watching { .. }, Report::Line(line)) => {
                if self.timed {
                    match line {
                        SubprocessLine::Stdout(text) => {
                            self.partial_stdout.push_str(text.as_str());
                            self.partial_stdout.push_str("\n");
                        },
                        SubprocessLine::Stderr(text) => {
                            self.partial_stderr.push_str(text.as_str());
                            self.partial_stderr.push_str("\n");
                        },
                    }
                }
                Order::Receive
            },
            (Phase::Watching { pgid }, Report::Closed) => {
                self.phase = Phase::Ending { pgid };
                Order::Wait
            },
            (Phase::Watching { pgid }, Report::Expired) => {
                self.phase = Phase::Expiring { pgid };
                Order::Terminate
            },
            (Phase::Ending { pgid }, Report::Waited(status)) => {
                self.phase = Phase::Over;
                let killed_by_switch = status.signal.is_some() && switch.killed(pgid);
                switch.deregister(pgid);
                Order::Done(Ok(SubprocessExit { status, killed_by_switch }))
            },
            (Phase::Stopping { pgid }, Report::Waited(status)) => {
                self.phase = Phase::Over;
                switch.deregister(pgid);
                Order::Done(Ok(SubprocessExit { status, killed_by_switch: true }))
            },
            (Phase::Expiring { pgid }, _) => {
                self.phase = Phase::Over;
                switch.deregister(pgid);
                Order::Done(
                    Err(
                        SubprocessError::Timeout {
                            command: self.command.clone(),
                            partial_stdout: self.partial_stdout.clone(),
                            partial_stderr: self.partial_stderr.clone(),
                        },
                    ),
                )
            },
            (_, Report::NotSpawned(e)) => {
                self.phase = Phase::Over;
                Order::Done(Err(SubprocessError::Spawn(e)))
            },
            (_, Report::WaitFailed(e)) => {
                self.phase = Phase::Over;
                Order::Done(Err(SubprocessError::Spawn(e)))
            },
            _ => {
                self.phase = Phase::Over;
                Order::Receive
            },
        }
    }
}

} // verus!
