//! The sync of projects: what is run for each, and how its progress is shown.
use vstd::prelude::*;
use crate::exec::colors::{SYNC_CLONE_PREFIX, SYNC_UPDATE_PREFIX};
use crate::exec::context::{layer_view, Command, CommandView};
use crate::exec::error::{outcome_view, Outcome, RuntimeError, RuntimeErrorView};
use crate::exec::model;
use crate::exec::model::{
    all_terminal, is_terminal, spinner_frame, spinner_frames, Display, NodeState, NodeStateView,
};
use crate::exec::subprocess::{
    describe_exit_failure, exit_failure, exit_view, LineView, SubprocessError, SubprocessErrorView,
    SubprocessExit, SubprocessLine,
};
use crate::ir::run_plan::PlanLine;
use crate::names::NameMap;
use crate::text::{chars_of, decimal, decimal_text, text_of, trim_text, trimmed};

verus! {

broadcast use vstd::string::group_string_axioms;

/// A project that is synced.
#[derive(Debug, PartialEq)]
pub struct ProjectSync {
    pub name: String,
    pub url: String,
    pub dir: String,
    pub branch: String,
}

/// The contents of a [`ProjectSync`].
pub struct ProjectSyncView {
    pub name: Seq<char>,
    pub url: Seq<char>,
    pub dir: Seq<char>,
    pub branch: Seq<char>,
}

impl ProjectSync {
    pub open spec fn view(&self) -> ProjectSyncView {
        ProjectSyncView {
            name: self.name@,
            url: self.url@,
            dir: self.dir@,
            branch: self.branch@,
        }
    }
}

/// The line that announces what is done for a project.
pub open spec fn announcement(p: ProjectSyncView, exists: bool) -> Seq<char> {
    (if exists {
        SYNC_UPDATE_PREFIX@
    } else {
        SYNC_CLONE_PREFIX@
    }) + " "@ + p.name + " -> "@ + p.dir
}

/// The arguments that bring a project up to date, or clone it where there is no
/// repository.
pub open spec fn git_args(p: ProjectSyncView, exists: bool) -> Seq<Seq<char>> {
    if exists {
        seq!["git"@, "-C"@, p.dir, "pull"@, "--ff-only"@] + (if p.branch.len() == 0 {
            Seq::empty()
        } else {
            seq!["origin"@, p.branch]
        })
    } else {
        seq!["git"@, "clone"@] + (if p.branch.len() == 0 {
            Seq::empty()
        } else {
            seq!["-b"@, p.branch]
        }) + seq![p.url, p.dir]
    }
}

/// The command for a project.
pub open spec fn git_command_of(p: ProjectSyncView, exists: bool) -> CommandView {
    CommandView {
        desc: (if exists {
            "git pull "@
        } else {
            "git clone "@
        }) + p.name,
        argv: git_args(p, exists),
        dir: None,
        env: Seq::empty(),
    }
}

/// What the end of the command for a project means.
pub open spec fn git_ended(cmd: Seq<char>, end: Result<SubprocessExit, SubprocessErrorView>) -> Outcome {
    match end {
        Err(e) => Err(RuntimeErrorView::Exec { cmd, detail: e.message() }),
        Ok(exit) => if exit.status.code == Some(0i32) {
            Ok(())
        } else {
            Err(RuntimeErrorView::Exec { cmd, detail: exit_failure(exit.status) })
        },
    }
}

impl ProjectSync {
    /// The line that announces what is done for the project; `exists` says
    /// whether its directory holds a repository.
    pub fn announce(&self, exists: bool) -> (r: String)
        ensures
            r@ == announcement(self@, exists),
    {
        let mut out = if exists {
            SYNC_UPDATE_PREFIX.to_owned()
        } else {
            SYNC_CLONE_PREFIX.to_owned()
        };
        out.push_str(" ");
        out.push_str(self.name.as_str());
        out.push_str(" -> ");
        out.push_str(self.dir.as_str());
        out
    }

    fn argv(&self, exists: bool) -> (r: Vec<String>)
        ensures
            model::line_views(r@) == git_args(self@, exists),
    {
        let mut argv: Vec<String> = Vec::new();
        argv.push("git".to_owned());
        if exists {
            argv.push("-C".to_owned());
            argv.push(self.dir.clone());
            argv.push("pull".to_owned());
            argv.push("--ff-only".to_owned());
            if !self.branch.as_str().is_empty() {
                argv.push("origin".to_owned());
                argv.push(self.branch.clone());
            }
        } else {
            argv.push("clone".to_owned());
            if !self.branch.as_str().is_empty() {
                argv.push("-b".to_owned());
                argv.push(self.branch.clone());
            }
            argv.push(self.url.clone());
            argv.push(self.dir.clone());
        }
        assert(model::line_views(argv@) =~= git_args(self@, exists));
        argv
    }

    /// The command that clones the project, or brings it up to date.
    pub fn git_command(&self, exists: bool) -> (r: Command)
        ensures
            r@ == git_command_of(self@, exists),
    {
        let mut desc = if exists {
            "git pull ".to_owned()
        } else {
            "git clone ".to_owned()
        };
        desc.push_str(self.name.as_str());
        let env: NameMap<String> = NameMap::new();
        assert(layer_view(env) =~= Seq::<(Seq<char>, Seq<char>)>::empty());
        Command { desc, argv: self.argv(exists), dir: None, env }
    }
}

/// A line of the command as it is shown.
pub fn git_line(line: &SubprocessLine) -> (r: String)
    ensures
        r@ == match line@ {
            LineView::Stdout(s) => "    "@ + s,
            LineView::Stderr(s) => s,
        },
{
    match line {
        SubprocessLine::Stdout(s) => {
            let mut out = "    ".to_owned();
            out.push_str(s.as_str());
            out
        },
        SubprocessLine::Stderr(s) => s.clone(),
    }
}

/// What the end of the command for a project means.
pub fn git_outcome(cmd: &str, end: Result<SubprocessExit, SubprocessError>) -> (r: Result<
    (),
    RuntimeError,
>)
    ensures
        outcome_view(r) == git_ended(cmd@, exit_view(end)),
{
    match end {
        Err(e) => Err(RuntimeError::exec_io_error(cmd, e.message().as_str())),
        Ok(exit) => {
            if exit.status.success() {
                Ok(())
            } else {
                Err(
                    RuntimeError::exec_io_error(cmd, describe_exit_failure(&exit.status).as_str()),
                )
            }
        },
    }
}

/// A row for each project.
pub fn sync_plan(projects: &Vec<ProjectSync>) -> (r: Vec<PlanLine>)
    ensures
        r@.len() == projects@.len(),
        forall|i: int|
            0 <= i < r@.len() ==> {
                &&& (#[trigger] r@[i]).row == i
                &&& r@[i].depth == 0
                &&& r@[i].label@ == projects@[i].name@
                &&& r@[i].project is None
                &&& r@[i].prefix@.len() == 0
                &&& r@[i].output_prefix@.len() == 0
            },
{
    let mut out: Vec<PlanLine> = Vec::new();
    let mut i: usize = 0;
    while i < projects.len()
        invariant
            i <= projects@.len(),
            out@.len() == i,
            forall|j: int|
                0 <= j < i ==> {
                    &&& (#[trigger] out@[j]).row == j
                    &&& out@[j].depth == 0
                    &&& out@[j].label@ == projects@[j].name@
                    &&& out@[j].project is None
                    &&& out@[j].prefix@.len() == 0
                    &&& out@[j].output_prefix@.len() == 0
                },
        decreases projects@.len() - i,
    {
        out.push(
            PlanLine {
                row: i,
                depth: 0,
                label: projects[i].name.clone(),
                project: None,
                prefix: String::new(),
                output_prefix: String::new(),
            },
        );
        i += 1;
    }
    out
}

// ── The view ─────────────────────────────────────────────────────────────────

/// Whether a text starts with another.
pub open spec fn starts_with(s: Seq<char>, start: Seq<char>) -> bool {
    s.len() >= start.len() && s.take(start.len() as int) == start
}

/// What follows the first space of a text; the whole text where there is none.
pub open spec fn after_space(s: Seq<char>) -> Seq<char>
    decreases s.len(),
{
    if !s.contains(' ') {
        s
    } else if s[0] == ' ' {
        s.skip(1)
    } else {
        after_space(s.skip(1))
    }
}

/// What is shown of a line: of an announcement, what follows its start and one
/// more word; any other line as it is.
pub open spec fn message_in(line: Seq<char>) -> Seq<char> {
    if starts_with(line, SYNC_UPDATE_PREFIX@) {
        trimmed(after_space(line.skip(SYNC_UPDATE_PREFIX@.len() as int)))
    } else if starts_with(line, SYNC_CLONE_PREFIX@) {
        trimmed(after_space(line.skip(SYNC_CLONE_PREFIX@.len() as int)))
    } else {
        line
    }
}

/// Of an announcement the view shows the project and its directory.
pub proof fn law_an_announcement_is_shown_without_its_start(p: ProjectSyncView, exists: bool)
    ensures
        message_in(announcement(p, exists)) == trimmed(p.name + " -> "@ + p.dir),
{
    reveal_strlit("update  ");
    reveal_strlit("clone  ");
    reveal_strlit(" ");
    let start = if exists {
        SYNC_UPDATE_PREFIX@
    } else {
        SYNC_CLONE_PREFIX@
    };
    let line = announcement(p, exists);
    let rest = line.skip(start.len() as int);
    assert(line.take(start.len() as int) =~= start);
    if !exists {
        assert(line[0] == 'c');
        assert(line.take(SYNC_UPDATE_PREFIX@.len() as int) != SYNC_UPDATE_PREFIX@) by {
            assert(SYNC_UPDATE_PREFIX@[0] == 'u');
            assert(line.take(SYNC_UPDATE_PREFIX@.len() as int)[0] == 'c');
        }
    }
    assert(rest =~= " "@ + (p.name + " -> "@ + p.dir));
    assert(rest[0] == ' ');
    assert(rest.contains(' '));
    assert(rest.skip(1) =~= p.name + " -> "@ + p.dir);
}

fn has_start(chars: &Vec<char>, start: &Vec<char>) -> (r: bool)
    ensures
        r == starts_with(chars@, start@),
{
    if chars.len() < start.len() {
        return false;
    }
    let mut i: usize = 0;
    while i < start.len()
        invariant
            i <= start@.len() <= chars@.len(),
            forall|j: int| 0 <= j < i ==> #[trigger] chars@[j] == start@[j],
        decreases start@.len() - i,
    {
        if chars[i] != start[i] {
            assert(chars@.take(start@.len() as int)[i as int] != start@[i as int]);
            return false;
        }
        i += 1;
    }
    assert(chars@.take(start@.len() as int) =~= start@);
    true
}

fn message_after(chars: &Vec<char>, from: usize) -> (r: String)
    requires
        from <= chars@.len(),
    ensures
        r@ == trimmed(after_space(chars@.skip(from as int))),
{
    let total: usize = chars.len();
    let mut i: usize = from;
    while i < total && chars[i] != ' '
        invariant
            from <= i <= total,
            total == chars@.len(),
            forall|j: int| from <= j < i ==> #[trigger] chars@[j] != ' ',
            chars@.skip(i as int).contains(' ') ==> after_space(chars@.skip(from as int))
                == after_space(chars@.skip(i as int)),
        decreases total - i,
    {
        proof {
            let s = chars@.skip(i as int);
            assert(s[0] == chars@[i as int]);
            assert(s.skip(1) =~= chars@.skip(i + 1));
            if chars@.skip(i + 1).contains(' ') {
                let t = chars@.skip(i + 1);
                let k = choose|k: int| 0 <= k < t.len() && t[k] == ' ';
                assert(s[k + 1] == t[k]);
            }
        }
        i += 1;
    }
    let ghost rest = chars@.skip(from as int);
    if i < total {
        proof {
            let s = chars@.skip(i as int);
            assert(s[0] == ' ');
            assert(s.contains(' '));
            assert(s.skip(1) =~= chars@.skip(i + 1));
        }
        let text = text_of(chars, i + 1, total);
        assert(text@ =~= chars@.skip(i + 1));
        trim_text(text.as_str())
    } else {
        proof {
            if rest.contains(' ') {
                let k = choose|k: int| 0 <= k < rest.len() && rest[k] == ' ';
                assert(chars@[from + k] == ' ');
            }
        }
        let text = text_of(chars, from, total);
        assert(text@ =~= rest);
        trim_text(text.as_str())
    }
}

/// What is shown of a line.
pub fn sync_message(line: &str) -> (r: String)
    ensures
        r@ == message_in(line@),
{
    let chars = chars_of(line);
    let update = chars_of(SYNC_UPDATE_PREFIX);
    if has_start(&chars, &update) {
        return message_after(&chars, update.len());
    }
    let clone = chars_of(SYNC_CLONE_PREFIX);
    if has_start(&chars, &clone) {
        return message_after(&chars, clone.len());
    }
    line.to_owned()
}

/// What is shown beside a project: its last line.
pub open spec fn shown_beside(state: NodeStateView) -> Seq<char> {
    if state.output.len() == 0 {
        Seq::empty()
    } else {
        message_in(state.output.last())
    }
}

/// What is shown beside a project.
pub fn current_display(state: &NodeState) -> (r: String)
    ensures
        r@ == shown_beside(state@),
{
    let n: usize = state.output.len();
    if n == 0 {
        let r = String::new();
        assert(r@ =~= Seq::<char>::empty());
        r
    } else {
        assert(state@.output.last() == state.output@[n - 1]@);
        sync_message(state.output[n - 1].as_str())
    }
}

/// How many projects are done.
pub open spec fn done_count(states: Seq<NodeStateView>) -> nat
    decreases states.len(),
{
    if states.len() == 0 {
        0
    } else {
        done_count(states.drop_last()) + (if is_terminal(states.last().status) {
            1nat
        } else {
            0
        })
    }
}

/// The line above the projects, as long as not all of them are done.
pub open spec fn header_of(states: Seq<NodeStateView>, spinner_idx: nat) -> Option<Seq<char>> {
    if all_terminal(states) {
        None
    } else {
        Some(
            seq![spinner_frames()[spinner_idx as int % 10]] + " Syncing projects ("@ + decimal(
                done_count(states),
            ) + "/"@ + decimal(states.len()) + ")"@,
        )
    }
}

/// The line above the projects, as long as not all of them are done.
pub fn sync_header(display: &Display, spinner_idx: usize) -> (r: Option<String>)
    ensures
        header_of(display@, spinner_idx as nat) == match r {
            Some(s) => Some(s@),
            None => None,
        },
{
    if display.all_done() {
        return None;
    }
    let states = display.states();
    let ghost views = display@;
    let mut done: usize = 0;
    let mut i: usize = 0;
    assert(views.take(0) =~= Seq::<NodeStateView>::empty());
    while i < states.len()
        invariant
            i <= states@.len(),
            done <= i,
            views == model::state_views(states@),
            done == done_count(views.take(i as int)),
        decreases states@.len() - i,
    {
        proof {
            let next = views.take(i + 1);
            assert(next.drop_last() =~= views.take(i as int));
            assert(next.last() == states@[i as int]@);
        }
        if states[i].status.is_done() {
            done += 1;
        }
        i += 1;
    }
    assert(views.take(i as int) =~= views);
    let mut out = String::new();
    assert(out@ =~= Seq::<char>::empty());
    out.push(spinner_frame(spinner_idx));
    assert(out@ =~= seq![spinner_frames()[spinner_idx as int % 10]]);
    out.push_str(" Syncing projects (");
    out.push_str(decimal_text(done as u64).as_str());
    out.push_str("/");
    out.push_str(decimal_text(states.len() as u64).as_str());
    out.push_str(")");
    Some(out)
}

/// The line of a project.
pub open spec fn sync_row(states: Seq<NodeStateView>, i: nat) -> Seq<char> {
    (if i + 1 == states.len() {
        "└──"@
    } else {
        "├──"@
    }) + " ["@ + (match states[i as int].label {
        Some(label) => label,
        None => Seq::empty(),
    }) + "]  "@ + shown_beside(states[i as int])
}

/// The line of a project.
pub fn sync_row_line(display: &Display, index: usize) -> (r: String)
    requires
        index < display@.len(),
    ensures
        r@ == sync_row(display@, index as nat),
{
    let total: usize = display.len();
    let state = display.state(index);
    let mut out = if index + 1 == total {
        "└──".to_owned()
    } else {
        "├──".to_owned()
    };
    out.push_str(" [");
    let ghost before = out@;
    match &state.label {
        Some(label) => {
            out.push_str(label.as_str());
        },
        None => {
            assert(before + Seq::<char>::empty() =~= before);
        },
    }
    out.push_str("]  ");
    out.push_str(current_display(state).as_str());
    out
}

} // verus!
