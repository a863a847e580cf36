//! The approval of a project's own environment. A project that asks for its
//! environment trusts it: it is approved before each entry, and there is no
//! way on without it.
use vstd::prelude::*;
use crate::exec::context::{layer_view, Command, CommandView, DIRENV_PROGRAM};
use crate::exec::error::{outcome_view, Outcome, RuntimeError, RuntimeErrorView};
use crate::exec::model;
use crate::exec::subprocess::{
    describe_exit_failure, exit_failure, exit_view, line_views, report_text, reported, LineView,
    SubprocessError, SubprocessErrorView, SubprocessExit, SubprocessLine,
};
use crate::names::NameMap;
use crate::text::{trim_text, trimmed};

verus! {

broadcast use vstd::string::group_string_axioms;

/// What an approval is called in messages.
pub open spec fn invocation_of(dir: Seq<char>) -> Seq<char> {
    DIRENV_PROGRAM@ + " allow "@ + dir
}

/// The command that approves the environment of a directory.
pub open spec fn allowing(dir: Seq<char>) -> CommandView {
    CommandView {
        desc: invocation_of(dir),
        argv: seq![DIRENV_PROGRAM@, "allow"@, dir],
        dir: None,
        env: Seq::empty(),
    }
}

/// What the end of an approval means.
pub open spec fn allowed(
    invocation: Seq<char>,
    end: Result<SubprocessExit, SubprocessErrorView>,
    lines: Seq<LineView>,
    secs: u64,
) -> Outcome {
    match end {
        Err(SubprocessErrorView::Timeout { command, .. }) => Err(
            RuntimeErrorView::Timeout { cmd: command, secs },
        ),
        Err(e) => Err(RuntimeErrorView::Exec { cmd: invocation, detail: e.message() }),
        Ok(exit) => if exit.killed_by_switch {
            Err(RuntimeErrorView::Cancelled("stopped because another chain failed"@))
        } else if exit.status.code == Some(0i32) {
            Ok(())
        } else {
            Err(
                RuntimeErrorView::Exec {
                    cmd: invocation,
                    detail: if trimmed(reported(lines)).len() == 0 {
                        exit_failure(exit.status)
                    } else {
                        trimmed(reported(lines))
                    },
                },
            )
        },
    }
}

/// The command that approves the environment of a directory.
pub fn allow_command(dir: &str) -> (r: Command)
    ensures
        r@ == allowing(dir@),
{
    let mut desc = DIRENV_PROGRAM.to_owned();
    desc.push_str(" allow ");
    desc.push_str(dir);
    let mut argv: Vec<String> = Vec::new();
    argv.push(DIRENV_PROGRAM.to_owned());
    argv.push("allow".to_owned());
    argv.push(dir.to_owned());
    let env: NameMap<String> = NameMap::new();
    assert(model::line_views(argv@) =~= seq![DIRENV_PROGRAM@, "allow"@, dir@]);
    assert(layer_view(env) =~= Seq::<(Seq<char>, Seq<char>)>::empty());
    Command { desc, argv, dir: None, env }
}

/// What the end of an approval means: its own output says why it failed.
pub fn allow_outcome(
    invocation: &str,
    end: Result<SubprocessExit, SubprocessError>,
    lines: &Vec<SubprocessLine>,
    secs: u64,
) -> (r: Result<(), RuntimeError>)
    ensures
        outcome_view(r) == allowed(invocation@, exit_view(end), line_views(lines@), secs),
{
    match end {
        Err(SubprocessError::Timeout { command, .. }) => Err(
            RuntimeError::Timeout { cmd: command, secs },
        ),
        Err(e) => Err(RuntimeError::exec_io_error(invocation, e.message().as_str())),
        Ok(exit) => {
            if exit.killed_by_switch {
                return Err(
                    RuntimeError::Cancelled("stopped because another chain failed".to_owned()),
                );
            }
            if exit.status.success() {
                return Ok(());
            }
            let report = trim_text(report_text(lines).as_str());
            let detail = if report.as_str().is_empty() {
                describe_exit_failure(&exit.status)
            } else {
                report
            };
            Err(RuntimeError::exec_io_error(invocation, detail.as_str()))
        },
    }
}

} // verus!
