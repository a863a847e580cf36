//! What the display is told of tasks that have ended, and what follows for the
//! tasks as a whole.
use vstd::prelude::*;
use crate::exec::error::{RuntimeError, RuntimeErrorView};
use crate::exec::machine::{update_views, Update, UpdateView};
use crate::exec::model::TaskStatus;

verus! {

broadcast use vstd::string::group_string_axioms;

/// How a task ended.
#[derive(Debug, PartialEq)]
pub enum TaskOutcome {
    Success,
    Error(RuntimeError),
    /// It broke off; the message says how.
    Panic(String),
}

/// The contents of a [`TaskOutcome`].
pub enum TaskOutcomeView {
    Success,
    Error(RuntimeErrorView),
    Panic(Seq<char>),
}

impl TaskOutcome {
    pub open spec fn view(&self) -> TaskOutcomeView {
        match self {
            TaskOutcome::Success => TaskOutcomeView::Success,
            TaskOutcome::Error(e) => TaskOutcomeView::Error(e@),
            TaskOutcome::Panic(e) => TaskOutcomeView::Panic(e@),
        }
    }
}

/// Why tasks did not all succeed.
#[derive(Debug, PartialEq)]
pub enum TaskRunError {
    /// A task failed, and has shown why.
    TaskFailed,
    /// The tasks could not be carried out; the message has not been shown.
    Infrastructure(String),
}

/// The updates that show how a task ended. That a command ran for too long has
/// been shown already.
pub open spec fn outcome_updates(index: usize, outcome: TaskOutcomeView) -> Seq<UpdateView> {
    match outcome {
        TaskOutcomeView::Success => seq![UpdateView::Status(index, TaskStatus::Success)],
        TaskOutcomeView::Error(e) => if e is Timeout {
            seq![UpdateView::Status(index, TaskStatus::Error)]
        } else {
            seq![
                UpdateView::Output(index, e.line()),
                UpdateView::Status(index, TaskStatus::Error),
            ]
        },
        TaskOutcomeView::Panic(e) => seq![
            UpdateView::Output(index, "Task panicked: "@ + e),
            UpdateView::Status(index, TaskStatus::Error),
        ],
    }
}

/// Show how a task ended; the second result says whether it failed.
pub fn report_task_outcome(index: usize, outcome: &TaskOutcome) -> (r: (Vec<Update>, bool))
    ensures
        update_views(r.0@) == outcome_updates(index, outcome@),
        r.1 == !(outcome@ is Success),
{
    let mut updates: Vec<Update> = Vec::new();
    let failed = match outcome {
        TaskOutcome::Success => {
            updates.push(Update::Status(index, TaskStatus::Success));
            false
        },
        TaskOutcome::Error(e) => {
            if !e.is_timeout() {
                updates.push(Update::Output(index, e.line()));
            }
            updates.push(Update::Status(index, TaskStatus::Error));
            true
        },
        TaskOutcome::Panic(e) => {
            let mut line = "Task panicked: ".to_owned();
            line.push_str(e.as_str());
            updates.push(Update::Output(index, line));
            updates.push(Update::Status(index, TaskStatus::Error));
            true
        },
    };
    assert(update_views(updates@) =~= outcome_updates(index, outcome@));
    (updates, failed)
}

/// A task that was waited for: its row, and how it ended.
#[derive(Debug, PartialEq)]
pub struct TaskEnd {
    pub index: usize,
    pub outcome: TaskOutcome,
}

/// The updates for tasks that broke off. The others have shown themselves how
/// they ended.
pub open spec fn panic_updates(ends: Seq<TaskEnd>) -> Seq<UpdateView>
    decreases ends.len(),
{
    if ends.len() == 0 {
        Seq::empty()
    } else {
        panic_updates(ends.drop_last()) + (if ends.last().outcome@ is Panic {
            outcome_updates(ends.last().index, ends.last().outcome@)
        } else {
            Seq::empty()
        })
    }
}

/// Whether every task succeeded.
pub open spec fn all_succeeded(ends: Seq<TaskEnd>) -> bool {
    forall|i: int| 0 <= i < ends.len() ==> (#[trigger] ends[i]).outcome@ is Success
}

/// What follows from the ends of all tasks: the updates for those that broke
/// off, and a failure where any of them did not succeed.
pub fn report_all(ends: &Vec<TaskEnd>) -> (r: (Vec<Update>, Result<(), TaskRunError>))
    ensures
        update_views(r.0@) == panic_updates(ends@),
        match r.1 {
            Ok(_) => all_succeeded(ends@),
            Err(e) => !all_succeeded(ends@) && e == TaskRunError::TaskFailed,
        },
{
    let mut updates: Vec<Update> = Vec::new();
    let mut any_failed = false;
    let mut i: usize = 0;
    proof {
        assert(ends@.take(0) =~= Seq::<TaskEnd>::empty());
        assert(update_views(updates@) =~= Seq::<UpdateView>::empty());
    }
    while i < ends.len()
        invariant
            i <= ends@.len(),
            update_views(updates@) == panic_updates(ends@.take(i as int)),
            any_failed == !all_succeeded(ends@.take(i as int)),
        decreases ends@.len() - i,
    {
        let end = &ends[i];
        let ghost before = updates@;
        let ghost next = ends@.take(i + 1);
        proof {
            assert(next.drop_last() =~= ends@.take(i as int));
            assert(next.last() == *end);
            assert(next[i as int] == *end);
            assert forall|j: int| 0 <= j < i implies (#[trigger] ends@.take(i as int)[j])
                == next[j] by {}
            if all_succeeded(next) {
                assert forall|j: int| 0 <= j < i implies (
                #[trigger] ends@.take(i as int)[j]).outcome@ is Success by {
                    assert(next[j].outcome@ is Success);
                }
            }
            if all_succeeded(ends@.take(i as int)) && end.outcome@ is Success {
                assert forall|j: int| 0 <= j < next.len() implies (
                #[trigger] next[j]).outcome@ is Success by {
                    if j < i {
                        assert(ends@.take(i as int)[j].outcome@ is Success);
                    }
                }
            }
        }
        match &end.outcome {
            TaskOutcome::Success => {},
            TaskOutcome::Error(_) => {
                any_failed = true;
            },
            TaskOutcome::Panic(_) => {
                let (mut more, _) = report_task_outcome(end.index, &end.outcome);
                let ghost added = more@;
                updates.append(&mut more);
                assert(update_views(before + added) =~= update_views(before) + update_views(added));
                any_failed = true;
            },
        }
        assert(update_views(updates@) =~= panic_updates(next));
        i += 1;
    }
    assert(ends@.take(i as int) =~= ends@);
    if any_failed {
        (updates, Err(TaskRunError::TaskFailed))
    } else {
        (updates, Ok(()))
    }
}

} // verus!
