//! The state of the display: one state for each node of a program, or for each
//! project of a sync.
use vstd::prelude::*;
use crate::exec::colors;
use crate::exec::colors::Color;
use crate::ir::program::Program;
use crate::ir::run_plan::{text_option, PlanLine};

verus! {

broadcast use vstd::string::group_string_axioms;

/// The pictures of the spinner, one for each redraw.
pub open spec fn spinner_frames() -> Seq<char> {
    seq!['⠋', '⠙', '⠹', '⠸', '⠼', '⠴', '⠦', '⠧', '⠇', '⠏']
}

/// The picture of the spinner at a redraw.
pub fn spinner_frame(spinner_idx: usize) -> (r: char)
    ensures
        r == spinner_frames()[spinner_idx as int % 10],
{
    match spinner_idx % 10 {
        0 => '⠋',
        1 => '⠙',
        2 => '⠹',
        3 => '⠸',
        4 => '⠼',
        5 => '⠴',
        6 => '⠦',
        7 => '⠧',
        8 => '⠇',
        _ => '⠏',
    }
}

/// How far a task has come.
#[derive(Debug, Clone, Copy, PartialEq, Eq, Structural)]
pub enum TaskStatus {
    Pending,
    Running,
    Success,
    Error,
    /// It did not fail by itself: the run was lost to the failure of another
    /// task.
    Cancelled,
    /// It is not to be run: an arm that was not taken.
    Skipped,
}

/// Whether a task will not change any more.
pub open spec fn is_terminal(status: TaskStatus) -> bool {
    status == TaskStatus::Success || status == TaskStatus::Error || status == TaskStatus::Cancelled
        || status == TaskStatus::Skipped
}

impl TaskStatus {
    /// The mark of a status.
    pub open spec fn glyph_view(self, spinner_idx: nat) -> char {
        match self {
            TaskStatus::Success => '✓',
            TaskStatus::Error => '✗',
            TaskStatus::Cancelled => '■',
            TaskStatus::Skipped => '-',
            TaskStatus::Pending => '·',
            TaskStatus::Running => spinner_frames()[spinner_idx as int % 10],
        }
    }

    /// The mark of this status.
    pub fn glyph(self, spinner_idx: usize) -> (r: char)
        ensures
            r == self.glyph_view(spinner_idx as nat),
    {
        match self {
            TaskStatus::Success => '✓',
            TaskStatus::Error => '✗',
            TaskStatus::Cancelled => '■',
            TaskStatus::Skipped => '-',
            TaskStatus::Pending => '·',
            TaskStatus::Running => spinner_frame(spinner_idx),
        }
    }

    /// The colour of this status in the live view.
    pub fn color(self) -> (r: Color)
        ensures
            r == match self {
                TaskStatus::Success => Color::Indexed(10),
                TaskStatus::Running => Color::Indexed(11),
                TaskStatus::Error => Color::Indexed(9),
                TaskStatus::Cancelled => Color::White,
                _ => Color::Indexed(8),
            },
    {
        match self {
            TaskStatus::Success => Color::Indexed(colors::OK),
            TaskStatus::Running => Color::Indexed(colors::RUNNING),
            TaskStatus::Pending => Color::Indexed(colors::PENDING),
            TaskStatus::Error => Color::Indexed(colors::FAILED),
            TaskStatus::Cancelled => colors::CANCELLED,
            TaskStatus::Skipped => Color::Indexed(colors::PENDING),
        }
    }

    /// The colour of a status in text.
    pub open spec fn ansi_view(self) -> Seq<char> {
        match self {
            TaskStatus::Success => colors::OK_ANSI@,
            TaskStatus::Running => colors::BRIGHT_YELLOW_ANSI@,
            TaskStatus::Error => colors::FAILED_ANSI@,
            TaskStatus::Cancelled => colors::CANCELLED_ANSI@,
            _ => colors::GRAY_ANSI@,
        }
    }

    /// The colour of this status in text.
    pub fn ansi(self) -> (r: &'static str)
        ensures
            r@ == self.ansi_view(),
    {
        match self {
            TaskStatus::Success => colors::OK_ANSI,
            TaskStatus::Running => colors::BRIGHT_YELLOW_ANSI,
            TaskStatus::Pending => colors::GRAY_ANSI,
            TaskStatus::Error => colors::FAILED_ANSI,
            TaskStatus::Cancelled => colors::CANCELLED_ANSI,
            TaskStatus::Skipped => colors::GRAY_ANSI,
        }
    }

    /// Whether this status is terminal.
    pub fn is_done(self) -> (r: bool)
        ensures
            r == is_terminal(self),
    {
        match self {
            TaskStatus::Pending => false,
            TaskStatus::Running => false,
            _ => true,
        }
    }
}

impl Default for TaskStatus {
    fn default() -> (r: Self)
        ensures
            r == TaskStatus::Pending,
    {
        TaskStatus::Pending
    }
}

/// The state of one node: how far it has come, its output, and what became
/// known when it ran.
#[derive(Debug, PartialEq)]
pub struct NodeState {
    pub status: TaskStatus,
    pub output: Vec<String>,
    /// The label with its values, where they were not known before.
    pub label: Option<String>,
    /// The project, where its name was not known before.
    pub project: Option<String>,
}

/// The contents of a [`NodeState`].
pub struct NodeStateView {
    pub status: TaskStatus,
    pub output: Seq<Seq<char>>,
    pub label: Option<Seq<char>>,
    pub project: Option<Seq<char>>,
}

pub open spec fn line_views(s: Seq<String>) -> Seq<Seq<char>> {
    Seq::new(s.len(), |i: int| s[i]@)
}

impl NodeStateView {
    /// The state of a node that has not started.
    pub open spec fn pending(label: Option<Seq<char>>) -> Self {
        NodeStateView {
            status: TaskStatus::Pending,
            output: Seq::empty(),
            label,
            project: None,
        }
    }
}

impl NodeState {
    pub open spec fn view(&self) -> NodeStateView {
        NodeStateView {
            status: self.status,
            output: line_views(self.output@),
            label: text_option(self.label),
            project: text_option(self.project),
        }
    }

    fn pending(label: Option<String>) -> (r: Self)
        ensures
            r@ == NodeStateView::pending(text_option(label)),
    {
        let r = NodeState {
            status: TaskStatus::Pending,
            output: Vec::new(),
            label,
            project: None,
        };
        assert(r@.output =~= Seq::<Seq<char>>::empty());
        r
    }
}

impl Default for NodeState {
    fn default() -> (r: Self)
        ensures
            r@ == NodeStateView::pending(None),
    {
        NodeState::pending(None)
    }
}

pub open spec fn state_views(s: Seq<NodeState>) -> Seq<NodeStateView> {
    Seq::new(s.len(), |i: int| s[i]@)
}

/// Whether every task is terminal.
pub open spec fn all_terminal(s: Seq<NodeStateView>) -> bool {
    forall|i: int| 0 <= i < s.len() ==> is_terminal((#[trigger] s[i]).status)
}

/// The states of the nodes of a program, each under the identity of its node.
#[derive(Debug)]
pub struct Display {
    states: Vec<NodeState>,
}

impl Display {
    pub closed spec fn view(&self) -> Seq<NodeStateView> {
        state_views(self.states@)
    }

    /// A pending state for each node of a program.
    pub fn for_program(program: &Program) -> (r: Self)
        ensures
            r@ == Seq::new(program@.nodes.len(), |i: int| NodeStateView::pending(None)),
    {
        let mut states: Vec<NodeState> = Vec::new();
        while states.len() < program.nodes.len()
            invariant
                states@.len() <= program.nodes@.len(),
                forall|i: int|
                    0 <= i < states@.len() ==> (#[trigger] states@[i])@ == NodeStateView::pending(
                        None,
                    ),
            decreases program.nodes@.len() - states@.len(),
        {
            states.push(NodeState::default());
        }
        let r = Display { states };
        assert(r@ =~= Seq::new(program@.nodes.len(), |i: int| NodeStateView::pending(None)));
        r
    }

    /// A pending state for each label.
    pub fn with_labels(labels: Vec<String>) -> (r: Self)
        ensures
            r@ == Seq::new(labels@.len(), |i: int| NodeStateView::pending(Some(labels@[i]@))),
    {
        let mut states: Vec<NodeState> = Vec::new();
        let mut i: usize = 0;
        while i < labels.len()
            invariant
                i <= labels@.len(),
                states@.len() == i,
                forall|j: int|
                    0 <= j < i ==> (#[trigger] states@[j])@ == NodeStateView::pending(
                        Some(labels@[j]@),
                    ),
            decreases labels@.len() - i,
        {
            states.push(NodeState::pending(Some(labels[i].clone())));
            i += 1;
        }
        let r = Display { states };
        assert(r@ =~= Seq::new(
            labels@.len(),
            |i: int| NodeStateView::pending(Some(labels@[i]@)),
        ));
        r
    }

    /// The number of rows, hidden ones among them.
    pub fn len(&self) -> (r: usize)
        ensures
            r == self@.len(),
    {
        self.states.len()
    }

    /// The state of a node.
    pub fn state(&self, id: usize) -> (r: &NodeState)
        requires
            id < self@.len(),
        ensures
            r@ == self@[id as int],
    {
        &self.states[id]
    }

    /// The states of all nodes.
    pub fn states(&self) -> (r: &Vec<NodeState>)
        ensures
            state_views(r@) == self@,
    {
        &self.states
    }

    /// Change the status of a node.
    pub fn set_status(&mut self, id: usize, status: TaskStatus)
        requires
            id < old(self)@.len(),
        ensures
            final(self)@ == old(self)@.update(
                id as int,
                NodeStateView { status, ..old(self)@[id as int] },
            ),
    {
        let ghost before = self@;
        self.states[id].status = status;
        assert(self@ =~= before.update(
            id as int,
            NodeStateView { status, ..before[id as int] },
        ));
    }

    /// Add a line to the output of a node.
    pub fn push_output(&mut self, id: usize, line: String)
        requires
            id < old(self)@.len(),
        ensures
            final(self)@ == old(self)@.update(
                id as int,
                NodeStateView {
                    output: old(self)@[id as int].output.push(line@),
                    ..old(self)@[id as int]
                },
            ),
    {
        let ghost before = self@;
        let ghost shown = self.states@[id as int].output@;
        self.states[id].output.push(line);
        assert(line_views(shown.push(line)) =~= line_views(shown).push(line@));
        assert(self@ =~= before.update(
            id as int,
            NodeStateView {
                output: before[id as int].output.push(line@),
                ..before[id as int]
            },
        ));
    }

    /// Give a node a label.
    pub fn set_label(&mut self, id: usize, label: String)
        requires
            id < old(self)@.len(),
        ensures
            final(self)@ == old(self)@.update(
                id as int,
                NodeStateView { label: Some(label@), ..old(self)@[id as int] },
            ),
    {
        let ghost before = self@;
        self.states[id].label = Some(label);
        assert(self@ =~= before.update(
            id as int,
            NodeStateView { label: Some(label@), ..before[id as int] },
        ));
    }

    /// Give a node a project.
    pub fn set_project(&mut self, id: usize, project: String)
        requires
            id < old(self)@.len(),
        ensures
            final(self)@ == old(self)@.update(
                id as int,
                NodeStateView { project: Some(project@), ..old(self)@[id as int] },
            ),
    {
        let ghost before = self@;
        self.states[id].project = Some(project);
        assert(self@ =~= before.update(
            id as int,
            NodeStateView { project: Some(project@), ..before[id as int] },
        ));
    }

    /// Whether every row is terminal.
    pub fn all_done(&self) -> (r: bool)
        ensures
            r == all_terminal(self@),
    {
        let mut i: usize = 0;
        while i < self.states.len()
            invariant
                i <= self.states@.len(),
                forall|j: int| 0 <= j < i ==> is_terminal((#[trigger] self@[j]).status),
            decreases self.states@.len() - i,
        {
            if !self.states[i].status.is_done() {
                assert(!is_terminal(self@[i as int].status));
                return false;
            }
            i += 1;
        }
        true
    }
}

/// A row of a run with what it has shown so far.
#[derive(Debug, PartialEq)]
pub struct TaskRow {
    pub name: String,
    pub status: TaskStatus,
    pub output: Vec<String>,
    /// What stands before it.
    pub prefix: String,
    /// What stands before its output.
    pub output_prefix: String,
    /// The project that it runs in.
    pub project: Option<String>,
}

/// The contents of a [`TaskRow`].
pub struct TaskRowView {
    pub name: Seq<char>,
    pub status: TaskStatus,
    pub output: Seq<Seq<char>>,
    pub prefix: Seq<char>,
    pub output_prefix: Seq<char>,
    pub project: Option<Seq<char>>,
}

impl TaskRow {
    pub open spec fn view(&self) -> TaskRowView {
        TaskRowView {
            name: self.name@,
            status: self.status,
            output: line_views(self.output@),
            prefix: self.prefix@,
            output_prefix: self.output_prefix@,
            project: text_option(self.project),
        }
    }
}

pub open spec fn task_views(s: Seq<TaskRow>) -> Seq<TaskRowView> {
    Seq::new(s.len(), |i: int| s[i]@)
}

/// The row of a plan before it has started.
pub open spec fn pending_row(line: PlanLine) -> TaskRowView {
    TaskRowView {
        name: line.label@,
        status: TaskStatus::Pending,
        output: Seq::empty(),
        prefix: line.prefix@,
        output_prefix: line.output_prefix@,
        project: text_option(line.project),
    }
}

/// The rows of a run. A row stands at the place that the compiler gave it.
#[derive(Debug, PartialEq)]
pub struct Model {
    pub tasks: Vec<TaskRow>,
}

impl Model {
    pub open spec fn view(&self) -> Seq<TaskRowView> {
        task_views(self.tasks@)
    }

    /// The rows of a plan, none of them started.
    pub fn from_plan(plan: Vec<PlanLine>) -> (r: Self)
        ensures
            r@ == Seq::new(plan@.len(), |i: int| pending_row(plan@[i])),
    {
        let mut tasks: Vec<TaskRow> = Vec::new();
        let mut i: usize = 0;
        while i < plan.len()
            invariant
                i <= plan@.len(),
                tasks@.len() == i,
                forall|j: int| 0 <= j < i ==> (#[trigger] tasks@[j])@ == pending_row(plan@[j]),
            decreases plan@.len() - i,
        {
            let line = &plan[i];
            let task = TaskRow {
                name: line.label.clone(),
                status: TaskStatus::Pending,
                output: Vec::new(),
                prefix: line.prefix.clone(),
                output_prefix: line.output_prefix.clone(),
                project: match &line.project {
                    Some(p) => Some(p.clone()),
                    None => None,
                },
            };
            assert(task@.output =~= Seq::<Seq<char>>::empty());
            tasks.push(task);
            i += 1;
        }
        let r = Model { tasks };
        assert(r@ =~= Seq::new(plan@.len(), |i: int| pending_row(plan@[i])));
        r
    }

    /// Change the status of a row; there may be none at `index`.
    pub fn update_task_status(&mut self, index: usize, status: TaskStatus)
        ensures
            final(self)@ == if index < old(self)@.len() {
                old(self)@.update(
                    index as int,
                    TaskRowView { status, ..old(self)@[index as int] },
                )
            } else {
                old(self)@
            },
    {
        let ghost before = self@;
        if index < self.tasks.len() {
            self.tasks[index].status = status;
            assert(self@ =~= before.update(
                index as int,
                TaskRowView { status, ..before[index as int] },
            ));
        }
    }

    /// Add a line to the output of a row; there may be none at `idx`.
    pub fn append_output(&mut self, idx: usize, line: String)
        ensures
            final(self)@ == if idx < old(self)@.len() {
                old(self)@.update(
                    idx as int,
                    TaskRowView {
                        output: old(self)@[idx as int].output.push(line@),
                        ..old(self)@[idx as int]
                    },
                )
            } else {
                old(self)@
            },
    {
        let ghost before = self@;
        if idx < self.tasks.len() {
            let ghost shown = self.tasks@[idx as int].output@;
            self.tasks[idx].output.push(line);
            assert(line_views(shown.push(line)) =~= line_views(shown).push(line@));
            assert(self@ =~= before.update(
                idx as int,
                TaskRowView {
                    output: before[idx as int].output.push(line@),
                    ..before[idx as int]
                },
            ));
        }
    }

    /// Whether every row is terminal.
    pub fn all_done(&self) -> (r: bool)
        ensures
            r == forall|i: int|
                0 <= i < self@.len() ==> is_terminal((#[trigger] self@[i]).status),
    {
        let mut i: usize = 0;
        while i < self.tasks.len()
            invariant
                i <= self.tasks@.len(),
                forall|j: int| 0 <= j < i ==> is_terminal((#[trigger] self@[j]).status),
            decreases self.tasks@.len() - i,
        {
            if !self.tasks[i].status.is_done() {
                assert(!is_terminal(self@[i as int].status));
                return false;
            }
            i += 1;
        }
        true
    }
}

} // verus!
