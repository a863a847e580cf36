//! The execution form of a configuration: what the compiler hands to the
//! executor.
//!
//! Everything in it is resolved text or a [`Template`]. [`Ir`] is the form that
//! is written to a textual kirufile and read back; [`program`] holds the arena
//! that the executor walks.
use vstd::prelude::*;
use crate::names::{map_entries, Entries, NameMap};
use crate::plan::{stage_views, ArmPattern, ArmPatternView, Call, CallView};

pub mod deserialize;
pub mod meaning;
pub mod named;
pub mod program;
pub mod round_trip;
pub mod run_plan;
pub mod serialize;

verus! {

broadcast use vstd::string::group_string_axioms;

/// A single piece of a [`Template`].
#[derive(Debug, PartialEq)]
pub enum Segment {
    /// Literal text.
    Lit(String),
    /// A command whose output stands here.
    Cmd(Template),
    /// A command together with the place in a source file that it came from.
    CmdAt { template: Template, start: usize, len: usize, file: String },
    /// The value of a declared variable. The value is computed once, under the
    /// identity of the declaration.
    Ref { id: usize, template: Template },
}

/// A template: the one form that text takes.
#[derive(Debug, PartialEq)]
pub struct Template {
    pub parts: Vec<Segment>,
}

/// The contents of a [`Segment`].
pub enum SegmentView {
    Lit(Seq<char>),
    Cmd(TemplateView),
    CmdAt { template: TemplateView, start: nat, len: nat, file: Seq<char> },
    Ref { id: nat, template: TemplateView },
}

/// The contents of a [`Template`].
pub struct TemplateView {
    pub parts: Seq<SegmentView>,
}

pub open spec fn segment_view(p: Segment) -> SegmentView
    decreases p,
{
    match p {
        Segment::Lit(s) => SegmentView::Lit(s@),
        Segment::Cmd(t) => SegmentView::Cmd(template_view(t)),
        Segment::CmdAt { template, start, len, file } => SegmentView::CmdAt {
            template: template_view(template),
            start: start as nat,
            len: len as nat,
            file: file@,
        },
        Segment::Ref { id, template } => SegmentView::Ref {
            id: id as nat,
            template: template_view(template),
        },
    }
}

pub open spec fn template_view(t: Template) -> TemplateView
    decreases t,
{
    TemplateView {
        parts: Seq::new(
            t.parts@.len(),
            |i: int|
                if 0 <= i < t.parts@.len() {
                    segment_view(t.parts@[i])
                } else {
                    arbitrary()
                },
        ),
    }
}

pub open spec fn segment_views(s: Seq<Segment>) -> Seq<SegmentView> {
    Seq::new(s.len(), |i: int| segment_view(s[i]))
}

impl Segment {
    pub open spec fn view(&self) -> SegmentView {
        segment_view(*self)
    }
}

impl TemplateView {
    /// The template without parts.
    pub open spec fn empty() -> Self {
        TemplateView { parts: Seq::empty() }
    }
}

/// The literal text of a template, with every command shown as `$(..)` and
/// every variable by its value.
pub open spec fn shown(t: TemplateView) -> Seq<char>
    decreases t,
{
    shown_parts(t.parts)
}

pub open spec fn shown_parts(parts: Seq<SegmentView>) -> Seq<char>
    decreases parts,
{
    if parts.len() == 0 {
        Seq::empty()
    } else {
        shown_parts(parts.drop_last()) + match parts.last() {
            SegmentView::Lit(s) => s,
            SegmentView::Cmd(inner) => "$("@ + shown(inner) + ")"@,
            SegmentView::CmdAt { template, .. } => "$("@ + shown(template) + ")"@,
            SegmentView::Ref { template, .. } => shown(template),
        }
    }
}

/// Whether a command stands anywhere in a template.
pub open spec fn has_command(t: TemplateView) -> bool
    decreases t,
{
    parts_have_command(t.parts)
}

pub open spec fn parts_have_command(parts: Seq<SegmentView>) -> bool
    decreases parts,
{
    parts.len() > 0 && (parts_have_command(parts.drop_last()) || match parts.last() {
        SegmentView::Lit(_) => false,
        SegmentView::Cmd(_) => true,
        SegmentView::CmdAt { .. } => true,
        SegmentView::Ref { template, .. } => has_command(template),
    })
}

/// A command found among the first parts is one of all of them.
proof fn lemma_prefix_command(parts: Seq<SegmentView>, n: int)
    requires
        0 <= n <= parts.len(),
        parts_have_command(parts.take(n)),
    ensures
        parts_have_command(parts),
    decreases parts.len(),
{
    if n < parts.len() {
        assert(parts.drop_last().take(n) =~= parts.take(n));
        lemma_prefix_command(parts.drop_last(), n);
    } else {
        assert(parts.take(n) =~= parts);
    }
}

impl Template {
    pub open spec fn view(&self) -> TemplateView {
        template_view(*self)
    }

    /// A template that consists of one literal text.
    pub fn lit(s: &str) -> (r: Self)
        ensures
            r@ == (TemplateView { parts: seq![SegmentView::Lit(s@)] }),
    {
        let r = Template { parts: vec![Segment::Lit(s.to_owned())] };
        assert(r@.parts =~= seq![SegmentView::Lit(s@)]);
        r
    }

    /// What a plan shows of the template: its text with every command kept as
    /// `$(..)`, and every variable by the value it stands for.
    pub fn plan_text(&self) -> (r: String)
        ensures
            r@ == shown(self@),
        decreases self,
    {
        let mut out = String::new();
        let mut i: usize = 0;
        assert(self@.parts.take(0) =~= Seq::<SegmentView>::empty());
        while i < self.parts.len()
            invariant
                i <= self.parts@.len(),
                out@ == shown_parts(self@.parts.take(i as int)),
            decreases self.parts@.len() - i,
        {
            let ghost done = out@;
            proof {
                let next = self@.parts.take(i + 1);
                assert(next.drop_last() =~= self@.parts.take(i as int));
                assert(next.last() == self.parts@[i as int]@);
                assert(decreases_to!(self.parts@ => self.parts@[i as int]));
            }
            match &self.parts[i] {
                Segment::Lit(s) => {
                    out.push_str(s.as_str());
                },
                Segment::Cmd(inner) => {
                    assert(decreases_to!(self.parts@[i as int] => self.parts@[i as int]->Cmd_0));
                    out.push_str("$(");
                    out.push_str(inner.plan_text().as_str());
                    out.push_str(")");
                    assert(out@ =~= done + ("$("@ + shown(inner@) + ")"@));
                },
                Segment::CmdAt { template, .. } => {
                    assert(decreases_to!(self.parts@[i as int] => self.parts@[i as int]->CmdAt_template));
                    out.push_str("$(");
                    out.push_str(template.plan_text().as_str());
                    out.push_str(")");
                    assert(out@ =~= done + ("$("@ + shown(template@) + ")"@));
                },
                Segment::Ref { template, .. } => {
                    assert(decreases_to!(self.parts@[i as int] => self.parts@[i as int]->Ref_template));
                    out.push_str(template.plan_text().as_str());
                },
            }
            i += 1;
        }
        assert(self@.parts.take(i as int) =~= self@.parts);
        out
    }

    /// Whether the template gets its value only when it runs: it does when a
    /// command stands in it, or in the value of a variable it refers to.
    pub fn is_dynamic(&self) -> (r: bool)
        ensures
            r == has_command(self@),
        decreases self,
    {
        let mut i: usize = 0;
        assert(self@.parts.take(0) =~= Seq::<SegmentView>::empty());
        while i < self.parts.len()
            invariant
                i <= self.parts@.len(),
                !parts_have_command(self@.parts.take(i as int)),
            decreases self.parts@.len() - i,
        {
            proof {
                let next = self@.parts.take(i + 1);
                assert(next.drop_last() =~= self@.parts.take(i as int));
                assert(next.last() == self.parts@[i as int]@);
                assert(decreases_to!(self.parts@ => self.parts@[i as int]));
                if parts_have_command(next) {
                    lemma_prefix_command(self@.parts, i + 1);
                }
            }
            match &self.parts[i] {
                Segment::Lit(_) => {},
                Segment::Cmd(_) => {
                    return true;
                },
                Segment::CmdAt { .. } => {
                    return true;
                },
                Segment::Ref { template, .. } => {
                    assert(decreases_to!(self.parts@[i as int] => self.parts@[i as int]->Ref_template));
                    if template.is_dynamic() {
                        return true;
                    }
                },
            }
            i += 1;
        }
        assert(self@.parts.take(i as int) =~= self@.parts);
        false
    }
}

impl Default for Template {
    fn default() -> (r: Self)
        ensures
            r@ == TemplateView::empty(),
    {
        let r = Template { parts: Vec::new() };
        assert(r@.parts =~= Seq::<SegmentView>::empty());
        r
    }
}

/// A variable that an `env` block sets.
#[derive(Debug, PartialEq)]
pub struct EnvPair {
    pub key: String,
    pub value: Template,
}

/// The contents of an [`EnvPair`].
pub struct EnvPairView {
    pub key: Seq<char>,
    pub value: TemplateView,
}

impl EnvPair {
    pub open spec fn view(&self) -> EnvPairView {
        EnvPairView { key: self.key@, value: self.value@ }
    }
}

pub open spec fn pair_views(s: Seq<EnvPair>) -> Seq<EnvPairView> {
    Seq::new(s.len(), |i: int| s[i]@)
}

/// An arm of a `switch` block; `row` is its place among the displayed rows.
#[derive(Debug, PartialEq)]
pub struct Arm {
    pub row: usize,
    pub pattern: ArmPattern,
    pub body: Vec<Instruction>,
}

/// An instruction, ready to be carried out.
#[derive(Debug, PartialEq)]
pub enum Instruction {
    /// Run the resolved command.
    Exec { command: Template },
    /// Write the value to the log.
    Log(Template),
    /// Change the working directory.
    Cd(Template),
    /// Run `body` with the variables of `pairs` set.
    Env { pairs: Vec<EnvPair>, body: Vec<Instruction> },
    /// Run the first arm whose pattern matches `subject`.
    Switch { subject: Template, arms: Vec<Arm> },
    /// Run `body` as one displayed row.
    Step { row: usize, label: String, body: Vec<Instruction> },
    /// Run `body` beside what follows.
    Async { body: Vec<Instruction> },
    /// Run `body` in the context of a project.
    Context { project: Template, body: Vec<Instruction> },
}

/// The contents of an [`Arm`].
pub struct ArmView {
    pub row: nat,
    pub pattern: ArmPatternView,
    pub body: Seq<InstructionView>,
}

/// The contents of an [`Instruction`].
pub enum InstructionView {
    Exec { command: TemplateView },
    Log(TemplateView),
    Cd(TemplateView),
    Env { pairs: Seq<EnvPairView>, body: Seq<InstructionView> },
    Switch { subject: TemplateView, arms: Seq<ArmView> },
    Step { row: nat, label: Seq<char>, body: Seq<InstructionView> },
    Async { body: Seq<InstructionView> },
    Context { project: TemplateView, body: Seq<InstructionView> },
}

pub open spec fn arm_view(a: Arm) -> ArmView
    decreases a,
{
    ArmView {
        row: a.row as nat,
        pattern: a.pattern@,
        body: Seq::new(
            a.body@.len(),
            |i: int|
                if 0 <= i < a.body@.len() {
                    instruction_view(a.body@[i])
                } else {
                    arbitrary()
                },
        ),
    }
}

pub open spec fn instruction_view(inst: Instruction) -> InstructionView
    decreases inst,
{
    match inst {
        Instruction::Exec { command } => InstructionView::Exec { command: command@ },
        Instruction::Log(value) => InstructionView::Log(value@),
        Instruction::Cd(value) => InstructionView::Cd(value@),
        Instruction::Env { pairs, body } => InstructionView::Env {
            pairs: pair_views(pairs@),
            body: Seq::new(
                body@.len(),
                |i: int|
                    if 0 <= i < body@.len() {
                        instruction_view(body@[i])
                    } else {
                        arbitrary()
                    },
            ),
        },
        Instruction::Switch { subject, arms } => InstructionView::Switch {
            subject: subject@,
            arms: Seq::new(
                arms@.len(),
                |i: int|
                    if 0 <= i < arms@.len() {
                        arm_view(arms@[i])
                    } else {
                        arbitrary()
                    },
            ),
        },
        Instruction::Step { row, label, body } => InstructionView::Step {
            row: row as nat,
            label: label@,
            body: Seq::new(
                body@.len(),
                |i: int|
                    if 0 <= i < body@.len() {
                        instruction_view(body@[i])
                    } else {
                        arbitrary()
                    },
            ),
        },
        Instruction::Async { body } => InstructionView::Async {
            body: Seq::new(
                body@.len(),
                |i: int|
                    if 0 <= i < body@.len() {
                        instruction_view(body@[i])
                    } else {
                        arbitrary()
                    },
            ),
        },
        Instruction::Context { project, body } => InstructionView::Context {
            project: project@,
            body: Seq::new(
                body@.len(),
                |i: int|
                    if 0 <= i < body@.len() {
                        instruction_view(body@[i])
                    } else {
                        arbitrary()
                    },
            ),
        },
    }
}

pub open spec fn instruction_views(s: Seq<Instruction>) -> Seq<InstructionView> {
    Seq::new(s.len(), |i: int| instruction_view(s[i]))
}

pub open spec fn arm_views(s: Seq<Arm>) -> Seq<ArmView> {
    Seq::new(s.len(), |i: int| arm_view(s[i]))
}

impl Arm {
    pub open spec fn view(&self) -> ArmView {
        arm_view(*self)
    }
}

impl Instruction {
    pub open spec fn view(&self) -> InstructionView {
        instruction_view(*self)
    }
}

/// A repository and how to keep it in step.
#[derive(Debug, PartialEq)]
pub struct Sync {
    pub url: Template,
    pub dir: Template,
    pub branch: Template,
    pub strategy: Template,
}

/// The contents of a [`Sync`].
pub struct SyncView {
    pub url: TemplateView,
    pub dir: TemplateView,
    pub branch: TemplateView,
    pub strategy: TemplateView,
}

impl SyncView {
    /// The repository of which nothing is said.
    pub open spec fn empty() -> Self {
        SyncView {
            url: TemplateView::empty(),
            dir: TemplateView::empty(),
            branch: TemplateView::empty(),
            strategy: TemplateView::empty(),
        }
    }
}

impl Sync {
    pub open spec fn view(&self) -> SyncView {
        SyncView {
            url: self.url@,
            dir: self.dir@,
            branch: self.branch@,
            strategy: self.strategy@,
        }
    }
}

impl Default for Sync {
    fn default() -> (r: Self)
        ensures
            r@ == SyncView::empty(),
    {
        Sync {
            url: Template::default(),
            dir: Template::default(),
            branch: Template::default(),
            strategy: Template::default(),
        }
    }
}

/// A project: its functions by name.
#[derive(Debug, PartialEq)]
pub struct Project {
    pub functions: NameMap<Vec<Instruction>>,
}

/// The contents of a [`Project`].
pub struct ProjectView {
    pub functions: Entries<Seq<InstructionView>>,
}

pub open spec fn body_viewer() -> spec_fn(Vec<Instruction>) -> Seq<InstructionView> {
    |b: Vec<Instruction>| instruction_views(b@)
}

impl Project {
    pub open spec fn view(&self) -> ProjectView {
        ProjectView { functions: map_entries(self.functions@, body_viewer()) }
    }
}

impl Default for Project {
    fn default() -> (r: Self)
        ensures
            r@ == (ProjectView { functions: Seq::empty() }),
    {
        let r = Project { functions: NameMap::new() };
        assert(r@.functions =~= Seq::<(Seq<char>, Seq<InstructionView>)>::empty());
        r
    }
}

/// What the executor works from.
#[derive(Debug, PartialEq)]
pub struct Ir {
    /// The shell that runs commands.
    pub shell: String,
    /// How long a command may take.
    pub timeout: u64,
    /// The texts of the source files by name.
    pub sources: NameMap<String>,
    /// Repositories by name.
    pub repositories: NameMap<Sync>,
    /// Projects by name.
    pub projects: NameMap<Project>,
    /// Runs by name, as chains of calls.
    pub execution_chains: NameMap<Vec<Vec<Call>>>,
    /// Runs by name, as instructions.
    pub runs: NameMap<Vec<Instruction>>,
}

/// The contents of an [`Ir`].
pub struct IrView {
    pub shell: Seq<char>,
    pub timeout: nat,
    pub sources: Entries<Seq<char>>,
    pub repositories: Entries<SyncView>,
    pub projects: Entries<ProjectView>,
    pub execution_chains: Entries<Seq<Seq<CallView>>>,
    pub runs: Entries<Seq<InstructionView>>,
}

pub open spec fn text_viewer() -> spec_fn(String) -> Seq<char> {
    |s: String| s@
}

pub open spec fn sync_viewer() -> spec_fn(Sync) -> SyncView {
    |s: Sync| s@
}

pub open spec fn project_viewer() -> spec_fn(Project) -> ProjectView {
    |p: Project| p@
}

pub open spec fn chain_viewer() -> spec_fn(Vec<Vec<Call>>) -> Seq<Seq<CallView>> {
    |r: Vec<Vec<Call>>| stage_views(r@)
}

impl IrView {
    /// The form in which nothing is set.
    pub open spec fn empty() -> Self {
        IrView {
            shell: Seq::empty(),
            timeout: 0,
            sources: Seq::empty(),
            repositories: Seq::empty(),
            projects: Seq::empty(),
            execution_chains: Seq::empty(),
            runs: Seq::empty(),
        }
    }
}

impl Ir {
    pub open spec fn view(&self) -> IrView {
        IrView {
            shell: self.shell@,
            timeout: self.timeout as nat,
            sources: map_entries(self.sources@, text_viewer()),
            repositories: map_entries(self.repositories@, sync_viewer()),
            projects: map_entries(self.projects@, project_viewer()),
            execution_chains: map_entries(self.execution_chains@, chain_viewer()),
            runs: map_entries(self.runs@, body_viewer()),
        }
    }
}

impl Default for Ir {
    fn default() -> (r: Self)
        ensures
            r@ == IrView::empty(),
    {
        let r = Ir {
            shell: String::new(),
            timeout: 0,
            sources: NameMap::new(),
            repositories: NameMap::new(),
            projects: NameMap::new(),
            execution_chains: NameMap::new(),
            runs: NameMap::new(),
        };
        assert(r@.shell =~= Seq::<char>::empty());
        assert(r@.sources =~= Seq::<(Seq<char>, Seq<char>)>::empty());
        assert(r@.repositories =~= Seq::<(Seq<char>, SyncView)>::empty());
        assert(r@.projects =~= Seq::<(Seq<char>, ProjectView)>::empty());
        assert(r@.execution_chains =~= Seq::<(Seq<char>, Seq<Seq<CallView>>)>::empty());
        assert(r@.runs =~= Seq::<(Seq<char>, Seq<InstructionView>)>::empty());
        r
    }
}

} // verus!
