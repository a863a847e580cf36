//! The execution plan: what a configuration compiles to.
//!
//! A [`Plan`] is fully resolved: everything in it is text or a template of text
//! and commands. It can be written as a textual kirufile, an s-expression, and
//! read back from one.
use vstd::prelude::*;
use crate::names::{map_entries, Entries, NameMap};

pub mod lines;
pub mod read;
pub mod round_trip;
pub mod write;

pub use write::{render_template, write_template};

verus! {

broadcast use vstd::string::group_string_axioms;

/// A single piece of a [`Template`].
#[derive(Debug, PartialEq)]
pub enum Part {
    /// Literal text.
    Lit(String),
    /// A command substitution: the inner template is run by the shell and
    /// stands for what it prints.
    Cmd(Template),
}

/// A template: the one form that text takes in a plan.
#[derive(Debug, PartialEq)]
pub struct Template {
    pub parts: Vec<Part>,
}

/// The contents of a [`Part`].
pub enum PartView {
    Lit(Seq<char>),
    Cmd(TemplateView),
}

/// The contents of a [`Template`].
pub struct TemplateView {
    pub parts: Seq<PartView>,
}

pub open spec fn part_view(p: Part) -> PartView
    decreases p,
{
    match p {
        Part::Lit(s) => PartView::Lit(s@),
        Part::Cmd(t) => PartView::Cmd(template_view(t)),
    }
}

pub open spec fn template_view(t: Template) -> TemplateView
    decreases t,
{
    TemplateView {
        parts: Seq::new(
            t.parts@.len(),
            |i: int|
                if 0 <= i < t.parts@.len() {
                    part_view(t.parts@[i])
                } else {
                    arbitrary()
                },
        ),
    }
}

impl Part {
    pub open spec fn view(&self) -> PartView {
        part_view(*self)
    }
}

impl TemplateView {
    /// The template without parts.
    pub open spec fn empty() -> Self {
        TemplateView { parts: Seq::empty() }
    }
}

impl Template {
    pub open spec fn view(&self) -> TemplateView {
        template_view(*self)
    }

    /// A template that consists of one literal text.
    pub fn lit(s: &str) -> (r: Self)
        ensures
            r@ == (TemplateView { parts: seq![PartView::Lit(s@)] }),
    {
        let r = Template { parts: vec![Part::Lit(s.to_owned())] };
        assert(r@.parts =~= seq![PartView::Lit(s@)]);
        r
    }
}

impl Default for Template {
    fn default() -> (r: Self)
        ensures
            r@ == TemplateView::empty(),
    {
        let r = Template { parts: Vec::new() };
        assert(r@.parts =~= Seq::<PartView>::empty());
        r
    }
}

/// A variable that an `env` block sets.
#[derive(Debug, PartialEq)]
pub struct EnvPair {
    pub key: String,
    pub value: Template,
}

/// The contents of an [`EnvPair`].
pub struct EnvPairView {
    pub key: Seq<char>,
    pub value: TemplateView,
}

impl EnvPair {
    pub open spec fn view(&self) -> EnvPairView {
        EnvPairView { key: self.key@, value: self.value@ }
    }
}

/// The pattern of an arm of a `switch` block.
#[derive(Debug, PartialEq)]
pub enum ArmPattern {
    /// Matches this text.
    Lit(String),
    /// Matches every text.
    Default,
}

/// The contents of an [`ArmPattern`].
pub enum ArmPatternView {
    Lit(Seq<char>),
    Default,
}

impl ArmPattern {
    pub open spec fn view(&self) -> ArmPatternView {
        match self {
            ArmPattern::Lit(s) => ArmPatternView::Lit(s@),
            ArmPattern::Default => ArmPatternView::Default,
        }
    }
}

/// An arm of a `switch` block.
#[derive(Debug, PartialEq)]
pub struct Arm {
    pub pattern: ArmPattern,
    pub body: Vec<Instruction>,
}

/// An instruction of a function, ready to be carried out.
#[derive(Debug, PartialEq)]
pub enum Instruction {
    /// Run the commands of `value` for their effects.
    Bind { value: Template },
    /// Write the value to the log.
    Log(Template),
    /// Change the working directory.
    Cd(Template),
    /// Run `body` with the variables of `pairs` set.
    Env { pairs: Vec<EnvPair>, body: Vec<Instruction> },
    /// Run the first arm whose pattern matches `subject`.
    Switch { subject: Template, arms: Vec<Arm> },
}

/// The contents of an [`Arm`].
pub struct ArmView {
    pub pattern: ArmPatternView,
    pub body: Seq<InstructionView>,
}

/// The contents of an [`Instruction`].
pub enum InstructionView {
    Bind { value: TemplateView },
    Log(TemplateView),
    Cd(TemplateView),
    Env { pairs: Seq<EnvPairView>, body: Seq<InstructionView> },
    Switch { subject: TemplateView, arms: Seq<ArmView> },
}

pub open spec fn pair_views(s: Seq<EnvPair>) -> Seq<EnvPairView> {
    Seq::new(s.len(), |i: int| s[i]@)
}

pub open spec fn arm_view(a: Arm) -> ArmView
    decreases a,
{
    ArmView {
        pattern: a.pattern@,
        body: Seq::new(
            a.body@.len(),
            |i: int|
                if 0 <= i < a.body@.len() {
                    instruction_view(a.body@[i])
                } else {
                    arbitrary()
                },
        ),
    }
}

pub open spec fn instruction_view(inst: Instruction) -> InstructionView
    decreases inst,
{
    match inst {
        Instruction::Bind { value } => InstructionView::Bind { value: value@ },
        Instruction::Log(value) => InstructionView::Log(value@),
        Instruction::Cd(value) => InstructionView::Cd(value@),
        Instruction::Env { pairs, body } => InstructionView::Env {
            pairs: pair_views(pairs@),
            body: Seq::new(
                body@.len(),
                |i: int|
                    if 0 <= i < body@.len() {
                        instruction_view(body@[i])
                    } else {
                        arbitrary()
                    },
            ),
        },
        Instruction::Switch { subject, arms } => InstructionView::Switch {
            subject: subject@,
            arms: Seq::new(
                arms@.len(),
                |i: int|
                    if 0 <= i < arms@.len() {
                        arm_view(arms@[i])
                    } else {
                        arbitrary()
                    },
            ),
        },
    }
}

pub open spec fn instruction_views(s: Seq<Instruction>) -> Seq<InstructionView> {
    Seq::new(s.len(), |i: int| instruction_view(s[i]))
}

pub open spec fn arm_views(s: Seq<Arm>) -> Seq<ArmView> {
    Seq::new(s.len(), |i: int| arm_view(s[i]))
}

impl Arm {
    pub open spec fn view(&self) -> ArmView {
        arm_view(*self)
    }
}

impl Instruction {
    pub open spec fn view(&self) -> InstructionView {
        instruction_view(*self)
    }
}

/// A reference to a function of a project.
#[derive(Debug, PartialEq, Eq)]
pub struct Call {
    pub project: String,
    pub function: String,
}

/// The contents of a [`Call`].
pub struct CallView {
    pub project: Seq<char>,
    pub function: Seq<char>,
}

impl Call {
    pub open spec fn view(&self) -> CallView {
        CallView { project: self.project@, function: self.function@ }
    }

    /// The qualified name `project::function`.
    pub fn fqn(&self) -> (r: String)
        ensures
            r@ == self.project@ + "::"@ + self.function@,
    {
        let mut r = self.project.clone();
        r.push_str("::");
        r.push_str(self.function.as_str());
        r
    }
}

pub open spec fn call_views(s: Seq<Call>) -> Seq<CallView> {
    Seq::new(s.len(), |i: int| s[i]@)
}

pub open spec fn stage_views(s: Seq<Vec<Call>>) -> Seq<Seq<CallView>> {
    Seq::new(s.len(), |i: int| call_views(s[i]@))
}

/// A repository and how to keep it in step.
#[derive(Debug, PartialEq)]
pub struct Sync {
    pub url: Template,
    pub dir: Template,
    pub branch: Template,
    pub strategy: Template,
}

/// The contents of a [`Sync`].
pub struct SyncView {
    pub url: TemplateView,
    pub dir: TemplateView,
    pub branch: TemplateView,
    pub strategy: TemplateView,
}

impl SyncView {
    /// The repository of which nothing is said.
    pub open spec fn empty() -> Self {
        SyncView {
            url: TemplateView::empty(),
            dir: TemplateView::empty(),
            branch: TemplateView::empty(),
            strategy: TemplateView::empty(),
        }
    }
}

impl Sync {
    pub open spec fn view(&self) -> SyncView {
        SyncView {
            url: self.url@,
            dir: self.dir@,
            branch: self.branch@,
            strategy: self.strategy@,
        }
    }
}

impl Default for Sync {
    fn default() -> (r: Self)
        ensures
            r@ == SyncView::empty(),
    {
        Sync {
            url: Template::default(),
            dir: Template::default(),
            branch: Template::default(),
            strategy: Template::default(),
        }
    }
}

/// A project: its functions by name.
#[derive(Debug, PartialEq)]
pub struct Project {
    pub functions: NameMap<Vec<Instruction>>,
}

/// The contents of a [`Project`].
pub struct ProjectView {
    pub functions: Entries<Seq<InstructionView>>,
}

pub open spec fn body_viewer() -> spec_fn(Vec<Instruction>) -> Seq<InstructionView> {
    |b: Vec<Instruction>| instruction_views(b@)
}

impl Project {
    pub open spec fn view(&self) -> ProjectView {
        ProjectView { functions: map_entries(self.functions@, body_viewer()) }
    }
}

impl Default for Project {
    fn default() -> (r: Self)
        ensures
            r@ == (ProjectView { functions: Seq::empty() }),
    {
        let r = Project { functions: NameMap::new() };
        assert(r@.functions =~= Seq::<(Seq<char>, Seq<InstructionView>)>::empty());
        r
    }
}

/// The plan that an executor works from.
#[derive(Debug, PartialEq)]
pub struct Plan {
    /// The shell that runs commands.
    pub shell: String,
    /// Repositories by name.
    pub syncs: NameMap<Sync>,
    /// Projects by name.
    pub projects: NameMap<Project>,
    /// Runs by name. A run is a list of chains that run side by side; the calls
    /// of one chain run one after the other.
    pub run_blocks: NameMap<Vec<Vec<Call>>>,
}

/// The contents of a [`Plan`].
pub struct PlanView {
    pub shell: Seq<char>,
    pub syncs: Entries<SyncView>,
    pub projects: Entries<ProjectView>,
    pub run_blocks: Entries<Seq<Seq<CallView>>>,
}

pub open spec fn sync_viewer() -> spec_fn(Sync) -> SyncView {
    |s: Sync| s@
}

pub open spec fn project_viewer() -> spec_fn(Project) -> ProjectView {
    |p: Project| p@
}

pub open spec fn run_viewer() -> spec_fn(Vec<Vec<Call>>) -> Seq<Seq<CallView>> {
    |r: Vec<Vec<Call>>| stage_views(r@)
}

impl PlanView {
    /// The plan in which nothing is set.
    pub open spec fn empty() -> Self {
        PlanView {
            shell: Seq::empty(),
            syncs: Seq::empty(),
            projects: Seq::empty(),
            run_blocks: Seq::empty(),
        }
    }
}

impl Plan {
    pub open spec fn view(&self) -> PlanView {
        PlanView {
            shell: self.shell@,
            syncs: map_entries(self.syncs@, sync_viewer()),
            projects: map_entries(self.projects@, project_viewer()),
            run_blocks: map_entries(self.run_blocks@, run_viewer()),
        }
    }
}

impl Default for Plan {
    fn default() -> (r: Self)
        ensures
            r@ == PlanView::empty(),
    {
        let r = Plan {
            shell: String::new(),
            syncs: NameMap::new(),
            projects: NameMap::new(),
            run_blocks: NameMap::new(),
        };
        assert(r@.shell =~= Seq::<char>::empty());
        assert(r@.syncs =~= Seq::<(Seq<char>, SyncView)>::empty());
        assert(r@.projects =~= Seq::<(Seq<char>, ProjectView)>::empty());
        assert(r@.run_blocks =~= Seq::<(Seq<char>, Seq<Seq<CallView>>)>::empty());
        r
    }
}

} // verus!
