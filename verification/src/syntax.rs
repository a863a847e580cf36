//! The template language: declarations whose values are templates, texts that
//! hold references to variables, `@(name)`, and commands, `$(command)`.
use vstd::prelude::*;
use crate::dsl::ast::ProjectField;
use crate::plan::{stage_views, ArmPattern, ArmPatternView, Call, CallView};

pub mod grammar;
pub mod lexer;
pub mod parser;
pub mod read_back;
pub mod spelling;

verus! {

broadcast use vstd::string::group_string_axioms;

/// A piece of a [`Template`].
#[derive(Debug, PartialEq)]
pub enum Part {
    /// Literal text.
    Lit(String),
    /// A reference to a variable.
    Var(String),
    /// A command whose output stands here.
    Cmd(Template),
}

/// A template and its place in the source.
#[derive(Debug, PartialEq)]
pub struct Template {
    pub parts: Vec<Part>,
    pub offset: usize,
    pub len: usize,
    pub source_name: String,
}

/// The contents of a [`Part`].
pub enum PartView {
    Lit(Seq<char>),
    Var(Seq<char>),
    Cmd(TemplateView),
}

/// The contents of a [`Template`].
pub struct TemplateView {
    pub parts: Seq<PartView>,
    pub offset: usize,
    pub len: usize,
    pub source_name: Seq<char>,
}

pub open spec fn part_view(p: Part) -> PartView
    decreases p,
{
    match p {
        Part::Lit(s) => PartView::Lit(s@),
        Part::Var(s) => PartView::Var(s@),
        Part::Cmd(t) => PartView::Cmd(template_view(t)),
    }
}

pub open spec fn template_view(t: Template) -> TemplateView
    decreases t,
{
    TemplateView {
        parts: Seq::new(
            t.parts@.len(),
            |i: int|
                if 0 <= i < t.parts@.len() {
                    part_view(t.parts@[i])
                } else {
                    arbitrary()
                },
        ),
        offset: t.offset,
        len: t.len,
        source_name: t.source_name@,
    }
}

pub open spec fn part_views(s: Seq<Part>) -> Seq<PartView> {
    Seq::new(s.len(), |i: int| part_view(s[i]))
}

impl Part {
    pub open spec fn view(&self) -> PartView {
        part_view(*self)
    }

    /// The same piece once more.
    pub fn duplicate(&self) -> (r: Self)
        ensures
            r@ == self@,
        decreases self,
    {
        match self {
            Part::Lit(s) => Part::Lit(s.clone()),
            Part::Var(s) => Part::Var(s.clone()),
            Part::Cmd(t) => Part::Cmd(t.duplicate()),
        }
    }
}

impl Template {
    pub open spec fn view(&self) -> TemplateView {
        template_view(*self)
    }

    /// The same template once more.
    pub fn duplicate(&self) -> (r: Self)
        ensures
            r@ == self@,
        decreases self,
    {
        let mut parts: Vec<Part> = Vec::new();
        let mut i: usize = 0;
        while i < self.parts.len()
            invariant
                i <= self.parts@.len(),
                parts@.len() == i,
                forall|k: int| 0 <= k < i ==> (#[trigger] parts@[k])@ == self.parts@[k]@,
            decreases self.parts@.len() - i,
        {
            assert(decreases_to!(self.parts@ => self.parts@[i as int]));
            parts.push(self.parts[i].duplicate());
            i += 1;
        }
        let r = Template {
            parts,
            offset: self.offset,
            len: self.len,
            source_name: self.source_name.clone(),
        };
        assert(r@.parts =~= self@.parts);
        r
    }
}

/// A variable that an `env` block sets.
#[derive(Debug, PartialEq)]
pub struct EnvPair {
    pub key: String,
    pub value: Template,
}

/// The contents of an [`EnvPair`].
pub struct EnvPairView {
    pub key: Seq<char>,
    pub value: TemplateView,
}

impl EnvPair {
    pub open spec fn view(&self) -> EnvPairView {
        EnvPairView { key: self.key@, value: self.value@ }
    }
}

pub open spec fn pair_views(s: Seq<EnvPair>) -> Seq<EnvPairView> {
    Seq::new(s.len(), |i: int| s[i]@)
}

/// An arm of a `switch` block.
#[derive(Debug, PartialEq)]
pub struct Arm {
    pub pattern: ArmPattern,
    pub body: Vec<FnStmt>,
}

/// A statement in the body of a function.
#[derive(Debug, PartialEq)]
pub enum FnStmt {
    /// Write a template to the log.
    Log(Template),
    /// Run the commands of `value`; where there is a target, later statements
    /// may refer to the value by that name.
    Bind { target: Option<String>, value: Template },
    /// Change the working directory.
    Cd(Template),
    /// Run the body with variables set.
    EnvBlock { pairs: Vec<EnvPair>, body: Vec<FnStmt> },
    /// Run the first arm whose pattern matches the subject.
    Switch { subject: Template, arms: Vec<Arm> },
}

/// The contents of an [`Arm`].
pub struct ArmView {
    pub pattern: ArmPatternView,
    pub body: Seq<FnStmtView>,
}

/// The contents of a [`FnStmt`].
pub enum FnStmtView {
    Log(TemplateView),
    Bind { target: Option<Seq<char>>, value: TemplateView },
    Cd(TemplateView),
    EnvBlock { pairs: Seq<EnvPairView>, body: Seq<FnStmtView> },
    Switch { subject: TemplateView, arms: Seq<ArmView> },
}

pub open spec fn option_view(s: Option<String>) -> Option<Seq<char>> {
    match s {
        Some(s) => Some(s@),
        None => None,
    }
}

pub open spec fn arm_view(a: Arm) -> ArmView
    decreases a,
{
    ArmView {
        pattern: a.pattern@,
        body: Seq::new(
            a.body@.len(),
            |i: int|
                if 0 <= i < a.body@.len() {
                    fn_stmt_view(a.body@[i])
                } else {
                    arbitrary()
                },
        ),
    }
}

pub open spec fn fn_stmt_view(s: FnStmt) -> FnStmtView
    decreases s,
{
    match s {
        FnStmt::Log(t) => FnStmtView::Log(t@),
        FnStmt::Bind { target, value } => FnStmtView::Bind {
            target: option_view(target),
            value: value@,
        },
        FnStmt::Cd(t) => FnStmtView::Cd(t@),
        FnStmt::EnvBlock { pairs, body } => FnStmtView::EnvBlock {
            pairs: pair_views(pairs@),
            body: Seq::new(
                body@.len(),
                |i: int|
                    if 0 <= i < body@.len() {
                        fn_stmt_view(body@[i])
                    } else {
                        arbitrary()
                    },
            ),
        },
        FnStmt::Switch { subject, arms } => FnStmtView::Switch {
            subject: subject@,
            arms: Seq::new(
                arms@.len(),
                |i: int|
                    if 0 <= i < arms@.len() {
                        arm_view(arms@[i])
                    } else {
                        arbitrary()
                    },
            ),
        },
    }
}

pub open spec fn fn_stmt_views(s: Seq<FnStmt>) -> Seq<FnStmtView> {
    Seq::new(s.len(), |i: int| fn_stmt_view(s[i]))
}

pub open spec fn arm_views(s: Seq<Arm>) -> Seq<ArmView> {
    Seq::new(s.len(), |i: int| arm_view(s[i]))
}

impl Arm {
    pub open spec fn view(&self) -> ArmView {
        arm_view(*self)
    }
}

impl FnStmt {
    pub open spec fn view(&self) -> FnStmtView {
        fn_stmt_view(*self)
    }
}

/// A declaration.
#[allow(inconsistent_fields)]
#[derive(Debug, PartialEq)]
pub enum Stmt {
    /// `shell = (sh);`
    Shell { value: Template, offset: usize, len: usize, source_name: String },
    /// `timeout = (seconds);`
    Timeout { value: Template, offset: usize, len: usize, source_name: String },
    /// `var name = value;`
    Var { name: String, value: Template, offset: usize, len: usize },
    /// `fn name { body }`
    Fn { name: String, body: Vec<FnStmt>, offset: usize, len: usize },
    /// `sync name { fields }` or `pr name { body }`
    Project { name: String, fields: Vec<Stmt>, body: Vec<Stmt> },
    /// `run name { calls }`
    Run { name: String, calls: Vec<Vec<Call>>, offset: usize, len: usize },
    /// A field of a `sync` block.
    Field { key: ProjectField, value: Template, offset: usize, len: usize },
}

/// The contents of a [`Stmt`].
#[allow(inconsistent_fields)]
pub enum StmtView {
    Shell { value: TemplateView, offset: usize, len: usize, source_name: Seq<char> },
    Timeout { value: TemplateView, offset: usize, len: usize, source_name: Seq<char> },
    Var { name: Seq<char>, value: TemplateView, offset: usize, len: usize },
    Fn { name: Seq<char>, body: Seq<FnStmtView>, offset: usize, len: usize },
    Project { name: Seq<char>, fields: Seq<StmtView>, body: Seq<StmtView> },
    Run { name: Seq<char>, calls: Seq<Seq<CallView>>, offset: usize, len: usize },
    Field { key: ProjectField, value: TemplateView, offset: usize, len: usize },
}

pub open spec fn stmt_view(s: Stmt) -> StmtView
    decreases s,
{
    match s {
        Stmt::Shell { value, offset, len, source_name } => StmtView::Shell {
            value: value@,
            offset,
            len,
            source_name: source_name@,
        },
        Stmt::Timeout { value, offset, len, source_name } => StmtView::Timeout {
            value: value@,
            offset,
            len,
            source_name: source_name@,
        },
        Stmt::Var { name, value, offset, len } => StmtView::Var {
            name: name@,
            value: value@,
            offset,
            len,
        },
        Stmt::Fn { name, body, offset, len } => StmtView::Fn {
            name: name@,
            body: fn_stmt_views(body@),
            offset,
            len,
        },
        Stmt::Project { name, fields, body } => StmtView::Project {
            name: name@,
            fields: Seq::new(
                fields@.len(),
                |i: int|
                    if 0 <= i < fields@.len() {
                        stmt_view(fields@[i])
                    } else {
                        arbitrary()
                    },
            ),
            body: Seq::new(
                body@.len(),
                |i: int|
                    if 0 <= i < body@.len() {
                        stmt_view(body@[i])
                    } else {
                        arbitrary()
                    },
            ),
        },
        Stmt::Run { name, calls, offset, len } => StmtView::Run {
            name: name@,
            calls: stage_views(calls@),
            offset,
            len,
        },
        Stmt::Field { key, value, offset, len } => StmtView::Field {
            key,
            value: value@,
            offset,
            len,
        },
    }
}

pub open spec fn stmt_views(s: Seq<Stmt>) -> Seq<StmtView> {
    Seq::new(s.len(), |i: int| stmt_view(s[i]))
}

impl Stmt {
    pub open spec fn view(&self) -> StmtView {
        stmt_view(*self)
    }
}

/// An item of a source file: a declaration, or the import of another file.
#[derive(Debug, PartialEq)]
pub enum TopLevel {
    Stmt(Stmt),
    Import(Template),
}

/// The contents of a [`TopLevel`].
pub enum TopLevelView {
    Stmt(StmtView),
    Import(TemplateView),
}

impl TopLevel {
    pub open spec fn view(&self) -> TopLevelView {
        match self {
            TopLevel::Stmt(s) => TopLevelView::Stmt(s@),
            TopLevel::Import(t) => TopLevelView::Import(t@),
        }
    }
}

pub open spec fn top_level_views(s: Seq<TopLevel>) -> Seq<TopLevelView> {
    Seq::new(s.len(), |i: int| s[i]@)
}

/// The items of one source file, in order, with the file's name and text.
#[derive(Debug, PartialEq)]
pub struct Program {
    pub top_level_items: Vec<TopLevel>,
    pub source_name: String,
    pub source_text: String,
}

/// The contents of a [`Program`].
pub struct ProgramView {
    pub items: Seq<TopLevelView>,
    pub source_name: Seq<char>,
    pub source_text: Seq<char>,
}

impl Program {
    pub open spec fn view(&self) -> ProgramView {
        ProgramView {
            items: top_level_views(self.top_level_items@),
            source_name: self.source_name@,
            source_text: self.source_text@,
        }
    }
}

} // verus!
