//! Declarations of the language.
use vstd::prelude::*;
use crate::dsl::fnstmt::{fn_stmt_views, FnStmt, FnStmtView};
use crate::dsl::syntax::{Expr, ExprView, VarType};
use crate::text::same;

verus! {

broadcast use vstd::string::group_string_axioms;

/// A field of a project.
#[derive(Debug, Clone, Copy, PartialEq, Eq, Structural)]
pub enum ProjectField {
    Url,
    Dir,
    Sync,
    Branch,
    Include,
}

impl ProjectField {
    /// How the field is written.
    pub open spec fn name(self) -> Seq<char> {
        match self {
            ProjectField::Url => "url"@,
            ProjectField::Dir => "dir"@,
            ProjectField::Sync => "sync"@,
            ProjectField::Branch => "branch"@,
            ProjectField::Include => "include"@,
        }
    }

    /// The field that a word names.
    pub open spec fn named(key: Seq<char>) -> Option<Self> {
        if key == "url"@ {
            Some(ProjectField::Url)
        } else if key == "dir"@ {
            Some(ProjectField::Dir)
        } else if key == "sync"@ {
            Some(ProjectField::Sync)
        } else if key == "branch"@ {
            Some(ProjectField::Branch)
        } else if key == "include"@ {
            Some(ProjectField::Include)
        } else {
            None
        }
    }

    /// How the field is written.
    pub fn as_str(self) -> (r: &'static str)
        ensures
            r@ == self.name(),
    {
        match self {
            ProjectField::Url => "url",
            ProjectField::Dir => "dir",
            ProjectField::Sync => "sync",
            ProjectField::Branch => "branch",
            ProjectField::Include => "include",
        }
    }

    /// The field that a word names, if it names one.
    pub fn from_str(key: &str) -> (r: Result<Self, ()>)
        ensures
            r == match ProjectField::named(key@) {
                Some(f) => Ok::<Self, ()>(f),
                None => Err(()),
            },
    {
        if same(key, "url") {
            Ok(ProjectField::Url)
        } else if same(key, "dir") {
            Ok(ProjectField::Dir)
        } else if same(key, "sync") {
            Ok(ProjectField::Sync)
        } else if same(key, "branch") {
            Ok(ProjectField::Branch)
        } else if same(key, "include") {
            Ok(ProjectField::Include)
        } else {
            Err(())
        }
    }
}

/// The name that a field is written with names that field, and no other word does.
pub proof fn law_field_names(field: ProjectField, key: Seq<char>)
    ensures
        ProjectField::named(key) == Some(field) <==> key == field.name(),
{
    reveal_strlit("url");
    reveal_strlit("dir");
    reveal_strlit("sync");
    reveal_strlit("branch");
    reveal_strlit("include");
    assert("url"@[0] == 'u' && "dir"@[0] == 'd' && "sync"@[0] == 's' && "branch"@[0] == 'b'
        && "include"@[0] == 'i');
}

/// A function, named with its project. The project is empty where only the
/// function was written.
#[derive(Debug, PartialEq, Eq)]
pub struct QualifiedFnRef {
    pub project: String,
    pub function: String,
}

/// The contents of a [`QualifiedFnRef`].
pub struct FnRefView {
    pub project: Seq<char>,
    pub function: Seq<char>,
}

impl QualifiedFnRef {
    pub open spec fn view(&self) -> FnRefView {
        FnRefView { project: self.project@, function: self.function@ }
    }
}

pub open spec fn ref_seq(s: Seq<QualifiedFnRef>) -> Seq<FnRefView> {
    Seq::new(s.len(), |i: int| s[i]@)
}

pub open spec fn chain_seq(s: Seq<Vec<QualifiedFnRef>>) -> Seq<Seq<FnRefView>> {
    Seq::new(s.len(), |i: int| ref_seq(s[i]@))
}

pub open spec fn name_seq(s: Seq<String>) -> Seq<Seq<char>> {
    Seq::new(s.len(), |i: int| s[i]@)
}

/// A declaration.
#[allow(inconsistent_fields)]
#[derive(Debug)]
pub enum Stmt {
    /// `var string name = value;` or `var shell name = value;`
    Var { var_type: VarType, name: String, value: Expr, offset: usize, len: usize },
    /// `pr name [fields] { body }`; the fields may also stand among the body.
    Project { name: String, fields: Vec<Stmt>, body: Vec<Stmt> },
    /// A field of a project.
    Field { key: ProjectField, value: Expr, offset: usize, len: usize },
    /// `fn name { body }`
    Fn { name: String, body: Vec<FnStmt>, offset: usize, len: usize },
    /// `run name { chains }`: calls joined by `=>` run one after the other, and
    /// chains parted by `;` run side by side.
    Run { name: String, chains: Vec<Vec<QualifiedFnRef>>, offset: usize, len: usize },
    /// `use function;` or `use function as alias;` inside a project: it applies
    /// a function that is declared outside.
    Use {
        function: String,
        alias: Option<String>,
        offset: usize,
        len: usize,
        source_name: String,
    },
    /// `sanctuary = value;`
    Sanctuary { value: Expr },
    /// `shell = value;`
    Shell { value: String },
    /// `seq name { functions }`
    SeqBlock { name: String, fns: Vec<String> },
    /// `par name { functions }`
    ParBlock { name: String, fns: Vec<String> },
}

/// The contents of a [`Stmt`].
#[allow(inconsistent_fields)]
pub enum StmtView {
    Var { var_type: VarType, name: Seq<char>, value: ExprView, offset: usize, len: usize },
    Project { name: Seq<char>, fields: Seq<StmtView>, body: Seq<StmtView> },
    Field { key: ProjectField, value: ExprView, offset: usize, len: usize },
    Fn { name: Seq<char>, body: Seq<FnStmtView>, offset: usize, len: usize },
    Run { name: Seq<char>, chains: Seq<Seq<FnRefView>>, offset: usize, len: usize },
    Use {
        function: Seq<char>,
        alias: Option<Seq<char>>,
        offset: usize,
        len: usize,
        source_name: Seq<char>,
    },
    Sanctuary { value: ExprView },
    Shell { value: Seq<char> },
    SeqBlock { name: Seq<char>, fns: Seq<Seq<char>> },
    ParBlock { name: Seq<char>, fns: Seq<Seq<char>> },
}

pub open spec fn stmt_view(s: Stmt) -> StmtView
    decreases s,
{
    match s {
        Stmt::Var { var_type, name, value, offset, len } => StmtView::Var {
            var_type,
            name: name@,
            value: value@,
            offset,
            len,
        },
        Stmt::Project { name, fields, body } => StmtView::Project {
            name: name@,
            fields: Seq::new(
                fields@.len(),
                |i: int|
                    if 0 <= i < fields@.len() {
                        stmt_view(fields@[i])
                    } else {
                        arbitrary()
                    },
            ),
            body: Seq::new(
                body@.len(),
                |i: int|
                    if 0 <= i < body@.len() {
                        stmt_view(body@[i])
                    } else {
                        arbitrary()
                    },
            ),
        },
        Stmt::Field { key, value, offset, len } => StmtView::Field {
            key,
            value: value@,
            offset,
            len,
        },
        Stmt::Fn { name, body, offset, len } => StmtView::Fn {
            name: name@,
            body: fn_stmt_views(body@),
            offset,
            len,
        },
        Stmt::Run { name, chains, offset, len } => StmtView::Run {
            name: name@,
            chains: chain_seq(chains@),
            offset,
            len,
        },
        Stmt::Use { function, alias, offset, len, source_name } => StmtView::Use {
            function: function@,
            alias: match alias {
                Some(a) => Some(a@),
                None => None,
            },
            offset,
            len,
            source_name: source_name@,
        },
        Stmt::Sanctuary { value } => StmtView::Sanctuary { value: value@ },
        Stmt::Shell { value } => StmtView::Shell { value: value@ },
        Stmt::SeqBlock { name, fns } => StmtView::SeqBlock { name: name@, fns: name_seq(fns@) },
        Stmt::ParBlock { name, fns } => StmtView::ParBlock { name: name@, fns: name_seq(fns@) },
    }
}

pub open spec fn stmt_views(s: Seq<Stmt>) -> Seq<StmtView> {
    Seq::new(s.len(), |i: int| stmt_view(s[i]))
}

impl Stmt {
    pub open spec fn view(&self) -> StmtView {
        stmt_view(*self)
    }
}

/// An item of a source file: a declaration, or the import of another file.
#[derive(Debug)]
pub enum TopLevel {
    Stmt(Stmt),
    Import(Expr),
}

/// The contents of a [`TopLevel`].
pub enum TopLevelView {
    Stmt(StmtView),
    Import(ExprView),
}

impl TopLevel {
    pub open spec fn view(&self) -> TopLevelView {
        match self {
            TopLevel::Stmt(s) => TopLevelView::Stmt(s@),
            TopLevel::Import(e) => TopLevelView::Import(e@),
        }
    }
}

pub open spec fn top_level_views(s: Seq<TopLevel>) -> Seq<TopLevelView> {
    Seq::new(s.len(), |i: int| s[i]@)
}

/// The items of one source file, in order, with the file's name and text.
#[derive(Debug)]
pub struct Program {
    pub items: Vec<TopLevel>,
    pub source_name: String,
    pub source_text: String,
}

impl Program {
    /// A program without items and without a source.
    pub fn new() -> (r: Self)
        ensures
            r.items@.len() == 0,
            r.source_name@ == ""@,
            r.source_text@ == ""@,
    {
        Program { items: Vec::new(), source_name: "".to_owned(), source_text: "".to_owned() }
    }

    /// A program without items, for a source.
    pub fn new_with_source(name: String, text: String) -> (r: Self)
        ensures
            r.items@.len() == 0,
            r.source_name@ == name@,
            r.source_text@ == text@,
    {
        Program { items: Vec::new(), source_name: name, source_text: text }
    }
}

} // verus!
