//! The compilation of files that import each other. Reading files is left to
//! the caller: the compiler asks for imports and is handed programs.
use vstd::prelude::*;
use crate::diagnostics::{diagnostic_views, source_text, Diagnostic, DiagnosticView};
use crate::dsl::error::SourceSpan;
use crate::ir;
use crate::lower::finish::{build_ir, ir_of_state, law_nothing_refers_to_variables, state_closed};
use crate::lower::inline::{
    at_least_one, has_no_vars, inline_dsl_template, inlined, law_inlined_has_no_vars,
    parts_have_no_vars, Place,
};
use crate::lower::stmt::{
    compile_stmt, left_by_stmt, spanned, with_stmt, LoweringState, StateView,
};
use crate::lower::{CompileError, CompileErrorView};
use crate::names::insert_entry;
use crate::syntax::{
    Part, PartView, Program, ProgramView, Template, TemplateView, TopLevel, TopLevelView,
};
use crate::syntax::grammar::{file, Source};
use crate::syntax::lexer::{eof_token, tokens_from};
use crate::syntax::parser::parse_source;
use crate::text::{chars_of, same, text_of};

verus! {

broadcast use vstd::string::group_string_axioms;

/// A file that is being compiled, and the item it has come to.
#[derive(Debug)]
struct Frame {
    program: Program,
    next: usize,
}

/// The contents of a frame.
pub struct FrameView {
    pub program: ProgramView,
    pub next: nat,
}

/// The compilation of files.
#[derive(Debug)]
pub struct Compiler {
    state: LoweringState,
    frames: Vec<Frame>,
    loaded: Vec<String>,
}

/// The contents of a [`Compiler`]: what has been compiled, the files that are
/// being compiled, each imported by the one before, and the files that are done.
pub struct CompilerView {
    pub state: StateView,
    pub frames: Seq<FrameView>,
    pub loaded: Seq<Seq<char>>,
}

/// What the compiler needs next.
#[derive(Debug, PartialEq)]
pub enum Step {
    /// The file that `path` names, imported from `source_name`.
    Import { path: Template, source_name: String },
    /// Nothing: every file is compiled.
    Finished,
}

/// The contents of a [`Step`].
pub enum StepView {
    Import { path: TemplateView, source_name: Seq<char> },
    Finished,
}

impl Step {
    pub open spec fn view(&self) -> StepView {
        match self {
            Step::Import { path, source_name } => StepView::Import {
                path: path@,
                source_name: source_name@,
            },
            Step::Finished => StepView::Finished,
        }
    }
}

/// What is to be done with a file that was found for an import.
#[derive(Debug, Clone, Copy, PartialEq, Eq, Structural)]
pub enum Entry {
    /// Read it and hand its program over.
    Read,
    /// Nothing: it has been compiled before.
    Skip,
}

/// How much there is left to do.
pub open spec fn work(frames: Seq<FrameView>) -> nat
    decreases frames.len(),
{
    if frames.len() == 0 {
        0
    } else {
        let top = frames.last();
        work(frames.drop_last()) + 1 + (if top.next < top.program.items.len() {
            (top.program.items.len() - top.next) as nat
        } else {
            0
        })
    }
}

/// Go on until a file is needed, nothing is left, or something does not compile:
/// what came of it, and where the compiler has come to. At an error it stays at
/// the declaration that does not compile.
pub open spec fn run(c: CompilerView) -> (Result<StepView, CompileErrorView>, CompilerView)
    decreases work(c.frames),
    via run_decreases
{
    if c.frames.len() == 0 {
        (Ok(StepView::Finished), c)
    } else {
        let top = c.frames.last();
        let name = top.program.source_name;
        if top.next >= top.program.items.len() {
            run(
                CompilerView {
                    frames: c.frames.drop_last(),
                    loaded: c.loaded.push(name),
                    ..c
                },
            )
        } else {
            let after = c.frames.drop_last().push(FrameView { next: top.next + 1, ..top });
            match top.program.items[top.next as int] {
                TopLevelView::Stmt(s) => match with_stmt(c.state, s, name) {
                    Err(e) => (
                        Err(e),
                        CompilerView { state: left_by_stmt(c.state, s, name), ..c },
                    ),
                    Ok(state) => run(CompilerView { state, frames: after, ..c }),
                },
                TopLevelView::Import(path) => match inlined(
                    c.state.at(name),
                    path,
                    c.state.globals,
                ) {
                    Err(e) => (Err(e), c),
                    Ok(path) => (
                        Ok(StepView::Import { path, source_name: name }),
                        CompilerView { frames: after, ..c },
                    ),
                },
            }
        }
    }
}

#[via_fn]
proof fn run_decreases(c: CompilerView) {
    if c.frames.len() > 0 {
        let top = c.frames.last();
        let after = c.frames.drop_last().push(FrameView { next: top.next + 1, ..top });
        assert(after.drop_last() =~= c.frames.drop_last());
    }
}

/// Whether a file is being compiled.
pub open spec fn is_active(frames: Seq<FrameView>, name: Seq<char>) -> bool {
    exists|i: int| 0 <= i < frames.len() && (#[trigger] frames[i]).program.source_name == name
}

impl Compiler {
    pub closed spec fn view(&self) -> CompilerView {
        CompilerView {
            state: self.state@,
            frames: Seq::new(
                self.frames@.len(),
                |i: int|
                    FrameView {
                        program: self.frames@[i].program@,
                        next: self.frames@[i].next as nat,
                    },
            ),
            loaded: Seq::new(self.loaded@.len(), |i: int| self.loaded@[i]@),
        }
    }

    /// A compiler that has compiled nothing.
    pub fn new() -> (r: Self)
        ensures
            r@ == (CompilerView {
                state: StateView::empty(),
                frames: Seq::empty(),
                loaded: Seq::empty(),
            }),
            state_closed(r@.state),
    {
        let r = Compiler {
            state: LoweringState::new(),
            frames: Vec::new(),
            loaded: Vec::new(),
        };
        assert(r@.frames =~= Seq::<FrameView>::empty());
        assert(r@.loaded =~= Seq::<Seq<char>>::empty());
        r
    }

    /// Decide what to do with a file: a file that is being compiled must not be
    /// imported again, and one that is done is not read twice.
    pub fn enter(&self, name: &str) -> (r: Result<Entry, CompileError>)
        ensures
            match r {
                Ok(Entry::Read) => !is_active(self@.frames, name@) && !self@.loaded.contains(name@),
                Ok(Entry::Skip) => !is_active(self@.frames, name@) && self@.loaded.contains(name@),
                Err(e) => is_active(self@.frames, name@) && e@ == spanned(
                    self@.state.at(name@),
                    "circular import: "@ + name@,
                    0,
                    1,
                ),
            },
    {
        let mut i: usize = 0;
        while i < self.frames.len()
            invariant
                i <= self.frames@.len(),
                self@.frames.len() == self.frames@.len(),
                forall|k: int|
                    0 <= k < i ==> (#[trigger] self@.frames[k]).program.source_name != name@,
            decreases self.frames@.len() - i,
        {
            if same(self.frames[i].program.source_name.as_str(), name) {
                assert(self@.frames[i as int].program.source_name == name@);
                let mut msg = "circular import: ".to_owned();
                msg.push_str(name);
                return Err(self.state.spanned(msg, name, 0, 1));
            }
            i += 1;
        }
        let mut j: usize = 0;
        while j < self.loaded.len()
            invariant
                j <= self.loaded@.len(),
                self@.loaded.len() == self.loaded@.len(),
                !is_active(self@.frames, name@),
                forall|k: int| 0 <= k < j ==> (#[trigger] self@.loaded[k]) != name@,
            decreases self.loaded@.len() - j,
        {
            if same(self.loaded[j].as_str(), name) {
                assert(self@.loaded[j as int] == name@);
                return Ok(Entry::Skip);
            }
            assert(self@.loaded[j as int] != name@);
            j += 1;
        }
        Ok(Entry::Read)
    }

    /// Hand over the program of a file. It is compiled before what is left of
    /// the file that imports it.
    pub fn add_program(&mut self, program: Program)
        ensures
            final(self)@ == (CompilerView {
                state: StateView {
                    sources: insert_entry(
                        old(self)@.state.sources,
                        program.source_name@,
                        program.source_text,
                    ),
                    ..old(self)@.state
                },
                frames: old(self)@.frames.push(FrameView { program: program@, next: 0 }),
                loaded: old(self)@.loaded,
            }),
            state_closed(old(self)@.state) ==> state_closed(final(self)@.state),
    {
        let ghost before = self@;
        let name = program.source_name.clone();
        let text = program.source_text.clone();
        self.state.source_texts.insert(name, text);
        self.frames.push(Frame { program, next: 0 });
        proof {
            assert(self@.frames =~= before.frames.push(FrameView { program: program@, next: 0 }));
            assert(self@.loaded =~= before.loaded);
        }
    }

    /// Go on until a file is needed or nothing is left.
    pub fn step(&mut self) -> (r: Result<Step, CompileError>)
        requires
            state_closed(old(self)@.state),
        ensures
            run(old(self)@) == (
                match r {
                    Ok(step) => Ok::<StepView, CompileErrorView>(step@),
                    Err(e) => Err(e@),
                },
                final(self)@,
            ),
            match r {
                Ok(step) => state_closed(final(self)@.state) && (step matches Step::Import {
                    path,
                    ..
                } ==> has_no_vars(path@)),
                Err(_) => true,
            },
    {
        let ghost first = self@;
        loop
            invariant
                first == old(self)@,
                state_closed(self@.state),
                run(first) == run(self@),
            decreases work(self@.frames),
        {
            let n: usize = self.frames.len();
            let ghost c = self@;
            assert(c.frames.len() == n);
            if n == 0 {
                return Ok(Step::Finished);
            }
            let ghost top = c.frames.last();
            proof {
                let after = c.frames.drop_last().push(FrameView { next: top.next + 1, ..top });
                assert(after.drop_last() =~= c.frames.drop_last());
            }
            let next: usize = self.frames[n - 1].next;
            if next >= self.frames[n - 1].program.top_level_items.len() {
                let name = self.frames[n - 1].program.source_name.clone();
                self.frames.pop();
                self.loaded.push(name);
                proof {
                    assert(self@.frames =~= c.frames.drop_last());
                    assert(self@.loaded =~= c.loaded.push(top.program.source_name));
                }
            } else {
                let name = self.frames[n - 1].program.source_name.clone();
                match &self.frames[n - 1].program.top_level_items[next] {
                    TopLevel::Stmt(s) => {
                        proof {
                            assert(top.program.items[next as int] == TopLevelView::Stmt(s@));
                            law_nothing_refers_to_variables(c.state, s@, name@);
                        }
                        if let Err(e) = compile_stmt(s, &mut self.state, name.as_str()) {
                            proof {
                                assert(self@.frames =~= c.frames);
                                assert(self@.loaded =~= c.loaded);
                            }
                            return Err(e);
                        }
                        let frame = &mut self.frames[n - 1];
                        frame.next = next + 1;
                        proof {
                            let after = c.frames.drop_last().push(
                                FrameView { next: top.next + 1, ..top },
                            );
                            assert(self@.frames =~= after);
                            assert(self@.loaded =~= c.loaded);
                        }
                    },
                    TopLevel::Import(path) => {
                        proof {
                            assert(top.program.items[next as int] == TopLevelView::Import(path@));
                            law_inlined_has_no_vars(
                                c.state.at(name@),
                                path@,
                                c.state.globals,
                            );
                        }
                        match inline_dsl_template(
                            path,
                            &self.state.globals,
                            &self.state.source_texts,
                            name.as_str(),
                        ) {
                            Err(e) => {
                                return Err(e);
                            },
                            Ok(path) => {
                                let frame = &mut self.frames[n - 1];
                                frame.next = next + 1;
                                proof {
                                    let after = c.frames.drop_last().push(
                                        FrameView { next: top.next + 1, ..top },
                                    );
                                    assert(self@.frames =~= after);
                                    assert(self@.loaded =~= c.loaded);
                                }
                                return Ok(Step::Import { path, source_name: name });
                            },
                        }
                    },
                }
            }
        }
    }

    /// Evaluate the path of an import as far as the outputs of its commands go.
    pub fn eval_import_path(&self, path: &Template, outputs: &Vec<String>, source_name: &str) -> (r:
        Result<PathStep, CompileError>)
        ensures
            step_view(r) == path_of(
                self@.state.at(source_name@),
                path@,
                text_views(outputs@),
                0,
            ),
    {
        eval_path_template(path, outputs, 0, &self.state, source_name)
    }

    /// Refuse an import whose path came out empty.
    pub fn check_import_path(
        &self,
        path: &str,
        source_name: &str,
        offset: usize,
        len: usize,
    ) -> (r: Result<(), CompileError>)
        ensures
            match r {
                Ok(_) => path@.len() > 0,
                Err(e) => path@.len() == 0 && e@ == spanned(
                    self@.state.at(source_name@),
                    "import path cannot be empty"@,
                    offset,
                    at_least_one(len),
                ),
            },
    {
        if path.is_empty() {
            let len: usize = if len == 0 {
                1
            } else {
                len
            };
            return Err(
                self.state.spanned(
                    "import path cannot be empty".to_owned(),
                    source_name,
                    offset,
                    len,
                ),
            );
        }
        Ok(())
    }

    /// The warning about an import that names no file.
    pub fn missing_import(
        &self,
        path: &str,
        source_name: &str,
        offset: usize,
        len: usize,
    ) -> (r: Diagnostic)
        ensures
            r@ == (DiagnosticView {
                source_name: source_name@,
                span: SourceSpan { offset, len: at_least_one(len) },
                msg: "import target '"@ + path@ + "' does not exist, skipping"@,
                source_text: source_text(self@.state.sources, source_name@),
            }),
    {
        let len: usize = if len == 0 {
            1
        } else {
            len
        };
        let text = match self.state.source_texts.get(source_name) {
            Some(t) => t.clone(),
            None => "".to_owned(),
        };
        let mut msg = "import target '".to_owned();
        msg.push_str(path);
        msg.push_str("' does not exist, skipping");
        Diagnostic::new(source_name.to_owned(), SourceSpan { offset, len }, msg, text)
    }

    /// Build the execution form from what has been compiled.
    pub fn finish(self) -> (r: Result<ir::Ir, CompileError>)
        requires
            state_closed(self@.state),
        ensures
            ir_of_state(self@.state) == match r {
                Ok(x) => Ok::<ir::IrView, CompileErrorView>(x@),
                Err(e) => Err(e@),
            },
    {
        build_ir(self.state)
    }
}

/// The program in the text of a file, or a message about the first error in it.
pub open spec fn program_in(name: Seq<char>, text: Seq<char>) -> Result<
    ProgramView,
    CompileErrorView,
> {
    match file(Source { eof: eof_token(text), name }, tokens_from(name, text, 0)) {
        Ok(items) => Ok(ProgramView { items, source_name: name, source_text: text }),
        Err(e) => Err(
            CompileErrorView::Parse(
                seq![
                    DiagnosticView {
                        source_name: name,
                        span: e.span,
                        msg: e.msg,
                        source_text: text,
                    },
                ],
            ),
        ),
    }
}

/// Parse the text of a file.
pub fn parse_file(source_name: String, source_text: String) -> (r: Result<Program, CompileError>)
    ensures
        program_in(source_name@, source_text@) == match r {
            Ok(p) => Ok::<ProgramView, CompileErrorView>(p@),
            Err(e) => Err(e@),
        },
{
    let name = source_name.clone();
    let text = source_text.clone();
    match parse_source(source_name, source_text) {
        Ok(program) => Ok(program),
        Err(e) => {
            let d = Diagnostic::new(name, e.span, e.msg, text);
            let all = vec![d];
            assert(diagnostic_views(all@) =~= seq![d@]);
            Err(CompileError::Parse(all))
        },
    }
}

// ── Paths of imports ─────────────────────────────────────────────────────────

/// How far a path has been evaluated: to its text, with the outputs used, or to
/// a command whose output is needed.
pub enum PathView {
    Done { text: Seq<char>, used: nat },
    Run(Seq<char>),
}

/// The error about a variable in the path of an import: imports have their
/// variables inlined before they are evaluated.
pub open spec fn unexpected_var(p: Place, name: Seq<char>, t: TemplateView) -> CompileErrorView {
    spanned(
        p,
        "unexpected @("@ + name + ") in import path"@,
        t.offset,
        at_least_one(t.len),
    )
}

/// Evaluates the path of an import from the outputs of its commands, in the
/// order in which the commands are met. The command text of a nested command is
/// evaluated first. A variable is an error.
pub open spec fn path_of(p: Place, t: TemplateView, outputs: Seq<Seq<char>>, used: nat) -> Result<
    PathView,
    CompileErrorView,
>
    decreases t,
{
    path_parts(p, t, t.parts, outputs, used)
}

pub open spec fn path_parts(
    p: Place,
    t: TemplateView,
    parts: Seq<PartView>,
    outputs: Seq<Seq<char>>,
    used: nat,
) -> Result<PathView, CompileErrorView>
    decreases parts,
{
    if parts.len() == 0 {
        Ok(PathView::Done { text: Seq::empty(), used })
    } else {
        match path_parts(p, t, parts.drop_last(), outputs, used) {
            Ok(PathView::Done { text, used }) => match parts.last() {
                PartView::Lit(s) => Ok(PathView::Done { text: text + s, used }),
                PartView::Var(name) => Err(unexpected_var(p, name, t)),
                PartView::Cmd(inner) => match path_of(p, inner, outputs, used) {
                    Ok(PathView::Done { text: cmd, used }) => if used < outputs.len() {
                        Ok(
                            PathView::Done {
                                text: text + outputs[used as int],
                                used: used + 1,
                            },
                        )
                    } else {
                        Ok(PathView::Run(cmd))
                    },
                    ended => ended,
                },
            },
            ended => ended,
        }
    }
}

/// How far a path has been evaluated.
#[derive(Debug, PartialEq)]
pub enum PathStep {
    /// To its text; so many outputs were used.
    Done { text: String, used: usize },
    /// To a command whose output is needed.
    Run(String),
}

impl PathStep {
    pub open spec fn view(&self) -> PathView {
        match self {
            PathStep::Done { text, used } => PathView::Done { text: text@, used: *used as nat },
            PathStep::Run(cmd) => PathView::Run(cmd@),
        }
    }
}

pub open spec fn text_views(s: Seq<String>) -> Seq<Seq<char>> {
    Seq::new(s.len(), |i: int| s[i]@)
}

/// Whether a path is evaluated to its text.
pub open spec fn is_text(r: Result<PathView, CompileErrorView>) -> bool {
    r matches Ok(PathView::Done { .. })
}

pub open spec fn step_view(r: Result<PathStep, CompileError>) -> Result<PathView, CompileErrorView> {
    match r {
        Ok(step) => Ok(step@),
        Err(e) => Err(e@),
    }
}

proof fn lemma_path_ended(
    p: Place,
    t: TemplateView,
    parts: Seq<PartView>,
    outputs: Seq<Seq<char>>,
    used: nat,
    n: int,
)
    requires
        0 <= n <= parts.len(),
        !is_text(path_parts(p, t, parts.take(n), outputs, used)),
    ensures
        path_parts(p, t, parts, outputs, used) == path_parts(p, t, parts.take(n), outputs, used),
    decreases parts.len(),
{
    if n < parts.len() {
        assert(parts.drop_last().take(n) =~= parts.take(n));
        lemma_path_ended(p, t, parts.drop_last(), outputs, used, n);
    } else {
        assert(parts.take(n) =~= parts);
    }
}

/// Evaluate the path of an import as far as the outputs of its commands go.
pub fn eval_path_template(
    tmpl: &Template,
    outputs: &Vec<String>,
    used: usize,
    state: &LoweringState,
    source_name: &str,
) -> (r: Result<PathStep, CompileError>)
    requires
        used <= outputs@.len(),
    ensures
        step_view(r) == path_of(
            state@.at(source_name@),
            tmpl@,
            text_views(outputs@),
            used as nat,
        ),
        r matches Ok(PathStep::Done { used: u, .. }) ==> u <= outputs@.len(),
    decreases tmpl,
{
    let ghost p = state@.at(source_name@);
    let ghost outs = text_views(outputs@);
    let ghost views = tmpl@.parts;
    let mut text = String::new();
    let mut at: usize = used;
    let mut i: usize = 0;
    proof {
        assert(views.take(0) =~= Seq::<PartView>::empty());
        assert(text@ =~= Seq::<char>::empty());
    }
    while i < tmpl.parts.len()
        invariant
            i <= tmpl.parts@.len(),
            at <= outputs@.len(),
            p == state@.at(source_name@),
            outs == text_views(outputs@),
            views == tmpl@.parts,
            path_parts(p, tmpl@, views.take(i as int), outs, used as nat) == Ok::<
                PathView,
                CompileErrorView,
            >(PathView::Done { text: text@, used: at as nat }),
        decreases tmpl.parts@.len() - i,
    {
        let ghost part = tmpl.parts@[i as int];
        proof {
            let next = views.take(i + 1);
            assert(next.drop_last() =~= views.take(i as int));
            assert(next.last() == part@);
            assert(decreases_to!(tmpl.parts@ => tmpl.parts@[i as int]));
            if !is_text(path_parts(p, tmpl@, next, outs, used as nat)) {
                lemma_path_ended(p, tmpl@, views, outs, used as nat, i + 1);
            }
        }
        match &tmpl.parts[i] {
            Part::Lit(s) => {
                text.push_str(s.as_str());
            },
            Part::Var(name) => {
                let len: usize = if tmpl.len == 0 {
                    1
                } else {
                    tmpl.len
                };
                let mut msg = "unexpected @(".to_owned();
                msg.push_str(name.as_str());
                msg.push_str(") in import path");
                return Err(state.spanned(msg, source_name, tmpl.offset, len));
            },
            Part::Cmd(inner) => {
                assert(decreases_to!(part => part->Cmd_0));
                match eval_path_template(inner, outputs, at, state, source_name) {
                    Err(e) => {
                        return Err(e);
                    },
                    Ok(PathStep::Run(cmd)) => {
                        return Ok(PathStep::Run(cmd));
                    },
                    Ok(PathStep::Done { text: cmd, used: u }) => {
                        if u < outputs.len() {
                            text.push_str(outputs[u].as_str());
                            at = u + 1;
                        } else {
                            return Ok(PathStep::Run(cmd));
                        }
                    },
                }
            },
        }
        i += 1;
    }
    assert(views.take(i as int) =~= views);
    Ok(PathStep::Done { text, used: at })
}

proof fn lemma_path_ends(
    p: Place,
    t: TemplateView,
    parts: Seq<PartView>,
    outputs: Seq<Seq<char>>,
    used: nat,
)
    requires
        parts_have_no_vars(parts),
    ensures
        path_parts(p, t, parts, outputs, used) is Ok,
    decreases parts,
{
    if parts.len() > 0 {
        let init = parts.drop_last();
        lemma_path_ends(p, t, init, outputs, used);
        match path_parts(p, t, init, outputs, used) {
            Ok(PathView::Done { used, .. }) => {
                match parts.last() {
                    PartView::Cmd(inner) => {
                        law_inlined_paths_are_evaluated(p, inner, outputs, used);
                    },
                    _ => {},
                }
            },
            _ => {},
        }
    }
}

/// The path of an import whose variables have been inlined is never refused for
/// a variable.
pub proof fn law_inlined_paths_are_evaluated(
    p: Place,
    t: TemplateView,
    outputs: Seq<Seq<char>>,
    used: nat,
)
    requires
        has_no_vars(t),
    ensures
        path_of(p, t, outputs, used) is Ok,
    decreases t,
{
    lemma_path_ends(p, t, t.parts, outputs, used);
}

/// A place in which to look for an imported file, seen from the directory of
/// the file that imports it.
#[derive(Debug, PartialEq)]
pub enum Candidate {
    /// A file.
    File(String),
    /// The files of a directory whose names end in `.kiru`, in order.
    FilesIn(String),
}

/// The contents of a [`Candidate`].
pub enum CandidateView {
    File(Seq<char>),
    FilesIn(Seq<char>),
}

impl Candidate {
    pub open spec fn view(&self) -> CandidateView {
        match self {
            Candidate::File(s) => CandidateView::File(s@),
            Candidate::FilesIn(s) => CandidateView::FilesIn(s@),
        }
    }
}

pub open spec fn candidate_views(s: Seq<Candidate>) -> Seq<CandidateView> {
    Seq::new(s.len(), |i: int| s[i]@)
}

/// What follows the last slash of a path.
pub open spec fn base_name(path: Seq<char>) -> Seq<char>
    decreases path.len(),
{
    if path.len() == 0 || path.last() == '/' {
        Seq::empty()
    } else {
        base_name(path.drop_last()).push(path.last())
    }
}

/// A path without the slashes at its end, and without the steps there that stay
/// where they are.
pub open spec fn without_tail(path: Seq<char>) -> Seq<char>
    decreases path.len(),
{
    if path.len() > 0 && (path.last() == '/' || (path.last() == '.' && path.len() > 1
        && path[path.len() - 2] == '/')) {
        without_tail(path.drop_last())
    } else {
        path
    }
}

/// The name of the file that a path leads to; none where it leads to where it
/// starts, or up.
pub open spec fn file_name(path: Seq<char>) -> Option<Seq<char>> {
    let name = base_name(without_tail(path));
    if name.len() == 0 || name == "."@ || name == ".."@ {
        None
    } else {
        Some(name)
    }
}

/// Whether a path ends in `.kiru`.
pub open spec fn is_kiru_file(path: Seq<char>) -> bool {
    path.len() >= 5 && path.skip(path.len() - 5) == ".kiru"@
}

/// Where an import is looked for: at its path, then under its name alone,
/// and then, where it ends in `.kiru`, in the directory that it names without
/// that ending.
pub open spec fn candidates(path: Seq<char>) -> Seq<CandidateView> {
    seq![CandidateView::File(path)] + (match file_name(path) {
        Some(name) => seq![CandidateView::File(name)],
        None => Seq::empty(),
    }) + (if is_kiru_file(path) {
        seq![CandidateView::FilesIn(path.take(path.len() - 5))]
    } else {
        Seq::empty()
    })
}

proof fn lemma_base_name(path: Seq<char>, from: int)
    requires
        0 <= from <= path.len(),
        from > 0 ==> path[from - 1] == '/',
        forall|i: int| from <= i < path.len() ==> (#[trigger] path[i]) != '/',
    ensures
        base_name(path) == path.skip(from),
    decreases path.len() - from,
{
    if from == path.len() {
        assert(path.skip(from) =~= Seq::<char>::empty());
    } else {
        let init = path.drop_last();
        assert forall|i: int| from <= i < init.len() implies (#[trigger] init[i]) != '/' by {
            assert(path[i] != '/');
        }
        assert(path[path.len() - 1] != '/');
        lemma_base_name(init, from);
        assert(init.skip(from).push(path.last()) =~= path.skip(from));
    }
}

fn find_file_name(chars: &Vec<char>) -> (r: Option<String>)
    ensures
        file_name(chars@) == match r {
            Some(s) => Some(s@),
            None => None,
        },
{
    let mut to: usize = chars.len();
    assert(chars@.take(to as int) =~= chars@);
    while to > 0 && (chars[to - 1] == '/' || (chars[to - 1] == '.' && to > 1 && chars[to - 2]
        == '/'))
        invariant
            to <= chars@.len(),
            without_tail(chars@.take(to as int)) == without_tail(chars@),
        decreases to,
    {
        let ghost t = chars@.take(to as int);
        assert(t.drop_last() =~= chars@.take(to - 1));
        to -= 1;
    }
    let ghost path = chars@.take(to as int);
    assert(without_tail(chars@) == path);
    let mut from: usize = to;
    while from > 0 && chars[from - 1] != '/'
        invariant
            path == chars@.take(to as int),
            from <= to <= chars@.len(),
            forall|i: int| from <= i < to ==> (#[trigger] path[i]) != '/',
        decreases from,
    {
        from -= 1;
    }
    proof {
        lemma_base_name(path, from as int);
        assert(path.skip(from as int) =~= chars@.subrange(from as int, to as int));
    }
    let name = text_of(chars, from, to);
    if name.as_str().is_empty() || same(name.as_str(), ".") || same(name.as_str(), "..") {
        None
    } else {
        Some(name)
    }
}

/// The places in which to look for an imported file, in order.
pub fn import_candidates(path: &str) -> (r: Vec<Candidate>)
    ensures
        candidate_views(r@) == candidates(path@),
{
    let chars = chars_of(path);
    let n: usize = chars.len();
    let mut out: Vec<Candidate> = Vec::new();
    out.push(Candidate::File(path.to_owned()));
    assert(candidate_views(out@) =~= seq![CandidateView::File(path@)]);
    let ghost first = candidate_views(out@);
    match find_file_name(&chars) {
        Some(name) => {
            out.push(Candidate::File(name));
            assert(candidate_views(out@) =~= first.push(CandidateView::File(name@)));
        },
        None => {},
    }
    let ghost second = candidate_views(out@);
    if n >= 5 {
        let ending = text_of(&chars, n - 5, n);
        assert(ending@ =~= path@.skip(n - 5));
        if same(ending.as_str(), ".kiru") {
            out.push(Candidate::FilesIn(text_of(&chars, 0, n - 5)));
            assert(out@.last()@ == CandidateView::FilesIn(path@.take(n - 5))) by {
                assert(path@.subrange(0, n - 5) =~= path@.take(n - 5));
            }
            assert(candidate_views(out@) =~= second.push(out@.last()@));
        }
    }
    assert(candidate_views(out@) =~= candidates(path@));
    out
}

} // verus!
