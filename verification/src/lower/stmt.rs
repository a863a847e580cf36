//! The effect of each declaration.
use vstd::prelude::*;
use crate::diagnostics::{diagnostic_views, source_text, Diagnostic, DiagnosticView};
use crate::dsl::ast::ProjectField;
use crate::dsl::error::SourceSpan;
use crate::ir;
use crate::lower::inline::{
    compiled_body, copy_scope, inline_dsl_template, inlined, lower_function_body, scope_view,
    template_viewer, Place,
};
use crate::lower::{CompileError, CompileErrorView};
use crate::names::{
    ascending, insert_entry, law_insert_then_lookup, law_remove_then_insert,
    lemma_map_ascending, lemma_map_insert, lemma_map_lookup, lookup, map_entries, Entries, NameMap,
};
use crate::plan::{call_views, run_viewer, stage_views, Call, CallView};
use crate::syntax::{stmt_views, Part, PartView, Stmt, StmtView, Template, TemplateView};
use crate::text::{number, parse_number, trim_text, trimmed};

verus! {

broadcast use vstd::string::group_string_axioms;

/// What a `sync` block has said of a repository so far.
#[derive(Debug)]
pub struct PendingSync {
    pub url: Option<Template>,
    pub dir: Option<Template>,
    pub branch: Option<Template>,
    pub strategy: Option<Template>,
}

/// The contents of a [`PendingSync`].
pub struct PendingSyncView {
    pub url: Option<TemplateView>,
    pub dir: Option<TemplateView>,
    pub branch: Option<TemplateView>,
    pub strategy: Option<TemplateView>,
}

pub open spec fn option_template(t: Option<Template>) -> Option<TemplateView> {
    match t {
        Some(t) => Some(t@),
        None => None,
    }
}

impl PendingSync {
    pub open spec fn view(&self) -> PendingSyncView {
        PendingSyncView {
            url: option_template(self.url),
            dir: option_template(self.dir),
            branch: option_template(self.branch),
            strategy: option_template(self.strategy),
        }
    }
}

impl PendingSyncView {
    /// Nothing has been said.
    pub open spec fn empty() -> Self {
        PendingSyncView { url: None, dir: None, branch: None, strategy: None }
    }

    /// What has been said of a field.
    pub open spec fn get(self, key: ProjectField) -> Option<TemplateView> {
        match key {
            ProjectField::Url => self.url,
            ProjectField::Dir => self.dir,
            ProjectField::Branch => self.branch,
            ProjectField::Sync => self.strategy,
            ProjectField::Include => None,
        }
    }

    /// The same with one field said.
    pub open spec fn set(self, key: ProjectField, value: TemplateView) -> Self {
        match key {
            ProjectField::Url => PendingSyncView { url: Some(value), ..self },
            ProjectField::Dir => PendingSyncView { dir: Some(value), ..self },
            ProjectField::Branch => PendingSyncView { branch: Some(value), ..self },
            ProjectField::Sync => PendingSyncView { strategy: Some(value), ..self },
            ProjectField::Include => self,
        }
    }
}

/// What `pr` blocks have declared for a project so far.
#[derive(Debug)]
pub struct PendingProject {
    pub vars: NameMap<Template>,
    pub functions: NameMap<Vec<ir::Instruction>>,
}

/// The contents of a [`PendingProject`].
pub struct PendingProjectView {
    pub vars: Entries<TemplateView>,
    pub functions: Entries<Seq<ir::InstructionView>>,
}

impl PendingProject {
    pub open spec fn view(&self) -> PendingProjectView {
        PendingProjectView {
            vars: scope_view(self.vars@),
            functions: map_entries(self.functions@, ir::body_viewer()),
        }
    }
}

impl PendingProjectView {
    /// Nothing has been declared.
    pub open spec fn empty() -> Self {
        PendingProjectView { vars: Seq::empty(), functions: Seq::empty() }
    }
}

/// What has been compiled so far.
#[derive(Debug)]
pub struct LoweringState {
    /// Variables declared at the top, without references in their values.
    pub globals: NameMap<Template>,
    pub shell: Option<String>,
    pub timeout: Option<u64>,
    pub syncs: NameMap<PendingSync>,
    pub projects: NameMap<PendingProject>,
    pub run_blocks: NameMap<Vec<Vec<Call>>>,
    /// The texts of the source files by name.
    pub source_texts: NameMap<String>,
}

/// The contents of a [`LoweringState`].
pub struct StateView {
    pub globals: Entries<TemplateView>,
    pub shell: Option<Seq<char>>,
    pub timeout: Option<u64>,
    pub syncs: Entries<PendingSyncView>,
    pub projects: Entries<PendingProjectView>,
    pub run_blocks: Entries<Seq<Seq<CallView>>>,
    pub sources: Entries<String>,
}

pub open spec fn sync_viewer() -> spec_fn(PendingSync) -> PendingSyncView {
    |s: PendingSync| s@
}

pub open spec fn project_viewer() -> spec_fn(PendingProject) -> PendingProjectView {
    |s: PendingProject| s@
}

impl LoweringState {
    pub open spec fn view(&self) -> StateView {
        StateView {
            globals: scope_view(self.globals@),
            shell: match self.shell {
                Some(s) => Some(s@),
                None => None,
            },
            timeout: self.timeout,
            syncs: map_entries(self.syncs@, sync_viewer()),
            projects: map_entries(self.projects@, project_viewer()),
            run_blocks: map_entries(self.run_blocks@, run_viewer()),
            sources: self.source_texts@,
        }
    }

    /// Nothing has been compiled.
    pub fn new() -> (r: Self)
        ensures
            r@ == StateView::empty(),
    {
        let r = LoweringState {
            globals: NameMap::new(),
            shell: None,
            timeout: None,
            syncs: NameMap::new(),
            projects: NameMap::new(),
            run_blocks: NameMap::new(),
            source_texts: NameMap::new(),
        };
        assert(r@.globals =~= Seq::<(Seq<char>, TemplateView)>::empty());
        assert(r@.syncs =~= Seq::<(Seq<char>, PendingSyncView)>::empty());
        assert(r@.projects =~= Seq::<(Seq<char>, PendingProjectView)>::empty());
        assert(r@.run_blocks =~= Seq::<(Seq<char>, Seq<Seq<CallView>>)>::empty());
        r
    }

    /// A validation error about a span of a source.
    pub fn spanned(&self, msg: String, source_name: &str, offset: usize, len: usize) -> (r:
        CompileError)
        ensures
            r@ == spanned(self@.at(source_name@), msg@, offset, len),
    {
        let text = match self.source_texts.get(source_name) {
            Some(t) => t.clone(),
            None => "".to_owned(),
        };
        let d = Diagnostic::new(
            source_name.to_owned(),
            SourceSpan { offset, len },
            msg,
            text,
        );
        let mut v: Vec<Diagnostic> = Vec::new();
        v.push(d);
        assert(diagnostic_views(v@) =~= seq![d@]);
        CompileError::Validation(v)
    }
}

impl StateView {
    /// Nothing has been compiled.
    pub open spec fn empty() -> Self {
        StateView {
            globals: Seq::empty(),
            shell: None,
            timeout: None,
            syncs: Seq::empty(),
            projects: Seq::empty(),
            run_blocks: Seq::empty(),
            sources: Seq::empty(),
        }
    }

    /// The place of errors in a source.
    pub open spec fn at(self, source_name: Seq<char>) -> Place {
        Place { sources: self.sources, source_name }
    }
}

/// A validation error about a span, as it was given.
pub open spec fn spanned(p: Place, msg: Seq<char>, offset: usize, len: usize) -> CompileErrorView {
    CompileErrorView::Validation(
        seq![
            DiagnosticView {
                source_name: p.source_name,
                span: SourceSpan { offset, len },
                msg,
                source_text: source_text(p.sources, p.source_name),
            },
        ],
    )
}

// ── Settings ─────────────────────────────────────────────────────────────────

/// A template without variables as text: its literals, and its commands by
/// their inner text.
pub open spec fn literal_text(t: TemplateView) -> Seq<char>
    decreases t,
{
    literal_parts(t.parts)
}

pub open spec fn literal_parts(parts: Seq<PartView>) -> Seq<char>
    decreases parts,
{
    if parts.len() == 0 {
        Seq::empty()
    } else {
        literal_parts(parts.drop_last()) + match parts.last() {
            PartView::Lit(s) => s,
            PartView::Var(_) => Seq::empty(),
            PartView::Cmd(inner) => literal_text(inner),
        }
    }
}

/// Show a template as text. No command is run.
pub fn render_literal(tmpl: &Template) -> (r: String)
    ensures
        r@ == literal_text(tmpl@),
    decreases tmpl,
{
    let mut out = String::new();
    let mut i: usize = 0;
    assert(tmpl@.parts.take(0) =~= Seq::<PartView>::empty());
    while i < tmpl.parts.len()
        invariant
            i <= tmpl.parts@.len(),
            out@ == literal_parts(tmpl@.parts.take(i as int)),
        decreases tmpl.parts@.len() - i,
    {
        let ghost part = tmpl.parts@[i as int];
        let ghost before = out@;
        proof {
            let next = tmpl@.parts.take(i + 1);
            assert(next.drop_last() =~= tmpl@.parts.take(i as int));
            assert(next.last() == part@);
            assert(decreases_to!(tmpl.parts@ => tmpl.parts@[i as int]));
        }
        match &tmpl.parts[i] {
            Part::Lit(s) => {
                out.push_str(s.as_str());
            },
            Part::Var(_) => {
                assert(before + Seq::<char>::empty() =~= before);
            },
            Part::Cmd(inner) => {
                assert(decreases_to!(part => part->Cmd_0));
                out.push_str(render_literal(inner).as_str());
            },
        }
        i += 1;
    }
    assert(tmpl@.parts.take(i as int) =~= tmpl@.parts);
    out
}

/// The effect of `shell = value;`.
pub open spec fn with_shell(
    s: StateView,
    value: TemplateView,
    offset: usize,
    len: usize,
    source_name: Seq<char>,
) -> Result<StateView, CompileErrorView> {
    match inlined(s.at(source_name), value, s.globals) {
        Err(e) => Err(e),
        Ok(t) => if s.shell is Some {
            Err(spanned(s.at(source_name), "duplicate shell declaration"@, offset, len))
        } else {
            Ok(StateView { shell: Some(literal_text(t)), ..s })
        },
    }
}

/// Whether one of the pieces is a command.
pub open spec fn has_command(parts: Seq<PartView>) -> bool {
    exists|i: int| 0 <= i < parts.len() && (#[trigger] parts[i]) is Cmd
}

/// The effect of `timeout = value;`.
pub open spec fn with_timeout(
    s: StateView,
    value: TemplateView,
    offset: usize,
    len: usize,
    source_name: Seq<char>,
) -> Result<StateView, CompileErrorView> {
    let p = s.at(source_name);
    match inlined(p, value, s.globals) {
        Err(e) => Err(e),
        Ok(t) => if has_command(t.parts) {
            Err(
                spanned(
                    p,
                    "timeout value must be a plain integer, not a $(command) expression"@,
                    offset,
                    len,
                ),
            )
        } else {
            let text = trimmed(literal_text(t));
            match number(text, u64::MAX as nat) {
                Err(_) => Err(
                    spanned(
                        p,
                        "timeout value must be a positive integer, got `"@ + text + "`"@,
                        offset,
                        len,
                    ),
                ),
                Ok(n) => if n == 0 {
                    Err(spanned(p, "timeout value must be greater than zero"@, offset, len))
                } else if s.timeout is Some {
                    Err(spanned(p, "duplicate timeout declaration"@, offset, len))
                } else {
                    Ok(StateView { timeout: Some(n as u64), ..s })
                },
            }
        },
    }
}

/// The effect of `var name = value;` at the top.
pub open spec fn with_var(
    s: StateView,
    name: Seq<char>,
    value: TemplateView,
    offset: usize,
    len: usize,
    source_name: Seq<char>,
) -> Result<StateView, CompileErrorView> {
    match inlined(s.at(source_name), value, s.globals) {
        Err(e) => Err(e),
        Ok(t) => if lookup(s.globals, name) is Some {
            Err(
                spanned(
                    s.at(source_name),
                    "variable `"@ + name + "` is already defined"@,
                    offset,
                    len,
                ),
            )
        } else {
            Ok(StateView { globals: insert_entry(s.globals, name, t), ..s })
        },
    }
}

/// The effect of a `run` block.
pub open spec fn with_run(
    s: StateView,
    name: Seq<char>,
    calls: Seq<Seq<CallView>>,
    offset: usize,
    len: usize,
    source_name: Seq<char>,
) -> Result<StateView, CompileErrorView> {
    if lookup(s.run_blocks, name) is Some {
        Err(spanned(s.at(source_name), "duplicate run block: "@ + name, offset, len))
    } else {
        Ok(StateView { run_blocks: insert_entry(s.run_blocks, name, calls), ..s })
    }
}

/// What holds after a declaration was compiled; `left` is what an error leaves.
pub open spec fn effect(
    want: Result<StateView, CompileErrorView>,
    left: StateView,
    r: Result<(), CompileError>,
    after: StateView,
) -> bool {
    match r {
        Ok(_) => want == Ok::<StateView, CompileErrorView>(after),
        Err(e) => want == Err::<StateView, CompileErrorView>(e@) && after == left,
    }
}

/// Compile `shell = value;`.
pub fn compile_shell_decl(
    value: &Template,
    offset: usize,
    len: usize,
    source_name: &str,
    state: &mut LoweringState,
) -> (r: Result<(), CompileError>)
    ensures
        effect(
            with_shell(old(state)@, value@, offset, len, source_name@),
            old(state)@,
            r,
            final(state)@,
        ),
{
    let inlined = match inline_dsl_template(
        value,
        &state.globals,
        &state.source_texts,
        source_name,
    ) {
        Ok(t) => t,
        Err(e) => {
            return Err(e);
        },
    };
    let resolved = render_literal(&inlined);
    if state.shell.is_some() {
        return Err(
            state.spanned("duplicate shell declaration".to_owned(), source_name, offset, len),
        );
    }
    state.shell = Some(resolved);
    Ok(())
}

fn holds_command(parts: &Vec<Part>) -> (r: bool)
    ensures
        r == has_command(crate::syntax::part_views(parts@)),
{
    let ghost views = crate::syntax::part_views(parts@);
    let mut i: usize = 0;
    while i < parts.len()
        invariant
            i <= parts@.len(),
            views == crate::syntax::part_views(parts@),
            forall|k: int| 0 <= k < i ==> !((#[trigger] views[k]) is Cmd),
        decreases parts@.len() - i,
    {
        if let Part::Cmd(_) = &parts[i] {
            assert(views[i as int] is Cmd);
            return true;
        }
        i += 1;
    }
    false
}

/// Compile `timeout = value;`.
pub fn compile_timeout_decl(
    value: &Template,
    offset: usize,
    len: usize,
    source_name: &str,
    state: &mut LoweringState,
) -> (r: Result<(), CompileError>)
    ensures
        effect(
            with_timeout(old(state)@, value@, offset, len, source_name@),
            old(state)@,
            r,
            final(state)@,
        ),
{
    let inlined = match inline_dsl_template(
        value,
        &state.globals,
        &state.source_texts,
        source_name,
    ) {
        Ok(t) => t,
        Err(e) => {
            return Err(e);
        },
    };
    assert(inlined@.parts =~= crate::syntax::part_views(inlined.parts@));
    if holds_command(&inlined.parts) {
        return Err(
            state.spanned(
                "timeout value must be a plain integer, not a $(command) expression".to_owned(),
                source_name,
                offset,
                len,
            ),
        );
    }
    let text = trim_text(render_literal(&inlined).as_str());
    let seconds = match parse_number(text.as_str(), u64::MAX) {
        Ok(n) => n,
        Err(_) => {
            let mut msg = "timeout value must be a positive integer, got `".to_owned();
            msg.push_str(text.as_str());
            msg.push_str("`");
            return Err(state.spanned(msg, source_name, offset, len));
        },
    };
    if seconds == 0 {
        return Err(
            state.spanned(
                "timeout value must be greater than zero".to_owned(),
                source_name,
                offset,
                len,
            ),
        );
    }
    if state.timeout.is_some() {
        return Err(
            state.spanned("duplicate timeout declaration".to_owned(), source_name, offset, len),
        );
    }
    state.timeout = Some(seconds);
    Ok(())
}

/// Compile `var name = value;`.
pub fn compile_var_decl(
    name: &str,
    value: &Template,
    offset: usize,
    len: usize,
    source_name: &str,
    state: &mut LoweringState,
) -> (r: Result<(), CompileError>)
    ensures
        effect(
            with_var(old(state)@, name@, value@, offset, len, source_name@),
            old(state)@,
            r,
            final(state)@,
        ),
{
    let inlined = match inline_dsl_template(
        value,
        &state.globals,
        &state.source_texts,
        source_name,
    ) {
        Ok(t) => t,
        Err(e) => {
            return Err(e);
        },
    };
    proof {
        lemma_map_lookup(state.globals@, template_viewer(), name@);
        lemma_map_insert(state.globals@, template_viewer(), name@, inlined);
    }
    if state.globals.get(name).is_some() {
        let mut msg = "variable `".to_owned();
        msg.push_str(name);
        msg.push_str("` is already defined");
        return Err(state.spanned(msg, source_name, offset, len));
    }
    state.globals.insert(name.to_owned(), inlined);
    Ok(())
}

fn copy_calls(calls: &Vec<Vec<Call>>) -> (r: Vec<Vec<Call>>)
    ensures
        stage_views(r@) == stage_views(calls@),
{
    let mut out: Vec<Vec<Call>> = Vec::new();
    let mut i: usize = 0;
    while i < calls.len()
        invariant
            i <= calls@.len(),
            out@.len() == i,
            forall|k: int| 0 <= k < i ==> call_views((#[trigger] out@[k])@) == call_views(calls@[k]@),
        decreases calls@.len() - i,
    {
        let mut chain: Vec<Call> = Vec::new();
        let mut j: usize = 0;
        while j < calls[i].len()
            invariant
                i < calls@.len(),
                j <= calls@[i as int]@.len(),
                chain@.len() == j,
                forall|k: int| 0 <= k < j ==> (#[trigger] chain@[k])@ == calls@[i as int]@[k]@,
            decreases calls@[i as int]@.len() - j,
        {
            let c = &calls[i][j];
            chain.push(Call { project: c.project.clone(), function: c.function.clone() });
            j += 1;
        }
        assert(call_views(chain@) =~= call_views(calls@[i as int]@));
        out.push(chain);
        i += 1;
    }
    assert(stage_views(out@) =~= stage_views(calls@));
    out
}

/// Compile a `run` block.
pub fn compile_run_decl(
    name: &str,
    calls: &Vec<Vec<Call>>,
    offset: usize,
    len: usize,
    source_name: &str,
    state: &mut LoweringState,
) -> (r: Result<(), CompileError>)
    ensures
        effect(
            with_run(old(state)@, name@, stage_views(calls@), offset, len, source_name@),
            old(state)@,
            r,
            final(state)@,
        ),
{
    let copied = copy_calls(calls);
    proof {
        lemma_map_lookup(state.run_blocks@, run_viewer(), name@);
        lemma_map_insert(state.run_blocks@, run_viewer(), name@, copied);
    }
    if state.run_blocks.get(name).is_some() {
        let mut msg = "duplicate run block: ".to_owned();
        msg.push_str(name);
        return Err(state.spanned(msg, source_name, offset, len));
    }
    state.run_blocks.insert(name.to_owned(), copied);
    Ok(())
}

// ── Projects ─────────────────────────────────────────────────────────────────

/// What has been said of a repository after one more field.
pub open spec fn with_field(
    p: Place,
    field: StmtView,
    pending: PendingSyncView,
    globals: Entries<TemplateView>,
) -> Result<PendingSyncView, CompileErrorView> {
    match field {
        StmtView::Field { key, value, offset, len } => match inlined(p, value, globals) {
            Err(e) => Err(e),
            Ok(t) => if pending.get(key) is Some {
                Err(spanned(p, "duplicate field '"@ + key.name() + "'"@, offset, len))
            } else {
                Ok(pending.set(key, t))
            },
        },
        _ => Ok(pending),
    }
}

/// What has been said of a repository after more fields.
pub open spec fn with_fields(
    p: Place,
    fields: Seq<StmtView>,
    pending: PendingSyncView,
    globals: Entries<TemplateView>,
) -> Result<PendingSyncView, CompileErrorView>
    decreases fields.len(),
{
    if fields.len() == 0 {
        Ok(pending)
    } else {
        match with_fields(p, fields.drop_last(), pending, globals) {
            Err(e) => Err(e),
            Ok(before) => with_field(p, fields.last(), before, globals),
        }
    }
}

/// The effect of the fields of a project. They add to what earlier blocks of
/// that name have said.
pub open spec fn with_project_fields(
    s: StateView,
    name: Seq<char>,
    fields: Seq<StmtView>,
    source_name: Seq<char>,
) -> Result<StateView, CompileErrorView> {
    if fields.len() == 0 {
        Ok(s)
    } else {
        match with_fields(s.at(source_name), fields, pending_sync(s, name), s.globals) {
            Err(e) => Err(e),
            Ok(after) => Ok(StateView { syncs: insert_entry(s.syncs, name, after), ..s }),
        }
    }
}

/// Putting an entry in changes what stands under its name alone.
proof fn lemma_others_kept<V>(s: Entries<V>, name: Seq<char>, value: V)
    requires
        ascending(s),
    ensures
        lookup(insert_entry(s, name, value), name) is Some,
        forall|other: Seq<char>|
            other != name ==> (#[trigger] lookup(insert_entry(s, name, value), other)) == lookup(
                s,
                other,
            ),
{
    law_insert_then_lookup(s, name, value, name);
    assert forall|other: Seq<char>| other != name implies (#[trigger] lookup(
        insert_entry(s, name, value),
        other,
    )) == lookup(s, other) by {
        law_insert_then_lookup(s, name, value, other);
    }
}

/// What has been said of a repository by the fields before the first error.
pub open spec fn fields_before_error(
    p: Place,
    fields: Seq<StmtView>,
    pending: PendingSyncView,
    globals: Entries<TemplateView>,
) -> PendingSyncView
    decreases fields.len(),
{
    match with_fields(p, fields, pending, globals) {
        Ok(after) => after,
        Err(_) => if fields.len() == 0 {
            pending
        } else {
            fields_before_error(p, fields.drop_last(), pending, globals)
        },
    }
}

/// What has been said of a repository so far.
pub open spec fn pending_sync(s: StateView, name: Seq<char>) -> PendingSyncView {
    match lookup(s.syncs, name) {
        Some(pending) => pending,
        None => PendingSyncView::empty(),
    }
}

/// What the fields of a project leave after an error: those before it stay.
pub open spec fn left_by_fields(
    s: StateView,
    name: Seq<char>,
    fields: Seq<StmtView>,
    source_name: Seq<char>,
) -> StateView {
    let said = fields_before_error(
        s.at(source_name),
        fields,
        pending_sync(s, name),
        s.globals,
    );
    StateView { syncs: insert_entry(s.syncs, name, said), ..s }
}

/// Fields that fail touch the repository that they are about and nothing else.
pub proof fn law_failed_fields_keep_the_rest(
    s: StateView,
    name: Seq<char>,
    fields: Seq<StmtView>,
    source_name: Seq<char>,
    other: Seq<char>,
)
    requires
        ascending(s.syncs),
    ensures
        ({
            let left = left_by_fields(s, name, fields, source_name);
            &&& left == (StateView { syncs: left.syncs, ..s })
            &&& lookup(left.syncs, name) is Some
            &&& other != name ==> lookup(left.syncs, other) == lookup(s.syncs, other)
        }),
{
    let said = fields_before_error(
        s.at(source_name),
        fields,
        pending_sync(s, name),
        s.globals,
    );
    law_insert_then_lookup(s.syncs, name, said, name);
    law_insert_then_lookup(s.syncs, name, said, other);
}

proof fn lemma_fields_error(
    p: Place,
    fields: Seq<StmtView>,
    pending: PendingSyncView,
    globals: Entries<TemplateView>,
    n: int,
)
    requires
        0 <= n <= fields.len(),
        with_fields(p, fields.take(n), pending, globals) is Err,
    ensures
        with_fields(p, fields, pending, globals) == with_fields(
            p,
            fields.take(n),
            pending,
            globals,
        ),
        fields_before_error(p, fields, pending, globals) == fields_before_error(
            p,
            fields.take(n),
            pending,
            globals,
        ),
    decreases fields.len(),
{
    if n < fields.len() {
        assert(fields.drop_last().take(n) =~= fields.take(n));
        lemma_fields_error(p, fields.drop_last(), pending, globals, n);
    } else {
        assert(fields.take(n) =~= fields);
    }
}

fn compile_field(
    field: &Stmt,
    pending: &mut PendingSync,
    source_name: &str,
    state: &LoweringState,
) -> (r: Result<(), CompileError>)
    ensures
        match r {
            Ok(_) => with_field(
                state@.at(source_name@),
                field@,
                old(pending)@,
                state@.globals,
            ) == Ok::<PendingSyncView, CompileErrorView>(final(pending)@),
            Err(e) => with_field(
                state@.at(source_name@),
                field@,
                old(pending)@,
                state@.globals,
            ) == Err::<PendingSyncView, CompileErrorView>(e@) && final(pending)@ == old(
                pending,
            )@,
        },
{
    if let Stmt::Field { key, value, offset, len } = field {
        let resolved = match inline_dsl_template(
            value,
            &state.globals,
            &state.source_texts,
            source_name,
        ) {
            Ok(t) => t,
            Err(e) => {
                return Err(e);
            },
        };
        let taken = match key {
            ProjectField::Url => pending.url.is_some(),
            ProjectField::Dir => pending.dir.is_some(),
            ProjectField::Branch => pending.branch.is_some(),
            ProjectField::Sync => pending.strategy.is_some(),
            ProjectField::Include => false,
        };
        if taken {
            let mut msg = "duplicate field '".to_owned();
            msg.push_str(key.as_str());
            msg.push_str("'");
            return Err(state.spanned(msg, source_name, *offset, *len));
        }
        match key {
            ProjectField::Url => {
                pending.url = Some(resolved);
            },
            ProjectField::Dir => {
                pending.dir = Some(resolved);
            },
            ProjectField::Branch => {
                pending.branch = Some(resolved);
            },
            ProjectField::Sync => {
                pending.strategy = Some(resolved);
            },
            ProjectField::Include => {},
        }
    }
    Ok(())
}

/// Compile the fields of a project.
pub fn compile_project_fields(
    name: &str,
    fields: &Vec<Stmt>,
    source_name: &str,
    state: &mut LoweringState,
) -> (r: Result<(), CompileError>)
    ensures
        effect(
            with_project_fields(old(state)@, name@, stmt_views(fields@), source_name@),
            left_by_fields(old(state)@, name@, stmt_views(fields@), source_name@),
            r,
            final(state)@,
        ),
        final(state)@ == (StateView { syncs: final(state)@.syncs, ..old(state)@ }),
        forall|other: Seq<char>|
            other != name@ ==> (#[trigger] lookup(final(state)@.syncs, other)) == lookup(
                old(state)@.syncs,
                other,
            ),
        r is Err ==> lookup(final(state)@.syncs, name@) is Some,
{
    let ghost before = state@;
    let ghost syncs = state.syncs@;
    if fields.len() == 0 {
        return Ok(());
    }
    let known = state.syncs.len();
    proof {
        lemma_map_lookup(syncs, sync_viewer(), name@);
    }
    let ghost p = before.at(source_name@);
    let ghost views = stmt_views(fields@);
    let mut pending = match state.syncs.take(name) {
        Some(pending) => pending,
        None => PendingSync { url: None, dir: None, branch: None, strategy: None },
    };
    let ghost first = pending@;
    let ghost kept = state.syncs@;
    let mut i: usize = 0;
    let mut failure: Option<CompileError> = None;
    assert(views.take(0) =~= Seq::<StmtView>::empty());
    while i < fields.len() && failure.is_none()
        invariant
            i <= fields@.len(),
            views == stmt_views(fields@),
            p == before.at(source_name@),
            state@.sources == before.sources,
            state@.globals == before.globals,
            state.syncs@ == kept,
            state@ == (StateView { syncs: state@.syncs, ..before }),
            with_project_fields(before, name@, views, source_name@) == match with_fields(
                p,
                views,
                first,
                before.globals,
            ) {
                Err(e) => Err(e),
                Ok(after) => Ok::<StateView, CompileErrorView>(
                    StateView { syncs: insert_entry(before.syncs, name@, after), ..before },
                ),
            },
            before == old(state)@,
            match failure {
                None => with_fields(p, views.take(i as int), first, before.globals) == Ok::<
                    PendingSyncView,
                    CompileErrorView,
                >(pending@),
                Some(e) => with_fields(p, views, first, before.globals) == Err::<
                    PendingSyncView,
                    CompileErrorView,
                >(e@) && fields_before_error(p, views, first, before.globals) == pending@,
            },
        decreases fields@.len() - i,
    {
        let ghost next = views.take(i + 1);
        proof {
            assert(next.drop_last() =~= views.take(i as int));
            assert(next.last() == fields@[i as int]@);
            if with_fields(p, next, first, before.globals) is Err {
                lemma_fields_error(p, views, first, before.globals, i + 1);
                assert(fields_before_error(p, next, first, before.globals) == fields_before_error(
                    p,
                    views.take(i as int),
                    first,
                    before.globals,
                ));
                assert(fields_before_error(p, views, first, before.globals) == pending@);
            }
        }
        if let Err(e) = compile_field(&fields[i], &mut pending, source_name, state) {
            failure = Some(e);
        }
        i += 1;
    }
    proof {
        if failure is None {
            assert(views.take(i as int) =~= views);
        }
        law_remove_then_insert(syncs, name@, pending);
        lemma_map_insert(syncs, sync_viewer(), name@, pending);
    }
    proof {
        lemma_map_ascending(syncs, sync_viewer());
        lemma_others_kept(before.syncs, name@, pending@);
    }
    state.syncs.insert(name.to_owned(), pending);
    match failure {
        Some(e) => Err(e),
        None => Ok(()),
    }
}

/// Variables with more put in, the later over the earlier.
pub open spec fn with_vars(
    scope: Entries<TemplateView>,
    more: Entries<TemplateView>,
) -> Entries<TemplateView>
    decreases more.len(),
{
    if more.len() == 0 {
        scope
    } else {
        insert_entry(with_vars(scope, more.drop_last()), more.last().0, more.last().1)
    }
}

/// What has been declared for a project, and the variables known in it, after
/// one more declaration.
pub open spec fn with_item(
    p: Place,
    name: Seq<char>,
    item: StmtView,
    pending: PendingProjectView,
    scope: Entries<TemplateView>,
) -> Result<(PendingProjectView, Entries<TemplateView>), CompileErrorView> {
    match item {
        StmtView::Var { name: var, value, offset, len } => match inlined(p, value, scope) {
            Err(e) => Err(e),
            Ok(t) => if lookup(pending.vars, var) is Some {
                Err(
                    spanned(
                        p,
                        "variable `"@ + var + "` is already defined in project `"@ + name + "`"@,
                        offset,
                        len,
                    ),
                )
            } else {
                Ok(
                    (
                        PendingProjectView { vars: insert_entry(pending.vars, var, t), ..pending },
                        insert_entry(scope, var, t),
                    ),
                )
            },
        },
        StmtView::Fn { name: function, body, offset, len } => if lookup(
            pending.functions,
            function,
        ) is Some {
            Err(
                spanned(
                    p,
                    "duplicate function `"@ + function + "` in project `"@ + name + "`"@,
                    offset,
                    len,
                ),
            )
        } else {
            match compiled_body(p, body, scope) {
                Err(e) => Err(e),
                Ok((lowered, _)) => Ok(
                    (
                        PendingProjectView {
                            functions: insert_entry(pending.functions, function, lowered),
                            ..pending
                        },
                        scope,
                    ),
                ),
            }
        },
        _ => Ok((pending, scope)),
    }
}

/// The same after more declarations.
pub open spec fn with_items(
    p: Place,
    name: Seq<char>,
    items: Seq<StmtView>,
    pending: PendingProjectView,
    scope: Entries<TemplateView>,
) -> Result<(PendingProjectView, Entries<TemplateView>), CompileErrorView>
    decreases items.len(),
{
    if items.len() == 0 {
        Ok((pending, scope))
    } else {
        match with_items(p, name, items.drop_last(), pending, scope) {
            Err(e) => Err(e),
            Ok((before, known)) => with_item(p, name, items.last(), before, known),
        }
    }
}

/// The effect of the body of a project. It adds to what earlier blocks of that
/// name have declared, and sees their variables and those at the top.
pub open spec fn with_project_body(
    s: StateView,
    name: Seq<char>,
    body: Seq<StmtView>,
    source_name: Seq<char>,
) -> Result<StateView, CompileErrorView> {
    let pending = pending_project(s, name);
    match with_items(
        s.at(source_name),
        name,
        body,
        pending,
        with_vars(s.globals, pending.vars),
    ) {
        Err(e) => Err(e),
        Ok((after, _)) => Ok(StateView { projects: insert_entry(s.projects, name, after), ..s }),
    }
}

/// What has been declared for a project by the declarations before the first
/// error.
pub open spec fn items_before_error(
    p: Place,
    name: Seq<char>,
    items: Seq<StmtView>,
    pending: PendingProjectView,
    scope: Entries<TemplateView>,
) -> PendingProjectView
    decreases items.len(),
{
    match with_items(p, name, items, pending, scope) {
        Ok((after, _)) => after,
        Err(_) => if items.len() == 0 {
            pending
        } else {
            items_before_error(p, name, items.drop_last(), pending, scope)
        },
    }
}

/// What has been declared for a project so far.
pub open spec fn pending_project(s: StateView, name: Seq<char>) -> PendingProjectView {
    match lookup(s.projects, name) {
        Some(pending) => pending,
        None => PendingProjectView::empty(),
    }
}

/// What the body of a project leaves after an error: the declarations before it
/// stay.
pub open spec fn left_by_body(
    s: StateView,
    name: Seq<char>,
    body: Seq<StmtView>,
    source_name: Seq<char>,
) -> StateView {
    let pending = pending_project(s, name);
    let declared = items_before_error(
        s.at(source_name),
        name,
        body,
        pending,
        with_vars(s.globals, pending.vars),
    );
    StateView { projects: insert_entry(s.projects, name, declared), ..s }
}

/// A body that fails touches the project that it is about and nothing else.
pub proof fn law_a_failed_body_keeps_the_rest(
    s: StateView,
    name: Seq<char>,
    body: Seq<StmtView>,
    source_name: Seq<char>,
    other: Seq<char>,
)
    requires
        ascending(s.projects),
    ensures
        ({
            let left = left_by_body(s, name, body, source_name);
            &&& left == (StateView { projects: left.projects, ..s })
            &&& lookup(left.projects, name) is Some
            &&& other != name ==> lookup(left.projects, other) == lookup(s.projects, other)
        }),
{
    let pending = pending_project(s, name);
    let declared = items_before_error(
        s.at(source_name),
        name,
        body,
        pending,
        with_vars(s.globals, pending.vars),
    );
    law_insert_then_lookup(s.projects, name, declared, name);
    law_insert_then_lookup(s.projects, name, declared, other);
}

proof fn lemma_items_error(
    p: Place,
    name: Seq<char>,
    items: Seq<StmtView>,
    pending: PendingProjectView,
    scope: Entries<TemplateView>,
    n: int,
)
    requires
        0 <= n <= items.len(),
        with_items(p, name, items.take(n), pending, scope) is Err,
    ensures
        with_items(p, name, items, pending, scope) == with_items(
            p,
            name,
            items.take(n),
            pending,
            scope,
        ),
        items_before_error(p, name, items, pending, scope) == items_before_error(
            p,
            name,
            items.take(n),
            pending,
            scope,
        ),
    decreases items.len(),
{
    if n < items.len() {
        assert(items.drop_last().take(n) =~= items.take(n));
        lemma_items_error(p, name, items.drop_last(), pending, scope, n);
    } else {
        assert(items.take(n) =~= items);
    }
}

fn scope_of_project(globals: &NameMap<Template>, vars: &NameMap<Template>) -> (r: NameMap<Template>)
    ensures
        scope_view(r@) == with_vars(scope_view(globals@), scope_view(vars@)),
{
    let mut scope = copy_scope(globals);
    let ghost all = scope_view(vars@);
    let n: usize = vars.len();
    let mut i: usize = 0;
    assert(all.take(0) =~= Seq::<(Seq<char>, TemplateView)>::empty());
    while i < n
        invariant
            i <= n == vars@.len(),
            all == scope_view(vars@),
            scope_view(scope@) == with_vars(scope_view(globals@), all.take(i as int)),
        decreases n - i,
    {
        let name = vars.name_at(i).to_owned();
        let value = vars.value_at(i).duplicate();
        proof {
            let next = all.take(i + 1);
            assert(next.drop_last() =~= all.take(i as int));
            assert(next.last() == (name@, value@));
            lemma_map_insert(scope@, template_viewer(), name@, value);
        }
        scope.insert(name, value);
        i += 1;
    }
    assert(all.take(i as int) =~= all);
    scope
}

fn compile_item(
    name: &str,
    item: &Stmt,
    pending: &mut PendingProject,
    scope: &mut NameMap<Template>,
    source_name: &str,
    state: &LoweringState,
) -> (r: Result<(), CompileError>)
    ensures
        match r {
            Ok(_) => with_item(
                state@.at(source_name@),
                name@,
                item@,
                old(pending)@,
                scope_view(old(scope)@),
            ) == Ok::<(PendingProjectView, Entries<TemplateView>), CompileErrorView>(
                (final(pending)@, scope_view(final(scope)@)),
            ),
            Err(e) => with_item(
                state@.at(source_name@),
                name@,
                item@,
                old(pending)@,
                scope_view(old(scope)@),
            ) == Err::<(PendingProjectView, Entries<TemplateView>), CompileErrorView>(e@)
                && final(pending)@ == old(pending)@,
        },
{
    match item {
        Stmt::Var { name: var, value, offset, len } => {
            let resolved = match inline_dsl_template(value, scope, &state.source_texts, source_name) {
                Ok(t) => t,
                Err(e) => {
                    return Err(e);
                },
            };
            let copy = resolved.duplicate();
            proof {
                lemma_map_lookup(pending.vars@, template_viewer(), var@);
                lemma_map_insert(pending.vars@, template_viewer(), var@, copy);
                lemma_map_insert(scope@, template_viewer(), var@, resolved);
            }
            if pending.vars.get(var.as_str()).is_some() {
                let mut msg = "variable `".to_owned();
                msg.push_str(var.as_str());
                msg.push_str("` is already defined in project `");
                msg.push_str(name);
                msg.push_str("`");
                return Err(state.spanned(msg, source_name, *offset, *len));
            }
            pending.vars.insert(var.clone(), copy);
            scope.insert(var.clone(), resolved);
            Ok(())
        },
        Stmt::Fn { name: function, body, offset, len } => {
            proof {
                lemma_map_lookup(pending.functions@, ir::body_viewer(), function@);
            }
            if pending.functions.get(function.as_str()).is_some() {
                let mut msg = "duplicate function `".to_owned();
                msg.push_str(function.as_str());
                msg.push_str("` in project `");
                msg.push_str(name);
                msg.push_str("`");
                return Err(state.spanned(msg, source_name, *offset, *len));
            }
            match lower_function_body(body, scope, &state.source_texts, source_name) {
                Ok(lowered) => {
                    proof {
                        lemma_map_insert(
                            pending.functions@,
                            ir::body_viewer(),
                            function@,
                            lowered,
                        );
                    }
                    pending.functions.insert(function.clone(), lowered);
                    Ok(())
                },
                Err(e) => Err(e),
            }
        },
        _ => Ok(()),
    }
}

/// Compile the body of a project.
pub fn compile_project_body(
    name: &str,
    body: &Vec<Stmt>,
    source_name: &str,
    state: &mut LoweringState,
) -> (r: Result<(), CompileError>)
    ensures
        effect(
            with_project_body(old(state)@, name@, stmt_views(body@), source_name@),
            left_by_body(old(state)@, name@, stmt_views(body@), source_name@),
            r,
            final(state)@,
        ),
        final(state)@ == (StateView { projects: final(state)@.projects, ..old(state)@ }),
        forall|other: Seq<char>|
            other != name@ ==> (#[trigger] lookup(final(state)@.projects, other)) == lookup(
                old(state)@.projects,
                other,
            ),
        r is Err ==> lookup(final(state)@.projects, name@) is Some,
{
    let ghost before = state@;
    let ghost projects = state.projects@;
    let known = state.projects.len();
    proof {
        lemma_map_lookup(projects, project_viewer(), name@);
    }
    let ghost p = before.at(source_name@);
    let ghost views = stmt_views(body@);
    let mut pending = match state.projects.take(name) {
        Some(pending) => pending,
        None => {
            let none = PendingProject { vars: NameMap::new(), functions: NameMap::new() };
            assert(none@.vars =~= Seq::<(Seq<char>, TemplateView)>::empty());
            assert(none@.functions =~= Seq::<(Seq<char>, Seq<ir::InstructionView>)>::empty());
            none
        },
    };
    let ghost first = pending@;
    let ghost kept = state.projects@;
    let mut scope = scope_of_project(&state.globals, &pending.vars);
    let ghost first_scope = scope_view(scope@);
    let mut i: usize = 0;
    let mut failure: Option<CompileError> = None;
    assert(views.take(0) =~= Seq::<StmtView>::empty());
    while i < body.len() && failure.is_none()
        invariant
            i <= body@.len(),
            views == stmt_views(body@),
            p == before.at(source_name@),
            state@.sources == before.sources,
            state.projects@ == kept,
            state@ == (StateView { projects: state@.projects, ..before }),
            before == old(state)@,
            with_project_body(before, name@, views, source_name@) == match with_items(
                p,
                name@,
                views,
                first,
                first_scope,
            ) {
                Err(e) => Err(e),
                Ok((after, _)) => Ok::<StateView, CompileErrorView>(
                    StateView { projects: insert_entry(before.projects, name@, after), ..before },
                ),
            },
            match failure {
                None => with_items(p, name@, views.take(i as int), first, first_scope) == Ok::<
                    (PendingProjectView, Entries<TemplateView>),
                    CompileErrorView,
                >((pending@, scope_view(scope@))),
                Some(e) => with_items(p, name@, views, first, first_scope) == Err::<
                    (PendingProjectView, Entries<TemplateView>),
                    CompileErrorView,
                >(e@) && items_before_error(p, name@, views, first, first_scope) == pending@,
            },
        decreases body@.len() - i,
    {
        let ghost next = views.take(i + 1);
        proof {
            assert(next.drop_last() =~= views.take(i as int));
            assert(next.last() == body@[i as int]@);
            if with_items(p, name@, next, first, first_scope) is Err {
                lemma_items_error(p, name@, views, first, first_scope, i + 1);
                assert(items_before_error(p, name@, next, first, first_scope)
                    == items_before_error(p, name@, views.take(i as int), first, first_scope));
                assert(items_before_error(p, name@, views, first, first_scope) == pending@);
            }
        }
        if let Err(e) = compile_item(name, &body[i], &mut pending, &mut scope, source_name, state) {
            failure = Some(e);
        }
        i += 1;
    }
    proof {
        if failure is None {
            assert(views.take(i as int) =~= views);
        }
        law_remove_then_insert(projects, name@, pending);
        lemma_map_insert(projects, project_viewer(), name@, pending);
    }
    proof {
        lemma_map_ascending(projects, project_viewer());
        lemma_others_kept(before.projects, name@, pending@);
    }
    state.projects.insert(name.to_owned(), pending);
    match failure {
        Some(e) => Err(e),
        None => Ok(()),
    }
}

/// The effect of a declaration.
pub open spec fn with_stmt(s: StateView, stmt: StmtView, source_name: Seq<char>) -> Result<
    StateView,
    CompileErrorView,
> {
    match stmt {
        StmtView::Shell { value, offset, len, source_name: source } => with_shell(
            s,
            value,
            offset,
            len,
            source,
        ),
        StmtView::Timeout { value, offset, len, source_name: source } => with_timeout(
            s,
            value,
            offset,
            len,
            source,
        ),
        StmtView::Var { name, value, offset, len } => with_var(
            s,
            name,
            value,
            offset,
            len,
            source_name,
        ),
        StmtView::Fn { .. } => Ok(s),
        StmtView::Project { name, fields, body } => match with_project_fields(
            s,
            name,
            fields,
            source_name,
        ) {
            Err(e) => Err(e),
            Ok(t) => with_project_body(t, name, body, source_name),
        },
        StmtView::Run { name, calls, offset, len } => with_run(
            s,
            name,
            calls,
            offset,
            len,
            source_name,
        ),
        StmtView::Field { .. } => Ok(s),
    }
}

/// What a declaration leaves after an error.
pub open spec fn left_by_stmt(s: StateView, stmt: StmtView, source_name: Seq<char>) -> StateView {
    match stmt {
        StmtView::Project { name, fields, body } => match with_project_fields(
            s,
            name,
            fields,
            source_name,
        ) {
            Err(_) => left_by_fields(s, name, fields, source_name),
            Ok(t) => left_by_body(t, name, body, source_name),
        },
        _ => s,
    }
}

/// Compile a declaration.
pub fn compile_stmt(stmt: &Stmt, state: &mut LoweringState, source_name: &str) -> (r: Result<
    (),
    CompileError,
>)
    ensures
        effect(
            with_stmt(old(state)@, stmt@, source_name@),
            left_by_stmt(old(state)@, stmt@, source_name@),
            r,
            final(state)@,
        ),
{
    match stmt {
        Stmt::Shell { value, offset, len, source_name: source } => compile_shell_decl(
            value,
            *offset,
            *len,
            source.as_str(),
            state,
        ),
        Stmt::Timeout { value, offset, len, source_name: source } => compile_timeout_decl(
            value,
            *offset,
            *len,
            source.as_str(),
            state,
        ),
        Stmt::Var { name, value, offset, len } => compile_var_decl(
            name.as_str(),
            value,
            *offset,
            *len,
            source_name,
            state,
        ),
        Stmt::Fn { .. } => Ok(()),
        Stmt::Project { name, fields, body } => {
            proof {
                assert(stmt@->Project_fields =~= stmt_views(fields@));
                assert(stmt@->Project_body =~= stmt_views(body@));
            }
            if let Err(e) = compile_project_fields(name.as_str(), fields, source_name, state) {
                return Err(e);
            }
            compile_project_body(name.as_str(), body, source_name, state)
        },
        Stmt::Run { name, calls, offset, len } => compile_run_decl(
            name.as_str(),
            calls,
            *offset,
            *len,
            source_name,
            state,
        ),
        Stmt::Field { .. } => Ok(()),
    }
}

} // verus!
