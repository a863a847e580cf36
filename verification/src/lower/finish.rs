//! The end of lowering: what has been compiled becomes the execution form.
use vstd::prelude::*;
use crate::diagnostics::{diagnostic_views, Diagnostic, DiagnosticView};
use crate::dsl::error::SourceSpan;
use crate::ir;
use crate::lower::inline::{
    has_no_vars, inlined, law_inlined_has_no_vars, lower_template, lowered, Place,
};
use crate::lower::stmt::{
    project_viewer, sync_viewer, with_fields, with_items, with_project_body, with_project_fields,
    with_stmt, with_vars, LoweringState, PendingProject, PendingProjectView, PendingSync,
    PendingSyncView, StateView,
};
use crate::lower::{CompileError, CompileErrorView};
use crate::names::{
    ascending, insert_entry, lemma_insert_at_end, lemma_map_insert, lemma_map_lookup, lookup,
    map_entries, name_lt, Entries, NameMap,
};
use crate::plan::{call_views, run_viewer, stage_views, Call, CallView};
use crate::syntax::{StmtView, Template, TemplateView};

verus! {

broadcast use vstd::string::group_string_axioms;

// ── What lowering keeps ──────────────────────────────────────────────────────

/// No variable stands in any of the values.
pub open spec fn scope_closed(scope: Entries<TemplateView>) -> bool {
    forall|i: int| 0 <= i < scope.len() ==> has_no_vars((#[trigger] scope[i]).1)
}

/// No variable stands in what has been said of a repository.
pub open spec fn sync_closed(s: PendingSyncView) -> bool {
    &&& (s.url matches Some(t) ==> has_no_vars(t))
    &&& (s.dir matches Some(t) ==> has_no_vars(t))
    &&& (s.branch matches Some(t) ==> has_no_vars(t))
    &&& (s.strategy matches Some(t) ==> has_no_vars(t))
}

/// No variable stands in anything that has been compiled.
pub open spec fn state_closed(s: StateView) -> bool {
    &&& scope_closed(s.globals)
    &&& forall|i: int| 0 <= i < s.syncs.len() ==> sync_closed((#[trigger] s.syncs[i]).1)
    &&& forall|i: int|
        0 <= i < s.projects.len() ==> scope_closed((#[trigger] s.projects[i]).1.vars)
}

/// What holds of all values and of a new one holds of all after it is put in.
proof fn lemma_insert_all<V>(s: Entries<V>, name: Seq<char>, value: V, good: spec_fn(V) -> bool)
    requires
        forall|i: int| 0 <= i < s.len() ==> good((#[trigger] s[i]).1),
        good(value),
    ensures
        forall|i: int|
            0 <= i < insert_entry(s, name, value).len() ==> good(
                (#[trigger] insert_entry(s, name, value)[i]).1,
            ),
    decreases s.len(),
{
    let r = insert_entry(s, name, value);
    if s.len() == 0 || name_lt(s.last().0, name) {
        assert forall|i: int| 0 <= i < r.len() implies good((#[trigger] r[i]).1) by {
            if i < s.len() {
                assert(r[i] == s[i]);
            }
        }
    } else {
        let init = s.drop_last();
        assert forall|i: int| 0 <= i < init.len() implies good((#[trigger] init[i]).1) by {
            assert(init[i] == s[i]);
        }
        if s.last().0 == name {
            assert forall|i: int| 0 <= i < r.len() implies good((#[trigger] r[i]).1) by {
                if i < init.len() {
                    assert(r[i] == init[i]);
                }
            }
        } else {
            lemma_insert_all(init, name, value, good);
            let t = insert_entry(init, name, value);
            assert(good(s[s.len() - 1].1));
            assert forall|i: int| 0 <= i < r.len() implies good((#[trigger] r[i]).1) by {
                if i < t.len() {
                    assert(r[i] == t[i]);
                }
            }
        }
    }
}

proof fn lemma_lookup_good<V>(s: Entries<V>, name: Seq<char>, good: spec_fn(V) -> bool)
    requires
        forall|i: int| 0 <= i < s.len() ==> good((#[trigger] s[i]).1),
    ensures
        lookup(s, name) matches Some(v) ==> good(v),
    decreases s.len(),
{
    if s.len() > 0 {
        assert(good(s[s.len() - 1].1));
        let init = s.drop_last();
        assert forall|i: int| 0 <= i < init.len() implies good((#[trigger] init[i]).1) by {
            assert(init[i] == s[i]);
        }
        lemma_lookup_good(init, name, good);
    }
}

proof fn lemma_scope_insert(scope: Entries<TemplateView>, name: Seq<char>, t: TemplateView)
    requires
        scope_closed(scope),
        has_no_vars(t),
    ensures
        scope_closed(insert_entry(scope, name, t)),
{
    lemma_insert_all(scope, name, t, |t: TemplateView| has_no_vars(t));
}

proof fn lemma_fields_closed(
    p: Place,
    fields: Seq<StmtView>,
    pending: PendingSyncView,
    globals: Entries<TemplateView>,
)
    requires
        sync_closed(pending),
    ensures
        with_fields(p, fields, pending, globals) matches Ok(after) ==> sync_closed(after),
    decreases fields.len(),
{
    if fields.len() > 0 {
        lemma_fields_closed(p, fields.drop_last(), pending, globals);
        match fields.last() {
            StmtView::Field { key, value, .. } => {
                law_inlined_has_no_vars(p, value, globals);
            },
            _ => {},
        }
    }
}

proof fn lemma_items_closed(
    p: Place,
    name: Seq<char>,
    items: Seq<StmtView>,
    pending: PendingProjectView,
    scope: Entries<TemplateView>,
)
    requires
        scope_closed(pending.vars),
    ensures
        with_items(p, name, items, pending, scope) matches Ok((after, _)) ==> scope_closed(
            after.vars,
        ),
    decreases items.len(),
{
    if items.len() > 0 {
        lemma_items_closed(p, name, items.drop_last(), pending, scope);
        if let Ok((before, known)) = with_items(p, name, items.drop_last(), pending, scope) {
            match items.last() {
                StmtView::Var { name: var, value, .. } => {
                    law_inlined_has_no_vars(p, value, known);
                    if let Ok(t) = inlined(p, value, known) {
                        lemma_scope_insert(before.vars, var, t);
                    }
                },
                _ => {},
            }
        }
    }
}

/// No declaration brings a variable into what has been compiled: references are
/// replaced by their values as soon as they are met.
pub proof fn law_nothing_refers_to_variables(s: StateView, stmt: StmtView, source_name: Seq<char>)
    requires
        state_closed(s),
    ensures
        with_stmt(s, stmt, source_name) matches Ok(after) ==> state_closed(after),
{
    match stmt {
        StmtView::Var { name, value, .. } => {
            law_inlined_has_no_vars(s.at(source_name), value, s.globals);
            if let Ok(t) = inlined(s.at(source_name), value, s.globals) {
                lemma_scope_insert(s.globals, name, t);
            }
        },
        StmtView::Project { name, fields, body } => {
            lemma_project_fields_closed(s, name, fields, source_name);
            if let Ok(t) = with_project_fields(s, name, fields, source_name) {
                lemma_project_body_closed(t, name, body, source_name);
            }
        },
        _ => {},
    }
}

proof fn lemma_project_fields_closed(
    s: StateView,
    name: Seq<char>,
    fields: Seq<StmtView>,
    source_name: Seq<char>,
)
    requires
        state_closed(s),
    ensures
        with_project_fields(s, name, fields, source_name) matches Ok(after) ==> state_closed(after),
{
    if fields.len() > 0 {
        let good = |x: PendingSyncView| sync_closed(x);
        assert forall|i: int| 0 <= i < s.syncs.len() implies good((#[trigger] s.syncs[i]).1) by {
            assert(sync_closed(s.syncs[i].1));
        }
        lemma_lookup_good(s.syncs, name, good);
        let pending = match lookup(s.syncs, name) {
            Some(pending) => pending,
            None => PendingSyncView::empty(),
        };
        assert(sync_closed(pending)) by {
            if lookup(s.syncs, name) is Some {
                assert(good(pending));
            }
        }
        lemma_fields_closed(s.at(source_name), fields, pending, s.globals);
        if let Ok(after) = with_fields(s.at(source_name), fields, pending, s.globals) {
            assert(good(after));
            lemma_insert_all(s.syncs, name, after, good);
            let r = insert_entry(s.syncs, name, after);
            assert forall|i: int| 0 <= i < r.len() implies sync_closed((#[trigger] r[i]).1) by {
                assert(good(r[i].1));
            }
        }
    }
}

proof fn lemma_project_body_closed(
    s: StateView,
    name: Seq<char>,
    body: Seq<StmtView>,
    source_name: Seq<char>,
)
    requires
        state_closed(s),
    ensures
        with_project_body(s, name, body, source_name) matches Ok(after) ==> state_closed(after),
{
    let good = |x: PendingProjectView| scope_closed(x.vars);
    assert forall|i: int| 0 <= i < s.projects.len() implies good((#[trigger] s.projects[i]).1) by {
        assert(scope_closed(s.projects[i].1.vars));
    }
    lemma_lookup_good(s.projects, name, good);
    let pending = match lookup(s.projects, name) {
        Some(pending) => pending,
        None => PendingProjectView::empty(),
    };
    assert(scope_closed(pending.vars)) by {
        if lookup(s.projects, name) is Some {
            assert(good(pending));
        }
    }
    let scope = with_vars(s.globals, pending.vars);
    lemma_items_closed(s.at(source_name), name, body, pending, scope);
    if let Ok((after, _)) = with_items(s.at(source_name), name, body, pending, scope) {
        assert(good(after));
        lemma_insert_all(s.projects, name, after, good);
        let r = insert_entry(s.projects, name, after);
        assert forall|i: int| 0 <= i < r.len() implies scope_closed((#[trigger] r[i]).1.vars) by {
            assert(good(r[i].1));
        }
    }
}

// ── The execution form ───────────────────────────────────────────────────────

/// What is wrong with a call of a run: its project is unknown, or has no such
/// function.
pub open spec fn call_error(
    projects: Entries<PendingProjectView>,
    run: Seq<char>,
    call: CallView,
) -> Option<Seq<char>> {
    match lookup(projects, call.project) {
        None => Some("run `"@ + run + "`: unknown project `"@ + call.project + "`"@),
        Some(project) => match lookup(project.functions, call.function) {
            None => Some(
                "run `"@ + run + "`: function `"@ + call.function + "` not found in project `"@
                    + call.project + "`"@,
            ),
            Some(_) => None,
        },
    }
}

/// The first thing that is wrong with the calls of a chain.
pub open spec fn chain_error(
    projects: Entries<PendingProjectView>,
    run: Seq<char>,
    calls: Seq<CallView>,
) -> Option<Seq<char>>
    decreases calls.len(),
{
    if calls.len() == 0 {
        None
    } else {
        match chain_error(projects, run, calls.drop_last()) {
            Some(e) => Some(e),
            None => call_error(projects, run, calls.last()),
        }
    }
}

/// The first thing that is wrong with the chains of a run.
pub open spec fn chains_error(
    projects: Entries<PendingProjectView>,
    run: Seq<char>,
    chains: Seq<Seq<CallView>>,
) -> Option<Seq<char>>
    decreases chains.len(),
{
    if chains.len() == 0 {
        None
    } else {
        match chains_error(projects, run, chains.drop_last()) {
            Some(e) => Some(e),
            None => chain_error(projects, run, chains.last()),
        }
    }
}

/// The first thing that is wrong with the runs.
pub open spec fn runs_error(
    projects: Entries<PendingProjectView>,
    runs: Entries<Seq<Seq<CallView>>>,
) -> Option<Seq<char>>
    decreases runs.len(),
{
    if runs.len() == 0 {
        None
    } else {
        match runs_error(projects, runs.drop_last()) {
            Some(e) => Some(e),
            None => chains_error(projects, runs.last().0, runs.last().1),
        }
    }
}

/// A template that may not have been given, in the execution form.
pub open spec fn lowered_or_empty(t: Option<TemplateView>) -> ir::TemplateView {
    match t {
        Some(t) => lowered(t),
        None => ir::TemplateView::empty(),
    }
}

/// A repository in the execution form.
pub open spec fn sync_of(s: PendingSyncView) -> ir::SyncView {
    ir::SyncView {
        url: lowered_or_empty(s.url),
        dir: lowered_or_empty(s.dir),
        branch: lowered_or_empty(s.branch),
        strategy: lowered_or_empty(s.strategy),
    }
}

pub open spec fn sync_lowerer() -> spec_fn(PendingSyncView) -> ir::SyncView {
    |s: PendingSyncView| sync_of(s)
}

pub open spec fn project_lowerer() -> spec_fn(PendingProjectView) -> ir::ProjectView {
    |p: PendingProjectView| ir::ProjectView { functions: p.functions }
}

/// The execution form of what has been compiled, or what is wrong with it. The
/// shell is `sh` where none was declared.
pub open spec fn ir_of_state(s: StateView) -> Result<ir::IrView, CompileErrorView> {
    match runs_error(s.projects, s.run_blocks) {
        Some(msg) => Err(
            CompileErrorView::Validation(
                seq![
                    DiagnosticView {
                        source_name: "<run>"@,
                        span: SourceSpan { offset: 0, len: 0 },
                        msg,
                        source_text: ""@,
                    },
                ],
            ),
        ),
        None => Ok(
            ir::IrView {
                shell: match s.shell {
                    Some(shell) => shell,
                    None => "sh"@,
                },
                timeout: match s.timeout {
                    Some(n) => n as nat,
                    None => 0,
                },
                sources: Seq::empty(),
                repositories: map_entries(s.syncs, sync_lowerer()),
                projects: map_entries(s.projects, project_lowerer()),
                execution_chains: s.run_blocks,
                runs: Seq::empty(),
            },
        ),
    }
}

/// Every call of a compiled run names a function that the execution form has.
pub proof fn law_calls_are_known(s: StateView, run: int, chain: int, call: int)
    requires
        ir_of_state(s) is Ok,
        0 <= run < s.run_blocks.len(),
        0 <= chain < s.run_blocks[run].1.len(),
        0 <= call < s.run_blocks[run].1[chain].len(),
    ensures
        ({
            let c = s.run_blocks[run].1[chain][call];
            let ir = ir_of_state(s)->Ok_0;
            lookup(ir.projects, c.project) matches Some(project) && lookup(
                project.functions,
                c.function,
            ) is Some
        }),
{
    let c = s.run_blocks[run].1[chain][call];
    lemma_run_ok(s.projects, s.run_blocks, run);
    lemma_chains_ok(s.projects, s.run_blocks[run].0, s.run_blocks[run].1, chain);
    lemma_chain_ok(s.projects, s.run_blocks[run].0, s.run_blocks[run].1[chain], call);
    lemma_map_lookup(s.projects, project_lowerer(), c.project);
}

proof fn lemma_run_ok(
    projects: Entries<PendingProjectView>,
    runs: Entries<Seq<Seq<CallView>>>,
    n: int,
)
    requires
        runs_error(projects, runs) is None,
        0 <= n < runs.len(),
    ensures
        chains_error(projects, runs[n].0, runs[n].1) is None,
    decreases runs.len(),
{
    if n < runs.len() - 1 {
        lemma_run_ok(projects, runs.drop_last(), n);
    }
}

proof fn lemma_chains_ok(
    projects: Entries<PendingProjectView>,
    run: Seq<char>,
    chains: Seq<Seq<CallView>>,
    n: int,
)
    requires
        chains_error(projects, run, chains) is None,
        0 <= n < chains.len(),
    ensures
        chain_error(projects, run, chains[n]) is None,
    decreases chains.len(),
{
    if n < chains.len() - 1 {
        lemma_chains_ok(projects, run, chains.drop_last(), n);
    }
}

proof fn lemma_chain_ok(
    projects: Entries<PendingProjectView>,
    run: Seq<char>,
    calls: Seq<CallView>,
    n: int,
)
    requires
        chain_error(projects, run, calls) is None,
        0 <= n < calls.len(),
    ensures
        call_error(projects, run, calls[n]) is None,
    decreases calls.len(),
{
    if n < calls.len() - 1 {
        lemma_chain_ok(projects, run, calls.drop_last(), n);
    }
}

proof fn lemma_chain_error_prefix(
    projects: Entries<PendingProjectView>,
    run: Seq<char>,
    calls: Seq<CallView>,
    n: int,
)
    requires
        0 <= n <= calls.len(),
        chain_error(projects, run, calls.take(n)) is Some,
    ensures
        chain_error(projects, run, calls) == chain_error(projects, run, calls.take(n)),
    decreases calls.len(),
{
    if n < calls.len() {
        assert(calls.drop_last().take(n) =~= calls.take(n));
        lemma_chain_error_prefix(projects, run, calls.drop_last(), n);
    } else {
        assert(calls.take(n) =~= calls);
    }
}

proof fn lemma_chains_error_prefix(
    projects: Entries<PendingProjectView>,
    run: Seq<char>,
    chains: Seq<Seq<CallView>>,
    n: int,
)
    requires
        0 <= n <= chains.len(),
        chains_error(projects, run, chains.take(n)) is Some,
    ensures
        chains_error(projects, run, chains) == chains_error(projects, run, chains.take(n)),
    decreases chains.len(),
{
    if n < chains.len() {
        assert(chains.drop_last().take(n) =~= chains.take(n));
        lemma_chains_error_prefix(projects, run, chains.drop_last(), n);
    } else {
        assert(chains.take(n) =~= chains);
    }
}

proof fn lemma_runs_error_prefix(
    projects: Entries<PendingProjectView>,
    runs: Entries<Seq<Seq<CallView>>>,
    n: int,
)
    requires
        0 <= n <= runs.len(),
        runs_error(projects, runs.take(n)) is Some,
    ensures
        runs_error(projects, runs) == runs_error(projects, runs.take(n)),
    decreases runs.len(),
{
    if n < runs.len() {
        assert(runs.drop_last().take(n) =~= runs.take(n));
        lemma_runs_error_prefix(projects, runs.drop_last(), n);
    } else {
        assert(runs.take(n) =~= runs);
    }
}

pub open spec fn text_view(s: Option<String>) -> Option<Seq<char>> {
    match s {
        Some(s) => Some(s@),
        None => None,
    }
}

fn check_call(projects: &NameMap<PendingProject>, run: &str, call: &Call) -> (r: Option<String>)
    ensures
        text_view(r) == call_error(map_entries(projects@, project_viewer()), run@, call@),
{
    proof {
        lemma_map_lookup(projects@, project_viewer(), call.project@);
    }
    match projects.get(call.project.as_str()) {
        None => {
            let mut msg = "run `".to_owned();
            msg.push_str(run);
            msg.push_str("`: unknown project `");
            msg.push_str(call.project.as_str());
            msg.push_str("`");
            Some(msg)
        },
        Some(project) => {
            proof {
                lemma_map_lookup(project.functions@, ir::body_viewer(), call.function@);
            }
            if project.functions.get(call.function.as_str()).is_some() {
                None
            } else {
                let mut msg = "run `".to_owned();
                msg.push_str(run);
                msg.push_str("`: function `");
                msg.push_str(call.function.as_str());
                msg.push_str("` not found in project `");
                msg.push_str(call.project.as_str());
                msg.push_str("`");
                Some(msg)
            }
        },
    }
}

fn check_chain(projects: &NameMap<PendingProject>, run: &str, calls: &Vec<Call>) -> (r: Option<
    String,
>)
    ensures
        text_view(r) == chain_error(
            map_entries(projects@, project_viewer()),
            run@,
            call_views(calls@),
        ),
{
    let ghost ps = map_entries(projects@, project_viewer());
    let ghost views = call_views(calls@);
    let mut i: usize = 0;
    assert(views.take(0) =~= Seq::<CallView>::empty());
    while i < calls.len()
        invariant
            i <= calls@.len(),
            ps == map_entries(projects@, project_viewer()),
            views == call_views(calls@),
            chain_error(ps, run@, views.take(i as int)) is None,
        decreases calls@.len() - i,
    {
        proof {
            let next = views.take(i + 1);
            assert(next.drop_last() =~= views.take(i as int));
            assert(next.last() == calls@[i as int]@);
            if chain_error(ps, run@, next) is Some {
                lemma_chain_error_prefix(ps, run@, views, i + 1);
            }
        }
        if let Some(msg) = check_call(projects, run, &calls[i]) {
            return Some(msg);
        }
        i += 1;
    }
    assert(views.take(i as int) =~= views);
    None
}

fn check_chains(projects: &NameMap<PendingProject>, run: &str, chains: &Vec<Vec<Call>>) -> (r:
    Option<String>)
    ensures
        text_view(r) == chains_error(
            map_entries(projects@, project_viewer()),
            run@,
            stage_views(chains@),
        ),
{
    let ghost ps = map_entries(projects@, project_viewer());
    let ghost views = stage_views(chains@);
    let mut i: usize = 0;
    assert(views.take(0) =~= Seq::<Seq<CallView>>::empty());
    while i < chains.len()
        invariant
            i <= chains@.len(),
            ps == map_entries(projects@, project_viewer()),
            views == stage_views(chains@),
            chains_error(ps, run@, views.take(i as int)) is None,
        decreases chains@.len() - i,
    {
        proof {
            let next = views.take(i + 1);
            assert(next.drop_last() =~= views.take(i as int));
            assert(next.last() == call_views(chains@[i as int]@));
            if chains_error(ps, run@, next) is Some {
                lemma_chains_error_prefix(ps, run@, views, i + 1);
            }
        }
        if let Some(msg) = check_chain(projects, run, &chains[i]) {
            return Some(msg);
        }
        i += 1;
    }
    assert(views.take(i as int) =~= views);
    None
}

fn check_runs(projects: &NameMap<PendingProject>, runs: &NameMap<Vec<Vec<Call>>>) -> (r: Option<
    String,
>)
    ensures
        text_view(r) == runs_error(
            map_entries(projects@, project_viewer()),
            map_entries(runs@, run_viewer()),
        ),
{
    let ghost ps = map_entries(projects@, project_viewer());
    let ghost views = map_entries(runs@, run_viewer());
    let n: usize = runs.len();
    let mut i: usize = 0;
    assert(views.take(0) =~= Seq::<(Seq<char>, Seq<Seq<CallView>>)>::empty());
    while i < n
        invariant
            i <= n == runs@.len(),
            ps == map_entries(projects@, project_viewer()),
            views == map_entries(runs@, run_viewer()),
            runs_error(ps, views.take(i as int)) is None,
        decreases n - i,
    {
        proof {
            let next = views.take(i + 1);
            assert(next.drop_last() =~= views.take(i as int));
            assert(next.last() == views[i as int]);
            if runs_error(ps, next) is Some {
                lemma_runs_error_prefix(ps, views, i + 1);
            }
        }
        if let Some(msg) = check_chains(projects, runs.name_at(i), runs.value_at(i)) {
            return Some(msg);
        }
        i += 1;
    }
    assert(views.take(i as int) =~= views);
    None
}

fn lower_or_empty(t: &Option<Template>) -> (r: ir::Template)
    requires
        t matches Some(t) ==> has_no_vars(t@),
    ensures
        r@ == lowered_or_empty(crate::lower::stmt::option_template(*t)),
{
    match t {
        Some(t) => lower_template(t),
        None => ir::Template::default(),
    }
}

fn build_repositories(syncs: &NameMap<PendingSync>) -> (r: NameMap<ir::Sync>)
    requires
        forall|i: int| 0 <= i < syncs@.len() ==> sync_closed((#[trigger] syncs@[i]).1@),
    ensures
        map_entries(r@, ir::sync_viewer()) == map_entries(
            map_entries(syncs@, sync_viewer()),
            sync_lowerer(),
        ),
{
    let mut out: NameMap<ir::Sync> = NameMap::new();
    let ghost want = map_entries(map_entries(syncs@, sync_viewer()), sync_lowerer());
    let n: usize = syncs.len();
    let mut i: usize = 0;
    assert(map_entries(out@, ir::sync_viewer()) =~= want.take(0));
    while i < n
        invariant
            i <= n == syncs@.len(),
            forall|i: int| 0 <= i < syncs@.len() ==> sync_closed((#[trigger] syncs@[i]).1@),
            want == map_entries(map_entries(syncs@, sync_viewer()), sync_lowerer()),
            ascending(syncs@),
            map_entries(out@, ir::sync_viewer()) == want.take(i as int),
        decreases n - i,
    {
        let name = syncs.name_at(i).to_owned();
        let pending = syncs.value_at(i);
        assert(sync_closed(syncs@[i as int].1@));
        let sync = ir::Sync {
            url: lower_or_empty(&pending.url),
            dir: lower_or_empty(&pending.dir),
            branch: lower_or_empty(&pending.branch),
            strategy: lower_or_empty(&pending.strategy),
        };
        proof {
            let done = want.take(i as int);
            assert(want[i as int] == (name@, sync@));
            assert forall|k: int| 0 <= k < done.len() implies name_lt(#[trigger] done[k].0, name@) by {
                assert(name_lt(syncs@[k].0, syncs@[i as int].0));
            }
            lemma_map_insert(out@, ir::sync_viewer(), name@, sync);
            lemma_insert_at_end(done, name@, sync@);
            assert(done.push((name@, sync@)) =~= want.take(i + 1));
        }
        out.insert(name, sync);
        i += 1;
    }
    assert(want.take(i as int) =~= want);
    out
}

fn build_projects(projects: NameMap<PendingProject>) -> (r: NameMap<ir::Project>)
    ensures
        map_entries(r@, ir::project_viewer()) == map_entries(
            map_entries(projects@, project_viewer()),
            project_lowerer(),
        ),
{
    let mut out: NameMap<ir::Project> = NameMap::new();
    let ghost all = projects@;
    let ghost want = map_entries(map_entries(all, project_viewer()), project_lowerer());
    let mut rest = projects.into_entries();
    let total: usize = rest.len();
    let mut i: usize = 0;
    proof {
        assert(map_entries(out@, ir::project_viewer()) =~= want.take(0));
        assert(all.skip(0) =~= all);
    }
    while rest.len() > 0
        invariant
            i + rest@.len() == total,
            total == all.len(),
            want == map_entries(map_entries(all, project_viewer()), project_lowerer()),
            ascending(all),
            crate::names::entries_view(rest@) == all.skip(i as int),
            map_entries(out@, ir::project_viewer()) == want.take(i as int),
        decreases rest@.len(),
    {
        let ghost before = rest@;
        let (name, pending) = rest.remove(0);
        proof {
            assert(crate::names::entries_view(before)[0] == all[i as int]);
            assert(crate::names::entries_view(rest@) =~= crate::names::entries_view(before).remove(
                0,
            ));
            assert(all.skip(i as int).remove(0) =~= all.skip(i + 1));
        }
        let project = ir::Project { functions: pending.functions };
        proof {
            let done = want.take(i as int);
            assert(want[i as int] == (name@, project@));
            assert forall|k: int| 0 <= k < done.len() implies name_lt(#[trigger] done[k].0, name@) by {
                assert(name_lt(all[k].0, all[i as int].0));
            }
            lemma_map_insert(out@, ir::project_viewer(), name@, project);
            lemma_insert_at_end(done, name@, project@);
            assert(done.push((name@, project@)) =~= want.take(i + 1));
        }
        out.insert(name, project);
        i += 1;
    }
    assert(want.take(i as int) =~= want);
    out
}

/// Build the execution form from what has been compiled.
pub fn build_ir(state: LoweringState) -> (r: Result<ir::Ir, CompileError>)
    requires
        state_closed(state@),
    ensures
        ir_of_state(state@) == match r {
            Ok(x) => Ok::<ir::IrView, CompileErrorView>(x@),
            Err(e) => Err(e@),
        },
{
    if let Some(msg) = check_runs(&state.projects, &state.run_blocks) {
        let d = Diagnostic::new(
            "<run>".to_owned(),
            SourceSpan { offset: 0, len: 0 },
            msg,
            "".to_owned(),
        );
        let mut v: Vec<Diagnostic> = Vec::new();
        v.push(d);
        assert(diagnostic_views(v@) =~= seq![d@]);
        return Err(CompileError::Validation(v));
    }
    proof {
        assert forall|i: int| 0 <= i < state.syncs@.len() implies sync_closed(
            (#[trigger] state.syncs@[i]).1@,
        ) by {
            assert(sync_closed(state@.syncs[i].1));
        }
    }
    let repositories = build_repositories(&state.syncs);
    let shell = match state.shell {
        Some(s) => s,
        None => "sh".to_owned(),
    };
    let timeout = match state.timeout {
        Some(n) => n,
        None => 0,
    };
    let projects = build_projects(state.projects);
    let r = ir::Ir {
        shell,
        timeout,
        sources: NameMap::new(),
        repositories,
        projects,
        execution_chains: state.run_blocks,
        runs: NameMap::new(),
    };
    proof {
        assert(r@.sources =~= Seq::<(Seq<char>, Seq<char>)>::empty());
        assert(r@.runs =~= Seq::<(Seq<char>, Seq<ir::InstructionView>)>::empty());
        assert(r@.execution_chains =~= state@.run_blocks);
    }
    Ok(r)
}

} // verus!
