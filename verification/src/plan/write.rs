//! Writing a plan as a textual kirufile.
use vstd::prelude::*;
use crate::names::{ascending, lemma_map_ascending, Entries};
use crate::plan::read::plan_of;
use crate::plan::round_trip::{law_kirufile_read_back, plan_named, plan_ordered};
use crate::plan::{
    arm_views, body_viewer, call_views, instruction_views, pair_views, project_viewer, run_viewer,
    stage_views, sync_viewer, Arm, ArmPattern, ArmPatternView, ArmView, Call, CallView, EnvPair,
    EnvPairView, Instruction, InstructionView, Part, PartView, Plan, PlanView, Project,
    ProjectView, Sync, SyncView, Template, TemplateView,
};
use crate::sexp::{quote_string, quoted, Reason};

verus! {

/// A template as text: its literals as they are, its commands by their inner text.
pub open spec fn rendered(t: TemplateView) -> Seq<char>
    decreases t,
{
    rendered_parts(t.parts)
}

pub open spec fn rendered_parts(parts: Seq<PartView>) -> Seq<char>
    decreases parts,
{
    if parts.len() == 0 {
        Seq::empty()
    } else {
        rendered_parts(parts.drop_last()) + match parts.last() {
            PartView::Lit(s) => s,
            PartView::Cmd(inner) => rendered(inner),
        }
    }
}

/// Show a template to a reader. No command is run.
pub fn render_template(tmpl: &Template) -> (r: String)
    ensures
        r@ == rendered(tmpl@),
    decreases tmpl,
{
    let mut out = String::new();
    let mut i: usize = 0;
    assert(tmpl@.parts.take(0) =~= Seq::<PartView>::empty());
    while i < tmpl.parts.len()
        invariant
            i <= tmpl.parts@.len(),
            out@ == rendered_parts(tmpl@.parts.take(i as int)),
        decreases tmpl.parts@.len() - i,
    {
        proof {
            let next = tmpl@.parts.take(i + 1);
            assert(next.drop_last() =~= tmpl@.parts.take(i as int));
            assert(next.last() == tmpl.parts@[i as int]@);
            assert(decreases_to!(tmpl.parts@ => tmpl.parts@[i as int]));
        }
        match &tmpl.parts[i] {
            Part::Lit(s) => {
                out.push_str(s.as_str());
            },
            Part::Cmd(inner) => {
                assert(decreases_to!(tmpl.parts@[i as int] => tmpl.parts@[i as int]->Cmd_0));
                out.push_str(render_template(inner).as_str());
            },
        }
        i += 1;
    }
    assert(tmpl@.parts.take(i as int) =~= tmpl@.parts);
    out
}

/// A template as an s-expression.
pub open spec fn template_text(t: TemplateView) -> Seq<char>
    decreases t,
{
    "(t"@ + parts_text(t.parts) + ")"@
}

pub open spec fn parts_text(parts: Seq<PartView>) -> Seq<char>
    decreases parts,
{
    if parts.len() == 0 {
        Seq::empty()
    } else {
        parts_text(parts.drop_last()) + match parts.last() {
            PartView::Lit(s) => " (lit "@ + quoted(s) + ")"@,
            PartView::Cmd(inner) => " (cmd "@ + template_text(inner) + ")"@,
        }
    }
}

/// Write a template as an s-expression.
pub fn write_template(tmpl: &Template) -> (r: String)
    ensures
        r@ == template_text(tmpl@),
    decreases tmpl,
{
    let mut out = "(t".to_owned();
    let mut i: usize = 0;
    proof {
        assert(tmpl@.parts.take(0) =~= Seq::<PartView>::empty());
        assert("(t"@ + parts_text(tmpl@.parts.take(0)) =~= "(t"@);
    }
    while i < tmpl.parts.len()
        invariant
            i <= tmpl.parts@.len(),
            out@ == "(t"@ + parts_text(tmpl@.parts.take(i as int)),
        decreases tmpl.parts@.len() - i,
    {
        let ghost done = parts_text(tmpl@.parts.take(i as int));
        proof {
            let next = tmpl@.parts.take(i + 1);
            assert(next.drop_last() =~= tmpl@.parts.take(i as int));
            assert(next.last() == tmpl.parts@[i as int]@);
            assert(decreases_to!(tmpl.parts@ => tmpl.parts@[i as int]));
        }
        match &tmpl.parts[i] {
            Part::Lit(s) => {
                out.push_str(" (lit ");
                out.push_str(quote_string(s.as_str()).as_str());
                out.push_str(")");
                assert(out@ =~= "(t"@ + (done + (" (lit "@ + quoted(s@) + ")"@)));
            },
            Part::Cmd(inner) => {
                assert(decreases_to!(tmpl.parts@[i as int] => tmpl.parts@[i as int]->Cmd_0));
                out.push_str(" (cmd ");
                out.push_str(write_template(inner).as_str());
                out.push_str(")");
                assert(out@ =~= "(t"@ + (done + (" (cmd "@ + template_text(inner@) + ")"@)));
            },
        }
        i += 1;
    }
    assert(tmpl@.parts.take(i as int) =~= tmpl@.parts);
    out.push(')');
    proof {
        reveal_strlit(")");
    }
    assert(out@ =~= template_text(tmpl@));
    out
}

/// A template as the entries of repositories hold it: no space after `cmd`.
pub open spec fn compact_text(t: TemplateView) -> Seq<char>
    decreases t,
{
    "(t"@ + compact_parts(t.parts) + ")"@
}

pub open spec fn compact_parts(parts: Seq<PartView>) -> Seq<char>
    decreases parts,
{
    if parts.len() == 0 {
        Seq::empty()
    } else {
        compact_parts(parts.drop_last()) + match parts.last() {
            PartView::Lit(s) => " (lit "@ + quoted(s) + ")"@,
            PartView::Cmd(inner) => " (cmd"@ + compact_text(inner) + ")"@,
        }
    }
}

/// Append a template as an s-expression.
fn append_template(buf: &mut String, tmpl: &Template)
    ensures
        final(buf)@ == old(buf)@ + compact_text(tmpl@),
    decreases tmpl,
{
    let ghost start = buf@;
    buf.push_str("(t");
    let mut i: usize = 0;
    proof {
        assert(tmpl@.parts.take(0) =~= Seq::<PartView>::empty());
        assert(start + "(t"@ + compact_parts(tmpl@.parts.take(0)) =~= start + "(t"@);
    }
    while i < tmpl.parts.len()
        invariant
            i <= tmpl.parts@.len(),
            buf@ == start + "(t"@ + compact_parts(tmpl@.parts.take(i as int)),
        decreases tmpl.parts@.len() - i,
    {
        let ghost done = compact_parts(tmpl@.parts.take(i as int));
        proof {
            let next = tmpl@.parts.take(i + 1);
            assert(next.drop_last() =~= tmpl@.parts.take(i as int));
            assert(next.last() == tmpl.parts@[i as int]@);
            assert(decreases_to!(tmpl.parts@ => tmpl.parts@[i as int]));
        }
        match &tmpl.parts[i] {
            Part::Lit(s) => {
                buf.push_str(" (lit ");
                buf.push_str(quote_string(s.as_str()).as_str());
                buf.push_str(")");
                assert(buf@ =~= start + "(t"@ + (done + (" (lit "@ + quoted(s@) + ")"@)));
            },
            Part::Cmd(inner) => {
                assert(decreases_to!(tmpl.parts@[i as int] => tmpl.parts@[i as int]->Cmd_0));
                buf.push_str(" (cmd");
                append_template(buf, inner);
                buf.push_str(")");
                assert(buf@ =~= start + "(t"@ + (done + (" (cmd"@ + compact_text(inner@) + ")"@)));
            },
        }
        i += 1;
    }
    assert(tmpl@.parts.take(i as int) =~= tmpl@.parts);
    buf.push_str(")");
    assert(buf@ =~= start + compact_text(tmpl@));
}

// ── Instructions ─────────────────────────────────────────────────────────────

/// The variables of an `env` block.
pub open spec fn pairs_text(pairs: Seq<EnvPairView>) -> Seq<char>
    decreases pairs.len(),
{
    if pairs.len() == 0 {
        Seq::empty()
    } else {
        pairs_text(pairs.drop_last()) + (if pairs.len() > 1 {
            " "@
        } else {
            Seq::empty()
        }) + ("("@ + pairs.last().key + " "@ + template_text(pairs.last().value) + ")"@)
    }
}

/// What stands before the body of an arm.
pub open spec fn pattern_text(p: ArmPatternView) -> Seq<char> {
    match p {
        ArmPatternView::Lit(s) => " (case "@ + quoted(s) + " "@,
        ArmPatternView::Default => " (case _ "@,
    }
}

/// An instruction on a line that it shares.
pub open spec fn inline_text(inst: InstructionView) -> Seq<char>
    decreases inst,
{
    match inst {
        InstructionView::Bind { value } => "(bind "@ + template_text(value) + ")"@,
        InstructionView::Log(value) => "(log "@ + template_text(value) + ")"@,
        InstructionView::Cd(value) => "(cd "@ + template_text(value) + ")"@,
        InstructionView::Env { pairs, body } => "(env ("@ + pairs_text(pairs) + ") ("@
            + inline_body(body) + "))"@,
        InstructionView::Switch { subject, arms } => "(switch "@ + template_text(subject)
            + arms_text(arms) + ")"@,
    }
}

/// Instructions on one line, a space between them.
pub open spec fn inline_body(body: Seq<InstructionView>) -> Seq<char>
    decreases body,
{
    if body.len() == 0 {
        Seq::empty()
    } else {
        inline_body(body.drop_last()) + (if body.len() > 1 {
            " "@
        } else {
            Seq::empty()
        }) + inline_text(body.last())
    }
}

/// The arms of a `switch` block.
pub open spec fn arms_text(arms: Seq<ArmView>) -> Seq<char>
    decreases arms,
{
    if arms.len() == 0 {
        Seq::empty()
    } else {
        arms_text(arms.drop_last()) + (pattern_text(arms.last().pattern) + inline_body(
            arms.last().body,
        ) + ")"@)
    }
}

/// The blanks that open a line.
pub open spec fn pad(indent: nat) -> Seq<char>
    decreases indent,
{
    if indent == 0 {
        Seq::empty()
    } else {
        pad((indent - 1) as nat) + "  "@
    }
}

/// An instruction on a line of its own.
pub open spec fn line_text(inst: InstructionView, indent: nat) -> Seq<char> {
    pad(indent) + inline_text(inst) + "\n"@
}

/// Instructions, each on a line of its own.
pub open spec fn lines_text(body: Seq<InstructionView>, indent: nat) -> Seq<char>
    decreases body.len(),
{
    if body.len() == 0 {
        Seq::empty()
    } else {
        lines_text(body.drop_last(), indent) + line_text(body.last(), indent)
    }
}

fn write_pairs(pairs: &Vec<EnvPair>) -> (r: String)
    ensures
        r@ == pairs_text(pair_views(pairs@)),
{
    let mut s = String::new();
    let mut i: usize = 0;
    let ghost views = pair_views(pairs@);
    assert(views.take(0) =~= Seq::<EnvPairView>::empty());
    while i < pairs.len()
        invariant
            i <= pairs@.len(),
            views == pair_views(pairs@),
            s@ == pairs_text(views.take(i as int)),
        decreases pairs@.len() - i,
    {
        let ghost done = s@;
        proof {
            let next = views.take(i + 1);
            assert(next.drop_last() =~= views.take(i as int));
            assert(next.last() == pairs@[i as int]@);
        }
        if i > 0 {
            s.push_str(" ");
        }
        let ghost sep = if i > 0 {
            " "@
        } else {
            Seq::<char>::empty()
        };
        assert(s@ =~= done + sep);
        s.push_str("(");
        s.push_str(pairs[i].key.as_str());
        s.push_str(" ");
        s.push_str(write_template(&pairs[i].value).as_str());
        s.push_str(")");
        assert(s@ =~= done + sep + ("("@ + pairs@[i as int].key@ + " "@ + template_text(
            pairs@[i as int].value@,
        ) + ")"@));
        i += 1;
    }
    assert(views.take(i as int) =~= views);
    s
}

pub(crate) fn write_pattern(p: &ArmPattern) -> (r: String)
    ensures
        r@ == pattern_text(p@),
{
    match p {
        ArmPattern::Lit(s) => {
            let mut r = " (case ".to_owned();
            r.push_str(quote_string(s.as_str()).as_str());
            r.push_str(" ");
            r
        },
        ArmPattern::Default => " (case _ ".to_owned(),
    }
}

fn write_body_inline(body: &Vec<Instruction>) -> (r: String)
    ensures
        r@ == inline_body(instruction_views(body@)),
    decreases body,
{
    let mut s = String::new();
    let mut i: usize = 0;
    let ghost views = instruction_views(body@);
    assert(views.take(0) =~= Seq::<InstructionView>::empty());
    while i < body.len()
        invariant
            i <= body@.len(),
            views == instruction_views(body@),
            s@ == inline_body(views.take(i as int)),
        decreases body@.len() - i,
    {
        let ghost done = s@;
        proof {
            let next = views.take(i + 1);
            assert(next.drop_last() =~= views.take(i as int));
            assert(next.last() == body@[i as int]@);
            assert(decreases_to!(body@ => body@[i as int]));
        }
        if i > 0 {
            s.push_str(" ");
        }
        let ghost sep = if i > 0 {
            " "@
        } else {
            Seq::<char>::empty()
        };
        assert(s@ =~= done + sep);
        s.push_str(write_instruction_inline(&body[i]).as_str());
        i += 1;
    }
    assert(views.take(i as int) =~= views);
    s
}

fn write_arms(arms: &Vec<Arm>) -> (r: String)
    ensures
        r@ == arms_text(arm_views(arms@)),
    decreases arms,
{
    let mut s = String::new();
    let mut i: usize = 0;
    let ghost views = arm_views(arms@);
    assert(views.take(0) =~= Seq::<ArmView>::empty());
    while i < arms.len()
        invariant
            i <= arms@.len(),
            views == arm_views(arms@),
            s@ == arms_text(views.take(i as int)),
        decreases arms@.len() - i,
    {
        let ghost done = s@;
        let ghost arm = arms@[i as int];
        proof {
            let next = views.take(i + 1);
            assert(next.drop_last() =~= views.take(i as int));
            assert(next.last() == arm@);
            assert(arm@.body =~= instruction_views(arm.body@));
            assert(decreases_to!(arms@ => arms@[i as int]));
            assert(decreases_to!(arms@[i as int] => arms@[i as int].body));
        }
        s.push_str(write_pattern(&arms[i].pattern).as_str());
        s.push_str(write_body_inline(&arms[i].body).as_str());
        s.push_str(")");
        assert(s@ =~= done + (pattern_text(arm.pattern@) + inline_body(arm@.body) + ")"@));
        i += 1;
    }
    assert(views.take(i as int) =~= views);
    s
}

/// Write an instruction on a line that it shares.
pub fn write_instruction_inline(inst: &Instruction) -> (r: String)
    ensures
        r@ == inline_text(inst@),
    decreases inst,
{
    match inst {
        Instruction::Bind { value } => {
            let mut s = "(bind ".to_owned();
            s.push_str(write_template(value).as_str());
            s.push_str(")");
            s
        },
        Instruction::Log(value) => {
            let mut s = "(log ".to_owned();
            s.push_str(write_template(value).as_str());
            s.push_str(")");
            s
        },
        Instruction::Cd(value) => {
            let mut s = "(cd ".to_owned();
            s.push_str(write_template(value).as_str());
            s.push_str(")");
            s
        },
        Instruction::Env { pairs, body } => {
            assert(inst@->Env_body =~= instruction_views(body@));
            let mut s = "(env (".to_owned();
            s.push_str(write_pairs(pairs).as_str());
            s.push_str(") (");
            s.push_str(write_body_inline(body).as_str());
            s.push_str("))");
            s
        },
        Instruction::Switch { subject, arms } => {
            assert(inst@->Switch_arms =~= arm_views(arms@));
            let mut s = "(switch ".to_owned();
            s.push_str(write_template(subject).as_str());
            s.push_str(write_arms(arms).as_str());
            s.push_str(")");
            s
        },
    }
}

pub(crate) fn write_pad(indent: usize) -> (r: String)
    ensures
        r@ == pad(indent as nat),
{
    let mut s = String::new();
    let mut i: usize = 0;
    while i < indent
        invariant
            i <= indent,
            s@ == pad(i as nat),
        decreases indent - i,
    {
        s.push_str("  ");
        i += 1;
    }
    s
}

/// Write instructions, each on a line of its own.
pub fn write_instructions(insts: &Vec<Instruction>, indent: usize) -> (r: String)
    ensures
        r@ == lines_text(instruction_views(insts@), indent as nat),
{
    let lead = write_pad(indent);
    let mut out = String::new();
    let mut i: usize = 0;
    let ghost views = instruction_views(insts@);
    assert(views.take(0) =~= Seq::<InstructionView>::empty());
    while i < insts.len()
        invariant
            i <= insts@.len(),
            lead@ == pad(indent as nat),
            views == instruction_views(insts@),
            out@ == lines_text(views.take(i as int), indent as nat),
        decreases insts@.len() - i,
    {
        let ghost done = out@;
        let ghost inst = insts@[i as int];
        proof {
            let next = views.take(i + 1);
            assert(next.drop_last() =~= views.take(i as int));
            assert(next.last() == inst@);
        }
        out.push_str(lead.as_str());
        out.push_str(write_instruction_inline(&insts[i]).as_str());
        out.push_str("\n");
        assert(out@ =~= done + line_text(inst@, indent as nat));
        i += 1;
    }
    assert(views.take(i as int) =~= views);
    out
}

// ── Entries ──────────────────────────────────────────────────────────────────

/// The entry of a repository.
pub open spec fn sync_text(id: Seq<char>, sync: SyncView) -> Seq<char> {
    "  (sync "@ + id + " (url "@ + compact_text(sync.url) + ") (dir "@ + compact_text(sync.dir)
        + ") (branch "@ + compact_text(sync.branch) + ") (strategy "@ + compact_text(sync.strategy)
        + "))\n"@
}

/// The entries of functions.
pub open spec fn functions_text(functions: Entries<Seq<InstructionView>>) -> Seq<char>
    decreases functions.len(),
{
    if functions.len() == 0 {
        Seq::empty()
    } else {
        functions_text(functions.drop_last()) + ("    (fn "@ + functions.last().0 + "\n"@
            + lines_text(functions.last().1, 3) + "    )\n"@)
    }
}

/// The entry of a project.
pub open spec fn project_text(id: Seq<char>, project: ProjectView) -> Seq<char> {
    "  (project "@ + id + "\n"@ + functions_text(project.functions) + "  )\n"@
}

/// The calls of a chain.
pub open spec fn calls_text(calls: Seq<CallView>) -> Seq<char>
    decreases calls.len(),
{
    if calls.len() == 0 {
        Seq::empty()
    } else {
        calls_text(calls.drop_last()) + (" (call "@ + calls.last().project + " "@
            + calls.last().function + ")"@)
    }
}

/// The chains of a run.
pub open spec fn stages_text(stages: Seq<Seq<CallView>>) -> Seq<char>
    decreases stages.len(),
{
    if stages.len() == 0 {
        Seq::empty()
    } else {
        stages_text(stages.drop_last()) + (" (stage"@ + calls_text(stages.last()) + ")"@)
    }
}

/// The entry of a run.
pub open spec fn run_text(id: Seq<char>, stages: Seq<Seq<CallView>>) -> Seq<char> {
    "  (run "@ + id + stages_text(stages) + ")\n"@
}

pub open spec fn syncs_text(s: Entries<SyncView>) -> Seq<char>
    decreases s.len(),
{
    if s.len() == 0 {
        Seq::empty()
    } else {
        syncs_text(s.drop_last()) + sync_text(s.last().0, s.last().1)
    }
}

pub open spec fn projects_text(s: Entries<ProjectView>) -> Seq<char>
    decreases s.len(),
{
    if s.len() == 0 {
        Seq::empty()
    } else {
        projects_text(s.drop_last()) + project_text(s.last().0, s.last().1)
    }
}

pub open spec fn runs_text(s: Entries<Seq<Seq<CallView>>>) -> Seq<char>
    decreases s.len(),
{
    if s.len() == 0 {
        Seq::empty()
    } else {
        runs_text(s.drop_last()) + run_text(s.last().0, s.last().1)
    }
}

/// A plan as a kirufile.
pub open spec fn plan_text(p: PlanView) -> Seq<char> {
    "(kirufile\n"@ + "  (version 1)\n"@ + ("  (shell "@ + quoted(p.shell) + ")\n"@) + syncs_text(
        p.syncs,
    ) + projects_text(p.projects) + runs_text(p.run_blocks) + ")\n"@
}

fn write_sync(id: &str, sync: &Sync) -> (r: String)
    ensures
        r@ == sync_text(id@, sync@),
{
    let mut out = "  (sync ".to_owned();
    out.push_str(id);
    out.push_str(" (url ");
    append_template(&mut out, &sync.url);
    out.push_str(") (dir ");
    append_template(&mut out, &sync.dir);
    out.push_str(") (branch ");
    append_template(&mut out, &sync.branch);
    out.push_str(") (strategy ");
    append_template(&mut out, &sync.strategy);
    out.push_str("))\n");
    out
}

fn write_project(id: &str, project: &Project) -> (r: String)
    ensures
        r@ == project_text(id@, project@),
        ascending(project@.functions),
{
    let mut out = "  (project ".to_owned();
    out.push_str(id);
    out.push_str("\n");
    let ghost head = out@;
    let ghost views = project@.functions;
    let mut i: usize = 0;
    let n: usize = project.functions.len();
    proof {
        lemma_map_ascending(project.functions@, body_viewer());
        assert(views.take(0) =~= Seq::<(Seq<char>, Seq<InstructionView>)>::empty());
        assert(head + functions_text(views.take(0)) =~= head);
    }
    while i < n
        invariant
            i <= n == project.functions@.len(),
            views == project@.functions,
            out@ == head + functions_text(views.take(i as int)),
        decreases n - i,
    {
        let ghost done = functions_text(views.take(i as int));
        proof {
            let next = views.take(i + 1);
            assert(next.drop_last() =~= views.take(i as int));
            assert(next.last() == views[i as int]);
        }
        out.push_str("    (fn ");
        out.push_str(project.functions.name_at(i));
        out.push_str("\n");
        out.push_str(write_instructions(project.functions.value_at(i), 3).as_str());
        out.push_str("    )\n");
        assert(out@ =~= head + (done + ("    (fn "@ + views[i as int].0 + "\n"@ + lines_text(
            views[i as int].1,
            3,
        ) + "    )\n"@)));
        i += 1;
    }
    assert(views.take(i as int) =~= views);
    out.push_str("  )\n");
    out
}

fn write_calls(calls: &Vec<Call>) -> (r: String)
    ensures
        r@ == calls_text(call_views(calls@)),
{
    let mut out = String::new();
    let ghost views = call_views(calls@);
    let mut i: usize = 0;
    assert(views.take(0) =~= Seq::<CallView>::empty());
    while i < calls.len()
        invariant
            i <= calls@.len(),
            views == call_views(calls@),
            out@ == calls_text(views.take(i as int)),
        decreases calls@.len() - i,
    {
        let ghost done = out@;
        proof {
            let next = views.take(i + 1);
            assert(next.drop_last() =~= views.take(i as int));
            assert(next.last() == views[i as int]);
        }
        out.push_str(" (call ");
        out.push_str(calls[i].project.as_str());
        out.push_str(" ");
        out.push_str(calls[i].function.as_str());
        out.push_str(")");
        assert(out@ =~= done + (" (call "@ + views[i as int].project + " "@
            + views[i as int].function + ")"@));
        i += 1;
    }
    assert(views.take(i as int) =~= views);
    out
}

pub(crate) fn write_run(id: &str, stages: &Vec<Vec<Call>>) -> (r: String)
    ensures
        r@ == run_text(id@, stage_views(stages@)),
{
    let mut out = "  (run ".to_owned();
    out.push_str(id);
    let ghost head = out@;
    let ghost views = stage_views(stages@);
    let mut i: usize = 0;
    proof {
        assert(views.take(0) =~= Seq::<Seq<CallView>>::empty());
        assert(head + stages_text(views.take(0)) =~= head);
    }
    while i < stages.len()
        invariant
            i <= stages@.len(),
            views == stage_views(stages@),
            out@ == head + stages_text(views.take(i as int)),
        decreases stages@.len() - i,
    {
        let ghost done = stages_text(views.take(i as int));
        proof {
            let next = views.take(i + 1);
            assert(next.drop_last() =~= views.take(i as int));
            assert(next.last() == views[i as int]);
        }
        out.push_str(" (stage");
        out.push_str(write_calls(&stages[i]).as_str());
        out.push_str(")");
        assert(out@ =~= head + (done + (" (stage"@ + calls_text(views[i as int]) + ")"@)));
        i += 1;
    }
    assert(views.take(i as int) =~= views);
    out.push_str(")\n");
    out
}

impl Plan {
    /// Write this plan as a kirufile, from which it can be read back where its
    /// names and keys are symbols.
    pub fn to_kirufile(&self) -> (r: String)
        ensures
            r@ == plan_text(self@),
            plan_ordered(self@),
            plan_named(self@) ==> plan_of(r@) == Ok::<PlanView, Reason>(self@),
    {
        let mut out = "(kirufile\n".to_owned();
        out.push_str("  (version 1)\n");
        out.push_str("  (shell ");
        out.push_str(quote_string(self.shell.as_str()).as_str());
        out.push_str(")\n");
        let ghost head = "(kirufile\n"@ + "  (version 1)\n"@ + ("  (shell "@ + quoted(self.shell@)
            + ")\n"@);
        assert(out@ =~= head);
        let ghost syncs = self@.syncs;
        let mut i: usize = 0;
        let n: usize = self.syncs.len();
        proof {
            assert(syncs.take(0) =~= Seq::<(Seq<char>, SyncView)>::empty());
            assert(head + syncs_text(syncs.take(0)) =~= head);
        }
        while i < n
            invariant
                i <= n == self.syncs@.len(),
                syncs == self@.syncs,
                out@ == head + syncs_text(syncs.take(i as int)),
            decreases n - i,
        {
            let ghost done = syncs_text(syncs.take(i as int));
            proof {
                let next = syncs.take(i + 1);
                assert(next.drop_last() =~= syncs.take(i as int));
                assert(next.last() == syncs[i as int]);
            }
            out.push_str(write_sync(self.syncs.name_at(i), self.syncs.value_at(i)).as_str());
            assert(out@ =~= head + (done + sync_text(syncs[i as int].0, syncs[i as int].1)));
            i += 1;
        }
        assert(syncs.take(i as int) =~= syncs);
        let ghost head = out@;
        let ghost projects = self@.projects;
        let mut i: usize = 0;
        let n: usize = self.projects.len();
        proof {
            assert(projects.take(0) =~= Seq::<(Seq<char>, ProjectView)>::empty());
            assert(head + projects_text(projects.take(0)) =~= head);
        }
        while i < n
            invariant
                i <= n == self.projects@.len(),
                projects == self@.projects,
                out@ == head + projects_text(projects.take(i as int)),
                forall|j: int| 0 <= j < i ==> ascending((#[trigger] projects[j]).1.functions),
            decreases n - i,
        {
            let ghost done = projects_text(projects.take(i as int));
            proof {
                let next = projects.take(i + 1);
                assert(next.drop_last() =~= projects.take(i as int));
                assert(next.last() == projects[i as int]);
            }
            out.push_str(
                write_project(self.projects.name_at(i), self.projects.value_at(i)).as_str(),
            );
            assert(out@ =~= head + (done + project_text(
                projects[i as int].0,
                projects[i as int].1,
            )));
            i += 1;
        }
        assert(projects.take(i as int) =~= projects);
        let ghost head = out@;
        let ghost runs = self@.run_blocks;
        let mut i: usize = 0;
        let n: usize = self.run_blocks.len();
        proof {
            assert(runs.take(0) =~= Seq::<(Seq<char>, Seq<Seq<CallView>>)>::empty());
            assert(head + runs_text(runs.take(0)) =~= head);
        }
        while i < n
            invariant
                i <= n == self.run_blocks@.len(),
                runs == self@.run_blocks,
                out@ == head + runs_text(runs.take(i as int)),
            decreases n - i,
        {
            let ghost done = runs_text(runs.take(i as int));
            proof {
                let next = runs.take(i + 1);
                assert(next.drop_last() =~= runs.take(i as int));
                assert(next.last() == runs[i as int]);
            }
            out.push_str(write_run(self.run_blocks.name_at(i), self.run_blocks.value_at(i)).as_str());
            assert(out@ =~= head + (done + run_text(runs[i as int].0, runs[i as int].1)));
            i += 1;
        }
        assert(runs.take(i as int) =~= runs);
        out.push_str(")\n");
        proof {
            lemma_map_ascending(self.syncs@, sync_viewer());
            lemma_map_ascending(self.projects@, project_viewer());
            lemma_map_ascending(self.run_blocks@, run_viewer());
            if plan_named(self@) {
                law_kirufile_read_back(self@);
            }
        }
        out
    }
}

} // verus!
