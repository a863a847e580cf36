//! Writing the execution form as a textual kirufile.
use vstd::prelude::*;
use crate::ir::{
    arm_views, body_viewer, chain_viewer, instruction_views, pair_views, project_viewer,
    sync_viewer, text_viewer, Arm, ArmView, EnvPair, EnvPairView, Instruction, InstructionView, Ir,
    IrView, Project, ProjectView, Segment, SegmentView, Sync, SyncView, Template, TemplateView,
};
use crate::ir::deserialize::ir_of;
use crate::ir::named::{ir_named, ir_ordered, lemma_ir_fits};
use crate::ir::round_trip::{ir_fits, law_kirufile_read_back};
use crate::names::{ascending, lemma_map_ascending, Entries};
use crate::plan::lines::lemma_pad;
use crate::plan::write::{pad, pattern_text, run_text, write_pad, write_pattern, write_run};
use crate::plan::CallView;
use crate::sexp::{quote_string, quoted, Reason};
use crate::text::{decimal, decimal_text};

verus! {

broadcast use vstd::string::group_string_axioms;

/// A piece of a template as an s-expression.
pub open spec fn segment_text(p: SegmentView) -> Seq<char>
    decreases p,
{
    match p {
        SegmentView::Lit(s) => " (lit "@ + quoted(s) + ")"@,
        SegmentView::Cmd(inner) => " (cmd "@ + template_text(inner) + ")"@,
        SegmentView::CmdAt { template, start, len, file } => " (cmd "@ + decimal(start) + " "@
            + decimal(len) + " "@ + quoted(file) + " "@ + template_text(template) + ")"@,
        SegmentView::Ref { id, template } => " (ref "@ + decimal(id) + " "@ + template_text(
            template,
        ) + ")"@,
    }
}

/// A template as an s-expression.
pub open spec fn template_text(t: TemplateView) -> Seq<char>
    decreases t,
{
    "(t"@ + segments_text(t.parts) + ")"@
}

pub open spec fn segments_text(parts: Seq<SegmentView>) -> Seq<char>
    decreases parts,
{
    if parts.len() == 0 {
        Seq::empty()
    } else {
        segments_text(parts.drop_last()) + segment_text(parts.last())
    }
}

/// Append a piece of a template.
fn fmt_segment(buf: &mut String, segment: &Segment)
    ensures
        final(buf)@ == old(buf)@ + segment_text(segment@),
    decreases segment,
{
    let ghost start_text = buf@;
    match segment {
        Segment::Lit(s) => {
            buf.push_str(" (lit ");
            buf.push_str(quote_string(s.as_str()).as_str());
            buf.push_str(")");
        },
        Segment::Cmd(inner) => {
            buf.push_str(" (cmd ");
            fmt_template(buf, inner);
            buf.push_str(")");
        },
        Segment::CmdAt { template, start, len, file } => {
            buf.push_str(" (cmd ");
            buf.push_str(decimal_text(*start as u64).as_str());
            buf.push_str(" ");
            buf.push_str(decimal_text(*len as u64).as_str());
            buf.push_str(" ");
            buf.push_str(quote_string(file.as_str()).as_str());
            buf.push_str(" ");
            fmt_template(buf, template);
            buf.push_str(")");
        },
        Segment::Ref { id, template } => {
            buf.push_str(" (ref ");
            buf.push_str(decimal_text(*id as u64).as_str());
            buf.push_str(" ");
            fmt_template(buf, template);
            buf.push_str(")");
        },
    }
    assert(buf@ =~= start_text + segment_text(segment@));
}

/// Append a template as an s-expression.
fn fmt_template(buf: &mut String, tmpl: &Template)
    ensures
        final(buf)@ == old(buf)@ + template_text(tmpl@),
    decreases tmpl,
{
    let ghost start = buf@;
    buf.push_str("(t");
    let mut i: usize = 0;
    proof {
        assert(tmpl@.parts.take(0) =~= Seq::<SegmentView>::empty());
        assert(start + "(t"@ + segments_text(tmpl@.parts.take(0)) =~= start + "(t"@);
    }
    while i < tmpl.parts.len()
        invariant
            i <= tmpl.parts@.len(),
            buf@ == start + "(t"@ + segments_text(tmpl@.parts.take(i as int)),
        decreases tmpl.parts@.len() - i,
    {
        let ghost done = segments_text(tmpl@.parts.take(i as int));
        proof {
            let next = tmpl@.parts.take(i + 1);
            assert(next.drop_last() =~= tmpl@.parts.take(i as int));
            assert(next.last() == tmpl.parts@[i as int]@);
            assert(decreases_to!(tmpl.parts@ => tmpl.parts@[i as int]));
        }
        fmt_segment(buf, &tmpl.parts[i]);
        assert(buf@ =~= start + "(t"@ + (done + segment_text(tmpl.parts@[i as int]@)));
        i += 1;
    }
    assert(tmpl@.parts.take(i as int) =~= tmpl@.parts);
    buf.push_str(")");
    assert(buf@ =~= start + template_text(tmpl@));
}

/// Write a template as an s-expression.
pub fn write_template(tmpl: &Template) -> (r: String)
    ensures
        r@ == template_text(tmpl@),
{
    let mut out = String::new();
    fmt_template(&mut out, tmpl);
    assert(out@ =~= template_text(tmpl@));
    out
}

/// A template as text: its literals as they are, its commands by their inner text.
pub open spec fn rendered(t: TemplateView) -> Seq<char>
    decreases t,
{
    rendered_parts(t.parts)
}

pub open spec fn rendered_parts(parts: Seq<SegmentView>) -> Seq<char>
    decreases parts,
{
    if parts.len() == 0 {
        Seq::empty()
    } else {
        rendered_parts(parts.drop_last()) + match parts.last() {
            SegmentView::Lit(s) => s,
            SegmentView::Cmd(inner) => rendered(inner),
            SegmentView::CmdAt { template, .. } => rendered(template),
            SegmentView::Ref { template, .. } => rendered(template),
        }
    }
}

/// Show a template to a reader. No command is run.
pub fn render_ir_literal(tmpl: &Template) -> (r: String)
    ensures
        r@ == rendered(tmpl@),
    decreases tmpl,
{
    let mut out = String::new();
    let mut i: usize = 0;
    assert(tmpl@.parts.take(0) =~= Seq::<SegmentView>::empty());
    while i < tmpl.parts.len()
        invariant
            i <= tmpl.parts@.len(),
            out@ == rendered_parts(tmpl@.parts.take(i as int)),
        decreases tmpl.parts@.len() - i,
    {
        let ghost part = tmpl.parts@[i as int];
        proof {
            let next = tmpl@.parts.take(i + 1);
            assert(next.drop_last() =~= tmpl@.parts.take(i as int));
            assert(next.last() == part@);
            assert(decreases_to!(tmpl.parts@ => tmpl.parts@[i as int]));
        }
        match &tmpl.parts[i] {
            Segment::Lit(s) => {
                out.push_str(s.as_str());
            },
            Segment::Cmd(inner) => {
                assert(decreases_to!(part => part->Cmd_0));
                out.push_str(render_ir_literal(inner).as_str());
            },
            Segment::CmdAt { template, .. } => {
                assert(decreases_to!(part => part->CmdAt_template));
                out.push_str(render_ir_literal(template).as_str());
            },
            Segment::Ref { template, .. } => {
                assert(decreases_to!(part => part->Ref_template));
                out.push_str(render_ir_literal(template).as_str());
            },
        }
        i += 1;
    }
    assert(tmpl@.parts.take(i as int) =~= tmpl@.parts);
    out
}

// ── Instructions ─────────────────────────────────────────────────────────────

/// The variables of an `env` block.
pub open spec fn pairs_text(pairs: Seq<EnvPairView>) -> Seq<char>
    decreases pairs.len(),
{
    if pairs.len() == 0 {
        Seq::empty()
    } else {
        pairs_text(pairs.drop_last()) + (if pairs.len() > 1 {
            " "@
        } else {
            Seq::empty()
        }) + ("("@ + pairs.last().key + " "@ + template_text(pairs.last().value) + ")"@)
    }
}

/// The row of an arm, where it is not the first row.
pub open spec fn row_text(row: nat) -> Seq<char> {
    if row == 0 {
        Seq::empty()
    } else {
        "(row "@ + decimal(row) + ") "@
    }
}

/// An instruction as an s-expression.
pub open spec fn instruction_text(inst: InstructionView) -> Seq<char>
    decreases inst,
{
    match inst {
        InstructionView::Exec { command } => "(exec "@ + template_text(command) + ")"@,
        InstructionView::Log(value) => "(log "@ + template_text(value) + ")"@,
        InstructionView::Cd(value) => "(cd "@ + template_text(value) + ")"@,
        InstructionView::Env { pairs, body } => "(env ("@ + pairs_text(pairs) + ") ("@ + body_text(
            body,
        ) + "))"@,
        InstructionView::Switch { subject, arms } => "(switch "@ + template_text(subject)
            + arms_text(arms) + ")"@,
        InstructionView::Step { row, label, body } => "(step "@ + decimal(row) + " "@ + quoted(
            label,
        ) + " "@ + body_text(body) + ")"@,
        InstructionView::Async { body } => "(async "@ + body_text(body) + ")"@,
        InstructionView::Context { project, body } => "(context "@ + template_text(project) + " "@
            + body_text(body) + ")"@,
    }
}

/// Instructions on one line, a space between them.
pub open spec fn body_text(body: Seq<InstructionView>) -> Seq<char>
    decreases body,
{
    if body.len() == 0 {
        Seq::empty()
    } else {
        body_text(body.drop_last()) + (if body.len() > 1 {
            " "@
        } else {
            Seq::empty()
        }) + instruction_text(body.last())
    }
}

/// The arms of a `switch` block.
pub open spec fn arms_text(arms: Seq<ArmView>) -> Seq<char>
    decreases arms,
{
    if arms.len() == 0 {
        Seq::empty()
    } else {
        arms_text(arms.drop_last()) + (pattern_text(arms.last().pattern) + row_text(arms.last().row)
            + body_text(arms.last().body) + ")"@)
    }
}

/// An instruction at a level, as a line of its own, or on a line that it shares.
pub open spec fn instruction_form(inst: InstructionView, indent: Option<nat>) -> Seq<char> {
    match indent {
        Some(level) => pad(level) + instruction_text(inst) + "\n"@,
        None => instruction_text(inst),
    }
}

/// The indented form of an instruction is its inline form between two spaces for
/// each level and a line break. The inline form itself starts and ends with a
/// parenthesis: it has no indent and no line break at its end.
pub proof fn law_the_indented_form(inst: InstructionView, level: nat)
    ensures
        ({
            let text = instruction_form(inst, None);
            &&& instruction_form(inst, Some(level)) == pad(level) + text + "\n"@
            &&& pad(level).len() == 2 * level
            &&& forall|i: int| 0 <= i < pad(level).len() ==> #[trigger] pad(level)[i] == ' '
            &&& text.len() > 0
            &&& text[0] == '('
            &&& text.last() == ')'
        }),
{
    lemma_pad(level);
    reveal_strlit(")");
    reveal_strlit("))");
    reveal_strlit("(exec ");
    reveal_strlit("(log ");
    reveal_strlit("(cd ");
    reveal_strlit("(env (");
    reveal_strlit("(switch ");
    reveal_strlit("(step ");
    reveal_strlit("(async ");
    reveal_strlit("(context ");
}

/// Instructions, each on a line of its own.
pub open spec fn lines_text(body: Seq<InstructionView>, indent: nat) -> Seq<char>
    decreases body.len(),
{
    if body.len() == 0 {
        Seq::empty()
    } else {
        lines_text(body.drop_last(), indent) + (pad(indent) + instruction_text(body.last())
            + "\n"@)
    }
}

fn fmt_pairs(buf: &mut String, pairs: &Vec<EnvPair>)
    ensures
        final(buf)@ == old(buf)@ + pairs_text(pair_views(pairs@)),
{
    let ghost start = buf@;
    let mut i: usize = 0;
    let ghost views = pair_views(pairs@);
    proof {
        assert(views.take(0) =~= Seq::<EnvPairView>::empty());
        assert(start + pairs_text(views.take(0)) =~= start);
    }
    while i < pairs.len()
        invariant
            i <= pairs@.len(),
            views == pair_views(pairs@),
            buf@ == start + pairs_text(views.take(i as int)),
        decreases pairs@.len() - i,
    {
        let ghost done = pairs_text(views.take(i as int));
        proof {
            let next = views.take(i + 1);
            assert(next.drop_last() =~= views.take(i as int));
            assert(next.last() == pairs@[i as int]@);
        }
        if i > 0 {
            buf.push_str(" ");
        }
        let ghost sep = if i > 0 {
            " "@
        } else {
            Seq::<char>::empty()
        };
        assert(buf@ =~= start + done + sep);
        buf.push_str("(");
        buf.push_str(pairs[i].key.as_str());
        buf.push_str(" ");
        fmt_template(buf, &pairs[i].value);
        buf.push_str(")");
        assert(buf@ =~= start + (done + sep + ("("@ + pairs@[i as int].key@ + " "@ + template_text(
            pairs@[i as int].value@,
        ) + ")"@)));
        i += 1;
    }
    assert(views.take(i as int) =~= views);
}

fn fmt_row(buf: &mut String, row: usize)
    ensures
        final(buf)@ == old(buf)@ + row_text(row as nat),
{
    let ghost start = buf@;
    if row != 0 {
        buf.push_str("(row ");
        buf.push_str(decimal_text(row as u64).as_str());
        buf.push_str(") ");
    }
    assert(buf@ =~= start + row_text(row as nat));
}

fn fmt_body(buf: &mut String, body: &Vec<Instruction>)
    ensures
        final(buf)@ == old(buf)@ + body_text(instruction_views(body@)),
    decreases body,
{
    let ghost start = buf@;
    let mut i: usize = 0;
    let ghost views = instruction_views(body@);
    proof {
        assert(views.take(0) =~= Seq::<InstructionView>::empty());
        assert(start + body_text(views.take(0)) =~= start);
    }
    while i < body.len()
        invariant
            i <= body@.len(),
            views == instruction_views(body@),
            buf@ == start + body_text(views.take(i as int)),
        decreases body@.len() - i,
    {
        let ghost done = body_text(views.take(i as int));
        proof {
            let next = views.take(i + 1);
            assert(next.drop_last() =~= views.take(i as int));
            assert(next.last() == body@[i as int]@);
            assert(decreases_to!(body@ => body@[i as int]));
        }
        if i > 0 {
            buf.push_str(" ");
        }
        let ghost sep = if i > 0 {
            " "@
        } else {
            Seq::<char>::empty()
        };
        assert(buf@ =~= start + done + sep);
        fmt_inline(buf, &body[i]);
        assert(buf@ =~= start + (done + sep + instruction_text(body@[i as int]@)));
        i += 1;
    }
    assert(views.take(i as int) =~= views);
}

fn fmt_arms(buf: &mut String, arms: &Vec<Arm>)
    ensures
        final(buf)@ == old(buf)@ + arms_text(arm_views(arms@)),
    decreases arms,
{
    let ghost start = buf@;
    let mut i: usize = 0;
    let ghost views = arm_views(arms@);
    proof {
        assert(views.take(0) =~= Seq::<ArmView>::empty());
        assert(start + arms_text(views.take(0)) =~= start);
    }
    while i < arms.len()
        invariant
            i <= arms@.len(),
            views == arm_views(arms@),
            buf@ == start + arms_text(views.take(i as int)),
        decreases arms@.len() - i,
    {
        let ghost done = arms_text(views.take(i as int));
        let ghost arm = arms@[i as int];
        proof {
            let next = views.take(i + 1);
            assert(next.drop_last() =~= views.take(i as int));
            assert(next.last() == arm@);
            assert(arm@.body =~= instruction_views(arm.body@));
            assert(decreases_to!(arms@ => arms@[i as int]));
            assert(decreases_to!(arms@[i as int] => arms@[i as int].body));
        }
        buf.push_str(write_pattern(&arms[i].pattern).as_str());
        fmt_row(buf, arms[i].row);
        fmt_body(buf, &arms[i].body);
        buf.push_str(")");
        assert(buf@ =~= start + (done + (pattern_text(arm.pattern@) + row_text(arm.row as nat)
            + body_text(arm@.body) + ")"@)));
        i += 1;
    }
    assert(views.take(i as int) =~= views);
}

/// Append an instruction to a line that it shares.
fn fmt_inline(buf: &mut String, inst: &Instruction)
    ensures
        final(buf)@ == old(buf)@ + instruction_text(inst@),
    decreases inst,
{
    let ghost start = buf@;
    match inst {
        Instruction::Exec { command } => {
            buf.push_str("(exec ");
            fmt_template(buf, command);
            buf.push_str(")");
            assert(buf@ =~= start + instruction_text(inst@));
        },
        Instruction::Log(value) => {
            buf.push_str("(log ");
            fmt_template(buf, value);
            buf.push_str(")");
            assert(buf@ =~= start + instruction_text(inst@));
        },
        Instruction::Cd(value) => {
            buf.push_str("(cd ");
            fmt_template(buf, value);
            buf.push_str(")");
            assert(buf@ =~= start + instruction_text(inst@));
        },
        Instruction::Env { pairs, body } => {
            assert(inst@->Env_body =~= instruction_views(body@));
            buf.push_str("(env (");
            fmt_pairs(buf, pairs);
            buf.push_str(") (");
            fmt_body(buf, body);
            buf.push_str("))");
            assert(buf@ =~= start + instruction_text(inst@));
        },
        Instruction::Switch { subject, arms } => {
            assert(inst@->Switch_arms =~= arm_views(arms@));
            buf.push_str("(switch ");
            fmt_template(buf, subject);
            fmt_arms(buf, arms);
            buf.push_str(")");
            assert(buf@ =~= start + instruction_text(inst@));
        },
        Instruction::Step { row, label, body } => {
            assert(inst@->Step_body =~= instruction_views(body@));
            buf.push_str("(step ");
            buf.push_str(decimal_text(*row as u64).as_str());
            buf.push_str(" ");
            buf.push_str(quote_string(label.as_str()).as_str());
            buf.push_str(" ");
            fmt_body(buf, body);
            buf.push_str(")");
            assert(buf@ =~= start + instruction_text(inst@));
        },
        Instruction::Async { body } => {
            assert(inst@->Async_body =~= instruction_views(body@));
            buf.push_str("(async ");
            fmt_body(buf, body);
            buf.push_str(")");
            assert(buf@ =~= start + instruction_text(inst@));
        },
        Instruction::Context { project, body } => {
            assert(inst@->Context_body =~= instruction_views(body@));
            buf.push_str("(context ");
            fmt_template(buf, project);
            buf.push_str(" ");
            fmt_body(buf, body);
            buf.push_str(")");
            assert(buf@ =~= start + instruction_text(inst@));
        },
    }
}

/// Append an instruction: at a level as a line of its own, and otherwise to a line
/// that it shares.
pub fn fmt_instruction(buf: &mut String, inst: &Instruction, indent: Option<usize>)
    ensures
        final(buf)@ == old(buf)@ + instruction_form(
            inst@,
            match indent {
                Some(level) => Some(level as nat),
                None => None,
            },
        ),
{
    let ghost first = buf@;
    match indent {
        Some(level) => {
            buf.push_str(write_pad(level).as_str());
            fmt_inline(buf, inst);
            buf.push_str("\n");
            assert(buf@ =~= first + (pad(level as nat) + instruction_text(inst@) + "\n"@));
        },
        None => {
            fmt_inline(buf, inst);
        },
    }
}

fn fmt_lines(buf: &mut String, body: &Vec<Instruction>, indent: usize)
    ensures
        final(buf)@ == old(buf)@ + lines_text(instruction_views(body@), indent as nat),
{
    let ghost start = buf@;
    let mut i: usize = 0;
    let ghost views = instruction_views(body@);
    proof {
        assert(views.take(0) =~= Seq::<InstructionView>::empty());
        assert(start + lines_text(views.take(0), indent as nat) =~= start);
    }
    while i < body.len()
        invariant
            i <= body@.len(),
            views == instruction_views(body@),
            buf@ == start + lines_text(views.take(i as int), indent as nat),
        decreases body@.len() - i,
    {
        let ghost done = lines_text(views.take(i as int), indent as nat);
        proof {
            let next = views.take(i + 1);
            assert(next.drop_last() =~= views.take(i as int));
            assert(next.last() == body@[i as int]@);
        }
        fmt_instruction(buf, &body[i], Some(indent));
        assert(buf@ =~= start + (done + (pad(indent as nat) + instruction_text(body@[i as int]@)
            + "\n"@)));
        i += 1;
    }
    assert(views.take(i as int) =~= views);
}

// ── Entries ──────────────────────────────────────────────────────────────────

/// The source files, each by name and text.
pub open spec fn source_items_text(s: Entries<Seq<char>>) -> Seq<char>
    decreases s.len(),
{
    if s.len() == 0 {
        Seq::empty()
    } else {
        source_items_text(s.drop_last()) + (" ("@ + quoted(s.last().0) + " "@ + quoted(s.last().1)
            + ")"@)
    }
}

/// The entry of the source files, where there are any.
pub open spec fn sources_text(s: Entries<Seq<char>>) -> Seq<char> {
    if s.len() == 0 {
        Seq::empty()
    } else {
        "  (sources"@ + source_items_text(s) + ")\n"@
    }
}

/// The entry of a repository.
pub open spec fn sync_text(id: Seq<char>, sync: SyncView) -> Seq<char> {
    "  (sync "@ + id + " (url "@ + template_text(sync.url) + ") (dir "@ + template_text(sync.dir)
        + ") (branch "@ + template_text(sync.branch) + ") (strategy "@ + template_text(
        sync.strategy,
    ) + "))\n"@
}

/// The entries of functions.
pub open spec fn functions_text(functions: Entries<Seq<InstructionView>>) -> Seq<char>
    decreases functions.len(),
{
    if functions.len() == 0 {
        Seq::empty()
    } else {
        functions_text(functions.drop_last()) + ("    (fn "@ + functions.last().0 + "\n"@
            + lines_text(functions.last().1, 3) + "    )\n"@)
    }
}

/// The entry of a project.
pub open spec fn project_text(id: Seq<char>, project: ProjectView) -> Seq<char> {
    "  (project "@ + id + "\n"@ + functions_text(project.functions) + "  )\n"@
}

/// The entry of a run that consists of instructions.
pub open spec fn steps_text(id: Seq<char>, body: Seq<InstructionView>) -> Seq<char> {
    "  (steps "@ + id + "\n"@ + lines_text(body, 2) + "  )\n"@
}

pub open spec fn repositories_text(s: Entries<SyncView>) -> Seq<char>
    decreases s.len(),
{
    if s.len() == 0 {
        Seq::empty()
    } else {
        repositories_text(s.drop_last()) + sync_text(s.last().0, s.last().1)
    }
}

pub open spec fn projects_text(s: Entries<ProjectView>) -> Seq<char>
    decreases s.len(),
{
    if s.len() == 0 {
        Seq::empty()
    } else {
        projects_text(s.drop_last()) + project_text(s.last().0, s.last().1)
    }
}

pub open spec fn chains_text(s: Entries<Seq<Seq<CallView>>>) -> Seq<char>
    decreases s.len(),
{
    if s.len() == 0 {
        Seq::empty()
    } else {
        chains_text(s.drop_last()) + run_text(s.last().0, s.last().1)
    }
}

pub open spec fn runs_text(s: Entries<Seq<InstructionView>>) -> Seq<char>
    decreases s.len(),
{
    if s.len() == 0 {
        Seq::empty()
    } else {
        runs_text(s.drop_last()) + steps_text(s.last().0, s.last().1)
    }
}

/// The shell and the timeout.
pub open spec fn settings_text(ir: IrView) -> Seq<char> {
    ("  (shell "@ + quoted(ir.shell) + ")\n"@) + ("  (timeout "@ + decimal(ir.timeout) + ")\n"@)
}

/// The execution form as a kirufile.
pub open spec fn ir_text(ir: IrView) -> Seq<char> {
    "(kirufile\n"@ + settings_text(ir) + sources_text(ir.sources) + repositories_text(
        ir.repositories,
    ) + projects_text(ir.projects) + chains_text(ir.execution_chains) + runs_text(ir.runs) + ")\n"@
}

fn write_sync(id: &str, sync: &Sync) -> (r: String)
    ensures
        r@ == sync_text(id@, sync@),
{
    let mut out = "  (sync ".to_owned();
    out.push_str(id);
    out.push_str(" (url ");
    fmt_template(&mut out, &sync.url);
    out.push_str(") (dir ");
    fmt_template(&mut out, &sync.dir);
    out.push_str(") (branch ");
    fmt_template(&mut out, &sync.branch);
    out.push_str(") (strategy ");
    fmt_template(&mut out, &sync.strategy);
    out.push_str("))\n");
    out
}

fn write_project(id: &str, project: &Project) -> (r: String)
    ensures
        r@ == project_text(id@, project@),
        ascending(project@.functions),
{
    let mut out = "  (project ".to_owned();
    out.push_str(id);
    out.push_str("\n");
    let ghost head = out@;
    let ghost views = project@.functions;
    let mut i: usize = 0;
    let n: usize = project.functions.len();
    proof {
        lemma_map_ascending(project.functions@, body_viewer());
        assert(views.take(0) =~= Seq::<(Seq<char>, Seq<InstructionView>)>::empty());
        assert(head + functions_text(views.take(0)) =~= head);
    }
    while i < n
        invariant
            i <= n == project.functions@.len(),
            views == project@.functions,
            out@ == head + functions_text(views.take(i as int)),
        decreases n - i,
    {
        let ghost done = functions_text(views.take(i as int));
        proof {
            let next = views.take(i + 1);
            assert(next.drop_last() =~= views.take(i as int));
            assert(next.last() == views[i as int]);
        }
        out.push_str("    (fn ");
        out.push_str(project.functions.name_at(i));
        out.push_str("\n");
        fmt_lines(&mut out, project.functions.value_at(i), 3);
        out.push_str("    )\n");
        assert(out@ =~= head + (done + ("    (fn "@ + views[i as int].0 + "\n"@ + lines_text(
            views[i as int].1,
            3,
        ) + "    )\n"@)));
        i += 1;
    }
    assert(views.take(i as int) =~= views);
    out.push_str("  )\n");
    out
}

fn write_steps(id: &str, body: &Vec<Instruction>) -> (r: String)
    ensures
        r@ == steps_text(id@, instruction_views(body@)),
{
    let mut out = "  (steps ".to_owned();
    out.push_str(id);
    out.push_str("\n");
    fmt_lines(&mut out, body, 2);
    out.push_str("  )\n");
    out
}

impl Ir {
    fn fmt_sources(&self, out: &mut String)
        ensures
            final(out)@ == old(out)@ + sources_text(self@.sources),
            ascending(self@.sources),
    {
        let ghost start = out@;
        let ghost views = self@.sources;
        let n: usize = self.sources.len();
        proof {
            lemma_map_ascending(self.sources@, text_viewer());
        }
        if n == 0 {
            assert(start + sources_text(views) =~= start);
            return;
        }
        out.push_str("  (sources");
        let ghost head = out@;
        let mut i: usize = 0;
        proof {
            assert(views.take(0) =~= Seq::<(Seq<char>, Seq<char>)>::empty());
            assert(head + source_items_text(views.take(0)) =~= head);
        }
        while i < n
            invariant
                i <= n == self.sources@.len(),
                views == self@.sources,
                out@ == head + source_items_text(views.take(i as int)),
            decreases n - i,
        {
            let ghost done = source_items_text(views.take(i as int));
            proof {
                let next = views.take(i + 1);
                assert(next.drop_last() =~= views.take(i as int));
                assert(next.last() == views[i as int]);
            }
            out.push_str(" (");
            out.push_str(quote_string(self.sources.name_at(i)).as_str());
            out.push_str(" ");
            out.push_str(quote_string(self.sources.value_at(i).as_str()).as_str());
            out.push_str(")");
            assert(out@ =~= head + (done + (" ("@ + quoted(views[i as int].0) + " "@ + quoted(
                views[i as int].1,
            ) + ")"@)));
            i += 1;
        }
        assert(views.take(i as int) =~= views);
        out.push_str(")\n");
        assert(out@ =~= start + sources_text(views));
    }

    fn fmt_repositories(&self, out: &mut String)
        ensures
            final(out)@ == old(out)@ + repositories_text(self@.repositories),
            ascending(self@.repositories),
    {
        let ghost head = out@;
        let ghost views = self@.repositories;
        let n: usize = self.repositories.len();
        proof {
            lemma_map_ascending(self.repositories@, sync_viewer());
        }
        let mut i: usize = 0;
        proof {
            assert(views.take(0) =~= Seq::<(Seq<char>, SyncView)>::empty());
            assert(head + repositories_text(views.take(0)) =~= head);
        }
        while i < n
            invariant
                i <= n == self.repositories@.len(),
                views == self@.repositories,
                out@ == head + repositories_text(views.take(i as int)),
            decreases n - i,
        {
            let ghost done = repositories_text(views.take(i as int));
            proof {
                let next = views.take(i + 1);
                assert(next.drop_last() =~= views.take(i as int));
                assert(next.last() == views[i as int]);
            }
            out.push_str(
                write_sync(self.repositories.name_at(i), self.repositories.value_at(i)).as_str(),
            );
            assert(out@ =~= head + (done + sync_text(views[i as int].0, views[i as int].1)));
            i += 1;
        }
        assert(views.take(i as int) =~= views);
    }

    fn fmt_projects(&self, out: &mut String)
        ensures
            final(out)@ == old(out)@ + projects_text(self@.projects),
            ascending(self@.projects),
            forall|i: int|
                0 <= i < self@.projects.len() ==> ascending(
                    (#[trigger] self@.projects[i]).1.functions,
                ),
    {
        let ghost head = out@;
        let ghost views = self@.projects;
        let n: usize = self.projects.len();
        proof {
            lemma_map_ascending(self.projects@, project_viewer());
        }
        let mut i: usize = 0;
        proof {
            assert(views.take(0) =~= Seq::<(Seq<char>, ProjectView)>::empty());
            assert(head + projects_text(views.take(0)) =~= head);
        }
        while i < n
            invariant
                i <= n == self.projects@.len(),
                views == self@.projects,
                out@ == head + projects_text(views.take(i as int)),
                forall|j: int| 0 <= j < i ==> ascending((#[trigger] views[j]).1.functions),
            decreases n - i,
        {
            let ghost done = projects_text(views.take(i as int));
            proof {
                let next = views.take(i + 1);
                assert(next.drop_last() =~= views.take(i as int));
                assert(next.last() == views[i as int]);
            }
            out.push_str(
                write_project(self.projects.name_at(i), self.projects.value_at(i)).as_str(),
            );
            assert(out@ =~= head + (done + project_text(views[i as int].0, views[i as int].1)));
            i += 1;
        }
        assert(views.take(i as int) =~= views);
    }

    fn fmt_chains(&self, out: &mut String)
        ensures
            final(out)@ == old(out)@ + chains_text(self@.execution_chains),
            ascending(self@.execution_chains),
    {
        let ghost head = out@;
        let ghost views = self@.execution_chains;
        let n: usize = self.execution_chains.len();
        proof {
            lemma_map_ascending(self.execution_chains@, chain_viewer());
        }
        let mut i: usize = 0;
        proof {
            assert(views.take(0) =~= Seq::<(Seq<char>, Seq<Seq<CallView>>)>::empty());
            assert(head + chains_text(views.take(0)) =~= head);
        }
        while i < n
            invariant
                i <= n == self.execution_chains@.len(),
                views == self@.execution_chains,
                out@ == head + chains_text(views.take(i as int)),
            decreases n - i,
        {
            let ghost done = chains_text(views.take(i as int));
            proof {
                let next = views.take(i + 1);
                assert(next.drop_last() =~= views.take(i as int));
                assert(next.last() == views[i as int]);
            }
            out.push_str(
                write_run(
                    self.execution_chains.name_at(i),
                    self.execution_chains.value_at(i),
                ).as_str(),
            );
            assert(out@ =~= head + (done + run_text(views[i as int].0, views[i as int].1)));
            i += 1;
        }
        assert(views.take(i as int) =~= views);
    }

    fn fmt_runs(&self, out: &mut String)
        ensures
            final(out)@ == old(out)@ + runs_text(self@.runs),
            ascending(self@.runs),
    {
        let ghost head = out@;
        let ghost views = self@.runs;
        let n: usize = self.runs.len();
        proof {
            lemma_map_ascending(self.runs@, body_viewer());
        }
        let mut i: usize = 0;
        proof {
            assert(views.take(0) =~= Seq::<(Seq<char>, Seq<InstructionView>)>::empty());
            assert(head + runs_text(views.take(0)) =~= head);
        }
        while i < n
            invariant
                i <= n == self.runs@.len(),
                views == self@.runs,
                out@ == head + runs_text(views.take(i as int)),
            decreases n - i,
        {
            let ghost done = runs_text(views.take(i as int));
            proof {
                let next = views.take(i + 1);
                assert(next.drop_last() =~= views.take(i as int));
                assert(next.last() == views[i as int]);
            }
            out.push_str(write_steps(self.runs.name_at(i), self.runs.value_at(i)).as_str());
            assert(out@ =~= head + (done + steps_text(views[i as int].0, views[i as int].1)));
            i += 1;
        }
        assert(views.take(i as int) =~= views);
    }

    /// Write this as a kirufile, from which it can be read back where its names
    /// and keys are symbols.
    pub fn serialize(&self) -> (r: String)
        ensures
            r@ == ir_text(self@),
            ir_ordered(self@),
            ir_named(self@) ==> ir_fits(self@) && ir_of(r@) == Ok::<IrView, Reason>(self@),
    {
        let mut out = "(kirufile\n".to_owned();
        out.push_str("  (shell ");
        out.push_str(quote_string(self.shell.as_str()).as_str());
        out.push_str(")\n");
        out.push_str("  (timeout ");
        out.push_str(decimal_text(self.timeout).as_str());
        out.push_str(")\n");
        assert(out@ =~= "(kirufile\n"@ + settings_text(self@));
        self.fmt_sources(&mut out);
        self.fmt_repositories(&mut out);
        self.fmt_projects(&mut out);
        self.fmt_chains(&mut out);
        self.fmt_runs(&mut out);
        out.push_str(")\n");
        proof {
            if ir_named(self@) {
                lemma_ir_fits(*self);
                law_kirufile_read_back(self@);
            }
        }
        out
    }
}

} // verus!
