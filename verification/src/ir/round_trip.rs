//! What is written as a kirufile is read back as what it was written from.
use vstd::prelude::*;
use crate::ir::deserialize::{
    arm_of, arms_of, instruction_of, instructions_of, ir_of, pair_of, pairs_of, row_of, segment_of,
    segments_of, template_of, with_entries, with_entry, with_function, with_functions, with_source,
    with_sources, with_sync_field, with_sync_fields,
};
use crate::ir::serialize::{
    arms_text, body_text, chains_text, functions_text, instruction_text, ir_text, lines_text,
    pairs_text, project_text, projects_text, repositories_text, row_text, runs_text, segment_text,
    segments_text, settings_text, source_items_text, sources_text, steps_text, sync_text,
    template_text,
};
use crate::ir::{
    ArmView, EnvPairView, InstructionView, IrView, ProjectView, SegmentView, SyncView, TemplateView,
};
use crate::layout::{
    close_token, flat, flat_all, is_symbol, lemma_flat_join, lemma_flat_one, lemma_flat_push,
    lemma_head, lemma_head_blank, lemma_join, lemma_join_closes, lemma_join_gap, lemma_list,
    lemma_named, lemma_named_flat, lemma_node_read_back, lemma_opens_symbol, lemma_sync_tokens,
    lemma_yields_blanks, lemma_yields_close, lemma_yields_nothing, lemma_yields_open,
    lemma_yields_quoted, open_token, opens, separate, str_token, sym_token, yields,
};
use crate::names::{ascending, insert_entry, lemma_ascending_init, Entries};
use crate::plan::round_trip::{
    lemma_entry_words, lemma_pad, lemma_pattern, lemma_run_text, lemma_stages,
    lemma_sync_literals, pattern_node, run_node, stage_nodes, stages_fit,
};
use crate::plan::write::{pad, pattern_text, run_text};
use crate::plan::CallView;
use crate::sexp::{quoted, tokens, Reason, SexpView, TokenView};
use crate::text::{decimal, law_decimal_read_back, lemma_decimal_is_digits};

verus! {

/// Every number in a template is one that a position can be.
pub open spec fn template_fits(t: TemplateView) -> bool
    decreases t,
{
    segments_fit(t.parts)
}

pub open spec fn segments_fit(parts: Seq<SegmentView>) -> bool
    decreases parts,
{
    parts.len() > 0 ==> segments_fit(parts.drop_last()) && match parts.last() {
        SegmentView::Lit(_) => true,
        SegmentView::Cmd(inner) => template_fits(inner),
        SegmentView::CmdAt { template, start, len, .. } => template_fits(template) && start
            <= usize::MAX && len <= usize::MAX,
        SegmentView::Ref { id, template } => template_fits(template) && id <= usize::MAX,
    }
}

/// The node of a template.
pub open spec fn template_node(t: TemplateView) -> SexpView
    decreases t,
{
    SexpView::List(seq![SexpView::Sym("t"@)] + segment_nodes(t.parts))
}

/// The node of a piece of a template.
pub open spec fn segment_node(p: SegmentView) -> SexpView
    decreases p,
{
    match p {
        SegmentView::Lit(s) => SexpView::List(seq![SexpView::Sym("lit"@), SexpView::Str(s)]),
        SegmentView::Cmd(inner) => SexpView::List(
            seq![SexpView::Sym("cmd"@), template_node(inner)],
        ),
        SegmentView::CmdAt { template, start, len, file } => SexpView::List(
            seq![
                SexpView::Sym("cmd"@),
                SexpView::Sym(decimal(start)),
                SexpView::Sym(decimal(len)),
                SexpView::Str(file),
                template_node(template),
            ],
        ),
        SegmentView::Ref { id, template } => SexpView::List(
            seq![SexpView::Sym("ref"@), SexpView::Sym(decimal(id)), template_node(template)],
        ),
    }
}

pub open spec fn segment_nodes(parts: Seq<SegmentView>) -> Seq<SexpView>
    decreases parts,
{
    if parts.len() == 0 {
        Seq::empty()
    } else {
        segment_nodes(parts.drop_last()).push(segment_node(parts.last()))
    }
}

proof fn lemma_words()
    ensures
        is_symbol("t"@),
        is_symbol("lit"@),
        is_symbol("cmd"@),
        is_symbol("ref"@),
        "lit"@ != "cmd"@,
        "lit"@ != "ref"@,
        "cmd"@ != "ref"@,
{
    reveal_strlit("t");
    reveal_strlit("lit");
    reveal_strlit("cmd");
    reveal_strlit("ref");
    assert("lit"@[0] == 'l' && "cmd"@[0] == 'c' && "ref"@[0] == 'r');
}

/// A number written in decimal is a symbol.
proof fn lemma_decimal_symbol(n: nat)
    ensures
        is_symbol(decimal(n)),
{
    lemma_decimal_is_digits(n);
    let s = decimal(n);
    assert forall|i: int| 0 <= i < s.len() implies !crate::sexp::ends_symbol(#[trigger] s[i]) by {
        assert(crate::text::is_digit(s[i]));
    }
}

/// A symbol followed by a blank.
proof fn lemma_symbol_blank(s: Seq<char>)
    requires
        is_symbol(s),
    ensures
        yields(s + " "@, seq![sym_token(s)]),
{
    reveal_strlit(" ");
    lemma_opens_symbol(s);
    lemma_yields_blanks(" "@);
    lemma_join_closes(s, seq![sym_token(s)], " "@, Seq::empty());
    assert(seq![sym_token(s)] + Seq::<TokenView>::empty() =~= seq![sym_token(s)]);
}

/// A text in quotes followed by a blank.
proof fn lemma_quoted_blank(s: Seq<char>)
    ensures
        yields(quoted(s) + " "@, seq![str_token(s)]),
{
    reveal_strlit(" ");
    lemma_yields_quoted(s);
    lemma_yields_blanks(" "@);
    lemma_join(quoted(s), seq![str_token(s)], " "@, Seq::empty());
    assert(seq![str_token(s)] + Seq::<TokenView>::empty() =~= seq![str_token(s)]);
}

proof fn lemma_segments_push(nodes: Seq<SexpView>, parts: Seq<SegmentView>, node: SexpView, part: SegmentView)
    requires
        segments_of(nodes) == Ok::<Seq<SegmentView>, Reason>(parts),
        segment_of(node) == Ok::<SegmentView, Reason>(part),
    ensures
        segments_of(nodes.push(node)) == Ok::<Seq<SegmentView>, Reason>(parts.push(part)),
    decreases nodes.len(),
{
    let all = nodes.push(node);
    if nodes.len() == 0 {
        assert(all.skip(1) =~= Seq::<SexpView>::empty());
        assert(segments_of(all.skip(1)) == Ok::<Seq<SegmentView>, Reason>(Seq::empty()));
        assert(seq![part] + Seq::<SegmentView>::empty() =~= parts.push(part));
    } else {
        assert(all.skip(1) =~= nodes.skip(1).push(node));
        let first = segment_of(nodes[0])->Ok_0;
        let rest = segments_of(nodes.skip(1))->Ok_0;
        lemma_segments_push(nodes.skip(1), rest, node, part);
        assert(seq![first] + rest.push(part) =~= parts.push(part));
    }
}

/// The text that opens a piece of a template.
proof fn lemma_segment_heads()
    ensures
        yields(" (lit "@, seq![open_token(), sym_token("lit"@)]),
        yields(" (cmd "@, seq![open_token(), sym_token("cmd"@)]),
        yields(" (ref "@, seq![open_token(), sym_token("ref"@)]),
        " (lit "@.len() > 0 && " (lit "@[0] == ' ',
        " (cmd "@.len() > 0 && " (cmd "@[0] == ' ',
        " (ref "@.len() > 0 && " (ref "@[0] == ' ',
{
    lemma_words();
    reveal_strlit(" ");
    reveal_strlit("(");
    reveal_strlit("lit");
    reveal_strlit("cmd");
    reveal_strlit("ref");
    reveal_strlit(" (lit ");
    reveal_strlit(" (cmd ");
    reveal_strlit(" (ref ");
    lemma_head_blank(" "@, "lit"@, " "@);
    lemma_head_blank(" "@, "cmd"@, " "@);
    lemma_head_blank(" "@, "ref"@, " "@);
    assert(" (lit "@ =~= " "@ + "("@ + "lit"@ + " "@);
    assert(" (cmd "@ =~= " "@ + "("@ + "cmd"@ + " "@);
    assert(" (ref "@ =~= " "@ + "("@ + "ref"@ + " "@);
}

/// A piece of a template is read back.
proof fn lemma_segment(p: SegmentView)
    requires
        segments_fit(seq![p]),
    ensures
        yields(segment_text(p), flat(segment_node(p))),
        segment_of(segment_node(p)) == Ok::<SegmentView, Reason>(p),
        separate(segment_text(p)),
    decreases p,
{
    lemma_words();
    lemma_segment_heads();
    assert(seq![p].last() == p);
    match p {
        SegmentView::Lit(s) => {
            lemma_yields_quoted(s);
            lemma_flat_one(SexpView::Str(s));
            lemma_list(" (lit "@, "lit"@, quoted(s), seq![SexpView::Str(s)]);
            assert(seq![SexpView::Sym("lit"@)] + seq![SexpView::Str(s)] =~= seq![
                SexpView::Sym("lit"@),
                SexpView::Str(s),
            ]);
            assert(segment_text(p)[0] == ' ');
        },
        SegmentView::Cmd(inner) => {
            lemma_template(inner);
            lemma_flat_one(template_node(inner));
            lemma_list(" (cmd "@, "cmd"@, template_text(inner), seq![template_node(inner)]);
            assert(seq![SexpView::Sym("cmd"@)] + seq![template_node(inner)] =~= seq![
                SexpView::Sym("cmd"@),
                template_node(inner),
            ]);
            assert(segment_text(p)[0] == ' ');
        },
        SegmentView::CmdAt { template, start, len, file } => {
            lemma_template(template);
            lemma_located(template, start, len, file);
            assert(segment_text(p)[0] == ' ');
        },
        SegmentView::Ref { id, template } => {
            lemma_template(template);
            lemma_decimal_symbol(id);
            lemma_symbol_blank(decimal(id));
            law_decimal_read_back(id, usize::MAX as nat);
            let n1 = SexpView::Sym(decimal(id));
            let n2 = template_node(template);
            lemma_join(decimal(id) + " "@, flat(n1), template_text(template), flat(n2));
            lemma_flat_one(n1);
            lemma_flat_push(seq![n1], n2);
            lemma_list(
                " (ref "@,
                "ref"@,
                decimal(id) + " "@ + template_text(template),
                seq![n1].push(n2),
            );
            assert(" (ref "@ + (decimal(id) + " "@ + template_text(template)) + ")"@
                =~= segment_text(p));
            assert(seq![SexpView::Sym("ref"@)] + seq![n1].push(n2) =~= seq![
                SexpView::Sym("ref"@),
                n1,
                n2,
            ]);
            assert(segment_text(p)[0] == ' ');
        },
    }
}

/// A command with its place is read back, when its template is.
proof fn lemma_located(template: TemplateView, start: nat, len: nat, file: Seq<char>)
    requires
        yields(template_text(template), flat(template_node(template))),
        template_of(template_node(template)) == Ok::<TemplateView, Reason>(template),
        start <= usize::MAX,
        len <= usize::MAX,
    ensures
        ({
            let p = SegmentView::CmdAt { template, start, len, file };
            yields(segment_text(p), flat(segment_node(p))) && segment_of(segment_node(p)) == Ok::<
                SegmentView,
                Reason,
            >(p)
        }),
{
    let p = SegmentView::CmdAt { template, start, len, file };
    lemma_words();
    lemma_segment_heads();
    lemma_decimal_symbol(start);
    lemma_decimal_symbol(len);
    lemma_symbol_blank(decimal(start));
    lemma_symbol_blank(decimal(len));
    lemma_quoted_blank(file);
    law_decimal_read_back(start, usize::MAX as nat);
    law_decimal_read_back(len, usize::MAX as nat);
    let n1 = SexpView::Sym(decimal(start));
    let n2 = SexpView::Sym(decimal(len));
    let n3 = SexpView::Str(file);
    let n4 = template_node(template);
    let x1 = decimal(start) + " "@;
    let x2 = x1 + (decimal(len) + " "@);
    let x3 = x2 + (quoted(file) + " "@);
    let x4 = x3 + template_text(template);
    lemma_join(x1, flat(n1), decimal(len) + " "@, flat(n2));
    lemma_join(x2, flat(n1) + flat(n2), quoted(file) + " "@, flat(n3));
    lemma_join(x3, flat(n1) + flat(n2) + flat(n3), template_text(template), flat(n4));
    lemma_flat_one(n1);
    lemma_flat_push(seq![n1], n2);
    lemma_flat_push(seq![n1].push(n2), n3);
    lemma_flat_push(seq![n1].push(n2).push(n3), n4);
    let items = seq![n1].push(n2).push(n3).push(n4);
    lemma_list(" (cmd "@, "cmd"@, x4, items);
    assert(" (cmd "@ + x4 + ")"@ =~= segment_text(p));
    assert(seq![SexpView::Sym("cmd"@)] + items =~= seq![SexpView::Sym("cmd"@), n1, n2, n3, n4]);
}

/// A template is read back.
pub proof fn lemma_template(t: TemplateView)
    requires
        template_fits(t),
    ensures
        yields(template_text(t), flat(template_node(t))),
        template_of(template_node(t)) == Ok::<TemplateView, Reason>(t),
        separate(template_text(t)),
    decreases t,
{
    lemma_segments(t.parts);
    lemma_words();
    reveal_strlit("(");
    reveal_strlit("t");
    reveal_strlit("(t");
    lemma_head(Seq::empty(), "t"@);
    assert("(t"@ =~= Seq::<char>::empty() + "("@ + "t"@);
    lemma_list("(t"@, "t"@, segments_text(t.parts), segment_nodes(t.parts));
    let items = seq![SexpView::Sym("t"@)] + segment_nodes(t.parts);
    assert(items.skip(1) =~= segment_nodes(t.parts));
    assert(items[0] == SexpView::Sym("t"@));
}

proof fn lemma_segments(parts: Seq<SegmentView>)
    requires
        segments_fit(parts),
    ensures
        yields(segments_text(parts), flat_all(segment_nodes(parts))),
        segments_of(segment_nodes(parts)) == Ok::<Seq<SegmentView>, Reason>(parts),
        separate(segments_text(parts)),
    decreases parts,
{
    if parts.len() == 0 {
        lemma_yields_nothing();
        assert(parts =~= Seq::<SegmentView>::empty());
    } else {
        let init = parts.drop_last();
        let last = parts.last();
        lemma_segments(init);
        assert(segments_fit(seq![last])) by {
            assert(seq![last].drop_last() =~= Seq::<SegmentView>::empty());
            assert(segments_fit(Seq::empty()));
            assert(seq![last].last() == last);
        }
        assert(last == parts[parts.len() - 1]);
        lemma_segment(last);
        lemma_join(
            segments_text(init),
            flat_all(segment_nodes(init)),
            segment_text(last),
            flat(segment_node(last)),
        );
        lemma_flat_push(segment_nodes(init), segment_node(last));
        lemma_segments_push(segment_nodes(init), init, segment_node(last), last);
        assert(init.push(last) =~= parts);
        assert(segment_text(last).len() > 0) by {
            lemma_segment_heads();
        }
    }
}

// ── Instructions ─────────────────────────────────────────────────────────────

/// The keys of variables are symbols, and their values can be read back.
pub open spec fn pairs_fit(pairs: Seq<EnvPairView>) -> bool {
    forall|i: int|
        0 <= i < pairs.len() ==> is_symbol((#[trigger] pairs[i]).key) && template_fits(
            pairs[i].value,
        )
}

/// An instruction whose keys are symbols and whose numbers are ones that a
/// position can be.
pub open spec fn instruction_fits(inst: InstructionView) -> bool
    decreases inst,
{
    match inst {
        InstructionView::Exec { command } => template_fits(command),
        InstructionView::Log(value) => template_fits(value),
        InstructionView::Cd(value) => template_fits(value),
        InstructionView::Env { pairs, body } => pairs_fit(pairs) && body_fits(body),
        InstructionView::Switch { subject, arms } => template_fits(subject) && arms_fit(arms),
        InstructionView::Step { row, body, .. } => row <= usize::MAX && body_fits(body),
        InstructionView::Async { body } => body_fits(body),
        InstructionView::Context { project, body } => template_fits(project) && body_fits(body),
    }
}

pub open spec fn body_fits(body: Seq<InstructionView>) -> bool
    decreases body,
{
    body.len() > 0 ==> body_fits(body.drop_last()) && instruction_fits(body.last())
}

pub open spec fn arms_fit(arms: Seq<ArmView>) -> bool
    decreases arms,
{
    arms.len() > 0 ==> arms_fit(arms.drop_last()) && body_fits(arms.last().body) && arms.last().row
        <= usize::MAX
}

pub open spec fn pair_node(p: EnvPairView) -> SexpView {
    SexpView::List(seq![SexpView::Sym(p.key), template_node(p.value)])
}

pub open spec fn pair_nodes(pairs: Seq<EnvPairView>) -> Seq<SexpView>
    decreases pairs.len(),
{
    if pairs.len() == 0 {
        Seq::empty()
    } else {
        pair_nodes(pairs.drop_last()).push(pair_node(pairs.last()))
    }
}

pub open spec fn row_nodes(row: nat) -> Seq<SexpView> {
    if row == 0 {
        Seq::empty()
    } else {
        seq![SexpView::List(seq![SexpView::Sym("row"@), SexpView::Sym(decimal(row))])]
    }
}

/// The node of an instruction.
pub open spec fn instruction_node(inst: InstructionView) -> SexpView
    decreases inst,
{
    match inst {
        InstructionView::Exec { command } => SexpView::List(
            seq![SexpView::Sym("exec"@), template_node(command)],
        ),
        InstructionView::Log(value) => SexpView::List(
            seq![SexpView::Sym("log"@), template_node(value)],
        ),
        InstructionView::Cd(value) => SexpView::List(
            seq![SexpView::Sym("cd"@), template_node(value)],
        ),
        InstructionView::Env { pairs, body } => SexpView::List(
            seq![
                SexpView::Sym("env"@),
                SexpView::List(pair_nodes(pairs)),
                SexpView::List(instruction_nodes(body)),
            ],
        ),
        InstructionView::Switch { subject, arms } => SexpView::List(
            seq![SexpView::Sym("switch"@), template_node(subject)] + arm_nodes(arms),
        ),
        InstructionView::Step { row, label, body } => SexpView::List(
            seq![SexpView::Sym("step"@), SexpView::Sym(decimal(row)), SexpView::Str(label)]
                + instruction_nodes(body),
        ),
        InstructionView::Async { body } => SexpView::List(
            seq![SexpView::Sym("async"@)] + instruction_nodes(body),
        ),
        InstructionView::Context { project, body } => SexpView::List(
            seq![SexpView::Sym("context"@), template_node(project)] + instruction_nodes(body),
        ),
    }
}

pub open spec fn instruction_nodes(body: Seq<InstructionView>) -> Seq<SexpView>
    decreases body,
{
    if body.len() == 0 {
        Seq::empty()
    } else {
        instruction_nodes(body.drop_last()).push(instruction_node(body.last()))
    }
}

pub open spec fn arm_nodes(arms: Seq<ArmView>) -> Seq<SexpView>
    decreases arms,
{
    if arms.len() == 0 {
        Seq::empty()
    } else {
        arm_nodes(arms.drop_last()).push(
            SexpView::List(
                seq![SexpView::Sym("case"@), pattern_node(arms.last().pattern)] + row_nodes(
                    arms.last().row,
                ) + instruction_nodes(arms.last().body),
            ),
        )
    }
}

proof fn lemma_instruction_words()
    ensures
        is_symbol("exec"@),
        is_symbol("log"@),
        is_symbol("cd"@),
        is_symbol("env"@),
        is_symbol("switch"@),
        is_symbol("step"@),
        is_symbol("async"@),
        is_symbol("context"@),
        is_symbol("case"@),
        is_symbol("row"@),
        "exec"@ != "log"@,
        "exec"@ != "cd"@,
        "exec"@ != "env"@,
        "exec"@ != "switch"@,
        "exec"@ != "step"@,
        "exec"@ != "async"@,
        "exec"@ != "context"@,
        "log"@ != "cd"@,
        "log"@ != "env"@,
        "log"@ != "switch"@,
        "log"@ != "step"@,
        "log"@ != "async"@,
        "log"@ != "context"@,
        "cd"@ != "env"@,
        "cd"@ != "switch"@,
        "cd"@ != "step"@,
        "cd"@ != "async"@,
        "cd"@ != "context"@,
        "env"@ != "switch"@,
        "env"@ != "step"@,
        "env"@ != "async"@,
        "env"@ != "context"@,
        "switch"@ != "step"@,
        "switch"@ != "async"@,
        "switch"@ != "context"@,
        "step"@ != "async"@,
        "step"@ != "context"@,
        "async"@ != "context"@,
        "row"@ != "exec"@,
        "row"@ != "log"@,
        "row"@ != "cd"@,
        "row"@ != "env"@,
        "row"@ != "switch"@,
        "row"@ != "step"@,
        "row"@ != "async"@,
        "row"@ != "context"@,
{
    reveal_strlit("exec");
    reveal_strlit("log");
    reveal_strlit("cd");
    reveal_strlit("env");
    reveal_strlit("switch");
    reveal_strlit("step");
    reveal_strlit("async");
    reveal_strlit("context");
    reveal_strlit("case");
    reveal_strlit("row");
    assert("exec"@[0] == 'e' && "log"@[0] == 'l' && "cd"@[0] == 'c' && "env"@[0] == 'e'
        && "switch"@[0] == 's' && "step"@[0] == 's' && "async"@[0] == 'a' && "context"@[0] == 'c'
        && "row"@[0] == 'r');
    assert("exec"@[1] == 'x' && "env"@[1] == 'n' && "switch"@[1] == 'w' && "step"@[1] == 't'
        && "cd"@[1] == 'd' && "context"@[1] == 'o');
}

proof fn lemma_pairs_push(nodes: Seq<SexpView>, done: Seq<EnvPairView>, node: SexpView, x: EnvPairView)
    requires
        pairs_of(nodes) == Ok::<Seq<EnvPairView>, Reason>(done),
        pair_of(node) == Ok::<EnvPairView, Reason>(x),
    ensures
        pairs_of(nodes.push(node)) == Ok::<Seq<EnvPairView>, Reason>(done.push(x)),
    decreases nodes.len(),
{
    let all = nodes.push(node);
    if nodes.len() == 0 {
        assert(all.skip(1) =~= Seq::<SexpView>::empty());
        assert(pairs_of(all.skip(1)) == Ok::<Seq<EnvPairView>, Reason>(Seq::empty()));
        assert(seq![x] + Seq::<EnvPairView>::empty() =~= done.push(x));
    } else {
        assert(all.skip(1) =~= nodes.skip(1).push(node));
        let first = pair_of(nodes[0])->Ok_0;
        let rest = pairs_of(nodes.skip(1))->Ok_0;
        lemma_pairs_push(nodes.skip(1), rest, node, x);
        assert(seq![first] + rest.push(x) =~= done.push(x));
    }
}

proof fn lemma_instructions_push(
    nodes: Seq<SexpView>,
    done: Seq<InstructionView>,
    node: SexpView,
    x: InstructionView,
)
    requires
        instructions_of(nodes) == Ok::<Seq<InstructionView>, Reason>(done),
        instruction_of(node) == Ok::<InstructionView, Reason>(x),
    ensures
        instructions_of(nodes.push(node)) == Ok::<Seq<InstructionView>, Reason>(done.push(x)),
    decreases nodes.len(),
{
    let all = nodes.push(node);
    if nodes.len() == 0 {
        assert(all.skip(1) =~= Seq::<SexpView>::empty());
        assert(instructions_of(all.skip(1)) == Ok::<Seq<InstructionView>, Reason>(Seq::empty()));
        assert(seq![x] + Seq::<InstructionView>::empty() =~= done.push(x));
    } else {
        assert(all.skip(1) =~= nodes.skip(1).push(node));
        let first = instruction_of(nodes[0])->Ok_0;
        let rest = instructions_of(nodes.skip(1))->Ok_0;
        lemma_instructions_push(nodes.skip(1), rest, node, x);
        assert(seq![first] + rest.push(x) =~= done.push(x));
    }
}

proof fn lemma_arms_push(nodes: Seq<SexpView>, done: Seq<ArmView>, node: SexpView, x: ArmView)
    requires
        arms_of(nodes) == Ok::<Seq<ArmView>, Reason>(done),
        arm_of(node) == Ok::<ArmView, Reason>(x),
    ensures
        arms_of(nodes.push(node)) == Ok::<Seq<ArmView>, Reason>(done.push(x)),
    decreases nodes.len(),
{
    let all = nodes.push(node);
    if nodes.len() == 0 {
        assert(all.skip(1) =~= Seq::<SexpView>::empty());
        assert(arms_of(all.skip(1)) == Ok::<Seq<ArmView>, Reason>(Seq::empty()));
        assert(seq![x] + Seq::<ArmView>::empty() =~= done.push(x));
    } else {
        assert(all.skip(1) =~= nodes.skip(1).push(node));
        let first = arm_of(nodes[0])->Ok_0;
        let rest = arms_of(nodes.skip(1))->Ok_0;
        lemma_arms_push(nodes.skip(1), rest, node, x);
        assert(seq![first] + rest.push(x) =~= done.push(x));
    }
}

proof fn lemma_pair(p: EnvPairView)
    requires
        is_symbol(p.key),
        template_fits(p.value),
    ensures
        yields("("@ + p.key + " "@ + template_text(p.value) + ")"@, flat(pair_node(p))),
        pair_of(pair_node(p)) == Ok::<EnvPairView, Reason>(p),
{
    reveal_strlit(" ");
    lemma_template(p.value);
    lemma_head_blank(Seq::empty(), p.key, " "@);
    assert(Seq::<char>::empty() + "("@ + p.key + " "@ =~= "("@ + p.key + " "@);
    lemma_flat_one(template_node(p.value));
    lemma_list("("@ + p.key + " "@, p.key, template_text(p.value), seq![template_node(p.value)]);
    assert(seq![SexpView::Sym(p.key)] + seq![template_node(p.value)] =~= seq![
        SexpView::Sym(p.key),
        template_node(p.value),
    ]);
}

proof fn lemma_pairs(pairs: Seq<EnvPairView>)
    requires
        pairs_fit(pairs),
    ensures
        yields(pairs_text(pairs), flat_all(pair_nodes(pairs))),
        pairs_of(pair_nodes(pairs)) == Ok::<Seq<EnvPairView>, Reason>(pairs),
    decreases pairs.len(),
{
    if pairs.len() == 0 {
        lemma_yields_nothing();
        assert(pairs =~= Seq::<EnvPairView>::empty());
    } else {
        let init = pairs.drop_last();
        let last = pairs.last();
        assert(pairs_fit(init)) by {
            assert forall|i: int| 0 <= i < init.len() implies is_symbol((#[trigger] init[i]).key)
                && template_fits(init[i].value) by {
                assert(init[i] == pairs[i]);
            }
        }
        assert(last == pairs[pairs.len() - 1]);
        lemma_pairs(init);
        lemma_pair(last);
        let gap = if pairs.len() > 1 {
            " "@
        } else {
            Seq::<char>::empty()
        };
        let text = "("@ + last.key + " "@ + template_text(last.value) + ")"@;
        lemma_join_gap(
            pairs_text(init),
            flat_all(pair_nodes(init)),
            gap,
            text,
            flat(pair_node(last)),
        );
        lemma_flat_push(pair_nodes(init), pair_node(last));
        lemma_pairs_push(pair_nodes(init), init, pair_node(last), last);
        assert(init.push(last) =~= pairs);
    }
}

/// An instruction that consists of a word and a template.
proof fn lemma_simple(lit: Seq<char>, word: Seq<char>, value: TemplateView)
    requires
        is_symbol(word),
        lit == Seq::<char>::empty() + "("@ + word + " "@,
        template_fits(value),
    ensures
        yields(
            lit + template_text(value) + ")"@,
            flat(SexpView::List(seq![SexpView::Sym(word), template_node(value)])),
        ),
        lit[0] == '(',
{
    reveal_strlit(" ");
    reveal_strlit("(");
    lemma_template(value);
    lemma_head_blank(Seq::empty(), word, " "@);
    lemma_flat_one(template_node(value));
    lemma_list(lit, word, template_text(value), seq![template_node(value)]);
    assert(seq![SexpView::Sym(word)] + seq![template_node(value)] =~= seq![
        SexpView::Sym(word),
        template_node(value),
    ]);
}

/// An instruction is written as the tokens of its node, and its node is read
/// as that instruction.
pub open spec fn reads_back(inst: InstructionView) -> bool {
    &&& yields(instruction_text(inst), flat(instruction_node(inst)))
    &&& instruction_of(instruction_node(inst)) == Ok::<InstructionView, Reason>(inst)
}

/// The same of a body.
pub open spec fn body_reads_back(body: Seq<InstructionView>) -> bool {
    &&& yields(body_text(body), flat_all(instruction_nodes(body)))
    &&& instructions_of(instruction_nodes(body)) == Ok::<Seq<InstructionView>, Reason>(body)
}

proof fn lemma_exec(value: TemplateView)
    requires
        template_fits(value),
    ensures
        reads_back((InstructionView::Exec { command: value })),
{
    lemma_instruction_words();
    assert("(exec "@ == Seq::<char>::empty() + "("@ + "exec"@ + " "@) by {
        reveal_strlit(" ");
        reveal_strlit("(");
        reveal_strlit("exec");
        reveal_strlit("(exec ");
    }
    lemma_simple("(exec "@, "exec"@, value);
    lemma_template(value);
    let items = seq![SexpView::Sym("exec"@), template_node(value)];
    assert(items[0] == SexpView::Sym("exec"@) && items[1] == template_node(value));
}

proof fn lemma_log(value: TemplateView)
    requires
        template_fits(value),
    ensures
        reads_back(InstructionView::Log(value)),
{
    lemma_instruction_words();
    assert("(log "@ == Seq::<char>::empty() + "("@ + "log"@ + " "@) by {
        reveal_strlit(" ");
        reveal_strlit("(");
        reveal_strlit("log");
        reveal_strlit("(log ");
    }
    lemma_simple("(log "@, "log"@, value);
    lemma_template(value);
    let items = seq![SexpView::Sym("log"@), template_node(value)];
    assert(items[0] == SexpView::Sym("log"@) && items[1] == template_node(value));
}

proof fn lemma_cd(value: TemplateView)
    requires
        template_fits(value),
    ensures
        reads_back(InstructionView::Cd(value)),
{
    lemma_instruction_words();
    assert("(cd "@ == Seq::<char>::empty() + "("@ + "cd"@ + " "@) by {
        reveal_strlit(" ");
        reveal_strlit("(");
        reveal_strlit("cd");
        reveal_strlit("(cd ");
    }
    lemma_simple("(cd "@, "cd"@, value);
    lemma_template(value);
    let items = seq![SexpView::Sym("cd"@), template_node(value)];
    assert(items[0] == SexpView::Sym("cd"@) && items[1] == template_node(value));
}

proof fn lemma_env_text(pairs: Seq<EnvPairView>, body: Seq<InstructionView>)
    requires
        yields(pairs_text(pairs), flat_all(pair_nodes(pairs))),
        yields(body_text(body), flat_all(instruction_nodes(body))),
    ensures
        ({
            let inst = InstructionView::Env { pairs, body };
            yields(instruction_text(inst), flat(instruction_node(inst)))
        }),
{
    let inst = InstructionView::Env { pairs, body };
    lemma_instruction_words();
    reveal_strlit(" ");
    reveal_strlit("(");
    reveal_strlit(")");
    reveal_strlit("env");
    reveal_strlit("(env (");
    reveal_strlit(") (");
    reveal_strlit("))");
    let none = Seq::<TokenView>::empty();
    let o = seq![open_token()];
    let c = seq![close_token()];
    let p = flat_all(pair_nodes(pairs));
    let b = flat_all(instruction_nodes(body));
    let h = seq![open_token(), sym_token("env"@)];
    lemma_yields_open();
    lemma_yields_close();
    lemma_yields_blanks(" "@);
    lemma_head_blank(Seq::empty(), "env"@, " "@);
    lemma_join(Seq::<char>::empty() + "("@ + "env"@ + " "@, h, "("@, o);
    assert(Seq::<char>::empty() + "("@ + "env"@ + " "@ + "("@ =~= "(env ("@);
    lemma_join(")"@, c, " "@, none);
    lemma_join(")"@ + " "@, c + none, "("@, o);
    assert(")"@ + " "@ + "("@ =~= ") ("@);
    lemma_join(")"@, c, ")"@, c);
    assert(")"@ + ")"@ =~= "))"@);
    lemma_join("(env ("@, h + o, pairs_text(pairs), p);
    lemma_join("(env ("@ + pairs_text(pairs), h + o + p, ") ("@, c + none + o);
    lemma_join(
        "(env ("@ + pairs_text(pairs) + ") ("@,
        h + o + p + (c + none + o),
        body_text(body),
        b,
    );
    lemma_join(
        "(env ("@ + pairs_text(pairs) + ") ("@ + body_text(body),
        h + o + p + (c + none + o) + b,
        "))"@,
        c + c,
    );
    let sym = SexpView::Sym("env"@);
    let pn = SexpView::List(pair_nodes(pairs));
    let bn = SexpView::List(instruction_nodes(body));
    lemma_flat_one(sym);
    lemma_flat_push(seq![sym], pn);
    lemma_flat_push(seq![sym].push(pn), bn);
    assert(seq![sym].push(pn).push(bn) =~= seq![sym, pn, bn]);
    assert(h + o + p + (c + none + o) + b + (c + c) =~= flat(instruction_node(inst)));
}

proof fn lemma_switch_text(subject: TemplateView, arms: Seq<ArmView>)
    requires
        yields(template_text(subject), flat(template_node(subject))),
        yields(arms_text(arms), flat_all(arm_nodes(arms))),
    ensures
        ({
            let inst = InstructionView::Switch { subject, arms };
            yields(instruction_text(inst), flat(instruction_node(inst)))
        }),
{
    let inst = InstructionView::Switch { subject, arms };
    lemma_instruction_words();
    reveal_strlit(" ");
    reveal_strlit("(");
    reveal_strlit("switch");
    reveal_strlit("(switch ");
    lemma_head_blank(Seq::empty(), "switch"@, " "@);
    assert("(switch "@ =~= Seq::<char>::empty() + "("@ + "switch"@ + " "@);
    let body = template_text(subject) + arms_text(arms);
    let items = seq![template_node(subject)] + arm_nodes(arms);
    lemma_join(
        template_text(subject),
        flat(template_node(subject)),
        arms_text(arms),
        flat_all(arm_nodes(arms)),
    );
    lemma_flat_one(template_node(subject));
    lemma_flat_join(seq![template_node(subject)], arm_nodes(arms));
    lemma_list("(switch "@, "switch"@, body, items);
    assert("(switch "@ + body + ")"@ =~= instruction_text(inst));
    assert(seq![SexpView::Sym("switch"@)] + items =~= seq![
        SexpView::Sym("switch"@),
        template_node(subject),
    ] + arm_nodes(arms));
}

proof fn lemma_step_text(row: nat, label: Seq<char>, body: Seq<InstructionView>)
    requires
        yields(body_text(body), flat_all(instruction_nodes(body))),
    ensures
        ({
            let inst = InstructionView::Step { row, label, body };
            yields(instruction_text(inst), flat(instruction_node(inst)))
        }),
{
    let inst = InstructionView::Step { row, label, body };
    lemma_instruction_words();
    assert("(step "@ == Seq::<char>::empty() + "("@ + "step"@ + " "@) by {
        reveal_strlit(" ");
        reveal_strlit("(");
        reveal_strlit("step");
        reveal_strlit("(step ");
    }
    reveal_strlit(" ");
    lemma_head_blank(Seq::empty(), "step"@, " "@);
    lemma_decimal_symbol(row);
    lemma_symbol_blank(decimal(row));
    lemma_quoted_blank(label);
    let n1 = SexpView::Sym(decimal(row));
    let n2 = SexpView::Str(label);
    let x1 = decimal(row) + " "@;
    let x2 = x1 + (quoted(label) + " "@);
    let x3 = x2 + body_text(body);
    lemma_join(x1, flat(n1), quoted(label) + " "@, flat(n2));
    lemma_join(x2, flat(n1) + flat(n2), body_text(body), flat_all(instruction_nodes(body)));
    lemma_flat_one(n1);
    lemma_flat_push(seq![n1], n2);
    lemma_flat_join(seq![n1].push(n2), instruction_nodes(body));
    let items = seq![n1].push(n2) + instruction_nodes(body);
    lemma_list("(step "@, "step"@, x3, items);
    assert("(step "@ + x3 + ")"@ =~= instruction_text(inst));
    assert(seq![SexpView::Sym("step"@)] + items =~= seq![SexpView::Sym("step"@), n1, n2]
        + instruction_nodes(body));
}

proof fn lemma_context_text(project: TemplateView, body: Seq<InstructionView>)
    requires
        yields(template_text(project), flat(template_node(project))),
        yields(body_text(body), flat_all(instruction_nodes(body))),
    ensures
        ({
            let inst = InstructionView::Context { project, body };
            yields(instruction_text(inst), flat(instruction_node(inst)))
        }),
{
    let inst = InstructionView::Context { project, body };
    lemma_instruction_words();
    assert("(context "@ == Seq::<char>::empty() + "("@ + "context"@ + " "@) by {
        reveal_strlit(" ");
        reveal_strlit("(");
        reveal_strlit("context");
        reveal_strlit("(context ");
    }
    reveal_strlit(" ");
    lemma_head_blank(Seq::empty(), "context"@, " "@);
    let n1 = template_node(project);
    lemma_join_gap(
        template_text(project),
        flat(n1),
        " "@,
        body_text(body),
        flat_all(instruction_nodes(body)),
    );
    lemma_flat_one(n1);
    lemma_flat_join(seq![n1], instruction_nodes(body));
    let items = seq![n1] + instruction_nodes(body);
    let x = template_text(project) + " "@ + body_text(body);
    lemma_list("(context "@, "context"@, x, items);
    assert("(context "@ + x + ")"@ =~= instruction_text(inst));
    assert(seq![SexpView::Sym("context"@)] + items =~= seq![SexpView::Sym("context"@), n1]
        + instruction_nodes(body));
}

proof fn lemma_env(pairs: Seq<EnvPairView>, body: Seq<InstructionView>)
    requires
        pairs_fit(pairs),
        body_reads_back(body),
    ensures
        reads_back((InstructionView::Env { pairs, body })),
{
    lemma_pairs(pairs);
    lemma_env_text(pairs, body);
    lemma_instruction_words();
    let sym = SexpView::Sym("env"@);
    let pn = SexpView::List(pair_nodes(pairs));
    let bn = SexpView::List(instruction_nodes(body));
    let items = seq![sym, pn, bn];
    assert(items[0] == sym && items[1] == pn && items[2] == bn);
}

proof fn lemma_switch(subject: TemplateView, arms: Seq<ArmView>)
    requires
        template_fits(subject),
        yields(arms_text(arms), flat_all(arm_nodes(arms))),
        arms_of(arm_nodes(arms)) == Ok::<Seq<ArmView>, Reason>(arms),
    ensures
        reads_back((InstructionView::Switch { subject, arms })),
{
    lemma_template(subject);
    lemma_switch_text(subject, arms);
    lemma_instruction_words();
    let all = seq![SexpView::Sym("switch"@), template_node(subject)] + arm_nodes(arms);
    assert(all.skip(2) =~= arm_nodes(arms));
    assert(all[0] == SexpView::Sym("switch"@) && all[1] == template_node(subject));
}

proof fn lemma_step(row: nat, label: Seq<char>, body: Seq<InstructionView>)
    requires
        row <= usize::MAX,
        body_reads_back(body),
    ensures
        reads_back((InstructionView::Step { row, label, body })),
{
    lemma_step_text(row, label, body);
    law_decimal_read_back(row, usize::MAX as nat);
    lemma_instruction_words();
    let heads = seq![SexpView::Sym("step"@), SexpView::Sym(decimal(row)), SexpView::Str(label)];
    let all = heads + instruction_nodes(body);
    assert(all.skip(3) =~= instruction_nodes(body));
    assert(all[0] == heads[0] && all[1] == heads[1] && all[2] == heads[2]);
}

proof fn lemma_async(body: Seq<InstructionView>)
    requires
        body_reads_back(body),
    ensures
        reads_back((InstructionView::Async { body })),
{
    lemma_instruction_words();
    assert("(async "@ == Seq::<char>::empty() + "("@ + "async"@ + " "@) by {
        reveal_strlit(" ");
        reveal_strlit("(");
        reveal_strlit("async");
        reveal_strlit("(async ");
    }
    reveal_strlit(" ");
    lemma_head_blank(Seq::empty(), "async"@, " "@);
    lemma_list("(async "@, "async"@, body_text(body), instruction_nodes(body));
    let all = seq![SexpView::Sym("async"@)] + instruction_nodes(body);
    assert(all.skip(1) =~= instruction_nodes(body));
    assert(all[0] == SexpView::Sym("async"@));
}

proof fn lemma_context(project: TemplateView, body: Seq<InstructionView>)
    requires
        template_fits(project),
        body_reads_back(body),
    ensures
        reads_back((InstructionView::Context { project, body })),
{
    lemma_template(project);
    lemma_context_text(project, body);
    lemma_instruction_words();
    let all = seq![SexpView::Sym("context"@), template_node(project)] + instruction_nodes(body);
    assert(all.skip(2) =~= instruction_nodes(body));
    assert(all[0] == SexpView::Sym("context"@) && all[1] == template_node(project));
}

/// An instruction is read back.
proof fn lemma_instruction(inst: InstructionView)
    requires
        instruction_fits(inst),
    ensures
        reads_back(inst),
    decreases inst,
{
    match inst {
        InstructionView::Exec { command } => {
            lemma_exec(command);
        },
        InstructionView::Log(value) => {
            lemma_log(value);
        },
        InstructionView::Cd(value) => {
            lemma_cd(value);
        },
        InstructionView::Env { pairs, body } => {
            lemma_body(body);
            lemma_env(pairs, body);
        },
        InstructionView::Switch { subject, arms } => {
            lemma_arms(arms);
            lemma_switch(subject, arms);
        },
        InstructionView::Step { row, label, body } => {
            lemma_body(body);
            lemma_step(row, label, body);
        },
        InstructionView::Async { body } => {
            lemma_body(body);
            lemma_async(body);
        },
        InstructionView::Context { project, body } => {
            lemma_body(body);
            lemma_context(project, body);
        },
    }
}

proof fn lemma_body(body: Seq<InstructionView>)
    requires
        body_fits(body),
    ensures
        body_reads_back(body),
    decreases body,
{
    if body.len() == 0 {
        lemma_yields_nothing();
        assert(body =~= Seq::<InstructionView>::empty());
    } else {
        let init = body.drop_last();
        let last = body.last();
        lemma_body(init);
        lemma_instruction(last);
        let gap = if body.len() > 1 {
            " "@
        } else {
            Seq::<char>::empty()
        };
        lemma_join_gap(
            body_text(init),
            flat_all(instruction_nodes(init)),
            gap,
            instruction_text(last),
            flat(instruction_node(last)),
        );
        lemma_flat_push(instruction_nodes(init), instruction_node(last));
        lemma_instructions_push(instruction_nodes(init), init, instruction_node(last), last);
        assert(init.push(last) =~= body);
    }
}

/// The row of an arm, and the reading of it.
proof fn lemma_row(row: nat)
    requires
        row <= usize::MAX,
    ensures
        yields(row_text(row), flat_all(row_nodes(row))),
{
    if row == 0 {
        lemma_yields_nothing();
    } else {
        lemma_instruction_words();
        lemma_decimal_symbol(row);
        reveal_strlit(" ");
        reveal_strlit("(");
        reveal_strlit(")");
        reveal_strlit("row");
        reveal_strlit("(row ");
        reveal_strlit(") ");
        assert("(row "@ =~= Seq::<char>::empty() + "("@ + "row"@ + " "@);
        lemma_named("(row "@, Seq::empty(), "row"@, decimal(row));
        lemma_yields_close();
        lemma_yields_blanks(" "@);
        let c = seq![close_token()];
        lemma_join(")"@, c, " "@, Seq::empty());
        assert(")"@ + " "@ =~= ") "@);
        let h = seq![open_token(), sym_token("row"@), sym_token(decimal(row))];
        lemma_join_closes("(row "@ + decimal(row), h, ") "@, c + Seq::<TokenView>::empty());
        lemma_named_flat("row"@, decimal(row), Seq::empty());
        let node = SexpView::List(seq![SexpView::Sym("row"@), SexpView::Sym(decimal(row))]);
        assert(seq![SexpView::Sym("row"@), SexpView::Sym(decimal(row))] + Seq::<SexpView>::empty()
            =~= seq![SexpView::Sym("row"@), SexpView::Sym(decimal(row))]);
        lemma_flat_one(node);
        assert(h + (c + Seq::<TokenView>::empty()) =~= flat(node));
    }
}

/// The row is told apart from the first instruction of the body.
proof fn lemma_row_of(row: nat, heads: Seq<SexpView>, body: Seq<InstructionView>)
    requires
        row <= usize::MAX,
        heads.len() == 2,
    ensures
        row_of(heads + row_nodes(row) + instruction_nodes(body)) == Ok::<(nat, int), Reason>(
            (
                row,
                if row == 0 {
                    2
                } else {
                    3
                },
            ),
        ),
        (heads + row_nodes(row) + instruction_nodes(body)).skip(
            if row == 0 {
                2
            } else {
                3
            },
        ) == instruction_nodes(body),
    decreases body.len(),
{
    let items = heads + row_nodes(row) + instruction_nodes(body);
    if row == 0 {
        assert(items.skip(2) =~= instruction_nodes(body));
        lemma_instruction_words();
        if body.len() > 0 {
            lemma_first_node(body);
            assert(items[2] == instruction_nodes(body)[0]);
        } else {
            assert(instruction_nodes(body).len() == 0);
        }
    } else {
        assert(items.skip(3) =~= instruction_nodes(body));
        let r = seq![SexpView::Sym("row"@), SexpView::Sym(decimal(row))];
        assert(items[2] == SexpView::List(r));
        assert(r[0] == SexpView::Sym("row"@) && r[1] == SexpView::Sym(decimal(row)));
        law_decimal_read_back(row, usize::MAX as nat);
    }
}

/// The node of the first instruction comes first.
proof fn lemma_first_node(body: Seq<InstructionView>)
    requires
        body.len() > 0,
    ensures
        instruction_nodes(body).len() == body.len(),
        instruction_nodes(body)[0] == instruction_node(body[0]),
    decreases body.len(),
{
    if body.len() > 1 {
        lemma_first_node(body.drop_last());
    } else {
        assert(instruction_nodes(body.drop_last()).len() == 0);
    }
}

proof fn lemma_arms(arms: Seq<ArmView>)
    requires
        arms_fit(arms),
    ensures
        yields(arms_text(arms), flat_all(arm_nodes(arms))),
        arms_of(arm_nodes(arms)) == Ok::<Seq<ArmView>, Reason>(arms),
        separate(arms_text(arms)),
    decreases arms,
{
    if arms.len() == 0 {
        lemma_yields_nothing();
        assert(arms =~= Seq::<ArmView>::empty());
    } else {
        let init = arms.drop_last();
        let last = arms.last();
        lemma_arms(init);
        lemma_body(last.body);
        lemma_pattern(last.pattern);
        lemma_yields_close();
        lemma_instruction_words();
        let h = seq![open_token(), sym_token("case"@)] + flat(pattern_node(last.pattern));
        let body = flat_all(instruction_nodes(last.body));
        let row = flat_all(row_nodes(last.row));
        lemma_row(last.row);
        lemma_join(pattern_text(last.pattern), h, row_text(last.row), row);
        lemma_join(
            pattern_text(last.pattern) + row_text(last.row),
            h + row,
            body_text(last.body),
            body,
        );
        lemma_join(
            pattern_text(last.pattern) + row_text(last.row) + body_text(last.body),
            h + row + body,
            ")"@,
            seq![close_token()],
        );
        let text = pattern_text(last.pattern) + row_text(last.row) + body_text(last.body) + ")"@;
        let heads = seq![SexpView::Sym("case"@), pattern_node(last.pattern)];
        let items = heads + row_nodes(last.row) + instruction_nodes(last.body);
        let node = SexpView::List(items);
        lemma_flat_one(SexpView::Sym("case"@));
        lemma_flat_push(seq![SexpView::Sym("case"@)], pattern_node(last.pattern));
        assert(seq![SexpView::Sym("case"@)].push(pattern_node(last.pattern)) =~= heads);
        lemma_flat_join(heads, row_nodes(last.row));
        lemma_flat_join(heads + row_nodes(last.row), instruction_nodes(last.body));
        assert(h + row + body + seq![close_token()] =~= flat(node));
        lemma_join(arms_text(init), flat_all(arm_nodes(init)), text, flat(node));
        lemma_flat_push(arm_nodes(init), node);
        assert(text[0] == ' ');
        lemma_row_of(last.row, heads, last.body);
        assert(items[0] == heads[0] && items[1] == heads[1]);
        reveal_strlit("_");
        assert(arm_of(node) == Ok::<ArmView, Reason>(last));
        lemma_arms_push(arm_nodes(init), init, node, last);
        assert(init.push(last) =~= arms);
    }
}

proof fn lemma_lines(body: Seq<InstructionView>, indent: nat)
    requires
        body_fits(body),
    ensures
        yields(lines_text(body, indent), flat_all(instruction_nodes(body))),
        instructions_of(instruction_nodes(body)) == Ok::<Seq<InstructionView>, Reason>(body),
    decreases body.len(),
{
    if body.len() == 0 {
        lemma_yields_nothing();
        assert(body =~= Seq::<InstructionView>::empty());
    } else {
        let init = body.drop_last();
        let last = body.last();
        lemma_lines(init, indent);
        lemma_instruction(last);
        lemma_pad(indent);
        reveal_strlit("\n");
        lemma_yields_blanks("\n"@);
        let none = Seq::<TokenView>::empty();
        let node = flat(instruction_node(last));
        lemma_join(pad(indent), none, instruction_text(last), node);
        lemma_join(pad(indent) + instruction_text(last), none + node, "\n"@, none);
        assert(none + node + none =~= node);
        lemma_join(
            lines_text(init, indent),
            flat_all(instruction_nodes(init)),
            pad(indent) + instruction_text(last) + "\n"@,
            node,
        );
        lemma_flat_push(instruction_nodes(init), instruction_node(last));
        lemma_instructions_push(instruction_nodes(init), init, instruction_node(last), last);
        assert(init.push(last) =~= body);
    }
}

// ── Entries ──────────────────────────────────────────────────────────────────

/// The names of functions are symbols, and their instructions can be read back.
pub open spec fn functions_fit(f: Entries<Seq<InstructionView>>) -> bool {
    &&& ascending(f)
    &&& forall|i: int| 0 <= i < f.len() ==> is_symbol((#[trigger] f[i]).0) && body_fits(f[i].1)
}

pub open spec fn sync_fits(s: SyncView) -> bool {
    template_fits(s.url) && template_fits(s.dir) && template_fits(s.branch) && template_fits(
        s.strategy,
    )
}

/// An execution form whose names and keys are symbols, in which each name stands
/// once, in order, and whose numbers are ones that the fields can hold.
pub open spec fn ir_fits(p: IrView) -> bool {
    &&& p.timeout <= u64::MAX
    &&& ascending(p.sources)
    &&& ascending(p.repositories)
    &&& forall|i: int|
        0 <= i < p.repositories.len() ==> is_symbol((#[trigger] p.repositories[i]).0) && sync_fits(
            p.repositories[i].1,
        )
    &&& ascending(p.projects)
    &&& forall|i: int|
        0 <= i < p.projects.len() ==> is_symbol((#[trigger] p.projects[i]).0) && functions_fit(
            p.projects[i].1.functions,
        )
    &&& ascending(p.execution_chains)
    &&& forall|i: int|
        0 <= i < p.execution_chains.len() ==> is_symbol((#[trigger] p.execution_chains[i]).0)
            && stages_fit(p.execution_chains[i].1)
    &&& ascending(p.runs)
    &&& forall|i: int|
        0 <= i < p.runs.len() ==> is_symbol((#[trigger] p.runs[i]).0) && body_fits(p.runs[i].1)
}

proof fn lemma_more_words()
    ensures
        is_symbol("timeout"@),
        is_symbol("sources"@),
        is_symbol("steps"@),
        "shell"@ != "timeout"@,
        "shell"@ != "sources"@,
        "shell"@ != "steps"@,
        "timeout"@ != "sources"@,
        "timeout"@ != "steps"@,
        "timeout"@ != "sync"@,
        "timeout"@ != "project"@,
        "timeout"@ != "run"@,
        "sources"@ != "steps"@,
        "sources"@ != "sync"@,
        "sources"@ != "project"@,
        "sources"@ != "run"@,
        "steps"@ != "sync"@,
        "steps"@ != "project"@,
        "steps"@ != "run"@,
{
    reveal_strlit("timeout");
    reveal_strlit("sources");
    reveal_strlit("steps");
    reveal_strlit("shell");
    reveal_strlit("sync");
    reveal_strlit("project");
    reveal_strlit("run");
    assert("timeout"@[0] == 't' && "sources"@[0] == 's' && "steps"@[0] == 's' && "shell"@[0] == 's'
        && "sync"@[0] == 's' && "project"@[0] == 'p' && "run"@[0] == 'r');
    assert("sources"@[1] == 'o' && "steps"@[1] == 't' && "shell"@[1] == 'h' && "sync"@[1] == 'y');
}

pub open spec fn function_node(name: Seq<char>, body: Seq<InstructionView>) -> SexpView {
    SexpView::List(
        seq![SexpView::Sym("fn"@), SexpView::Sym(name)] + instruction_nodes(body),
    )
}

pub open spec fn function_nodes(f: Entries<Seq<InstructionView>>) -> Seq<SexpView>
    decreases f.len(),
{
    if f.len() == 0 {
        Seq::empty()
    } else {
        function_nodes(f.drop_last()).push(function_node(f.last().0, f.last().1))
    }
}

proof fn lemma_functions_push(
    nodes: Seq<SexpView>,
    f: Entries<Seq<InstructionView>>,
    node: SexpView,
)
    ensures
        with_functions(nodes.push(node), f) == match with_functions(nodes, f) {
            Ok(g) => with_function(node, g),
            Err(e) => Err(e),
        },
    decreases nodes.len(),
{
    let all = nodes.push(node);
    if nodes.len() == 0 {
        assert(all.skip(1) =~= Seq::<SexpView>::empty());
        match with_function(node, f) {
            Ok(g) => {
                assert(with_functions(all.skip(1), g) == Ok::<
                    Entries<Seq<InstructionView>>,
                    Reason,
                >(g));
            },
            Err(_) => {},
        }
    } else {
        assert(all.skip(1) =~= nodes.skip(1).push(node));
        match with_function(nodes[0], f) {
            Ok(g) => {
                lemma_functions_push(nodes.skip(1), g, node);
            },
            Err(_) => {},
        }
    }
}

proof fn lemma_functions(f: Entries<Seq<InstructionView>>)
    requires
        functions_fit(f),
    ensures
        yields(functions_text(f), flat_all(function_nodes(f))),
        with_functions(function_nodes(f), Seq::empty()) == Ok::<
            Entries<Seq<InstructionView>>,
            Reason,
        >(f),
    decreases f.len(),
{
    if f.len() == 0 {
        lemma_yields_nothing();
        assert(f =~= Seq::<(Seq<char>, Seq<InstructionView>)>::empty());
    } else {
        let init = f.drop_last();
        let (name, body) = f.last();
        assert(f[f.len() - 1] == f.last());
        lemma_ascending_init(f);
        assert(functions_fit(init)) by {
            assert forall|i: int| 0 <= i < init.len() implies is_symbol((#[trigger] init[i]).0)
                && body_fits(init[i].1) by {
                assert(init[i] == f[i]);
            }
        }
        lemma_functions(init);
        lemma_lines(body, 3);
        lemma_entry_words();
        let node = function_node(name, body);
        let none = Seq::<TokenView>::empty();
        reveal_strlit(" ");
        reveal_strlit("(");
        reveal_strlit(")");
        reveal_strlit("fn");
        reveal_strlit("    (fn ");
        reveal_strlit("    ");
        reveal_strlit("\n");
        reveal_strlit("    )\n");
        assert("    (fn "@ =~= "    "@ + "("@ + "fn"@ + " "@);
        lemma_named("    (fn "@, "    "@, "fn"@, name);
        let h = seq![open_token(), sym_token("fn"@), sym_token(name)];
        let b = flat_all(instruction_nodes(body));
        let c = seq![close_token()];
        lemma_yields_blanks("\n"@);
        lemma_yields_blanks("    "@);
        lemma_yields_close();
        lemma_join_closes("    (fn "@ + name, h, "\n"@, none);
        lemma_join("    (fn "@ + name + "\n"@, h + none, lines_text(body, 3), b);
        lemma_join("    "@, none, ")"@, c);
        lemma_join("    "@ + ")"@, none + c, "\n"@, none);
        assert("    "@ + ")"@ + "\n"@ =~= "    )\n"@);
        let text = "    (fn "@ + name + "\n"@ + lines_text(body, 3) + "    )\n"@;
        lemma_join(
            "    (fn "@ + name + "\n"@ + lines_text(body, 3),
            h + none + b,
            "    )\n"@,
            none + c + none,
        );
        lemma_named_flat("fn"@, name, instruction_nodes(body));
        assert(h + none + b + (none + c + none) =~= flat(node));
        lemma_join(functions_text(init), flat_all(function_nodes(init)), text, flat(node));
        lemma_flat_push(function_nodes(init), node);
        lemma_functions_push(function_nodes(init), Seq::empty(), node);
        let items = seq![SexpView::Sym("fn"@), SexpView::Sym(name)] + instruction_nodes(body);
        assert(items.skip(2) =~= instruction_nodes(body));
        assert(items[0] == SexpView::Sym("fn"@) && items[1] == SexpView::Sym(name));
    }
}

pub open spec fn field_node(field: Seq<char>, t: TemplateView) -> SexpView {
    SexpView::List(seq![SexpView::Sym(field), template_node(t)])
}

pub open spec fn sync_node(id: Seq<char>, s: SyncView) -> SexpView {
    SexpView::List(
        seq![SexpView::Sym("sync"@), SexpView::Sym(id)] + seq![
            field_node("url"@, s.url),
            field_node("dir"@, s.dir),
            field_node("branch"@, s.branch),
            field_node("strategy"@, s.strategy),
        ],
    )
}

proof fn lemma_field_flat(field: Seq<char>, t: TemplateView)
    ensures
        flat(field_node(field, t)) == seq![open_token(), sym_token(field)] + flat(template_node(t))
            + seq![close_token()],
{
    lemma_flat_one(SexpView::Sym(field));
    lemma_flat_push(seq![SexpView::Sym(field)], template_node(t));
    assert(seq![SexpView::Sym(field)].push(template_node(t)) =~= seq![
        SexpView::Sym(field),
        template_node(t),
    ]);
    assert(flat(field_node(field, t)) =~= seq![open_token(), sym_token(field)] + flat(
        template_node(t),
    ) + seq![close_token()]);
}

proof fn lemma_sync_text(id: Seq<char>, s: SyncView)
    requires
        is_symbol(id),
        sync_fits(s),
    ensures
        yields(sync_text(id, s), flat(sync_node(id, s))),
{
    lemma_entry_words();
    lemma_sync_literals();
    lemma_template(s.url);
    lemma_template(s.dir);
    lemma_template(s.branch);
    lemma_template(s.strategy);
    let x0 = "  (sync "@ + id;
    let h = seq![open_token(), sym_token("sync"@), sym_token(id)];
    assert(opens(x0, h)) by {
        reveal_strlit(" ");
        reveal_strlit("  ");
        reveal_strlit("(");
        reveal_strlit("sync");
        reveal_strlit("  (sync ");
        assert("  (sync "@ =~= "  "@ + "("@ + "sync"@ + " "@);
        lemma_named("  (sync "@, "  "@, "sync"@, id);
    }
    let (u, d, b, g) = (
        flat(template_node(s.url)),
        flat(template_node(s.dir)),
        flat(template_node(s.branch)),
        flat(template_node(s.strategy)),
    );
    let ou = seq![open_token(), sym_token("url"@)];
    let od = seq![close_token(), open_token(), sym_token("dir"@)];
    let ob = seq![close_token(), open_token(), sym_token("branch"@)];
    let og = seq![close_token(), open_token(), sym_token("strategy"@)];
    let cc = seq![close_token(), close_token()];
    lemma_join_closes(x0, h, " (url "@, ou);
    let x1 = x0 + " (url "@;
    lemma_join(x1, h + ou, template_text(s.url), u);
    let x2 = x1 + template_text(s.url);
    lemma_join(x2, h + ou + u, ") (dir "@, od);
    let x3 = x2 + ") (dir "@;
    lemma_join(x3, h + ou + u + od, template_text(s.dir), d);
    let x4 = x3 + template_text(s.dir);
    lemma_join(x4, h + ou + u + od + d, ") (branch "@, ob);
    let x5 = x4 + ") (branch "@;
    lemma_join(x5, h + ou + u + od + d + ob, template_text(s.branch), b);
    let x6 = x5 + template_text(s.branch);
    lemma_join(x6, h + ou + u + od + d + ob + b, ") (strategy "@, og);
    let x7 = x6 + ") (strategy "@;
    lemma_join(x7, h + ou + u + od + d + ob + b + og, template_text(s.strategy), g);
    let x8 = x7 + template_text(s.strategy);
    let t8 = h + ou + u + od + d + ob + b + og + g;
    lemma_join(x8, t8, "))\n"@, cc);
    assert(x8 + "))\n"@ == sync_text(id, s));
    let n1 = field_node("url"@, s.url);
    let n2 = field_node("dir"@, s.dir);
    let n3 = field_node("branch"@, s.branch);
    let n4 = field_node("strategy"@, s.strategy);
    lemma_field_flat("url"@, s.url);
    lemma_field_flat("dir"@, s.dir);
    lemma_field_flat("branch"@, s.branch);
    lemma_field_flat("strategy"@, s.strategy);
    lemma_flat_one(n1);
    lemma_flat_push(seq![n1], n2);
    lemma_flat_push(seq![n1].push(n2), n3);
    lemma_flat_push(seq![n1].push(n2).push(n3), n4);
    let fields = seq![n1].push(n2).push(n3).push(n4);
    assert(fields =~= seq![n1, n2, n3, n4]);
    lemma_named_flat("sync"@, id, fields);
    lemma_sync_tokens(h, sym_token("url"@), u, sym_token("dir"@), d, sym_token("branch"@), b,
        sym_token("strategy"@), g);
}

proof fn lemma_sync(id: Seq<char>, s: SyncView)
    requires
        is_symbol(id),
        sync_fits(s),
    ensures
        yields(sync_text(id, s), flat(sync_node(id, s))),
        forall|p: IrView|
            #![trigger with_entry(sync_node(id, s), p)]
            with_entry(sync_node(id, s), p) == Ok::<IrView, Reason>(
                IrView { repositories: insert_entry(p.repositories, id, s), ..p },
            ),
{
    lemma_sync_text(id, s);
    lemma_entry_words();
    lemma_more_words();
    let n1 = field_node("url"@, s.url);
    let n2 = field_node("dir"@, s.dir);
    let n3 = field_node("branch"@, s.branch);
    let n4 = field_node("strategy"@, s.strategy);
    let fields = seq![n1, n2, n3, n4];
    let items = seq![SexpView::Sym("sync"@), SexpView::Sym(id)] + fields;
    assert(items.skip(2) =~= fields);
    assert(items[0] == SexpView::Sym("sync"@) && items[1] == SexpView::Sym(id));
    lemma_template(s.url);
    lemma_template(s.dir);
    lemma_template(s.branch);
    lemma_template(s.strategy);
    let e = SyncView::empty();
    let e1 = SyncView { url: s.url, ..e };
    let e2 = SyncView { dir: s.dir, ..e1 };
    let e3 = SyncView { branch: s.branch, ..e2 };
    assert(with_sync_field(n1, e) == Ok::<SyncView, Reason>(e1));
    assert(with_sync_field(n2, e1) == Ok::<SyncView, Reason>(e2));
    assert(with_sync_field(n3, e2) == Ok::<SyncView, Reason>(e3));
    assert(with_sync_field(n4, e3) == Ok::<SyncView, Reason>(s));
    assert(fields.skip(1) =~= seq![n2, n3, n4]);
    assert(seq![n2, n3, n4].skip(1) =~= seq![n3, n4]);
    assert(seq![n3, n4].skip(1) =~= seq![n4]);
    assert(seq![n4].skip(1) =~= Seq::<SexpView>::empty());
    assert(with_sync_fields(Seq::empty(), s) == Ok::<SyncView, Reason>(s));
    assert(with_sync_fields(seq![n4], e3) == Ok::<SyncView, Reason>(s));
    assert(with_sync_fields(seq![n3, n4], e2) == Ok::<SyncView, Reason>(s));
    assert(with_sync_fields(seq![n2, n3, n4], e1) == Ok::<SyncView, Reason>(s));
    assert(with_sync_fields(fields, e) == Ok::<SyncView, Reason>(s));
}

pub open spec fn project_node(id: Seq<char>, p: ProjectView) -> SexpView {
    SexpView::List(
        seq![SexpView::Sym("project"@), SexpView::Sym(id)] + function_nodes(p.functions),
    )
}

proof fn lemma_project(id: Seq<char>, x: ProjectView)
    requires
        is_symbol(id),
        functions_fit(x.functions),
    ensures
        yields(project_text(id, x), flat(project_node(id, x))),
        forall|p: IrView|
            #![trigger with_entry(project_node(id, x), p)]
            with_entry(project_node(id, x), p) == Ok::<IrView, Reason>(
                IrView { projects: insert_entry(p.projects, id, x), ..p },
            ),
{
    lemma_entry_words();
    lemma_more_words();
    lemma_functions(x.functions);
    reveal_strlit(" ");
    reveal_strlit("  ");
    reveal_strlit("(");
    reveal_strlit(")");
    reveal_strlit("\n");
    reveal_strlit("project");
    reveal_strlit("  (project ");
    reveal_strlit("  )\n");
    let none = Seq::<TokenView>::empty();
    let c = seq![close_token()];
    let h = seq![open_token(), sym_token("project"@), sym_token(id)];
    let f = flat_all(function_nodes(x.functions));
    assert("  (project "@ =~= "  "@ + "("@ + "project"@ + " "@);
    lemma_named("  (project "@, "  "@, "project"@, id);
    lemma_yields_blanks("\n"@);
    lemma_yields_blanks("  "@);
    lemma_yields_close();
    lemma_join_closes("  (project "@ + id, h, "\n"@, none);
    lemma_join("  (project "@ + id + "\n"@, h + none, functions_text(x.functions), f);
    lemma_join("  "@, none, ")"@, c);
    lemma_join("  "@ + ")"@, none + c, "\n"@, none);
    assert("  "@ + ")"@ + "\n"@ =~= "  )\n"@);
    lemma_join(
        "  (project "@ + id + "\n"@ + functions_text(x.functions),
        h + none + f,
        "  )\n"@,
        none + c + none,
    );
    lemma_named_flat("project"@, id, function_nodes(x.functions));
    assert(h + none + f + (none + c + none) =~= flat(project_node(id, x)));
    let items = seq![SexpView::Sym("project"@), SexpView::Sym(id)] + function_nodes(x.functions);
    assert(items.skip(2) =~= function_nodes(x.functions));
    assert(items[0] == SexpView::Sym("project"@) && items[1] == SexpView::Sym(id));
}

proof fn lemma_chain(id: Seq<char>, stages: Seq<Seq<CallView>>)
    requires
        is_symbol(id),
        stages_fit(stages),
    ensures
        yields(run_text(id, stages), flat(run_node(id, stages))),
        forall|p: IrView|
            #![trigger with_entry(run_node(id, stages), p)]
            with_entry(run_node(id, stages), p) == Ok::<IrView, Reason>(
                IrView { execution_chains: insert_entry(p.execution_chains, id, stages), ..p },
            ),
{
    lemma_run_text(id, stages);
    lemma_stages(stages);
    lemma_entry_words();
    lemma_more_words();
    let items = seq![SexpView::Sym("run"@), SexpView::Sym(id)] + stage_nodes(stages);
    assert(items.skip(2) =~= stage_nodes(stages));
    assert(items[0] == SexpView::Sym("run"@) && items[1] == SexpView::Sym(id));
}

pub open spec fn steps_node(id: Seq<char>, body: Seq<InstructionView>) -> SexpView {
    SexpView::List(seq![SexpView::Sym("steps"@), SexpView::Sym(id)] + instruction_nodes(body))
}

proof fn lemma_steps(id: Seq<char>, body: Seq<InstructionView>)
    requires
        is_symbol(id),
        body_fits(body),
    ensures
        yields(steps_text(id, body), flat(steps_node(id, body))),
        forall|p: IrView|
            #![trigger with_entry(steps_node(id, body), p)]
            with_entry(steps_node(id, body), p) == Ok::<IrView, Reason>(
                IrView { runs: insert_entry(p.runs, id, body), ..p },
            ),
{
    lemma_entry_words();
    lemma_more_words();
    lemma_lines(body, 2);
    reveal_strlit(" ");
    reveal_strlit("  ");
    reveal_strlit("(");
    reveal_strlit(")");
    reveal_strlit("\n");
    reveal_strlit("steps");
    reveal_strlit("  (steps ");
    reveal_strlit("  )\n");
    let none = Seq::<TokenView>::empty();
    let c = seq![close_token()];
    let h = seq![open_token(), sym_token("steps"@), sym_token(id)];
    let f = flat_all(instruction_nodes(body));
    assert("  (steps "@ =~= "  "@ + "("@ + "steps"@ + " "@);
    lemma_named("  (steps "@, "  "@, "steps"@, id);
    lemma_yields_blanks("\n"@);
    lemma_yields_blanks("  "@);
    lemma_yields_close();
    lemma_join_closes("  (steps "@ + id, h, "\n"@, none);
    lemma_join("  (steps "@ + id + "\n"@, h + none, lines_text(body, 2), f);
    lemma_join("  "@, none, ")"@, c);
    lemma_join("  "@ + ")"@, none + c, "\n"@, none);
    assert("  "@ + ")"@ + "\n"@ =~= "  )\n"@);
    lemma_join(
        "  (steps "@ + id + "\n"@ + lines_text(body, 2),
        h + none + f,
        "  )\n"@,
        none + c + none,
    );
    lemma_named_flat("steps"@, id, instruction_nodes(body));
    assert(h + none + f + (none + c + none) =~= flat(steps_node(id, body)));
    let items = seq![SexpView::Sym("steps"@), SexpView::Sym(id)] + instruction_nodes(body);
    assert(items.skip(2) =~= instruction_nodes(body));
    assert(items[0] == SexpView::Sym("steps"@) && items[1] == SexpView::Sym(id));
}

// ── Sources ──────────────────────────────────────────────────────────────────

pub open spec fn source_node(name: Seq<char>, text: Seq<char>) -> SexpView {
    SexpView::List(seq![SexpView::Str(name), SexpView::Str(text)])
}

pub open spec fn source_nodes(s: Entries<Seq<char>>) -> Seq<SexpView>
    decreases s.len(),
{
    if s.len() == 0 {
        Seq::empty()
    } else {
        source_nodes(s.drop_last()).push(source_node(s.last().0, s.last().1))
    }
}

proof fn lemma_sources_push(nodes: Seq<SexpView>, s: Entries<Seq<char>>, node: SexpView)
    ensures
        with_sources(nodes.push(node), s) == match with_sources(nodes, s) {
            Ok(g) => with_source(node, g),
            Err(e) => Err(e),
        },
    decreases nodes.len(),
{
    let all = nodes.push(node);
    if nodes.len() == 0 {
        assert(all.skip(1) =~= Seq::<SexpView>::empty());
        match with_source(node, s) {
            Ok(g) => {
                assert(with_sources(all.skip(1), g) == Ok::<Entries<Seq<char>>, Reason>(g));
            },
            Err(_) => {},
        }
    } else {
        assert(all.skip(1) =~= nodes.skip(1).push(node));
        match with_source(nodes[0], s) {
            Ok(g) => {
                lemma_sources_push(nodes.skip(1), g, node);
            },
            Err(_) => {},
        }
    }
}

proof fn lemma_source(name: Seq<char>, text: Seq<char>)
    ensures
        yields(" ("@ + quoted(name) + " "@ + quoted(text) + ")"@, flat(source_node(name, text))),
{
    reveal_strlit(" ");
    reveal_strlit("(");
    reveal_strlit(" (");
    assert(" ("@ =~= " "@ + "("@);
    let none = Seq::<TokenView>::empty();
    let o = seq![open_token()];
    let c = seq![close_token()];
    let (n1, n2) = (SexpView::Str(name), SexpView::Str(text));
    lemma_yields_blanks(" "@);
    lemma_yields_open();
    lemma_join(" "@, none, "("@, o);
    lemma_yields_quoted(name);
    lemma_join(" ("@, none + o, quoted(name), flat(n1));
    lemma_yields_quoted(text);
    lemma_join_gap(" ("@ + quoted(name), none + o + flat(n1), " "@, quoted(text), flat(n2));
    lemma_yields_close();
    lemma_join(
        " ("@ + quoted(name) + " "@ + quoted(text),
        none + o + flat(n1) + flat(n2),
        ")"@,
        c,
    );
    lemma_flat_one(n1);
    lemma_flat_push(seq![n1], n2);
    assert(seq![n1].push(n2) =~= seq![n1, n2]);
    assert(none + o + flat(n1) + flat(n2) + c =~= flat(source_node(name, text)));
}

proof fn lemma_source_items(s: Entries<Seq<char>>)
    requires
        ascending(s),
    ensures
        yields(source_items_text(s), flat_all(source_nodes(s))),
        with_sources(source_nodes(s), Seq::empty()) == Ok::<Entries<Seq<char>>, Reason>(s),
        separate(source_items_text(s)),
    decreases s.len(),
{
    if s.len() == 0 {
        lemma_yields_nothing();
        assert(s =~= Seq::<(Seq<char>, Seq<char>)>::empty());
    } else {
        let init = s.drop_last();
        let (name, text) = s.last();
        assert(s[s.len() - 1] == s.last());
        lemma_ascending_init(s);
        lemma_source_items(init);
        lemma_source(name, text);
        let node = source_node(name, text);
        let x = " ("@ + quoted(name) + " "@ + quoted(text) + ")"@;
        reveal_strlit(" (");
        assert(x[0] == ' ');
        lemma_join(source_items_text(init), flat_all(source_nodes(init)), x, flat(node));
        lemma_flat_push(source_nodes(init), node);
        lemma_sources_push(source_nodes(init), Seq::empty(), node);
        let items = seq![SexpView::Str(name), SexpView::Str(text)];
        assert(items[0] == SexpView::Str(name) && items[1] == SexpView::Str(text));
    }
}

// ── The whole ────────────────────────────────────────────────────────────────

proof fn lemma_entries_push(nodes: Seq<SexpView>, p: IrView, node: SexpView)
    ensures
        with_entries(nodes.push(node), p) == match with_entries(nodes, p) {
            Ok(q) => with_entry(node, q),
            Err(e) => Err(e),
        },
    decreases nodes.len(),
{
    let all = nodes.push(node);
    if nodes.len() == 0 {
        assert(all.skip(1) =~= Seq::<SexpView>::empty());
        match with_entry(node, p) {
            Ok(q) => {
                assert(with_entries(all.skip(1), q) == Ok::<IrView, Reason>(q));
            },
            Err(_) => {},
        }
    } else {
        assert(all.skip(1) =~= nodes.skip(1).push(node));
        match with_entry(nodes[0], p) {
            Ok(q) => {
                lemma_entries_push(nodes.skip(1), q, node);
            },
            Err(_) => {},
        }
    }
}

proof fn lemma_repositories(nodes: Seq<SexpView>, text: Seq<char>, p: IrView, s: Entries<SyncView>) -> (r: Seq<
    SexpView,
>)
    requires
        yields(text, flat_all(nodes)),
        with_entries(nodes, IrView::empty()) == Ok::<IrView, Reason>(p),
        p.repositories == Seq::<(Seq<char>, SyncView)>::empty(),
        ascending(s),
        forall|i: int| 0 <= i < s.len() ==> is_symbol((#[trigger] s[i]).0) && sync_fits(s[i].1),
    ensures
        yields(text + repositories_text(s), flat_all(r)),
        with_entries(r, IrView::empty()) == Ok::<IrView, Reason>(IrView { repositories: s, ..p }),
    decreases s.len(),
{
    if s.len() == 0 {
        assert(text + repositories_text(s) =~= text);
        assert(s =~= Seq::<(Seq<char>, SyncView)>::empty());
        nodes
    } else {
        let init = s.drop_last();
        let last = s.last();
        assert(last == s[s.len() - 1]);
        lemma_ascending_init(s);
        assert forall|i: int| 0 <= i < init.len() implies is_symbol((#[trigger] init[i]).0)
            && sync_fits(init[i].1) by {
            assert(init[i] == s[i]);
        }
        let done = lemma_repositories(nodes, text, p, init);
        let node = sync_node(last.0, last.1);
        lemma_sync(last.0, last.1);
        lemma_join(text + repositories_text(init), flat_all(done), sync_text(last.0, last.1), flat(node));
        lemma_flat_push(done, node);
        lemma_entries_push(done, IrView::empty(), node);
        assert(text + repositories_text(init) + sync_text(last.0, last.1) =~= text + repositories_text(s));
        done.push(node)
    }
}

proof fn lemma_projects(nodes: Seq<SexpView>, text: Seq<char>, p: IrView, s: Entries<ProjectView>) -> (r: Seq<
    SexpView,
>)
    requires
        yields(text, flat_all(nodes)),
        with_entries(nodes, IrView::empty()) == Ok::<IrView, Reason>(p),
        p.projects == Seq::<(Seq<char>, ProjectView)>::empty(),
        ascending(s),
        forall|i: int| 0 <= i < s.len() ==> is_symbol((#[trigger] s[i]).0) && functions_fit(s[i].1.functions),
    ensures
        yields(text + projects_text(s), flat_all(r)),
        with_entries(r, IrView::empty()) == Ok::<IrView, Reason>(IrView { projects: s, ..p }),
    decreases s.len(),
{
    if s.len() == 0 {
        assert(text + projects_text(s) =~= text);
        assert(s =~= Seq::<(Seq<char>, ProjectView)>::empty());
        nodes
    } else {
        let init = s.drop_last();
        let last = s.last();
        assert(last == s[s.len() - 1]);
        lemma_ascending_init(s);
        assert forall|i: int| 0 <= i < init.len() implies is_symbol((#[trigger] init[i]).0)
            && functions_fit(init[i].1.functions) by {
            assert(init[i] == s[i]);
        }
        let done = lemma_projects(nodes, text, p, init);
        let node = project_node(last.0, last.1);
        lemma_project(last.0, last.1);
        lemma_join(text + projects_text(init), flat_all(done), project_text(last.0, last.1), flat(node));
        lemma_flat_push(done, node);
        lemma_entries_push(done, IrView::empty(), node);
        assert(text + projects_text(init) + project_text(last.0, last.1) =~= text + projects_text(s));
        done.push(node)
    }
}

proof fn lemma_chains(nodes: Seq<SexpView>, text: Seq<char>, p: IrView, s: Entries<Seq<Seq<CallView>>>) -> (r: Seq<
    SexpView,
>)
    requires
        yields(text, flat_all(nodes)),
        with_entries(nodes, IrView::empty()) == Ok::<IrView, Reason>(p),
        p.execution_chains == Seq::<(Seq<char>, Seq<Seq<CallView>>)>::empty(),
        ascending(s),
        forall|i: int| 0 <= i < s.len() ==> is_symbol((#[trigger] s[i]).0) && stages_fit(s[i].1),
    ensures
        yields(text + chains_text(s), flat_all(r)),
        with_entries(r, IrView::empty()) == Ok::<IrView, Reason>(IrView { execution_chains: s, ..p }),
    decreases s.len(),
{
    if s.len() == 0 {
        assert(text + chains_text(s) =~= text);
        assert(s =~= Seq::<(Seq<char>, Seq<Seq<CallView>>)>::empty());
        nodes
    } else {
        let init = s.drop_last();
        let last = s.last();
        assert(last == s[s.len() - 1]);
        lemma_ascending_init(s);
        assert forall|i: int| 0 <= i < init.len() implies is_symbol((#[trigger] init[i]).0)
            && stages_fit(init[i].1) by {
            assert(init[i] == s[i]);
        }
        let done = lemma_chains(nodes, text, p, init);
        let node = run_node(last.0, last.1);
        lemma_chain(last.0, last.1);
        lemma_join(text + chains_text(init), flat_all(done), run_text(last.0, last.1), flat(node));
        lemma_flat_push(done, node);
        lemma_entries_push(done, IrView::empty(), node);
        assert(text + chains_text(init) + run_text(last.0, last.1) =~= text + chains_text(s));
        done.push(node)
    }
}

proof fn lemma_runs(nodes: Seq<SexpView>, text: Seq<char>, p: IrView, s: Entries<Seq<InstructionView>>) -> (r: Seq<
    SexpView,
>)
    requires
        yields(text, flat_all(nodes)),
        with_entries(nodes, IrView::empty()) == Ok::<IrView, Reason>(p),
        p.runs == Seq::<(Seq<char>, Seq<InstructionView>)>::empty(),
        ascending(s),
        forall|i: int| 0 <= i < s.len() ==> is_symbol((#[trigger] s[i]).0) && body_fits(s[i].1),
    ensures
        yields(text + runs_text(s), flat_all(r)),
        with_entries(r, IrView::empty()) == Ok::<IrView, Reason>(IrView { runs: s, ..p }),
    decreases s.len(),
{
    if s.len() == 0 {
        assert(text + runs_text(s) =~= text);
        assert(s =~= Seq::<(Seq<char>, Seq<InstructionView>)>::empty());
        nodes
    } else {
        let init = s.drop_last();
        let last = s.last();
        assert(last == s[s.len() - 1]);
        lemma_ascending_init(s);
        assert forall|i: int| 0 <= i < init.len() implies is_symbol((#[trigger] init[i]).0)
            && body_fits(init[i].1) by {
            assert(init[i] == s[i]);
        }
        let done = lemma_runs(nodes, text, p, init);
        let node = steps_node(last.0, last.1);
        lemma_steps(last.0, last.1);
        lemma_join(text + runs_text(init), flat_all(done), steps_text(last.0, last.1), flat(node));
        lemma_flat_push(done, node);
        lemma_entries_push(done, IrView::empty(), node);
        assert(text + runs_text(init) + steps_text(last.0, last.1) =~= text + runs_text(s));
        done.push(node)
    }
}

proof fn lemma_sources(nodes: Seq<SexpView>, text: Seq<char>, p: IrView, s: Entries<Seq<char>>) -> (r:
    Seq<SexpView>)
    requires
        yields(text, flat_all(nodes)),
        with_entries(nodes, IrView::empty()) == Ok::<IrView, Reason>(p),
        p.sources == Seq::<(Seq<char>, Seq<char>)>::empty(),
        ascending(s),
    ensures
        yields(text + sources_text(s), flat_all(r)),
        with_entries(r, IrView::empty()) == Ok::<IrView, Reason>(IrView { sources: s, ..p }),
{
    if s.len() == 0 {
        assert(text + sources_text(s) =~= text);
        assert(s =~= Seq::<(Seq<char>, Seq<char>)>::empty());
        nodes
    } else {
        lemma_source_items(s);
        lemma_entry_words();
        lemma_more_words();
        reveal_strlit("  ");
        reveal_strlit("(");
        reveal_strlit(")");
        reveal_strlit("\n");
        reveal_strlit("sources");
        reveal_strlit("  (sources");
        reveal_strlit(")\n");
        assert("  (sources"@ =~= "  "@ + "("@ + "sources"@);
        lemma_head("  "@, "sources"@);
        lemma_list("  (sources"@, "sources"@, source_items_text(s), source_nodes(s));
        let node = SexpView::List(seq![SexpView::Sym("sources"@)] + source_nodes(s));
        let none = Seq::<TokenView>::empty();
        lemma_yields_blanks("\n"@);
        lemma_join("  (sources"@ + source_items_text(s) + ")"@, flat(node), "\n"@, none);
        assert(flat(node) + none =~= flat(node));
        assert("  (sources"@ + source_items_text(s) + ")"@ + "\n"@ =~= sources_text(s));
        lemma_join(text, flat_all(nodes), sources_text(s), flat(node));
        lemma_flat_push(nodes, node);
        lemma_entries_push(nodes, IrView::empty(), node);
        let items = seq![SexpView::Sym("sources"@)] + source_nodes(s);
        assert(items.skip(1) =~= source_nodes(s));
        assert(items[0] == SexpView::Sym("sources"@));
        nodes.push(node)
    }
}

proof fn lemma_settings(p: IrView) -> (r: Seq<SexpView>)
    requires
        p.timeout <= u64::MAX,
    ensures
        yields(settings_text(p), flat_all(r)),
        with_entries(r, IrView::empty()) == Ok::<IrView, Reason>(
            IrView { shell: p.shell, timeout: p.timeout, ..IrView::empty() },
        ),
{
    lemma_entry_words();
    lemma_more_words();
    reveal_strlit(" ");
    reveal_strlit("  ");
    reveal_strlit("(");
    reveal_strlit(")");
    reveal_strlit("\n");
    reveal_strlit("timeout");
    reveal_strlit("shell");
    reveal_strlit("  (timeout ");
    reveal_strlit("  (shell ");
    reveal_strlit(")\n");
    let none = Seq::<TokenView>::empty();
    let c = seq![close_token()];
    lemma_yields_close();
    lemma_yields_blanks("\n"@);
    lemma_join(")"@, c, "\n"@, none);
    assert(c + none =~= c);
    assert(")"@ + "\n"@ =~= ")\n"@);
    let n = decimal(p.timeout);
    lemma_decimal_symbol(p.timeout);
    law_decimal_read_back(p.timeout, u64::MAX as nat);
    assert("  (timeout "@ =~= "  "@ + "("@ + "timeout"@ + " "@);
    lemma_named("  (timeout "@, "  "@, "timeout"@, n);
    let h = seq![open_token(), sym_token("timeout"@), sym_token(n)];
    lemma_join_closes("  (timeout "@ + n, h, ")\n"@, c);
    lemma_named_flat("timeout"@, n, Seq::empty());
    let tn = SexpView::List(
        seq![SexpView::Sym("timeout"@), SexpView::Sym(n)] + Seq::<SexpView>::empty(),
    );
    assert(h + c =~= flat(tn));
    assert("  (shell "@ =~= "  "@ + "("@ + "shell"@ + " "@);
    lemma_head_blank("  "@, "shell"@, " "@);
    lemma_yields_quoted(p.shell);
    lemma_flat_one(SexpView::Str(p.shell));
    lemma_list("  (shell "@, "shell"@, quoted(p.shell), seq![SexpView::Str(p.shell)]);
    let sn = SexpView::List(seq![SexpView::Sym("shell"@)] + seq![SexpView::Str(p.shell)]);
    lemma_join("  (shell "@ + quoted(p.shell) + ")"@, flat(sn), "\n"@, none);
    assert(flat(sn) + none =~= flat(sn));
    assert("  (shell "@ + quoted(p.shell) + ")"@ + "\n"@ =~= "  (shell "@ + quoted(p.shell)
        + ")\n"@);
    lemma_join(
        "  (shell "@ + quoted(p.shell) + ")\n"@,
        flat(sn),
        "  (timeout "@ + n + ")\n"@,
        flat(tn),
    );
    lemma_flat_one(sn);
    lemma_flat_push(seq![sn], tn);
    let r = seq![sn].push(tn);
    let e = IrView::empty();
    let e1 = IrView { shell: p.shell, ..e };
    assert(with_entry(sn, e) == Ok::<IrView, Reason>(e1)) by {
        let si = seq![SexpView::Sym("shell"@)] + seq![SexpView::Str(p.shell)];
        assert(si[0] == SexpView::Sym("shell"@) && si[1] == SexpView::Str(p.shell));
    }
    assert(with_entry(tn, e1) == Ok::<IrView, Reason>(IrView { timeout: p.timeout, ..e1 })) by {
        let ti = seq![SexpView::Sym("timeout"@), SexpView::Sym(n)] + Seq::<SexpView>::empty();
        assert(ti[0] == SexpView::Sym("timeout"@) && ti[1] == SexpView::Sym(n));
    }
    lemma_entries_push(Seq::empty(), e, sn);
    assert(Seq::<SexpView>::empty().push(sn) =~= seq![sn]);
    lemma_entries_push(seq![sn], e, tn);
    r
}

/// What was written as a kirufile is read back as itself, whatever its texts
/// hold. Names and keys have to be symbols: they are written without quotes.
pub proof fn law_kirufile_read_back(p: IrView)
    requires
        ir_fits(p),
    ensures
        ir_of(ir_text(p)) == Ok::<IrView, Reason>(p),
{
    let x0 = settings_text(p);
    let n0 = lemma_settings(p);
    let p0 = IrView { shell: p.shell, timeout: p.timeout, ..IrView::empty() };
    let n1 = lemma_sources(n0, x0, p0, p.sources);
    let x1 = x0 + sources_text(p.sources);
    let p1 = IrView { sources: p.sources, ..p0 };
    let n2 = lemma_repositories(n1, x1, p1, p.repositories);
    let x2 = x1 + repositories_text(p.repositories);
    let p2 = IrView { repositories: p.repositories, ..p1 };
    let n3 = lemma_projects(n2, x2, p2, p.projects);
    let x3 = x2 + projects_text(p.projects);
    let p3 = IrView { projects: p.projects, ..p2 };
    let n4 = lemma_chains(n3, x3, p3, p.execution_chains);
    let x4 = x3 + chains_text(p.execution_chains);
    let p4 = IrView { execution_chains: p.execution_chains, ..p3 };
    let n5 = lemma_runs(n4, x4, p4, p.runs);
    let x5 = x4 + runs_text(p.runs);
    lemma_root(x5, n5, p);
    lemma_six_joined(
        "(kirufile\n"@,
        settings_text(p),
        sources_text(p.sources),
        repositories_text(p.repositories),
        projects_text(p.projects),
        chains_text(p.execution_chains),
        runs_text(p.runs),
    );
}

proof fn lemma_six_joined(
    k: Seq<char>,
    a: Seq<char>,
    b: Seq<char>,
    c: Seq<char>,
    d: Seq<char>,
    e: Seq<char>,
    f: Seq<char>,
)
    ensures
        k + (a + b + c + d + e + f) == k + a + b + c + d + e + f,
{
    assert(k + (a + b) =~= k + a + b);
    assert(k + (a + b + c) =~= k + (a + b) + c);
    assert(k + (a + b + c + d) =~= k + (a + b + c) + d);
    assert(k + (a + b + c + d + e) =~= k + (a + b + c + d) + e);
    assert(k + (a + b + c + d + e + f) =~= k + (a + b + c + d + e) + f);
}

/// The entries, closed to a kirufile.
proof fn lemma_root(x: Seq<char>, nodes: Seq<SexpView>, p: IrView)
    requires
        yields(x, flat_all(nodes)),
        with_entries(nodes, IrView::empty()) == Ok::<IrView, Reason>(p),
    ensures
        ir_of("(kirufile\n"@ + x + ")\n"@) == Ok::<IrView, Reason>(p),
{
    lemma_entry_words();
    reveal_strlit("(");
    reveal_strlit(")");
    reveal_strlit("\n");
    reveal_strlit("kirufile");
    reveal_strlit("(kirufile\n");
    reveal_strlit(")\n");
    lemma_head_blank(Seq::empty(), "kirufile"@, "\n"@);
    assert("(kirufile\n"@ =~= Seq::<char>::empty() + "("@ + "kirufile"@ + "\n"@);
    lemma_list("(kirufile\n"@, "kirufile"@, x, nodes);
    let root = SexpView::List(seq![SexpView::Sym("kirufile"@)] + nodes);
    let none = Seq::<TokenView>::empty();
    lemma_yields_blanks("\n"@);
    lemma_join("(kirufile\n"@ + x + ")"@, flat(root), "\n"@, none);
    let text = "(kirufile\n"@ + x + ")"@ + "\n"@;
    assert(text =~= "(kirufile\n"@ + x + ")\n"@);
    assert(tokens(text) == flat(root) + none) by {
        reveal(yields);
        assert(text + Seq::<char>::empty() =~= text);
        assert(tokens(Seq::<char>::empty()) =~= none);
        assert(flat(root) + none + none =~= flat(root) + none);
    }
    assert(flat(root) + none =~= flat(root));
    lemma_node_read_back(root, none);
    let items = seq![SexpView::Sym("kirufile"@)] + nodes;
    assert(items.skip(1) =~= nodes);
    assert(items[0] == SexpView::Sym("kirufile"@));
}

} // verus!
