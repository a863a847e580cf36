//! What is written as a kirufile is read back as the plan it was written from.
use vstd::prelude::*;
use crate::layout::{
    close_token, flat, flat_all, is_symbol, lemma_flat_join, lemma_flat_one, lemma_flat_push,
    lemma_head, lemma_head_blank, lemma_join, lemma_join_both_open, lemma_join_closes,
    lemma_join_gap, lemma_join_opens, lemma_list, lemma_named, lemma_named_flat, lemma_next_field,
    lemma_node_read_back, lemma_opens_symbol, lemma_sync_tokens, lemma_yields_blanks,
    lemma_yields_close, lemma_yields_nothing, lemma_yields_open, lemma_yields_opens,
    lemma_yields_quoted, open_token, opens, separate, sym_token, yields,
};
use crate::names::{ascending, insert_entry, lemma_ascending_init, Entries};
use crate::plan::read::{
    arm_of, arms_of, call_of, calls_of, instruction_of, instructions_of, pair_of, pairs_of,
    part_of, parts_of, plan_of, stage_of, stages_of, template_of, with_entries, with_entry,
    with_function, with_functions, with_sync_field, with_sync_fields,
};
use crate::plan::write::{
    arms_text, calls_text, compact_parts, compact_text, functions_text, inline_body, inline_text,
    line_text, lines_text, pad, pairs_text, parts_text, pattern_text, plan_text, project_text,
    projects_text, run_text, runs_text, stages_text, sync_text, syncs_text, template_text,
};
use crate::plan::{
    ArmPatternView, ArmView, CallView, EnvPairView, InstructionView, PartView, PlanView,
    ProjectView, SyncView, TemplateView,
};
use crate::sexp::{quoted, tokens, Reason, SexpView, TokenView};

verus! {

/// The node of a template.
pub open spec fn template_node(t: TemplateView) -> SexpView
    decreases t,
{
    SexpView::List(seq![SexpView::Sym("t"@)] + part_nodes(t.parts))
}

pub open spec fn part_nodes(parts: Seq<PartView>) -> Seq<SexpView>
    decreases parts,
{
    if parts.len() == 0 {
        Seq::empty()
    } else {
        part_nodes(parts.drop_last()).push(
            match parts.last() {
                PartView::Lit(s) => SexpView::List(seq![SexpView::Sym("lit"@), SexpView::Str(s)]),
                PartView::Cmd(inner) => SexpView::List(
                    seq![SexpView::Sym("cmd"@), template_node(inner)],
                ),
            },
        )
    }
}

/// The words of the format are symbols.
proof fn lemma_words()
    ensures
        is_symbol("t"@),
        is_symbol("lit"@),
        is_symbol("cmd"@),
        "lit"@ != "cmd"@,
{
    reveal_strlit("t");
    reveal_strlit("lit");
    reveal_strlit("cmd");
    assert("lit"@[0] != "cmd"@[0]);
}

proof fn lemma_parts_push(nodes: Seq<SexpView>, parts: Seq<PartView>, node: SexpView, part: PartView)
    requires
        parts_of(nodes) == Ok::<Seq<PartView>, Reason>(parts),
        part_of(node) == Ok::<PartView, Reason>(part),
    ensures
        parts_of(nodes.push(node)) == Ok::<Seq<PartView>, Reason>(parts.push(part)),
    decreases nodes.len(),
{
    let all = nodes.push(node);
    if nodes.len() == 0 {
        assert(all.skip(1) =~= Seq::<SexpView>::empty());
        assert(parts_of(all.skip(1)) == Ok::<Seq<PartView>, Reason>(Seq::empty()));
        assert(seq![part] + Seq::<PartView>::empty() =~= parts.push(part));
    } else {
        assert(all.skip(1) =~= nodes.skip(1).push(node));
        let first = part_of(nodes[0])->Ok_0;
        let rest = parts_of(nodes.skip(1))->Ok_0;
        lemma_parts_push(nodes.skip(1), rest, node, part);
        assert(seq![first] + rest.push(part) =~= parts.push(part));
    }
}

proof fn lemma_lit(s: Seq<char>)
    ensures
        yields(
            " (lit "@ + quoted(s) + ")"@,
            flat(SexpView::List(seq![SexpView::Sym("lit"@), SexpView::Str(s)])),
        ),
{
    lemma_words();
    reveal_strlit(" ");
    reveal_strlit("(");
    reveal_strlit("lit");
    reveal_strlit(" (lit ");
    lemma_head_blank(" "@, "lit"@, " "@);
    assert(" (lit "@ =~= " "@ + "("@ + "lit"@ + " "@);
    lemma_yields_quoted(s);
    lemma_flat_one(SexpView::Str(s));
    lemma_list(" (lit "@, "lit"@, quoted(s), seq![SexpView::Str(s)]);
    assert(seq![SexpView::Sym("lit"@)] + seq![SexpView::Str(s)] =~= seq![
        SexpView::Sym("lit"@),
        SexpView::Str(s),
    ]);
}

proof fn lemma_cmd(text: Seq<char>, node: SexpView)
    requires
        yields(text, flat(node)),
        separate(text),
    ensures
        yields(" (cmd "@ + text + ")"@, flat(SexpView::List(seq![SexpView::Sym("cmd"@), node]))),
        yields(" (cmd"@ + text + ")"@, flat(SexpView::List(seq![SexpView::Sym("cmd"@), node]))),
{
    lemma_words();
    reveal_strlit(" ");
    reveal_strlit("(");
    reveal_strlit("cmd");
    reveal_strlit(" (cmd ");
    reveal_strlit(" (cmd");
    lemma_head_blank(" "@, "cmd"@, " "@);
    lemma_head(" "@, "cmd"@);
    assert(" (cmd "@ =~= " "@ + "("@ + "cmd"@ + " "@);
    assert(" (cmd"@ =~= " "@ + "("@ + "cmd"@);
    lemma_flat_one(node);
    lemma_list(" (cmd "@, "cmd"@, text, seq![node]);
    lemma_list(" (cmd"@, "cmd"@, text, seq![node]);
    assert(seq![SexpView::Sym("cmd"@)] + seq![node] =~= seq![SexpView::Sym("cmd"@), node]);
}

/// A template in either form is read back.
pub proof fn lemma_template(t: TemplateView)
    ensures
        yields(template_text(t), flat(template_node(t))),
        yields(compact_text(t), flat(template_node(t))),
        template_of(template_node(t)) == Ok::<TemplateView, Reason>(t),
        separate(template_text(t)),
        separate(compact_text(t)),
    decreases t,
{
    lemma_parts(t.parts);
    lemma_words();
    reveal_strlit("(");
    reveal_strlit("t");
    reveal_strlit("(t");
    lemma_head(Seq::empty(), "t"@);
    assert("(t"@ =~= Seq::<char>::empty() + "("@ + "t"@);
    lemma_list("(t"@, "t"@, parts_text(t.parts), part_nodes(t.parts));
    lemma_list("(t"@, "t"@, compact_parts(t.parts), part_nodes(t.parts));
    let items = seq![SexpView::Sym("t"@)] + part_nodes(t.parts);
    assert(items.skip(1) =~= part_nodes(t.parts));
    assert(items[0] == SexpView::Sym("t"@));
}

proof fn lemma_parts(parts: Seq<PartView>)
    ensures
        yields(parts_text(parts), flat_all(part_nodes(parts))),
        yields(compact_parts(parts), flat_all(part_nodes(parts))),
        parts_of(part_nodes(parts)) == Ok::<Seq<PartView>, Reason>(parts),
        separate(parts_text(parts)),
        separate(compact_parts(parts)),
    decreases parts,
{
    if parts.len() == 0 {
        lemma_yields_nothing();
        assert(parts =~= Seq::<PartView>::empty());
    } else {
        let init = parts.drop_last();
        lemma_parts(init);
        reveal_strlit(" (lit ");
        reveal_strlit(" (cmd ");
        reveal_strlit(" (cmd");
        lemma_words();
        let node = part_nodes(parts).last();
        assert(part_nodes(parts) =~= part_nodes(init).push(node));
        lemma_flat_push(part_nodes(init), node);
        match parts.last() {
            PartView::Lit(s) => {
                lemma_lit(s);
                let text = " (lit "@ + quoted(s) + ")"@;
                lemma_join(parts_text(init), flat_all(part_nodes(init)), text, flat(node));
                lemma_join(compact_parts(init), flat_all(part_nodes(init)), text, flat(node));
                assert(text[0] == ' ');
            },
            PartView::Cmd(inner) => {
                lemma_template(inner);
                lemma_cmd(template_text(inner), template_node(inner));
                lemma_cmd(compact_text(inner), template_node(inner));
                let text = " (cmd "@ + template_text(inner) + ")"@;
                let compact = " (cmd"@ + compact_text(inner) + ")"@;
                lemma_join(parts_text(init), flat_all(part_nodes(init)), text, flat(node));
                lemma_join(compact_parts(init), flat_all(part_nodes(init)), compact, flat(node));
                assert(text[0] == ' ');
                assert(compact[0] == ' ');
            },
        }
        assert(part_of(node) == Ok::<PartView, Reason>(parts.last()));
        lemma_parts_push(part_nodes(init), init, node, parts.last());
        assert(init.push(parts.last()) =~= parts);
    }
}

// ── Instructions ─────────────────────────────────────────────────────────────

/// The keys of variables are symbols.
pub open spec fn pairs_fit(pairs: Seq<EnvPairView>) -> bool {
    forall|i: int| 0 <= i < pairs.len() ==> is_symbol((#[trigger] pairs[i]).key)
}

/// The keys of variables in an instruction are symbols.
pub open spec fn instruction_fits(inst: InstructionView) -> bool
    decreases inst,
{
    match inst {
        InstructionView::Env { pairs, body } => pairs_fit(pairs) && body_fits(body),
        InstructionView::Switch { arms, .. } => arms_fit(arms),
        _ => true,
    }
}

pub open spec fn body_fits(body: Seq<InstructionView>) -> bool
    decreases body,
{
    body.len() > 0 ==> body_fits(body.drop_last()) && instruction_fits(body.last())
}

pub open spec fn arms_fit(arms: Seq<ArmView>) -> bool
    decreases arms,
{
    arms.len() > 0 ==> arms_fit(arms.drop_last()) && body_fits(arms.last().body)
}

pub open spec fn pair_node(p: EnvPairView) -> SexpView {
    SexpView::List(seq![SexpView::Sym(p.key), template_node(p.value)])
}

pub open spec fn pair_nodes(pairs: Seq<EnvPairView>) -> Seq<SexpView>
    decreases pairs.len(),
{
    if pairs.len() == 0 {
        Seq::empty()
    } else {
        pair_nodes(pairs.drop_last()).push(pair_node(pairs.last()))
    }
}

pub open spec fn pattern_node(p: ArmPatternView) -> SexpView {
    match p {
        ArmPatternView::Lit(s) => SexpView::Str(s),
        ArmPatternView::Default => SexpView::Sym("_"@),
    }
}

/// The node of an instruction.
pub open spec fn instruction_node(inst: InstructionView) -> SexpView
    decreases inst,
{
    match inst {
        InstructionView::Bind { value } => SexpView::List(
            seq![SexpView::Sym("bind"@), template_node(value)],
        ),
        InstructionView::Log(value) => SexpView::List(
            seq![SexpView::Sym("log"@), template_node(value)],
        ),
        InstructionView::Cd(value) => SexpView::List(
            seq![SexpView::Sym("cd"@), template_node(value)],
        ),
        InstructionView::Env { pairs, body } => SexpView::List(
            seq![
                SexpView::Sym("env"@),
                SexpView::List(pair_nodes(pairs)),
                SexpView::List(instruction_nodes(body)),
            ],
        ),
        InstructionView::Switch { subject, arms } => SexpView::List(
            seq![SexpView::Sym("switch"@), template_node(subject)] + arm_nodes(arms),
        ),
    }
}

pub open spec fn instruction_nodes(body: Seq<InstructionView>) -> Seq<SexpView>
    decreases body,
{
    if body.len() == 0 {
        Seq::empty()
    } else {
        instruction_nodes(body.drop_last()).push(instruction_node(body.last()))
    }
}

pub open spec fn arm_nodes(arms: Seq<ArmView>) -> Seq<SexpView>
    decreases arms,
{
    if arms.len() == 0 {
        Seq::empty()
    } else {
        arm_nodes(arms.drop_last()).push(
            SexpView::List(
                seq![SexpView::Sym("case"@), pattern_node(arms.last().pattern)]
                    + instruction_nodes(arms.last().body),
            ),
        )
    }
}

proof fn lemma_instruction_words()
    ensures
        is_symbol("bind"@),
        is_symbol("log"@),
        is_symbol("cd"@),
        is_symbol("env"@),
        is_symbol("switch"@),
        is_symbol("case"@),
        is_symbol("_"@),
        "bind"@ != "log"@,
        "bind"@ != "cd"@,
        "bind"@ != "env"@,
        "bind"@ != "switch"@,
        "log"@ != "cd"@,
        "log"@ != "env"@,
        "log"@ != "switch"@,
        "cd"@ != "env"@,
        "cd"@ != "switch"@,
        "env"@ != "switch"@,
{
    reveal_strlit("bind");
    reveal_strlit("log");
    reveal_strlit("cd");
    reveal_strlit("env");
    reveal_strlit("switch");
    reveal_strlit("case");
    reveal_strlit("_");
    assert("bind"@[0] == 'b' && "log"@[0] == 'l' && "cd"@[0] == 'c' && "env"@[0] == 'e'
        && "switch"@[0] == 's');
}

proof fn lemma_pairs_push(nodes: Seq<SexpView>, done: Seq<EnvPairView>, node: SexpView, x: EnvPairView)
    requires
        pairs_of(nodes) == Ok::<Seq<EnvPairView>, Reason>(done),
        pair_of(node) == Ok::<EnvPairView, Reason>(x),
    ensures
        pairs_of(nodes.push(node)) == Ok::<Seq<EnvPairView>, Reason>(done.push(x)),
    decreases nodes.len(),
{
    let all = nodes.push(node);
    if nodes.len() == 0 {
        assert(all.skip(1) =~= Seq::<SexpView>::empty());
        assert(pairs_of(all.skip(1)) == Ok::<Seq<EnvPairView>, Reason>(Seq::empty()));
        assert(seq![x] + Seq::<EnvPairView>::empty() =~= done.push(x));
    } else {
        assert(all.skip(1) =~= nodes.skip(1).push(node));
        let first = pair_of(nodes[0])->Ok_0;
        let rest = pairs_of(nodes.skip(1))->Ok_0;
        lemma_pairs_push(nodes.skip(1), rest, node, x);
        assert(seq![first] + rest.push(x) =~= done.push(x));
    }
}

proof fn lemma_instructions_push(
    nodes: Seq<SexpView>,
    done: Seq<InstructionView>,
    node: SexpView,
    x: InstructionView,
)
    requires
        instructions_of(nodes) == Ok::<Seq<InstructionView>, Reason>(done),
        instruction_of(node) == Ok::<InstructionView, Reason>(x),
    ensures
        instructions_of(nodes.push(node)) == Ok::<Seq<InstructionView>, Reason>(done.push(x)),
    decreases nodes.len(),
{
    let all = nodes.push(node);
    if nodes.len() == 0 {
        assert(all.skip(1) =~= Seq::<SexpView>::empty());
        assert(instructions_of(all.skip(1)) == Ok::<Seq<InstructionView>, Reason>(Seq::empty()));
        assert(seq![x] + Seq::<InstructionView>::empty() =~= done.push(x));
    } else {
        assert(all.skip(1) =~= nodes.skip(1).push(node));
        let first = instruction_of(nodes[0])->Ok_0;
        let rest = instructions_of(nodes.skip(1))->Ok_0;
        lemma_instructions_push(nodes.skip(1), rest, node, x);
        assert(seq![first] + rest.push(x) =~= done.push(x));
    }
}

proof fn lemma_arms_push(nodes: Seq<SexpView>, done: Seq<ArmView>, node: SexpView, x: ArmView)
    requires
        arms_of(nodes) == Ok::<Seq<ArmView>, Reason>(done),
        arm_of(node) == Ok::<ArmView, Reason>(x),
    ensures
        arms_of(nodes.push(node)) == Ok::<Seq<ArmView>, Reason>(done.push(x)),
    decreases nodes.len(),
{
    let all = nodes.push(node);
    if nodes.len() == 0 {
        assert(all.skip(1) =~= Seq::<SexpView>::empty());
        assert(arms_of(all.skip(1)) == Ok::<Seq<ArmView>, Reason>(Seq::empty()));
        assert(seq![x] + Seq::<ArmView>::empty() =~= done.push(x));
    } else {
        assert(all.skip(1) =~= nodes.skip(1).push(node));
        let first = arm_of(nodes[0])->Ok_0;
        let rest = arms_of(nodes.skip(1))->Ok_0;
        lemma_arms_push(nodes.skip(1), rest, node, x);
        assert(seq![first] + rest.push(x) =~= done.push(x));
    }
}

proof fn lemma_pair(p: EnvPairView)
    requires
        is_symbol(p.key),
    ensures
        yields("("@ + p.key + " "@ + template_text(p.value) + ")"@, flat(pair_node(p))),
        pair_of(pair_node(p)) == Ok::<EnvPairView, Reason>(p),
{
    reveal_strlit(" ");
    lemma_template(p.value);
    lemma_head_blank(Seq::empty(), p.key, " "@);
    assert(Seq::<char>::empty() + "("@ + p.key + " "@ =~= "("@ + p.key + " "@);
    lemma_flat_one(template_node(p.value));
    lemma_list("("@ + p.key + " "@, p.key, template_text(p.value), seq![template_node(p.value)]);
    assert(seq![SexpView::Sym(p.key)] + seq![template_node(p.value)] =~= seq![
        SexpView::Sym(p.key),
        template_node(p.value),
    ]);
}

proof fn lemma_pairs(pairs: Seq<EnvPairView>)
    requires
        pairs_fit(pairs),
    ensures
        yields(pairs_text(pairs), flat_all(pair_nodes(pairs))),
        pairs_of(pair_nodes(pairs)) == Ok::<Seq<EnvPairView>, Reason>(pairs),
    decreases pairs.len(),
{
    if pairs.len() == 0 {
        lemma_yields_nothing();
        assert(pairs =~= Seq::<EnvPairView>::empty());
    } else {
        let init = pairs.drop_last();
        let last = pairs.last();
        assert(pairs_fit(init)) by {
            assert forall|i: int| 0 <= i < init.len() implies is_symbol(
                (#[trigger] init[i]).key,
            ) by {
                assert(init[i] == pairs[i]);
            }
        }
        assert(last == pairs[pairs.len() - 1]);
        lemma_pairs(init);
        lemma_pair(last);
        let gap = if pairs.len() > 1 {
            " "@
        } else {
            Seq::<char>::empty()
        };
        let text = "("@ + last.key + " "@ + template_text(last.value) + ")"@;
        lemma_join_gap(
            pairs_text(init),
            flat_all(pair_nodes(init)),
            gap,
            text,
            flat(pair_node(last)),
        );
        lemma_flat_push(pair_nodes(init), pair_node(last));
        lemma_pairs_push(pair_nodes(init), init, pair_node(last), last);
        assert(init.push(last) =~= pairs);
    }
}

/// An instruction that consists of a word and a template.
proof fn lemma_simple(lit: Seq<char>, word: Seq<char>, value: TemplateView)
    requires
        is_symbol(word),
        lit == Seq::<char>::empty() + "("@ + word + " "@,
    ensures
        yields(
            lit + template_text(value) + ")"@,
            flat(SexpView::List(seq![SexpView::Sym(word), template_node(value)])),
        ),
        lit[0] == '(',
{
    reveal_strlit(" ");
    reveal_strlit("(");
    lemma_template(value);
    lemma_head_blank(Seq::empty(), word, " "@);
    lemma_flat_one(template_node(value));
    lemma_list(lit, word, template_text(value), seq![template_node(value)]);
    assert(seq![SexpView::Sym(word)] + seq![template_node(value)] =~= seq![
        SexpView::Sym(word),
        template_node(value),
    ]);
}

proof fn lemma_inline(inst: InstructionView)
    requires
        instruction_fits(inst),
    ensures
        yields(inline_text(inst), flat(instruction_node(inst))),
        instruction_of(instruction_node(inst)) == Ok::<InstructionView, Reason>(inst),
    decreases inst,
{
    lemma_instruction_words();
    reveal_strlit(" ");
    reveal_strlit("(");
    match inst {
        InstructionView::Bind { value } => {
            reveal_strlit("bind");
            reveal_strlit("(bind ");
            assert("(bind "@ =~= Seq::<char>::empty() + "("@ + "bind"@ + " "@);
            lemma_simple("(bind "@, "bind"@, value);
            lemma_template(value);
        },
        InstructionView::Log(value) => {
            reveal_strlit("log");
            reveal_strlit("(log ");
            assert("(log "@ =~= Seq::<char>::empty() + "("@ + "log"@ + " "@);
            lemma_simple("(log "@, "log"@, value);
            lemma_template(value);
        },
        InstructionView::Cd(value) => {
            reveal_strlit("cd");
            reveal_strlit("(cd ");
            assert("(cd "@ =~= Seq::<char>::empty() + "("@ + "cd"@ + " "@);
            lemma_simple("(cd "@, "cd"@, value);
            lemma_template(value);
        },
        InstructionView::Env { pairs, body } => {
            lemma_body(body);
            lemma_env(pairs, body);
        },
        InstructionView::Switch { subject, arms } => {
            lemma_template(subject);
            lemma_arms(arms);
            reveal_strlit("switch");
            reveal_strlit("(switch ");
            lemma_head_blank(Seq::empty(), "switch"@, " "@);
            assert("(switch "@ =~= Seq::<char>::empty() + "("@ + "switch"@ + " "@);
            let body = template_text(subject) + arms_text(arms);
            let items = seq![template_node(subject)] + arm_nodes(arms);
            lemma_join(
                template_text(subject),
                flat(template_node(subject)),
                arms_text(arms),
                flat_all(arm_nodes(arms)),
            );
            lemma_flat_one(template_node(subject));
            lemma_flat_join(seq![template_node(subject)], arm_nodes(arms));
            lemma_list("(switch "@, "switch"@, body, items);
            assert("(switch "@ + body + ")"@ =~= inline_text(inst));
            let all = seq![SexpView::Sym("switch"@), template_node(subject)] + arm_nodes(arms);
            assert(seq![SexpView::Sym("switch"@)] + items =~= all);
            assert(all.skip(2) =~= arm_nodes(arms));
            assert(all[1] == template_node(subject));
        },
    }
}

proof fn lemma_body(body: Seq<InstructionView>)
    requires
        body_fits(body),
    ensures
        yields(inline_body(body), flat_all(instruction_nodes(body))),
        instructions_of(instruction_nodes(body)) == Ok::<Seq<InstructionView>, Reason>(body),
    decreases body,
{
    if body.len() == 0 {
        lemma_yields_nothing();
        assert(body =~= Seq::<InstructionView>::empty());
    } else {
        let init = body.drop_last();
        let last = body.last();
        lemma_body(init);
        lemma_inline(last);
        let gap = if body.len() > 1 {
            " "@
        } else {
            Seq::<char>::empty()
        };
        lemma_join_gap(
            inline_body(init),
            flat_all(instruction_nodes(init)),
            gap,
            inline_text(last),
            flat(instruction_node(last)),
        );
        lemma_flat_push(instruction_nodes(init), instruction_node(last));
        lemma_instructions_push(instruction_nodes(init), init, instruction_node(last), last);
        assert(init.push(last) =~= body);
    }
}

/// What opens an arm, up to its body.
pub(crate) proof fn lemma_pattern(p: ArmPatternView)
    ensures
        yields(
            pattern_text(p),
            seq![open_token(), sym_token("case"@)] + flat(pattern_node(p)),
        ),
        pattern_text(p).len() > 0,
        pattern_text(p)[0] == ' ',
{
    lemma_instruction_words();
    reveal_strlit(" ");
    reveal_strlit("(");
    reveal_strlit("case");
    reveal_strlit("_");
    reveal_strlit(" (case ");
    reveal_strlit(" (case _ ");
    lemma_head_blank(" "@, "case"@, " "@);
    assert(" (case "@ =~= " "@ + "("@ + "case"@ + " "@);
    let h = seq![open_token(), sym_token("case"@)];
    lemma_yields_blanks(" "@);
    match p {
        ArmPatternView::Lit(s) => {
            lemma_yields_quoted(s);
            lemma_join(" (case "@, h, quoted(s), flat(pattern_node(p)));
            lemma_join(
                " (case "@ + quoted(s),
                h + flat(pattern_node(p)),
                " "@,
                Seq::empty(),
            );
            assert(h + flat(pattern_node(p)) + Seq::<TokenView>::empty() =~= h + flat(
                pattern_node(p),
            ));
        },
        ArmPatternView::Default => {
            lemma_opens_symbol("_"@);
            lemma_join_closes("_"@, seq![sym_token("_"@)], " "@, Seq::empty());
            assert(seq![sym_token("_"@)] + Seq::<TokenView>::empty() =~= flat(pattern_node(p)));
            lemma_join(" (case "@, h, "_"@ + " "@, flat(pattern_node(p)));
            assert(" (case "@ + ("_"@ + " "@) =~= " (case _ "@);
        },
    }
}

proof fn lemma_arms(arms: Seq<ArmView>)
    requires
        arms_fit(arms),
    ensures
        yields(arms_text(arms), flat_all(arm_nodes(arms))),
        arms_of(arm_nodes(arms)) == Ok::<Seq<ArmView>, Reason>(arms),
        separate(arms_text(arms)),
    decreases arms,
{
    if arms.len() == 0 {
        lemma_yields_nothing();
        assert(arms =~= Seq::<ArmView>::empty());
    } else {
        let init = arms.drop_last();
        let last = arms.last();
        lemma_arms(init);
        lemma_body(last.body);
        lemma_pattern(last.pattern);
        lemma_yields_close();
        lemma_instruction_words();
        let h = seq![open_token(), sym_token("case"@)] + flat(pattern_node(last.pattern));
        let body = flat_all(instruction_nodes(last.body));
        lemma_join(pattern_text(last.pattern), h, inline_body(last.body), body);
        lemma_join(
            pattern_text(last.pattern) + inline_body(last.body),
            h + body,
            ")"@,
            seq![close_token()],
        );
        let text = pattern_text(last.pattern) + inline_body(last.body) + ")"@;
        let heads = seq![SexpView::Sym("case"@), pattern_node(last.pattern)];
        let items = heads + instruction_nodes(last.body);
        let node = SexpView::List(items);
        lemma_flat_one(SexpView::Sym("case"@));
        lemma_flat_push(seq![SexpView::Sym("case"@)], pattern_node(last.pattern));
        assert(seq![SexpView::Sym("case"@)].push(pattern_node(last.pattern)) =~= heads);
        lemma_flat_join(heads, instruction_nodes(last.body));
        assert(h + body + seq![close_token()] =~= flat(node));
        lemma_join(arms_text(init), flat_all(arm_nodes(init)), text, flat(node));
        lemma_flat_push(arm_nodes(init), node);
        assert(text[0] == ' ');
        assert(items.skip(2) =~= instruction_nodes(last.body));
        assert(items[0] == heads[0] && items[1] == heads[1]);
        reveal_strlit("_");
        assert(arm_of(node) == Ok::<ArmView, Reason>(last));
        lemma_arms_push(arm_nodes(init), init, node, last);
        assert(init.push(last) =~= arms);
    }
}

pub(crate) proof fn lemma_pad(indent: nat)
    ensures
        yields(pad(indent), Seq::empty()),
    decreases indent,
{
    if indent == 0 {
        lemma_yields_nothing();
    } else {
        lemma_pad((indent - 1) as nat);
        reveal_strlit("  ");
        lemma_yields_blanks("  "@);
        lemma_join(pad((indent - 1) as nat), Seq::empty(), "  "@, Seq::empty());
        assert(Seq::<TokenView>::empty() + Seq::<TokenView>::empty() =~= Seq::<TokenView>::empty());
    }
}

proof fn lemma_line(inst: InstructionView, indent: nat)
    requires
        instruction_fits(inst),
    ensures
        yields(line_text(inst, indent), flat(instruction_node(inst))),
        instruction_of(instruction_node(inst)) == Ok::<InstructionView, Reason>(inst),
{
    lemma_pad(indent);
    reveal_strlit("\n");
    lemma_yields_blanks("\n"@);
    let node = flat(instruction_node(inst));
    let none = Seq::<TokenView>::empty();
    assert(none + node =~= node);
    assert(node + none =~= node);
    lemma_inline(inst);
    lemma_join(pad(indent), none, inline_text(inst), node);
    lemma_join(pad(indent) + inline_text(inst), none + node, "\n"@, none);
}

/// An `env` block: its variables, and its body.
proof fn lemma_env(pairs: Seq<EnvPairView>, body: Seq<InstructionView>)
    requires
        pairs_fit(pairs),
        yields(inline_body(body), flat_all(instruction_nodes(body))),
        instructions_of(instruction_nodes(body)) == Ok::<Seq<InstructionView>, Reason>(body),
    ensures
        ({
            let inst = InstructionView::Env { pairs, body };
            &&& yields(inline_text(inst), flat(instruction_node(inst)))
            &&& instruction_of(instruction_node(inst)) == Ok::<InstructionView, Reason>(inst)
        }),
{
    let inst = InstructionView::Env { pairs, body };
    let node = flat(instruction_node(inst));
    let none = Seq::<TokenView>::empty();
    lemma_pairs(pairs);
    lemma_instruction_words();
    reveal_strlit(" ");
    reveal_strlit("(");
    reveal_strlit(")");
    reveal_strlit("env");
    reveal_strlit("(env (");
    reveal_strlit(") (");
    reveal_strlit("))");
    let o = seq![open_token()];
    let c = seq![close_token()];
    let p = flat_all(pair_nodes(pairs));
    let b = flat_all(instruction_nodes(body));
    let h = seq![open_token(), sym_token("env"@)];
    lemma_yields_open();
    lemma_yields_close();
    lemma_yields_blanks(" "@);
    lemma_head_blank(Seq::empty(), "env"@, " "@);
    lemma_join(Seq::<char>::empty() + "("@ + "env"@ + " "@, h, "("@, o);
    assert(Seq::<char>::empty() + "("@ + "env"@ + " "@ + "("@ =~= "(env ("@);
    lemma_join(")"@, c, " "@, none);
    lemma_join(")"@ + " "@, c + none, "("@, o);
    assert(")"@ + " "@ + "("@ =~= ") ("@);
    assert(c + none + o =~= c + o);
    lemma_join(")"@, c, ")"@, c);
    assert(")"@ + ")"@ =~= "))"@);
    lemma_join("(env ("@, h + o, pairs_text(pairs), p);
    lemma_join("(env ("@ + pairs_text(pairs), h + o + p, ") ("@, c + o);
    lemma_join(
        "(env ("@ + pairs_text(pairs) + ") ("@,
        h + o + p + (c + o),
        inline_body(body),
        b,
    );
    lemma_join(
        "(env ("@ + pairs_text(pairs) + ") ("@ + inline_body(body),
        h + o + p + (c + o) + b,
        "))"@,
        c + c,
    );
    let sym = SexpView::Sym("env"@);
    let pn = SexpView::List(pair_nodes(pairs));
    let bn = SexpView::List(instruction_nodes(body));
    lemma_flat_one(sym);
    lemma_flat_push(seq![sym], pn);
    lemma_flat_push(seq![sym].push(pn), bn);
    assert(seq![sym].push(pn).push(bn) =~= seq![sym, pn, bn]);
    assert(h + o + p + (c + o) + b + (c + c) =~= node);
    let items = seq![sym, pn, bn];
    assert(items[0] == sym && items[1] == pn && items[2] == bn);
}

proof fn lemma_lines(body: Seq<InstructionView>, indent: nat)
    requires
        body_fits(body),
    ensures
        yields(lines_text(body, indent), flat_all(instruction_nodes(body))),
        instructions_of(instruction_nodes(body)) == Ok::<Seq<InstructionView>, Reason>(body),
    decreases body.len(),
{
    if body.len() == 0 {
        lemma_yields_nothing();
        assert(body =~= Seq::<InstructionView>::empty());
    } else {
        let init = body.drop_last();
        let last = body.last();
        lemma_lines(init, indent);
        lemma_line(last, indent);
        lemma_join(
            lines_text(init, indent),
            flat_all(instruction_nodes(init)),
            line_text(last, indent),
            flat(instruction_node(last)),
        );
        lemma_flat_push(instruction_nodes(init), instruction_node(last));
        lemma_instructions_push(instruction_nodes(init), init, instruction_node(last), last);
        assert(init.push(last) =~= body);
    }
}

// ── Entries ──────────────────────────────────────────────────────────────────

/// The names of functions and the keys in their instructions are symbols.
pub open spec fn functions_named(f: Entries<Seq<InstructionView>>) -> bool {
    forall|i: int| 0 <= i < f.len() ==> is_symbol((#[trigger] f[i]).0) && body_fits(f[i].1)
}

pub open spec fn functions_fit(f: Entries<Seq<InstructionView>>) -> bool {
    ascending(f) && functions_named(f)
}

/// The names in the calls of a run are symbols.
pub open spec fn stages_fit(stages: Seq<Seq<CallView>>) -> bool {
    forall|i: int, j: int|
        0 <= i < stages.len() && 0 <= j < stages[i].len() ==> is_symbol(
            (#[trigger] stages[i][j]).project,
        ) && is_symbol(stages[i][j].function)
}

/// A plan whose names and keys are symbols.
pub open spec fn plan_named(p: PlanView) -> bool {
    &&& forall|i: int| 0 <= i < p.syncs.len() ==> is_symbol((#[trigger] p.syncs[i]).0)
    &&& forall|i: int|
        0 <= i < p.projects.len() ==> is_symbol((#[trigger] p.projects[i]).0) && functions_named(
            p.projects[i].1.functions,
        )
    &&& forall|i: int|
        0 <= i < p.run_blocks.len() ==> is_symbol((#[trigger] p.run_blocks[i]).0) && stages_fit(
            p.run_blocks[i].1,
        )
}

/// A plan in which the names ascend, as they do in every [`crate::plan::Plan`].
pub open spec fn plan_ordered(p: PlanView) -> bool {
    &&& ascending(p.syncs)
    &&& ascending(p.projects)
    &&& forall|i: int|
        0 <= i < p.projects.len() ==> ascending((#[trigger] p.projects[i]).1.functions)
    &&& ascending(p.run_blocks)
}

pub(crate) proof fn lemma_entry_words()
    ensures
        is_symbol("fn"@),
        is_symbol("sync"@),
        is_symbol("url"@),
        is_symbol("dir"@),
        is_symbol("branch"@),
        is_symbol("strategy"@),
        is_symbol("project"@),
        is_symbol("run"@),
        is_symbol("stage"@),
        is_symbol("call"@),
        is_symbol("kirufile"@),
        is_symbol("version"@),
        is_symbol("1"@),
        is_symbol("shell"@),
        "url"@ != "dir"@,
        "url"@ != "branch"@,
        "url"@ != "strategy"@,
        "dir"@ != "branch"@,
        "dir"@ != "strategy"@,
        "branch"@ != "strategy"@,
        "version"@ != "shell"@,
        "version"@ != "sync"@,
        "version"@ != "project"@,
        "version"@ != "run"@,
        "shell"@ != "sync"@,
        "shell"@ != "project"@,
        "shell"@ != "run"@,
        "sync"@ != "project"@,
        "sync"@ != "run"@,
        "project"@ != "run"@,
{
    reveal_strlit("fn");
    reveal_strlit("sync");
    reveal_strlit("url");
    reveal_strlit("dir");
    reveal_strlit("branch");
    reveal_strlit("strategy");
    reveal_strlit("project");
    reveal_strlit("run");
    reveal_strlit("stage");
    reveal_strlit("call");
    reveal_strlit("kirufile");
    reveal_strlit("version");
    reveal_strlit("1");
    reveal_strlit("shell");
    assert("url"@[0] == 'u' && "dir"@[0] == 'd' && "branch"@[0] == 'b' && "strategy"@[0] == 's');
    assert("version"@[0] == 'v' && "shell"@[1] == 'h' && "sync"@[1] == 'y' && "project"@[0] == 'p'
        && "run"@[0] == 'r' && "shell"@[0] == 's' && "sync"@[0] == 's');
}

pub open spec fn function_node(name: Seq<char>, body: Seq<InstructionView>) -> SexpView {
    SexpView::List(
        seq![SexpView::Sym("fn"@), SexpView::Sym(name)] + instruction_nodes(body),
    )
}

pub open spec fn function_nodes(f: Entries<Seq<InstructionView>>) -> Seq<SexpView>
    decreases f.len(),
{
    if f.len() == 0 {
        Seq::empty()
    } else {
        function_nodes(f.drop_last()).push(function_node(f.last().0, f.last().1))
    }
}

proof fn lemma_functions_push(
    nodes: Seq<SexpView>,
    f: Entries<Seq<InstructionView>>,
    node: SexpView,
)
    ensures
        with_functions(nodes.push(node), f) == match with_functions(nodes, f) {
            Ok(g) => with_function(node, g),
            Err(e) => Err(e),
        },
    decreases nodes.len(),
{
    let all = nodes.push(node);
    if nodes.len() == 0 {
        assert(all.skip(1) =~= Seq::<SexpView>::empty());
        match with_function(node, f) {
            Ok(g) => {
                assert(with_functions(all.skip(1), g) == Ok::<
                    Entries<Seq<InstructionView>>,
                    Reason,
                >(g));
            },
            Err(_) => {},
        }
    } else {
        assert(all.skip(1) =~= nodes.skip(1).push(node));
        match with_function(nodes[0], f) {
            Ok(g) => {
                lemma_functions_push(nodes.skip(1), g, node);
            },
            Err(_) => {},
        }
    }
}

proof fn lemma_functions(f: Entries<Seq<InstructionView>>)
    requires
        functions_fit(f),
    ensures
        yields(functions_text(f), flat_all(function_nodes(f))),
        with_functions(function_nodes(f), Seq::empty()) == Ok::<
            Entries<Seq<InstructionView>>,
            Reason,
        >(f),
    decreases f.len(),
{
    if f.len() == 0 {
        lemma_yields_nothing();
        assert(f =~= Seq::<(Seq<char>, Seq<InstructionView>)>::empty());
    } else {
        let init = f.drop_last();
        let (name, body) = f.last();
        assert(f[f.len() - 1] == f.last());
        lemma_ascending_init(f);
        assert(functions_fit(init)) by {
            assert forall|i: int| 0 <= i < init.len() implies is_symbol((#[trigger] init[i]).0)
                && body_fits(init[i].1) by {
                assert(init[i] == f[i]);
            }
        }
        lemma_functions(init);
        lemma_lines(body, 3);
        lemma_entry_words();
        let node = function_node(name, body);
        let none = Seq::<TokenView>::empty();
        reveal_strlit(" ");
        reveal_strlit("(");
        reveal_strlit(")");
        reveal_strlit("fn");
        reveal_strlit("    (fn ");
        reveal_strlit("    ");
        reveal_strlit("\n");
        reveal_strlit("    )\n");
        assert("    (fn "@ =~= "    "@ + "("@ + "fn"@ + " "@);
        lemma_named("    (fn "@, "    "@, "fn"@, name);
        let h = seq![open_token(), sym_token("fn"@), sym_token(name)];
        let b = flat_all(instruction_nodes(body));
        let c = seq![close_token()];
        lemma_yields_blanks("\n"@);
        lemma_yields_blanks("    "@);
        lemma_yields_close();
        lemma_join_closes("    (fn "@ + name, h, "\n"@, none);
        lemma_join("    (fn "@ + name + "\n"@, h + none, lines_text(body, 3), b);
        lemma_join("    "@, none, ")"@, c);
        lemma_join("    "@ + ")"@, none + c, "\n"@, none);
        assert("    "@ + ")"@ + "\n"@ =~= "    )\n"@);
        let text = "    (fn "@ + name + "\n"@ + lines_text(body, 3) + "    )\n"@;
        lemma_join(
            "    (fn "@ + name + "\n"@ + lines_text(body, 3),
            h + none + b,
            "    )\n"@,
            none + c + none,
        );
        lemma_named_flat("fn"@, name, instruction_nodes(body));
        assert(h + none + b + (none + c + none) =~= flat(node));
        lemma_join(functions_text(init), flat_all(function_nodes(init)), text, flat(node));
        lemma_flat_push(function_nodes(init), node);
        lemma_functions_push(function_nodes(init), Seq::empty(), node);
        let items = seq![SexpView::Sym("fn"@), SexpView::Sym(name)] + instruction_nodes(body);
        assert(items.skip(2) =~= instruction_nodes(body));
        assert(items[0] == SexpView::Sym("fn"@) && items[1] == SexpView::Sym(name));
    }
}

pub open spec fn field_node(field: Seq<char>, t: TemplateView) -> SexpView {
    SexpView::List(seq![SexpView::Sym(field), template_node(t)])
}

pub open spec fn sync_node(id: Seq<char>, s: SyncView) -> SexpView {
    SexpView::List(
        seq![SexpView::Sym("sync"@), SexpView::Sym(id)] + seq![
            field_node("url"@, s.url),
            field_node("dir"@, s.dir),
            field_node("branch"@, s.branch),
            field_node("strategy"@, s.strategy),
        ],
    )
}

pub(crate) proof fn lemma_sync_literals()
    ensures
        yields(" (url "@, seq![open_token(), sym_token("url"@)]),
        " (url "@.len() > 0,
        separate(" (url "@),
        yields(") (dir "@, seq![close_token(), open_token(), sym_token("dir"@)]),
        yields(") (branch "@, seq![close_token(), open_token(), sym_token("branch"@)]),
        yields(") (strategy "@, seq![close_token(), open_token(), sym_token("strategy"@)]),
        yields("))\n"@, seq![close_token(), close_token()]),
{
    lemma_entry_words();
    reveal_strlit(" ");
    reveal_strlit("(");
    reveal_strlit(")");
    reveal_strlit("\n");
    reveal_strlit("url");
    reveal_strlit("dir");
    reveal_strlit("branch");
    reveal_strlit("strategy");
    reveal_strlit(" (url ");
    reveal_strlit(") (dir ");
    reveal_strlit(") (branch ");
    reveal_strlit(") (strategy ");
    reveal_strlit("))\n");
    assert(" (url "@ =~= " "@ + "("@ + "url"@ + " "@);
    lemma_head_blank(" "@, "url"@, " "@);
    assert(") (dir "@ =~= ")"@ + (" "@ + "("@ + "dir"@ + " "@));
    lemma_next_field(") (dir "@, "dir"@);
    assert(") (branch "@ =~= ")"@ + (" "@ + "("@ + "branch"@ + " "@));
    lemma_next_field(") (branch "@, "branch"@);
    assert(") (strategy "@ =~= ")"@ + (" "@ + "("@ + "strategy"@ + " "@));
    lemma_next_field(") (strategy "@, "strategy"@);
    lemma_yields_close();
    lemma_yields_blanks("\n"@);
    let c = seq![close_token()];
    lemma_join(")"@, c, ")"@, c);
    lemma_join(")"@ + ")"@, c + c, "\n"@, Seq::empty());
    assert(")"@ + ")"@ + "\n"@ =~= "))\n"@);
    assert(c + c + Seq::<TokenView>::empty() =~= seq![close_token(), close_token()]);
}

proof fn lemma_field_flat(field: Seq<char>, t: TemplateView)
    ensures
        flat(field_node(field, t)) == seq![open_token(), sym_token(field)] + flat(template_node(t))
            + seq![close_token()],
{
    lemma_flat_one(SexpView::Sym(field));
    lemma_flat_push(seq![SexpView::Sym(field)], template_node(t));
    assert(seq![SexpView::Sym(field)].push(template_node(t)) =~= seq![
        SexpView::Sym(field),
        template_node(t),
    ]);
    assert(flat(field_node(field, t)) =~= seq![open_token(), sym_token(field)] + flat(
        template_node(t),
    ) + seq![close_token()]);
}

proof fn lemma_sync_text(id: Seq<char>, s: SyncView)
    requires
        is_symbol(id),
    ensures
        yields(sync_text(id, s), flat(sync_node(id, s))),
{
    lemma_entry_words();
    lemma_sync_literals();
    lemma_template(s.url);
    lemma_template(s.dir);
    lemma_template(s.branch);
    lemma_template(s.strategy);
    let x0 = "  (sync "@ + id;
    let h = seq![open_token(), sym_token("sync"@), sym_token(id)];
    assert(opens(x0, h)) by {
        reveal_strlit(" ");
        reveal_strlit("  ");
        reveal_strlit("(");
        reveal_strlit("sync");
        reveal_strlit("  (sync ");
        assert("  (sync "@ =~= "  "@ + "("@ + "sync"@ + " "@);
        lemma_named("  (sync "@, "  "@, "sync"@, id);
    }
    let (u, d, b, g) = (
        flat(template_node(s.url)),
        flat(template_node(s.dir)),
        flat(template_node(s.branch)),
        flat(template_node(s.strategy)),
    );
    let ou = seq![open_token(), sym_token("url"@)];
    let od = seq![close_token(), open_token(), sym_token("dir"@)];
    let ob = seq![close_token(), open_token(), sym_token("branch"@)];
    let og = seq![close_token(), open_token(), sym_token("strategy"@)];
    let cc = seq![close_token(), close_token()];
    lemma_join_closes(x0, h, " (url "@, ou);
    let x1 = x0 + " (url "@;
    lemma_join(x1, h + ou, compact_text(s.url), u);
    let x2 = x1 + compact_text(s.url);
    lemma_join(x2, h + ou + u, ") (dir "@, od);
    let x3 = x2 + ") (dir "@;
    lemma_join(x3, h + ou + u + od, compact_text(s.dir), d);
    let x4 = x3 + compact_text(s.dir);
    lemma_join(x4, h + ou + u + od + d, ") (branch "@, ob);
    let x5 = x4 + ") (branch "@;
    lemma_join(x5, h + ou + u + od + d + ob, compact_text(s.branch), b);
    let x6 = x5 + compact_text(s.branch);
    lemma_join(x6, h + ou + u + od + d + ob + b, ") (strategy "@, og);
    let x7 = x6 + ") (strategy "@;
    lemma_join(x7, h + ou + u + od + d + ob + b + og, compact_text(s.strategy), g);
    let x8 = x7 + compact_text(s.strategy);
    let t8 = h + ou + u + od + d + ob + b + og + g;
    lemma_join(x8, t8, "))\n"@, cc);
    assert(x8 + "))\n"@ == sync_text(id, s));
    let n1 = field_node("url"@, s.url);
    let n2 = field_node("dir"@, s.dir);
    let n3 = field_node("branch"@, s.branch);
    let n4 = field_node("strategy"@, s.strategy);
    lemma_field_flat("url"@, s.url);
    lemma_field_flat("dir"@, s.dir);
    lemma_field_flat("branch"@, s.branch);
    lemma_field_flat("strategy"@, s.strategy);
    lemma_flat_one(n1);
    lemma_flat_push(seq![n1], n2);
    lemma_flat_push(seq![n1].push(n2), n3);
    lemma_flat_push(seq![n1].push(n2).push(n3), n4);
    let fields = seq![n1].push(n2).push(n3).push(n4);
    assert(fields =~= seq![n1, n2, n3, n4]);
    lemma_named_flat("sync"@, id, fields);
    lemma_sync_tokens(h, sym_token("url"@), u, sym_token("dir"@), d, sym_token("branch"@), b,
        sym_token("strategy"@), g);
}

proof fn lemma_sync(id: Seq<char>, s: SyncView)
    requires
        is_symbol(id),
    ensures
        yields(sync_text(id, s), flat(sync_node(id, s))),
        forall|p: PlanView|
            #![trigger with_entry(sync_node(id, s), p)]
            with_entry(sync_node(id, s), p) == Ok::<PlanView, Reason>(
                PlanView { syncs: insert_entry(p.syncs, id, s), ..p },
            ),
{
    lemma_sync_text(id, s);
    lemma_entry_words();
    let n1 = field_node("url"@, s.url);
    let n2 = field_node("dir"@, s.dir);
    let n3 = field_node("branch"@, s.branch);
    let n4 = field_node("strategy"@, s.strategy);
    let fields = seq![n1, n2, n3, n4];
    let items = seq![SexpView::Sym("sync"@), SexpView::Sym(id)] + fields;
    assert(items.skip(2) =~= fields);
    assert(items[0] == SexpView::Sym("sync"@) && items[1] == SexpView::Sym(id));
    lemma_template(s.url);
    lemma_template(s.dir);
    lemma_template(s.branch);
    lemma_template(s.strategy);
    let e = SyncView::empty();
    let e1 = SyncView { url: s.url, ..e };
    let e2 = SyncView { dir: s.dir, ..e1 };
    let e3 = SyncView { branch: s.branch, ..e2 };
    assert(with_sync_field(n1, e) == Ok::<SyncView, Reason>(e1));
    assert(with_sync_field(n2, e1) == Ok::<SyncView, Reason>(e2));
    assert(with_sync_field(n3, e2) == Ok::<SyncView, Reason>(e3));
    assert(with_sync_field(n4, e3) == Ok::<SyncView, Reason>(s));
    assert(fields.skip(1) =~= seq![n2, n3, n4]);
    assert(seq![n2, n3, n4].skip(1) =~= seq![n3, n4]);
    assert(seq![n3, n4].skip(1) =~= seq![n4]);
    assert(seq![n4].skip(1) =~= Seq::<SexpView>::empty());
    assert(with_sync_fields(Seq::empty(), s) == Ok::<SyncView, Reason>(s));
    assert(with_sync_fields(seq![n4], e3) == Ok::<SyncView, Reason>(s));
    assert(with_sync_fields(seq![n3, n4], e2) == Ok::<SyncView, Reason>(s));
    assert(with_sync_fields(seq![n2, n3, n4], e1) == Ok::<SyncView, Reason>(s));
    assert(with_sync_fields(fields, e) == Ok::<SyncView, Reason>(s));
}

pub open spec fn project_node(id: Seq<char>, p: ProjectView) -> SexpView {
    SexpView::List(
        seq![SexpView::Sym("project"@), SexpView::Sym(id)] + function_nodes(p.functions),
    )
}

proof fn lemma_project(id: Seq<char>, x: ProjectView)
    requires
        is_symbol(id),
        functions_fit(x.functions),
    ensures
        yields(project_text(id, x), flat(project_node(id, x))),
        forall|p: PlanView|
            #![trigger with_entry(project_node(id, x), p)]
            with_entry(project_node(id, x), p) == Ok::<PlanView, Reason>(
                PlanView { projects: insert_entry(p.projects, id, x), ..p },
            ),
{
    lemma_entry_words();
    lemma_functions(x.functions);
    reveal_strlit(" ");
    reveal_strlit("  ");
    reveal_strlit("(");
    reveal_strlit(")");
    reveal_strlit("\n");
    reveal_strlit("project");
    reveal_strlit("  (project ");
    reveal_strlit("  )\n");
    let none = Seq::<TokenView>::empty();
    let c = seq![close_token()];
    let h = seq![open_token(), sym_token("project"@), sym_token(id)];
    let f = flat_all(function_nodes(x.functions));
    assert("  (project "@ =~= "  "@ + "("@ + "project"@ + " "@);
    lemma_named("  (project "@, "  "@, "project"@, id);
    lemma_yields_blanks("\n"@);
    lemma_yields_blanks("  "@);
    lemma_yields_close();
    lemma_join_closes("  (project "@ + id, h, "\n"@, none);
    lemma_join("  (project "@ + id + "\n"@, h + none, functions_text(x.functions), f);
    lemma_join("  "@, none, ")"@, c);
    lemma_join("  "@ + ")"@, none + c, "\n"@, none);
    assert("  "@ + ")"@ + "\n"@ =~= "  )\n"@);
    lemma_join(
        "  (project "@ + id + "\n"@ + functions_text(x.functions),
        h + none + f,
        "  )\n"@,
        none + c + none,
    );
    lemma_named_flat("project"@, id, function_nodes(x.functions));
    assert(h + none + f + (none + c + none) =~= flat(project_node(id, x)));
    let items = seq![SexpView::Sym("project"@), SexpView::Sym(id)] + function_nodes(x.functions);
    assert(items.skip(2) =~= function_nodes(x.functions));
    assert(items[0] == SexpView::Sym("project"@) && items[1] == SexpView::Sym(id));
}

pub open spec fn call_node(call: CallView) -> SexpView {
    SexpView::List(
        seq![
            SexpView::Sym("call"@),
            SexpView::Sym(call.project),
            SexpView::Sym(call.function),
        ],
    )
}

pub open spec fn call_nodes(calls: Seq<CallView>) -> Seq<SexpView>
    decreases calls.len(),
{
    if calls.len() == 0 {
        Seq::empty()
    } else {
        call_nodes(calls.drop_last()).push(call_node(calls.last()))
    }
}

pub open spec fn stage_node(calls: Seq<CallView>) -> SexpView {
    SexpView::List(seq![SexpView::Sym("stage"@)] + call_nodes(calls))
}

pub open spec fn stage_nodes(stages: Seq<Seq<CallView>>) -> Seq<SexpView>
    decreases stages.len(),
{
    if stages.len() == 0 {
        Seq::empty()
    } else {
        stage_nodes(stages.drop_last()).push(stage_node(stages.last()))
    }
}

pub open spec fn run_node(id: Seq<char>, stages: Seq<Seq<CallView>>) -> SexpView {
    SexpView::List(seq![SexpView::Sym("run"@), SexpView::Sym(id)] + stage_nodes(stages))
}

proof fn lemma_calls_push(nodes: Seq<SexpView>, done: Seq<CallView>, node: SexpView, x: CallView)
    requires
        calls_of(nodes) == Ok::<Seq<CallView>, Reason>(done),
        call_of(node) == Ok::<CallView, Reason>(x),
    ensures
        calls_of(nodes.push(node)) == Ok::<Seq<CallView>, Reason>(done.push(x)),
    decreases nodes.len(),
{
    let all = nodes.push(node);
    if nodes.len() == 0 {
        assert(all.skip(1) =~= Seq::<SexpView>::empty());
        assert(calls_of(all.skip(1)) == Ok::<Seq<CallView>, Reason>(Seq::empty()));
        assert(seq![x] + Seq::<CallView>::empty() =~= done.push(x));
    } else {
        assert(all.skip(1) =~= nodes.skip(1).push(node));
        let first = call_of(nodes[0])->Ok_0;
        let rest = calls_of(nodes.skip(1))->Ok_0;
        lemma_calls_push(nodes.skip(1), rest, node, x);
        assert(seq![first] + rest.push(x) =~= done.push(x));
    }
}

proof fn lemma_stages_push(
    nodes: Seq<SexpView>,
    done: Seq<Seq<CallView>>,
    node: SexpView,
    x: Seq<CallView>,
)
    requires
        stages_of(nodes) == Ok::<Seq<Seq<CallView>>, Reason>(done),
        stage_of(node) == Ok::<Seq<CallView>, Reason>(x),
    ensures
        stages_of(nodes.push(node)) == Ok::<Seq<Seq<CallView>>, Reason>(done.push(x)),
    decreases nodes.len(),
{
    let all = nodes.push(node);
    if nodes.len() == 0 {
        assert(all.skip(1) =~= Seq::<SexpView>::empty());
        assert(stages_of(all.skip(1)) == Ok::<Seq<Seq<CallView>>, Reason>(Seq::empty()));
        assert(seq![x] + Seq::<Seq<CallView>>::empty() =~= done.push(x));
    } else {
        assert(all.skip(1) =~= nodes.skip(1).push(node));
        let first = stage_of(nodes[0])->Ok_0;
        let rest = stages_of(nodes.skip(1))->Ok_0;
        lemma_stages_push(nodes.skip(1), rest, node, x);
        assert(seq![first] + rest.push(x) =~= done.push(x));
    }
}

proof fn lemma_call(call: CallView)
    requires
        is_symbol(call.project),
        is_symbol(call.function),
    ensures
        yields(
            " (call "@ + call.project + " "@ + call.function + ")"@,
            flat(call_node(call)),
        ),
        call_of(call_node(call)) == Ok::<CallView, Reason>(call),
{
    lemma_entry_words();
    reveal_strlit(" ");
    reveal_strlit("(");
    reveal_strlit("call");
    reveal_strlit(" (call ");
    assert(" (call "@ =~= " "@ + "("@ + "call"@ + " "@);
    lemma_named(" (call "@, " "@, "call"@, call.project);
    let h = seq![open_token(), sym_token("call"@), sym_token(call.project)];
    let f = seq![sym_token(call.function)];
    let none = Seq::<TokenView>::empty();
    lemma_yields_blanks(" "@);
    lemma_join_closes(" (call "@ + call.project, h, " "@, none);
    lemma_opens_symbol(call.function);
    lemma_join_opens(" (call "@ + call.project + " "@, h + none, call.function, f);
    lemma_yields_close();
    lemma_join_closes(
        " (call "@ + call.project + " "@ + call.function,
        h + none + f,
        ")"@,
        seq![close_token()],
    );
    lemma_flat_one(SexpView::Sym(call.function));
    lemma_named_flat("call"@, call.project, seq![SexpView::Sym(call.function)]);
    assert(seq![SexpView::Sym("call"@), SexpView::Sym(call.project)] + seq![
        SexpView::Sym(call.function),
    ] =~= seq![
        SexpView::Sym("call"@),
        SexpView::Sym(call.project),
        SexpView::Sym(call.function),
    ]);
    assert(h + none + f + seq![close_token()] =~= flat(call_node(call)));
}

proof fn lemma_calls(calls: Seq<CallView>)
    requires
        forall|j: int|
            0 <= j < calls.len() ==> is_symbol((#[trigger] calls[j]).project) && is_symbol(
                calls[j].function,
            ),
    ensures
        yields(calls_text(calls), flat_all(call_nodes(calls))),
        calls_of(call_nodes(calls)) == Ok::<Seq<CallView>, Reason>(calls),
        separate(calls_text(calls)),
    decreases calls.len(),
{
    if calls.len() == 0 {
        lemma_yields_nothing();
        assert(calls =~= Seq::<CallView>::empty());
    } else {
        let init = calls.drop_last();
        let last = calls.last();
        assert(last == calls[calls.len() - 1]);
        assert forall|j: int| 0 <= j < init.len() implies is_symbol((#[trigger] init[j]).project)
            && is_symbol(init[j].function) by {
            assert(init[j] == calls[j]);
        }
        lemma_calls(init);
        lemma_call(last);
        let text = " (call "@ + last.project + " "@ + last.function + ")"@;
        reveal_strlit(" (call ");
        assert(text[0] == ' ');
        lemma_join(calls_text(init), flat_all(call_nodes(init)), text, flat(call_node(last)));
        lemma_flat_push(call_nodes(init), call_node(last));
        lemma_calls_push(call_nodes(init), init, call_node(last), last);
        assert(init.push(last) =~= calls);
    }
}

pub(crate) proof fn lemma_stages(stages: Seq<Seq<CallView>>)
    requires
        stages_fit(stages),
    ensures
        yields(stages_text(stages), flat_all(stage_nodes(stages))),
        stages_of(stage_nodes(stages)) == Ok::<Seq<Seq<CallView>>, Reason>(stages),
        separate(stages_text(stages)),
    decreases stages.len(),
{
    if stages.len() == 0 {
        lemma_yields_nothing();
        assert(stages =~= Seq::<Seq<CallView>>::empty());
    } else {
        let init = stages.drop_last();
        let last = stages.last();
        assert(last == stages[stages.len() - 1]);
        assert(stages_fit(init)) by {
            assert forall|i: int, j: int| 0 <= i < init.len() && 0 <= j < init[i].len() implies
                is_symbol((#[trigger] init[i][j]).project) && is_symbol(init[i][j].function) by {
                assert(init[i][j] == stages[i][j]);
            }
        }
        assert forall|j: int| 0 <= j < last.len() implies is_symbol((#[trigger] last[j]).project)
            && is_symbol(last[j].function) by {
            assert(last[j] == stages[stages.len() - 1][j]);
        }
        lemma_stages(init);
        lemma_calls(last);
        lemma_entry_words();
        reveal_strlit(" ");
        reveal_strlit("(");
        reveal_strlit("stage");
        reveal_strlit(" (stage");
        assert(" (stage"@ =~= " "@ + "("@ + "stage"@);
        lemma_head(" "@, "stage"@);
        lemma_list(" (stage"@, "stage"@, calls_text(last), call_nodes(last));
        let text = " (stage"@ + calls_text(last) + ")"@;
        assert(text[0] == ' ');
        let node = stage_node(last);
        lemma_join(stages_text(init), flat_all(stage_nodes(init)), text, flat(node));
        lemma_flat_push(stage_nodes(init), node);
        let items = seq![SexpView::Sym("stage"@)] + call_nodes(last);
        assert(items.skip(1) =~= call_nodes(last));
        assert(items[0] == SexpView::Sym("stage"@));
        lemma_stages_push(stage_nodes(init), init, node, last);
        assert(init.push(last) =~= stages);
    }
}

pub(crate) proof fn lemma_run_text(id: Seq<char>, stages: Seq<Seq<CallView>>)
    requires
        is_symbol(id),
        stages_fit(stages),
    ensures
        yields(run_text(id, stages), flat(run_node(id, stages))),
{
    lemma_entry_words();
    lemma_stages(stages);
    reveal_strlit(" ");
    reveal_strlit("  ");
    reveal_strlit("(");
    reveal_strlit(")");
    reveal_strlit("\n");
    reveal_strlit("run");
    reveal_strlit("  (run ");
    reveal_strlit(")\n");
    let none = Seq::<TokenView>::empty();
    let c = seq![close_token()];
    let h = seq![open_token(), sym_token("run"@), sym_token(id)];
    let f = flat_all(stage_nodes(stages));
    assert("  (run "@ =~= "  "@ + "("@ + "run"@ + " "@);
    lemma_named("  (run "@, "  "@, "run"@, id);
    lemma_yields_opens(stages_text(stages), f);
    lemma_join_both_open("  (run "@ + id, h, stages_text(stages), f);
    lemma_yields_close();
    lemma_yields_blanks("\n"@);
    lemma_join(")"@, c, "\n"@, none);
    assert(")"@ + "\n"@ =~= ")\n"@);
    lemma_join_closes("  (run "@ + id + stages_text(stages), h + f, ")\n"@, c + none);
    lemma_named_flat("run"@, id, stage_nodes(stages));
    assert(h + f + (c + none) =~= flat(run_node(id, stages)));
}

proof fn lemma_run(id: Seq<char>, stages: Seq<Seq<CallView>>)
    requires
        is_symbol(id),
        stages_fit(stages),
    ensures
        yields(run_text(id, stages), flat(run_node(id, stages))),
        forall|p: PlanView|
            #![trigger with_entry(run_node(id, stages), p)]
            with_entry(run_node(id, stages), p) == Ok::<PlanView, Reason>(
                PlanView { run_blocks: insert_entry(p.run_blocks, id, stages), ..p },
            ),
{
    lemma_run_text(id, stages);
    lemma_stages(stages);
    lemma_entry_words();
    let items = seq![SexpView::Sym("run"@), SexpView::Sym(id)] + stage_nodes(stages);
    assert(items.skip(2) =~= stage_nodes(stages));
    assert(items[0] == SexpView::Sym("run"@) && items[1] == SexpView::Sym(id));
}

// ── The whole ────────────────────────────────────────────────────────────────

proof fn lemma_entries_push(nodes: Seq<SexpView>, p: PlanView, node: SexpView)
    ensures
        with_entries(nodes.push(node), p) == match with_entries(nodes, p) {
            Ok(q) => with_entry(node, q),
            Err(e) => Err(e),
        },
    decreases nodes.len(),
{
    let all = nodes.push(node);
    if nodes.len() == 0 {
        assert(all.skip(1) =~= Seq::<SexpView>::empty());
        match with_entry(node, p) {
            Ok(q) => {
                assert(with_entries(all.skip(1), q) == Ok::<PlanView, Reason>(q));
            },
            Err(_) => {},
        }
    } else {
        assert(all.skip(1) =~= nodes.skip(1).push(node));
        match with_entry(nodes[0], p) {
            Ok(q) => {
                lemma_entries_push(nodes.skip(1), q, node);
            },
            Err(_) => {},
        }
    }
}

proof fn lemma_syncs(nodes: Seq<SexpView>, text: Seq<char>, p: PlanView, s: Entries<SyncView>) -> (r:
    Seq<SexpView>)
    requires
        yields(text, flat_all(nodes)),
        with_entries(nodes, PlanView::empty()) == Ok::<PlanView, Reason>(p),
        p.syncs == Seq::<(Seq<char>, SyncView)>::empty(),
        ascending(s),
        forall|i: int| 0 <= i < s.len() ==> is_symbol((#[trigger] s[i]).0),
    ensures
        yields(text + syncs_text(s), flat_all(r)),
        with_entries(r, PlanView::empty()) == Ok::<PlanView, Reason>(PlanView { syncs: s, ..p }),
    decreases s.len(),
{
    if s.len() == 0 {
        assert(text + syncs_text(s) =~= text);
        assert(s =~= Seq::<(Seq<char>, SyncView)>::empty());
        nodes
    } else {
        let init = s.drop_last();
        let last = s.last();
        assert(last == s[s.len() - 1]);
        lemma_ascending_init(s);
        assert forall|i: int| 0 <= i < init.len() implies is_symbol((#[trigger] init[i]).0) by {
            assert(init[i] == s[i]);
        }
        let done = lemma_syncs(nodes, text, p, init);
        let node = sync_node(last.0, last.1);
        lemma_sync(last.0, last.1);
        lemma_join(text + syncs_text(init), flat_all(done), sync_text(last.0, last.1), flat(node));
        lemma_flat_push(done, node);
        lemma_entries_push(done, PlanView::empty(), node);
        assert(text + syncs_text(init) + sync_text(last.0, last.1) =~= text + syncs_text(s));
        done.push(node)
    }
}

proof fn lemma_projects(
    nodes: Seq<SexpView>,
    text: Seq<char>,
    p: PlanView,
    s: Entries<ProjectView>,
) -> (r: Seq<SexpView>)
    requires
        yields(text, flat_all(nodes)),
        with_entries(nodes, PlanView::empty()) == Ok::<PlanView, Reason>(p),
        p.projects == Seq::<(Seq<char>, ProjectView)>::empty(),
        ascending(s),
        forall|i: int|
            0 <= i < s.len() ==> is_symbol((#[trigger] s[i]).0) && functions_fit(s[i].1.functions),
    ensures
        yields(text + projects_text(s), flat_all(r)),
        with_entries(r, PlanView::empty()) == Ok::<PlanView, Reason>(PlanView { projects: s, ..p }),
    decreases s.len(),
{
    if s.len() == 0 {
        assert(text + projects_text(s) =~= text);
        assert(s =~= Seq::<(Seq<char>, ProjectView)>::empty());
        nodes
    } else {
        let init = s.drop_last();
        let last = s.last();
        assert(last == s[s.len() - 1]);
        lemma_ascending_init(s);
        assert forall|i: int| 0 <= i < init.len() implies is_symbol((#[trigger] init[i]).0)
            && functions_fit(init[i].1.functions) by {
            assert(init[i] == s[i]);
        }
        let done = lemma_projects(nodes, text, p, init);
        let node = project_node(last.0, last.1);
        lemma_project(last.0, last.1);
        lemma_join(
            text + projects_text(init),
            flat_all(done),
            project_text(last.0, last.1),
            flat(node),
        );
        lemma_flat_push(done, node);
        lemma_entries_push(done, PlanView::empty(), node);
        assert(text + projects_text(init) + project_text(last.0, last.1) =~= text + projects_text(
            s,
        ));
        done.push(node)
    }
}

proof fn lemma_runs(
    nodes: Seq<SexpView>,
    text: Seq<char>,
    p: PlanView,
    s: Entries<Seq<Seq<CallView>>>,
) -> (r: Seq<SexpView>)
    requires
        yields(text, flat_all(nodes)),
        with_entries(nodes, PlanView::empty()) == Ok::<PlanView, Reason>(p),
        p.run_blocks == Seq::<(Seq<char>, Seq<Seq<CallView>>)>::empty(),
        ascending(s),
        forall|i: int| 0 <= i < s.len() ==> is_symbol((#[trigger] s[i]).0) && stages_fit(s[i].1),
    ensures
        yields(text + runs_text(s), flat_all(r)),
        with_entries(r, PlanView::empty()) == Ok::<PlanView, Reason>(
            PlanView { run_blocks: s, ..p },
        ),
    decreases s.len(),
{
    if s.len() == 0 {
        assert(text + runs_text(s) =~= text);
        assert(s =~= Seq::<(Seq<char>, Seq<Seq<CallView>>)>::empty());
        nodes
    } else {
        let init = s.drop_last();
        let last = s.last();
        assert(last == s[s.len() - 1]);
        lemma_ascending_init(s);
        assert forall|i: int| 0 <= i < init.len() implies is_symbol((#[trigger] init[i]).0)
            && stages_fit(init[i].1) by {
            assert(init[i] == s[i]);
        }
        let done = lemma_runs(nodes, text, p, init);
        let node = run_node(last.0, last.1);
        lemma_run(last.0, last.1);
        lemma_join(text + runs_text(init), flat_all(done), run_text(last.0, last.1), flat(node));
        lemma_flat_push(done, node);
        lemma_entries_push(done, PlanView::empty(), node);
        assert(text + runs_text(init) + run_text(last.0, last.1) =~= text + runs_text(s));
        done.push(node)
    }
}

proof fn lemma_version_and_shell(p: PlanView) -> (r: Seq<SexpView>)
    ensures
        yields("  (version 1)\n"@ + ("  (shell "@ + quoted(p.shell) + ")\n"@), flat_all(r)),
        with_entries(r, PlanView::empty()) == Ok::<PlanView, Reason>(
            PlanView { shell: p.shell, ..PlanView::empty() },
        ),
{
    lemma_entry_words();
    reveal_strlit(" ");
    reveal_strlit("  ");
    reveal_strlit("(");
    reveal_strlit(")");
    reveal_strlit("1");
    reveal_strlit("\n");
    reveal_strlit("version");
    reveal_strlit("shell");
    reveal_strlit("  (version 1)\n");
    reveal_strlit("  (shell ");
    reveal_strlit(")\n");
    let none = Seq::<TokenView>::empty();
    let c = seq![close_token()];
    lemma_yields_close();
    lemma_yields_blanks("\n"@);
    lemma_join(")"@, c, "\n"@, none);
    assert(c + none =~= c);
    assert(")"@ + "\n"@ =~= ")\n"@);
    let v = "  "@ + "("@ + "version"@ + " "@;
    lemma_named(v, "  "@, "version"@, "1"@);
    let h = seq![open_token(), sym_token("version"@), sym_token("1"@)];
    lemma_join_closes(v + "1"@, h, ")\n"@, c);
    assert(v + "1"@ + ")\n"@ =~= "  (version 1)\n"@);
    lemma_named_flat("version"@, "1"@, Seq::empty());
    let vn = SexpView::List(
        seq![SexpView::Sym("version"@), SexpView::Sym("1"@)] + Seq::<SexpView>::empty(),
    );
    assert(h + c =~= flat(vn));
    assert("  (shell "@ =~= "  "@ + "("@ + "shell"@ + " "@);
    lemma_head_blank("  "@, "shell"@, " "@);
    lemma_yields_quoted(p.shell);
    lemma_flat_one(SexpView::Str(p.shell));
    lemma_list("  (shell "@, "shell"@, quoted(p.shell), seq![SexpView::Str(p.shell)]);
    let sn = SexpView::List(seq![SexpView::Sym("shell"@)] + seq![SexpView::Str(p.shell)]);
    lemma_join("  (shell "@ + quoted(p.shell) + ")"@, flat(sn), "\n"@, none);
    assert(flat(sn) + none =~= flat(sn));
    assert("  (shell "@ + quoted(p.shell) + ")"@ + "\n"@ =~= "  (shell "@ + quoted(p.shell)
        + ")\n"@);
    lemma_join(
        "  (version 1)\n"@,
        flat(vn),
        "  (shell "@ + quoted(p.shell) + ")\n"@,
        flat(sn),
    );
    lemma_flat_one(vn);
    lemma_flat_push(seq![vn], sn);
    let r = seq![vn].push(sn);
    assert(with_entries(r, PlanView::empty()) == Ok::<PlanView, Reason>(
        PlanView { shell: p.shell, ..PlanView::empty() },
    )) by {
        let e = PlanView::empty();
        lemma_entries_push(Seq::empty(), e, vn);
        assert(Seq::<SexpView>::empty().push(vn) =~= seq![vn]);
        lemma_entries_push(seq![vn], e, sn);
        let vi = seq![SexpView::Sym("version"@), SexpView::Sym("1"@)] + Seq::<SexpView>::empty();
        assert(vi[0] == SexpView::Sym("version"@));
        assert(with_entry(vn, e) == Ok::<PlanView, Reason>(e));
        let si = seq![SexpView::Sym("shell"@)] + seq![SexpView::Str(p.shell)];
        assert(si[0] == SexpView::Sym("shell"@) && si[1] == SexpView::Str(p.shell));
    }
    r
}

/// A plan that was written as a kirufile is read back as itself, whatever its
/// texts hold and however its blocks are nested. Names and keys have to be
/// symbols: they are written without quotes.
pub proof fn law_kirufile_read_back(p: PlanView)
    requires
        plan_named(p),
        plan_ordered(p),
    ensures
        plan_of(plan_text(p)) == Ok::<PlanView, Reason>(p),
{
    let head = "  (version 1)\n"@ + ("  (shell "@ + quoted(p.shell) + ")\n"@);
    let n0 = lemma_version_and_shell(p);
    let p0 = PlanView { shell: p.shell, ..PlanView::empty() };
    let n1 = lemma_syncs(n0, head, p0, p.syncs);
    let x1 = head + syncs_text(p.syncs);
    let p1 = PlanView { syncs: p.syncs, ..p0 };
    let n2 = lemma_projects(n1, x1, p1, p.projects);
    let x2 = x1 + projects_text(p.projects);
    let p2 = PlanView { projects: p.projects, ..p1 };
    let n3 = lemma_runs(n2, x2, p2, p.run_blocks);
    let x3 = x2 + runs_text(p.run_blocks);
    lemma_entry_words();
    reveal_strlit("(");
    reveal_strlit(")");
    reveal_strlit("\n");
    reveal_strlit("kirufile");
    reveal_strlit("(kirufile\n");
    reveal_strlit(")\n");
    lemma_head_blank(Seq::empty(), "kirufile"@, "\n"@);
    assert("(kirufile\n"@ =~= Seq::<char>::empty() + "("@ + "kirufile"@ + "\n"@);
    lemma_list("(kirufile\n"@, "kirufile"@, x3, n3);
    let root = SexpView::List(seq![SexpView::Sym("kirufile"@)] + n3);
    let none = Seq::<TokenView>::empty();
    lemma_yields_blanks("\n"@);
    lemma_join("(kirufile\n"@ + x3 + ")"@, flat(root), "\n"@, none);
    let text = "(kirufile\n"@ + x3 + ")"@ + "\n"@;
    assert(text =~= plan_text(p));
    assert(tokens(text) == flat(root) + none) by {
        reveal(yields);
        assert(text + Seq::<char>::empty() =~= text);
        assert(tokens(Seq::<char>::empty()) =~= none);
        assert(flat(root) + none + none =~= flat(root) + none);
    }
    lemma_node_read_back(root, none);
    let items = seq![SexpView::Sym("kirufile"@)] + n3;
    assert(items.skip(1) =~= n3);
    assert(items[0] == SexpView::Sym("kirufile"@));
}

} // verus!
