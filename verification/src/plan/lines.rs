//! How instructions are laid out in lines.
use vstd::prelude::*;
use crate::layout::lemma_quoted_one_line;
use crate::plan::write::{
    arms_text, inline_body, inline_text, line_text, lines_text, pad, pairs_text, parts_text,
    pattern_text, template_text,
};
use crate::plan::{
    ArmPatternView, ArmView, EnvPairView, InstructionView, PartView, TemplateView,
};
use crate::sexp::quoted;

verus! {

/// Whether a text holds no line break.
pub open spec fn one_line(s: Seq<char>) -> bool {
    !s.contains('\n')
}

/// How many line breaks a text holds.
pub open spec fn breaks(s: Seq<char>) -> nat
    decreases s.len(),
{
    if s.len() == 0 {
        0
    } else {
        breaks(s.drop_last()) + (if s.last() == '\n' {
            1nat
        } else {
            0
        })
    }
}

/// Whether no key of a variable holds a line break.
pub open spec fn pairs_on_one_line(pairs: Seq<EnvPairView>) -> bool {
    forall|i: int| 0 <= i < pairs.len() ==> one_line((#[trigger] pairs[i]).key)
}

/// Whether no key in an instruction holds a line break.
pub open spec fn keys_on_one_line(inst: InstructionView) -> bool
    decreases inst,
{
    match inst {
        InstructionView::Env { pairs, body } => pairs_on_one_line(pairs) && body_on_one_line(body),
        InstructionView::Switch { arms, .. } => arms_on_one_line(arms),
        _ => true,
    }
}

pub open spec fn body_on_one_line(body: Seq<InstructionView>) -> bool
    decreases body,
{
    body.len() > 0 ==> body_on_one_line(body.drop_last()) && keys_on_one_line(body.last())
}

pub open spec fn arms_on_one_line(arms: Seq<ArmView>) -> bool
    decreases arms,
{
    arms.len() > 0 ==> arms_on_one_line(arms.drop_last()) && body_on_one_line(arms.last().body)
}

proof fn lemma_join(a: Seq<char>, b: Seq<char>)
    requires
        one_line(a),
        one_line(b),
    ensures
        one_line(a + b),
{
    assert forall|i: int| 0 <= i < (a + b).len() implies (a + b)[i] != '\n' by {
        if i < a.len() {
            assert((a + b)[i] == a[i]);
        } else {
            assert((a + b)[i] == b[i - a.len()]);
        }
    }
}

proof fn lemma_join3(a: Seq<char>, b: Seq<char>, c: Seq<char>)
    requires
        one_line(a),
        one_line(b),
        one_line(c),
    ensures
        one_line(a + b + c),
{
    lemma_join(a, b);
    lemma_join(a + b, c);
}

proof fn lemma_words()
    ensures
        one_line(""@),
        one_line(" "@),
        one_line("("@),
        one_line(")"@),
        one_line("))"@),
        one_line(") ("@),
        one_line("(t"@),
        one_line(" (lit "@),
        one_line(" (cmd "@),
{
    reveal_strlit("");
    reveal_strlit(" ");
    reveal_strlit("(");
    reveal_strlit(")");
    reveal_strlit("))");
    reveal_strlit(") (");
    reveal_strlit("(t");
    reveal_strlit(" (lit ");
    reveal_strlit(" (cmd ");
}

proof fn lemma_more_words()
    ensures
        one_line("(bind "@),
        one_line("(log "@),
        one_line("(cd "@),
        one_line("(env ("@),
        one_line("(switch "@),
        one_line(" (case "@),
        one_line(" (case _ "@),
{
    reveal_strlit("(bind ");
    reveal_strlit("(log ");
    reveal_strlit("(cd ");
    reveal_strlit("(env (");
    reveal_strlit("(switch ");
    reveal_strlit(" (case ");
    reveal_strlit(" (case _ ");
}

proof fn lemma_template(t: TemplateView)
    ensures
        one_line(template_text(t)),
    decreases t,
{
    lemma_words();
    lemma_parts(t.parts);
    lemma_join3("(t"@, parts_text(t.parts), ")"@);
}

proof fn lemma_parts(parts: Seq<PartView>)
    ensures
        one_line(parts_text(parts)),
    decreases parts,
{
    if parts.len() > 0 {
        lemma_words();
        lemma_parts(parts.drop_last());
        match parts.last() {
            PartView::Lit(s) => {
                lemma_quoted_one_line(s);
                lemma_join3(" (lit "@, quoted(s), ")"@);
                lemma_join(parts_text(parts.drop_last()), " (lit "@ + quoted(s) + ")"@);
            },
            PartView::Cmd(inner) => {
                lemma_template(inner);
                lemma_join3(" (cmd "@, template_text(inner), ")"@);
                lemma_join(
                    parts_text(parts.drop_last()),
                    " (cmd "@ + template_text(inner) + ")"@,
                );
            },
        }
    }
}

proof fn lemma_pairs(pairs: Seq<EnvPairView>)
    requires
        pairs_on_one_line(pairs),
    ensures
        one_line(pairs_text(pairs)),
    decreases pairs.len(),
{
    if pairs.len() > 0 {
        let init = pairs.drop_last();
        let last = pairs.last();
        assert(last == pairs[pairs.len() - 1]);
        assert forall|i: int| 0 <= i < init.len() implies one_line((#[trigger] init[i]).key) by {
            assert(init[i] == pairs[i]);
        }
        lemma_words();
        lemma_pairs(init);
        lemma_template(last.value);
        let gap = if pairs.len() > 1 {
            " "@
        } else {
            Seq::<char>::empty()
        };
        lemma_join3("("@, last.key, " "@);
        lemma_join3("("@ + last.key + " "@, template_text(last.value), ")"@);
        lemma_join3(
            pairs_text(init),
            gap,
            "("@ + last.key + " "@ + template_text(last.value) + ")"@,
        );
    }
}

/// An instruction that shares a line does not break it.
pub proof fn lemma_inline(inst: InstructionView)
    requires
        keys_on_one_line(inst),
    ensures
        one_line(inline_text(inst)),
    decreases inst,
{
    lemma_words();
    lemma_more_words();
    match inst {
        InstructionView::Bind { value } => {
            lemma_template(value);
            lemma_join3("(bind "@, template_text(value), ")"@);
        },
        InstructionView::Log(value) => {
            lemma_template(value);
            lemma_join3("(log "@, template_text(value), ")"@);
        },
        InstructionView::Cd(value) => {
            lemma_template(value);
            lemma_join3("(cd "@, template_text(value), ")"@);
        },
        InstructionView::Env { pairs, body } => {
            lemma_pairs(pairs);
            lemma_body(body);
            lemma_join3("(env ("@, pairs_text(pairs), ") ("@);
            lemma_join3("(env ("@ + pairs_text(pairs) + ") ("@, inline_body(body), "))"@);
        },
        InstructionView::Switch { subject, arms } => {
            lemma_template(subject);
            lemma_arms(arms);
            lemma_join3("(switch "@, template_text(subject), arms_text(arms));
            lemma_join("(switch "@ + template_text(subject) + arms_text(arms), ")"@);
        },
    }
}

proof fn lemma_body(body: Seq<InstructionView>)
    requires
        body_on_one_line(body),
    ensures
        one_line(inline_body(body)),
    decreases body,
{
    if body.len() > 0 {
        lemma_words();
        lemma_body(body.drop_last());
        lemma_inline(body.last());
        let gap = if body.len() > 1 {
            " "@
        } else {
            Seq::<char>::empty()
        };
        lemma_join3(inline_body(body.drop_last()), gap, inline_text(body.last()));
    }
}

proof fn lemma_arms(arms: Seq<ArmView>)
    requires
        arms_on_one_line(arms),
    ensures
        one_line(arms_text(arms)),
    decreases arms,
{
    if arms.len() > 0 {
        let last = arms.last();
        lemma_words();
        lemma_more_words();
        lemma_arms(arms.drop_last());
        lemma_body(last.body);
        match last.pattern {
            ArmPatternView::Lit(s) => {
                lemma_quoted_one_line(s);
                lemma_join3(" (case "@, quoted(s), " "@);
            },
            ArmPatternView::Default => {},
        }
        lemma_join3(pattern_text(last.pattern), inline_body(last.body), ")"@);
        lemma_join(
            arms_text(arms.drop_last()),
            pattern_text(last.pattern) + inline_body(last.body) + ")"@,
        );
    }
}

/// The indent of a line: two spaces for each level.
pub proof fn lemma_pad(indent: nat)
    ensures
        pad(indent).len() == 2 * indent,
        forall|i: int| 0 <= i < pad(indent).len() ==> #[trigger] pad(indent)[i] == ' ',
        one_line(pad(indent)),
    decreases indent,
{
    reveal_strlit("  ");
    if indent > 0 {
        lemma_pad((indent - 1) as nat);
    }
}

proof fn lemma_no_breaks(s: Seq<char>)
    requires
        one_line(s),
    ensures
        breaks(s) == 0,
    decreases s.len(),
{
    if s.len() > 0 {
        assert(s[s.len() - 1] != '\n');
        assert forall|i: int| 0 <= i < s.drop_last().len() implies s.drop_last()[i] != '\n' by {
            assert(s.drop_last()[i] == s[i]);
        }
        lemma_no_breaks(s.drop_last());
    }
}

proof fn lemma_breaks_join(a: Seq<char>, b: Seq<char>)
    ensures
        breaks(a + b) == breaks(a) + breaks(b),
    decreases b.len(),
{
    if b.len() == 0 {
        assert(a + b =~= a);
    } else {
        assert((a + b).drop_last() =~= a + b.drop_last());
        lemma_breaks_join(a, b.drop_last());
    }
}

/// Writing instructions and then more of them gives the text of all of them.
pub proof fn law_lines_are_joined(
    a: Seq<InstructionView>,
    b: Seq<InstructionView>,
    indent: nat,
)
    ensures
        lines_text(a + b, indent) == lines_text(a, indent) + lines_text(b, indent),
    decreases b.len(),
{
    if b.len() == 0 {
        assert(a + b =~= a);
        assert(lines_text(a, indent) + Seq::<char>::empty() =~= lines_text(a, indent));
    } else {
        assert((a + b).drop_last() =~= a + b.drop_last());
        law_lines_are_joined(a, b.drop_last(), indent);
        assert(lines_text(a, indent) + (lines_text(b.drop_last(), indent) + line_text(
            b.last(),
            indent,
        )) =~= lines_text(a, indent) + lines_text(b.drop_last(), indent) + line_text(
            b.last(),
            indent,
        ));
    }
}

/// An instruction is one whole line: two spaces for each level, the instruction
/// as it stands on a line that it shares, and the one line break at the end.
pub proof fn law_an_instruction_is_one_line(inst: InstructionView, indent: nat)
    requires
        keys_on_one_line(inst),
    ensures
        line_text(inst, indent) == pad(indent) + inline_text(inst) + "\n"@,
        pad(indent).len() == 2 * indent,
        forall|i: int| 0 <= i < pad(indent).len() ==> #[trigger] pad(indent)[i] == ' ',
        one_line(pad(indent) + inline_text(inst)),
        breaks(line_text(inst, indent)) == 1,
{
    lemma_pad(indent);
    lemma_inline(inst);
    lemma_join(pad(indent), inline_text(inst));
    lemma_no_breaks(pad(indent) + inline_text(inst));
    lemma_breaks_join(pad(indent) + inline_text(inst), "\n"@);
    reveal_strlit("\n");
    assert("\n"@.drop_last() =~= Seq::<char>::empty());
    reveal_with_fuel(breaks, 2);
}

/// Instructions are written in as many lines as there are of them.
pub proof fn law_as_many_lines_as_instructions(body: Seq<InstructionView>, indent: nat)
    requires
        body_on_one_line(body),
    ensures
        breaks(lines_text(body, indent)) == body.len(),
    decreases body.len(),
{
    if body.len() > 0 {
        law_as_many_lines_as_instructions(body.drop_last(), indent);
        law_an_instruction_is_one_line(body.last(), indent);
        lemma_breaks_join(
            lines_text(body.drop_last(), indent),
            line_text(body.last(), indent),
        );
    }
}

} // verus!
