//! What templates, labels, nodes and rows stand for.
use vstd::prelude::*;
use crate::ir::program::{
    arm_label_of, joined, keys_of, label_of, label_with, lemma_closed_children, rows_among,
    subtree, NodeKindView, NodeView, ProgramView,
};
use crate::ir::run_plan::{
    annotation_of, arm_rows, body_rows, instruction_rows, run_body, RowView,
};
use crate::ir::{
    has_command, parts_have_command, shown, shown_parts, ArmView, InstructionView, IrView,
    SegmentView, TemplateView,
};
use crate::names::lookup;
use crate::plan::ArmPatternView;

verus! {

broadcast use vstd::string::group_string_axioms;

// ── Templates ────────────────────────────────────────────────────────────────

/// A template is shown piece by piece: a literal as it is, a command between
/// `$(` and `)`, a variable by its value.
pub proof fn law_a_template_is_shown_piece_by_piece(
    a: Seq<SegmentView>,
    b: Seq<SegmentView>,
    piece: SegmentView,
)
    ensures
        shown_parts(Seq::empty()).len() == 0,
        shown_parts(a + b) == shown_parts(a) + shown_parts(b),
        shown_parts(seq![piece]) == match piece {
            SegmentView::Lit(s) => s,
            SegmentView::Cmd(inner) => seq!['$', '('] + shown(inner) + seq![')'],
            SegmentView::CmdAt { template, .. } => seq!['$', '('] + shown(template) + seq![')'],
            SegmentView::Ref { template, .. } => shown(template),
        },
        forall|t: TemplateView| #[trigger] shown(t) == shown_parts(t.parts),
    decreases b.len(),
{
    reveal_strlit("$(");
    reveal_strlit(")");
    assert("$("@ =~= seq!['$', '(']);
    assert(")"@ =~= seq![')']);
    let one = seq![piece];
    let none = Seq::<SegmentView>::empty();
    assert(one.drop_last() =~= none);
    assert(shown_parts(none) =~= Seq::<char>::empty());
    assert(one.last() == piece);
    let own = match piece {
        SegmentView::Lit(s) => s,
        SegmentView::Cmd(inner) => "$("@ + shown(inner) + ")"@,
        SegmentView::CmdAt { template, .. } => "$("@ + shown(template) + ")"@,
        SegmentView::Ref { template, .. } => shown(template),
    };
    assert(shown_parts(one) == shown_parts(none) + own);
    assert(Seq::<char>::empty() + own =~= own);
    if b.len() == 0 {
        assert(a + b =~= a);
        assert(b =~= none);
        assert(shown_parts(a) + Seq::<char>::empty() =~= shown_parts(a));
    } else {
        law_a_template_is_shown_piece_by_piece(a, b.drop_last(), piece);
        assert((a + b).drop_last() =~= a + b.drop_last());
        assert((a + b).last() == b.last());
        let more = match b.last() {
            SegmentView::Lit(s) => s,
            SegmentView::Cmd(inner) => "$("@ + shown(inner) + ")"@,
            SegmentView::CmdAt { template, .. } => "$("@ + shown(template) + ")"@,
            SegmentView::Ref { template, .. } => shown(template),
        };
        assert(shown_parts(b) == shown_parts(b.drop_last()) + more);
        assert(shown_parts(a + b) == shown_parts(a + b.drop_last()) + more);
        assert(shown_parts(a) + shown_parts(b.drop_last()) + more =~= shown_parts(a) + shown_parts(
            b,
        ));
    }
}

/// A template has to be worked out while the run goes on just where a piece of
/// it is a command, or a variable whose value has to be.
pub proof fn law_commands_make_a_template_dynamic(parts: Seq<SegmentView>)
    ensures
        parts_have_command(parts) <==> exists|i: int|
            0 <= i < parts.len() && match #[trigger] parts[i] {
                SegmentView::Lit(_) => false,
                SegmentView::Cmd(_) => true,
                SegmentView::CmdAt { .. } => true,
                SegmentView::Ref { template, .. } => has_command(template),
            },
        forall|t: TemplateView| #[trigger] has_command(t) <==> parts_have_command(t.parts),
    decreases parts.len(),
{
    if parts.len() > 0 {
        let init = parts.drop_last();
        law_commands_make_a_template_dynamic(init);
        if parts_have_command(init) {
            let i = choose|i: int|
                0 <= i < init.len() && match #[trigger] init[i] {
                    SegmentView::Lit(_) => false,
                    SegmentView::Cmd(_) => true,
                    SegmentView::CmdAt { .. } => true,
                    SegmentView::Ref { template, .. } => has_command(template),
                };
            assert(parts[i] == init[i]);
        } else {
            assert forall|i: int| 0 <= i < init.len() implies parts[i] == #[trigger] init[i] by {}
            assert(parts[parts.len() - 1] == parts.last());
            if !parts_have_command(parts) {
                assert forall|i: int| 0 <= i < parts.len() implies match #[trigger] parts[i] {
                    SegmentView::Lit(_) => true,
                    SegmentView::Cmd(_) => false,
                    SegmentView::CmdAt { .. } => false,
                    SegmentView::Ref { template, .. } => !has_command(template),
                } by {
                    if i < init.len() {
                        assert(init[i] == parts[i]);
                    }
                }
            }
        }
    }
}

// ── Labels ───────────────────────────────────────────────────────────────────

/// Texts are joined in order, with the separator between each two of them and
/// nowhere else.
pub proof fn law_texts_are_joined(
    a: Seq<Seq<char>>,
    b: Seq<Seq<char>>,
    one: Seq<char>,
    between: Seq<char>,
)
    ensures
        joined(Seq::empty(), between).len() == 0,
        joined(seq![one], between) == one,
        a.len() > 0 && b.len() > 0 ==> joined(a + b, between) == joined(a, between) + between
            + joined(b, between),
    decreases b.len(),
{
    if a.len() > 0 && b.len() > 0 {
        assert((a + b).drop_last() =~= a + b.drop_last());
        assert((a + b).last() == b.last());
        if b.len() == 1 {
            assert(a + b.drop_last() =~= a);
        } else {
            law_texts_are_joined(a, b.drop_last(), one, between);
            assert(joined(a + b, between) == joined(a + b.drop_last(), between) + between
                + b.last());
            assert(joined(b, between) == joined(b.drop_last(), between) + between + b.last());
            assert(joined(a, between) + between + joined(b.drop_last(), between) + between
                + b.last() =~= joined(a, between) + between + joined(b, between));
        }
    }
}

/// The label of a node names what it does, and with what. A switch and a project
/// have none.
pub proof fn law_labels_name_what_is_done(
    t: TemplateView,
    pairs: Seq<crate::ir::EnvPairView>,
    text: Seq<char>,
)
    ensures
        label_of(NodeKindView::Log(t)) == Some("log: "@ + shown(t)),
        label_of(NodeKindView::Exec(t)) == Some("exec: "@ + shown(t)),
        label_of(NodeKindView::Cd(t)) == Some("cd: "@ + shown(t)),
        label_of(NodeKindView::Env(pairs)) == Some("env: "@ + joined(keys_of(pairs), ", "@)),
        label_of(NodeKindView::Async) == Some("async"@),
        label_of(NodeKindView::Arm(ArmPatternView::Default)) == Some("switch default"@),
        text.len() > 0 ==> label_of(NodeKindView::Arm(ArmPatternView::Lit(text))) == Some(
            "switch case "@ + text,
        ),
        label_of(NodeKindView::Arm(ArmPatternView::Lit(Seq::empty()))) == Some(
            "switch case \"\""@,
        ),
        label_of(NodeKindView::Switch(t)) is None,
        label_of(NodeKindView::Project(t)) is None,
        keys_of(pairs).len() == pairs.len(),
        forall|i: int| 0 <= i < pairs.len() ==> #[trigger] keys_of(pairs)[i] == pairs[i].key,
{
    lemma_words();
    lemma_known_label(NodeKindView::Log(t), "log"@, "log: "@, shown(t));
    lemma_known_label(NodeKindView::Exec(t), "exec"@, "exec: "@, shown(t));
    lemma_known_label(NodeKindView::Cd(t), "cd"@, "cd: "@, shown(t));
    lemma_known_label(
        NodeKindView::Env(pairs),
        "env"@,
        "env: "@,
        joined(keys_of(pairs), ", "@),
    );
}

proof fn lemma_words()
    ensures
        "log"@ + ": "@ == "log: "@,
        "exec"@ + ": "@ == "exec: "@,
        "cd"@ + ": "@ == "cd: "@,
        "env"@ + ": "@ == "env: "@,
{
    reveal_strlit(": ");
    reveal_strlit("log");
    reveal_strlit("exec");
    reveal_strlit("cd");
    reveal_strlit("env");
    reveal_strlit("log: ");
    reveal_strlit("exec: ");
    reveal_strlit("cd: ");
    reveal_strlit("env: ");
    assert("log"@ + ": "@ =~= "log: "@);
    assert("exec"@ + ": "@ =~= "exec: "@);
    assert("cd"@ + ": "@ =~= "cd: "@);
    assert("env"@ + ": "@ =~= "env: "@);
}

proof fn lemma_known_label(
    kind: NodeKindView,
    word: Seq<char>,
    start: Seq<char>,
    data: Seq<char>,
)
    requires
        crate::ir::program::keyword_of(kind) == Some(word),
        word + ": "@ == start,
    ensures
        label_with(kind, data) == Some(start + data),
{
}

/// A statement whose value is known is labelled with the word for what it does
/// and that value; the label that it has before is the one for its own text.
pub proof fn law_a_known_value_stands_in_the_label(t: TemplateView, data: Seq<char>)
    ensures
        label_with(NodeKindView::Log(t), data) == Some("log: "@ + data),
        label_with(NodeKindView::Exec(t), data) == Some("exec: "@ + data),
        label_with(NodeKindView::Cd(t), data) == Some("cd: "@ + data),
        label_with(NodeKindView::Switch(t), data) is None,
        label_with(NodeKindView::Project(t), data) is None,
        label_with(NodeKindView::Async, data) is None,
{
    lemma_words();
}

// ── Nodes ────────────────────────────────────────────────────────────────────

/// The nodes under roots are those under each of them, in order; and those under
/// one root are itself and the ones under its children.
pub proof fn law_a_subtree_goes_node_by_node(
    p: ProgramView,
    a: Seq<usize>,
    b: Seq<usize>,
    id: usize,
)
    requires
        p.closed(),
        id < p.nodes.len(),
    ensures
        p.subtree(Seq::empty()).len() == 0,
        p.subtree(a + b) == p.subtree(a) + p.subtree(b),
        p.subtree(seq![id]) == seq![id] + p.subtree(p.nodes[id as int].children),
    decreases b.len(),
{
    let n = p.nodes.len();
    lemma_closed_children(p.nodes, id);
    let one = seq![id];
    let none = Seq::<usize>::empty();
    assert(one.drop_last() =~= none);
    assert(one.last() == id);
    assert(subtree(p.nodes, none, n) =~= none);
    let under = crate::ir::program::tree(p.nodes, id, n);
    assert(subtree(p.nodes, one, n) == subtree(p.nodes, none, n) + under);
    assert(none + under =~= under);
    if b.len() == 0 {
        assert(a + b =~= a);
        assert(b =~= none);
        assert(p.subtree(a) + none =~= p.subtree(a));
    } else {
        law_a_subtree_goes_node_by_node(p, a, b.drop_last(), id);
        assert((a + b).drop_last() =~= a + b.drop_last());
        assert((a + b).last() == b.last());
        let last = crate::ir::program::tree(p.nodes, b.last(), n);
        assert(subtree(p.nodes, b, n) == subtree(p.nodes, b.drop_last(), n) + last);
        assert(subtree(p.nodes, a + b, n) == subtree(p.nodes, a + b.drop_last(), n) + last);
        assert(p.subtree(a) + p.subtree(b.drop_last()) + last =~= p.subtree(a) + p.subtree(b));
    }
}

/// The rows among nodes are counted: every node has one but a switch and a
/// project.
pub proof fn law_rows_are_counted(nodes: Seq<NodeView>, ids: Seq<usize>, id: usize)
    ensures
        rows_among(nodes, Seq::empty()) == 0,
        rows_among(nodes, ids.push(id)) == rows_among(nodes, ids) + (if nodes[id as int].kind is Switch
            || nodes[id as int].kind is Project {
            0nat
        } else {
            1
        }),
{
    assert(ids.push(id).drop_last() =~= ids);
}

/// The roots of a run are those under its name; an unknown run has none.
pub proof fn law_a_run_has_its_roots(p: ProgramView, run: Seq<char>)
    ensures
        lookup(p.runs, run) is Some ==> lookup(p.runs, run) == Some(p.roots(run)),
        lookup(p.runs, run) is None ==> p.roots(run).len() == 0,
{
}

// ── Rows before a run ────────────────────────────────────────────────────────

/// The rows of a body are those of its instructions, in order.
pub proof fn law_rows_follow_their_instructions(
    a: Seq<InstructionView>,
    b: Seq<InstructionView>,
    depth: nat,
    project: Option<Seq<char>>,
)
    ensures
        body_rows(Seq::empty(), depth, project).len() == 0,
        body_rows(a + b, depth, project) == body_rows(a, depth, project) + body_rows(
            b,
            depth,
            project,
        ),
    decreases b.len(),
{
    if b.len() == 0 {
        assert(a + b =~= a);
        assert(body_rows(a, depth, project) + body_rows(b, depth, project) =~= body_rows(
            a,
            depth,
            project,
        ));
    } else {
        law_rows_follow_their_instructions(a, b.drop_last(), depth, project);
        assert((a + b).drop_last() =~= a + b.drop_last());
        assert((a + b).last() == b.last());
        let last = instruction_rows(b.last(), depth, project);
        assert(body_rows(b, depth, project) == body_rows(b.drop_last(), depth, project) + last);
        assert(body_rows(a + b, depth, project) == body_rows(a + b.drop_last(), depth, project)
            + last);
        assert(body_rows(a, depth, project) + body_rows(b.drop_last(), depth, project) + last
            =~= body_rows(a, depth, project) + body_rows(b, depth, project));
    }
}

/// A step is a row of its own, and what it holds stands one level below it. What
/// an `env`, an `async` or a project holds stands where it stands, the latter
/// under the name of the project, if that is not empty. Other statements have no
/// row.
#[verifier::rlimit(40)]
pub proof fn law_what_an_instruction_shows(
    inst: InstructionView,
    depth: nat,
    project: Option<Seq<char>>,
)
    requires
        depth < usize::MAX,
    ensures
        ({
            let rows = body_rows(seq![inst], depth, project);
            match inst {
                InstructionView::Step { row, label, body } => {
                    &&& rows.len() > 0
                    &&& rows[0] == (RowView { row, depth, label, project })
                    &&& rows.skip(1) == body_rows(body, depth + 1, project)
                },
                InstructionView::Env { body, .. } => rows == body_rows(body, depth, project),
                InstructionView::Async { body } => rows == body_rows(body, depth, project),
                InstructionView::Context { project: name, body } => {
                    &&& shown(name).len() > 0 ==> rows == body_rows(body, depth, Some(shown(name)))
                    &&& shown(name).len() == 0 ==> rows == body_rows(body, depth, None)
                },
                InstructionView::Switch { arms, .. } => rows == arm_rows(arms, depth, project),
                _ => rows.len() == 0,
            }
        }),
{
    let one = seq![inst];
    let none = Seq::<InstructionView>::empty();
    assert(one.drop_last() =~= none);
    assert(one.last() == inst);
    assert(body_rows(none, depth, project) =~= Seq::<RowView>::empty());
    let own = instruction_rows(inst, depth, project);
    assert(body_rows(one, depth, project) == body_rows(none, depth, project) + own);
    assert(Seq::<RowView>::empty() + own =~= own);
    match inst {
        InstructionView::Step { row, label, body } => {
            let under = body_rows(body, depth + 1, project);
            assert(own == seq![RowView { row, depth, label, project }] + under);
            assert(own.skip(1) =~= under);
        },
        InstructionView::Context { project: name, body } => {
            assert(own == body_rows(body, depth, annotation_of(name)));
        },
        InstructionView::Switch { arms, .. } => {
            assert(own == arm_rows(arms, depth, project));
        },
        _ => {},
    }
}

/// Each arm of a switch is a row, in order, with what it is for, above the rows of
/// its body.
pub proof fn law_every_arm_is_a_row(
    arms: Seq<ArmView>,
    last: ArmView,
    depth: nat,
    project: Option<Seq<char>>,
)
    requires
        depth < usize::MAX,
    ensures
        arm_rows(Seq::empty(), depth, project).len() == 0,
        arm_rows(arms.push(last), depth, project) == arm_rows(arms, depth, project) + (seq![
            RowView { row: last.row, depth, label: arm_label_of(last.pattern), project },
        ] + body_rows(last.body, depth + 1, project)),
{
    assert(arms.push(last).drop_last() =~= arms);
    let all = arms.push(last);
    assert(all.last() == last);
    let own = crate::ir::run_plan::one_arm_rows(last, depth, project);
    assert(arm_rows(all, depth, project) == arm_rows(arms, depth, project) + own);
    assert(own == seq![
        RowView { row: last.row, depth, label: arm_label_of(last.pattern), project },
    ] + body_rows(last.body, depth + 1, project));
}

/// The rows of a run are those of its own body; an unknown run has none.
pub proof fn law_a_run_has_its_body(ir: IrView, name: Seq<char>)
    ensures
        lookup(ir.runs, name) is Some ==> lookup(ir.runs, name) == Some(run_body(ir, name)),
        lookup(ir.runs, name) is None ==> run_body(ir, name).len() == 0,
{
}

} // verus!
