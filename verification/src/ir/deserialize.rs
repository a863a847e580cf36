//! Reading the execution form from a textual kirufile.
use vstd::prelude::*;
use crate::ir::{
    arm_views, body_viewer, chain_viewer, instruction_views, pair_views, project_viewer,
    segment_views, sync_viewer, text_viewer, Arm, ArmView, EnvPair, EnvPairView, Instruction,
    InstructionView, Ir, IrView, Project, ProjectView, Segment, SegmentView, Sync, SyncView,
    Template, TemplateView,
};
use crate::names::{insert_entry, lemma_map_insert, Entries};
use crate::plan::read::{head, head_of, pattern_of, prepend, read_pattern, read_stages, stages_of};
use crate::sexp::{
    as_list, expect_str, expect_sym, expect_sym_arg, expected_str, expected_sym, expected_sym_arg,
    found_error, found_reason, lemma_child_decreases, node_at, parse_sexp_tokens, sexp_views,
    token_views, tokenize_kirufile, tokens, Reason, Sexp, SexpView,
};
use crate::text::{number, parse_number, same};

verus! {

broadcast use vstd::string::group_string_axioms;

// ── Numbers ──────────────────────────────────────────────────────────────────

/// Reads the number at a position of a list; `ctx` names it where no symbol is
/// there, and `what` where the symbol is no number.
pub open spec fn number_arg(
    items: Seq<SexpView>,
    idx: int,
    ctx: Seq<char>,
    what: Seq<char>,
    max: nat,
) -> Result<nat, Reason> {
    match expected_sym_arg(items, idx, ctx) {
        Err(e) => Err(e),
        Ok(s) => match number(s, max) {
            Ok(n) => Ok(n),
            Err(e) => Err(what + e.message_view()),
        },
    }
}

fn read_number(items: &Vec<Sexp>, idx: usize, ctx: &str, what: &str, max: u64) -> (r: Result<
    u64,
    String,
>)
    ensures
        number_arg(sexp_views(items@), idx as int, ctx@, what@, max as nat) == match r {
            Ok(n) => Ok::<nat, Reason>(n as nat),
            Err(e) => Err(e@),
        },
        r matches Ok(n) ==> n <= max,
{
    let s = match expect_sym_arg(items, idx, ctx) {
        Ok(s) => s,
        Err(e) => {
            return Err(e);
        },
    };
    match parse_number(s.as_str(), max) {
        Ok(n) => Ok(n),
        Err(e) => {
            let mut m = what.to_owned();
            m.push_str(e.message().as_str());
            Err(m)
        },
    }
}

fn read_position(items: &Vec<Sexp>, idx: usize, ctx: &str, what: &str) -> (r: Result<usize, String>)
    ensures
        number_arg(sexp_views(items@), idx as int, ctx@, what@, usize::MAX as nat) == match r {
            Ok(n) => Ok::<nat, Reason>(n as nat),
            Err(e) => Err(e@),
        },
{
    match read_number(items, idx, ctx, what, usize::MAX as u64) {
        Ok(n) => Ok(n as usize),
        Err(e) => Err(e),
    }
}

// ── Templates ────────────────────────────────────────────────────────────────

/// Reads a `(t ..)` node.
pub open spec fn template_of(node: SexpView) -> Result<TemplateView, Reason>
    decreases node,
{
    match node {
        SexpView::List(items) => match expected_sym(items, 0, "t"@) {
            Err(e) => Err(e),
            Ok(_) => match segments_of(items.skip(1)) {
                Err(e) => Err(e),
                Ok(parts) => Ok(TemplateView { parts }),
            },
        },
        _ => Err("expected template list"@),
    }
}

/// Reads the pieces of a template.
pub open spec fn segments_of(nodes: Seq<SexpView>) -> Result<Seq<SegmentView>, Reason>
    decreases nodes,
{
    if nodes.len() == 0 {
        Ok(Seq::empty())
    } else {
        match segment_of(nodes[0]) {
            Err(e) => Err(e),
            Ok(part) => prepend(seq![part], segments_of(nodes.skip(1))),
        }
    }
}

/// Reads a `(lit ..)`, `(cmd ..)` or `(ref ..)` node. A command may come with
/// its place in a source file: `(cmd START LEN FILE TEMPLATE)`.
pub open spec fn segment_of(node: SexpView) -> Result<SegmentView, Reason>
    decreases node,
{
    match node {
        SexpView::List(items) => if items.len() > 0 && items[0] == SexpView::Sym("lit"@) {
            match expected_str(items, 1, "lit"@) {
                Ok(s) => Ok(SegmentView::Lit(s)),
                Err(e) => Err(e),
            }
        } else if items.len() > 0 && items[0] == SexpView::Sym("cmd"@) {
            if items.len() >= 5 {
                match number_arg(items, 1, "cmd start"@, "cmd start: "@, usize::MAX as nat) {
                    Err(e) => Err(e),
                    Ok(start) => match number_arg(
                        items,
                        2,
                        "cmd len"@,
                        "cmd len: "@,
                        usize::MAX as nat,
                    ) {
                        Err(e) => Err(e),
                        Ok(len) => match expected_str(items, 3, "cmd file"@) {
                            Err(e) => Err(e),
                            Ok(file) => match template_of(items[4]) {
                                Err(e) => Err(e),
                                Ok(template) => Ok(
                                    SegmentView::CmdAt { template, start, len, file },
                                ),
                            },
                        },
                    },
                }
            } else if items.len() < 2 {
                Err("missing template"@)
            } else {
                match template_of(items[1]) {
                    Ok(inner) => Ok(SegmentView::Cmd(inner)),
                    Err(e) => Err(e),
                }
            }
        } else if items.len() > 0 && items[0] == SexpView::Sym("ref"@) {
            match number_arg(items, 1, "ref id"@, "ref id: "@, usize::MAX as nat) {
                Err(e) => Err(e),
                Ok(id) => if items.len() < 3 {
                    Err("missing template"@)
                } else {
                    match template_of(items[2]) {
                        Ok(template) => Ok(SegmentView::Ref { id, template }),
                        Err(e) => Err(e),
                    }
                },
            }
        } else {
            Err(found_reason("unknown segment: "@, items, 0))
        },
        _ => Err("expected segment list"@),
    }
}

/// Reads the template at a position of a list.
pub open spec fn template_arg(items: Seq<SexpView>, idx: int) -> Result<TemplateView, Reason> {
    if 0 <= idx < items.len() {
        template_of(items[idx])
    } else {
        Err("missing template"@)
    }
}

/// That a result of reading is what a spec function says.
pub open spec fn reads_template(r: Result<Template, String>, want: Result<TemplateView, Reason>) -> bool {
    want == match r {
        Ok(t) => Ok::<TemplateView, Reason>(t@),
        Err(e) => Err(e@),
    }
}

fn read_segment(node: &Sexp) -> (r: Result<Segment, String>)
    ensures
        segment_of(node@) == match r {
            Ok(p) => Ok::<SegmentView, Reason>(p@),
            Err(e) => Err(e@),
        },
    decreases node,
{
    proof {
        reveal_strlit("lit");
        reveal_strlit("cmd");
        reveal_strlit("ref");
        assert("lit"@[0] != "cmd"@[0] && "lit"@[0] != "ref"@[0] && "cmd"@[0] != "ref"@[0]);
    }
    let items = match as_list(node) {
        Some(items) => items,
        None => {
            return Err("expected segment list".to_owned());
        },
    };
    if items.len() > 0 {
        if let Sexp::Sym(s) = &items[0] {
            if same(s.as_str(), "lit") {
                return match expect_str(items, 1, "lit") {
                    Ok(text) => Ok(Segment::Lit(text)),
                    Err(e) => Err(e),
                };
            }
            if same(s.as_str(), "cmd") {
                if items.len() >= 5 {
                    let start = match read_position(items, 1, "cmd start", "cmd start: ") {
                        Ok(n) => n,
                        Err(e) => {
                            return Err(e);
                        },
                    };
                    let len = match read_position(items, 2, "cmd len", "cmd len: ") {
                        Ok(n) => n,
                        Err(e) => {
                            return Err(e);
                        },
                    };
                    let file = match expect_str(items, 3, "cmd file") {
                        Ok(f) => f,
                        Err(e) => {
                            return Err(e);
                        },
                    };
                    proof {
                        lemma_child_decreases(node, items, 4);
                    }
                    return match read_template(&items[4]) {
                        Ok(template) => Ok(Segment::CmdAt { template, start, len, file }),
                        Err(e) => Err(e),
                    };
                }
                if items.len() < 2 {
                    return Err("missing template".to_owned());
                }
                proof {
                    lemma_child_decreases(node, items, 1);
                }
                return match read_template(&items[1]) {
                    Ok(inner) => Ok(Segment::Cmd(inner)),
                    Err(e) => Err(e),
                };
            }
            if same(s.as_str(), "ref") {
                let id = match read_position(items, 1, "ref id", "ref id: ") {
                    Ok(n) => n,
                    Err(e) => {
                        return Err(e);
                    },
                };
                if items.len() < 3 {
                    return Err("missing template".to_owned());
                }
                proof {
                    lemma_child_decreases(node, items, 2);
                }
                return match read_template(&items[2]) {
                    Ok(template) => Ok(Segment::Ref { id, template }),
                    Err(e) => Err(e),
                };
            }
        }
    }
    Err(found_error("unknown segment: ", items, 0))
}

/// Read a `(t ..)` node.
fn read_template(node: &Sexp) -> (r: Result<Template, String>)
    ensures
        reads_template(r, template_of(node@)),
    decreases node,
{
    let items = match as_list(node) {
        Some(items) => items,
        None => {
            return Err("expected template list".to_owned());
        },
    };
    if let Err(e) = expect_sym(items, 0, "t") {
        return Err(e);
    }
    let ghost nodes = sexp_views(items@).skip(1);
    let mut parts: Vec<Segment> = Vec::new();
    let mut i: usize = 1;
    proof {
        assert(nodes.skip(0) =~= nodes);
        if let Ok(more) = segments_of(nodes) {
            assert(segment_views(parts@) + more =~= more);
        }
    }
    while i < items.len()
        invariant
            1 <= i <= items@.len(),
            nodes == sexp_views(items@).skip(1),
            *node == Sexp::List(*items),
            segments_of(nodes) == prepend(segment_views(parts@), segments_of(nodes.skip(i - 1))),
            template_of(node@) == match segments_of(nodes) {
                Ok(parts) => Ok::<TemplateView, Reason>(TemplateView { parts }),
                Err(e) => Err(e),
            },
        decreases items@.len() - i,
    {
        let ghost cur = nodes.skip(i - 1);
        let ghost done = segment_views(parts@);
        proof {
            assert(cur[0] == items@[i as int]@);
            assert(cur.skip(1) =~= nodes.skip(i as int));
            lemma_child_decreases(node, items, i as int);
        }
        match read_segment(&items[i]) {
            Err(e) => {
                return Err(e);
            },
            Ok(p) => {
                parts.push(p);
                proof {
                    assert(segment_views(parts@) =~= done.push(p@));
                    if let Ok(more) = segments_of(cur.skip(1)) {
                        assert(done + (seq![p@] + more) =~= segment_views(parts@) + more);
                    }
                }
            },
        }
        i += 1;
    }
    let t = Template { parts };
    proof {
        assert(nodes.skip(i - 1) =~= Seq::<SexpView>::empty());
        assert(t@.parts =~= segment_views(parts@));
        assert(segment_views(parts@) + Seq::<SegmentView>::empty() =~= segment_views(parts@));
    }
    Ok(t)
}

/// Read the template at a position of a list.
fn read_template_arg(items: &Vec<Sexp>, idx: usize) -> (r: Result<Template, String>)
    ensures
        reads_template(r, template_arg(sexp_views(items@), idx as int)),
{
    if idx < items.len() {
        read_template(&items[idx])
    } else {
        Err("missing template".to_owned())
    }
}

// ── Instructions ─────────────────────────────────────────────────────────────

/// Reads a `(KEY (t ..))` node.
pub open spec fn pair_of(node: SexpView) -> Result<EnvPairView, Reason> {
    match node {
        SexpView::List(items) => match expected_sym_arg(items, 0, "env key"@) {
            Err(e) => Err(e),
            Ok(key) => match template_arg(items, 1) {
                Err(e) => Err(e),
                Ok(value) => Ok(EnvPairView { key, value }),
            },
        },
        _ => Err("env pair must be a list"@),
    }
}

/// Reads the variables of an `env` block.
pub open spec fn pairs_of(nodes: Seq<SexpView>) -> Result<Seq<EnvPairView>, Reason>
    decreases nodes.len(),
{
    if nodes.len() == 0 {
        Ok(Seq::empty())
    } else {
        match pair_of(nodes[0]) {
            Err(e) => Err(e),
            Ok(pair) => prepend(seq![pair], pairs_of(nodes.skip(1))),
        }
    }
}

/// Reads an instruction that consists of a template alone.
pub open spec fn with_template(
    items: Seq<SexpView>,
    make: spec_fn(TemplateView) -> InstructionView,
) -> Result<InstructionView, Reason> {
    match template_arg(items, 1) {
        Err(e) => Err(e),
        Ok(value) => Ok(make(value)),
    }
}

/// Reads an instruction.
pub open spec fn instruction_of(node: SexpView) -> Result<InstructionView, Reason>
    decreases node,
{
    match node {
        SexpView::List(items) => match head_of(
            items,
            "empty instruction"@,
            "instruction head must be a symbol"@,
        ) {
            Err(e) => Err(e),
            Ok(head) => if head == "exec"@ {
                with_template(items, |value: TemplateView| InstructionView::Exec { command: value })
            } else if head == "log"@ {
                with_template(items, |value: TemplateView| InstructionView::Log(value))
            } else if head == "cd"@ {
                with_template(items, |value: TemplateView| InstructionView::Cd(value))
            } else if head == "env"@ {
                if items.len() < 2 {
                    Err("env missing pairs"@)
                } else if items.len() < 3 {
                    Err("env missing body"@)
                } else {
                    match items[1] {
                        SexpView::List(pair_nodes) => match pairs_of(pair_nodes) {
                            Err(e) => Err(e),
                            Ok(pairs) => match items[2] {
                                SexpView::List(body_nodes) => match instructions_of(body_nodes) {
                                    Err(e) => Err(e),
                                    Ok(body) => Ok(InstructionView::Env { pairs, body }),
                                },
                                _ => Err("env body must be a list"@),
                            },
                        },
                        _ => Err("env pairs must be a list"@),
                    }
                }
            } else if head == "switch"@ {
                match template_arg(items, 1) {
                    Err(e) => Err(e),
                    Ok(subject) => match arms_of(items.skip(2)) {
                        Err(e) => Err(e),
                        Ok(arms) => Ok(InstructionView::Switch { subject, arms }),
                    },
                }
            } else if head == "step"@ {
                match number_arg(items, 1, "step row"@, "step row: "@, usize::MAX as nat) {
                    Err(e) => Err(e),
                    Ok(row) => match expected_str(items, 2, "step label"@) {
                        Err(e) => Err(e),
                        Ok(label) => match instructions_of(items.skip(3)) {
                            Err(e) => Err(e),
                            Ok(body) => Ok(InstructionView::Step { row, label, body }),
                        },
                    },
                }
            } else if head == "async"@ {
                match instructions_of(items.skip(1)) {
                    Err(e) => Err(e),
                    Ok(body) => Ok(InstructionView::Async { body }),
                }
            } else if head == "context"@ {
                match template_arg(items, 1) {
                    Err(e) => Err(e),
                    Ok(project) => match instructions_of(items.skip(2)) {
                        Err(e) => Err(e),
                        Ok(body) => Ok(InstructionView::Context { project, body }),
                    },
                }
            } else {
                Err("unknown instruction: "@ + head)
            },
        },
        _ => Err("expected instruction list"@),
    }
}

/// Reads instructions.
pub open spec fn instructions_of(nodes: Seq<SexpView>) -> Result<Seq<InstructionView>, Reason>
    decreases nodes,
{
    if nodes.len() == 0 {
        Ok(Seq::empty())
    } else {
        match instruction_of(nodes[0]) {
            Err(e) => Err(e),
            Ok(inst) => prepend(seq![inst], instructions_of(nodes.skip(1))),
        }
    }
}

/// Reads the row of an arm, a `(row N)` node before its body, and says where
/// the body starts. An arm without one has row 0.
pub open spec fn row_of(items: Seq<SexpView>) -> Result<(nat, int), Reason> {
    if items.len() > 2 {
        match items[2] {
            SexpView::List(r) => if r.len() > 0 && r[0] == SexpView::Sym("row"@) {
                match number_arg(r, 1, "arm row"@, "arm row: "@, usize::MAX as nat) {
                    Err(e) => Err(e),
                    Ok(row) => Ok((row, 3)),
                }
            } else {
                Ok((0, 2))
            },
            _ => Ok((0, 2)),
        }
    } else {
        Ok((0, 2))
    }
}

/// Reads a `(case ..)` node.
pub open spec fn arm_of(node: SexpView) -> Result<ArmView, Reason>
    decreases node,
{
    match node {
        SexpView::List(items) => match expected_sym(items, 0, "case"@) {
            Err(e) => Err(e),
            Ok(_) => match pattern_of(items) {
                Err(e) => Err(e),
                Ok(pattern) => match row_of(items) {
                    Err(e) => Err(e),
                    Ok((row, from)) => match instructions_of(items.skip(from)) {
                        Err(e) => Err(e),
                        Ok(body) => Ok(ArmView { row, pattern, body }),
                    },
                },
            },
        },
        _ => Err("case must be a list"@),
    }
}

/// Reads the arms of a `switch` block.
pub open spec fn arms_of(nodes: Seq<SexpView>) -> Result<Seq<ArmView>, Reason>
    decreases nodes,
{
    if nodes.len() == 0 {
        Ok(Seq::empty())
    } else {
        match arm_of(nodes[0]) {
            Err(e) => Err(e),
            Ok(arm) => prepend(seq![arm], arms_of(nodes.skip(1))),
        }
    }
}

fn read_pair(node: &Sexp) -> (r: Result<EnvPair, String>)
    ensures
        pair_of(node@) == match r {
            Ok(p) => Ok::<EnvPairView, Reason>(p@),
            Err(e) => Err(e@),
        },
{
    let items = match as_list(node) {
        Some(items) => items,
        None => {
            return Err("env pair must be a list".to_owned());
        },
    };
    match expect_sym_arg(items, 0, "env key") {
        Err(e) => Err(e),
        Ok(key) => match read_template_arg(items, 1) {
            Err(e) => Err(e),
            Ok(value) => Ok(EnvPair { key, value }),
        },
    }
}

fn read_pairs(nodes: &Vec<Sexp>) -> (r: Result<Vec<EnvPair>, String>)
    ensures
        pairs_of(sexp_views(nodes@)) == match r {
            Ok(v) => Ok::<Seq<EnvPairView>, Reason>(pair_views(v@)),
            Err(e) => Err(e@),
        },
{
    let ghost all = sexp_views(nodes@);
    let mut out: Vec<EnvPair> = Vec::new();
    let mut i: usize = 0;
    proof {
        assert(all.skip(0) =~= all);
        if let Ok(more) = pairs_of(all) {
            assert(pair_views(out@) + more =~= more);
        }
    }
    while i < nodes.len()
        invariant
            i <= nodes@.len(),
            all == sexp_views(nodes@),
            pairs_of(all) == prepend(pair_views(out@), pairs_of(all.skip(i as int))),
        decreases nodes@.len() - i,
    {
        let ghost cur = all.skip(i as int);
        let ghost done = pair_views(out@);
        proof {
            assert(cur[0] == nodes@[i as int]@);
            assert(cur.skip(1) =~= all.skip(i + 1));
        }
        match read_pair(&nodes[i]) {
            Err(e) => {
                return Err(e);
            },
            Ok(p) => {
                out.push(p);
                proof {
                    assert(pair_views(out@) =~= done.push(p@));
                    if let Ok(more) = pairs_of(cur.skip(1)) {
                        assert(done + (seq![p@] + more) =~= pair_views(out@) + more);
                    }
                }
            },
        }
        i += 1;
    }
    proof {
        assert(all.skip(i as int) =~= Seq::<SexpView>::empty());
        assert(pair_views(out@) + Seq::<EnvPairView>::empty() =~= pair_views(out@));
    }
    Ok(out)
}

/// Read the instructions from position `from` of a list on.
fn read_instructions(nodes: &Vec<Sexp>, from: usize) -> (r: Result<Vec<Instruction>, String>)
    requires
        from <= nodes@.len(),
    ensures
        instructions_of(sexp_views(nodes@).skip(from as int)) == match r {
            Ok(v) => Ok::<Seq<InstructionView>, Reason>(instruction_views(v@)),
            Err(e) => Err(e@),
        },
    decreases nodes,
{
    let ghost all = sexp_views(nodes@);
    let mut out: Vec<Instruction> = Vec::new();
    let mut i: usize = from;
    proof {
        if let Ok(more) = instructions_of(all.skip(from as int)) {
            assert(instruction_views(out@) + more =~= more);
        }
    }
    while i < nodes.len()
        invariant
            from <= i <= nodes@.len(),
            all == sexp_views(nodes@),
            instructions_of(all.skip(from as int)) == prepend(
                instruction_views(out@),
                instructions_of(all.skip(i as int)),
            ),
        decreases nodes@.len() - i,
    {
        let ghost cur = all.skip(i as int);
        let ghost done = instruction_views(out@);
        proof {
            assert(cur[0] == nodes@[i as int]@);
            assert(cur.skip(1) =~= all.skip(i + 1));
            assert(decreases_to!(nodes@ => nodes@[i as int]));
        }
        match read_instruction(&nodes[i]) {
            Err(e) => {
                return Err(e);
            },
            Ok(inst) => {
                out.push(inst);
                proof {
                    assert(instruction_views(out@) =~= done.push(inst@));
                    if let Ok(more) = instructions_of(cur.skip(1)) {
                        assert(done + (seq![inst@] + more) =~= instruction_views(out@) + more);
                    }
                }
            },
        }
        i += 1;
    }
    proof {
        assert(all.skip(i as int) =~= Seq::<SexpView>::empty());
        assert(instruction_views(out@) + Seq::<InstructionView>::empty() =~= instruction_views(
            out@,
        ));
    }
    Ok(out)
}

fn read_row(items: &Vec<Sexp>) -> (r: Result<(usize, usize), String>)
    requires
        items@.len() >= 2,
    ensures
        row_of(sexp_views(items@)) == match r {
            Ok(p) => Ok::<(nat, int), Reason>((p.0 as nat, p.1 as int)),
            Err(e) => Err(e@),
        },
        r matches Ok(p) ==> p.1 <= items@.len(),
{
    if items.len() > 2 {
        if let Some(r) = as_list(&items[2]) {
            if r.len() > 0 {
                if let Sexp::Sym(s) = &r[0] {
                    if same(s.as_str(), "row") {
                        return match read_position(r, 1, "arm row", "arm row: ") {
                            Ok(row) => Ok((row, 3)),
                            Err(e) => Err(e),
                        };
                    }
                }
            }
        }
    }
    Ok((0, 2))
}

fn read_arm(node: &Sexp) -> (r: Result<Arm, String>)
    ensures
        arm_of(node@) == match r {
            Ok(a) => Ok::<ArmView, Reason>(a@),
            Err(e) => Err(e@),
        },
    decreases node,
{
    let items = match as_list(node) {
        Some(items) => items,
        None => {
            return Err("case must be a list".to_owned());
        },
    };
    if let Err(e) = expect_sym(items, 0, "case") {
        return Err(e);
    }
    match read_pattern(items) {
        Err(e) => Err(e),
        Ok(pattern) => {
            let (row, from) = match read_row(items) {
                Ok(p) => p,
                Err(e) => {
                    return Err(e);
                },
            };
            assert(decreases_to!(*node => node->List_0));
            match read_instructions(items, from) {
                Err(e) => Err(e),
                Ok(body) => {
                    let arm = Arm { row, pattern, body };
                    assert(arm@.body =~= instruction_views(body@));
                    Ok(arm)
                },
            }
        },
    }
}

fn read_arms(nodes: &Vec<Sexp>, from: usize) -> (r: Result<Vec<Arm>, String>)
    requires
        from <= nodes@.len(),
    ensures
        arms_of(sexp_views(nodes@).skip(from as int)) == match r {
            Ok(v) => Ok::<Seq<ArmView>, Reason>(arm_views(v@)),
            Err(e) => Err(e@),
        },
    decreases nodes,
{
    let ghost all = sexp_views(nodes@);
    let mut out: Vec<Arm> = Vec::new();
    let mut i: usize = from;
    proof {
        if let Ok(more) = arms_of(all.skip(from as int)) {
            assert(arm_views(out@) + more =~= more);
        }
    }
    while i < nodes.len()
        invariant
            from <= i <= nodes@.len(),
            all == sexp_views(nodes@),
            arms_of(all.skip(from as int)) == prepend(
                arm_views(out@),
                arms_of(all.skip(i as int)),
            ),
        decreases nodes@.len() - i,
    {
        let ghost cur = all.skip(i as int);
        let ghost done = arm_views(out@);
        proof {
            assert(cur[0] == nodes@[i as int]@);
            assert(cur.skip(1) =~= all.skip(i + 1));
            assert(decreases_to!(nodes@ => nodes@[i as int]));
        }
        match read_arm(&nodes[i]) {
            Err(e) => {
                return Err(e);
            },
            Ok(arm) => {
                out.push(arm);
                proof {
                    assert(arm_views(out@) =~= done.push(arm@));
                    if let Ok(more) = arms_of(cur.skip(1)) {
                        assert(done + (seq![arm@] + more) =~= arm_views(out@) + more);
                    }
                }
            },
        }
        i += 1;
    }
    proof {
        assert(all.skip(i as int) =~= Seq::<SexpView>::empty());
        assert(arm_views(out@) + Seq::<ArmView>::empty() =~= arm_views(out@));
    }
    Ok(out)
}

fn read_instruction(node: &Sexp) -> (r: Result<Instruction, String>)
    ensures
        instruction_of(node@) == match r {
            Ok(inst) => Ok::<InstructionView, Reason>(inst@),
            Err(e) => Err(e@),
        },
    decreases node,
{
    let items = match as_list(node) {
        Some(items) => items,
        None => {
            return Err("expected instruction list".to_owned());
        },
    };
    let head = match head(items, "empty instruction", "instruction head must be a symbol") {
        Ok(head) => head,
        Err(e) => {
            return Err(e);
        },
    };
    let ghost views = sexp_views(items@);
    if same(head.as_str(), "exec") {
        return match read_template_arg(items, 1) {
            Ok(value) => Ok(Instruction::Exec { command: value }),
            Err(e) => Err(e),
        };
    }
    if same(head.as_str(), "log") {
        return match read_template_arg(items, 1) {
            Ok(value) => Ok(Instruction::Log(value)),
            Err(e) => Err(e),
        };
    }
    if same(head.as_str(), "cd") {
        return match read_template_arg(items, 1) {
            Ok(value) => Ok(Instruction::Cd(value)),
            Err(e) => Err(e),
        };
    }
    if same(head.as_str(), "env") {
        if items.len() < 2 {
            return Err("env missing pairs".to_owned());
        }
        if items.len() < 3 {
            return Err("env missing body".to_owned());
        }
        assert(views[1] == items@[1]@ && views[2] == items@[2]@);
        let pair_nodes = match as_list(&items[1]) {
            Some(nodes) => nodes,
            None => {
                return Err("env pairs must be a list".to_owned());
            },
        };
        let pairs = match read_pairs(pair_nodes) {
            Ok(pairs) => pairs,
            Err(e) => {
                return Err(e);
            },
        };
        let body_nodes = match as_list(&items[2]) {
            Some(nodes) => nodes,
            None => {
                return Err("env body must be a list".to_owned());
            },
        };
        proof {
            lemma_child_decreases(node, items, 2);
            assert(decreases_to!(items@[2] => items@[2]->List_0));
            assert(sexp_views(body_nodes@).skip(0) =~= sexp_views(body_nodes@));
        }
        return match read_instructions(body_nodes, 0) {
            Ok(body) => {
                let inst = Instruction::Env { pairs, body };
                assert(inst@->Env_body =~= instruction_views(body@));
                Ok(inst)
            },
            Err(e) => Err(e),
        };
    }
    if same(head.as_str(), "switch") {
        let subject = match read_template_arg(items, 1) {
            Ok(subject) => subject,
            Err(e) => {
                return Err(e);
            },
        };
        assert(decreases_to!(*node => node->List_0));
        return match read_arms(items, 2) {
            Ok(arms) => {
                let inst = Instruction::Switch { subject, arms };
                assert(inst@->Switch_arms =~= arm_views(arms@));
                Ok(inst)
            },
            Err(e) => Err(e),
        };
    }
    if same(head.as_str(), "step") {
        let row = match read_position(items, 1, "step row", "step row: ") {
            Ok(row) => row,
            Err(e) => {
                return Err(e);
            },
        };
        let label = match expect_str(items, 2, "step label") {
            Ok(label) => label,
            Err(e) => {
                return Err(e);
            },
        };
        assert(decreases_to!(*node => node->List_0));
        return match read_instructions(items, 3) {
            Ok(body) => {
                let inst = Instruction::Step { row, label, body };
                assert(inst@->Step_body =~= instruction_views(body@));
                Ok(inst)
            },
            Err(e) => Err(e),
        };
    }
    if same(head.as_str(), "async") {
        assert(decreases_to!(*node => node->List_0));
        return match read_instructions(items, 1) {
            Ok(body) => {
                let inst = Instruction::Async { body };
                assert(inst@->Async_body =~= instruction_views(body@));
                Ok(inst)
            },
            Err(e) => Err(e),
        };
    }
    if same(head.as_str(), "context") {
        let project = match read_template_arg(items, 1) {
            Ok(project) => project,
            Err(e) => {
                return Err(e);
            },
        };
        assert(decreases_to!(*node => node->List_0));
        return match read_instructions(items, 2) {
            Ok(body) => {
                let inst = Instruction::Context { project, body };
                assert(inst@->Context_body =~= instruction_views(body@));
                Ok(inst)
            },
            Err(e) => Err(e),
        };
    }
    let mut e = "unknown instruction: ".to_owned();
    e.push_str(head.as_str());
    Err(e)
}

// ── Entries ──────────────────────────────────────────────────────────────────

/// A repository with one more of its fields read.
pub open spec fn with_sync_field(node: SexpView, sync: SyncView) -> Result<SyncView, Reason> {
    match node {
        SexpView::List(items) => match head_of(items, "sync field head"@, "sync field head"@) {
            Err(e) => Err(e),
            Ok(field) => if field == "url"@ || field == "dir"@ || field == "branch"@ || field
                == "strategy"@ {
                match template_arg(items, 1) {
                    Err(e) => Err(e),
                    Ok(value) => if field == "url"@ {
                        Ok(SyncView { url: value, ..sync })
                    } else if field == "dir"@ {
                        Ok(SyncView { dir: value, ..sync })
                    } else if field == "branch"@ {
                        Ok(SyncView { branch: value, ..sync })
                    } else {
                        Ok(SyncView { strategy: value, ..sync })
                    },
                }
            } else {
                Err("unknown sync field: "@ + field)
            },
        },
        _ => Err("sync field must be list"@),
    }
}

/// A repository with more of its fields read, the later over the earlier.
pub open spec fn with_sync_fields(nodes: Seq<SexpView>, sync: SyncView) -> Result<SyncView, Reason>
    decreases nodes.len(),
{
    if nodes.len() == 0 {
        Ok(sync)
    } else {
        match with_sync_field(nodes[0], sync) {
            Err(e) => Err(e),
            Ok(next) => with_sync_fields(nodes.skip(1), next),
        }
    }
}

/// Functions with one more read.
pub open spec fn with_function(
    node: SexpView,
    functions: Entries<Seq<InstructionView>>,
) -> Result<Entries<Seq<InstructionView>>, Reason> {
    match node {
        SexpView::List(items) => match head_of(items, "project entry head"@, "project entry head"@) {
            Err(e) => Err(e),
            Ok(head) => if head == "fn"@ {
                match expected_sym_arg(items, 1, "fn name"@) {
                    Err(e) => Err(e),
                    Ok(name) => match instructions_of(items.skip(2)) {
                        Err(e) => Err(e),
                        Ok(body) => Ok(insert_entry(functions, name, body)),
                    },
                }
            } else {
                Err("unknown project entry: "@ + head)
            },
        },
        _ => Err("project entry must be list"@),
    }
}

/// Functions with more read.
pub open spec fn with_functions(
    nodes: Seq<SexpView>,
    functions: Entries<Seq<InstructionView>>,
) -> Result<Entries<Seq<InstructionView>>, Reason>
    decreases nodes.len(),
{
    if nodes.len() == 0 {
        Ok(functions)
    } else {
        match with_function(nodes[0], functions) {
            Err(e) => Err(e),
            Ok(next) => with_functions(nodes.skip(1), next),
        }
    }
}

/// Source files with one more read from a `(NAME TEXT)` node.
pub open spec fn with_source(
    node: SexpView,
    sources: Entries<Seq<char>>,
) -> Result<Entries<Seq<char>>, Reason> {
    match node {
        SexpView::List(items) => match expected_str(items, 0, "source name"@) {
            Err(e) => Err(e),
            Ok(name) => match expected_str(items, 1, "source text"@) {
                Err(e) => Err(e),
                Ok(text) => Ok(insert_entry(sources, name, text)),
            },
        },
        _ => Err("source entry must be list"@),
    }
}

/// Source files with more read.
pub open spec fn with_sources(
    nodes: Seq<SexpView>,
    sources: Entries<Seq<char>>,
) -> Result<Entries<Seq<char>>, Reason>
    decreases nodes.len(),
{
    if nodes.len() == 0 {
        Ok(sources)
    } else {
        match with_source(nodes[0], sources) {
            Err(e) => Err(e),
            Ok(next) => with_sources(nodes.skip(1), next),
        }
    }
}

/// The execution form with one more entry read.
pub open spec fn with_entry(node: SexpView, ir: IrView) -> Result<IrView, Reason> {
    match node {
        SexpView::List(items) => match head_of(items, "empty entry"@, "entry head must be a symbol"@) {
            Err(e) => Err(e),
            Ok(head) => if head == "shell"@ {
                match expected_str(items, 1, "shell"@) {
                    Err(e) => Err(e),
                    Ok(shell) => Ok(IrView { shell, ..ir }),
                }
            } else if head == "timeout"@ {
                match number_arg(items, 1, "timeout"@, "timeout value: "@, u64::MAX as nat) {
                    Err(e) => Err(e),
                    Ok(timeout) => Ok(IrView { timeout, ..ir }),
                }
            } else if head == "sources"@ {
                match with_sources(items.skip(1), ir.sources) {
                    Err(e) => Err(e),
                    Ok(sources) => Ok(IrView { sources, ..ir }),
                }
            } else if head == "sync"@ {
                match expected_sym_arg(items, 1, "sync id"@) {
                    Err(e) => Err(e),
                    Ok(id) => match with_sync_fields(items.skip(2), SyncView::empty()) {
                        Err(e) => Err(e),
                        Ok(sync) => Ok(
                            IrView { repositories: insert_entry(ir.repositories, id, sync), ..ir },
                        ),
                    },
                }
            } else if head == "project"@ {
                match expected_sym_arg(items, 1, "project id"@) {
                    Err(e) => Err(e),
                    Ok(id) => match with_functions(items.skip(2), Seq::empty()) {
                        Err(e) => Err(e),
                        Ok(functions) => Ok(
                            IrView {
                                projects: insert_entry(
                                    ir.projects,
                                    id,
                                    ProjectView { functions },
                                ),
                                ..ir
                            },
                        ),
                    },
                }
            } else if head == "run"@ {
                match expected_sym_arg(items, 1, "run id"@) {
                    Err(e) => Err(e),
                    Ok(id) => match stages_of(items.skip(2)) {
                        Err(e) => Err(e),
                        Ok(stages) => Ok(
                            IrView {
                                execution_chains: insert_entry(ir.execution_chains, id, stages),
                                ..ir
                            },
                        ),
                    },
                }
            } else if head == "steps"@ {
                match expected_sym_arg(items, 1, "steps id"@) {
                    Err(e) => Err(e),
                    Ok(id) => match instructions_of(items.skip(2)) {
                        Err(e) => Err(e),
                        Ok(body) => Ok(IrView { runs: insert_entry(ir.runs, id, body), ..ir }),
                    },
                }
            } else {
                Err("unknown top-level entry: "@ + head)
            },
        },
        _ => Err("top-level entry must be a list"@),
    }
}

/// The execution form with more entries read.
pub open spec fn with_entries(nodes: Seq<SexpView>, ir: IrView) -> Result<IrView, Reason>
    decreases nodes.len(),
{
    if nodes.len() == 0 {
        Ok(ir)
    } else {
        match with_entry(nodes[0], ir) {
            Err(e) => Err(e),
            Ok(next) => with_entries(nodes.skip(1), next),
        }
    }
}

/// What the root node of a kirufile stands for.
pub open spec fn ir_of_node(root: SexpView) -> Result<IrView, Reason> {
    match root {
        SexpView::List(items) => match expected_sym(items, 0, "kirufile"@) {
            Err(e) => Err(e),
            Ok(_) => with_entries(items.skip(1), IrView::empty()),
        },
        _ => Err("kirufile must be a list"@),
    }
}

/// What a kirufile stands for. There is one root node, and nothing after it.
pub open spec fn ir_of(text: Seq<char>) -> Result<IrView, Reason> {
    match node_at(tokens(text)) {
        Err(e) => Err(e),
        Ok((root, n)) => if n < tokens(text).len() {
            Err("unexpected content after kirufile"@)
        } else {
            ir_of_node(root)
        },
    }
}

fn read_sync_field(node: &Sexp, sync: &mut Sync) -> (r: Result<(), String>)
    ensures
        match r {
            Ok(_) => with_sync_field(node@, old(sync)@) == Ok::<SyncView, Reason>(final(sync)@),
            Err(e) => with_sync_field(node@, old(sync)@) == Err::<SyncView, Reason>(e@),
        },
{
    let items = match as_list(node) {
        Some(items) => items,
        None => {
            return Err("sync field must be list".to_owned());
        },
    };
    let field = match head(items, "sync field head", "sync field head") {
        Ok(head) => head.as_str(),
        Err(e) => {
            return Err(e);
        },
    };
    let is_url = same(field, "url");
    let is_dir = same(field, "dir");
    let is_branch = same(field, "branch");
    let is_strategy = same(field, "strategy");
    if !(is_url || is_dir || is_branch || is_strategy) {
        let mut e = "unknown sync field: ".to_owned();
        e.push_str(field);
        return Err(e);
    }
    match read_template_arg(items, 1) {
        Err(e) => Err(e),
        Ok(value) => {
            if is_url {
                sync.url = value;
            } else if is_dir {
                sync.dir = value;
            } else if is_branch {
                sync.branch = value;
            } else {
                sync.strategy = value;
            }
            Ok(())
        },
    }
}

fn read_sync(items: &Vec<Sexp>) -> (r: Result<Sync, String>)
    requires
        items@.len() >= 2,
    ensures
        with_sync_fields(sexp_views(items@).skip(2), SyncView::empty()) == match r {
            Ok(s) => Ok::<SyncView, Reason>(s@),
            Err(e) => Err(e@),
        },
{
    let ghost all = sexp_views(items@);
    let mut sync = Sync::default();
    let mut j: usize = 2;
    while j < items.len()
        invariant
            2 <= j <= items@.len(),
            all == sexp_views(items@),
            with_sync_fields(all.skip(2), SyncView::empty()) == with_sync_fields(
                all.skip(j as int),
                sync@,
            ),
        decreases items@.len() - j,
    {
        proof {
            assert(all.skip(j as int)[0] == items@[j as int]@);
            assert(all.skip(j as int).skip(1) =~= all.skip(j + 1));
        }
        if let Err(e) = read_sync_field(&items[j], &mut sync) {
            return Err(e);
        }
        j += 1;
    }
    assert(all.skip(j as int) =~= Seq::<SexpView>::empty());
    Ok(sync)
}

fn read_function(node: &Sexp, project: &mut Project) -> (r: Result<(), String>)
    ensures
        match r {
            Ok(_) => with_function(node@, old(project)@.functions) == Ok::<
                Entries<Seq<InstructionView>>,
                Reason,
            >(final(project)@.functions),
            Err(e) => with_function(node@, old(project)@.functions) == Err::<
                Entries<Seq<InstructionView>>,
                Reason,
            >(e@),
        },
{
    let items = match as_list(node) {
        Some(items) => items,
        None => {
            return Err("project entry must be list".to_owned());
        },
    };
    let kind = match head(items, "project entry head", "project entry head") {
        Ok(head) => head.as_str(),
        Err(e) => {
            return Err(e);
        },
    };
    if !same(kind, "fn") {
        let mut e = "unknown project entry: ".to_owned();
        e.push_str(kind);
        return Err(e);
    }
    let name = match expect_sym_arg(items, 1, "fn name") {
        Ok(name) => name,
        Err(e) => {
            return Err(e);
        },
    };
    match read_instructions(items, 2) {
        Err(e) => Err(e),
        Ok(body) => {
            proof {
                lemma_map_insert(project.functions@, body_viewer(), name@, body);
            }
            project.functions.insert(name, body);
            Ok(())
        },
    }
}

fn read_project(items: &Vec<Sexp>) -> (r: Result<Project, String>)
    requires
        items@.len() >= 2,
    ensures
        with_functions(sexp_views(items@).skip(2), Seq::empty()) == match r {
            Ok(p) => Ok::<Entries<Seq<InstructionView>>, Reason>(p@.functions),
            Err(e) => Err(e@),
        },
{
    let ghost all = sexp_views(items@);
    let mut project = Project::default();
    let mut j: usize = 2;
    while j < items.len()
        invariant
            2 <= j <= items@.len(),
            all == sexp_views(items@),
            with_functions(all.skip(2), Seq::empty()) == with_functions(
                all.skip(j as int),
                project@.functions,
            ),
        decreases items@.len() - j,
    {
        proof {
            assert(all.skip(j as int)[0] == items@[j as int]@);
            assert(all.skip(j as int).skip(1) =~= all.skip(j + 1));
        }
        if let Err(e) = read_function(&items[j], &mut project) {
            return Err(e);
        }
        j += 1;
    }
    assert(all.skip(j as int) =~= Seq::<SexpView>::empty());
    Ok(project)
}

fn read_source(node: &Sexp, ir: &mut Ir) -> (r: Result<(), String>)
    ensures
        match r {
            Ok(_) => with_source(node@, old(ir)@.sources) == Ok::<Entries<Seq<char>>, Reason>(
                final(ir)@.sources,
            ) && final(ir)@ == (IrView { sources: final(ir)@.sources, ..old(ir)@ }),
            Err(e) => with_source(node@, old(ir)@.sources) == Err::<Entries<Seq<char>>, Reason>(e@),
        },
{
    let items = match as_list(node) {
        Some(items) => items,
        None => {
            return Err("source entry must be list".to_owned());
        },
    };
    let name = match expect_str(items, 0, "source name") {
        Ok(name) => name,
        Err(e) => {
            return Err(e);
        },
    };
    match expect_str(items, 1, "source text") {
        Err(e) => Err(e),
        Ok(text) => {
            proof {
                lemma_map_insert(ir.sources@, text_viewer(), name@, text);
            }
            ir.sources.insert(name, text);
            Ok(())
        },
    }
}

fn read_sources(items: &Vec<Sexp>, ir: &mut Ir) -> (r: Result<(), String>)
    requires
        items@.len() >= 1,
    ensures
        match r {
            Ok(_) => with_sources(sexp_views(items@).skip(1), old(ir)@.sources) == Ok::<
                Entries<Seq<char>>,
                Reason,
            >(final(ir)@.sources) && final(ir)@ == (IrView {
                sources: final(ir)@.sources,
                ..old(ir)@
            }),
            Err(e) => with_sources(sexp_views(items@).skip(1), old(ir)@.sources) == Err::<
                Entries<Seq<char>>,
                Reason,
            >(e@),
        },
{
    let ghost all = sexp_views(items@);
    let ghost before = ir@;
    let mut j: usize = 1;
    while j < items.len()
        invariant
            1 <= j <= items@.len(),
            all == sexp_views(items@),
            before == old(ir)@,
            ir@ == (IrView { sources: ir@.sources, ..before }),
            with_sources(all.skip(1), before.sources) == with_sources(
                all.skip(j as int),
                ir@.sources,
            ),
        decreases items@.len() - j,
    {
        proof {
            assert(all.skip(j as int)[0] == items@[j as int]@);
            assert(all.skip(j as int).skip(1) =~= all.skip(j + 1));
        }
        if let Err(e) = read_source(&items[j], ir) {
            return Err(e);
        }
        j += 1;
    }
    assert(all.skip(j as int) =~= Seq::<SexpView>::empty());
    Ok(())
}

fn read_entry(node: &Sexp, ir: &mut Ir) -> (r: Result<(), String>)
    ensures
        match r {
            Ok(_) => with_entry(node@, old(ir)@) == Ok::<IrView, Reason>(final(ir)@),
            Err(e) => with_entry(node@, old(ir)@) == Err::<IrView, Reason>(e@),
        },
{
    let items = match as_list(node) {
        Some(items) => items,
        None => {
            return Err("top-level entry must be a list".to_owned());
        },
    };
    let kind = match head(items, "empty entry", "entry head must be a symbol") {
        Ok(head) => head.as_str(),
        Err(e) => {
            return Err(e);
        },
    };
    if same(kind, "shell") {
        return match expect_str(items, 1, "shell") {
            Ok(shell) => {
                ir.shell = shell;
                Ok(())
            },
            Err(e) => Err(e),
        };
    }
    if same(kind, "timeout") {
        return match read_number(items, 1, "timeout", "timeout value: ", u64::MAX) {
            Ok(n) => {
                ir.timeout = n;
                Ok(())
            },
            Err(e) => Err(e),
        };
    }
    if same(kind, "sources") {
        return read_sources(items, ir);
    }
    if same(kind, "sync") {
        let id = match expect_sym_arg(items, 1, "sync id") {
            Ok(id) => id,
            Err(e) => {
                return Err(e);
            },
        };
        return match read_sync(items) {
            Ok(sync) => {
                proof {
                    lemma_map_insert(ir.repositories@, sync_viewer(), id@, sync);
                }
                ir.repositories.insert(id, sync);
                Ok(())
            },
            Err(e) => Err(e),
        };
    }
    if same(kind, "project") {
        let id = match expect_sym_arg(items, 1, "project id") {
            Ok(id) => id,
            Err(e) => {
                return Err(e);
            },
        };
        return match read_project(items) {
            Ok(project) => {
                proof {
                    lemma_map_insert(ir.projects@, project_viewer(), id@, project);
                }
                ir.projects.insert(id, project);
                Ok(())
            },
            Err(e) => Err(e),
        };
    }
    if same(kind, "run") {
        let id = match expect_sym_arg(items, 1, "run id") {
            Ok(id) => id,
            Err(e) => {
                return Err(e);
            },
        };
        return match read_stages(items) {
            Ok(stages) => {
                proof {
                    lemma_map_insert(ir.execution_chains@, chain_viewer(), id@, stages);
                }
                ir.execution_chains.insert(id, stages);
                Ok(())
            },
            Err(e) => Err(e),
        };
    }
    if same(kind, "steps") {
        let id = match expect_sym_arg(items, 1, "steps id") {
            Ok(id) => id,
            Err(e) => {
                return Err(e);
            },
        };
        return match read_instructions(items, 2) {
            Ok(body) => {
                proof {
                    lemma_map_insert(ir.runs@, body_viewer(), id@, body);
                }
                ir.runs.insert(id, body);
                Ok(())
            },
            Err(e) => Err(e),
        };
    }
    let mut e = "unknown top-level entry: ".to_owned();
    e.push_str(kind);
    Err(e)
}

impl Ir {
    /// Read the execution form from a kirufile.
    pub fn deserialize(src: &str) -> (r: Result<Ir, String>)
        ensures
            ir_of(src@) == match r {
                Ok(ir) => Ok::<IrView, Reason>(ir@),
                Err(e) => Err(e@),
            },
    {
        let toks = match tokenize_kirufile(src) {
            Ok(toks) => toks,
            Err(e) => {
                return Err(e);
            },
        };
        let mut pos: usize = 0;
        assert(token_views(toks@).skip(0) =~= token_views(toks@));
        let root = match parse_sexp_tokens(&toks, &mut pos) {
            Ok(root) => root,
            Err(e) => {
                return Err(e);
            },
        };
        if pos < toks.len() {
            return Err("unexpected content after kirufile".to_owned());
        }
        let items = match as_list(&root) {
            Some(items) => items,
            None => {
                return Err("kirufile must be a list".to_owned());
            },
        };
        if let Err(e) = expect_sym(items, 0, "kirufile") {
            return Err(e);
        }
        let ghost all = sexp_views(items@);
        let mut ir = Ir::default();
        let mut idx: usize = 1;
        while idx < items.len()
            invariant
                1 <= idx <= items@.len(),
                all == sexp_views(items@),
                ir_of(src@) == with_entries(all.skip(idx as int), ir@),
            decreases items@.len() - idx,
        {
            proof {
                assert(all.skip(idx as int)[0] == items@[idx as int]@);
                assert(all.skip(idx as int).skip(1) =~= all.skip(idx + 1));
            }
            if let Err(e) = read_entry(&items[idx], &mut ir) {
                return Err(e);
            }
            idx += 1;
        }
        assert(all.skip(idx as int) =~= Seq::<SexpView>::empty());
        Ok(ir)
    }
}

} // verus!
