//! Reading a plan from a textual kirufile.
use vstd::prelude::*;
use crate::names::{insert_entry, lemma_map_insert, Entries};
use crate::plan::{
    arm_views, body_viewer, call_views, instruction_views, pair_views, project_viewer, run_viewer,
    stage_views, sync_viewer, Arm, ArmPattern, ArmPatternView, ArmView, Call, CallView, EnvPair,
    EnvPairView, Instruction, InstructionView, Part, PartView, Plan, PlanView, Project,
    ProjectView, Sync, SyncView, Template, TemplateView,
};
use crate::sexp::{
    as_list, expect_str, expect_sym, expect_sym_arg, expected_str, expected_sym, expected_sym_arg,
    found_error, found_reason, lemma_child_decreases, node_at, parse_sexp_tokens, sexp_views, sym, token_views,
    tokenize_kirufile, tokens, Reason, Sexp, SexpView,
};
use crate::text::same;

verus! {

broadcast use vstd::string::group_string_axioms;

/// The result of reading a list whose first items are already read.
pub open spec fn prepend<T>(done: Seq<T>, rest: Result<Seq<T>, Reason>) -> Result<Seq<T>, Reason> {
    match rest {
        Ok(more) => Ok(done + more),
        Err(e) => Err(e),
    }
}

/// The symbol that heads a list, where `empty` and `other` say that there is
/// no item and that the first item is no symbol.
pub open spec fn head_of(items: Seq<SexpView>, empty: Reason, other: Reason) -> Result<Seq<char>, Reason> {
    if items.len() == 0 {
        Err(empty)
    } else {
        match items[0] {
            SexpView::Sym(s) => Ok(s),
            _ => Err(other),
        }
    }
}

pub(crate) fn head<'a>(items: &'a Vec<Sexp>, empty: &str, other: &str) -> (r: Result<&'a String, String>)
    ensures
        head_of(sexp_views(items@), empty@, other@) == match r {
            Ok(s) => Ok::<Seq<char>, Reason>(s@),
            Err(e) => Err(e@),
        },
{
    if items.len() == 0 {
        return Err(empty.to_owned());
    }
    match sym(&items[0]) {
        Some(s) => Ok(s),
        None => Err(other.to_owned()),
    }
}

// ── Templates ────────────────────────────────────────────────────────────────

/// Reads a `(t ..)` node.
pub open spec fn template_of(node: SexpView) -> Result<TemplateView, Reason>
    decreases node,
{
    match node {
        SexpView::List(items) => match expected_sym(items, 0, "t"@) {
            Err(e) => Err(e),
            Ok(_) => match parts_of(items.skip(1)) {
                Err(e) => Err(e),
                Ok(parts) => Ok(TemplateView { parts }),
            },
        },
        _ => Err("expected template list"@),
    }
}

/// Reads the parts of a template.
pub open spec fn parts_of(nodes: Seq<SexpView>) -> Result<Seq<PartView>, Reason>
    decreases nodes,
{
    if nodes.len() == 0 {
        Ok(Seq::empty())
    } else {
        match part_of(nodes[0]) {
            Err(e) => Err(e),
            Ok(part) => prepend(seq![part], parts_of(nodes.skip(1))),
        }
    }
}

/// Reads a `(lit ..)` or `(cmd ..)` node.
pub open spec fn part_of(node: SexpView) -> Result<PartView, Reason>
    decreases node,
{
    match node {
        SexpView::List(items) => if items.len() > 0 && items[0] == SexpView::Sym("lit"@) {
            match expected_str(items, 1, "lit"@) {
                Ok(s) => Ok(PartView::Lit(s)),
                Err(e) => Err(e),
            }
        } else if items.len() > 0 && items[0] == SexpView::Sym("cmd"@) {
            if items.len() < 2 {
                Err("missing template"@)
            } else {
                match template_of(items[1]) {
                    Ok(inner) => Ok(PartView::Cmd(inner)),
                    Err(e) => Err(e),
                }
            }
        } else {
            Err(found_reason("unknown part: "@, items, 0))
        },
        _ => Err("expected part list"@),
    }
}

/// Reads the template at a position of a list.
pub open spec fn template_arg(items: Seq<SexpView>, idx: int) -> Result<TemplateView, Reason> {
    if 0 <= idx < items.len() {
        template_of(items[idx])
    } else {
        Err("missing template"@)
    }
}

/// That a result of reading is what a spec function says.
pub open spec fn reads_template(r: Result<Template, String>, want: Result<TemplateView, Reason>) -> bool {
    want == match r {
        Ok(t) => Ok::<TemplateView, Reason>(t@),
        Err(e) => Err(e@),
    }
}

pub open spec fn part_views(s: Seq<Part>) -> Seq<PartView> {
    Seq::new(s.len(), |i: int| s[i]@)
}

fn read_part(node: &Sexp) -> (r: Result<Part, String>)
    ensures
        part_of(node@) == match r {
            Ok(p) => Ok::<PartView, Reason>(p@),
            Err(e) => Err(e@),
        },
    decreases node,
{
    let items = match as_list(node) {
        Some(items) => items,
        None => {
            return Err("expected part list".to_owned());
        },
    };
    if items.len() > 0 {
        if let Sexp::Sym(s) = &items[0] {
            if same(s.as_str(), "lit") {
                return match expect_str(items, 1, "lit") {
                    Ok(text) => Ok(Part::Lit(text)),
                    Err(e) => Err(e),
                };
            }
            if same(s.as_str(), "cmd") {
                proof {
                    reveal_strlit("lit");
                    reveal_strlit("cmd");
                    assert("lit"@[0] != "cmd"@[0]);
                }
                if items.len() < 2 {
                    return Err("missing template".to_owned());
                }
                proof {
                    lemma_child_decreases(node, items, 1);
                }
                return match read_template(&items[1]) {
                    Ok(inner) => Ok(Part::Cmd(inner)),
                    Err(e) => Err(e),
                };
            }
        }
    }
    Err(found_error("unknown part: ", items, 0))
}

/// Read a `(t ..)` node.
fn read_template(node: &Sexp) -> (r: Result<Template, String>)
    ensures
        reads_template(r, template_of(node@)),
    decreases node,
{
    let items = match as_list(node) {
        Some(items) => items,
        None => {
            return Err("expected template list".to_owned());
        },
    };
    if let Err(e) = expect_sym(items, 0, "t") {
        return Err(e);
    }
    let ghost nodes = sexp_views(items@).skip(1);
    let mut parts: Vec<Part> = Vec::new();
    let mut i: usize = 1;
    proof {
        assert(nodes.skip(0) =~= nodes);
        if let Ok(more) = parts_of(nodes) {
            assert(part_views(parts@) + more =~= more);
        }
    }
    while i < items.len()
        invariant
            1 <= i <= items@.len(),
            nodes == sexp_views(items@).skip(1),
            *node == Sexp::List(*items),
            parts_of(nodes) == prepend(part_views(parts@), parts_of(nodes.skip(i - 1))),
            template_of(node@) == match parts_of(nodes) {
                Ok(parts) => Ok::<TemplateView, Reason>(TemplateView { parts }),
                Err(e) => Err(e),
            },
        decreases items@.len() - i,
    {
        let ghost cur = nodes.skip(i - 1);
        let ghost done = part_views(parts@);
        proof {
            assert(cur[0] == items@[i as int]@);
            assert(cur.skip(1) =~= nodes.skip(i as int));
            lemma_child_decreases(node, items, i as int);
        }
        match read_part(&items[i]) {
            Err(e) => {
                return Err(e);
            },
            Ok(p) => {
                parts.push(p);
                proof {
                    assert(part_views(parts@) =~= done.push(p@));
                    if let Ok(more) = parts_of(cur.skip(1)) {
                        assert(done + (seq![p@] + more) =~= part_views(parts@) + more);
                    }
                }
            },
        }
        i += 1;
    }
    let t = Template { parts };
    proof {
        assert(nodes.skip(i - 1) =~= Seq::<SexpView>::empty());
        assert(t@.parts =~= part_views(parts@));
        assert(part_views(parts@) + Seq::<PartView>::empty() =~= part_views(parts@));
    }
    Ok(t)
}

/// Read the template at a position of a list.
fn read_template_arg(items: &Vec<Sexp>, idx: usize) -> (r: Result<Template, String>)
    ensures
        reads_template(r, template_arg(sexp_views(items@), idx as int)),
{
    if idx < items.len() {
        read_template(&items[idx])
    } else {
        Err("missing template".to_owned())
    }
}

// ── Instructions ─────────────────────────────────────────────────────────────

/// Reads a `(KEY (t ..))` node.
pub open spec fn pair_of(node: SexpView) -> Result<EnvPairView, Reason> {
    match node {
        SexpView::List(items) => match expected_sym_arg(items, 0, "env key"@) {
            Err(e) => Err(e),
            Ok(key) => match template_arg(items, 1) {
                Err(e) => Err(e),
                Ok(value) => Ok(EnvPairView { key, value }),
            },
        },
        _ => Err("env pair must be a list"@),
    }
}

/// Reads the variables of an `env` block.
pub open spec fn pairs_of(nodes: Seq<SexpView>) -> Result<Seq<EnvPairView>, Reason>
    decreases nodes.len(),
{
    if nodes.len() == 0 {
        Ok(Seq::empty())
    } else {
        match pair_of(nodes[0]) {
            Err(e) => Err(e),
            Ok(pair) => prepend(seq![pair], pairs_of(nodes.skip(1))),
        }
    }
}

/// Reads the pattern of an arm.
pub open spec fn pattern_of(items: Seq<SexpView>) -> Result<ArmPatternView, Reason> {
    if items.len() > 1 && items[1] == SexpView::Sym("_"@) {
        Ok(ArmPatternView::Default)
    } else if items.len() > 1 && items[1] is Str {
        Ok(ArmPatternView::Lit(items[1]->Str_0))
    } else {
        Err(found_reason("bad case pattern: "@, items, 1))
    }
}

/// Reads an instruction that consists of a template alone.
pub open spec fn with_template(
    items: Seq<SexpView>,
    make: spec_fn(TemplateView) -> InstructionView,
) -> Result<InstructionView, Reason> {
    match template_arg(items, 1) {
        Err(e) => Err(e),
        Ok(value) => Ok(make(value)),
    }
}

/// Reads an instruction.
pub open spec fn instruction_of(node: SexpView) -> Result<InstructionView, Reason>
    decreases node,
{
    match node {
        SexpView::List(items) => match head_of(
            items,
            "empty instruction"@,
            "instruction head must be a symbol"@,
        ) {
            Err(e) => Err(e),
            Ok(head) => if head == "bind"@ {
                with_template(items, |value: TemplateView| InstructionView::Bind { value })
            } else if head == "log"@ {
                with_template(items, |value: TemplateView| InstructionView::Log(value))
            } else if head == "cd"@ {
                with_template(items, |value: TemplateView| InstructionView::Cd(value))
            } else if head == "env"@ {
                if items.len() < 2 {
                    Err("env missing pairs"@)
                } else if items.len() < 3 {
                    Err("env missing body"@)
                } else {
                    match items[1] {
                        SexpView::List(pair_nodes) => match pairs_of(pair_nodes) {
                            Err(e) => Err(e),
                            Ok(pairs) => match items[2] {
                                SexpView::List(body_nodes) => match instructions_of(body_nodes) {
                                    Err(e) => Err(e),
                                    Ok(body) => Ok(InstructionView::Env { pairs, body }),
                                },
                                _ => Err("env body must be a list"@),
                            },
                        },
                        _ => Err("env pairs must be a list"@),
                    }
                }
            } else if head == "switch"@ {
                match template_arg(items, 1) {
                    Err(e) => Err(e),
                    Ok(subject) => match arms_of(items.skip(2)) {
                        Err(e) => Err(e),
                        Ok(arms) => Ok(InstructionView::Switch { subject, arms }),
                    },
                }
            } else {
                Err("unknown instruction: "@ + head)
            },
        },
        _ => Err("expected instruction list"@),
    }
}

/// Reads instructions.
pub open spec fn instructions_of(nodes: Seq<SexpView>) -> Result<Seq<InstructionView>, Reason>
    decreases nodes,
{
    if nodes.len() == 0 {
        Ok(Seq::empty())
    } else {
        match instruction_of(nodes[0]) {
            Err(e) => Err(e),
            Ok(inst) => prepend(seq![inst], instructions_of(nodes.skip(1))),
        }
    }
}

/// Reads a `(case ..)` node.
pub open spec fn arm_of(node: SexpView) -> Result<ArmView, Reason>
    decreases node,
{
    match node {
        SexpView::List(items) => match expected_sym(items, 0, "case"@) {
            Err(e) => Err(e),
            Ok(_) => match pattern_of(items) {
                Err(e) => Err(e),
                Ok(pattern) => match instructions_of(items.skip(2)) {
                    Err(e) => Err(e),
                    Ok(body) => Ok(ArmView { pattern, body }),
                },
            },
        },
        _ => Err("case must be a list"@),
    }
}

/// Reads the arms of a `switch` block.
pub open spec fn arms_of(nodes: Seq<SexpView>) -> Result<Seq<ArmView>, Reason>
    decreases nodes,
{
    if nodes.len() == 0 {
        Ok(Seq::empty())
    } else {
        match arm_of(nodes[0]) {
            Err(e) => Err(e),
            Ok(arm) => prepend(seq![arm], arms_of(nodes.skip(1))),
        }
    }
}

fn read_pair(node: &Sexp) -> (r: Result<EnvPair, String>)
    ensures
        pair_of(node@) == match r {
            Ok(p) => Ok::<EnvPairView, Reason>(p@),
            Err(e) => Err(e@),
        },
{
    let items = match as_list(node) {
        Some(items) => items,
        None => {
            return Err("env pair must be a list".to_owned());
        },
    };
    match expect_sym_arg(items, 0, "env key") {
        Err(e) => Err(e),
        Ok(key) => match read_template_arg(items, 1) {
            Err(e) => Err(e),
            Ok(value) => Ok(EnvPair { key, value }),
        },
    }
}

fn read_pairs(nodes: &Vec<Sexp>) -> (r: Result<Vec<EnvPair>, String>)
    ensures
        pairs_of(sexp_views(nodes@)) == match r {
            Ok(v) => Ok::<Seq<EnvPairView>, Reason>(pair_views(v@)),
            Err(e) => Err(e@),
        },
{
    let ghost all = sexp_views(nodes@);
    let mut out: Vec<EnvPair> = Vec::new();
    let mut i: usize = 0;
    proof {
        assert(all.skip(0) =~= all);
        if let Ok(more) = pairs_of(all) {
            assert(pair_views(out@) + more =~= more);
        }
    }
    while i < nodes.len()
        invariant
            i <= nodes@.len(),
            all == sexp_views(nodes@),
            pairs_of(all) == prepend(pair_views(out@), pairs_of(all.skip(i as int))),
        decreases nodes@.len() - i,
    {
        let ghost cur = all.skip(i as int);
        let ghost done = pair_views(out@);
        proof {
            assert(cur[0] == nodes@[i as int]@);
            assert(cur.skip(1) =~= all.skip(i + 1));
        }
        match read_pair(&nodes[i]) {
            Err(e) => {
                return Err(e);
            },
            Ok(p) => {
                out.push(p);
                proof {
                    assert(pair_views(out@) =~= done.push(p@));
                    if let Ok(more) = pairs_of(cur.skip(1)) {
                        assert(done + (seq![p@] + more) =~= pair_views(out@) + more);
                    }
                }
            },
        }
        i += 1;
    }
    proof {
        assert(all.skip(i as int) =~= Seq::<SexpView>::empty());
        assert(pair_views(out@) + Seq::<EnvPairView>::empty() =~= pair_views(out@));
    }
    Ok(out)
}

pub(crate) fn read_pattern(items: &Vec<Sexp>) -> (r: Result<ArmPattern, String>)
    ensures
        pattern_of(sexp_views(items@)) == match r {
            Ok(p) => Ok::<ArmPatternView, Reason>(p@),
            Err(e) => Err(e@),
        },
{
    if items.len() > 1 {
        match &items[1] {
            Sexp::Sym(s) => {
                if same(s.as_str(), "_") {
                    return Ok(ArmPattern::Default);
                }
            },
            Sexp::Str(s) => {
                return Ok(ArmPattern::Lit(s.clone()));
            },
            _ => {},
        }
    }
    Err(found_error("bad case pattern: ", items, 1))
}

/// Read the instructions from position `from` of a list on.
fn read_instructions(nodes: &Vec<Sexp>, from: usize) -> (r: Result<Vec<Instruction>, String>)
    requires
        from <= nodes@.len(),
    ensures
        instructions_of(sexp_views(nodes@).skip(from as int)) == match r {
            Ok(v) => Ok::<Seq<InstructionView>, Reason>(instruction_views(v@)),
            Err(e) => Err(e@),
        },
    decreases nodes,
{
    let ghost all = sexp_views(nodes@);
    let mut out: Vec<Instruction> = Vec::new();
    let mut i: usize = from;
    proof {
        if let Ok(more) = instructions_of(all.skip(from as int)) {
            assert(instruction_views(out@) + more =~= more);
        }
    }
    while i < nodes.len()
        invariant
            from <= i <= nodes@.len(),
            all == sexp_views(nodes@),
            instructions_of(all.skip(from as int)) == prepend(
                instruction_views(out@),
                instructions_of(all.skip(i as int)),
            ),
        decreases nodes@.len() - i,
    {
        let ghost cur = all.skip(i as int);
        let ghost done = instruction_views(out@);
        proof {
            assert(cur[0] == nodes@[i as int]@);
            assert(cur.skip(1) =~= all.skip(i + 1));
            assert(decreases_to!(nodes@ => nodes@[i as int]));
        }
        match read_instruction(&nodes[i]) {
            Err(e) => {
                return Err(e);
            },
            Ok(inst) => {
                out.push(inst);
                proof {
                    assert(instruction_views(out@) =~= done.push(inst@));
                    if let Ok(more) = instructions_of(cur.skip(1)) {
                        assert(done + (seq![inst@] + more) =~= instruction_views(out@) + more);
                    }
                }
            },
        }
        i += 1;
    }
    proof {
        assert(all.skip(i as int) =~= Seq::<SexpView>::empty());
        assert(instruction_views(out@) + Seq::<InstructionView>::empty() =~= instruction_views(
            out@,
        ));
    }
    Ok(out)
}

fn read_arm(node: &Sexp) -> (r: Result<Arm, String>)
    ensures
        arm_of(node@) == match r {
            Ok(a) => Ok::<ArmView, Reason>(a@),
            Err(e) => Err(e@),
        },
    decreases node,
{
    let items = match as_list(node) {
        Some(items) => items,
        None => {
            return Err("case must be a list".to_owned());
        },
    };
    if let Err(e) = expect_sym(items, 0, "case") {
        return Err(e);
    }
    match read_pattern(items) {
        Err(e) => Err(e),
        Ok(pattern) => {
            assert(decreases_to!(*node => node->List_0));
            match read_instructions(items, 2) {
                Err(e) => Err(e),
                Ok(body) => {
                    let arm = Arm { pattern, body };
                    assert(arm@.body =~= instruction_views(body@));
                    Ok(arm)
                },
            }
        },
    }
}

fn read_arms(nodes: &Vec<Sexp>, from: usize) -> (r: Result<Vec<Arm>, String>)
    requires
        from <= nodes@.len(),
    ensures
        arms_of(sexp_views(nodes@).skip(from as int)) == match r {
            Ok(v) => Ok::<Seq<ArmView>, Reason>(arm_views(v@)),
            Err(e) => Err(e@),
        },
    decreases nodes,
{
    let ghost all = sexp_views(nodes@);
    let mut out: Vec<Arm> = Vec::new();
    let mut i: usize = from;
    proof {
        if let Ok(more) = arms_of(all.skip(from as int)) {
            assert(arm_views(out@) + more =~= more);
        }
    }
    while i < nodes.len()
        invariant
            from <= i <= nodes@.len(),
            all == sexp_views(nodes@),
            arms_of(all.skip(from as int)) == prepend(
                arm_views(out@),
                arms_of(all.skip(i as int)),
            ),
        decreases nodes@.len() - i,
    {
        let ghost cur = all.skip(i as int);
        let ghost done = arm_views(out@);
        proof {
            assert(cur[0] == nodes@[i as int]@);
            assert(cur.skip(1) =~= all.skip(i + 1));
            assert(decreases_to!(nodes@ => nodes@[i as int]));
        }
        match read_arm(&nodes[i]) {
            Err(e) => {
                return Err(e);
            },
            Ok(arm) => {
                out.push(arm);
                proof {
                    assert(arm_views(out@) =~= done.push(arm@));
                    if let Ok(more) = arms_of(cur.skip(1)) {
                        assert(done + (seq![arm@] + more) =~= arm_views(out@) + more);
                    }
                }
            },
        }
        i += 1;
    }
    proof {
        assert(all.skip(i as int) =~= Seq::<SexpView>::empty());
        assert(arm_views(out@) + Seq::<ArmView>::empty() =~= arm_views(out@));
    }
    Ok(out)
}

fn read_instruction(node: &Sexp) -> (r: Result<Instruction, String>)
    ensures
        instruction_of(node@) == match r {
            Ok(inst) => Ok::<InstructionView, Reason>(inst@),
            Err(e) => Err(e@),
        },
    decreases node,
{
    let items = match as_list(node) {
        Some(items) => items,
        None => {
            return Err("expected instruction list".to_owned());
        },
    };
    let head = match head(items, "empty instruction", "instruction head must be a symbol") {
        Ok(head) => head,
        Err(e) => {
            return Err(e);
        },
    };
    let ghost views = sexp_views(items@);
    if same(head.as_str(), "bind") {
        return match read_template_arg(items, 1) {
            Ok(value) => Ok(Instruction::Bind { value }),
            Err(e) => Err(e),
        };
    }
    if same(head.as_str(), "log") {
        return match read_template_arg(items, 1) {
            Ok(value) => Ok(Instruction::Log(value)),
            Err(e) => Err(e),
        };
    }
    if same(head.as_str(), "cd") {
        return match read_template_arg(items, 1) {
            Ok(value) => Ok(Instruction::Cd(value)),
            Err(e) => Err(e),
        };
    }
    if same(head.as_str(), "env") {
        if items.len() < 2 {
            return Err("env missing pairs".to_owned());
        }
        if items.len() < 3 {
            return Err("env missing body".to_owned());
        }
        assert(views[1] == items@[1]@ && views[2] == items@[2]@);
        let pair_nodes = match as_list(&items[1]) {
            Some(nodes) => nodes,
            None => {
                return Err("env pairs must be a list".to_owned());
            },
        };
        let pairs = match read_pairs(pair_nodes) {
            Ok(pairs) => pairs,
            Err(e) => {
                return Err(e);
            },
        };
        let body_nodes = match as_list(&items[2]) {
            Some(nodes) => nodes,
            None => {
                return Err("env body must be a list".to_owned());
            },
        };
        proof {
            lemma_child_decreases(node, items, 2);
            assert(decreases_to!(items@[2] => items@[2]->List_0));
            assert(sexp_views(body_nodes@).skip(0) =~= sexp_views(body_nodes@));
        }
        return match read_instructions(body_nodes, 0) {
            Ok(body) => {
                let inst = Instruction::Env { pairs, body };
                assert(inst@->Env_body =~= instruction_views(body@));
                Ok(inst)
            },
            Err(e) => Err(e),
        };
    }
    if same(head.as_str(), "switch") {
        let subject = match read_template_arg(items, 1) {
            Ok(subject) => subject,
            Err(e) => {
                return Err(e);
            },
        };
        assert(decreases_to!(*node => node->List_0));
        return match read_arms(items, 2) {
            Ok(arms) => {
                let inst = Instruction::Switch { subject, arms };
                assert(inst@->Switch_arms =~= arm_views(arms@));
                Ok(inst)
            },
            Err(e) => Err(e),
        };
    }
    let mut e = "unknown instruction: ".to_owned();
    e.push_str(head.as_str());
    Err(e)
}

// ── Entries ──────────────────────────────────────────────────────────────────

/// A repository with one more of its fields read.
pub open spec fn with_sync_field(node: SexpView, sync: SyncView) -> Result<SyncView, Reason> {
    match node {
        SexpView::List(items) => match head_of(items, "sync field head"@, "sync field head"@) {
            Err(e) => Err(e),
            Ok(field) => if field == "url"@ || field == "dir"@ || field == "branch"@ || field
                == "strategy"@ {
                match template_arg(items, 1) {
                    Err(e) => Err(e),
                    Ok(value) => if field == "url"@ {
                        Ok(SyncView { url: value, ..sync })
                    } else if field == "dir"@ {
                        Ok(SyncView { dir: value, ..sync })
                    } else if field == "branch"@ {
                        Ok(SyncView { branch: value, ..sync })
                    } else {
                        Ok(SyncView { strategy: value, ..sync })
                    },
                }
            } else {
                Err("unknown sync field: "@ + field)
            },
        },
        _ => Err("sync field must be list"@),
    }
}

/// A repository with more of its fields read, the later over the earlier.
pub open spec fn with_sync_fields(nodes: Seq<SexpView>, sync: SyncView) -> Result<SyncView, Reason>
    decreases nodes.len(),
{
    if nodes.len() == 0 {
        Ok(sync)
    } else {
        match with_sync_field(nodes[0], sync) {
            Err(e) => Err(e),
            Ok(next) => with_sync_fields(nodes.skip(1), next),
        }
    }
}

/// Functions with one more read.
pub open spec fn with_function(
    node: SexpView,
    functions: Entries<Seq<InstructionView>>,
) -> Result<Entries<Seq<InstructionView>>, Reason> {
    match node {
        SexpView::List(items) => match head_of(items, "project entry head"@, "project entry head"@) {
            Err(e) => Err(e),
            Ok(head) => if head == "fn"@ {
                match expected_sym_arg(items, 1, "fn name"@) {
                    Err(e) => Err(e),
                    Ok(name) => match instructions_of(items.skip(2)) {
                        Err(e) => Err(e),
                        Ok(body) => Ok(insert_entry(functions, name, body)),
                    },
                }
            } else {
                Err("unknown project entry: "@ + head)
            },
        },
        _ => Err("project entry must be list"@),
    }
}

/// Functions with more read.
pub open spec fn with_functions(
    nodes: Seq<SexpView>,
    functions: Entries<Seq<InstructionView>>,
) -> Result<Entries<Seq<InstructionView>>, Reason>
    decreases nodes.len(),
{
    if nodes.len() == 0 {
        Ok(functions)
    } else {
        match with_function(nodes[0], functions) {
            Err(e) => Err(e),
            Ok(next) => with_functions(nodes.skip(1), next),
        }
    }
}

/// Reads a `(call PROJECT FUNCTION)` node.
pub open spec fn call_of(node: SexpView) -> Result<CallView, Reason> {
    match node {
        SexpView::List(items) => match expected_sym(items, 0, "call"@) {
            Err(e) => Err(e),
            Ok(_) => match expected_sym_arg(items, 1, "call project"@) {
                Err(e) => Err(e),
                Ok(project) => match expected_sym_arg(items, 2, "call function"@) {
                    Err(e) => Err(e),
                    Ok(function) => Ok(CallView { project, function }),
                },
            },
        },
        _ => Err("call must be list"@),
    }
}

/// Reads the calls of a chain.
pub open spec fn calls_of(nodes: Seq<SexpView>) -> Result<Seq<CallView>, Reason>
    decreases nodes.len(),
{
    if nodes.len() == 0 {
        Ok(Seq::empty())
    } else {
        match call_of(nodes[0]) {
            Err(e) => Err(e),
            Ok(call) => prepend(seq![call], calls_of(nodes.skip(1))),
        }
    }
}

/// Reads a `(stage ..)` node.
pub open spec fn stage_of(node: SexpView) -> Result<Seq<CallView>, Reason> {
    match node {
        SexpView::List(items) => match expected_sym(items, 0, "stage"@) {
            Err(e) => Err(e),
            Ok(_) => calls_of(items.skip(1)),
        },
        _ => Err("stage must be list"@),
    }
}

/// Reads the chains of a run.
pub open spec fn stages_of(nodes: Seq<SexpView>) -> Result<Seq<Seq<CallView>>, Reason>
    decreases nodes.len(),
{
    if nodes.len() == 0 {
        Ok(Seq::empty())
    } else {
        match stage_of(nodes[0]) {
            Err(e) => Err(e),
            Ok(stage) => prepend(seq![stage], stages_of(nodes.skip(1))),
        }
    }
}

/// A plan with one more entry read.
pub open spec fn with_entry(node: SexpView, plan: PlanView) -> Result<PlanView, Reason> {
    match node {
        SexpView::List(items) => match head_of(items, "empty entry"@, "entry head must be a symbol"@) {
            Err(e) => Err(e),
            Ok(head) => if head == "version"@ {
                Ok(plan)
            } else if head == "shell"@ {
                match expected_str(items, 1, "shell"@) {
                    Err(e) => Err(e),
                    Ok(shell) => Ok(PlanView { shell, ..plan }),
                }
            } else if head == "sync"@ {
                match expected_sym_arg(items, 1, "sync id"@) {
                    Err(e) => Err(e),
                    Ok(id) => match with_sync_fields(items.skip(2), SyncView::empty()) {
                        Err(e) => Err(e),
                        Ok(sync) => Ok(
                            PlanView { syncs: insert_entry(plan.syncs, id, sync), ..plan },
                        ),
                    },
                }
            } else if head == "project"@ {
                match expected_sym_arg(items, 1, "project id"@) {
                    Err(e) => Err(e),
                    Ok(id) => match with_functions(items.skip(2), Seq::empty()) {
                        Err(e) => Err(e),
                        Ok(functions) => Ok(
                            PlanView {
                                projects: insert_entry(
                                    plan.projects,
                                    id,
                                    ProjectView { functions },
                                ),
                                ..plan
                            },
                        ),
                    },
                }
            } else if head == "run"@ {
                match expected_sym_arg(items, 1, "run id"@) {
                    Err(e) => Err(e),
                    Ok(id) => match stages_of(items.skip(2)) {
                        Err(e) => Err(e),
                        Ok(stages) => Ok(
                            PlanView {
                                run_blocks: insert_entry(plan.run_blocks, id, stages),
                                ..plan
                            },
                        ),
                    },
                }
            } else {
                Err("unknown top-level entry: "@ + head)
            },
        },
        _ => Err("top-level entry must be a list"@),
    }
}

/// A plan with more entries read.
pub open spec fn with_entries(nodes: Seq<SexpView>, plan: PlanView) -> Result<PlanView, Reason>
    decreases nodes.len(),
{
    if nodes.len() == 0 {
        Ok(plan)
    } else {
        match with_entry(nodes[0], plan) {
            Err(e) => Err(e),
            Ok(next) => with_entries(nodes.skip(1), next),
        }
    }
}

/// The plan that the root node of a kirufile stands for.
pub open spec fn plan_of_node(root: SexpView) -> Result<PlanView, Reason> {
    match root {
        SexpView::List(items) => match expected_sym(items, 0, "kirufile"@) {
            Err(e) => Err(e),
            Ok(_) => with_entries(items.skip(1), PlanView::empty()),
        },
        _ => Err("kirufile must be a list"@),
    }
}

/// The plan that a kirufile stands for: what its first node says. What comes
/// after that node does not count.
pub open spec fn plan_of(text: Seq<char>) -> Result<PlanView, Reason> {
    match node_at(tokens(text)) {
        Err(e) => Err(e),
        Ok((root, _)) => plan_of_node(root),
    }
}

fn read_sync_field(node: &Sexp, sync: &mut Sync) -> (r: Result<(), String>)
    ensures
        match r {
            Ok(_) => with_sync_field(node@, old(sync)@) == Ok::<SyncView, Reason>(final(sync)@),
            Err(e) => with_sync_field(node@, old(sync)@) == Err::<SyncView, Reason>(e@),
        },
{
    let items = match as_list(node) {
        Some(items) => items,
        None => {
            return Err("sync field must be list".to_owned());
        },
    };
    let field = match head(items, "sync field head", "sync field head") {
        Ok(head) => head.as_str(),
        Err(e) => {
            return Err(e);
        },
    };
    let is_url = same(field, "url");
    let is_dir = same(field, "dir");
    let is_branch = same(field, "branch");
    let is_strategy = same(field, "strategy");
    if !(is_url || is_dir || is_branch || is_strategy) {
        let mut e = "unknown sync field: ".to_owned();
        e.push_str(field);
        return Err(e);
    }
    match read_template_arg(items, 1) {
        Err(e) => Err(e),
        Ok(value) => {
            if is_url {
                sync.url = value;
            } else if is_dir {
                sync.dir = value;
            } else if is_branch {
                sync.branch = value;
            } else {
                sync.strategy = value;
            }
            Ok(())
        },
    }
}

fn read_sync(items: &Vec<Sexp>) -> (r: Result<Sync, String>)
    requires
        items@.len() >= 2,
    ensures
        with_sync_fields(sexp_views(items@).skip(2), SyncView::empty()) == match r {
            Ok(s) => Ok::<SyncView, Reason>(s@),
            Err(e) => Err(e@),
        },
{
    let ghost all = sexp_views(items@);
    let mut sync = Sync::default();
    let mut j: usize = 2;
    while j < items.len()
        invariant
            2 <= j <= items@.len(),
            all == sexp_views(items@),
            with_sync_fields(all.skip(2), SyncView::empty()) == with_sync_fields(
                all.skip(j as int),
                sync@,
            ),
        decreases items@.len() - j,
    {
        proof {
            assert(all.skip(j as int)[0] == items@[j as int]@);
            assert(all.skip(j as int).skip(1) =~= all.skip(j + 1));
        }
        if let Err(e) = read_sync_field(&items[j], &mut sync) {
            return Err(e);
        }
        j += 1;
    }
    assert(all.skip(j as int) =~= Seq::<SexpView>::empty());
    Ok(sync)
}

fn read_function(node: &Sexp, project: &mut Project) -> (r: Result<(), String>)
    ensures
        match r {
            Ok(_) => with_function(node@, old(project)@.functions) == Ok::<
                Entries<Seq<InstructionView>>,
                Reason,
            >(final(project)@.functions),
            Err(e) => with_function(node@, old(project)@.functions) == Err::<
                Entries<Seq<InstructionView>>,
                Reason,
            >(e@),
        },
{
    let items = match as_list(node) {
        Some(items) => items,
        None => {
            return Err("project entry must be list".to_owned());
        },
    };
    let kind = match head(items, "project entry head", "project entry head") {
        Ok(head) => head.as_str(),
        Err(e) => {
            return Err(e);
        },
    };
    if !same(kind, "fn") {
        let mut e = "unknown project entry: ".to_owned();
        e.push_str(kind);
        return Err(e);
    }
    let name = match expect_sym_arg(items, 1, "fn name") {
        Ok(name) => name,
        Err(e) => {
            return Err(e);
        },
    };
    match read_instructions(items, 2) {
        Err(e) => Err(e),
        Ok(body) => {
            proof {
                lemma_map_insert(project.functions@, body_viewer(), name@, body);
            }
            project.functions.insert(name, body);
            Ok(())
        },
    }
}

fn read_project(items: &Vec<Sexp>) -> (r: Result<Project, String>)
    requires
        items@.len() >= 2,
    ensures
        with_functions(sexp_views(items@).skip(2), Seq::empty()) == match r {
            Ok(p) => Ok::<Entries<Seq<InstructionView>>, Reason>(p@.functions),
            Err(e) => Err(e@),
        },
{
    let ghost all = sexp_views(items@);
    let mut project = Project::default();
    let mut j: usize = 2;
    while j < items.len()
        invariant
            2 <= j <= items@.len(),
            all == sexp_views(items@),
            with_functions(all.skip(2), Seq::empty()) == with_functions(
                all.skip(j as int),
                project@.functions,
            ),
        decreases items@.len() - j,
    {
        proof {
            assert(all.skip(j as int)[0] == items@[j as int]@);
            assert(all.skip(j as int).skip(1) =~= all.skip(j + 1));
        }
        if let Err(e) = read_function(&items[j], &mut project) {
            return Err(e);
        }
        j += 1;
    }
    assert(all.skip(j as int) =~= Seq::<SexpView>::empty());
    Ok(project)
}

fn read_call(node: &Sexp) -> (r: Result<Call, String>)
    ensures
        call_of(node@) == match r {
            Ok(c) => Ok::<CallView, Reason>(c@),
            Err(e) => Err(e@),
        },
{
    let items = match as_list(node) {
        Some(items) => items,
        None => {
            return Err("call must be list".to_owned());
        },
    };
    if let Err(e) = expect_sym(items, 0, "call") {
        return Err(e);
    }
    match expect_sym_arg(items, 1, "call project") {
        Err(e) => Err(e),
        Ok(project) => match expect_sym_arg(items, 2, "call function") {
            Err(e) => Err(e),
            Ok(function) => Ok(Call { project, function }),
        },
    }
}

pub(crate) fn read_stage(node: &Sexp) -> (r: Result<Vec<Call>, String>)
    ensures
        stage_of(node@) == match r {
            Ok(v) => Ok::<Seq<CallView>, Reason>(call_views(v@)),
            Err(e) => Err(e@),
        },
{
    let items = match as_list(node) {
        Some(items) => items,
        None => {
            return Err("stage must be list".to_owned());
        },
    };
    if let Err(e) = expect_sym(items, 0, "stage") {
        return Err(e);
    }
    let ghost all = sexp_views(items@);
    let mut out: Vec<Call> = Vec::new();
    let mut k: usize = 1;
    proof {
        if let Ok(more) = calls_of(all.skip(1)) {
            assert(call_views(out@) + more =~= more);
        }
    }
    while k < items.len()
        invariant
            1 <= k <= items@.len(),
            all == sexp_views(items@),
            stage_of(node@) == calls_of(all.skip(1)),
            calls_of(all.skip(1)) == prepend(call_views(out@), calls_of(all.skip(k as int))),
        decreases items@.len() - k,
    {
        let ghost cur = all.skip(k as int);
        let ghost done = call_views(out@);
        proof {
            assert(cur[0] == items@[k as int]@);
            assert(cur.skip(1) =~= all.skip(k + 1));
        }
        match read_call(&items[k]) {
            Err(e) => {
                return Err(e);
            },
            Ok(c) => {
                out.push(c);
                proof {
                    assert(call_views(out@) =~= done.push(c@));
                    if let Ok(more) = calls_of(cur.skip(1)) {
                        assert(done + (seq![c@] + more) =~= call_views(out@) + more);
                    }
                }
            },
        }
        k += 1;
    }
    proof {
        assert(all.skip(k as int) =~= Seq::<SexpView>::empty());
        assert(call_views(out@) + Seq::<CallView>::empty() =~= call_views(out@));
    }
    Ok(out)
}

pub(crate) fn read_stages(items: &Vec<Sexp>) -> (r: Result<Vec<Vec<Call>>, String>)
    requires
        items@.len() >= 2,
    ensures
        stages_of(sexp_views(items@).skip(2)) == match r {
            Ok(v) => Ok::<Seq<Seq<CallView>>, Reason>(stage_views(v@)),
            Err(e) => Err(e@),
        },
{
    let ghost all = sexp_views(items@);
    let mut out: Vec<Vec<Call>> = Vec::new();
    let mut j: usize = 2;
    proof {
        if let Ok(more) = stages_of(all.skip(2)) {
            assert(stage_views(out@) + more =~= more);
        }
    }
    while j < items.len()
        invariant
            2 <= j <= items@.len(),
            all == sexp_views(items@),
            stages_of(all.skip(2)) == prepend(stage_views(out@), stages_of(all.skip(j as int))),
        decreases items@.len() - j,
    {
        let ghost cur = all.skip(j as int);
        let ghost done = stage_views(out@);
        proof {
            assert(cur[0] == items@[j as int]@);
            assert(cur.skip(1) =~= all.skip(j + 1));
        }
        match read_stage(&items[j]) {
            Err(e) => {
                return Err(e);
            },
            Ok(c) => {
                out.push(c);
                proof {
                    assert(stage_views(out@) =~= done.push(call_views(c@)));
                    if let Ok(more) = stages_of(cur.skip(1)) {
                        assert(done + (seq![call_views(c@)] + more) =~= stage_views(out@) + more);
                    }
                }
            },
        }
        j += 1;
    }
    proof {
        assert(all.skip(j as int) =~= Seq::<SexpView>::empty());
        assert(stage_views(out@) + Seq::<Seq<CallView>>::empty() =~= stage_views(out@));
    }
    Ok(out)
}

fn read_entry(node: &Sexp, plan: &mut Plan) -> (r: Result<(), String>)
    ensures
        match r {
            Ok(_) => with_entry(node@, old(plan)@) == Ok::<PlanView, Reason>(final(plan)@),
            Err(e) => with_entry(node@, old(plan)@) == Err::<PlanView, Reason>(e@),
        },
{
    let items = match as_list(node) {
        Some(items) => items,
        None => {
            return Err("top-level entry must be a list".to_owned());
        },
    };
    let kind = match head(items, "empty entry", "entry head must be a symbol") {
        Ok(head) => head.as_str(),
        Err(e) => {
            return Err(e);
        },
    };
    if same(kind, "version") {
        return Ok(());
    }
    if same(kind, "shell") {
        return match expect_str(items, 1, "shell") {
            Ok(shell) => {
                plan.shell = shell;
                Ok(())
            },
            Err(e) => Err(e),
        };
    }
    if same(kind, "sync") {
        let id = match expect_sym_arg(items, 1, "sync id") {
            Ok(id) => id,
            Err(e) => {
                return Err(e);
            },
        };
        return match read_sync(items) {
            Ok(sync) => {
                proof {
                    lemma_map_insert(plan.syncs@, sync_viewer(), id@, sync);
                }
                plan.syncs.insert(id, sync);
                Ok(())
            },
            Err(e) => Err(e),
        };
    }
    if same(kind, "project") {
        let id = match expect_sym_arg(items, 1, "project id") {
            Ok(id) => id,
            Err(e) => {
                return Err(e);
            },
        };
        return match read_project(items) {
            Ok(project) => {
                proof {
                    lemma_map_insert(plan.projects@, project_viewer(), id@, project);
                }
                plan.projects.insert(id, project);
                Ok(())
            },
            Err(e) => Err(e),
        };
    }
    if same(kind, "run") {
        let id = match expect_sym_arg(items, 1, "run id") {
            Ok(id) => id,
            Err(e) => {
                return Err(e);
            },
        };
        return match read_stages(items) {
            Ok(stages) => {
                proof {
                    lemma_map_insert(plan.run_blocks@, run_viewer(), id@, stages);
                }
                plan.run_blocks.insert(id, stages);
                Ok(())
            },
            Err(e) => Err(e),
        };
    }
    let mut e = "unknown top-level entry: ".to_owned();
    e.push_str(kind);
    Err(e)
}

impl Plan {
    /// Read a plan from a kirufile.
    pub fn from_kirufile(src: &str) -> (r: Result<Plan, String>)
        ensures
            plan_of(src@) == match r {
                Ok(plan) => Ok::<PlanView, Reason>(plan@),
                Err(e) => Err(e@),
            },
    {
        let toks = match tokenize_kirufile(src) {
            Ok(toks) => toks,
            Err(e) => {
                return Err(e);
            },
        };
        let mut pos: usize = 0;
        assert(token_views(toks@).skip(0) =~= token_views(toks@));
        let root = match parse_sexp_tokens(&toks, &mut pos) {
            Ok(root) => root,
            Err(e) => {
                return Err(e);
            },
        };
        let items = match as_list(&root) {
            Some(items) => items,
            None => {
                return Err("kirufile must be a list".to_owned());
            },
        };
        if let Err(e) = expect_sym(items, 0, "kirufile") {
            return Err(e);
        }
        let ghost all = sexp_views(items@);
        let mut plan = Plan::default();
        let mut idx: usize = 1;
        while idx < items.len()
            invariant
                1 <= idx <= items@.len(),
                all == sexp_views(items@),
                plan_of(src@) == with_entries(all.skip(idx as int), plan@),
            decreases items@.len() - idx,
        {
            proof {
                assert(all.skip(idx as int)[0] == items@[idx as int]@);
                assert(all.skip(idx as int).skip(1) =~= all.skip(idx + 1));
            }
            if let Err(e) = read_entry(&items[idx], &mut plan) {
                return Err(e);
            }
            idx += 1;
        }
        assert(all.skip(idx as int) =~= Seq::<SexpView>::empty());
        Ok(plan)
    }
}

} // verus!
