//! The rows that a run is shown as before it starts.
use vstd::prelude::*;
use crate::ir::program::{arm_label, arm_label_of};
use crate::ir::{
    arm_views, body_viewer, instruction_views, shown, Arm, ArmView, Instruction, InstructionView,
    Ir, IrView, Template, TemplateView,
};
use crate::names::{lemma_map_lookup, lookup};
use crate::tree::{
    branches, deeper, descends, greater, is_tree, lemma_descends_is_tree, lemma_descends_join,
    lemma_descends_under, output_prefix_of, prefix_of, storable, stored,
};

verus! {

broadcast use vstd::string::group_string_axioms;

/// A row of a run: a step or an arm of a switch.
#[derive(Debug, PartialEq)]
pub struct PlanLine {
    /// The row that the compiler gave it.
    pub row: usize,
    /// How many rows it stands under.
    pub depth: usize,
    pub label: String,
    /// The project that it runs in.
    pub project: Option<String>,
    /// What stands before it.
    pub prefix: String,
    /// What stands before its output.
    pub output_prefix: String,
}

/// A row without its branches.
pub struct RowView {
    pub row: nat,
    pub depth: nat,
    pub label: Seq<char>,
    pub project: Option<Seq<char>>,
}

pub open spec fn text_option(s: Option<String>) -> Option<Seq<char>> {
    match s {
        Some(s) => Some(s@),
        None => None,
    }
}

impl PlanLine {
    /// The row without its branches.
    pub open spec fn row_view(&self) -> RowView {
        RowView {
            row: self.row as nat,
            depth: self.depth as nat,
            label: self.label@,
            project: text_option(self.project),
        }
    }
}

pub open spec fn row_views(s: Seq<PlanLine>) -> Seq<RowView> {
    Seq::new(s.len(), |i: int| s[i].row_view())
}

/// What a project is shown as beside its rows; nothing for an empty name.
pub open spec fn annotation_of(t: TemplateView) -> Option<Seq<char>> {
    if shown(t).len() == 0 {
        None
    } else {
        Some(shown(t))
    }
}

/// The rows of a body, at a depth and under a project.
pub open spec fn body_rows(
    body: Seq<InstructionView>,
    depth: nat,
    project: Option<Seq<char>>,
) -> Seq<RowView>
    decreases body,
{
    if body.len() == 0 {
        Seq::empty()
    } else {
        body_rows(body.drop_last(), depth, project) + instruction_rows(body.last(), depth, project)
    }
}

/// The rows of an instruction. A step is a row above those of its body; a
/// context names the project of the rows in it.
pub open spec fn instruction_rows(
    inst: InstructionView,
    depth: nat,
    project: Option<Seq<char>>,
) -> Seq<RowView>
    decreases inst,
{
    match inst {
        InstructionView::Step { row, label, body } => seq![
            RowView { row, depth, label, project },
        ] + body_rows(body, deeper(depth), project),
        InstructionView::Switch { arms, .. } => arm_rows(arms, depth, project),
        InstructionView::Env { body, .. } => body_rows(body, depth, project),
        InstructionView::Async { body } => body_rows(body, depth, project),
        InstructionView::Context { project, body } => body_rows(
            body,
            depth,
            annotation_of(project),
        ),
        _ => Seq::empty(),
    }
}

/// The rows of the arms of a switch: each arm is a row above those of its body.
pub open spec fn arm_rows(arms: Seq<ArmView>, depth: nat, project: Option<Seq<char>>) -> Seq<
    RowView,
>
    decreases arms,
{
    if arms.len() == 0 {
        Seq::empty()
    } else {
        arm_rows(arms.drop_last(), depth, project) + one_arm_rows(arms.last(), depth, project)
    }
}

pub open spec fn one_arm_rows(arm: ArmView, depth: nat, project: Option<Seq<char>>) -> Seq<RowView>
    decreases arm,
{
    seq![
        RowView { row: arm.row, depth, label: arm_label_of(arm.pattern), project },
    ] + body_rows(arm.body, deeper(depth), project)
}

/// How many rows of a body stand under one another.
pub open spec fn levels(body: Seq<InstructionView>) -> nat
    decreases body,
{
    if body.len() == 0 {
        0
    } else {
        greater(levels(body.drop_last()), instruction_levels(body.last()))
    }
}

pub open spec fn instruction_levels(inst: InstructionView) -> nat
    decreases inst,
{
    match inst {
        InstructionView::Step { body, .. } => levels(body) + 1,
        InstructionView::Switch { arms, .. } => arm_levels(arms),
        InstructionView::Env { body, .. } => levels(body),
        InstructionView::Async { body } => levels(body),
        InstructionView::Context { body, .. } => levels(body),
        _ => 0,
    }
}

pub open spec fn arm_levels(arms: Seq<ArmView>) -> nat
    decreases arms,
{
    if arms.len() == 0 {
        0
    } else {
        greater(arm_levels(arms.drop_last()), one_arm_levels(arms.last()))
    }
}

pub open spec fn one_arm_levels(arm: ArmView) -> nat
    decreases arm,
{
    levels(arm.body) + 1
}

/// The body of a run; empty for an unknown run.
pub open spec fn run_body(ir: IrView, name: Seq<char>) -> Seq<InstructionView> {
    match lookup(ir.runs, name) {
        Some(body) => body,
        None => Seq::empty(),
    }
}

/// The depths of rows, as they are stored.
pub open spec fn depths_of(rows: Seq<RowView>) -> Seq<usize> {
    stored(row_depths(rows))
}

fn copied(s: &Option<String>) -> (r: Option<String>)
    ensures
        text_option(r) == text_option(*s),
{
    match s {
        Some(s) => Some(s.clone()),
        None => None,
    }
}

/// What a project is shown as beside its rows.
pub fn annotation(t: &Template) -> (r: Option<String>)
    ensures
        text_option(r) == annotation_of(t@),
{
    let text = t.plan_text();
    if text.as_str().is_empty() {
        None
    } else {
        Some(text)
    }
}

fn one_deeper(depth: usize) -> (r: usize)
    ensures
        r == deeper(depth as nat),
{
    if depth < usize::MAX {
        depth + 1
    } else {
        depth
    }
}

fn add_row(
    out: &mut Vec<PlanLine>,
    row: usize,
    depth: usize,
    label: String,
    project: &Option<String>,
)
    ensures
        row_views(final(out)@) == row_views(old(out)@) + seq![
            RowView {
                row: row as nat,
                depth: depth as nat,
                label: label@,
                project: text_option(*project),
            },
        ],
{
    let ghost before = row_views(out@);
    out.push(
        PlanLine {
            row,
            depth,
            label,
            project: copied(project),
            prefix: String::new(),
            output_prefix: String::new(),
        },
    );
    assert(row_views(out@) =~= before + seq![out@.last().row_view()]);
}

fn collect_body(
    out: &mut Vec<PlanLine>,
    body: &Vec<Instruction>,
    depth: usize,
    project: &Option<String>,
)
    ensures
        row_views(final(out)@) == row_views(old(out)@) + body_rows(
            instruction_views(body@),
            depth as nat,
            text_option(*project),
        ),
    decreases body,
{
    let ghost before = row_views(out@);
    let ghost views = instruction_views(body@);
    let ghost under = text_option(*project);
    let mut i: usize = 0;
    proof {
        assert(views.take(0) =~= Seq::<InstructionView>::empty());
        assert(before + body_rows(views.take(0), depth as nat, under) =~= before);
    }
    while i < body.len()
        invariant
            i <= body@.len(),
            views == instruction_views(body@),
            under == text_option(*project),
            row_views(out@) == before + body_rows(views.take(i as int), depth as nat, under),
        decreases body@.len() - i,
    {
        let ghost so_far = row_views(out@);
        proof {
            let next = views.take(i + 1);
            assert(next.drop_last() =~= views.take(i as int));
            assert(next.last() == body@[i as int]@);
            assert(views[i as int] == body@[i as int]@);
            assert(decreases_to!(body@ => body@[i as int]));
        }
        collect_instruction(out, &body[i], depth, project);
        assert(row_views(out@) =~= before + body_rows(views.take(i + 1), depth as nat, under));
        i += 1;
    }
    assert(views.take(i as int) =~= views);
}

fn collect_instruction(
    out: &mut Vec<PlanLine>,
    inst: &Instruction,
    depth: usize,
    project: &Option<String>,
)
    ensures
        row_views(final(out)@) == row_views(old(out)@) + instruction_rows(
            inst@,
            depth as nat,
            text_option(*project),
        ),
    decreases inst,
{
    let ghost before = row_views(out@);
    match inst {
        Instruction::Step { row, label, body } => {
            assert(inst@->Step_body =~= instruction_views(body@));
            add_row(out, *row, depth, label.clone(), project);
            collect_body(out, body, one_deeper(depth), project);
            assert(row_views(out@) =~= before + instruction_rows(
                inst@,
                depth as nat,
                text_option(*project),
            ));
        },
        Instruction::Switch { arms, .. } => {
            assert(inst@->Switch_arms =~= arm_views(arms@));
            collect_arms(out, arms, depth, project);
        },
        Instruction::Env { body, .. } => {
            assert(inst@->Env_body =~= instruction_views(body@));
            collect_body(out, body, depth, project);
        },
        Instruction::Async { body } => {
            assert(inst@->Async_body =~= instruction_views(body@));
            collect_body(out, body, depth, project);
        },
        Instruction::Context { project: name, body } => {
            assert(inst@->Context_body =~= instruction_views(body@));
            collect_body(out, body, depth, &annotation(name));
        },
        _ => {
            assert(before + Seq::<RowView>::empty() =~= before);
        },
    }
}

fn collect_arms(out: &mut Vec<PlanLine>, arms: &Vec<Arm>, depth: usize, project: &Option<String>)
    ensures
        row_views(final(out)@) == row_views(old(out)@) + arm_rows(
            arm_views(arms@),
            depth as nat,
            text_option(*project),
        ),
    decreases arms,
{
    let ghost before = row_views(out@);
    let ghost views = arm_views(arms@);
    let ghost under = text_option(*project);
    let mut i: usize = 0;
    proof {
        assert(views.take(0) =~= Seq::<ArmView>::empty());
        assert(before + arm_rows(views.take(0), depth as nat, under) =~= before);
    }
    while i < arms.len()
        invariant
            i <= arms@.len(),
            views == arm_views(arms@),
            under == text_option(*project),
            row_views(out@) == before + arm_rows(views.take(i as int), depth as nat, under),
        decreases arms@.len() - i,
    {
        let arm = &arms[i];
        proof {
            let next = views.take(i + 1);
            assert(next.drop_last() =~= views.take(i as int));
            assert(next.last() == arm@);
            assert(views[i as int] == arm@);
            assert(decreases_to!(arms@ => arms@[i as int]));
        }
        collect_arm(out, arm, depth, project);
        assert(row_views(out@) =~= before + arm_rows(views.take(i + 1), depth as nat, under));
        i += 1;
    }
    assert(views.take(i as int) =~= views);
}

fn collect_arm(out: &mut Vec<PlanLine>, arm: &Arm, depth: usize, project: &Option<String>)
    ensures
        row_views(final(out)@) == row_views(old(out)@) + one_arm_rows(
            arm@,
            depth as nat,
            text_option(*project),
        ),
    decreases arm,
{
    let ghost before = row_views(out@);
    assert(arm@.body =~= instruction_views(arm.body@));
    add_row(out, arm.row, depth, arm_label(&arm.pattern), project);
    collect_body(out, &arm.body, one_deeper(depth), project);
    assert(row_views(out@) =~= before + one_arm_rows(arm@, depth as nat, text_option(*project)));
}

/// The depths of rows.
pub open spec fn row_depths(rows: Seq<RowView>) -> Seq<nat> {
    Seq::new(rows.len(), |i: int| rows[i].depth)
}

proof fn lemma_depths_join(a: Seq<RowView>, b: Seq<RowView>)
    ensures
        row_depths(a + b) == row_depths(a) + row_depths(b),
{
    assert(row_depths(a + b) =~= row_depths(a) + row_depths(b));
}

proof fn lemma_body_descends(body: Seq<InstructionView>, depth: nat, project: Option<Seq<char>>)
    ensures
        descends(row_depths(body_rows(body, depth, project)), depth, levels(body)),
        depth <= usize::MAX ==> storable(row_depths(body_rows(body, depth, project))),
    decreases body,
{
    if body.len() > 0 {
        lemma_body_descends(body.drop_last(), depth, project);
        lemma_instruction_descends(body.last(), depth, project);
        let init = body_rows(body.drop_last(), depth, project);
        let last = instruction_rows(body.last(), depth, project);
        lemma_depths_join(init, last);
        lemma_descends_join(
            row_depths(init),
            row_depths(last),
            depth,
            levels(body.drop_last()),
            instruction_levels(body.last()),
        );
    }
}

proof fn lemma_instruction_descends(
    inst: InstructionView,
    depth: nat,
    project: Option<Seq<char>>,
)
    ensures
        descends(
            row_depths(instruction_rows(inst, depth, project)),
            depth,
            instruction_levels(inst),
        ),
        depth <= usize::MAX ==> storable(row_depths(instruction_rows(inst, depth, project))),
    decreases inst,
{
    match inst {
        InstructionView::Step { row, label, body } => {
            lemma_body_descends(body, deeper(depth), project);
            let under = body_rows(body, deeper(depth), project);
            lemma_depths_join(seq![RowView { row, depth, label, project }], under);
            lemma_descends_under(depth, deeper(depth), row_depths(under), levels(body));
        },
        InstructionView::Switch { arms, .. } => {
            lemma_arms_descend(arms, depth, project);
        },
        InstructionView::Env { body, .. } => {
            lemma_body_descends(body, depth, project);
        },
        InstructionView::Async { body } => {
            lemma_body_descends(body, depth, project);
        },
        InstructionView::Context { project, body } => {
            lemma_body_descends(body, depth, annotation_of(project));
        },
        _ => {},
    }
}

proof fn lemma_arms_descend(arms: Seq<ArmView>, depth: nat, project: Option<Seq<char>>)
    ensures
        descends(row_depths(arm_rows(arms, depth, project)), depth, arm_levels(arms)),
        depth <= usize::MAX ==> storable(row_depths(arm_rows(arms, depth, project))),
    decreases arms,
{
    if arms.len() > 0 {
        lemma_arms_descend(arms.drop_last(), depth, project);
        lemma_arm_descends(arms.last(), depth, project);
        let init = arm_rows(arms.drop_last(), depth, project);
        let last = one_arm_rows(arms.last(), depth, project);
        lemma_depths_join(init, last);
        lemma_descends_join(
            row_depths(init),
            row_depths(last),
            depth,
            arm_levels(arms.drop_last()),
            one_arm_levels(arms.last()),
        );
    }
}

proof fn lemma_arm_descends(arm: ArmView, depth: nat, project: Option<Seq<char>>)
    ensures
        descends(row_depths(one_arm_rows(arm, depth, project)), depth, one_arm_levels(arm)),
        depth <= usize::MAX ==> storable(row_depths(one_arm_rows(arm, depth, project))),
    decreases arm,
{
    lemma_body_descends(arm.body, deeper(depth), project);
    let row = RowView { row: arm.row, depth, label: arm_label_of(arm.pattern), project };
    let under = body_rows(arm.body, deeper(depth), project);
    lemma_depths_join(seq![row], under);
    lemma_descends_under(depth, deeper(depth), row_depths(under), levels(arm.body));
}

/// The rows of a body form a tree: the first is outermost, and no row stands
/// more than one level below the row before it.
pub proof fn law_rows_form_a_tree(body: Seq<InstructionView>)
    ensures
        is_tree(depths_of(body_rows(body, 0, None))),
{
    lemma_body_descends(body, 0, None);
    lemma_descends_is_tree(row_depths(body_rows(body, 0, None)), levels(body));
}

impl Ir {
    /// The rows of a run, each with its branches; none for an unknown run.
    pub fn run_plan(&self, name: &str) -> (r: Vec<PlanLine>)
        ensures
            row_views(r@) == body_rows(run_body(self@, name@), 0, None),
            forall|i: int|
                0 <= i < r@.len() ==> (#[trigger] r@[i]).prefix@ == prefix_of(
                    depths_of(row_views(r@)),
                    i as nat,
                ) && r@[i].output_prefix@ == output_prefix_of(
                    depths_of(row_views(r@)),
                    i as nat,
                ),
    {
        proof {
            lemma_map_lookup(self.runs@, body_viewer(), name@);
        }
        let mut lines: Vec<PlanLine> = Vec::new();
        assert(row_views(lines@) =~= Seq::<RowView>::empty());
        match self.runs.get(name) {
            Some(body) => {
                assert(run_body(self@, name@) == instruction_views(body@));
                collect_body(&mut lines, body, 0, &None);
            },
            None => {},
        }
        assert(row_views(lines@) =~= body_rows(run_body(self@, name@), 0, None));
        with_branches(lines)
    }
}

fn with_branches(lines: Vec<PlanLine>) -> (r: Vec<PlanLine>)
    ensures
        row_views(r@) == row_views(lines@),
        forall|i: int|
            0 <= i < r@.len() ==> (#[trigger] r@[i]).prefix@ == prefix_of(
                depths_of(row_views(r@)),
                i as nat,
            ) && r@[i].output_prefix@ == output_prefix_of(depths_of(row_views(r@)), i as nat),
{
    let ghost rows = row_views(lines@);
    let mut depths: Vec<usize> = Vec::new();
    let mut i: usize = 0;
    while i < lines.len()
        invariant
            i <= lines@.len(),
            depths@.len() == i,
            forall|j: int| 0 <= j < i ==> #[trigger] depths@[j] == lines@[j].depth,
        decreases lines@.len() - i,
    {
        depths.push(lines[i].depth);
        i += 1;
    }
    assert(depths@ =~= depths_of(rows));
    let found = branches(&depths);
    let mut out: Vec<PlanLine> = Vec::new();
    let mut k: usize = 0;
    while k < lines.len()
        invariant
            k <= lines@.len(),
            out@.len() == k,
            found@.len() == lines@.len(),
            rows == row_views(lines@),
            forall|j: int| 0 <= j < k ==> (#[trigger] out@[j]).row_view() == rows[j],
            forall|j: int|
                0 <= j < k ==> (#[trigger] out@[j]).prefix@ == found@[j].prefix@
                    && out@[j].output_prefix@ == found@[j].output_prefix@,
        decreases lines@.len() - k,
    {
        let line = &lines[k];
        out.push(
            PlanLine {
                row: line.row,
                depth: line.depth,
                label: line.label.clone(),
                project: copied(&line.project),
                prefix: found[k].prefix.clone(),
                output_prefix: found[k].output_prefix.clone(),
            },
        );
        k += 1;
    }
    assert(row_views(out@) =~= rows);
    out
}

} // verus!
