//! The names in the execution form. Its numbers and the order of its names are
//! what the format asks of them in any case; names and keys have to be symbols.
use vstd::prelude::*;
use crate::ir::round_trip::{
    arms_fit, body_fits, instruction_fits, ir_fits, pairs_fit, segments_fit, sync_fits,
    template_fits,
};
use crate::ir::{
    arm_views, instruction_views, pair_views, segment_views, Arm, ArmView, EnvPair, EnvPairView,
    Instruction, InstructionView, Ir, IrView, Segment, Template,
};
use crate::layout::is_symbol;
use crate::names::{ascending, Entries};
use crate::plan::round_trip::stages_fit;

verus! {

/// The keys of variables are symbols.
pub open spec fn pairs_named(pairs: Seq<EnvPairView>) -> bool {
    forall|i: int| 0 <= i < pairs.len() ==> is_symbol((#[trigger] pairs[i]).key)
}

/// The keys of variables in an instruction are symbols.
pub open spec fn instruction_named(inst: InstructionView) -> bool
    decreases inst,
{
    match inst {
        InstructionView::Env { pairs, body } => pairs_named(pairs) && body_named(body),
        InstructionView::Switch { arms, .. } => arms_named(arms),
        InstructionView::Step { body, .. } => body_named(body),
        InstructionView::Async { body } => body_named(body),
        InstructionView::Context { body, .. } => body_named(body),
        _ => true,
    }
}

pub open spec fn body_named(body: Seq<InstructionView>) -> bool
    decreases body,
{
    body.len() > 0 ==> body_named(body.drop_last()) && instruction_named(body.last())
}

pub open spec fn arms_named(arms: Seq<ArmView>) -> bool
    decreases arms,
{
    arms.len() > 0 ==> arms_named(arms.drop_last()) && body_named(arms.last().body)
}

/// The names of functions and the keys in their instructions are symbols.
pub open spec fn functions_named(f: Entries<Seq<InstructionView>>) -> bool {
    forall|i: int| 0 <= i < f.len() ==> is_symbol((#[trigger] f[i]).0) && body_named(f[i].1)
}

/// An execution form whose names and keys are symbols. The names of sources are
/// written in quotes and can be any.
pub open spec fn ir_named(p: IrView) -> bool {
    &&& forall|i: int| 0 <= i < p.repositories.len() ==> is_symbol((#[trigger] p.repositories[i]).0)
    &&& forall|i: int|
        0 <= i < p.projects.len() ==> is_symbol((#[trigger] p.projects[i]).0) && functions_named(
            p.projects[i].1.functions,
        )
    &&& forall|i: int|
        0 <= i < p.execution_chains.len() ==> is_symbol((#[trigger] p.execution_chains[i]).0)
            && stages_fit(p.execution_chains[i].1)
    &&& functions_named(p.runs)
}

/// An execution form in which the names ascend, as they do in every [`Ir`].
pub open spec fn ir_ordered(p: IrView) -> bool {
    &&& ascending(p.sources)
    &&& ascending(p.repositories)
    &&& ascending(p.projects)
    &&& forall|i: int|
        0 <= i < p.projects.len() ==> ascending((#[trigger] p.projects[i]).1.functions)
    &&& ascending(p.execution_chains)
    &&& ascending(p.runs)
}

proof fn lemma_segments(parts: Seq<Segment>, n: int)
    requires
        0 <= n <= parts.len(),
        forall|i: int| 0 <= i < n ==> segment_bounded(#[trigger] parts[i]),
    ensures
        segments_fit(segment_views(parts).take(n)),
    decreases n,
{
    let views = segment_views(parts).take(n);
    if n > 0 {
        lemma_segments(parts, n - 1);
        assert(views.drop_last() =~= segment_views(parts).take(n - 1));
        assert(views.last() == parts[n - 1]@);
        assert(segment_bounded(parts[n - 1]));
    }
}

/// The templates of a piece hold numbers that fit.
spec fn segment_bounded(p: Segment) -> bool {
    match p {
        Segment::Lit(_) => true,
        Segment::Cmd(t) => template_fits(t@),
        Segment::CmdAt { template, .. } => template_fits(template@),
        Segment::Ref { template, .. } => template_fits(template@),
    }
}

proof fn lemma_template(t: Template)
    ensures
        template_fits(t@),
    decreases t,
{
    assert forall|i: int| 0 <= i < t.parts@.len() implies segment_bounded(
        #[trigger] t.parts@[i],
    ) by {
        assert(decreases_to!(t.parts@ => t.parts@[i]));
        lemma_segment(t.parts@[i]);
    }
    lemma_segments(t.parts@, t.parts@.len() as int);
    assert(segment_views(t.parts@).take(t.parts@.len() as int) =~= t@.parts);
}

proof fn lemma_segment(p: Segment)
    ensures
        segment_bounded(p),
    decreases p,
{
    match p {
        Segment::Lit(_) => {},
        Segment::Cmd(t) => {
            lemma_template(t);
        },
        Segment::CmdAt { template, .. } => {
            lemma_template(template);
        },
        Segment::Ref { template, .. } => {
            lemma_template(template);
        },
    }
}

proof fn lemma_pairs(pairs: Seq<EnvPair>)
    requires
        pairs_named(pair_views(pairs)),
    ensures
        pairs_fit(pair_views(pairs)),
{
    let views = pair_views(pairs);
    assert forall|i: int| 0 <= i < views.len() implies is_symbol((#[trigger] views[i]).key)
        && template_fits(views[i].value) by {
        lemma_template(pairs[i].value);
    }
}

proof fn lemma_instruction(inst: Instruction)
    requires
        instruction_named(inst@),
    ensures
        instruction_fits(inst@),
    decreases inst,
{
    match inst {
        Instruction::Exec { command } => {
            lemma_template(command);
        },
        Instruction::Log(value) => {
            lemma_template(value);
        },
        Instruction::Cd(value) => {
            lemma_template(value);
        },
        Instruction::Env { pairs, body } => {
            assert(inst@->Env_body =~= instruction_views(body@));
            assert(instruction_views(body@).take(body@.len() as int) =~= inst@->Env_body);
            lemma_pairs(pairs@);
            lemma_body(body, body@.len() as int);
        },
        Instruction::Switch { subject, arms } => {
            lemma_template(subject);
            assert(inst@->Switch_arms =~= arm_views(arms@));
            assert(arm_views(arms@).take(arms@.len() as int) =~= inst@->Switch_arms);
            lemma_arms(arms, arms@.len() as int);
        },
        Instruction::Step { body, .. } => {
            assert(inst@->Step_body =~= instruction_views(body@));
            assert(instruction_views(body@).take(body@.len() as int) =~= inst@->Step_body);
            lemma_body(body, body@.len() as int);
        },
        Instruction::Async { body } => {
            assert(inst@->Async_body =~= instruction_views(body@));
            assert(instruction_views(body@).take(body@.len() as int) =~= inst@->Async_body);
            lemma_body(body, body@.len() as int);
        },
        Instruction::Context { project, body } => {
            lemma_template(project);
            assert(inst@->Context_body =~= instruction_views(body@));
            assert(instruction_views(body@).take(body@.len() as int) =~= inst@->Context_body);
            lemma_body(body, body@.len() as int);
        },
    }
}

proof fn lemma_body(body: Vec<Instruction>, n: int)
    requires
        0 <= n <= body@.len(),
        body_named(instruction_views(body@).take(n)),
    ensures
        body_fits(instruction_views(body@).take(n)),
    decreases body, n,
{
    let views = instruction_views(body@).take(n);
    if n > 0 {
        assert(views.drop_last() =~= instruction_views(body@).take(n - 1));
        assert(views.last() == body@[n - 1]@);
        assert(decreases_to!(body@ => body@[n - 1]));
        lemma_body(body, n - 1);
        lemma_instruction(body@[n - 1]);
    }
}

proof fn lemma_arms(arms: Vec<Arm>, n: int)
    requires
        0 <= n <= arms@.len(),
        arms_named(arm_views(arms@).take(n)),
    ensures
        arms_fit(arm_views(arms@).take(n)),
    decreases arms, n,
{
    let views = arm_views(arms@).take(n);
    if n > 0 {
        let arm = arms@[n - 1];
        assert(views.drop_last() =~= arm_views(arms@).take(n - 1));
        assert(views.last() == arm@);
        assert(decreases_to!(arms@ => arms@[n - 1]));
        lemma_arms(arms, n - 1);
        assert(arm@.body =~= instruction_views(arm.body@));
        assert(instruction_views(arm.body@).take(arm.body@.len() as int) =~= arm@.body);
        lemma_body(arm.body, arm.body@.len() as int);
    }
}

proof fn lemma_whole_body(body: Vec<Instruction>)
    requires
        body_named(instruction_views(body@)),
    ensures
        body_fits(instruction_views(body@)),
{
    assert(instruction_views(body@).take(body@.len() as int) =~= instruction_views(body@));
    lemma_body(body, body@.len() as int);
}

/// An execution form whose names and keys are symbols is one that its kirufile
/// gives back: everything else holds of it by its type.
pub proof fn lemma_ir_fits(ir: Ir)
    requires
        ir_named(ir@),
        ir_ordered(ir@),
    ensures
        ir_fits(ir@),
{
    let p = ir@;
    assert forall|i: int| 0 <= i < p.repositories.len() implies sync_fits(
        (#[trigger] p.repositories[i]).1,
    ) by {
        let sync = ir.repositories@[i].1;
        lemma_template(sync.url);
        lemma_template(sync.dir);
        lemma_template(sync.branch);
        lemma_template(sync.strategy);
    }
    assert forall|i: int| 0 <= i < p.projects.len() implies crate::ir::round_trip::functions_fit(
        (#[trigger] p.projects[i]).1.functions,
    ) by {
        let f = p.projects[i].1.functions;
        assert(functions_named(f));
        let functions = ir.projects@[i].1.functions@;
        assert forall|k: int| 0 <= k < f.len() implies is_symbol((#[trigger] f[k]).0) && body_fits(
            f[k].1,
        ) by {
            assert(f[k] == (functions[k].0, instruction_views(functions[k].1@)));
            lemma_whole_body(functions[k].1);
        }
    }
    assert forall|i: int| 0 <= i < p.runs.len() implies body_fits((#[trigger] p.runs[i]).1) by {
        assert(p.runs[i] == (ir.runs@[i].0, instruction_views(ir.runs@[i].1@)));
        lemma_whole_body(ir.runs@[i].1);
    }
}

} // verus!
