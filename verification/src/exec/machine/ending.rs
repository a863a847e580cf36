//! Why every execution ends: each step leaves less to do.
use vstd::prelude::*;
use crate::exec::context::{ContextView, RunContextView};
use crate::exec::error::Outcome;
use crate::exec::machine::{
    answers, block_entered, body_left, body_ok, child_begun, machine_ok, project_entered, stepped,
    switched, taken_arm, lemma_taken_within, template_for, text_known, AtView, BodyView, EventView,
    ExitView, GoalView, MachineView,
};
use crate::exec::resolve::{commands, law_resolving_ends, resolved, ResolvedView};
use crate::ir::program::{closed, lemma_closed_children, sound, NodeKindView, NodeView, ProgramView};
use crate::ir::{EnvPairView, TemplateView};
use crate::names::{insert_entry, lookup, Entries};

verus! {

broadcast use vstd::string::group_string_axioms;

// ── Weights ──────────────────────────────────────────────────────────────────

/// What the variables of a block take, from the one at `from` on.
pub open spec fn pairs_weight(pairs: Seq<EnvPairView>, from: nat) -> nat
    decreases pairs.len() - from,
{
    if from >= pairs.len() {
        0
    } else {
        2 * commands(pairs[from as int].value) + 1 + pairs_weight(pairs, from + 1)
    }
}

/// What the templates of a node take.
pub open spec fn texts_weight(kind: NodeKindView) -> nat {
    match kind {
        NodeKindView::Log(t) => 2 * commands(t),
        NodeKindView::Exec(t) => 2 * commands(t),
        NodeKindView::Cd(t) => 2 * commands(t),
        NodeKindView::Switch(t) => 2 * commands(t),
        NodeKindView::Project(t) => 2 * commands(t),
        NodeKindView::Env(pairs) => pairs_weight(pairs, 0),
        NodeKindView::Async => 0,
        NodeKindView::Arm(_) => 0,
    }
}

/// What nodes and what is under them take at most.
pub open spec fn weights(nodes: Seq<NodeView>, ids: Seq<usize>, depth: nat) -> nat
    decreases depth, 1nat, ids.len(),
{
    if ids.len() == 0 {
        0
    } else {
        weight(nodes, ids[0], depth) + weights(nodes, ids.skip(1), depth)
    }
}

/// What a node and what is under it take at most.
pub open spec fn weight(nodes: Seq<NodeView>, id: usize, depth: nat) -> nat
    decreases depth, 0nat, 0nat,
{
    if depth == 0 || id >= nodes.len() {
        0
    } else {
        12 + texts_weight(nodes[id as int].kind) + weights(
            nodes,
            nodes[id as int].children,
            (depth - 1) as nat,
        )
    }
}

proof fn lemma_weight_deeper(nodes: Seq<NodeView>, id: usize, depth: nat, more: nat)
    requires
        sound(nodes, id, depth),
        depth <= more,
    ensures
        weight(nodes, id, more) == weight(nodes, id, depth),
    decreases depth, 0nat, 0nat,
{
    lemma_weights_deeper(
        nodes,
        nodes[id as int].children,
        (depth - 1) as nat,
        (more - 1) as nat,
    );
}

proof fn lemma_weights_deeper(nodes: Seq<NodeView>, ids: Seq<usize>, depth: nat, more: nat)
    requires
        forall|i: int| 0 <= i < ids.len() ==> sound(nodes, #[trigger] ids[i], depth),
        depth <= more,
    ensures
        weights(nodes, ids, more) == weights(nodes, ids, depth),
    decreases depth, 1nat, ids.len(),
{
    if ids.len() > 0 {
        assert(sound(nodes, ids[0], depth));
        assert forall|i: int| 0 <= i < ids.skip(1).len() implies sound(
            nodes,
            #[trigger] ids.skip(1)[i],
            depth,
        ) by {
            assert(ids.skip(1)[i] == ids[i + 1]);
        }
        lemma_weight_deeper(nodes, ids[0], depth, more);
        lemma_weights_deeper(nodes, ids.skip(1), depth, more);
    }
}

impl ProgramView {
    /// What a node and what is under it take at most.
    pub open spec fn weight(self, id: usize) -> nat {
        weight(self.nodes, id, self.nodes.len())
    }

    /// What nodes and what is under them take at most.
    pub open spec fn weights(self, ids: Seq<usize>) -> nat {
        weights(self.nodes, ids, self.nodes.len())
    }

    /// What the children of a node take at most.
    pub open spec fn under(self, id: usize) -> nat {
        self.weights(self.nodes[id as int].children)
    }
}

proof fn lemma_weight(p: ProgramView, id: usize)
    requires
        p.closed(),
        id < p.nodes.len(),
    ensures
        p.weight(id) == 12 + texts_weight(p.nodes[id as int].kind) + p.under(id),
{
    let n = p.nodes.len();
    assert(sound(p.nodes, id, n));
    lemma_weights_deeper(p.nodes, p.nodes[id as int].children, (n - 1) as nat, n);
}

proof fn lemma_weights_at(p: ProgramView, ids: Seq<usize>, i: int)
    requires
        0 <= i < ids.len(),
    ensures
        p.weights(ids.skip(i)) == p.weight(ids[i]) + p.weights(ids.skip(i + 1)),
{
    assert(ids.skip(i)[0] == ids[i]);
    assert(ids.skip(i).skip(1) =~= ids.skip(i + 1));
}

proof fn lemma_weights_hold(p: ProgramView, ids: Seq<usize>, i: int)
    requires
        0 <= i < ids.len(),
    ensures
        p.weights(ids) >= p.weight(ids[i]),
    decreases ids.len(),
{
    if i > 0 {
        assert(ids.skip(1)[i - 1] == ids[i]);
        lemma_weights_hold(p, ids.skip(1), i - 1);
    }
}

// ── What is left to do ───────────────────────────────────────────────────────

/// What is left of a body after the child that it has come to.
pub open spec fn rest(p: ProgramView, body: BodyView) -> nat {
    p.weights(body.children.skip(body.next as int + 1))
}

/// How many commands are left of a template.
pub open spec fn left_of(t: TemplateView, outputs: nat) -> nat {
    if outputs < commands(t) {
        (commands(t) - outputs) as nat
    } else {
        0
    }
}

/// What is left of the templates of a node while one of them is resolved.
pub open spec fn texts_left(kind: NodeKindView, goal: GoalView, outputs: nat) -> nat {
    2 * left_of(template_for(kind, goal), outputs) + match (kind, goal) {
        (NodeKindView::Env(pairs), GoalView::Pair { index, .. }) => pairs_weight(pairs, index + 1),
        _ => 0,
    }
}

/// What is left to do in the body that is being executed.
pub open spec fn top_left(p: ProgramView, body: BodyView, at: AtView) -> nat {
    match at {
        AtView::Next => p.weights(body.children.skip(body.next as int)) + 4,
        AtView::Check => p.weights(body.children.skip(body.next as int)) + 3,
        AtView::Resolve { node, goal, outputs } => rest(p, body) + p.under(node) + 11 + texts_left(
            p.nodes[node as int].kind,
            goal,
            outputs.len(),
        ),
        AtView::Capture { node, goal, outputs, .. } => rest(p, body) + p.under(node) + 12
            + texts_left(p.nodes[node as int].kind, goal, outputs.len() + 1),
        AtView::Live { .. } => rest(p, body) + 6,
        AtView::Dir { .. } => rest(p, body) + 6,
        AtView::Allow { node, .. } => rest(p, body) + p.under(node) + 10,
        AtView::Finished(_) => rest(p, body) + 5,
        AtView::End(_) => 3,
        AtView::Join(_) => 2,
        AtView::Over => 0,
    }
}

/// What is left to do in the first `n` bodies once those in them have ended.
pub open spec fn outer_left(p: ProgramView, bodies: Seq<BodyView>, n: nat) -> nat
    decreases n,
{
    if n == 0 {
        0
    } else {
        outer_left(p, bodies, (n - 1) as nat) + rest(p, bodies[n - 1]) + 5
    }
}

/// A bound on the steps that are left.
pub open spec fn steps_left(p: ProgramView, m: MachineView) -> nat {
    if m.at is Over || m.bodies.len() == 0 {
        0
    } else {
        outer_left(p, m.bodies, (m.bodies.len() - 1) as nat) + top_left(p, m.top(), m.at)
    }
}

proof fn lemma_outer_same(p: ProgramView, a: Seq<BodyView>, b: Seq<BodyView>, n: nat)
    requires
        n <= a.len(),
        n <= b.len(),
        forall|i: int| 0 <= i < n ==> (#[trigger] a[i]) == b[i],
    ensures
        outer_left(p, a, n) == outer_left(p, b, n),
    decreases n,
{
    if n > 0 {
        lemma_outer_same(p, a, b, (n - 1) as nat);
        assert(a[n - 1] == b[n - 1]);
    }
}

/// Entering a body leaves what it takes and, after it, the rest of the body
/// that it is entered from.
proof fn lemma_entered_left(
    p: ProgramView,
    m: MachineView,
    inner: MachineView,
    children: Seq<usize>,
    exit: ExitView,
)
    requires
        m.bodies.len() > 0,
        inner.bodies == m.bodies,
    ensures
        steps_left(p, inner.enters(children, exit)) == outer_left(
            p,
            m.bodies,
            (m.bodies.len() - 1) as nat,
        ) + rest(p, m.top()) + 5 + p.weights(children) + 4,
{
    let next = inner.enters(children, exit);
    let n = m.bodies.len();
    lemma_outer_same(p, next.bodies, m.bodies, n);
    assert(next.top().children.skip(0) =~= children);
    assert(next.bodies.len() == n + 1);
}

proof fn lemma_switched_left(p: ProgramView, m: MachineView, node: usize, text: Seq<char>)
    requires
        p.closed(),
        m.bodies.len() > 0,
        node < p.nodes.len(),
    ensures
        steps_left(p, switched(p, m, node, text).machine) < outer_left(
            p,
            m.bodies,
            (m.bodies.len() - 1) as nat,
        ) + rest(p, m.top()) + p.under(node) + 11,
{
    lemma_closed_children(p.nodes, node);
    let arms = p.nodes[node as int].children;
    lemma_taken_within(p.nodes, arms, text, 0);
    match taken_arm(p.nodes, arms, text, 0) {
        None => {},
        Some(i) => {
            let arm = arms[i as int];
            assert(arm < p.nodes.len());
            lemma_weight(p, arm);
            lemma_weights_hold(p, arms, i as int);
            lemma_entered_left(
                p,
                m,
                m,
                p.nodes[arm as int].children,
                ExitView::Arm { arm, switch: Some(node) },
            );
        },
    }
}

proof fn lemma_project_entered_left(
    p: ProgramView,
    m: MachineView,
    node: usize,
    name: Seq<char>,
    dir: Seq<char>,
    direnv: bool,
)
    requires
        m.bodies.len() > 0,
    ensures
        steps_left(p, project_entered(p, m, node, name, dir, direnv).machine) < outer_left(
            p,
            m.bodies,
            (m.bodies.len() - 1) as nat,
        ) + rest(p, m.top()) + p.under(node) + 10,
{
    let inner = MachineView { context: ContextView { cwd: dir, direnv, ..m.context }, ..m };
    lemma_entered_left(
        p,
        m,
        inner,
        p.nodes[node as int].children,
        ExitView::Project { node, cwd: m.context.cwd, direnv: m.context.direnv },
    );
}

proof fn lemma_block_entered_left(
    p: ProgramView,
    m: MachineView,
    node: usize,
    layer: Entries<Seq<char>>,
)
    requires
        m.bodies.len() > 0,
    ensures
        steps_left(p, block_entered(p, m, node, layer).machine) < outer_left(
            p,
            m.bodies,
            (m.bodies.len() - 1) as nat,
        ) + rest(p, m.top()) + p.under(node) + 10,
{
    let inner = MachineView {
        context: ContextView { layers: m.context.layers.push(layer), ..m.context },
        ..m
    };
    lemma_entered_left(p, m, inner, p.nodes[node as int].children, ExitView::Env { node });
}

proof fn lemma_text_known_left(
    p: ProgramView,
    run: RunContextView,
    m: MachineView,
    node: usize,
    goal: GoalView,
    text: Seq<char>,
)
    requires
        p.closed(),
        m.bodies.len() > 0,
        node < p.nodes.len(),
    ensures
        steps_left(p, text_known(p, run, m, node, goal, text).machine) < outer_left(
            p,
            m.bodies,
            (m.bodies.len() - 1) as nat,
        ) + rest(p, m.top()) + p.under(node) + 11 + texts_left(
            p.nodes[node as int].kind,
            goal,
            0,
        ) - 2 * left_of(template_for(p.nodes[node as int].kind, goal), 0),
{
    let kind = p.nodes[node as int].kind;
    match kind {
        NodeKindView::Switch(_) => {
            lemma_switched_left(p, m, node, text);
        },
        NodeKindView::Project(_) => {
            match lookup(run.projects, text) {
                None => {},
                Some(entry) => {
                    lemma_project_entered_left(p, m, node, text, entry.dir, false);
                },
            }
        },
        NodeKindView::Env(pairs) => match goal {
            GoalView::Pair { index, layer } => {
                let grown = insert_entry(layer, pairs[index as int].key, text);
                lemma_block_entered_left(p, m, node, grown);
            },
            GoalView::Statement => {},
        },
        _ => {},
    }
}

proof fn lemma_begun_left(p: ProgramView, m: MachineView)
    requires
        machine_ok(p, m),
        m.at is Check,
    ensures
        steps_left(
            p,
            child_begun(p, m, m.top().children[m.top().next as int]).machine,
        ) < steps_left(p, m),
{
    let top = m.top();
    let n = (m.bodies.len() - 1) as nat;
    let node = top.children[top.next as int];
    assert(body_ok(m.bodies[m.bodies.len() - 1], p.nodes.len()));
    assert(node < p.nodes.len());
    lemma_weights_at(p, top.children, top.next as int);
    lemma_weight(p, node);
    let kind = p.nodes[node as int].kind;
    let children = p.nodes[node as int].children;
    match kind {
        NodeKindView::Env(pairs) => {
            if pairs.len() == 0 {
                lemma_block_entered_left(p, m, node, Seq::empty());
            }
        },
        NodeKindView::Arm(_) => {
            lemma_entered_left(
                p,
                m,
                m,
                children,
                ExitView::Arm { arm: node, switch: None },
            );
        },
        NodeKindView::Async => {
            let next = child_begun(p, m, node).machine;
            lemma_outer_same(p, next.bodies, m.bodies, n);
        },
        _ => {},
    }
}

proof fn lemma_left_left(p: ProgramView, m: MachineView, outcome: Outcome)
    requires
        machine_ok(p, m),
        m.at is End || m.at is Join,
        m.bodies.len() > 0,
    ensures
        forall|updates| steps_left(
            p,
            (#[trigger] body_left(m, updates, outcome)).machine,
        ) < steps_left(p, m),
{
    let outer = m.bodies.drop_last();
    let n = m.bodies.len();
    assert(m.bodies[n - 1].exit is Run <==> n == 1);
    assert forall|updates| steps_left(
        p,
        (#[trigger] body_left(m, updates, outcome)).machine,
    ) < steps_left(p, m) by {
        let next = body_left(m, updates, outcome).machine;
        assert(next.bodies == outer);
        if n > 1 {
            lemma_outer_same(p, outer, m.bodies, (n - 2) as nat);
            assert(outer.last() == m.bodies[n - 2]);
            assert(next.at is Finished);
        }
    }
}

/// Every execution ends: each step leaves fewer steps to do than there were
/// before it, whatever the answers are. The bodies that run beside it are
/// executions of their own.
pub proof fn law_every_execution_ends(p: ProgramView, run: RunContextView, m: MachineView, e: EventView)
    requires
        machine_ok(p, m),
        answers(m, e),
    ensures
        steps_left(p, stepped(p, run, m, e).machine) < steps_left(p, m),
{
    let next = stepped(p, run, m, e).machine;
    let top = m.top();
    assert(m.bodies.len() > 0);
    let n = (m.bodies.len() - 1) as nat;
    assert(body_ok(m.bodies[m.bodies.len() - 1], p.nodes.len()));
    match (m.at, e) {
        (AtView::Next, _) => {},
        (AtView::Check, EventView::RunFailed(failed)) => {
            let node = top.children[top.next as int];
            assert(node < p.nodes.len());
            lemma_weights_at(p, top.children, top.next as int);
            lemma_weight(p, node);
            if !failed {
                lemma_begun_left(p, m);
            }
        },
        (AtView::Resolve { node, goal, outputs }, _) => {
            let template = template_for(p.nodes[node as int].kind, goal);
            law_resolving_ends(template, m.context.values, outputs, 0);
            match resolved(template, m.context.values, outputs, 0) {
                ResolvedView::Run { .. } => {},
                ResolvedView::Text { text, values, .. } => {
                    let inner = MachineView {
                        context: ContextView { values, ..m.context },
                        ..m
                    };
                    lemma_text_known_left(p, run, inner, node, goal, text);
                },
            }
        },
        (AtView::Capture { .. }, EventView::Captured(_)) => {},
        (AtView::Live { .. }, EventView::Exited(_)) => {},
        (AtView::Dir { .. }, EventView::DirChanged(_)) => {},
        (AtView::Allow { node, name }, EventView::Approved { end, lines }) => {
            match lookup(run.projects, name) {
                None => {},
                Some(entry) => {
                    lemma_project_entered_left(p, m, node, name, entry.dir, entry.direnv);
                },
            }
        },
        (AtView::Finished(outcome), _) => {
            match outcome {
                Ok(_) => {
                    lemma_outer_same(p, next.bodies, m.bodies, n);
                },
                Err(_) => {},
            }
        },
        (AtView::End(outcome), _) => {
            lemma_left_left(p, m, outcome);
        },
        (AtView::Join(outcome), EventView::Joined(outcomes)) => {
            lemma_left_left(p, m, crate::exec::machine::joint_outcome(outcome, outcomes));
        },
        _ => {},
    }
}

} // verus!
