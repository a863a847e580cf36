//! The program that the executor walks: an arena of nodes and, for each run,
//! the nodes at its root.
//!
//! A node is identified by its place in the arena. The same identity addresses
//! its state in the display.
use vstd::prelude::*;
use crate::ir::{
    pair_views, shown, EnvPair, EnvPairView, Template, TemplateView,
};
use crate::names::{lemma_map_lookup, lookup, map_entries, Entries, NameMap};
use crate::plan::{ArmPattern, ArmPatternView};

verus! {

broadcast use vstd::string::group_string_axioms;

/// What a node does.
#[derive(Debug, PartialEq)]
pub enum NodeKind {
    /// Runs a command and shows its output; a failure aborts.
    Exec(Template),
    /// Shows a text.
    Log(Template),
    /// Changes the working directory.
    Cd(Template),
    /// Sets variables for the commands of the children.
    Env(Vec<EnvPair>),
    /// Runs the children beside what follows, on a copy of the context.
    Async,
    /// Runs the first of its arms that matches; it has no row of its own.
    Switch(Template),
    /// An arm of a switch.
    Arm(ArmPattern),
    /// Runs the children in the directory of a project; it has no row of its
    /// own.
    Project(Template),
}

/// The contents of a [`NodeKind`].
pub enum NodeKindView {
    Exec(TemplateView),
    Log(TemplateView),
    Cd(TemplateView),
    Env(Seq<EnvPairView>),
    Async,
    Switch(TemplateView),
    Arm(ArmPatternView),
    Project(TemplateView),
}

/// A statement or block, and the nodes that belong to it.
#[derive(Debug, PartialEq)]
pub struct Node {
    pub kind: NodeKind,
    pub children: Vec<usize>,
}

/// The contents of a [`Node`].
pub struct NodeView {
    pub kind: NodeKindView,
    pub children: Seq<usize>,
}

/// The compiled form of every run.
#[derive(Debug, PartialEq)]
pub struct Program {
    pub runs: NameMap<Vec<usize>>,
    pub nodes: Vec<Node>,
}

/// The contents of a [`Program`].
pub struct ProgramView {
    pub runs: Entries<Seq<usize>>,
    pub nodes: Seq<NodeView>,
}

// ── Labels ───────────────────────────────────────────────────────────────────

/// The texts one after another, with a separator between each two.
pub open spec fn joined(texts: Seq<Seq<char>>, between: Seq<char>) -> Seq<char>
    decreases texts.len(),
{
    if texts.len() == 0 {
        Seq::empty()
    } else if texts.len() == 1 {
        texts[0]
    } else {
        joined(texts.drop_last(), between) + between + texts.last()
    }
}

/// The names of the variables that are set.
pub open spec fn keys_of(pairs: Seq<EnvPairView>) -> Seq<Seq<char>> {
    Seq::new(pairs.len(), |i: int| pairs[i].key)
}

/// The word before the colon in the label of a statement.
pub open spec fn keyword_of(kind: NodeKindView) -> Option<Seq<char>> {
    match kind {
        NodeKindView::Log(_) => Some("log"@),
        NodeKindView::Exec(_) => Some("exec"@),
        NodeKindView::Cd(_) => Some("cd"@),
        NodeKindView::Env(_) => Some("env"@),
        _ => None,
    }
}

/// The label of a statement whose value is known.
pub open spec fn label_with(kind: NodeKindView, data: Seq<char>) -> Option<Seq<char>> {
    match keyword_of(kind) {
        Some(word) => Some(word + ": "@ + data),
        None => None,
    }
}

/// The label that a node has before it is run; none for a node without a row.
pub open spec fn label_of(kind: NodeKindView) -> Option<Seq<char>> {
    match kind {
        NodeKindView::Log(t) => label_with(kind, shown(t)),
        NodeKindView::Exec(t) => label_with(kind, shown(t)),
        NodeKindView::Cd(t) => label_with(kind, shown(t)),
        NodeKindView::Env(pairs) => label_with(kind, joined(keys_of(pairs), ", "@)),
        NodeKindView::Async => Some("async"@),
        NodeKindView::Arm(pattern) => Some(arm_label_of(pattern)),
        NodeKindView::Switch(_) => None,
        NodeKindView::Project(_) => None,
    }
}

/// The label of an arm.
pub open spec fn arm_label_of(pattern: ArmPatternView) -> Seq<char> {
    match pattern {
        ArmPatternView::Lit(s) => if s.len() == 0 {
            "switch case \"\""@
        } else {
            "switch case "@ + s
        },
        ArmPatternView::Default => "switch default"@,
    }
}

/// The label of an arm.
pub fn arm_label(pattern: &ArmPattern) -> (r: String)
    ensures
        r@ == arm_label_of(pattern@),
{
    match pattern {
        ArmPattern::Lit(s) => {
            if s.as_str().is_empty() {
                "switch case \"\"".to_owned()
            } else {
                let mut out = "switch case ".to_owned();
                out.push_str(s.as_str());
                out
            }
        },
        ArmPattern::Default => "switch default".to_owned(),
    }
}

/// The names of the variables that are set, one after another.
fn key_list(pairs: &Vec<EnvPair>) -> (r: String)
    ensures
        r@ == joined(keys_of(pair_views(pairs@)), ", "@),
{
    let ghost keys = keys_of(pair_views(pairs@));
    let mut out = String::new();
    let mut i: usize = 0;
    proof {
        assert(keys.take(0) =~= Seq::<Seq<char>>::empty());
        assert(out@ =~= Seq::<char>::empty());
    }
    while i < pairs.len()
        invariant
            i <= pairs@.len(),
            keys == keys_of(pair_views(pairs@)),
            out@ == joined(keys.take(i as int), ", "@),
        decreases pairs@.len() - i,
    {
        let ghost next = keys.take(i + 1);
        proof {
            assert(next.drop_last() =~= keys.take(i as int));
            assert(next.last() == pairs@[i as int].key@);
        }
        if i > 0 {
            out.push_str(", ");
        }
        out.push_str(pairs[i].key.as_str());
        if i == 0 {
            assert(out@ =~= next[0]);
        }
        i += 1;
    }
    assert(keys.take(i as int) =~= keys);
    out
}

impl NodeKind {
    pub open spec fn view(&self) -> NodeKindView {
        match self {
            NodeKind::Exec(t) => NodeKindView::Exec(t@),
            NodeKind::Log(t) => NodeKindView::Log(t@),
            NodeKind::Cd(t) => NodeKindView::Cd(t@),
            NodeKind::Env(pairs) => NodeKindView::Env(pair_views(pairs@)),
            NodeKind::Async => NodeKindView::Async,
            NodeKind::Switch(t) => NodeKindView::Switch(t@),
            NodeKind::Arm(p) => NodeKindView::Arm(p@),
            NodeKind::Project(t) => NodeKindView::Project(t@),
        }
    }

    /// The word before the colon in the label of a statement.
    fn keyword(&self) -> (r: Option<String>)
        ensures
            keyword_of(self@) == match r {
                Some(s) => Some(s@),
                None => None,
            },
    {
        match self {
            NodeKind::Log(_) => Some("log".to_owned()),
            NodeKind::Exec(_) => Some("exec".to_owned()),
            NodeKind::Cd(_) => Some("cd".to_owned()),
            NodeKind::Env(_) => Some("env".to_owned()),
            _ => None,
        }
    }

    /// The label of a statement whose value is known.
    pub fn resolved_label(&self, data: &str) -> (r: Option<String>)
        ensures
            label_with(self@, data@) == match r {
                Some(s) => Some(s@),
                None => None,
            },
    {
        match self.keyword() {
            Some(mut out) => {
                out.push_str(": ");
                out.push_str(data);
                Some(out)
            },
            None => None,
        }
    }

    /// The label that a node has before it is run; none for a node without a
    /// row.
    pub fn row_label(&self) -> (r: Option<String>)
        ensures
            label_of(self@) == match r {
                Some(s) => Some(s@),
                None => None,
            },
    {
        match self {
            NodeKind::Log(t) => self.resolved_label(t.plan_text().as_str()),
            NodeKind::Exec(t) => self.resolved_label(t.plan_text().as_str()),
            NodeKind::Cd(t) => self.resolved_label(t.plan_text().as_str()),
            NodeKind::Env(pairs) => self.resolved_label(key_list(pairs).as_str()),
            NodeKind::Async => Some("async".to_owned()),
            NodeKind::Arm(pattern) => Some(arm_label(pattern)),
            NodeKind::Switch(_) => None,
            NodeKind::Project(_) => None,
        }
    }
}

impl Node {
    pub open spec fn view(&self) -> NodeView {
        NodeView { kind: self.kind@, children: self.children@ }
    }
}

pub open spec fn node_views(s: Seq<Node>) -> Seq<NodeView> {
    Seq::new(s.len(), |i: int| s[i]@)
}

pub open spec fn ids_viewer() -> spec_fn(Vec<usize>) -> Seq<usize> {
    |ids: Vec<usize>| ids@
}

// ── Subtrees ─────────────────────────────────────────────────────────────────

/// Whether every path down from a node stays in the arena and ends within
/// `depth` nodes.
pub open spec fn sound(nodes: Seq<NodeView>, id: usize, depth: nat) -> bool
    decreases depth,
{
    depth > 0 && id < nodes.len() && forall|i: int|
        0 <= i < nodes[id as int].children.len() ==> sound(
            nodes,
            #[trigger] nodes[id as int].children[i],
            (depth - 1) as nat,
        )
}

/// Whether every path down from a node of the arena stays in it and ends. No
/// path without a repetition is longer than the arena.
pub open spec fn closed(nodes: Seq<NodeView>) -> bool {
    forall|id: usize| id < nodes.len() ==> #[trigger] sound(nodes, id, nodes.len())
}

/// Whether identities belong to an arena of `n` nodes.
pub open spec fn within(ids: Seq<usize>, n: nat) -> bool {
    forall|i: int| 0 <= i < ids.len() ==> (#[trigger] ids[i]) < n
}

/// The nodes under the roots, each before its children.
pub open spec fn subtree(nodes: Seq<NodeView>, roots: Seq<usize>, depth: nat) -> Seq<usize>
    decreases depth, 1nat, roots.len(),
{
    if roots.len() == 0 {
        Seq::empty()
    } else {
        subtree(nodes, roots.drop_last(), depth) + tree(nodes, roots.last(), depth)
    }
}

/// A node and the nodes under it.
pub open spec fn tree(nodes: Seq<NodeView>, id: usize, depth: nat) -> Seq<usize>
    decreases depth, 0nat, 0nat,
{
    if depth == 0 || id >= nodes.len() {
        seq![id]
    } else {
        seq![id] + subtree(nodes, nodes[id as int].children, (depth - 1) as nat)
    }
}

/// How many of the nodes have a row.
pub open spec fn rows_among(nodes: Seq<NodeView>, ids: Seq<usize>) -> nat
    decreases ids.len(),
{
    if ids.len() == 0 {
        0
    } else {
        rows_among(nodes, ids.drop_last()) + (if label_of(nodes[ids.last() as int].kind) is Some {
            1nat
        } else {
            0
        })
    }
}

impl ProgramView {
    /// Every path down from a node of the program ends.
    pub open spec fn closed(self) -> bool {
        closed(self.nodes)
    }

    /// The nodes under the roots, each before its children.
    pub open spec fn subtree(self, roots: Seq<usize>) -> Seq<usize> {
        subtree(self.nodes, roots, self.nodes.len())
    }

    /// The nodes at the root of a run.
    pub open spec fn roots(self, run: Seq<char>) -> Seq<usize> {
        match lookup(self.runs, run) {
            Some(ids) => ids,
            None => Seq::empty(),
        }
    }
}

/// What is sound within a depth is sound within a greater one.
pub proof fn lemma_sound_deeper(nodes: Seq<NodeView>, id: usize, depth: nat, more: nat)
    requires
        sound(nodes, id, depth),
        depth <= more,
    ensures
        sound(nodes, id, more),
    decreases depth,
{
    let children = nodes[id as int].children;
    assert forall|i: int| 0 <= i < children.len() implies sound(
        nodes,
        #[trigger] children[i],
        (more - 1) as nat,
    ) by {
        lemma_sound_deeper(nodes, children[i], (depth - 1) as nat, (more - 1) as nat);
    }
}

/// The nodes under a sound node do not depend on the depth that is looked at.
pub proof fn lemma_tree_deeper(nodes: Seq<NodeView>, id: usize, depth: nat, more: nat)
    requires
        sound(nodes, id, depth),
        depth <= more,
    ensures
        tree(nodes, id, more) == tree(nodes, id, depth),
    decreases depth, 0nat, 0nat,
{
    lemma_subtree_deeper(
        nodes,
        nodes[id as int].children,
        (depth - 1) as nat,
        (more - 1) as nat,
    );
}

/// The nodes under sound roots do not depend on the depth that is looked at.
pub proof fn lemma_subtree_deeper(nodes: Seq<NodeView>, roots: Seq<usize>, depth: nat, more: nat)
    requires
        forall|i: int| 0 <= i < roots.len() ==> sound(nodes, #[trigger] roots[i], depth),
        depth <= more,
    ensures
        subtree(nodes, roots, more) == subtree(nodes, roots, depth),
    decreases depth, 1nat, roots.len(),
{
    if roots.len() > 0 {
        assert forall|i: int| 0 <= i < roots.drop_last().len() implies sound(
            nodes,
            #[trigger] roots.drop_last()[i],
            depth,
        ) by {
            assert(roots.drop_last()[i] == roots[i]);
        }
        lemma_subtree_deeper(nodes, roots.drop_last(), depth, more);
        assert(roots.last() == roots[roots.len() - 1]);
        lemma_tree_deeper(nodes, roots.last(), depth, more);
    }
}

/// The nodes under sound roots belong to the arena.
pub proof fn lemma_subtree_within(nodes: Seq<NodeView>, roots: Seq<usize>, depth: nat)
    requires
        forall|i: int| 0 <= i < roots.len() ==> sound(nodes, #[trigger] roots[i], depth),
    ensures
        within(subtree(nodes, roots, depth), nodes.len()),
    decreases depth, roots.len(),
{
    if roots.len() > 0 {
        assert forall|i: int| 0 <= i < roots.drop_last().len() implies sound(
            nodes,
            #[trigger] roots.drop_last()[i],
            depth,
        ) by {
            assert(roots.drop_last()[i] == roots[i]);
        }
        lemma_subtree_within(nodes, roots.drop_last(), depth);
        assert(roots.last() == roots[roots.len() - 1]);
        let last = roots.last();
        assert(sound(nodes, last, depth));
        let init = subtree(nodes, roots.drop_last(), depth);
        let under = subtree(nodes, nodes[last as int].children, (depth - 1) as nat);
        lemma_subtree_within(nodes, nodes[last as int].children, (depth - 1) as nat);
        let all = subtree(nodes, roots, depth);
        reveal_with_fuel(tree, 2);
        assert(tree(nodes, last, depth) == seq![last] + under);
        assert(all == init + tree(nodes, last, depth));
        assert forall|i: int| 0 <= i < all.len() implies (#[trigger] all[i]) < nodes.len() by {
            if i < init.len() {
                assert(all[i] == init[i]);
            } else if i > init.len() {
                assert(all[i] == under[i - init.len() - 1]);
            }
        }
    }
}

/// In a closed arena the children of a node belong to the arena, and what is
/// under them is what is under the node.
pub proof fn lemma_closed_children(nodes: Seq<NodeView>, id: usize)
    requires
        closed(nodes),
        id < nodes.len(),
    ensures
        within(nodes[id as int].children, nodes.len()),
        tree(nodes, id, nodes.len()) == seq![id] + subtree(
            nodes,
            nodes[id as int].children,
            nodes.len(),
        ),
{
    assert(sound(nodes, id, nodes.len()));
    let children = nodes[id as int].children;
    assert forall|i: int| 0 <= i < children.len() implies (#[trigger] children[i]) < nodes.len() by {
        assert(sound(nodes, children[i], (nodes.len() - 1) as nat));
    }
    lemma_subtree_deeper(nodes, children, (nodes.len() - 1) as nat, nodes.len());
}

/// The nodes under nodes of a closed arena belong to it.
pub proof fn lemma_closed_subtree(nodes: Seq<NodeView>, roots: Seq<usize>)
    requires
        closed(nodes),
        within(roots, nodes.len()),
    ensures
        within(subtree(nodes, roots, nodes.len()), nodes.len()),
{
    assert forall|i: int| 0 <= i < roots.len() implies sound(
        nodes,
        #[trigger] roots[i],
        nodes.len(),
    ) by {
        assert(roots[i] < nodes.len());
    }
    lemma_subtree_within(nodes, roots, nodes.len());
}

/// Children pushed before their parent keep an arena closed.
pub proof fn law_push_keeps_closed(nodes: Seq<NodeView>, node: NodeView)
    requires
        closed(nodes),
        within(node.children, nodes.len()),
        nodes.len() < usize::MAX,
    ensures
        closed(nodes.push(node)),
{
    let all = nodes.push(node);
    assert forall|id: usize| id < nodes.len() implies sound(all, id, nodes.len()) by {
        assert(sound(nodes, id, nodes.len()));
        lemma_sound_in_longer(nodes, node, id, nodes.len());
    }
    assert forall|id: usize| id < all.len() implies #[trigger] sound(all, id, all.len()) by {
        if id < nodes.len() {
            lemma_sound_deeper(all, id, nodes.len(), all.len());
        } else {
            assert(all[id as int] == node);
            assert forall|i: int| 0 <= i < node.children.len() implies sound(
                all,
                #[trigger] node.children[i],
                nodes.len(),
            ) by {
                assert(node.children[i] < nodes.len());
            }
        }
    }
}

proof fn lemma_sound_in_longer(nodes: Seq<NodeView>, node: NodeView, id: usize, depth: nat)
    requires
        sound(nodes, id, depth),
    ensures
        sound(nodes.push(node), id, depth),
    decreases depth,
{
    let all = nodes.push(node);
    assert(all[id as int] == nodes[id as int]);
    let children = nodes[id as int].children;
    assert forall|i: int| 0 <= i < children.len() implies sound(
        all,
        #[trigger] children[i],
        (depth - 1) as nat,
    ) by {
        lemma_sound_in_longer(nodes, node, children[i], (depth - 1) as nat);
    }
}

impl Program {
    pub open spec fn view(&self) -> ProgramView {
        ProgramView {
            runs: map_entries(self.runs@, ids_viewer()),
            nodes: node_views(self.nodes@),
        }
    }

    /// The node with an identity.
    pub fn node(&self, id: usize) -> (r: &Node)
        requires
            id < self@.nodes.len(),
        ensures
            r@ == self@.nodes[id as int],
            *r == self.nodes@[id as int],
    {
        &self.nodes[id]
    }

    /// The nodes at the root of a run; none for an unknown run.
    pub fn run_children(&self, run: &str) -> (r: &[usize])
        ensures
            r@ == self@.roots(run@),
    {
        proof {
            lemma_map_lookup(self.runs@, ids_viewer(), run@);
        }
        match self.runs.get(run) {
            Some(ids) => ids.as_slice(),
            None => {
                let none: &[usize] = &[];
                assert(none@ =~= Seq::<usize>::empty());
                none
            },
        }
    }

    fn collect(&self, roots: &[usize], out: &mut Vec<usize>, Ghost(depth): Ghost<nat>)
        requires
            forall|i: int| 0 <= i < roots@.len() ==> sound(self@.nodes, #[trigger] roots@[i], depth),
        ensures
            final(out)@ == old(out)@ + subtree(self@.nodes, roots@, depth),
        decreases depth,
    {
        let ghost nodes = self@.nodes;
        let ghost before = out@;
        let mut i: usize = 0;
        proof {
            assert(roots@.take(0) =~= Seq::<usize>::empty());
            assert(before + Seq::<usize>::empty() =~= before);
        }
        while i < roots.len()
            invariant
                i <= roots@.len(),
                nodes == self@.nodes,
                forall|j: int| 0 <= j < roots@.len() ==> sound(nodes, #[trigger] roots@[j], depth),
                out@ == before + subtree(nodes, roots@.take(i as int), depth),
            decreases roots@.len() - i,
        {
            let id: usize = roots[i];
            let ghost next = roots@.take(i + 1);
            let ghost so_far = out@;
            proof {
                assert(next.drop_last() =~= roots@.take(i as int));
                assert(next.last() == id);
                assert(sound(nodes, roots@[i as int], depth));
                assert(nodes[id as int].children == self.nodes@[id as int].children@);
            }
            out.push(id);
            self.collect(self.nodes[id].children.as_slice(), out, Ghost((depth - 1) as nat));
            proof {
                assert(out@ =~= so_far + tree(nodes, id, depth));
                assert(out@ =~= before + subtree(nodes, next, depth));
            }
            i += 1;
        }
        assert(roots@.take(i as int) =~= roots@);
    }

    /// The nodes under the roots, the roots among them, each before its
    /// children.
    pub fn visit_subtree(&self, roots: &[usize]) -> (r: Vec<usize>)
        requires
            self@.closed(),
            within(roots@, self@.nodes.len()),
        ensures
            r@ == self@.subtree(roots@),
            within(r@, self@.nodes.len()),
    {
        let mut out: Vec<usize> = Vec::new();
        proof {
            lemma_closed_subtree(self@.nodes, roots@);
            assert forall|i: int| 0 <= i < roots@.len() implies sound(
                self@.nodes,
                #[trigger] roots@[i],
                self@.nodes.len(),
            ) by {
                assert(roots@[i] < self@.nodes.len());
            }
        }
        self.collect(roots, &mut out, Ghost(self@.nodes.len()));
        assert(out@ =~= self@.subtree(roots@));
        out
    }

    /// How many rows a run starts with.
    pub fn run_row_count(&self, run: &str) -> (r: usize)
        requires
            self@.closed(),
            within(self@.roots(run@), self@.nodes.len()),
        ensures
            r == rows_among(self@.nodes, self@.subtree(self@.roots(run@))),
    {
        let ids = self.visit_subtree(self.run_children(run));
        let mut count: usize = 0;
        let mut i: usize = 0;
        assert(ids@.take(0) =~= Seq::<usize>::empty());
        while i < ids.len()
            invariant
                i <= ids@.len(),
                count <= i,
                within(ids@, self@.nodes.len()),
                count == rows_among(self@.nodes, ids@.take(i as int)),
            decreases ids@.len() - i,
        {
            proof {
                let next = ids@.take(i + 1);
                assert(next.drop_last() =~= ids@.take(i as int));
                assert(next.last() == ids@[i as int]);
            }
            if self.node(ids[i]).kind.row_label().is_some() {
                count += 1;
            }
            i += 1;
        }
        assert(ids@.take(i as int) =~= ids@);
        count
    }

    fn is_sound(&self, id: usize, depth: usize) -> (r: bool)
        ensures
            r == sound(self@.nodes, id, depth as nat),
        decreases depth,
    {
        if depth == 0 || id >= self.nodes.len() {
            return false;
        }
        let node = &self.nodes[id];
        assert(self@.nodes[id as int].children == node.children@);
        let mut i: usize = 0;
        while i < node.children.len()
            invariant
                i <= node.children@.len(),
                depth > 0,
                id < self.nodes@.len(),
                self@.nodes[id as int].children == node.children@,
                forall|j: int|
                    0 <= j < i ==> sound(
                        self@.nodes,
                        #[trigger] node.children@[j],
                        (depth - 1) as nat,
                    ),
            decreases node.children@.len() - i,
        {
            if !self.is_sound(node.children[i], depth - 1) {
                assert(!sound(self@.nodes, node.children@[i as int], (depth - 1) as nat));
                return false;
            }
            i += 1;
        }
        true
    }

    /// Whether every path down from a node ends in the arena.
    pub fn is_closed(&self) -> (r: bool)
        ensures
            r == self@.closed(),
    {
        let total: usize = self.nodes.len();
        let mut i: usize = 0;
        while i < total
            invariant
                i <= total,
                total == self@.nodes.len(),
                forall|id: usize| id < i ==> #[trigger] sound(self@.nodes, id, total as nat),
            decreases total - i,
        {
            if !self.is_sound(i, total) {
                return false;
            }
            i += 1;
        }
        true
    }
}

/// Collects nodes into an arena.
#[derive(Debug)]
pub struct ProgramBuilder {
    nodes: Vec<Node>,
}

impl ProgramBuilder {
    pub closed spec fn view(&self) -> Seq<NodeView> {
        node_views(self.nodes@)
    }

    /// A builder without nodes.
    pub fn new() -> (r: Self)
        ensures
            r@ == Seq::<NodeView>::empty(),
            closed(r@),
    {
        let r = ProgramBuilder { nodes: Vec::new() };
        assert(r@ =~= Seq::<NodeView>::empty());
        r
    }

    /// Append a node; its identity is returned.
    pub fn push(&mut self, kind: NodeKind, children: Vec<usize>) -> (r: usize)
        ensures
            r == old(self)@.len(),
            final(self)@ == old(self)@.push(NodeView { kind: kind@, children: children@ }),
            closed(old(self)@) && within(children@, old(self)@.len()) && r < usize::MAX ==> closed(
                final(self)@,
            ),
    {
        let id: usize = self.nodes.len();
        let ghost before = self@;
        self.nodes.push(Node { kind, children });
        proof {
            let node = NodeView { kind: kind@, children: children@ };
            assert(self@ =~= before.push(node));
            if closed(before) && within(children@, before.len()) && id < usize::MAX {
                law_push_keeps_closed(before, node);
            }
        }
        id
    }

    /// The program of the collected nodes, with the roots of its runs.
    pub fn build(self, runs: NameMap<Vec<usize>>) -> (r: Program)
        ensures
            r@.nodes == self@,
            r@.runs == map_entries(runs@, ids_viewer()),
    {
        Program { runs, nodes: self.nodes }
    }
}

impl Default for ProgramBuilder {
    fn default() -> (r: Self)
        ensures
            r@ == Seq::<NodeView>::empty(),
    {
        ProgramBuilder::new()
    }
}

} // verus!
