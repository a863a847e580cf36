//! The rows of a run as they are shown, live and in the final text.
use vstd::prelude::*;
use crate::exec::colors;
use crate::exec::colors::{colored_line, colored_line_string};
use crate::exec::model::{line_views, Display, NodeState, NodeStateView, TaskStatus};
use crate::ir::program::{
    closed, label_of, rows_among, sound, subtree, tree, within, NodeKind, NodeKindView, NodeView,
    Program, ProgramView,
};
use crate::ir::run_plan::{annotation, annotation_of, text_option};
use crate::text::{decimal, decimal_text};
use crate::tree::{
    branches, descends, is_tree, lemma_descends_is_tree, lemma_descends_join, lemma_descends_under,
    output_prefix_of, prefix_of, stored,
};

verus! {

broadcast use vstd::string::group_string_axioms;

/// How many lines of the output of a row the final text shows.
pub const MAX_PANEL_HEIGHT: usize = 15;

/// A row that is shown.
#[derive(Debug, PartialEq)]
pub struct Row {
    /// The node that it shows.
    pub node: usize,
    /// How many rows it stands under.
    pub depth: usize,
    pub label: String,
    /// The project that it runs in.
    pub project: Option<String>,
    /// What stands before it.
    pub prefix: String,
    /// What stands before its output.
    pub output_prefix: String,
}

/// A row without its branches.
pub struct RowView {
    pub node: usize,
    pub depth: nat,
    pub label: Seq<char>,
    pub project: Option<Seq<char>>,
}

impl Row {
    /// The row without its branches.
    pub open spec fn row_view(&self) -> RowView {
        RowView {
            node: self.node,
            depth: self.depth as nat,
            label: self.label@,
            project: text_option(self.project),
        }
    }
}

pub open spec fn row_views(s: Seq<Row>) -> Seq<RowView> {
    Seq::new(s.len(), |i: int| s[i].row_view())
}

/// The depths of rows.
pub open spec fn row_depths(rows: Seq<RowView>) -> Seq<nat> {
    Seq::new(rows.len(), |i: int| rows[i].depth)
}

/// The depths of rows, as they are stored.
pub open spec fn depths_of(rows: Seq<RowView>) -> Seq<usize> {
    stored(row_depths(rows))
}

/// Whether the children of a node are shown under a row of its own.
pub open spec fn is_block(kind: NodeKindView) -> bool {
    kind is Env || kind is Async || kind is Arm
}

/// The first of two that there is.
pub open spec fn first_of(a: Option<Seq<char>>, b: Option<Seq<char>>) -> Option<Seq<char>> {
    if a is Some {
        a
    } else {
        b
    }
}

/// The row of a node: what became known when it ran comes before what was
/// known before.
pub open spec fn own_row(
    kind: NodeKindView,
    state: NodeStateView,
    id: usize,
    depth: nat,
    project: Option<Seq<char>>,
) -> RowView {
    RowView {
        node: id,
        depth,
        label: match first_of(state.label, label_of(kind)) {
            Some(label) => label,
            None => Seq::empty(),
        },
        project: first_of(state.project, project),
    }
}

/// The rows of nodes and of what is under them, at a depth and under a project.
pub open spec fn rows_of(
    nodes: Seq<NodeView>,
    states: Seq<NodeStateView>,
    ids: Seq<usize>,
    depth: nat,
    project: Option<Seq<char>>,
    height: nat,
) -> Seq<RowView>
    decreases height, 1nat, ids.len(),
{
    if ids.len() == 0 {
        Seq::empty()
    } else {
        rows_of(nodes, states, ids.drop_last(), depth, project, height) + node_rows(
            nodes,
            states,
            ids.last(),
            depth,
            project,
            height,
        )
    }
}

/// The rows of a node. What was skipped is not shown, nor what is under it; a
/// switch and a project have no row of their own.
pub open spec fn node_rows(
    nodes: Seq<NodeView>,
    states: Seq<NodeStateView>,
    id: usize,
    depth: nat,
    project: Option<Seq<char>>,
    height: nat,
) -> Seq<RowView>
    decreases height, 0nat, 0nat,
{
    if height == 0 || states[id as int].status == TaskStatus::Skipped {
        Seq::empty()
    } else {
        let under = (height - 1) as nat;
        let node = nodes[id as int];
        let row = own_row(node.kind, states[id as int], id, depth, project);
        match node.kind {
            NodeKindView::Project(name) => rows_of(
                nodes,
                states,
                node.children,
                depth,
                annotation_of(name),
                under,
            ),
            NodeKindView::Switch(_) => rows_of(nodes, states, node.children, depth, project, under),
            kind => seq![row] + if is_block(kind) {
                rows_of(nodes, states, node.children, depth + 1, row.project, under)
            } else {
                Seq::empty()
            },
        }
    }
}

/// The rows of a run.
pub open spec fn run_rows(p: ProgramView, states: Seq<NodeStateView>, run: Seq<char>) -> Seq<
    RowView,
> {
    rows_of(p.nodes, states, p.roots(run), 0, None, p.nodes.len())
}

/// What rows are shown of: a run of a program in which every path ends, and a
/// state for each of its nodes.
pub open spec fn can_show(p: ProgramView, states: Seq<NodeStateView>, run: Seq<char>) -> bool {
    &&& p.closed()
    &&& within(p.roots(run), p.nodes.len())
    &&& states.len() == p.nodes.len()
}

fn copied(s: &Option<String>) -> (r: Option<String>)
    ensures
        text_option(r) == text_option(*s),
{
    match s {
        Some(s) => Some(s.clone()),
        None => None,
    }
}

fn first_copied(a: &Option<String>, b: &Option<String>) -> (r: Option<String>)
    ensures
        text_option(r) == first_of(text_option(*a), text_option(*b)),
{
    match a {
        Some(s) => Some(s.clone()),
        None => copied(b),
    }
}

fn collect_rows(
    program: &Program,
    display: &Display,
    ids: &[usize],
    depth: usize,
    project: &Option<String>,
    rows: &mut Vec<Row>,
    Ghost(height): Ghost<nat>,
)
    requires
        forall|i: int| 0 <= i < ids@.len() ==> sound(program@.nodes, #[trigger] ids@[i], height),
        display@.len() == program@.nodes.len(),
        depth + height <= program@.nodes.len(),
    ensures
        row_views(final(rows)@) == row_views(old(rows)@) + rows_of(
            program@.nodes,
            display@,
            ids@,
            depth as nat,
            text_option(*project),
            height,
        ),
    decreases height, 1nat,
{
    let ghost nodes = program@.nodes;
    let ghost under = text_option(*project);
    let ghost before = row_views(rows@);
    let mut i: usize = 0;
    proof {
        assert(ids@.take(0) =~= Seq::<usize>::empty());
        assert(before + Seq::<RowView>::empty() =~= before);
    }
    while i < ids.len()
        invariant
            i <= ids@.len(),
            nodes == program@.nodes,
            under == text_option(*project),
            forall|j: int| 0 <= j < ids@.len() ==> sound(nodes, #[trigger] ids@[j], height),
            display@.len() == nodes.len(),
            depth + height <= nodes.len(),
            row_views(rows@) == before + rows_of(
                nodes,
                display@,
                ids@.take(i as int),
                depth as nat,
                under,
                height,
            ),
        decreases ids@.len() - i,
    {
        proof {
            let next = ids@.take(i + 1);
            assert(next.drop_last() =~= ids@.take(i as int));
            assert(next.last() == ids@[i as int]);
            assert(sound(nodes, ids@[i as int], height));
        }
        collect_node(program, display, ids[i], depth, project, rows, Ghost(height));
        assert(row_views(rows@) =~= before + rows_of(
            nodes,
            display@,
            ids@.take(i + 1),
            depth as nat,
            under,
            height,
        ));
        i += 1;
    }
    assert(ids@.take(i as int) =~= ids@);
}

fn collect_node(
    program: &Program,
    display: &Display,
    id: usize,
    depth: usize,
    project: &Option<String>,
    rows: &mut Vec<Row>,
    Ghost(height): Ghost<nat>,
)
    requires
        sound(program@.nodes, id, height),
        display@.len() == program@.nodes.len(),
        depth + height <= program@.nodes.len(),
    ensures
        row_views(final(rows)@) == row_views(old(rows)@) + node_rows(
            program@.nodes,
            display@,
            id,
            depth as nat,
            text_option(*project),
            height,
        ),
    decreases height, 0nat,
{
    let ghost before = row_views(rows@);
    let ghost nodes = program@.nodes;
    let total: usize = display.len();
    assert(depth < total);
    let state = display.state(id);
    if state.status == TaskStatus::Skipped {
        assert(before + Seq::<RowView>::empty() =~= before);
        return;
    }
    let node = program.node(id);
    let ghost under = (height - 1) as nat;
    let children = node.children.as_slice();
    assert(children@ == nodes[id as int].children);
    match &node.kind {
        NodeKind::Project(name) => {
            collect_rows(program, display, children, depth, &annotation(name), rows, Ghost(under));
        },
        NodeKind::Switch(_) => {
            collect_rows(program, display, children, depth, project, rows, Ghost(under));
        },
        kind => {
            let label = match first_copied(&state.label, &kind.row_label()) {
                Some(label) => label,
                None => "".to_owned(),
            };
            let own = first_copied(&state.project, project);
            let row = Row {
                node: id,
                depth,
                label,
                project: copied(&own),
                prefix: String::new(),
                output_prefix: String::new(),
            };
            proof {
                reveal_strlit("");
                assert(""@ =~= Seq::<char>::empty());
                assert(row.row_view() == own_row(
                    nodes[id as int].kind,
                    display@[id as int],
                    id,
                    depth as nat,
                    text_option(*project),
                ));
            }
            let ghost view = row.row_view();
            rows.push(row);
            assert(row_views(rows@) =~= before + seq![view]);
            let block = match kind {
                NodeKind::Env(_) => true,
                NodeKind::Async => true,
                NodeKind::Arm(_) => true,
                _ => false,
            };
            if block {
                collect_rows(program, display, children, depth + 1, &own, rows, Ghost(under));
            }
            assert(row_views(rows@) =~= before + node_rows(
                nodes,
                display@,
                id,
                depth as nat,
                text_option(*project),
                height,
            ));
        },
    }
}

/// The rows of a run that are shown, in order, each with its branches.
pub fn visible_rows(program: &Program, display: &Display, run: &str) -> (r: Vec<Row>)
    requires
        can_show(program@, display@, run@),
    ensures
        row_views(r@) == run_rows(program@, display@, run@),
        forall|i: int|
            0 <= i < r@.len() ==> (#[trigger] r@[i]).prefix@ == prefix_of(
                depths_of(row_views(r@)),
                i as nat,
            ) && r@[i].output_prefix@ == output_prefix_of(depths_of(row_views(r@)), i as nat),
{
    let mut rows: Vec<Row> = Vec::new();
    assert(row_views(rows@) =~= Seq::<RowView>::empty());
    let roots = program.run_children(run);
    assert forall|i: int| 0 <= i < roots@.len() implies sound(
        program@.nodes,
        #[trigger] roots@[i],
        program@.nodes.len(),
    ) by {
        assert(roots@[i] < program@.nodes.len());
    }
    collect_rows(program, display, roots, 0, &None, &mut rows, Ghost(program@.nodes.len()));
    assert(row_views(rows@) =~= run_rows(program@, display@, run@));
    with_branches(rows)
}

fn with_branches(rows: Vec<Row>) -> (r: Vec<Row>)
    ensures
        row_views(r@) == row_views(rows@),
        forall|i: int|
            0 <= i < r@.len() ==> (#[trigger] r@[i]).prefix@ == prefix_of(
                depths_of(row_views(r@)),
                i as nat,
            ) && r@[i].output_prefix@ == output_prefix_of(depths_of(row_views(r@)), i as nat),
{
    let ghost views = row_views(rows@);
    let mut depths: Vec<usize> = Vec::new();
    let mut i: usize = 0;
    while i < rows.len()
        invariant
            i <= rows@.len(),
            depths@.len() == i,
            forall|j: int| 0 <= j < i ==> #[trigger] depths@[j] == rows@[j].depth,
        decreases rows@.len() - i,
    {
        depths.push(rows[i].depth);
        i += 1;
    }
    assert(depths@ =~= depths_of(views));
    let found = branches(&depths);
    let mut out: Vec<Row> = Vec::new();
    let mut k: usize = 0;
    while k < rows.len()
        invariant
            k <= rows@.len(),
            out@.len() == k,
            found@.len() == rows@.len(),
            views == row_views(rows@),
            forall|j: int| 0 <= j < k ==> (#[trigger] out@[j]).row_view() == views[j],
            forall|j: int|
                0 <= j < k ==> (#[trigger] out@[j]).prefix@ == found@[j].prefix@
                    && out@[j].output_prefix@ == found@[j].output_prefix@,
        decreases rows@.len() - k,
    {
        let row = &rows[k];
        out.push(
            Row {
                node: row.node,
                depth: row.depth,
                label: row.label.clone(),
                project: copied(&row.project),
                prefix: found[k].prefix.clone(),
                output_prefix: found[k].output_prefix.clone(),
            },
        );
        k += 1;
    }
    assert(row_views(out@) =~= views);
    out
}

/// What is shown of the project of a row.
pub open spec fn project_text(project: Option<Seq<char>>) -> Seq<char> {
    match project {
        Some(name) => " ["@ + name + "]"@,
        None => Seq::empty(),
    }
}

fn push_project(out: &mut String, project: &Option<String>)
    ensures
        final(out)@ == old(out)@ + project_text(text_option(*project)),
{
    let ghost before = out@;
    match project {
        Some(name) => {
            out.push_str(" [");
            out.push_str(name.as_str());
            out.push_str("]");
        },
        None => {},
    }
    assert(out@ =~= before + project_text(text_option(*project)));
}

/// The line of a row in the live view.
pub fn row_line(row: &Row, state: &NodeState, spinner_idx: usize) -> (r: String)
    ensures
        r@ == row.prefix@ + seq![state@.status.glyph_view(spinner_idx as nat)] + " "@ + row.label@
            + project_text(text_option(row.project)),
{
    let mut out = row.prefix.clone();
    out.push(state.status.glyph(spinner_idx));
    out.push_str(" ");
    out.push_str(row.label.as_str());
    push_project(&mut out, &row.project);
    proof {
        let glyph = state@.status.glyph_view(spinner_idx as nat);
        assert(row.prefix@.push(glyph) =~= row.prefix@ + seq![glyph]);
    }
    out
}

/// Lines of output, each behind a prefix.
pub open spec fn lines_text(prefix: Seq<char>, lines: Seq<Seq<char>>) -> Seq<char>
    decreases lines.len(),
{
    if lines.len() == 0 {
        Seq::empty()
    } else {
        lines_text(prefix, lines.drop_last()) + prefix + colored_line(lines.last()) + "\n"@
    }
}

/// How many of so many lines are not shown.
pub open spec fn hidden_lines(total: nat) -> nat {
    if total > MAX_PANEL_HEIGHT {
        (total - MAX_PANEL_HEIGHT) as nat
    } else {
        0
    }
}

/// The output of a row: its last lines, after a word on those before.
pub open spec fn output_text(prefix: Seq<char>, lines: Seq<Seq<char>>) -> Seq<char> {
    let hidden = hidden_lines(lines.len());
    (if hidden > 0 {
        prefix + colors::GRAY_ANSI@ + "↑ "@ + decimal(hidden) + " lines hidden "@ + colors::RESET@
            + "\n"@
    } else {
        Seq::empty()
    }) + lines_text(prefix, lines.skip(hidden as int))
}

/// A row in the final text.
#[verifier::opaque]
pub open spec fn row_text(
    row: RowView,
    prefix: Seq<char>,
    output_prefix: Seq<char>,
    state: NodeStateView,
) -> Seq<char> {
    prefix + state.status.ansi_view() + seq![state.status.glyph_view(0)] + colors::RESET@
        + " "@ + row.label + project_text(row.project) + "\n"@ + output_text(
        output_prefix,
        state.output,
    )
}

fn push_lines(out: &mut String, prefix: &str, lines: &Vec<String>, from: usize)
    requires
        from <= lines@.len(),
    ensures
        final(out)@ == old(out)@ + lines_text(prefix@, line_views(lines@).skip(from as int)),
{
    let ghost before = out@;
    let ghost shown = line_views(lines@).skip(from as int);
    let mut i: usize = from;
    proof {
        assert(shown.take(0) =~= Seq::<Seq<char>>::empty());
        assert(before + Seq::<char>::empty() =~= before);
    }
    while i < lines.len()
        invariant
            from <= i <= lines@.len(),
            shown == line_views(lines@).skip(from as int),
            out@ == before + lines_text(prefix@, shown.take(i - from)),
        decreases lines@.len() - i,
    {
        proof {
            let next = shown.take(i + 1 - from);
            assert(next.drop_last() =~= shown.take(i - from));
            assert(next.last() == lines@[i as int]@);
        }
        out.push_str(prefix);
        out.push_str(colored_line_string(lines[i].as_str()).as_str());
        out.push_str("\n");
        assert(out@ =~= before + lines_text(prefix@, shown.take(i + 1 - from)));
        i += 1;
    }
    assert(shown.take(i - from) =~= shown);
}

fn push_output(out: &mut String, prefix: &str, lines: &Vec<String>)
    ensures
        final(out)@ == old(out)@ + output_text(prefix@, line_views(lines@)),
{
    let ghost before = out@;
    let total: usize = lines.len();
    let hidden: usize = if total > MAX_PANEL_HEIGHT {
        total - MAX_PANEL_HEIGHT
    } else {
        0
    };
    if hidden > 0 {
        out.push_str(prefix);
        out.push_str(colors::GRAY_ANSI);
        out.push_str("↑ ");
        out.push_str(decimal_text(hidden as u64).as_str());
        out.push_str(" lines hidden ");
        out.push_str(colors::RESET);
        out.push_str("\n");
    }
    push_lines(out, prefix, lines, hidden);
    assert(out@ =~= before + output_text(prefix@, line_views(lines@)));
}

fn format_row_output(out: &mut String, display: &Display, row: &Row)
    requires
        row.node < display@.len(),
    ensures
        final(out)@ == old(out)@ + row_text(
            row.row_view(),
            row.prefix@,
            row.output_prefix@,
            display@[row.node as int],
        ),
{
    let ghost before = out@;
    let state = display.state(row.node);
    out.push_str(row.prefix.as_str());
    out.push_str(state.status.ansi());
    out.push(state.status.glyph(0));
    out.push_str(colors::RESET);
    out.push_str(" ");
    out.push_str(row.label.as_str());
    push_project(out, &row.project);
    out.push_str("\n");
    push_output(out, row.output_prefix.as_str(), &state.output);
    reveal(row_text);
    assert(out@ =~= before + row_text(
            row.row_view(),
            row.prefix@,
            row.output_prefix@,
            display@[row.node as int],
        ));
}

/// The text of the first `n` of the rows.
pub open spec fn rows_text(rows: Seq<RowView>, states: Seq<NodeStateView>, n: nat) -> Seq<char>
    decreases n,
{
    if n == 0 {
        Seq::empty()
    } else {
        let i = (n - 1) as nat;
        rows_text(rows, states, i) + row_text(
            rows[i as int],
            prefix_of(depths_of(rows), i),
            output_prefix_of(depths_of(rows), i),
            states[rows[i as int].node as int],
        )
    }
}

/// The text of a run when it has ended.
pub open spec fn final_text(p: ProgramView, states: Seq<NodeStateView>, run: Seq<char>) -> Seq<
    char,
> {
    let rows = run_rows(p, states, run);
    "\n"@ + rows_text(rows, states, rows.len())
}

/// The text of a run when it has ended: what ran, with its marks and its
/// output.
pub fn format_final_output(program: &Program, display: &Display, run: &str) -> (r: String)
    requires
        can_show(program@, display@, run@),
    ensures
        r@ == final_text(program@, display@, run@),
{
    let rows = visible_rows(program, display, run);
    let ghost views = run_rows(program@, display@, run@);
    let mut out = "\n".to_owned();
    let mut i: usize = 0;
    proof {
        law_skipped_is_hidden(program@, display@, run@);
        assert("\n"@ + Seq::<char>::empty() =~= "\n"@);
    }
    while i < rows.len()
        invariant
            i <= rows@.len(),
            views == row_views(rows@),
            forall|j: int|
                0 <= j < rows@.len() ==> (#[trigger] rows@[j]).prefix@ == prefix_of(
                    depths_of(views),
                    j as nat,
                ) && rows@[j].output_prefix@ == output_prefix_of(depths_of(views), j as nat),
            forall|j: int| 0 <= j < views.len() ==> (#[trigger] views[j]).node < display@.len(),
            out@ == "\n"@ + rows_text(views, display@, i as nat),
        decreases rows@.len() - i,
    {
        assert(views[i as int] == rows@[i as int].row_view());
        assert(rows@[i as int].prefix@ == prefix_of(depths_of(views), i as nat));
        let ghost so_far = rows_text(views, display@, i as nat);
        format_row_output(&mut out, display, &rows[i]);
        proof {
            let one = row_text(
                views[i as int],
                prefix_of(depths_of(views), i as nat),
                output_prefix_of(depths_of(views), i as nat),
                display@[views[i as int].node as int],
            );
            assert(out@ == ("\n"@ + so_far) + one);
            assert(("\n"@ + so_far) + one =~= "\n"@ + (so_far + one));
        }
        i += 1;
    }
    out
}

// ── Laws ─────────────────────────────────────────────────────────────────────

/// Whether every row shows a node of the arena that was not skipped.
pub open spec fn all_unskipped(rows: Seq<RowView>, states: Seq<NodeStateView>) -> bool {
    forall|i: int|
        0 <= i < rows.len() ==> (#[trigger] rows[i]).node < states.len()
            && states[rows[i].node as int].status != TaskStatus::Skipped
}

proof fn lemma_unskipped_join(a: Seq<RowView>, b: Seq<RowView>, states: Seq<NodeStateView>)
    requires
        all_unskipped(a, states),
        all_unskipped(b, states),
    ensures
        all_unskipped(a + b, states),
{
    let all = a + b;
    assert forall|i: int| 0 <= i < all.len() implies (#[trigger] all[i]).node < states.len()
        && states[all[i].node as int].status != TaskStatus::Skipped by {
        if i < a.len() {
            assert(all[i] == a[i]);
        } else {
            assert(all[i] == b[i - a.len()]);
        }
    }
}

proof fn lemma_rows_join(nodes: Seq<NodeView>, a: Seq<usize>, b: Seq<usize>)
    ensures
        rows_among(nodes, a + b) == rows_among(nodes, a) + rows_among(nodes, b),
    decreases b.len(),
{
    if b.len() == 0 {
        assert(a + b =~= a);
    } else {
        assert((a + b).drop_last() =~= a + b.drop_last());
        lemma_rows_join(nodes, a, b.drop_last());
    }
}

proof fn lemma_depths_join(a: Seq<RowView>, b: Seq<RowView>)
    ensures
        row_depths(a + b) == row_depths(a) + row_depths(b),
{
    assert(row_depths(a + b) =~= row_depths(a) + row_depths(b));
}

proof fn lemma_rows(
    nodes: Seq<NodeView>,
    states: Seq<NodeStateView>,
    ids: Seq<usize>,
    depth: nat,
    project: Option<Seq<char>>,
    height: nat,
)
    requires
        forall|i: int| 0 <= i < ids.len() ==> sound(nodes, #[trigger] ids[i], height),
        states.len() == nodes.len(),
    ensures
        ({
            let rows = rows_of(nodes, states, ids, depth, project, height);
            &&& all_unskipped(rows, states)
            &&& descends(row_depths(rows), depth, height)
            &&& rows.len() <= rows_among(nodes, subtree(nodes, ids, height))
        }),
    decreases height, 1nat, ids.len(),
{
    if ids.len() > 0 {
        let init = ids.drop_last();
        assert forall|i: int| 0 <= i < init.len() implies sound(
            nodes,
            #[trigger] init[i],
            height,
        ) by {
            assert(init[i] == ids[i]);
        }
        assert(sound(nodes, ids[ids.len() - 1], height));
        lemma_rows(nodes, states, init, depth, project, height);
        lemma_node_rows(nodes, states, ids.last(), depth, project, height);
        let a = rows_of(nodes, states, init, depth, project, height);
        let b = node_rows(nodes, states, ids.last(), depth, project, height);
        lemma_unskipped_join(a, b, states);
        lemma_depths_join(a, b);
        lemma_descends_join(row_depths(a), row_depths(b), depth, height, height);
        lemma_rows_join(
            nodes,
            subtree(nodes, init, height),
            tree(nodes, ids.last(), height),
        );
    }
}

proof fn lemma_one_row(nodes: Seq<NodeView>, id: usize)
    ensures
        rows_among(nodes, seq![id]) == if label_of(nodes[id as int].kind) is Some {
            1nat
        } else {
            0
        },
{
    reveal_with_fuel(rows_among, 2);
    assert(seq![id].drop_last() =~= Seq::<usize>::empty());
}

proof fn lemma_row_above(row: RowView, rest: Seq<RowView>, states: Seq<NodeStateView>, under: nat)
    requires
        row.node < states.len(),
        states[row.node as int].status != TaskStatus::Skipped,
        all_unskipped(rest, states),
        descends(row_depths(rest), row.depth + 1, under),
    ensures
        all_unskipped(seq![row] + rest, states),
        descends(row_depths(seq![row] + rest), row.depth, under + 1),
{
    assert(all_unskipped(seq![row], states));
    lemma_unskipped_join(seq![row], rest, states);
    lemma_depths_join(seq![row], rest);
    assert(row_depths(seq![row]) =~= seq![row.depth]);
    lemma_descends_under(row.depth, row.depth + 1, row_depths(rest), under);
}

proof fn lemma_node_rows(
    nodes: Seq<NodeView>,
    states: Seq<NodeStateView>,
    id: usize,
    depth: nat,
    project: Option<Seq<char>>,
    height: nat,
)
    requires
        sound(nodes, id, height),
        states.len() == nodes.len(),
    ensures
        ({
            let rows = node_rows(nodes, states, id, depth, project, height);
            &&& all_unskipped(rows, states)
            &&& descends(row_depths(rows), depth, height)
            &&& rows.len() <= rows_among(nodes, tree(nodes, id, height))
        }),
    decreases height, 0nat, 0nat,
{
    let node = nodes[id as int];
    let under = (height - 1) as nat;
    let below = subtree(nodes, node.children, under);
    assert(tree(nodes, id, height) == seq![id] + below);
    lemma_rows_join(nodes, seq![id], below);
    lemma_one_row(nodes, id);
    if states[id as int].status != TaskStatus::Skipped {
        match node.kind {
            NodeKindView::Project(name) => {
                lemma_rows(nodes, states, node.children, depth, annotation_of(name), under);
            },
            NodeKindView::Switch(_) => {
                lemma_rows(nodes, states, node.children, depth, project, under);
            },
            kind => {
                let row = own_row(kind, states[id as int], id, depth, project);
                let rest = if is_block(kind) {
                    rows_of(nodes, states, node.children, depth + 1, row.project, under)
                } else {
                    Seq::empty()
                };
                if is_block(kind) {
                    lemma_rows(nodes, states, node.children, depth + 1, row.project, under);
                }
                lemma_row_above(row, rest, states, under);
            },
        }
    }
}

proof fn lemma_run_rows(p: ProgramView, states: Seq<NodeStateView>, run: Seq<char>)
    requires
        can_show(p, states, run),
    ensures
        ({
            let rows = run_rows(p, states, run);
            &&& all_unskipped(rows, states)
            &&& descends(row_depths(rows), 0, p.nodes.len())
            &&& rows.len() <= rows_among(p.nodes, p.subtree(p.roots(run)))
        }),
{
    let roots = p.roots(run);
    assert forall|i: int| 0 <= i < roots.len() implies sound(
        p.nodes,
        #[trigger] roots[i],
        p.nodes.len(),
    ) by {
        assert(roots[i] < p.nodes.len());
    }
    lemma_rows(p.nodes, states, roots, 0, None, p.nodes.len());
}

/// What was skipped has no row.
pub proof fn law_skipped_is_hidden(p: ProgramView, states: Seq<NodeStateView>, run: Seq<char>)
    requires
        can_show(p, states, run),
    ensures
        all_unskipped(run_rows(p, states, run), states),
{
    lemma_run_rows(p, states, run);
}

/// A run never shows more rows than it starts with, so that they fit the view
/// that was sized for them.
pub proof fn law_rows_fit_the_view(p: ProgramView, states: Seq<NodeStateView>, run: Seq<char>)
    requires
        can_show(p, states, run),
    ensures
        run_rows(p, states, run).len() <= rows_among(p.nodes, p.subtree(p.roots(run))),
{
    lemma_run_rows(p, states, run);
}

/// The rows of a run form a tree: the first is outermost, and no row stands
/// more than one level below the row before it.
pub proof fn law_rows_form_a_tree(p: ProgramView, states: Seq<NodeStateView>, run: Seq<char>)
    requires
        can_show(p, states, run),
        p.nodes.len() <= usize::MAX,
    ensures
        is_tree(depths_of(run_rows(p, states, run))),
{
    lemma_run_rows(p, states, run);
    let depths = row_depths(run_rows(p, states, run));
    assert forall|i: int| 0 <= i < depths.len() implies #[trigger] depths[i] <= usize::MAX by {
        assert(depths[i] < p.nodes.len());
    }
    lemma_descends_is_tree(row_depths(run_rows(p, states, run)), p.nodes.len());
}

} // verus!
