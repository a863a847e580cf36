//! What a run shows: which rows, in which order and under which branches, and
//! what of their output.
use vstd::prelude::*;
use crate::exec::colors::{colored_line, is_formatted};
use crate::exec::model::{NodeStateView, TaskStatus};
use crate::exec::rows::{
    depths_of, final_text, lines_text, node_rows, output_text, row_text, rows_of, rows_text,
    run_rows, RowView,
};
use crate::ir::program::{label_of, NodeKindView, NodeView, ProgramView};
use crate::ir::{shown, TemplateView};
use crate::text::decimal;
use crate::tree::{output_prefix_of, prefix_of};

verus! {

broadcast use vstd::string::group_string_axioms;

// ── Output ───────────────────────────────────────────────────────────────────

proof fn lemma_lines_push(prefix: Seq<char>, lines: Seq<Seq<char>>, line: Seq<char>)
    ensures
        lines_text(prefix, lines.push(line)) == lines_text(prefix, lines) + prefix + colored_line(
            line,
        ) + "\n"@,
{
    assert(lines.push(line).drop_last() =~= lines);
}

/// Under a row stand the last lines of its output, fifteen at most, each behind
/// the prefix of the row, in order; all of them where there are no more. Where
/// there are more, a note before them says how many are not shown.
pub proof fn law_the_last_lines_are_shown(prefix: Seq<char>, lines: Seq<Seq<char>>, line: Seq<char>)
    ensures
        output_text(prefix, Seq::empty()) == Seq::<char>::empty(),
        lines.len() < 15 ==> output_text(prefix, lines.push(line)) == output_text(prefix, lines)
            + prefix + colored_line(line) + "\n"@,
        lines.len() > 15 ==> output_text(prefix, lines) == prefix + "\x1b[90m"@ + "↑ "@ + decimal(
            (lines.len() - 15) as nat,
        ) + " lines hidden "@ + "\x1b[0m"@ + "\n"@ + output_text(
            prefix,
            lines.skip(lines.len() - 15),
        ),
{
    let none = Seq::<Seq<char>>::empty();
    assert(none.skip(0) =~= none);
    assert(output_text(prefix, none) =~= Seq::<char>::empty());
    let more = lines.push(line);
    if lines.len() < 15 {
        assert(more.skip(0) =~= more);
        assert(lines.skip(0) =~= lines);
        lemma_lines_push(prefix, lines, line);
        assert(Seq::<char>::empty() + lines_text(prefix, more) =~= lines_text(prefix, more));
        assert(Seq::<char>::empty() + lines_text(prefix, lines) =~= lines_text(prefix, lines));
    }
    if lines.len() > 15 {
        let last = lines.skip(lines.len() - 15);
        assert(last.skip(0) =~= last);
        assert(Seq::<char>::empty() + lines_text(prefix, last) =~= lines_text(prefix, last));
    }
}

/// A line of output is shown as it is where it holds a formatting sequence, and
/// otherwise in bright white.
pub proof fn law_lines_are_shown_whole(line: Seq<char>)
    ensures
        (exists|i: int|
            0 <= i < line.len() - 1 && #[trigger] line.subrange(i, i + 2) == "\x1b["@)
            ==> colored_line(line) == line,
        (forall|i: int|
            0 <= i < line.len() - 1 ==> #[trigger] line.subrange(i, i + 2) != "\x1b["@)
            ==> colored_line(line) == "\x1b[97m"@ + line + "\x1b[0m"@,
{
    reveal_strlit("\x1b[");
    if exists|i: int| 0 <= i < line.len() - 1 && #[trigger] line.subrange(i, i + 2) == "\x1b["@ {
        let i = choose|i: int|
            0 <= i < line.len() - 1 && #[trigger] line.subrange(i, i + 2) == "\x1b["@;
        assert(line[i] == line.subrange(i, i + 2)[0]);
        assert(line[i + 1] == line.subrange(i, i + 2)[1]);
    }
    if forall|i: int| 0 <= i < line.len() - 1 ==> #[trigger] line.subrange(i, i + 2) != "\x1b["@ {
        if is_formatted(line) {
            let i = choose|i: int|
                0 <= i < line.len() - 1 && #[trigger] line[i] == '\x1b' && line[i + 1] == '[';
            assert(line.subrange(i, i + 2) =~= "\x1b["@);
        }
    }
}

// ── Rows ─────────────────────────────────────────────────────────────────────

/// The rows of nodes follow one another as the nodes do.
pub proof fn law_rows_follow_their_nodes(
    nodes: Seq<NodeView>,
    states: Seq<NodeStateView>,
    a: Seq<usize>,
    b: Seq<usize>,
    depth: nat,
    project: Option<Seq<char>>,
    height: nat,
)
    ensures
        rows_of(nodes, states, a + b, depth, project, height) == rows_of(
            nodes,
            states,
            a,
            depth,
            project,
            height,
        ) + rows_of(nodes, states, b, depth, project, height),
    decreases b.len(),
{
    if b.len() == 0 {
        assert(a + b =~= a);
        assert(rows_of(nodes, states, a, depth, project, height) + Seq::<RowView>::empty()
            =~= rows_of(nodes, states, a, depth, project, height));
    } else {
        assert((a + b).drop_last() =~= a + b.drop_last());
        law_rows_follow_their_nodes(nodes, states, a, b.drop_last(), depth, project, height);
        let x = rows_of(nodes, states, a, depth, project, height);
        let y = rows_of(nodes, states, b.drop_last(), depth, project, height);
        let z = node_rows(nodes, states, b.last(), depth, project, height);
        assert(x + (y + z) =~= x + y + z);
    }
}

/// What is shown of a project beside the rows in it.
pub open spec fn beside(name: TemplateView) -> Option<Seq<char>> {
    if shown(name).len() > 0 {
        Some(shown(name))
    } else {
        None
    }
}

/// What is shown of one node. Nothing of what was skipped. A switch and a project
/// have no row: what is under them stands where they stand, the latter under its
/// name. Any other node has one row, with its own label and project where they
/// became known; what is under an `env`, an `async` and an arm stands one level
/// deeper, under the same project.
pub proof fn law_what_a_node_shows(
    nodes: Seq<NodeView>,
    states: Seq<NodeStateView>,
    id: usize,
    depth: nat,
    project: Option<Seq<char>>,
    height: nat,
)
    requires
        height > 0,
    ensures
        ({
            let rows = rows_of(nodes, states, seq![id], depth, project, height);
            let below = (height - 1) as nat;
            let node = nodes[id as int];
            let state = states[id as int];
            if state.status == TaskStatus::Skipped {
                rows.len() == 0
            } else {
                match node.kind {
                    NodeKindView::Project(name) => rows == rows_of(
                        nodes,
                        states,
                        node.children,
                        depth,
                        beside(name),
                        below,
                    ),
                    NodeKindView::Switch(_) => rows == rows_of(
                        nodes,
                        states,
                        node.children,
                        depth,
                        project,
                        below,
                    ),
                    _ => {
                        &&& rows.len() > 0
                        &&& rows[0].node == id
                        &&& rows[0].depth == depth
                        &&& state.label matches Some(label) ==> rows[0].label == label
                        &&& state.label is None ==> (label_of(node.kind) matches Some(label)
                            && rows[0].label == label)
                        &&& state.project is Some ==> rows[0].project == state.project
                        &&& state.project is None ==> rows[0].project == project
                        &&& rows.skip(1) == if node.kind is Env || node.kind is Async
                            || node.kind is Arm {
                            rows_of(
                                nodes,
                                states,
                                node.children,
                                depth + 1,
                                rows[0].project,
                                below,
                            )
                        } else {
                            Seq::empty()
                        }
                    },
                }
            }
        }),
{
    let one = seq![id];
    assert(one.drop_last() =~= Seq::<usize>::empty());
    let rows = rows_of(nodes, states, one, depth, project, height);
    let own = node_rows(nodes, states, id, depth, project, height);
    assert(rows_of(nodes, states, one.drop_last(), depth, project, height)
        =~= Seq::<RowView>::empty());
    assert(rows =~= own);
    let node = nodes[id as int];
    if states[id as int].status != TaskStatus::Skipped {
        match node.kind {
            NodeKindView::Project(_) => {},
            NodeKindView::Switch(_) => {},
            kind => {
                let project = own[0].project;
                let under = if kind is Env || kind is Async || kind is Arm {
                    rows_of(
                        nodes,
                        states,
                        node.children,
                        depth + 1,
                        project,
                        (height - 1) as nat,
                    )
                } else {
                    Seq::<RowView>::empty()
                };
                assert(own.skip(1) =~= under);
            },
        }
    }
}

/// A run shows the rows of its roots, at the outermost level and under no
/// project.
pub proof fn law_a_run_shows_its_roots(p: ProgramView, states: Seq<NodeStateView>, run: Seq<char>)
    ensures
        run_rows(p, states, run) == rows_of(
            p.nodes,
            states,
            match crate::names::lookup(p.runs, run) {
                Some(ids) => ids,
                None => Seq::empty(),
            },
            0,
            None,
            p.nodes.len(),
        ),
{
}

/// A row of the final text: its branches, its mark in the colour of its status,
/// its label and its project, and then its output.
pub proof fn law_a_row_of_the_final_text(
    row: RowView,
    prefix: Seq<char>,
    output_prefix: Seq<char>,
    state: NodeStateView,
)
    ensures
        row_text(row, prefix, output_prefix, state) == prefix + state.status.ansi_view() + seq![
            state.status.glyph_view(0),
        ] + "\x1b[0m"@ + " "@ + row.label + (match row.project {
            Some(name) => " ["@ + name + "]"@,
            None => Seq::empty(),
        }) + "\n"@ + output_text(output_prefix, state.output),
{
    reveal(row_text);
}

/// The mark of a status tells it from every other.
pub proof fn law_marks_tell_statuses_apart(a: TaskStatus, b: TaskStatus, spinner_idx: nat)
    ensures
        a.glyph_view(spinner_idx) == b.glyph_view(spinner_idx) ==> a == b,
{
}

/// The final text holds every row that is shown, in order, each under its
/// branches and with the state of its node.
pub proof fn law_the_final_text_holds_every_row(
    p: ProgramView,
    states: Seq<NodeStateView>,
    run: Seq<char>,
    i: nat,
)
    requires
        i < run_rows(p, states, run).len(),
    ensures
        ({
            let rows = run_rows(p, states, run);
            let before = rows_text(rows, states, i);
            let after = rows_text(rows, states, i + 1);
            &&& final_text(p, states, run) == "\n"@ + rows_text(rows, states, rows.len())
            &&& rows_text(rows, states, 0).len() == 0
            &&& after == before + row_text(
                rows[i as int],
                prefix_of(depths_of(rows), i),
                output_prefix_of(depths_of(rows), i),
                states[rows[i as int].node as int],
            )
        }),
{
}

/// The marks of the statuses; of what is running, a picture that turns.
pub proof fn law_the_marks(i: nat)
    ensures
        TaskStatus::Success.glyph_view(i) == '✓',
        TaskStatus::Error.glyph_view(i) == '✗',
        TaskStatus::Cancelled.glyph_view(i) == '■',
        TaskStatus::Skipped.glyph_view(i) == '-',
        TaskStatus::Pending.glyph_view(i) == '·',
        TaskStatus::Running.glyph_view(i) == TaskStatus::Running.glyph_view(i + 10),
        TaskStatus::Running.glyph_view(i) != TaskStatus::Running.glyph_view(i + 1),
        TaskStatus::Success.ansi_view() == "\x1b[92m"@,
        TaskStatus::Error.ansi_view() == "\x1b[91m"@,
        TaskStatus::Running.ansi_view() == "\x1b[93m"@,
        TaskStatus::Cancelled.ansi_view() == "\x1b[97m"@,
        TaskStatus::Pending.ansi_view() == "\x1b[90m"@,
{
    assert((i as int + 10) % 10 == i as int % 10);
    assert((i as int + 1) % 10 != i as int % 10);
}

} // verus!
