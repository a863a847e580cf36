//! The order in which files are compiled, and where imports lead.
use vstd::prelude::*;
use crate::lower::files::{
    base_name, candidates, file_name, path_of, path_parts, run, unexpected_var, without_tail,
    CandidateView, CompilerView, FrameView, PathView, StepView,
};
use crate::lower::inline::{inlined, Place};
use crate::lower::stmt::{
    with_project_body, with_project_fields, with_run, with_shell, with_stmt, with_timeout,
    with_var, StateView,
};
use crate::lower::CompileErrorView;
use crate::syntax::{PartView, StmtView, TemplateView, TopLevelView};

verus! {

broadcast use vstd::string::group_string_axioms;

/// A state after declarations, one after another.
pub open spec fn after_all(s: StateView, decls: Seq<StmtView>, name: Seq<char>) -> Result<
    StateView,
    CompileErrorView,
>
    decreases decls.len(),
{
    if decls.len() == 0 {
        Ok(s)
    } else {
        match with_stmt(s, decls[0], name) {
            Err(e) => Err(e),
            Ok(t) => after_all(t, decls.skip(1), name),
        }
    }
}

/// The declarations of a file are compiled in order, from the one on at which it
/// stands; with the last of them the file is done, and the one that imports it
/// goes on where it stood.
pub proof fn law_a_file_is_compiled_to_its_end(
    c: CompilerView,
    below: Seq<FrameView>,
    top: FrameView,
    decls: Seq<StmtView>,
)
    requires
        c.frames == below.push(top),
        top.next + decls.len() == top.program.items.len(),
        forall|i: int|
            0 <= i < decls.len() ==> #[trigger] top.program.items[top.next + i]
                == TopLevelView::Stmt(decls[i]),
    ensures
        after_all(c.state, decls, top.program.source_name) matches Ok(state) ==> run(c) == run(
            CompilerView {
                state,
                frames: below,
                loaded: c.loaded.push(top.program.source_name),
            },
        ),
        after_all(c.state, decls, top.program.source_name) matches Err(e) ==> run(c).0 == Err::<
            StepView,
            CompileErrorView,
        >(e),
    decreases decls.len(),
{
    assert(c.frames.last() == top);
    assert(c.frames.drop_last() =~= below);
    if decls.len() > 0 {
        assert(top.program.items[top.next + 0int] == TopLevelView::Stmt(decls[0]));
        match with_stmt(c.state, decls[0], top.program.source_name) {
            Ok(state) => {
                let next = FrameView { next: top.next + 1, ..top };
                let others = decls.skip(1);
                let d = CompilerView { state, frames: below.push(next), ..c };
                assert forall|i: int| 0 <= i < others.len() implies #[trigger] next.program.items[
                next.next + i] == TopLevelView::Stmt(others[i]) by {
                    assert(top.program.items[top.next + (i + 1)] == TopLevelView::Stmt(
                        decls[i + 1],
                    ));
                }
                assert(run(c) == run(d));
                law_a_file_is_compiled_to_its_end(d, below, next, others);
            },
            Err(_) => {},
        }
    }
}

/// At an import the compiler asks for the file, with the variables in its path
/// inlined, before anything after the import is compiled.
pub proof fn law_an_import_comes_before_what_follows_it(
    c: CompilerView,
    below: Seq<FrameView>,
    top: FrameView,
    path: TemplateView,
)
    requires
        c.frames == below.push(top),
        top.next < top.program.items.len(),
        top.program.items[top.next as int] == TopLevelView::Import(path),
    ensures
        ({
            let name = top.program.source_name;
            match inlined(c.state.at(name), path, c.state.globals) {
                Err(e) => run(c) == (Err::<StepView, CompileErrorView>(e), c),
                Ok(path) => run(c) == (
                    Ok::<StepView, CompileErrorView>(StepView::Import { path, source_name: name }),
                    CompilerView {
                        frames: below.push(FrameView { next: top.next + 1, ..top }),
                        ..c
                    },
                ),
            }
        }),
{
    assert(c.frames.last() == top);
    assert(c.frames.drop_last() =~= below);
}

/// The compiler is finished just where no file is left.
pub proof fn law_the_compiler_finishes_with_the_last_file(c: CompilerView)
    ensures
        c.frames.len() == 0 ==> run(c) == (
            Ok::<StepView, CompileErrorView>(StepView::Finished),
            c,
        ),
        run(c).0 == Ok::<StepView, CompileErrorView>(StepView::Finished) ==> run(c).1.frames.len()
            == 0,
    decreases crate::lower::files::work(c.frames),
{
    if c.frames.len() > 0 {
        let top = c.frames.last();
        let below = c.frames.drop_last();
        let name = top.program.source_name;
        if top.next >= top.program.items.len() {
            law_the_compiler_finishes_with_the_last_file(
                CompilerView { frames: below, loaded: c.loaded.push(name), ..c },
            );
        } else {
            let after = below.push(FrameView { next: top.next + 1, ..top });
            assert(after.drop_last() =~= below);
            match top.program.items[top.next as int] {
                TopLevelView::Stmt(s) => {
                    match with_stmt(c.state, s, name) {
                        Ok(state) => {
                            law_the_compiler_finishes_with_the_last_file(
                                CompilerView { state, frames: after, ..c },
                            );
                        },
                        Err(_) => {},
                    }
                },
                _ => {},
            }
        }
    }
}

/// Each declaration does what it is there for: a setting, a variable, a run, or
/// the fields of a project and its body, in this order. A function outside a
/// project, and a field outside one, do nothing.
pub proof fn law_every_declaration_is_compiled(s: StateView, d: StmtView, file: Seq<char>)
    ensures
        match d {
            StmtView::Shell { value, offset, len, source_name } => with_stmt(s, d, file)
                == with_shell(s, value, offset, len, source_name),
            StmtView::Timeout { value, offset, len, source_name } => with_stmt(s, d, file)
                == with_timeout(s, value, offset, len, source_name),
            StmtView::Var { name, value, offset, len } => with_stmt(s, d, file) == with_var(
                s,
                name,
                value,
                offset,
                len,
                file,
            ),
            StmtView::Run { name, calls, offset, len } => with_stmt(s, d, file) == with_run(
                s,
                name,
                calls,
                offset,
                len,
                file,
            ),
            StmtView::Project { name, fields, body } => {
                &&& with_project_fields(s, name, fields, file) is Err ==> with_stmt(s, d, file)
                    == with_project_fields(s, name, fields, file)
                &&& with_project_fields(s, name, fields, file) matches Ok(t) ==> with_stmt(
                    s,
                    d,
                    file,
                ) == with_project_body(t, name, body, file)
            },
            _ => with_stmt(s, d, file) == Ok::<StateView, CompileErrorView>(s),
        },
{
}

// ── Paths ────────────────────────────────────────────────────────────────────

/// The path of an import is put together from its pieces in order; each goes on
/// with the outputs that the ones before it left.
pub proof fn law_a_path_is_put_together_in_order(
    p: Place,
    t: TemplateView,
    a: Seq<PartView>,
    b: Seq<PartView>,
    outputs: Seq<Seq<char>>,
    used: nat,
)
    ensures
        path_parts(p, t, a + b, outputs, used) == match path_parts(p, t, a, outputs, used) {
            Ok(PathView::Done { text: first, used }) => match path_parts(p, t, b, outputs, used) {
                Ok(PathView::Done { text, used }) => Ok(
                    PathView::Done { text: first + text, used },
                ),
                ended => ended,
            },
            ended => ended,
        },
    decreases b.len(),
{
    let none = Seq::<PartView>::empty();
    if b.len() == 0 {
        assert(a + b =~= a);
        assert(b =~= none);
        match path_parts(p, t, a, outputs, used) {
            Ok(PathView::Done { text, .. }) => {
                assert(text + Seq::<char>::empty() =~= text);
            },
            _ => {},
        }
    } else {
        let init = b.drop_last();
        law_a_path_is_put_together_in_order(p, t, a, init, outputs, used);
        assert((a + b).drop_last() =~= a + init);
        assert((a + b).last() == b.last());
        match path_parts(p, t, a, outputs, used) {
            Ok(PathView::Done { text: first, used: u1 }) => {
                match path_parts(p, t, init, outputs, u1) {
                    Ok(PathView::Done { text: second, used: u2 }) => {
                        lemma_one_more(p, t, a + b, outputs, used, first + second, u2);
                        lemma_one_more(p, t, b, outputs, u1, second, u2);
                        match path_parts(p, t, seq![b.last()], outputs, u2) {
                            Ok(PathView::Done { text: third, .. }) => {
                                assert(first + second + third =~= first + (second + third));
                            },
                            _ => {},
                        }
                    },
                    _ => {},
                }
            },
            _ => {},
        }
    }
}

proof fn lemma_one_more(
    p: Place,
    t: TemplateView,
    parts: Seq<PartView>,
    outputs: Seq<Seq<char>>,
    used: nat,
    text: Seq<char>,
    u: nat,
)
    requires
        parts.len() > 0,
        path_parts(p, t, parts.drop_last(), outputs, used) == Ok::<PathView, CompileErrorView>(
            PathView::Done { text, used: u },
        ),
    ensures
        path_parts(p, t, parts, outputs, used) == match path_parts(
            p,
            t,
            seq![parts.last()],
            outputs,
            u,
        ) {
            Ok(PathView::Done { text: more, used }) => Ok(
                PathView::Done { text: text + more, used },
            ),
            ended => ended,
        },
{
    law_what_a_piece_of_a_path_gives(p, t, parts.last(), outputs, u);
    let one = seq![parts.last()];
    assert(one.last() == parts.last());
}

/// What a piece of a path gives: a literal its own text; a command the next
/// output, or itself, to be run, where there is none; a variable is refused.
pub proof fn law_what_a_piece_of_a_path_gives(
    p: Place,
    t: TemplateView,
    piece: PartView,
    outputs: Seq<Seq<char>>,
    used: nat,
)
    ensures
        path_of(p, t, outputs, used) == path_parts(p, t, t.parts, outputs, used),
        ({
            let r = path_parts(p, t, seq![piece], outputs, used);
            match piece {
                PartView::Lit(text) => r == Ok::<PathView, CompileErrorView>(
                    PathView::Done { text, used },
                ),
                PartView::Var(name) => r == Err::<PathView, CompileErrorView>(
                    unexpected_var(p, name, t),
                ),
                PartView::Cmd(inner) => match path_of(p, inner, outputs, used) {
                    Ok(PathView::Done { text: cmd, used }) => {
                        &&& used < outputs.len() ==> r == Ok::<PathView, CompileErrorView>(
                            PathView::Done { text: outputs[used as int], used: used + 1 },
                        )
                        &&& used >= outputs.len() ==> r == Ok::<PathView, CompileErrorView>(
                            PathView::Run(cmd),
                        )
                    },
                    ended => r == ended,
                },
            }
        }),
{
    let one = seq![piece];
    let none = Seq::<PartView>::empty();
    let no_text = Seq::<char>::empty();
    assert(one.drop_last() =~= none);
    assert(one.last() == piece);
    assert(path_parts(p, t, none, outputs, used) == Ok::<PathView, CompileErrorView>(
        PathView::Done { text: no_text, used },
    ));
    match piece {
        PartView::Lit(s) => {
            assert(no_text + s =~= s);
        },
        PartView::Cmd(inner) => {
            match path_of(p, inner, outputs, used) {
                Ok(PathView::Done { used: u, .. }) => {
                    if u < outputs.len() {
                        assert(no_text + outputs[u as int] =~= outputs[u as int]);
                    }
                },
                _ => {},
            }
        },
        _ => {},
    }
}

/// The name of a file is what follows the last slash of its path; slashes at its
/// end, and steps there that stay where they are, do not count.
#[verifier::rlimit(40)]
pub proof fn law_the_name_of_a_file(dir: Seq<char>, name: Seq<char>)
    requires
        name.len() > 0,
        forall|i: int| 0 <= i < name.len() ==> #[trigger] name[i] != '/',
        name != seq!['.'],
        name != seq!['.', '.'],
    ensures
        file_name(name) == Some(name),
        file_name(dir + seq!['/'] + name) == Some(name),
        file_name(dir + seq!['/'] + name + seq!['/']) == Some(name),
        file_name(dir + seq!['/'] + name + seq!['/', '.']) == Some(name),
        file_name(Seq::empty()) is None,
        file_name(dir + seq!['/', '.', '.']) is None,
{
    reveal_strlit(".");
    reveal_strlit("..");
    assert("."@ =~= seq!['.']);
    assert(".."@ =~= seq!['.', '.']);
    let path = dir + seq!['/'] + name;
    let n = dir.len() as int + 1;
    assert(path.skip(n) =~= name);
    lemma_no_tail(path, n, name);
    lemma_base(path, n);
    assert(name.skip(0) =~= name);
    lemma_no_tail(name, 0, name);
    lemma_base(name, 0);
    let slash = path + seq!['/'];
    assert(slash.drop_last() =~= path);
    assert(dir + seq!['/'] + name + seq!['/'] =~= slash);
    let stay = path + seq!['/', '.'];
    assert(stay.drop_last() =~= slash);
    assert(stay[stay.len() - 2] == '/');
    reveal_with_fuel(without_tail, 3);
    assert(without_tail(slash) == without_tail(path));
    assert(without_tail(stay) == without_tail(slash));
    let up = dir + seq!['/', '.', '.'];
    let k = dir.len() as int + 1;
    assert(up[up.len() - 2] == '.');
    assert(without_tail(up) == up);
    assert forall|i: int| k <= i < up.len() implies #[trigger] up[i] != '/' by {}
    assert(up[k - 1] == '/');
    lemma_base(up, k);
    assert(up.skip(k) =~= seq!['.', '.']);
}

proof fn lemma_no_tail(path: Seq<char>, n: int, name: Seq<char>)
    requires
        0 <= n < path.len(),
        path.skip(n) == name,
        n > 0 ==> path[n - 1] == '/',
        forall|i: int| 0 <= i < name.len() ==> #[trigger] name[i] != '/',
        name != seq!['.'],
    ensures
        without_tail(path) == path,
        forall|i: int| n <= i < path.len() ==> #[trigger] path[i] != '/',
{
    assert forall|i: int| n <= i < path.len() implies #[trigger] path[i] != '/' by {
        assert(path.skip(n)[i - n] == path[i]);
        assert(name[i - n] != '/');
    }
    assert(path.last() != '/');
    if path.last() == '.' && path.len() > 1 && path[path.len() - 2] == '/' {
        assert(name.len() == 1);
        assert(name[0] == path[n]);
        assert(name =~= seq!['.']);
    }
}

proof fn lemma_base(path: Seq<char>, from: int)
    requires
        0 <= from <= path.len(),
        from > 0 ==> path[from - 1] == '/',
        forall|i: int| from <= i < path.len() ==> #[trigger] path[i] != '/',
    ensures
        base_name(path) == path.skip(from),
    decreases path.len() - from,
{
    if from == path.len() {
        assert(path.skip(from) =~= Seq::<char>::empty());
    } else {
        let init = path.drop_last();
        assert forall|i: int| from <= i < init.len() implies #[trigger] init[i] != '/' by {
            assert(path[i] != '/');
        }
        assert(path[path.len() - 1] != '/');
        lemma_base(init, from);
        assert(init.skip(from).push(path.last()) =~= path.skip(from));
    }
}

/// An import is looked for at its path first, then under its name alone; and
/// last, where it ends in `.kiru`, among the files of the directory that it names
/// without that ending.
pub proof fn law_imports_are_looked_for(stem: Seq<char>, path: Seq<char>)
    ensures
        candidates(path)[0] == CandidateView::File(path),
        file_name(path) matches Some(name) ==> candidates(path)[1] == CandidateView::File(name),
        ({
            let whole = stem + seq!['.', 'k', 'i', 'r', 'u'];
            &&& candidates(whole).last() == CandidateView::FilesIn(stem)
            &&& candidates(whole).len() == if file_name(whole) is Some {
                3nat
            } else {
                2
            }
        }),
        candidates(path).last() is FilesIn ==> path.len() >= 5 && path.skip(path.len() - 5) == seq![
            '.',
            'k',
            'i',
            'r',
            'u',
        ],
{
    reveal_strlit(".kiru");
    assert(".kiru"@ =~= seq!['.', 'k', 'i', 'r', 'u']);
    let whole = stem + seq!['.', 'k', 'i', 'r', 'u'];
    assert(whole.skip(whole.len() - 5) =~= seq!['.', 'k', 'i', 'r', 'u']);
    assert(whole.take(whole.len() - 5) =~= stem);
}

} // verus!
