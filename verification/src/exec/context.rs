//! The context in which the statements of a body run: the working directory,
//! the variables that are set, and the values that are known.
use vstd::prelude::*;
use crate::exec::model::line_views;
use crate::exec::resolve::{Values, ValuesView};
use crate::ir::text_viewer;
use crate::names::{
    ascending, insert_entry, law_insert_keeps_ascending, law_insert_then_lookup,
    lemma_insert_at_end, lemma_map_insert, lookup, map_entries, Entries, NameMap,
};

verus! {

broadcast use vstd::string::group_string_axioms;

/// The program that prepares the environment of a directory.
pub const DIRENV_PROGRAM: &'static str = "direnv";

/// Where the commands of a project run, and whether its own environment is
/// applied to them.
#[derive(Debug, PartialEq)]
pub struct ProjectExec {
    pub dir: String,
    pub direnv: bool,
}

/// The contents of a [`ProjectExec`].
pub struct ProjectExecView {
    pub dir: Seq<char>,
    pub direnv: bool,
}

impl ProjectExec {
    pub open spec fn view(&self) -> ProjectExecView {
        ProjectExecView { dir: self.dir@, direnv: self.direnv }
    }
}

pub open spec fn project_exec_viewer() -> spec_fn(ProjectExec) -> ProjectExecView {
    |p: ProjectExec| p@
}

/// What all bodies of a run share.
#[derive(Debug, PartialEq)]
pub struct RunContext {
    pub shell: String,
    /// After how many seconds a command has run for too long.
    pub timeout: Option<u64>,
    pub projects: NameMap<ProjectExec>,
}

/// The contents of a [`RunContext`].
pub struct RunContextView {
    pub shell: Seq<char>,
    pub timeout: Option<u64>,
    pub projects: Entries<ProjectExecView>,
}

impl RunContextView {
    /// The seconds that are named when a command ran for too long.
    pub open spec fn secs(self) -> u64 {
        match self.timeout {
            Some(secs) => secs,
            None => 0,
        }
    }
}

impl RunContext {
    pub open spec fn view(&self) -> RunContextView {
        RunContextView {
            shell: self.shell@,
            timeout: self.timeout,
            projects: map_entries(self.projects@, project_exec_viewer()),
        }
    }

    /// The seconds that are named when a command ran for too long.
    pub fn secs(&self) -> (r: u64)
        ensures
            r == self@.secs(),
    {
        match self.timeout {
            Some(secs) => secs,
            None => 0,
        }
    }
}

/// A command that is to be run.
#[derive(Debug, PartialEq)]
pub struct Command {
    /// What it is called in messages.
    pub desc: String,
    pub argv: Vec<String>,
    /// Where it runs.
    pub dir: Option<String>,
    /// The variables that are set for it, beside those that are inherited.
    pub env: NameMap<String>,
}

/// The contents of a [`Command`].
pub struct CommandView {
    pub desc: Seq<char>,
    pub argv: Seq<Seq<char>>,
    pub dir: Option<Seq<char>>,
    pub env: Entries<Seq<char>>,
}

impl Command {
    pub open spec fn view(&self) -> CommandView {
        CommandView {
            desc: self.desc@,
            argv: line_views(self.argv@),
            dir: match self.dir {
                Some(s) => Some(s@),
                None => None,
            },
            env: layer_view(self.env),
        }
    }
}

/// The variables of a layer.
pub open spec fn layer_view(layer: NameMap<String>) -> Entries<Seq<char>> {
    map_entries(layer@, text_viewer())
}

pub open spec fn layer_views(layers: Seq<NameMap<String>>) -> Seq<Entries<Seq<char>>> {
    Seq::new(layers.len(), |i: int| layer_view(layers[i]))
}

/// Entries with others put over them.
pub open spec fn overlaid(below: Entries<Seq<char>>, above: Entries<Seq<char>>) -> Entries<
    Seq<char>,
>
    decreases above.len(),
{
    if above.len() == 0 {
        below
    } else {
        insert_entry(overlaid(below, above.drop_last()), above.last().0, above.last().1)
    }
}

/// The variables of layers, each put over those before it.
pub open spec fn merged(layers: Seq<Entries<Seq<char>>>) -> Entries<Seq<char>>
    decreases layers.len(),
{
    if layers.len() == 0 {
        Seq::empty()
    } else {
        overlaid(merged(layers.drop_last()), layers.last())
    }
}

/// A variable has the value that the last layer gives it, and otherwise the
/// value that it has from the layers before.
pub proof fn law_the_last_layer_wins(layers: Seq<Entries<Seq<char>>>, name: Seq<char>)
    requires
        layers.len() > 0,
    ensures
        lookup(merged(layers), name) == match lookup(layers.last(), name) {
            Some(value) => Some(value),
            None => lookup(merged(layers.drop_last()), name),
        },
{
    lemma_merged_ascends(layers.drop_last());
    lemma_overlaid(merged(layers.drop_last()), layers.last(), name);
}

proof fn lemma_merged_ascends(layers: Seq<Entries<Seq<char>>>)
    ensures
        ascending(merged(layers)),
    decreases layers.len(),
{
    if layers.len() > 0 {
        lemma_merged_ascends(layers.drop_last());
        lemma_overlaid(merged(layers.drop_last()), layers.last(), Seq::empty());
    }
}

proof fn lemma_overlaid(below: Entries<Seq<char>>, above: Entries<Seq<char>>, name: Seq<char>)
    requires
        ascending(below),
    ensures
        ascending(overlaid(below, above)),
        lookup(overlaid(below, above), name) == match lookup(above, name) {
            Some(value) => Some(value),
            None => lookup(below, name),
        },
    decreases above.len(),
{
    if above.len() > 0 {
        lemma_overlaid(below, above.drop_last(), name);
        law_insert_keeps_ascending(
            overlaid(below, above.drop_last()),
            above.last().0,
            above.last().1,
        );
        law_insert_then_lookup(
            overlaid(below, above.drop_last()),
            above.last().0,
            above.last().1,
            name,
        );
    }
}

/// The context of a body.
#[derive(Debug)]
pub struct ExecContext {
    pub cwd: String,
    pub var_values: Values,
    pub env_layers: Vec<NameMap<String>>,
    /// Whether the environment of the directory is applied to commands.
    pub direnv_wrap: bool,
}

/// The contents of an [`ExecContext`].
pub struct ContextView {
    pub cwd: Seq<char>,
    pub values: ValuesView,
    pub layers: Seq<Entries<Seq<char>>>,
    pub direnv: bool,
}

/// The arguments that run a command in a shell.
pub open spec fn shell_args(shell: Seq<char>, cmd: Seq<char>, direnv_dir: Option<Seq<char>>) -> Seq<
    Seq<char>,
> {
    (match direnv_dir {
        Some(dir) => seq![DIRENV_PROGRAM@, "exec"@, dir],
        None => Seq::empty(),
    }) + seq![shell, "-c"@, cmd]
}

impl ContextView {
    /// The command of a statement.
    pub open spec fn command(self, run: RunContextView, cmd: Seq<char>) -> CommandView {
        CommandView {
            desc: cmd,
            argv: shell_args(
                run.shell,
                cmd,
                if self.direnv {
                    Some(self.cwd)
                } else {
                    None
                },
            ),
            dir: Some(self.cwd),
            env: merged(self.layers),
        }
    }
}

fn copy_layer(layer: &NameMap<String>) -> (r: NameMap<String>)
    ensures
        layer_view(r) == layer_view(*layer),
{
    let ghost all = layer@;
    let total: usize = layer.len();
    let mut out: NameMap<String> = NameMap::new();
    let mut i: usize = 0;
    assert(layer_view(out) =~= map_entries(all.take(0), text_viewer()));
    while i < total
        invariant
            i <= total,
            total == all.len(),
            all == layer@,
            ascending(all),
            layer_view(out) == map_entries(all.take(i as int), text_viewer()),
        decreases total - i,
    {
        let name = layer.name_at(i).to_owned();
        let value = layer.value_at(i).clone();
        proof {
            let before = map_entries(all.take(i as int), text_viewer());
            let next = map_entries(all.take(i + 1), text_viewer());
            assert(next =~= before.push((name@, value@)));
            assert(ascending(next));
            lemma_insert_at_end(before, name@, value@);
            lemma_map_insert(out@, text_viewer(), name@, value);
        }
        out.insert(name, value);
        i += 1;
    }
    assert(all.take(i as int) =~= all);
    out
}

fn copy_layers(layers: &Vec<NameMap<String>>) -> (r: Vec<NameMap<String>>)
    ensures
        layer_views(r@) == layer_views(layers@),
{
    let mut out: Vec<NameMap<String>> = Vec::new();
    let mut i: usize = 0;
    while i < layers.len()
        invariant
            i <= layers@.len(),
            out@.len() == i,
            forall|j: int| 0 <= j < i ==> layer_view(#[trigger] out@[j]) == layer_view(layers@[j]),
        decreases layers@.len() - i,
    {
        out.push(copy_layer(&layers[i]));
        i += 1;
    }
    assert(layer_views(out@) =~= layer_views(layers@));
    out
}

fn overlay(out: &mut NameMap<String>, layer: &NameMap<String>)
    ensures
        layer_view(*final(out)) == overlaid(layer_view(*old(out)), layer_view(*layer)),
{
    let ghost below = layer_view(*out);
    let ghost above = layer_view(*layer);
    let total: usize = layer.len();
    let mut i: usize = 0;
    assert(above.take(0) =~= Seq::<(Seq<char>, Seq<char>)>::empty());
    while i < total
        invariant
            i <= total,
            total == layer@.len(),
            above == layer_view(*layer),
            layer_view(*out) == overlaid(below, above.take(i as int)),
        decreases total - i,
    {
        let name = layer.name_at(i).to_owned();
        let value = layer.value_at(i).clone();
        proof {
            let next = above.take(i + 1);
            assert(next.drop_last() =~= above.take(i as int));
            assert(next.last() == (name@, value@));
            lemma_map_insert(out@, text_viewer(), name@, value);
        }
        out.insert(name, value);
        i += 1;
    }
    assert(above.take(i as int) =~= above);
}

/// The arguments that run a command in a shell.
pub fn shell_argv(shell: &str, cmd: &str, direnv_dir: Option<&str>) -> (r: Vec<String>)
    ensures
        line_views(r@) == shell_args(
            shell@,
            cmd@,
            match direnv_dir {
                Some(dir) => Some(dir@),
                None => None,
            },
        ),
{
    let mut argv: Vec<String> = Vec::new();
    match direnv_dir {
        Some(dir) => {
            argv.push(DIRENV_PROGRAM.to_owned());
            argv.push("exec".to_owned());
            argv.push(dir.to_owned());
        },
        None => {},
    }
    argv.push(shell.to_owned());
    argv.push("-c".to_owned());
    argv.push(cmd.to_owned());
    assert(line_views(argv@) =~= shell_args(
        shell@,
        cmd@,
        match direnv_dir {
            Some(dir) => Some(dir@),
            None => None,
        },
    ));
    argv
}

impl ExecContext {
    pub open spec fn view(&self) -> ContextView {
        ContextView {
            cwd: self.cwd@,
            values: self.var_values@,
            layers: layer_views(self.env_layers@),
            direnv: self.direnv_wrap,
        }
    }

    /// The context in which a run starts.
    pub fn new(cwd: String, direnv_wrap: bool) -> (r: Self)
        ensures
            r@ == (ContextView {
                cwd: cwd@,
                values: Seq::empty(),
                layers: Seq::empty(),
                direnv: direnv_wrap,
            }),
    {
        let r = ExecContext { cwd, var_values: Values::new(), env_layers: Vec::new(), direnv_wrap };
        assert(r@.layers =~= Seq::<Entries<Seq<char>>>::empty());
        r
    }

    /// A copy of the context for a body that runs beside this one. What changes
    /// in either does not change in the other.
    pub fn fork(&self) -> (r: Self)
        ensures
            r@ == self@,
    {
        ExecContext {
            cwd: self.cwd.clone(),
            var_values: self.var_values.duplicate(),
            env_layers: copy_layers(&self.env_layers),
            direnv_wrap: self.direnv_wrap,
        }
    }

    /// The variables that are set, the later layers over the earlier.
    pub fn env_overrides(&self) -> (r: NameMap<String>)
        ensures
            layer_view(r) == merged(self@.layers),
    {
        let ghost layers = self@.layers;
        let mut out: NameMap<String> = NameMap::new();
        let mut i: usize = 0;
        proof {
            assert(layers.take(0) =~= Seq::<Entries<Seq<char>>>::empty());
            assert(layer_view(out) =~= merged(layers.take(0)));
        }
        while i < self.env_layers.len()
            invariant
                i <= self.env_layers@.len(),
                layers == self@.layers,
                layer_view(out) == merged(layers.take(i as int)),
            decreases self.env_layers@.len() - i,
        {
            proof {
                let next = layers.take(i + 1);
                assert(next.drop_last() =~= layers.take(i as int));
                assert(next.last() == layer_view(self.env_layers@[i as int]));
            }
            overlay(&mut out, &self.env_layers[i]);
            i += 1;
        }
        assert(layers.take(i as int) =~= layers);
        out
    }

    /// The command of a statement.
    pub fn command(&self, run: &RunContext, cmd: &str) -> (r: Command)
        ensures
            r@ == self@.command(run@, cmd@),
    {
        let direnv_dir = if self.direnv_wrap {
            Some(self.cwd.as_str())
        } else {
            None
        };
        Command {
            desc: cmd.to_owned(),
            argv: shell_argv(run.shell.as_str(), cmd, direnv_dir),
            dir: Some(self.cwd.clone()),
            env: self.env_overrides(),
        }
    }
}

} // verus!
