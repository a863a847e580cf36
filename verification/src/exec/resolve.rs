//! The values of templates while a run goes on.
//!
//! A command in a template is run when its text is needed. The value of a
//! variable is computed once; from then on its text is known.
use vstd::prelude::*;
use crate::exec::model::line_views;
use crate::ir::{has_command, parts_have_command, shown, shown_parts, Segment, SegmentView};
use crate::ir::{Template, TemplateView};

verus! {

broadcast use vstd::string::group_string_axioms;

/// The values of variables, each under the identity of its declaration.
#[derive(Debug)]
pub struct Values {
    entries: Vec<(usize, String)>,
}

/// The contents of [`Values`].
pub type ValuesView = Seq<(nat, Seq<char>)>;

/// The value of a variable, where it is known.
pub open spec fn value_of(values: ValuesView, id: nat) -> Option<Seq<char>>
    decreases values.len(),
{
    if values.len() == 0 {
        None
    } else if values.last().0 == id {
        Some(values.last().1)
    } else {
        value_of(values.drop_last(), id)
    }
}

pub open spec fn value_views(s: Seq<(usize, String)>) -> ValuesView {
    Seq::new(s.len(), |i: int| (s[i].0 as nat, s[i].1@))
}

impl Values {
    pub closed spec fn view(&self) -> ValuesView {
        value_views(self.entries@)
    }

    /// No value is known.
    pub fn new() -> (r: Self)
        ensures
            r@ == Seq::<(nat, Seq<char>)>::empty(),
    {
        let r = Values { entries: Vec::new() };
        assert(r@ =~= Seq::<(nat, Seq<char>)>::empty());
        r
    }

    /// The value of a variable, where it is known.
    pub fn get(&self, id: usize) -> (r: Option<&str>)
        ensures
            value_of(self@, id as nat) == match r {
                Some(s) => Some(s@),
                None => None,
            },
    {
        let mut i: usize = self.entries.len();
        assert(self@.take(i as int) =~= self@);
        while i > 0
            invariant
                i <= self.entries@.len(),
                self@.len() == self.entries@.len(),
                value_of(self@, id as nat) == value_of(self@.take(i as int), id as nat),
            decreases i,
        {
            i -= 1;
            proof {
                let t = self@.take(i + 1);
                assert(t.drop_last() =~= self@.take(i as int));
                assert(t.last() == self@[i as int]);
            }
            if self.entries[i].0 == id {
                return Some(self.entries[i].1.as_str());
            }
        }
        None
    }

    /// The value of a variable has become known.
    pub fn insert(&mut self, id: usize, value: String)
        ensures
            final(self)@ == old(self)@.push((id as nat, value@)),
    {
        let ghost before = self@;
        self.entries.push((id, value));
        assert(self@ =~= before.push((id as nat, value@)));
    }

    /// A copy of the values.
    pub fn duplicate(&self) -> (r: Self)
        ensures
            r@ == self@,
    {
        let mut entries: Vec<(usize, String)> = Vec::new();
        let mut i: usize = 0;
        while i < self.entries.len()
            invariant
                i <= self.entries@.len(),
                entries@.len() == i,
                forall|j: int|
                    0 <= j < i ==> (#[trigger] entries@[j]).0 == self.entries@[j].0
                        && entries@[j].1@ == self.entries@[j].1@,
            decreases self.entries@.len() - i,
        {
            entries.push((self.entries[i].0, self.entries[i].1.clone()));
            i += 1;
        }
        let r = Values { entries };
        assert(r@ =~= self@);
        r
    }
}

/// How far a template has been resolved: to its text, or to a command that has
/// to be run; either way with the values that have become known.
pub enum ResolvedView {
    Text { text: Seq<char>, values: ValuesView, used: nat },
    Run { cmd: Seq<char>, values: ValuesView },
}

/// Resolves a template with the outputs of commands, in the order in which they
/// are run, from the one at `used` on.
pub open spec fn resolved(
    t: TemplateView,
    values: ValuesView,
    outputs: Seq<Seq<char>>,
    used: nat,
) -> ResolvedView
    decreases t,
{
    resolved_parts(t.parts, values, outputs, used)
}

pub open spec fn resolved_parts(
    parts: Seq<SegmentView>,
    values: ValuesView,
    outputs: Seq<Seq<char>>,
    used: nat,
) -> ResolvedView
    decreases parts,
{
    if parts.len() == 0 {
        ResolvedView::Text { text: Seq::empty(), values, used }
    } else {
        match resolved_parts(parts.drop_last(), values, outputs, used) {
            ResolvedView::Run { cmd, values } => ResolvedView::Run { cmd, values },
            ResolvedView::Text { text, values, used } => match parts.last() {
                SegmentView::Lit(s) => ResolvedView::Text { text: text + s, values, used },
                SegmentView::Cmd(inner) => with_output(
                    text,
                    resolved(inner, values, outputs, used),
                    outputs,
                ),
                SegmentView::CmdAt { template, .. } => with_output(
                    text,
                    resolved(template, values, outputs, used),
                    outputs,
                ),
                SegmentView::Ref { id, template } => match value_of(values, id) {
                    Some(value) => ResolvedView::Text { text: text + value, values, used },
                    None => with_value(text, id, resolved(template, values, outputs, used)),
                },
            },
        }
    }
}

/// A text, followed by the output of the command whose text was resolved.
pub open spec fn with_output(
    text: Seq<char>,
    command: ResolvedView,
    outputs: Seq<Seq<char>>,
) -> ResolvedView {
    match command {
        ResolvedView::Run { cmd, values } => ResolvedView::Run { cmd, values },
        ResolvedView::Text { text: cmd, values, used } => if used < outputs.len() {
            ResolvedView::Text { text: text + outputs[used as int], values, used: used + 1 }
        } else {
            ResolvedView::Run { cmd, values }
        },
    }
}

/// A text, followed by the value of a variable, which has become known.
pub open spec fn with_value(text: Seq<char>, id: nat, value: ResolvedView) -> ResolvedView {
    match value {
        ResolvedView::Run { cmd, values } => ResolvedView::Run { cmd, values },
        ResolvedView::Text { text: value, values, used } => ResolvedView::Text {
            text: text + value,
            values: values.push((id, value)),
            used,
        },
    }
}

/// How far a template has been resolved.
#[derive(Debug)]
pub enum Resolved {
    /// To its text.
    Text { text: String, values: Values, used: usize },
    /// To a command that has to be run.
    Run { cmd: String, values: Values },
}

impl Resolved {
    pub open spec fn view(&self) -> ResolvedView {
        match self {
            Resolved::Text { text, values, used } => ResolvedView::Text {
                text: text@,
                values: values@,
                used: *used as nat,
            },
            Resolved::Run { cmd, values } => ResolvedView::Run { cmd: cmd@, values: values@ },
        }
    }
}

proof fn lemma_run(
    parts: Seq<SegmentView>,
    values: ValuesView,
    outputs: Seq<Seq<char>>,
    used: nat,
    n: int,
)
    requires
        0 <= n <= parts.len(),
        resolved_parts(parts.take(n), values, outputs, used) is Run,
    ensures
        resolved_parts(parts, values, outputs, used) == resolved_parts(
            parts.take(n),
            values,
            outputs,
            used,
        ),
    decreases parts.len(),
{
    if n < parts.len() {
        assert(parts.drop_last().take(n) =~= parts.take(n));
        lemma_run(parts.drop_last(), values, outputs, used, n);
    } else {
        assert(parts.take(n) =~= parts);
    }
}

/// Resolve a template as far as the outputs of its commands go.
pub fn resolve(tmpl: &Template, values: Values, outputs: &Vec<String>, used: usize) -> (r: Resolved)
    requires
        used <= outputs@.len(),
    ensures
        r@ == resolved(tmpl@, values@, line_views(outputs@), used as nat),
        r matches Resolved::Text { used: u, .. } ==> u <= outputs@.len(),
    decreases tmpl,
{
    let ghost outs = line_views(outputs@);
    let ghost views = tmpl@.parts;
    let ghost start = values@;
    let mut so_far = values;
    let mut text = String::new();
    let mut at: usize = used;
    let mut i: usize = 0;
    proof {
        assert(views.take(0) =~= Seq::<SegmentView>::empty());
        assert(text@ =~= Seq::<char>::empty());
    }
    while i < tmpl.parts.len()
        invariant
            i <= tmpl.parts@.len(),
            at <= outputs@.len(),
            outs == line_views(outputs@),
            views == tmpl@.parts,
            start == values@,
            resolved_parts(views.take(i as int), start, outs, used as nat) == (ResolvedView::Text {
                text: text@,
                values: so_far@,
                used: at as nat,
            }),
        decreases tmpl.parts@.len() - i,
    {
        let ghost part = tmpl.parts@[i as int];
        proof {
            let next = views.take(i + 1);
            assert(next.drop_last() =~= views.take(i as int));
            assert(next.last() == part@);
            assert(decreases_to!(tmpl.parts@ => tmpl.parts@[i as int]));
            if resolved_parts(next, start, outs, used as nat) is Run {
                lemma_run(views, start, outs, used as nat, i + 1);
            }
        }
        match &tmpl.parts[i] {
            Segment::Lit(s) => {
                text.push_str(s.as_str());
            },
            Segment::Cmd(inner) => {
                assert(decreases_to!(part => part->Cmd_0));
                match resolve(inner, so_far, outputs, at) {
                    Resolved::Run { cmd, values: known } => {
                        return Resolved::Run { cmd, values: known };
                    },
                    Resolved::Text { text: cmd, values: known, used: u } => {
                        if u < outputs.len() {
                            text.push_str(outputs[u].as_str());
                            at = u + 1;
                            so_far = known;
                        } else {
                            return Resolved::Run { cmd, values: known };
                        }
                    },
                }
            },
            Segment::CmdAt { template, .. } => {
                assert(decreases_to!(part => part->CmdAt_template));
                match resolve(template, so_far, outputs, at) {
                    Resolved::Run { cmd, values: known } => {
                        return Resolved::Run { cmd, values: known };
                    },
                    Resolved::Text { text: cmd, values: known, used: u } => {
                        if u < outputs.len() {
                            text.push_str(outputs[u].as_str());
                            at = u + 1;
                            so_far = known;
                        } else {
                            return Resolved::Run { cmd, values: known };
                        }
                    },
                }
            },
            Segment::Ref { id, template } => {
                let known_text = match so_far.get(*id) {
                    Some(value) => Some(value.to_owned()),
                    None => None,
                };
                match known_text {
                    Some(value) => {
                        text.push_str(value.as_str());
                    },
                    None => {
                        assert(decreases_to!(part => part->Ref_template));
                        match resolve(template, so_far, outputs, at) {
                            Resolved::Run { cmd, values: known } => {
                                return Resolved::Run { cmd, values: known };
                            },
                            Resolved::Text { text: value, values: known, used: u } => {
                                text.push_str(value.as_str());
                                at = u;
                                so_far = known;
                                so_far.insert(*id, value);
                            },
                        }
                    },
                }
            },
        }
        i += 1;
    }
    assert(views.take(i as int) =~= views);
    Resolved::Text { text, values: so_far, used: at }
}

// ── Laws ─────────────────────────────────────────────────────────────────────

/// How many commands stand in a template, at any depth.
pub open spec fn commands(t: TemplateView) -> nat
    decreases t,
{
    commands_in(t.parts)
}

pub open spec fn commands_in(parts: Seq<SegmentView>) -> nat
    decreases parts,
{
    if parts.len() == 0 {
        0
    } else {
        commands_in(parts.drop_last()) + match parts.last() {
            SegmentView::Lit(_) => 0,
            SegmentView::Cmd(inner) => commands(inner) + 1,
            SegmentView::CmdAt { template, .. } => commands(template) + 1,
            SegmentView::Ref { template, .. } => commands(template),
        }
    }
}

/// Resolving a template ends: no more commands are run than stand in it, and
/// with their outputs its text is known.
pub proof fn law_resolving_ends(
    t: TemplateView,
    values: ValuesView,
    outputs: Seq<Seq<char>>,
    used: nat,
)
    ensures
        match resolved(t, values, outputs, used) {
            ResolvedView::Text { used: u, .. } => used <= u <= used + commands(t),
            ResolvedView::Run { .. } => outputs.len() < used + commands(t),
        },
    decreases t,
{
    lemma_resolving_parts_ends(t.parts, values, outputs, used);
}

proof fn lemma_resolving_parts_ends(
    parts: Seq<SegmentView>,
    values: ValuesView,
    outputs: Seq<Seq<char>>,
    used: nat,
)
    ensures
        match resolved_parts(parts, values, outputs, used) {
            ResolvedView::Text { used: u, .. } => used <= u <= used + commands_in(parts),
            ResolvedView::Run { .. } => outputs.len() < used + commands_in(parts),
        },
    decreases parts,
{
    if parts.len() > 0 {
        lemma_resolving_parts_ends(parts.drop_last(), values, outputs, used);
        match resolved_parts(parts.drop_last(), values, outputs, used) {
            ResolvedView::Run { .. } => {},
            ResolvedView::Text { values, used, .. } => match parts.last() {
                SegmentView::Lit(_) => {},
                SegmentView::Cmd(inner) => {
                    law_resolving_ends(inner, values, outputs, used);
                },
                SegmentView::CmdAt { template, .. } => {
                    law_resolving_ends(template, values, outputs, used);
                },
                SegmentView::Ref { id, template } => {
                    law_resolving_ends(template, values, outputs, used);
                },
            },
        }
    }
}

/// The values that are known once a template has been resolved so far.
pub open spec fn values_after(r: ResolvedView) -> ValuesView {
    match r {
        ResolvedView::Text { values, .. } => values,
        ResolvedView::Run { values, .. } => values,
    }
}

/// Whether what was known is still known, with the same text.
pub open spec fn keeps(before: ValuesView, after: ValuesView) -> bool {
    forall|id: nat|
        (#[trigger] value_of(before, id)) is Some ==> value_of(after, id) == value_of(before, id)
}

/// The value of a variable is computed once: when it is known it stays known,
/// with the same text.
pub proof fn law_values_are_kept(
    t: TemplateView,
    values: ValuesView,
    outputs: Seq<Seq<char>>,
    used: nat,
)
    ensures
        keeps(values, values_after(resolved(t, values, outputs, used))),
    decreases t,
{
    lemma_parts_keep_values(t.parts, values, outputs, used);
}

proof fn lemma_parts_keep_values(
    parts: Seq<SegmentView>,
    values: ValuesView,
    outputs: Seq<Seq<char>>,
    used: nat,
)
    ensures
        keeps(values, values_after(resolved_parts(parts, values, outputs, used))),
    decreases parts,
{
    if parts.len() > 0 {
        lemma_parts_keep_values(parts.drop_last(), values, outputs, used);
        match resolved_parts(parts.drop_last(), values, outputs, used) {
            ResolvedView::Run { .. } => {},
            ResolvedView::Text { values: known, used, .. } => match parts.last() {
                SegmentView::Lit(_) => {},
                SegmentView::Cmd(inner) => {
                    law_values_are_kept(inner, known, outputs, used);
                },
                SegmentView::CmdAt { template, .. } => {
                    law_values_are_kept(template, known, outputs, used);
                },
                SegmentView::Ref { id, template } => {
                    law_values_are_kept(template, known, outputs, used);
                    if value_of(known, id) is None {
                        match resolved(template, known, outputs, used) {
                            ResolvedView::Run { .. } => {},
                            ResolvedView::Text { text: value, values: last, .. } => {
                                let all = last.push((id, value));
                                assert(all.drop_last() =~= last);
                                assert(keeps(values, all)) by {
                                    assert forall|other: nat|
                                        (#[trigger] value_of(values, other)) is Some implies value_of(
                                        all,
                                        other,
                                    ) == value_of(values, other) by {
                                        assert(value_of(known, other) == value_of(values, other));
                                        assert(other != id);
                                    }
                                }
                            },
                        }
                    }
                },
            },
        }
    }
}

/// Where the value of a variable is known, using it runs no command.
pub proof fn law_a_known_variable_runs_nothing(
    id: nat,
    template: TemplateView,
    values: ValuesView,
    outputs: Seq<Seq<char>>,
    used: nat,
)
    requires
        value_of(values, id) is Some,
    ensures
        resolved(
            TemplateView { parts: seq![SegmentView::Ref { id, template }] },
            values,
            outputs,
            used,
        ) == (ResolvedView::Text { text: value_of(values, id)->0, values, used }),
{
    let parts = seq![SegmentView::Ref { id, template }];
    assert(parts.drop_last() =~= Seq::<SegmentView>::empty());
    assert(parts.last() == (SegmentView::Ref { id, template }));
    assert(resolved_parts(parts.drop_last(), values, outputs, used) == (ResolvedView::Text {
        text: Seq::empty(),
        values,
        used,
    }));
    assert(resolved_parts(parts, values, outputs, used) == (ResolvedView::Text {
        text: Seq::<char>::empty() + value_of(values, id)->0,
        values,
        used,
    }));
    assert(Seq::<char>::empty() + value_of(values, id)->0 =~= value_of(values, id)->0);
}

/// Whether no variable is used in a template.
pub open spec fn has_no_refs(parts: Seq<SegmentView>) -> bool {
    forall|i: int| 0 <= i < parts.len() ==> !((#[trigger] parts[i]) is Ref)
}

/// A template without commands and variables resolves to what is shown of it.
pub proof fn law_plain_text_is_shown(
    t: TemplateView,
    values: ValuesView,
    outputs: Seq<Seq<char>>,
    used: nat,
)
    requires
        !has_command(t),
        has_no_refs(t.parts),
    ensures
        resolved(t, values, outputs, used) == (ResolvedView::Text { text: shown(t), values, used }),
{
    lemma_plain_parts(t.parts, values, outputs, used);
}

proof fn lemma_plain_parts(
    parts: Seq<SegmentView>,
    values: ValuesView,
    outputs: Seq<Seq<char>>,
    used: nat,
)
    requires
        !parts_have_command(parts),
        has_no_refs(parts),
    ensures
        resolved_parts(parts, values, outputs, used) == (ResolvedView::Text {
            text: shown_parts(parts),
            values,
            used,
        }),
    decreases parts.len(),
{
    if parts.len() > 0 {
        assert(parts.last() == parts[parts.len() - 1]);
        assert forall|i: int| 0 <= i < parts.drop_last().len() implies !((
        #[trigger] parts.drop_last()[i]) is Ref) by {
            assert(parts.drop_last()[i] == parts[i]);
        }
        lemma_plain_parts(parts.drop_last(), values, outputs, used);
    }
}

} // verus!
