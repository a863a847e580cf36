//! Expressions and patterns of the language.
use vstd::prelude::*;
use crate::dsl::fnstmt::FnStmt;

verus! {

broadcast use vstd::string::group_string_axioms;

/// A piece of a text in backticks: literal text, or the name of a variable.
#[derive(Debug)]
pub struct InterpolationPart {
    pub is_var: bool,
    /// The namespace of a variable; empty where none was written.
    pub namespace: String,
    pub value: String,
}

/// The contents of an [`InterpolationPart`].
pub struct PartView {
    pub is_var: bool,
    pub namespace: Seq<char>,
    pub value: Seq<char>,
}

impl InterpolationPart {
    pub open spec fn view(&self) -> PartView {
        PartView { is_var: self.is_var, namespace: self.namespace@, value: self.value@ }
    }
}

pub open spec fn part_views(s: Seq<InterpolationPart>) -> Seq<PartView> {
    Seq::new(s.len(), |i: int| s[i]@)
}

/// An expression: a text in backticks, or a reference to a variable. Each
/// carries its place in the source and the name of that source.
#[derive(Debug)]
pub enum Expr {
    BacktickLit { parts: Vec<InterpolationPart>, offset: usize, len: usize, source_name: String },
    VarRef { name: String, namespace: String, offset: usize, len: usize, source_name: String },
}

/// The contents of an [`Expr`].
pub enum ExprView {
    BacktickLit { parts: Seq<PartView>, offset: usize, len: usize, source_name: Seq<char> },
    VarRef {
        name: Seq<char>,
        namespace: Seq<char>,
        offset: usize,
        len: usize,
        source_name: Seq<char>,
    },
}

/// The type of a variable.
#[derive(Debug, Clone, Copy, PartialEq, Eq, Structural)]
pub enum VarType {
    /// A plain text.
    String,
    /// The output of a command.
    Shell,
}

/// The pattern of an arm of a `case` block.
#[derive(Debug)]
pub enum CasePattern {
    Literal { parts: Vec<InterpolationPart>, offset: usize, len: usize, source_name: String },
    VarRef { name: String, namespace: String, offset: usize, len: usize, source_name: String },
    /// Matches everything.
    Default,
}

/// The contents of a [`CasePattern`].
pub enum CasePatternView {
    Literal { parts: Seq<PartView>, offset: usize, len: usize, source_name: Seq<char> },
    VarRef {
        name: Seq<char>,
        namespace: Seq<char>,
        offset: usize,
        len: usize,
        source_name: Seq<char>,
    },
    Default,
}

/// An arm of a `case` block.
#[derive(Debug)]
pub struct CaseArm {
    pub pattern: CasePattern,
    pub body: Vec<FnStmt>,
}

/// A variable that an `env` block sets.
#[derive(Debug)]
pub struct EnvPair {
    pub key: String,
    pub value: Expr,
}

/// The contents of an [`EnvPair`].
pub struct EnvPairView {
    pub key: Seq<char>,
    pub value: ExprView,
}

impl EnvPair {
    pub open spec fn view(&self) -> EnvPairView {
        EnvPairView { key: self.key@, value: self.value@ }
    }
}

pub open spec fn pair_views(s: Seq<EnvPair>) -> Seq<EnvPairView> {
    Seq::new(s.len(), |i: int| s[i]@)
}

/// A reference to a variable, and where it stands.
#[derive(Debug, PartialEq, Eq)]
pub struct VarUse {
    pub name: String,
    pub namespace: String,
    pub offset: usize,
    pub len: usize,
    pub source_name: String,
}

/// The contents of a [`VarUse`].
pub struct VarUseView {
    pub name: Seq<char>,
    pub namespace: Seq<char>,
    pub offset: usize,
    pub len: usize,
    pub source_name: Seq<char>,
}

impl VarUse {
    pub open spec fn view(&self) -> VarUseView {
        VarUseView {
            name: self.name@,
            namespace: self.namespace@,
            offset: self.offset,
            len: self.len,
            source_name: self.source_name@,
        }
    }
}

pub open spec fn use_views(s: Seq<VarUse>) -> Seq<VarUseView> {
    Seq::new(s.len(), |i: int| s[i]@)
}

/// A name with its namespace.
pub open spec fn ref_views(s: Seq<(String, String)>) -> Seq<(Seq<char>, Seq<char>)> {
    Seq::new(s.len(), |i: int| (s[i].0@, s[i].1@))
}

/// The references without their places.
pub open spec fn without_places(s: Seq<VarUseView>) -> Seq<(Seq<char>, Seq<char>)> {
    Seq::new(s.len(), |i: int| (s[i].name, s[i].namespace))
}

/// The variables among the pieces of a text, in order.
pub open spec fn part_uses(
    parts: Seq<PartView>,
    offset: usize,
    len: usize,
    source_name: Seq<char>,
) -> Seq<VarUseView>
    decreases parts.len(),
{
    if parts.len() == 0 {
        Seq::empty()
    } else {
        let before = part_uses(parts.drop_last(), offset, len, source_name);
        if parts.last().is_var {
            before.push(
                VarUseView {
                    name: parts.last().value,
                    namespace: parts.last().namespace,
                    offset,
                    len,
                    source_name,
                },
            )
        } else {
            before
        }
    }
}

impl ExprView {
    /// The variables that an expression refers to, in order.
    pub open spec fn uses(self) -> Seq<VarUseView> {
        match self {
            ExprView::VarRef { name, namespace, offset, len, source_name } => seq![
                VarUseView { name, namespace, offset, len, source_name },
            ],
            ExprView::BacktickLit { parts, offset, len, source_name } => part_uses(
                parts,
                offset,
                len,
                source_name,
            ),
        }
    }

    /// The same expression at another place.
    pub open spec fn moved(self, source: Seq<char>, at: usize, length: usize) -> Self {
        match self {
            ExprView::VarRef { name, namespace, .. } => ExprView::VarRef {
                name,
                namespace,
                offset: at,
                len: length,
                source_name: source,
            },
            ExprView::BacktickLit { parts, .. } => ExprView::BacktickLit {
                parts,
                offset: at,
                len: length,
                source_name: source,
            },
        }
    }
}

impl CasePatternView {
    /// The variables that a pattern refers to, in order.
    pub open spec fn uses(self) -> Seq<VarUseView> {
        match self {
            CasePatternView::VarRef { name, namespace, offset, len, source_name } => seq![
                VarUseView { name, namespace, offset, len, source_name },
            ],
            CasePatternView::Literal { parts, offset, len, source_name } => part_uses(
                parts,
                offset,
                len,
                source_name,
            ),
            CasePatternView::Default => Seq::empty(),
        }
    }

    /// The same pattern at another place; `Default` has none.
    pub open spec fn moved(self, source: Seq<char>, at: usize, length: usize) -> Self {
        match self {
            CasePatternView::VarRef { name, namespace, .. } => CasePatternView::VarRef {
                name,
                namespace,
                offset: at,
                len: length,
                source_name: source,
            },
            CasePatternView::Literal { parts, .. } => CasePatternView::Literal {
                parts,
                offset: at,
                len: length,
                source_name: source,
            },
            CasePatternView::Default => CasePatternView::Default,
        }
    }
}

/// A function that gives a namespace a new name, from the old one and the place
/// of the reference, is defined everywhere.
pub open spec fn renames_all<F: Fn(&str, usize, usize, &str) -> String>(f: F) -> bool {
    forall|ns: &str, offset: usize, len: usize, source: &str| #[trigger]
        call_requires(f, (ns, offset, len, source))
}

/// `after` is a name that `f` gives to the namespace `before` at a place.
pub open spec fn renamed<F: Fn(&str, usize, usize, &str) -> String>(
    f: F,
    before: Seq<char>,
    offset: usize,
    len: usize,
    source_name: Seq<char>,
    after: Seq<char>,
) -> bool {
    exists|ns: &str, source: &str, out: String|
        ns@ == before && source@ == source_name && out@ == after && #[trigger] call_ensures(
            f,
            (ns, offset, len, source),
            out,
        )
}

/// The pieces `after` are the pieces `before` with the namespace of every
/// variable renamed by `f`.
pub open spec fn parts_renamed<F: Fn(&str, usize, usize, &str) -> String>(
    f: F,
    before: Seq<PartView>,
    offset: usize,
    len: usize,
    source_name: Seq<char>,
    after: Seq<PartView>,
) -> bool {
    &&& before.len() == after.len()
    &&& forall|i: int|
        0 <= i < before.len() ==> {
            &&& (#[trigger] after[i]).is_var == before[i].is_var
            &&& after[i].value == before[i].value
            &&& before[i].is_var ==> renamed(
                f,
                before[i].namespace,
                offset,
                len,
                source_name,
                after[i].namespace,
            )
            &&& !before[i].is_var ==> after[i].namespace == before[i].namespace
        }
}

impl ExprView {
    /// `after` is this expression with every namespace renamed by `f`.
    pub open spec fn renamed_to<F: Fn(&str, usize, usize, &str) -> String>(
        self,
        f: F,
        after: Self,
    ) -> bool {
        match (self, after) {
            (
                ExprView::VarRef { name, namespace, offset, len, source_name },
                ExprView::VarRef {
                    name: name2,
                    namespace: namespace2,
                    offset: offset2,
                    len: len2,
                    source_name: source_name2,
                },
            ) => name2 == name && offset2 == offset && len2 == len && source_name2 == source_name
                && renamed(f, namespace, offset, len, source_name, namespace2),
            (
                ExprView::BacktickLit { parts, offset, len, source_name },
                ExprView::BacktickLit {
                    parts: parts2,
                    offset: offset2,
                    len: len2,
                    source_name: source_name2,
                },
            ) => offset2 == offset && len2 == len && source_name2 == source_name && parts_renamed(
                f,
                parts,
                offset,
                len,
                source_name,
                parts2,
            ),
            _ => false,
        }
    }
}

impl CasePatternView {
    /// `after` is this pattern with every namespace renamed by `f`.
    pub open spec fn renamed_to<F: Fn(&str, usize, usize, &str) -> String>(
        self,
        f: F,
        after: Self,
    ) -> bool {
        match (self, after) {
            (
                CasePatternView::VarRef { name, namespace, offset, len, source_name },
                CasePatternView::VarRef {
                    name: name2,
                    namespace: namespace2,
                    offset: offset2,
                    len: len2,
                    source_name: source_name2,
                },
            ) => name2 == name && offset2 == offset && len2 == len && source_name2 == source_name
                && renamed(f, namespace, offset, len, source_name, namespace2),
            (
                CasePatternView::Literal { parts, offset, len, source_name },
                CasePatternView::Literal {
                    parts: parts2,
                    offset: offset2,
                    len: len2,
                    source_name: source_name2,
                },
            ) => offset2 == offset && len2 == len && source_name2 == source_name && parts_renamed(
                f,
                parts,
                offset,
                len,
                source_name,
                parts2,
            ),
            (CasePatternView::Default, CasePatternView::Default) => true,
            _ => false,
        }
    }
}

fn collect_part_uses(
    parts: &Vec<InterpolationPart>,
    offset: usize,
    len: usize,
    source_name: &String,
    out: &mut Vec<VarUse>,
)
    ensures
        use_views(final(out)@) == use_views(old(out)@) + part_uses(
            part_views(parts@),
            offset,
            len,
            source_name@,
        ),
{
    let ghost before = use_views(out@);
    let ghost views = part_views(parts@);
    let mut i: usize = 0;
    proof {
        assert(views.take(0) =~= Seq::<PartView>::empty());
        assert(before + part_uses(views.take(0), offset, len, source_name@) =~= before);
    }
    while i < parts.len()
        invariant
            i <= parts@.len(),
            views == part_views(parts@),
            use_views(out@) == before + part_uses(
                views.take(i as int),
                offset,
                len,
                source_name@,
            ),
        decreases parts@.len() - i,
    {
        let ghost done = use_views(out@);
        proof {
            let next = views.take(i + 1);
            assert(next.drop_last() =~= views.take(i as int));
            assert(next.last() == parts@[i as int]@);
        }
        if parts[i].is_var {
            let u = VarUse {
                name: parts[i].value.clone(),
                namespace: parts[i].namespace.clone(),
                offset,
                len,
                source_name: source_name.clone(),
            };
            out.push(u);
            assert(use_views(out@) =~= done.push(u@));
        }
        assert(use_views(out@) =~= before + part_uses(
            views.take(i + 1),
            offset,
            len,
            source_name@,
        ));
        i += 1;
    }
    assert(views.take(i as int) =~= views);
}

fn rename_parts<F: Fn(&str, usize, usize, &str) -> String>(
    parts: &mut Vec<InterpolationPart>,
    offset: usize,
    len: usize,
    source_name: &str,
    f: &F,
)
    requires
        renames_all(*f),
    ensures
        parts_renamed(
            *f,
            part_views(old(parts)@),
            offset,
            len,
            source_name@,
            part_views(final(parts)@),
        ),
{
    let ghost before = part_views(parts@);
    let mut i: usize = 0;
    while i < parts.len()
        invariant
            renames_all(*f),
            i <= parts@.len(),
            before == part_views(old(parts)@),
            before.len() == parts@.len(),
            forall|k: int| i <= k < parts@.len() ==> (#[trigger] parts@[k])@ == before[k],
            forall|k: int|
                0 <= k < i ==> {
                    let after = (#[trigger] parts@[k])@;
                    &&& after.is_var == before[k].is_var
                    &&& after.value == before[k].value
                    &&& before[k].is_var ==> renamed(
                        *f,
                        before[k].namespace,
                        offset,
                        len,
                        source_name@,
                        after.namespace,
                    )
                    &&& !before[k].is_var ==> after.namespace == before[k].namespace
                },
        decreases parts@.len() - i,
    {
        if parts[i].is_var {
            let ns = f(parts[i].namespace.as_str(), offset, len, source_name);
            let part = InterpolationPart {
                is_var: true,
                namespace: ns,
                value: parts[i].value.clone(),
            };
            parts.set(i, part);
        }
        i += 1;
    }
    proof {
        let after = part_views(parts@);
        assert forall|k: int| 0 <= k < before.len() implies {
            &&& (#[trigger] after[k]).is_var == before[k].is_var
            &&& after[k].value == before[k].value
            &&& before[k].is_var ==> renamed(
                *f,
                before[k].namespace,
                offset,
                len,
                source_name@,
                after[k].namespace,
            )
            &&& !before[k].is_var ==> after[k].namespace == before[k].namespace
        } by {
            assert(parts@[k]@ == after[k]);
        }
    }
}

/// Take the places off the references.
pub(crate) fn plain_refs(uses: Vec<VarUse>) -> (r: Vec<(String, String)>)
    ensures
        ref_views(r@) == without_places(use_views(uses@)),
{
    let mut r: Vec<(String, String)> = Vec::new();
    let mut i: usize = 0;
    while i < uses.len()
        invariant
            i <= uses@.len(),
            r@.len() == i,
            forall|k: int|
                0 <= k < i ==> (#[trigger] r@[k]).0@ == uses@[k].name@ && r@[k].1@
                    == uses@[k].namespace@,
        decreases uses@.len() - i,
    {
        r.push((uses[i].name.clone(), uses[i].namespace.clone()));
        i += 1;
    }
    assert(ref_views(r@) =~= without_places(use_views(uses@)));
    r
}

impl Expr {
    pub open spec fn view(&self) -> ExprView {
        match self {
            Expr::BacktickLit { parts, offset, len, source_name } => ExprView::BacktickLit {
                parts: part_views(parts@),
                offset: *offset,
                len: *len,
                source_name: source_name@,
            },
            Expr::VarRef { name, namespace, offset, len, source_name } => ExprView::VarRef {
                name: name@,
                namespace: namespace@,
                offset: *offset,
                len: *len,
                source_name: source_name@,
            },
        }
    }

    /// The place of the expression: offset and length in bytes.
    pub fn offset_len(&self) -> (r: (usize, usize))
        ensures
            match self@ {
                ExprView::BacktickLit { offset, len, .. } => r == (offset, len),
                ExprView::VarRef { offset, len, .. } => r == (offset, len),
            },
    {
        match self {
            Expr::BacktickLit { offset, len, .. } => (*offset, *len),
            Expr::VarRef { offset, len, .. } => (*offset, *len),
        }
    }

    /// The name of the source that the expression stands in.
    pub fn source_name(&self) -> (r: &str)
        ensures
            match self@ {
                ExprView::BacktickLit { source_name, .. } => r@ == source_name,
                ExprView::VarRef { source_name, .. } => r@ == source_name,
            },
    {
        match self {
            Expr::BacktickLit { source_name, .. } => source_name.as_str(),
            Expr::VarRef { source_name, .. } => source_name.as_str(),
        }
    }

    /// The variables that the expression refers to, each with its place.
    pub fn visit_vars_spanned(&self) -> (r: Vec<VarUse>)
        ensures
            use_views(r@) == self@.uses(),
    {
        let mut out: Vec<VarUse> = Vec::new();
        match self {
            Expr::VarRef { name, namespace, offset, len, source_name } => {
                out.push(
                    VarUse {
                        name: name.clone(),
                        namespace: namespace.clone(),
                        offset: *offset,
                        len: *len,
                        source_name: source_name.clone(),
                    },
                );
            },
            Expr::BacktickLit { parts, offset, len, source_name } => {
                collect_part_uses(parts, *offset, *len, source_name, &mut out);
            },
        }
        assert(use_views(out@) =~= self@.uses());
        out
    }

    /// The variables that the expression refers to, as name and namespace.
    pub fn visit_vars(&self) -> (r: Vec<(String, String)>)
        ensures
            ref_views(r@) == without_places(self@.uses()),
    {
        plain_refs(self.visit_vars_spanned())
    }

    /// Give every namespace in the expression the name that `f` has for it.
    pub fn visit_namespaces_mut<F: Fn(&str, usize, usize, &str) -> String>(&mut self, f: &F)
        requires
            renames_all(*f),
        ensures
            old(self)@.renamed_to(*f, final(self)@),
    {
        match self {
            Expr::VarRef { namespace, offset, len, source_name, .. } => {
                let ns = f(namespace.as_str(), *offset, *len, source_name.as_str());
                *namespace = ns;
            },
            Expr::BacktickLit { parts, offset, len, source_name } => {
                rename_parts(parts, *offset, *len, source_name.as_str(), f);
            },
        }
    }

    /// Move the expression to another place.
    pub fn remap_source_span(&mut self, new_source: &str, new_offset: usize, new_len: usize)
        ensures
            final(self)@ == old(self)@.moved(new_source@, new_offset, new_len),
    {
        match self {
            Expr::VarRef { offset, len, source_name, .. } => {
                *offset = new_offset;
                *len = new_len;
                *source_name = new_source.to_owned();
            },
            Expr::BacktickLit { offset, len, source_name, .. } => {
                *offset = new_offset;
                *len = new_len;
                *source_name = new_source.to_owned();
            },
        }
    }
}

impl CasePattern {
    pub open spec fn view(&self) -> CasePatternView {
        match self {
            CasePattern::Literal { parts, offset, len, source_name } => CasePatternView::Literal {
                parts: part_views(parts@),
                offset: *offset,
                len: *len,
                source_name: source_name@,
            },
            CasePattern::VarRef { name, namespace, offset, len, source_name } => CasePatternView::VarRef {
                name: name@,
                namespace: namespace@,
                offset: *offset,
                len: *len,
                source_name: source_name@,
            },
            CasePattern::Default => CasePatternView::Default,
        }
    }

    /// The place of the pattern: offset and length in bytes. `Default` has none
    /// and gives zeros.
    pub fn offset_len(&self) -> (r: (usize, usize))
        ensures
            match self@ {
                CasePatternView::Literal { offset, len, .. } => r == (offset, len),
                CasePatternView::VarRef { offset, len, .. } => r == (offset, len),
                CasePatternView::Default => r == (0usize, 0usize),
            },
    {
        match self {
            CasePattern::Literal { offset, len, .. } => (*offset, *len),
            CasePattern::VarRef { offset, len, .. } => (*offset, *len),
            CasePattern::Default => (0, 0),
        }
    }

    /// The name of the source that the pattern stands in; empty for `Default`.
    pub fn source_name(&self) -> (r: &str)
        ensures
            match self@ {
                CasePatternView::Literal { source_name, .. } => r@ == source_name,
                CasePatternView::VarRef { source_name, .. } => r@ == source_name,
                CasePatternView::Default => r@ == ""@,
            },
    {
        match self {
            CasePattern::Literal { source_name, .. } => source_name.as_str(),
            CasePattern::VarRef { source_name, .. } => source_name.as_str(),
            CasePattern::Default => "",
        }
    }

    /// The variables that the pattern refers to, each with its place.
    pub fn visit_vars_spanned(&self) -> (r: Vec<VarUse>)
        ensures
            use_views(r@) == self@.uses(),
    {
        let mut out: Vec<VarUse> = Vec::new();
        match self {
            CasePattern::VarRef { name, namespace, offset, len, source_name } => {
                out.push(
                    VarUse {
                        name: name.clone(),
                        namespace: namespace.clone(),
                        offset: *offset,
                        len: *len,
                        source_name: source_name.clone(),
                    },
                );
            },
            CasePattern::Literal { parts, offset, len, source_name } => {
                collect_part_uses(parts, *offset, *len, source_name, &mut out);
            },
            CasePattern::Default => {},
        }
        assert(use_views(out@) =~= self@.uses());
        out
    }

    /// The variables that the pattern refers to, as name and namespace.
    pub fn visit_vars(&self) -> (r: Vec<(String, String)>)
        ensures
            ref_views(r@) == without_places(self@.uses()),
    {
        plain_refs(self.visit_vars_spanned())
    }

    /// Give every namespace in the pattern the name that `f` has for it.
    pub fn visit_namespaces_mut<F: Fn(&str, usize, usize, &str) -> String>(&mut self, f: &F)
        requires
            renames_all(*f),
        ensures
            old(self)@.renamed_to(*f, final(self)@),
    {
        match self {
            CasePattern::VarRef { namespace, offset, len, source_name, .. } => {
                let ns = f(namespace.as_str(), *offset, *len, source_name.as_str());
                *namespace = ns;
            },
            CasePattern::Literal { parts, offset, len, source_name } => {
                rename_parts(parts, *offset, *len, source_name.as_str(), f);
            },
            CasePattern::Default => {},
        }
    }

    /// Move the pattern to another place.
    pub fn remap_source_span(&mut self, new_source: &str, new_offset: usize, new_len: usize)
        ensures
            final(self)@ == old(self)@.moved(new_source@, new_offset, new_len),
    {
        match self {
            CasePattern::VarRef { offset, len, source_name, .. } => {
                *offset = new_offset;
                *len = new_len;
                *source_name = new_source.to_owned();
            },
            CasePattern::Literal { offset, len, source_name, .. } => {
                *offset = new_offset;
                *len = new_len;
                *source_name = new_source.to_owned();
            },
            CasePattern::Default => {},
        }
    }
}

} // verus!
