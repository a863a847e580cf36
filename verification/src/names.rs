//! Maps keyed by names. Entries are kept in ascending order of their names, so
//! that a walk over a map always meets them in the same order.
use vstd::prelude::*;
use crate::text::chars_of;

verus! {

/// Whether `a` comes before `b` in the order of their characters.
pub open spec fn name_lt(a: Seq<char>, b: Seq<char>) -> bool
    decreases a.len(),
{
    if b.len() == 0 {
        false
    } else if a.len() == 0 {
        true
    } else if a[0] != b[0] {
        a[0] < b[0]
    } else {
        name_lt(a.skip(1), b.skip(1))
    }
}

pub proof fn lemma_name_lt_irreflexive(a: Seq<char>)
    ensures
        !name_lt(a, a),
    decreases a.len(),
{
    if a.len() > 0 {
        lemma_name_lt_irreflexive(a.skip(1));
    }
}

pub proof fn lemma_name_lt_transitive(a: Seq<char>, b: Seq<char>, c: Seq<char>)
    requires
        name_lt(a, b),
        name_lt(b, c),
    ensures
        name_lt(a, c),
    decreases a.len(),
{
    if a.len() > 0 && a[0] == b[0] && b[0] == c[0] {
        lemma_name_lt_transitive(a.skip(1), b.skip(1), c.skip(1));
    }
}

pub proof fn lemma_name_lt_total(a: Seq<char>, b: Seq<char>)
    requires
        !name_lt(a, b),
        a != b,
    ensures
        name_lt(b, a),
    decreases a.len(),
{
    if b.len() == 0 {
        if a.len() == 0 {
            assert(a =~= b);
        }
    } else if a.len() > 0 && a[0] == b[0] {
        if a.skip(1) == b.skip(1) {
            assert(a =~= seq![a[0]] + a.skip(1));
            assert(b =~= seq![b[0]] + b.skip(1));
        }
        lemma_name_lt_total(a.skip(1), b.skip(1));
    }
}

/// How one name stands to another.
#[derive(Debug, Clone, Copy, PartialEq, Eq, Structural)]
pub enum Place {
    Before,
    Same,
    After,
}

/// Where `a` stands in relation to `b`.
pub fn place(a: &str, b: &str) -> (r: Place)
    ensures
        r == Place::Before <==> name_lt(a@, b@),
        r == Place::Same <==> a@ == b@,
        r == Place::After <==> name_lt(b@, a@),
{
    let x = chars_of(a);
    let y = chars_of(b);
    let mut i: usize = 0;
    proof {
        assert(a@.skip(0) =~= a@);
        assert(b@.skip(0) =~= b@);
        lemma_name_lt_irreflexive(a@);
        lemma_name_lt_irreflexive(b@);
    }
    while i < x.len() && i < y.len()
        invariant
            x@ == a@,
            y@ == b@,
            i <= x@.len(),
            i <= y@.len(),
            a@.take(i as int) =~= b@.take(i as int),
            name_lt(a@, b@) == name_lt(a@.skip(i as int), b@.skip(i as int)),
            name_lt(b@, a@) == name_lt(b@.skip(i as int), a@.skip(i as int)),
            !name_lt(a@, a@),
            !name_lt(b@, b@),
        decreases x@.len() - i,
    {
        proof {
            assert(a@.skip(i as int).skip(1) =~= a@.skip(i + 1));
            assert(b@.skip(i as int).skip(1) =~= b@.skip(i + 1));
            assert(a@.take(i + 1) =~= a@.take(i as int).push(a@[i as int]));
            assert(b@.take(i + 1) =~= b@.take(i as int).push(b@[i as int]));
        }
        if x[i] < y[i] {
            return Place::Before;
        }
        if y[i] < x[i] {
            return Place::After;
        }
        i += 1;
    }
    if i < y.len() {
        Place::Before
    } else if i < x.len() {
        Place::After
    } else {
        assert(a@ =~= a@.take(i as int));
        assert(b@ =~= b@.take(i as int));
        Place::Same
    }
}

/// The entries of a map, each a name with its value.
pub type Entries<V> = Seq<(Seq<char>, V)>;

/// The names ascend from entry to entry.
pub open spec fn ascending<V>(s: Entries<V>) -> bool {
    forall|i: int, j: int| 0 <= i < j < s.len() ==> name_lt(#[trigger] s[i].0, #[trigger] s[j].0)
}

/// The value that stands under a name.
pub open spec fn lookup<V>(s: Entries<V>, name: Seq<char>) -> Option<V>
    decreases s.len(),
{
    if s.len() == 0 {
        None
    } else if s.last().0 == name {
        Some(s.last().1)
    } else {
        lookup(s.drop_last(), name)
    }
}

/// The entries with `value` under `name`, whatever stood there before.
pub open spec fn insert_entry<V>(s: Entries<V>, name: Seq<char>, value: V) -> Entries<V>
    decreases s.len(),
{
    if s.len() == 0 || name_lt(s.last().0, name) {
        s.push((name, value))
    } else if s.last().0 == name {
        s.drop_last().push((name, value))
    } else {
        insert_entry(s.drop_last(), name, value).push(s.last())
    }
}

/// An entry that was put in is found under its name, and every other name keeps
/// what it had.
pub proof fn law_insert_then_lookup<V>(s: Entries<V>, name: Seq<char>, value: V, other: Seq<char>)
    requires
        ascending(s),
    ensures
        lookup(insert_entry(s, name, value), name) == Some(value),
        other != name ==> lookup(insert_entry(s, name, value), other) == lookup(s, other),
    decreases s.len(),
{
    if s.len() == 0 || name_lt(s.last().0, name) {
        assert(s.push((name, value)).drop_last() =~= s);
    } else if s.last().0 == name {
        assert(s.drop_last().push((name, value)).drop_last() =~= s.drop_last());
    } else {
        law_insert_then_lookup(s.drop_last(), name, value, other);
        let t = insert_entry(s.drop_last(), name, value);
        assert(t.push(s.last()).drop_last() =~= t);
    }
}

/// Putting an entry in keeps the names ascending.
pub proof fn law_insert_keeps_ascending<V>(s: Entries<V>, name: Seq<char>, value: V)
    requires
        ascending(s),
    ensures
        ascending(insert_entry(s, name, value)),
    decreases s.len(),
{
    lemma_insert_ascending(s, name, value);
}

/// The names of the entries after an insertion are those before, and the name.
proof fn lemma_insert_ascending<V>(s: Entries<V>, name: Seq<char>, value: V)
    requires
        ascending(s),
    ensures
        ascending(insert_entry(s, name, value)),
        insert_entry(s, name, value).len() <= s.len() + 1,
        forall|k: int|
            0 <= k < insert_entry(s, name, value).len() ==> {
                ||| (#[trigger] insert_entry(s, name, value)[k]).0 == name
                ||| exists|j: int|
                    0 <= j < s.len() && (#[trigger] s[j]).0 == insert_entry(s, name, value)[k].0
            },
    decreases s.len(),
{
    let r = insert_entry(s, name, value);
    if s.len() == 0 {
    } else if name_lt(s.last().0, name) {
        assert forall|i: int, j: int| 0 <= i < j < r.len() implies name_lt(
            #[trigger] r[i].0,
            #[trigger] r[j].0,
        ) by {
            if j == s.len() {
                if i < s.len() - 1 {
                    assert(name_lt(s[i].0, s[s.len() - 1].0));
                    lemma_name_lt_transitive(s[i].0, s.last().0, name);
                }
            } else {
                assert(name_lt(s[i].0, s[j].0));
            }
        }
        assert forall|k: int| 0 <= k < r.len() implies {
            ||| (#[trigger] r[k]).0 == name
            ||| exists|j: int| 0 <= j < s.len() && (#[trigger] s[j]).0 == r[k].0
        } by {
            if k < s.len() {
                assert(s[k].0 == r[k].0);
            }
        }
    } else if s.last().0 == name {
        assert forall|i: int, j: int| 0 <= i < j < r.len() implies name_lt(
            #[trigger] r[i].0,
            #[trigger] r[j].0,
        ) by {
            assert(name_lt(s[i].0, s[j].0));
        }
        assert forall|k: int| 0 <= k < r.len() implies {
            ||| (#[trigger] r[k]).0 == name
            ||| exists|j: int| 0 <= j < s.len() && (#[trigger] s[j]).0 == r[k].0
        } by {
            assert(s[k].0 == r[k].0);
        }
    } else {
        let d = s.drop_last();
        assert forall|i: int, j: int| 0 <= i < j < d.len() implies name_lt(
            #[trigger] d[i].0,
            #[trigger] d[j].0,
        ) by {
            assert(name_lt(s[i].0, s[j].0));
        }
        lemma_insert_ascending(d, name, value);
        lemma_name_lt_total(s.last().0, name);
        let t = insert_entry(d, name, value);
        assert forall|i: int, j: int| 0 <= i < j < r.len() implies name_lt(
            #[trigger] r[i].0,
            #[trigger] r[j].0,
        ) by {
            if j == t.len() {
                assert(r[i] == t[i]);
                if t[i].0 != name {
                    let m = choose|m: int| 0 <= m < d.len() && (#[trigger] d[m]).0 == t[i].0;
                    assert(name_lt(s[m].0, s[s.len() - 1].0));
                }
            } else {
                assert(r[i] == t[i] && r[j] == t[j]);
            }
        }
        assert forall|k: int| 0 <= k < r.len() implies {
            ||| (#[trigger] r[k]).0 == name
            ||| exists|j: int| 0 <= j < s.len() && (#[trigger] s[j]).0 == r[k].0
        } by {
            if k < t.len() {
                assert(r[k] == t[k]);
                if t[k].0 != name {
                    let m = choose|m: int| 0 <= m < d.len() && (#[trigger] d[m]).0 == t[k].0;
                    assert(s[m].0 == r[k].0);
                }
            } else {
                assert(s[s.len() - 1].0 == r[k].0);
            }
        }
    }
}

/// An entry whose name comes after all others goes to the end.
pub proof fn lemma_insert_at_end<V>(s: Entries<V>, name: Seq<char>, value: V)
    requires
        forall|i: int| 0 <= i < s.len() ==> name_lt(#[trigger] s[i].0, name),
    ensures
        insert_entry(s, name, value) == s.push((name, value)),
{
    if s.len() > 0 {
        assert(name_lt(s[s.len() - 1].0, name));
    }
}

/// The names of all but the last entry ascend, and come before the last name.
pub proof fn lemma_ascending_init<V>(s: Entries<V>)
    requires
        ascending(s),
        s.len() > 0,
    ensures
        ascending(s.drop_last()),
        insert_entry(s.drop_last(), s.last().0, s.last().1) == s,
{
    let init = s.drop_last();
    assert forall|i: int, j: int| 0 <= i < j < init.len() implies name_lt(
        #[trigger] init[i].0,
        #[trigger] init[j].0,
    ) by {
        assert(name_lt(s[i].0, s[j].0));
    }
    assert forall|i: int| 0 <= i < init.len() implies name_lt(
        #[trigger] init[i].0,
        s.last().0,
    ) by {
        assert(name_lt(s[i].0, s[s.len() - 1].0));
    }
    lemma_insert_at_end(init, s.last().0, s.last().1);
    assert(init.push((s.last().0, s.last().1)) =~= s);
}

/// The entries without the one under a name.
pub open spec fn remove_entry<V>(s: Entries<V>, name: Seq<char>) -> Entries<V>
    decreases s.len(),
{
    if s.len() == 0 {
        s
    } else if s.last().0 == name {
        s.drop_last()
    } else {
        remove_entry(s.drop_last(), name).push(s.last())
    }
}

proof fn lemma_remove_missing<V>(s: Entries<V>, name: Seq<char>)
    requires
        forall|i: int| 0 <= i < s.len() ==> (#[trigger] s[i]).0 != name,
    ensures
        remove_entry(s, name) == s,
    decreases s.len(),
{
    if s.len() > 0 {
        assert(s[s.len() - 1].0 != name);
        let init = s.drop_last();
        assert forall|i: int| 0 <= i < init.len() implies (#[trigger] init[i]).0 != name by {
            assert(s[i].0 != name);
        }
        lemma_remove_missing(init, name);
        assert(init.push(s.last()) =~= s);
    }
}

/// Taking an entry out at its position.
proof fn lemma_remove_at<V>(s: Entries<V>, n: int)
    requires
        ascending(s),
        0 <= n < s.len(),
    ensures
        remove_entry(s, s[n].0) == s.remove(n),
        ascending(s.remove(n)),
        lookup(s, s[n].0) == Some(s[n].1),
    decreases s.len(),
{
    let r = s.remove(n);
    assert forall|i: int, j: int| 0 <= i < j < r.len() implies name_lt(
        #[trigger] r[i].0,
        #[trigger] r[j].0,
    ) by {
        let a = if i < n {
            i
        } else {
            i + 1
        };
        let b = if j < n {
            j
        } else {
            j + 1
        };
        assert(name_lt(s[a].0, s[b].0));
    }
    if n == s.len() - 1 {
        assert(r =~= s.drop_last());
    } else {
        assert(name_lt(s[n].0, s[s.len() - 1].0));
        lemma_name_lt_irreflexive(s[n].0);
        let init = s.drop_last();
        lemma_ascending_init(s);
        lemma_remove_at(init, n);
        assert(init.remove(n).push(s.last()) =~= r);
    }
}

/// Putting an entry in under a name has the same effect whether what stood
/// there is taken out first or not.
pub proof fn law_remove_then_insert<V>(s: Entries<V>, name: Seq<char>, value: V)
    requires
        ascending(s),
    ensures
        insert_entry(remove_entry(s, name), name, value) == insert_entry(s, name, value),
    decreases s.len(),
{
    if s.len() > 0 {
        let init = s.drop_last();
        lemma_ascending_init(s);
        if name_lt(s.last().0, name) {
            assert forall|i: int| 0 <= i < s.len() implies (#[trigger] s[i]).0 != name by {
                lemma_name_lt_irreflexive(name);
                if i < s.len() - 1 {
                    assert(name_lt(s[i].0, s[s.len() - 1].0));
                    lemma_name_lt_transitive(s[i].0, s.last().0, name);
                }
            }
            lemma_remove_missing(s, name);
        } else if s.last().0 == name {
            if init.len() > 0 {
                assert(name_lt(s[s.len() - 2].0, s[s.len() - 1].0));
            }
        } else {
            law_remove_then_insert(init, name, value);
            let r = remove_entry(init, name);
            assert(r.push(s.last()).drop_last() =~= r);
        }
    }
}

/// The entries with every value replaced by what `f` gives for it.
pub open spec fn map_entries<V, W>(s: Entries<V>, f: spec_fn(V) -> W) -> Entries<W> {
    Seq::new(s.len(), |i: int| (s[i].0, f(s[i].1)))
}

/// Replacing the values of a map leaves its names in order.
pub proof fn lemma_map_ascending<V, W>(s: Entries<V>, f: spec_fn(V) -> W)
    requires
        ascending(s),
    ensures
        ascending(map_entries(s, f)),
{
    let t = map_entries(s, f);
    assert forall|i: int, j: int| 0 <= i < j < t.len() implies name_lt(
        #[trigger] t[i].0,
        #[trigger] t[j].0,
    ) by {
        assert(name_lt(s[i].0, s[j].0));
    }
}

/// Replacing the values of a map and putting an entry in can be done in either order.
pub proof fn lemma_map_insert<V, W>(s: Entries<V>, f: spec_fn(V) -> W, name: Seq<char>, value: V)
    ensures
        map_entries(insert_entry(s, name, value), f) == insert_entry(
            map_entries(s, f),
            name,
            f(value),
        ),
    decreases s.len(),
{
    let m = map_entries(s, f);
    if s.len() == 0 || name_lt(s.last().0, name) {
        assert(map_entries(s.push((name, value)), f) =~= m.push((name, f(value))));
    } else if s.last().0 == name {
        assert(map_entries(s.drop_last().push((name, value)), f) =~= m.drop_last().push(
            (name, f(value)),
        ));
    } else {
        lemma_map_insert(s.drop_last(), f, name, value);
        assert(map_entries(s.drop_last(), f) =~= m.drop_last());
        let t = insert_entry(s.drop_last(), name, value);
        assert(map_entries(t.push(s.last()), f) =~= map_entries(t, f).push(m.last()));
    }
}

/// Looking a name up finds the replaced value.
pub proof fn lemma_map_lookup<V, W>(s: Entries<V>, f: spec_fn(V) -> W, name: Seq<char>)
    ensures
        lookup(map_entries(s, f), name) == match lookup(s, name) {
            Some(v) => Some(f(v)),
            None => None,
        },
    decreases s.len(),
{
    if s.len() > 0 {
        lemma_map_lookup(s.drop_last(), f, name);
        assert(map_entries(s, f).drop_last() =~= map_entries(s.drop_last(), f));
    }
}

/// The names of the entries.
pub open spec fn names_of<V>(s: Entries<V>) -> Seq<Seq<char>> {
    Seq::new(s.len(), |i: int| s[i].0)
}

/// A name that something stands under is one of the names.
pub proof fn lemma_lookup_name<V>(s: Entries<V>, name: Seq<char>)
    ensures
        lookup(s, name) is Some <==> names_of(s).contains(name),
    decreases s.len(),
{
    if s.len() > 0 {
        lemma_lookup_name(s.drop_last(), name);
        let n = names_of(s);
        let m = names_of(s.drop_last());
        assert(n =~= m.push(s.last().0));
        if m.contains(name) {
            let i = choose|i: int| 0 <= i < m.len() && m[i] == name;
            assert(n[i] == name);
        }
        if s.last().0 == name {
            assert(n[n.len() - 1] == name);
        }
        if n.contains(name) && s.last().0 != name {
            let i = choose|i: int| 0 <= i < n.len() && n[i] == name;
            assert(m[i] == name);
        }
    }
}

/// Different names that all stand in a map, but for one that is missing among
/// them, are fewer than the entries.
pub proof fn lemma_fewer_names<V>(s: Entries<V>, some: Seq<Seq<char>>, missing: Seq<char>)
    requires
        some.no_duplicates(),
        forall|i: int| 0 <= i < some.len() ==> lookup(s, #[trigger] some[i]) is Some,
        lookup(s, missing) is Some,
        !some.contains(missing),
    ensures
        some.len() < s.len(),
{
    let all = some.push(missing);
    let names = names_of(s);
    assert(all.no_duplicates()) by {
        assert forall|i: int, j: int| 0 <= i < j < all.len() implies all[i] != all[j] by {
            if j == some.len() {
                assert(some.contains(some[i]));
            }
        }
    }
    assert(all.to_set().subset_of(names.to_set())) by {
        assert forall|x: Seq<char>| all.to_set().contains(x) implies names.to_set().contains(x) by {
            let i = choose|i: int| 0 <= i < all.len() && all[i] == x;
            lemma_lookup_name(s, all[i]);
            if i < some.len() {
                assert(lookup(s, some[i]) is Some);
            }
        }
    }
    all.unique_seq_to_set();
    names.lemma_cardinality_of_set();
    vstd::set_lib::lemma_len_subset(all.to_set(), names.to_set());
}

/// Names and values as entries.
pub open spec fn entries_view<V>(s: Seq<(String, V)>) -> Entries<V> {
    Seq::new(s.len(), |i: int| (s[i].0@, s[i].1))
}

/// A map from names to values.
#[derive(Debug, PartialEq)]
pub struct NameMap<V> {
    entries: Vec<(String, V)>,
}

impl<V> NameMap<V> {
    /// The entries in the order of their names.
    pub closed spec fn view(&self) -> Entries<V> {
        Seq::new(self.entries@.len(), |i: int| (self.entries@[i].0@, self.entries@[i].1))
    }

    #[verifier::type_invariant]
    spec fn inv(self) -> bool {
        ascending(self@)
    }

    /// A map without entries.
    pub fn new() -> (r: Self)
        ensures
            r@ == Seq::<(Seq<char>, V)>::empty(),
    {
        let r = NameMap { entries: Vec::new() };
        assert(r@ =~= Seq::<(Seq<char>, V)>::empty());
        r
    }

    /// How many entries there are; their names ascend.
    pub fn len(&self) -> (r: usize)
        ensures
            r == self@.len(),
            ascending(self@),
    {
        proof {
            use_type_invariant(self);
        }
        self.entries.len()
    }

    /// The name of the entry at a position.
    pub fn name_at(&self, i: usize) -> (r: &str)
        requires
            i < self@.len(),
        ensures
            r@ == self@[i as int].0,
    {
        self.entries[i].0.as_str()
    }

    /// The value of the entry at a position.
    pub fn value_at(&self, i: usize) -> (r: &V)
        requires
            i < self@.len(),
        ensures
            *r == self@[i as int].1,
    {
        &self.entries[i].1
    }

    /// The value that stands under `name`, if one does.
    pub fn get(&self, name: &str) -> (r: Option<&V>)
        ensures
            r == match lookup(self@, name@) {
                Some(v) => Some(&v),
                None => None,
            },
    {
        let mut i: usize = self.entries.len();
        assert(self@.take(i as int) =~= self@);
        while i > 0
            invariant
                i <= self.entries@.len(),
                self@.len() == self.entries@.len(),
                lookup(self@, name@) == lookup(self@.take(i as int), name@),
            decreases i,
        {
            i -= 1;
            let ghost t = self@.take(i + 1);
            assert(t.drop_last() =~= self@.take(i as int));
            assert(t.last() == self@[i as int]);
            if let Place::Same = place(self.entries[i].0.as_str(), name) {
                return Some(&self.entries[i].1);
            }
        }
        None
    }

    /// The names with their values, in the order of the names.
    pub fn into_entries(self) -> (r: Vec<(String, V)>)
        ensures
            entries_view(r@) == self@,
            ascending(self@),
    {
        proof {
            use_type_invariant(&self);
        }
        self.entries
    }

    /// Take out the value that stands under `name`, if one does.
    pub fn take(&mut self, name: &str) -> (r: Option<V>)
        ensures
            r == lookup(old(self)@, name@),
            r is Some ==> final(self)@ == remove_entry(old(self)@, name@),
            r is None ==> final(self)@ == old(self)@,
    {
        proof {
            use_type_invariant(&*self);
        }
        let ghost before = self@;
        let mut i: usize = 0;
        while i < self.entries.len()
            invariant
                i <= self.entries@.len(),
                self@ == before,
                before == old(self)@,
                *self == *old(self),
                ascending(before),
                before.len() == self.entries@.len(),
                forall|k: int| 0 <= k < i ==> (#[trigger] before[k]).0 != name@,
            decreases self.entries@.len() - i,
        {
            if let Place::Same = place(self.entries[i].0.as_str(), name) {
                proof {
                    lemma_remove_at(before, i as int);
                }
                let mut taken = NameMap { entries: Vec::new() };
                std::mem::swap(self, &mut taken);
                let mut entries = taken.entries;
                let (_, value) = entries.remove(i);
                assert(Seq::new(entries@.len(), |k: int| (entries@[k].0@, entries@[k].1))
                    =~= before.remove(i as int));
                *self = NameMap { entries };
                return Some(value);
            }
            assert(self@[i as int].0 != name@);
            i += 1;
        }
        proof {
            lemma_lookup_name(before, name@);
            if names_of(before).contains(name@) {
                let k = choose|k: int|
                    0 <= k < names_of(before).len() && names_of(before)[k] == name@;
                assert(before[k].0 == name@);
            }
        }
        None
    }

    /// Put `value` under `name`; what stood there before is gone.
    pub fn insert(&mut self, name: String, value: V)
        ensures
            final(self)@ == insert_entry(old(self)@, name@, value),
    {
        proof {
            use_type_invariant(&*self);
            law_insert_keeps_ascending(self@, name@, value);
        }
        let ghost before = self@;
        let mut taken = NameMap { entries: Vec::new() };
        std::mem::swap(self, &mut taken);
        let mut entries = taken.entries;
        let mut i: usize = entries.len();
        assert(before.take(i as int) =~= before);
        assert(before.skip(i as int) =~= Seq::<(Seq<char>, V)>::empty());
        assert(insert_entry(before, name@, value) =~= insert_entry(
            before.take(i as int),
            name@,
            value,
        ) + before.skip(i as int));
        while i > 0
            invariant
                i <= entries@.len(),
                before == old(self)@,
                before == Seq::new(
                    entries@.len(),
                    |k: int| (entries@[k].0@, entries@[k].1),
                ),
                ascending(before),
                ascending(insert_entry(before, name@, value)),
                insert_entry(before, name@, value) == insert_entry(
                    before.take(i as int),
                    name@,
                    value,
                ) + before.skip(i as int),
            decreases i,
        {
            let ghost t = before.take(i as int);
            assert(t.last() == before[i - 1]);
            assert(t.drop_last() =~= before.take(i - 1));
            match place(entries[i - 1].0.as_str(), name.as_str()) {
                Place::Before => {
                    proof {
                        assert(insert_entry(t, name@, value) == t.push((name@, value)));
                        assert(insert_entry(before, name@, value) =~= before.insert(i as int, (name@, value)));
                    }
                    entries.insert(i, (name, value));
                    assert(Seq::new(
                        entries@.len(),
                        |k: int| (entries@[k].0@, entries@[k].1),
                    ) =~= before.insert(i as int, (name@, value)));
                    *self = NameMap { entries };
                    return;
                },
                Place::Same => {
                    proof {
                        lemma_name_lt_irreflexive(name@);
                        assert(insert_entry(t, name@, value) == t.drop_last().push((name@, value)));
                        assert(insert_entry(before, name@, value) =~= before.update(i - 1, (name@, value)));
                    }
                    entries.set(i - 1, (name, value));
                    assert(Seq::new(
                        entries@.len(),
                        |k: int| (entries@[k].0@, entries@[k].1),
                    ) =~= before.update(i - 1, (name@, value)));
                    *self = NameMap { entries };
                    return;
                },
                Place::After => {
                    proof {
                        lemma_name_lt_irreflexive(name@);
                        if name_lt(t.last().0, name@) {
                            lemma_name_lt_transitive(t.last().0, name@, t.last().0);
                            lemma_name_lt_irreflexive(t.last().0);
                        }
                        let u = insert_entry(before.take(i - 1), name@, value);
                        assert(u.push(before[i - 1]) + before.skip(i as int) =~= u + before.skip(i - 1));
                    }
                },
            }
            i -= 1;
        }
        proof {
            assert(before.take(0) =~= Seq::<(Seq<char>, V)>::empty());
            assert(insert_entry(before, name@, value) =~= before.insert(0, (name@, value)));
        }
        entries.insert(0, (name, value));
        assert(Seq::new(entries@.len(), |k: int| (entries@[k].0@, entries@[k].1))
            =~= before.insert(0, (name@, value)));
        *self = NameMap { entries };
    }
}

/// Names are ordered by their first character that differs, and a name comes
/// before every longer one that starts with it.
pub proof fn law_names_are_ordered_by_their_characters(
    start: Seq<char>,
    a: Seq<char>,
    b: Seq<char>,
)
    ensures
        a.len() > 0 ==> name_lt(start, start + a) && !name_lt(start + a, start),
        a.len() > 0 && b.len() > 0 && a[0] != b[0] ==> name_lt(start + a, start + b) == (a[0]
            < b[0]),
    decreases start.len(),
{
    if start.len() == 0 {
        assert(start + a =~= a);
        assert(start + b =~= b);
    } else {
        let rest = start.skip(1);
        law_names_are_ordered_by_their_characters(rest, a, b);
        assert((start + a).skip(1) =~= rest + a);
        assert((start + b).skip(1) =~= rest + b);
    }
}

/// Of the entries just the one under the name is taken out.
pub proof fn law_remove_then_lookup<V>(s: Entries<V>, name: Seq<char>, other: Seq<char>)
    requires
        ascending(s),
    ensures
        lookup(remove_entry(s, name), name) is None,
        other != name ==> lookup(remove_entry(s, name), other) == lookup(s, other),
    decreases s.len(),
{
    if s.len() > 0 {
        let init = s.drop_last();
        assert(ascending(init)) by {
            assert forall|i: int, j: int| 0 <= i < j < init.len() implies name_lt(
                #[trigger] init[i].0,
                #[trigger] init[j].0,
            ) by {
                assert(name_lt(s[i].0, s[j].0));
            }
        }
        law_remove_then_lookup(init, name, other);
        if s.last().0 == name {
            assert forall|i: int| 0 <= i < init.len() implies (#[trigger] init[i]).0 != name by {
                assert(name_lt(s[i].0, s[s.len() - 1].0));
                lemma_name_lt_irreflexive(name);
            }
            lemma_lookup_name(init, name);
        } else {
            let r = remove_entry(init, name).push(s.last());
            assert(r.drop_last() =~= remove_entry(init, name));
        }
    }
}

} // verus!
