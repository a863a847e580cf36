//! The process groups of a run, which are stopped together.
use vstd::prelude::*;

verus! {

/// The process groups that a run has started. When a task fails, the run has
/// failed, and every group that is alive is stopped.
#[derive(Debug)]
pub struct RunKillSwitch {
    failed: bool,
    groups: Vec<i32>,
    killed: Vec<i32>,
}

/// The contents of a [`RunKillSwitch`]: whether the run has failed, the groups
/// that are alive, and the groups that were stopped.
pub struct SwitchView {
    pub failed: bool,
    pub groups: Set<i32>,
    pub killed: Set<i32>,
}

fn holds(ids: &Vec<i32>, id: i32) -> (r: bool)
    ensures
        r == ids@.to_set().contains(id),
{
    let mut i: usize = 0;
    while i < ids.len()
        invariant
            i <= ids@.len(),
            forall|j: int| 0 <= j < i ==> #[trigger] ids@[j] != id,
        decreases ids@.len() - i,
    {
        if ids[i] == id {
            assert(ids@[i as int] == id);
            return true;
        }
        i += 1;
    }
    false
}

proof fn lemma_push_set(s: Seq<i32>, id: i32)
    ensures
        s.push(id).to_set() == s.to_set().insert(id),
{
    assert forall|x: i32| s.push(id).to_set().contains(x) == s.to_set().insert(id).contains(x) by {
        if s.contains(x) {
            let j = choose|j: int| 0 <= j < s.len() && s[j] == x;
            assert(s.push(id)[j] == x);
        }
        if x == id {
            assert(s.push(id)[s.len() as int] == x);
        }
        if s.push(id).contains(x) && x != id {
            let j = choose|j: int| 0 <= j < s.push(id).len() && s.push(id)[j] == x;
            assert(s[j] == x);
        }
    }
    assert(s.push(id).to_set() =~= s.to_set().insert(id));
}

fn with_id(ids: &mut Vec<i32>, id: i32)
    requires
        old(ids)@.no_duplicates(),
    ensures
        final(ids)@.no_duplicates(),
        final(ids)@.to_set() == old(ids)@.to_set().insert(id),
{
    if holds(ids, id) {
        assert(ids@.to_set().insert(id) =~= ids@.to_set());
    } else {
        proof {
            lemma_push_set(ids@, id);
            assert(!ids@.contains(id));
        }
        ids.push(id);
    }
}

impl RunKillSwitch {
    pub closed spec fn view(&self) -> SwitchView {
        SwitchView {
            failed: self.failed,
            groups: self.groups@.to_set(),
            killed: self.killed@.to_set(),
        }
    }

    #[verifier::type_invariant]
    spec fn inv(self) -> bool {
        self.groups@.no_duplicates() && self.killed@.no_duplicates()
    }

    /// The switch of a run that has started nothing.
    pub fn new() -> (r: Self)
        ensures
            r@ == (SwitchView { failed: false, groups: Set::empty(), killed: Set::empty() }),
    {
        let groups: Vec<i32> = Vec::new();
        let killed: Vec<i32> = Vec::new();
        assert(groups@.to_set() =~= Set::<i32>::empty());
        assert(killed@.to_set() =~= Set::<i32>::empty());
        RunKillSwitch { failed: false, groups, killed }
    }

    /// The run has failed: every group that is alive is marked as stopped and
    /// returned, to be signalled.
    pub fn fail(&mut self) -> (r: Vec<i32>)
        ensures
            final(self)@ == (SwitchView {
                failed: true,
                groups: old(self)@.groups,
                killed: old(self)@.killed.union(old(self)@.groups),
            }),
            r@.no_duplicates(),
            r@.to_set() == old(self)@.groups,
    {
        let targets = self.kill_all();
        let mut taken = RunKillSwitch::new();
        std::mem::swap(self, &mut taken);
        proof {
            use_type_invariant(&taken);
        }
        let RunKillSwitch { groups, killed, .. } = taken;
        *self = RunKillSwitch { failed: true, groups, killed };
        targets
    }

    /// Whether the run has failed.
    pub fn is_failed(&self) -> (r: bool)
        ensures
            r == self@.failed,
    {
        self.failed
    }

    /// Every group that is alive is marked as stopped and returned, to be
    /// signalled.
    pub fn kill_all(&mut self) -> (r: Vec<i32>)
        ensures
            final(self)@ == (SwitchView {
                killed: old(self)@.killed.union(old(self)@.groups),
                ..old(self)@
            }),
            r@.no_duplicates(),
            r@.to_set() == old(self)@.groups,
    {
        let ghost before = self@;
        let mut taken = RunKillSwitch::new();
        std::mem::swap(self, &mut taken);
        proof {
            use_type_invariant(&taken);
        }
        let RunKillSwitch { failed, groups, killed } = taken;
        let mut killed = killed;
        let mut targets: Vec<i32> = Vec::new();
        let mut i: usize = 0;
        assert(killed@.to_set() =~= before.killed.union(groups@.take(0).to_set()));
        while i < groups.len()
            invariant
                i <= groups@.len(),
                groups@.no_duplicates(),
                killed@.no_duplicates(),
                targets@ == groups@.take(i as int),
                killed@.to_set() == before.killed.union(groups@.take(i as int).to_set()),
            decreases groups@.len() - i,
        {
            let id: i32 = groups[i];
            proof {
                assert(groups@.take(i + 1) =~= groups@.take(i as int).push(id));
                lemma_push_set(groups@.take(i as int), id);
            }
            with_id(&mut killed, id);
            targets.push(id);
            assert(killed@.to_set() =~= before.killed.union(groups@.take(i + 1).to_set()));
            i += 1;
        }
        assert(groups@.take(i as int) =~= groups@);
        *self = RunKillSwitch { failed, groups, killed };
        targets
    }

    /// The groups that are still alive.
    pub fn survivors(&self) -> (r: Vec<i32>)
        ensures
            r@.no_duplicates(),
            r@.to_set() == self@.groups,
    {
        proof {
            use_type_invariant(self);
        }
        let mut out: Vec<i32> = Vec::new();
        let mut i: usize = 0;
        while i < self.groups.len()
            invariant
                i <= self.groups@.len(),
                out@ == self.groups@.take(i as int),
            decreases self.groups@.len() - i,
        {
            out.push(self.groups[i]);
            assert(out@ =~= self.groups@.take(i + 1));
            i += 1;
        }
        assert(out@ =~= self.groups@);
        out
    }

    /// Whether a group is alive.
    pub fn is_live(&self, pgid: i32) -> (r: bool)
        ensures
            r == self@.groups.contains(pgid),
    {
        holds(&self.groups, pgid)
    }

    /// Mark a group as stopped by this switch.
    pub fn mark_killed(&mut self, pgid: i32)
        ensures
            final(self)@ == (SwitchView {
                killed: old(self)@.killed.insert(pgid),
                ..old(self)@
            }),
    {
        let mut taken = RunKillSwitch::new();
        std::mem::swap(self, &mut taken);
        proof {
            use_type_invariant(&taken);
        }
        let RunKillSwitch { failed, groups, killed } = taken;
        let mut killed = killed;
        with_id(&mut killed, pgid);
        *self = RunKillSwitch { failed, groups, killed };
    }

    /// Whether a group was stopped by this switch.
    pub fn killed(&self, pgid: i32) -> (r: bool)
        ensures
            r == self@.killed.contains(pgid),
    {
        holds(&self.killed, pgid)
    }

    /// A group has been started.
    pub fn register(&mut self, pgid: i32)
        ensures
            final(self)@ == (SwitchView {
                groups: old(self)@.groups.insert(pgid),
                ..old(self)@
            }),
    {
        let mut taken = RunKillSwitch::new();
        std::mem::swap(self, &mut taken);
        proof {
            use_type_invariant(&taken);
        }
        let RunKillSwitch { failed, groups, killed } = taken;
        let mut groups = groups;
        with_id(&mut groups, pgid);
        *self = RunKillSwitch { failed, groups, killed };
    }

    /// A group has ended.
    pub fn deregister(&mut self, pgid: i32)
        ensures
            final(self)@ == (SwitchView {
                groups: old(self)@.groups.remove(pgid),
                ..old(self)@
            }),
    {
        let mut taken = RunKillSwitch::new();
        std::mem::swap(self, &mut taken);
        proof {
            use_type_invariant(&taken);
        }
        let RunKillSwitch { failed, groups, killed } = taken;
        let mut kept: Vec<i32> = Vec::new();
        let mut i: usize = 0;
        assert(kept@.to_set() =~= groups@.take(0).to_set().remove(pgid));
        while i < groups.len()
            invariant
                i <= groups@.len(),
                groups@.no_duplicates(),
                kept@.no_duplicates(),
                kept@.to_set() == groups@.take(i as int).to_set().remove(pgid),
            decreases groups@.len() - i,
        {
            let id: i32 = groups[i];
            let ghost seen = groups@.take(i as int);
            let ghost before = kept@.to_set();
            proof {
                assert(groups@.take(i + 1) =~= seen.push(id));
                lemma_push_set(seen, id);
            }
            if id != pgid {
                with_id(&mut kept, id);
            }
            assert(kept@.to_set() =~= groups@.take(i + 1).to_set().remove(pgid));
            i += 1;
        }
        proof {
            assert(groups@.take(i as int) =~= groups@);
            assert(kept@.to_set() =~= groups@.to_set().remove(pgid));
        }
        *self = RunKillSwitch { failed, groups: kept, killed };
    }

    /// How many groups are alive.
    pub fn live_group_count(&self) -> (r: usize)
        ensures
            r == self@.groups.len(),
    {
        proof {
            use_type_invariant(self);
            self.groups@.unique_seq_to_set();
        }
        self.groups.len()
    }
}

} // verus!
