//! Append-only Skill load lifecycle reduction.

use vstd::prelude::*;

use crate::events::same_text;

verus! {

/// A recorded load of a Skill.
#[derive(Debug, Clone, PartialEq, Eq)]
pub struct SkillLoadFact {
    pub skill_id: String,
    pub origin: String,
}

impl SkillLoadFact {
    /// A copy of this fact.
    pub fn duplicate(&self) -> (r: SkillLoadFact)
        ensures
            r@ == self@,
    {
        SkillLoadFact { skill_id: self.skill_id.clone(), origin: self.origin.clone() }
    }
}

impl View for SkillLoadFact {
    type V = (Seq<char>, Seq<char>);

    open spec fn view(&self) -> (Seq<char>, Seq<char>) {
        (self.skill_id@, self.origin@)
    }
}

/// The values of a list of facts.
pub open spec fn fact_views(v: Seq<SkillLoadFact>) -> Seq<(Seq<char>, Seq<char>)> {
    v.map_values(|f: SkillLoadFact| f@)
}

/// Whether some fact of `facts` loads `id`.
pub open spec fn loads(facts: Seq<(Seq<char>, Seq<char>)>, id: Seq<char>) -> bool {
    exists|i: int| 0 <= i < facts.len() && (#[trigger] facts[i]).0 == id
}

/// The first load of each Skill, in ledger order.
pub open spec fn first_loads(facts: Seq<(Seq<char>, Seq<char>)>) -> Seq<(Seq<char>, Seq<char>)>
    decreases facts.len(),
{
    if facts.len() == 0 {
        Seq::empty()
    } else if loads(facts.drop_last(), facts.last().0) {
        first_loads(facts.drop_last())
    } else {
        first_loads(facts.drop_last()).push(facts.last())
    }
}

/// The value of a reduced lifecycle: every fact in ledger order.
pub struct SkillLifecycleView {
    pub facts: Seq<(Seq<char>, Seq<char>)>,
}

/// Reduced loaded-Skill state for one execution.
#[derive(Debug, PartialEq, Eq)]
pub struct SkillLifecycleState {
    facts: Vec<SkillLoadFact>,
    loaded: Vec<SkillLoadFact>,
    loaded_ids: Vec<String>,
}

impl View for SkillLifecycleState {
    type V = SkillLifecycleView;

    closed spec fn view(&self) -> SkillLifecycleView {
        SkillLifecycleView { facts: fact_views(self.facts@) }
    }
}

impl SkillLifecycleState {
    #[verifier::type_invariant]
    closed spec fn wf(&self) -> bool {
        &&& fact_views(self.loaded@) == first_loads(fact_views(self.facts@))
        &&& self.loaded_ids@.len() == self.loaded@.len()
        &&& forall|i: int|
            0 <= i < self.loaded_ids@.len() ==> (#[trigger] self.loaded_ids@[i])@
                == self.loaded@[i].skill_id@
    }

    /// Every load fact in ledger order.
    pub fn facts(&self) -> (r: &[SkillLoadFact])
        ensures
            fact_views(r@) == self@.facts,
    {
        self.facts.as_slice()
    }

    /// The first load of each Skill, in ledger order.
    pub fn loaded(&self) -> (r: &[SkillLoadFact])
        ensures
            fact_views(r@) == first_loads(self@.facts),
    {
        proof {
            use_type_invariant(self);
        }
        self.loaded.as_slice()
    }

    /// Always false: a durably loaded Skill has no unload command.
    pub fn can_unload(&self, skill_id: &str) -> (r: bool)
        ensures
            !r,
    {
        false
    }

    /// Whether a device-local staged entry may be removed: only one that no fact loads.
    pub fn can_remove_staged(&self, skill_id: &str, device_local: bool) -> (r: bool)
        ensures
            r == (device_local && !loads(self@.facts, skill_id@)),
    {
        proof {
            use_type_invariant(self);
            lemma_first_loads_ids(fact_views(self.facts@));
        }
        if !device_local {
            return false;
        }
        let mut i: usize = 0;
        while i < self.loaded_ids.len()
            invariant
                i <= self.loaded_ids@.len(),
                self.loaded_ids@.len() == self.loaded@.len(),
                fact_views(self.loaded@) == first_loads(fact_views(self.facts@)),
                forall|k: int|
                    0 <= k < self.loaded_ids@.len() ==> (#[trigger] self.loaded_ids@[k])@
                        == self.loaded@[k].skill_id@,
                forall|k: int| 0 <= k < i ==> self.loaded@[k].skill_id@ != skill_id@,
            decreases self.loaded_ids@.len() - i,
        {
            if same_text(self.loaded_ids[i].as_str(), skill_id) {
                proof {
                    assert(fact_views(self.loaded@)[i as int].0 == skill_id@);
                    assert(loads(first_loads(fact_views(self.facts@)), skill_id@));
                    lemma_first_loads_ids(fact_views(self.facts@));
                }
                return false;
            }
            i = i + 1;
        }
        proof {
            lemma_first_loads_ids(fact_views(self.facts@));
            assert forall|k: int| 0 <= k < first_loads(fact_views(self.facts@)).len() implies (
            #[trigger] first_loads(fact_views(self.facts@))[k]).0 != skill_id@ by {
                assert(fact_views(self.loaded@)[k] == self.loaded@[k]@);
            }
        }
        true
    }
}

/// Reduces immutable Skill load facts.
pub struct SkillLifecycle;

impl SkillLifecycle {
    /// Reduces the facts, keeping all of them and the first load of each Skill.
    pub fn reduce(facts: Vec<SkillLoadFact>) -> (state: SkillLifecycleState)
        ensures
            state@.facts == fact_views(facts@),
    {
        let mut loaded: Vec<SkillLoadFact> = Vec::new();
        let mut loaded_ids: Vec<String> = Vec::new();
        let mut i: usize = 0;
        while i < facts.len()
            invariant
                i <= facts@.len(),
                fact_views(loaded@) == first_loads(fact_views(facts@.subrange(0, i as int))),
                loaded_ids@.len() == loaded@.len(),
                forall|k: int|
                    0 <= k < loaded_ids@.len() ==> (#[trigger] loaded_ids@[k])@
                        == loaded@[k].skill_id@,
            decreases facts@.len() - i,
        {
            let ghost prefix = fact_views(facts@.subrange(0, i as int));
            let ghost next = fact_views(facts@.subrange(0, i + 1));
            proof {
                assert(next.drop_last() =~= prefix);
                assert(next.last() == facts@[i as int]@);
                lemma_first_loads_ids(prefix);
            }
            let mut seen = false;
            let mut k: usize = 0;
            while k < loaded_ids.len()
                invariant
                    i < facts@.len(),
                    k <= loaded_ids@.len(),
                    loaded_ids@.len() == loaded@.len(),
                    forall|q: int|
                        0 <= q < loaded_ids@.len() ==> (#[trigger] loaded_ids@[q])@
                            == loaded@[q].skill_id@,
                    seen ==> exists|q: int|
                        0 <= q < loaded@.len() && (#[trigger] loaded@[q]).skill_id@
                            == facts@[i as int].skill_id@,
                    !seen ==> forall|q: int|
                        0 <= q < k ==> (#[trigger] loaded@[q]).skill_id@ != facts@[i as int].skill_id@,
                decreases loaded_ids@.len() - k,
            {
                if same_text(loaded_ids[k].as_str(), facts[i].skill_id.as_str()) {
                    seen = true;
                }
                k = k + 1;
            }
            proof {
                if seen {
                    let q = choose|q: int|
                        0 <= q < loaded@.len() && (#[trigger] loaded@[q]).skill_id@
                            == facts@[i as int].skill_id@;
                    assert(fact_views(loaded@)[q].0 == facts@[i as int].skill_id@);
                    assert(loads(prefix, facts@[i as int].skill_id@));
                } else {
                    if loads(prefix, facts@[i as int].skill_id@) {
                        let q = choose|q: int|
                            0 <= q < first_loads(prefix).len() && (#[trigger] first_loads(
                                prefix,
                            )[q]).0 == facts@[i as int].skill_id@;
                        assert(fact_views(loaded@)[q] == loaded@[q]@);
                    }
                }
            }
            if !seen {
                loaded.push(facts[i].duplicate());
                loaded_ids.push(facts[i].skill_id.clone());
                proof {
                    assert(fact_views(loaded@) =~= first_loads(next));
                }
            }
            i = i + 1;
        }
        proof {
            assert(facts@.subrange(0, facts@.len() as int) =~= facts@);
        }
        SkillLifecycleState { facts, loaded, loaded_ids }
    }
}

/// A Skill is loaded by some fact exactly when its first load is kept.
proof fn lemma_first_loads_ids(facts: Seq<(Seq<char>, Seq<char>)>)
    ensures
        forall|id: Seq<char>| loads(facts, id) <==> loads(first_loads(facts), id),
    decreases facts.len(),
{
    if facts.len() > 0 {
        let p = facts.drop_last();
        lemma_first_loads_ids(p);
        assert forall|id: Seq<char>| loads(facts, id) <==> loads(first_loads(facts), id) by {
            if loads(facts, id) {
                let i = choose|i: int| 0 <= i < facts.len() && (#[trigger] facts[i]).0 == id;
                if i < facts.len() - 1 {
                    assert(p[i].0 == id);
                    assert(loads(p, id));
                    let q = choose|q: int| 0 <= q < first_loads(p).len() && (#[trigger] first_loads(p)[q]).0 == id;
                    if !loads(p, facts.last().0) {
                        assert(first_loads(facts)[q] == first_loads(p)[q]);
                    }
                } else if !loads(p, facts.last().0) {
                    let n = first_loads(p).len() as int;
                    assert(first_loads(facts)[n].0 == id);
                }
            }
            if loads(first_loads(facts), id) {
                let q = choose|q: int| 0 <= q < first_loads(facts).len() && (#[trigger] first_loads(facts)[q]).0 == id;
                if loads(p, facts.last().0) {
                    assert(first_loads(facts) == first_loads(p));
                    assert(first_loads(p)[q].0 == id);
                    assert(loads(first_loads(p), id));
                    assert(loads(p, id));
                    let i = choose|i: int| 0 <= i < p.len() && (#[trigger] p[i]).0 == id;
                    assert(facts[i].0 == id);
                } else if q < first_loads(p).len() {
                    assert(first_loads(p)[q].0 == id);
                    assert(loads(first_loads(p), id));
                    assert(loads(p, id));
                    let i = choose|i: int| 0 <= i < p.len() && (#[trigger] p[i]).0 == id;
                    assert(facts[i].0 == id);
                } else {
                    assert(facts[facts.len() - 1].0 == id);
                }
            }
        }
    }
}

/// The first loads name each Skill once.
pub proof fn law_loaded_skills_are_distinct(facts: Seq<(Seq<char>, Seq<char>)>)
    ensures
        forall|a: int, b: int|
            0 <= a < b < first_loads(facts).len() ==> (#[trigger] first_loads(facts)[a]).0 != (
            #[trigger] first_loads(facts)[b]).0,
    decreases facts.len(),
{
    if facts.len() > 0 {
        let p = facts.drop_last();
        law_loaded_skills_are_distinct(p);
        lemma_first_loads_ids(p);
        if !loads(p, facts.last().0) {
            let f = first_loads(facts);
            let n = first_loads(p).len() as int;
            assert forall|a: int, b: int| 0 <= a < b < f.len() implies (#[trigger] f[a]).0 != (
            #[trigger] f[b]).0 by {
                if b == n {
                    if f[a].0 == f[b].0 {
                        assert(first_loads(p)[a].0 == facts.last().0);
                        assert(loads(first_loads(p), facts.last().0));
                    }
                } else {
                    assert(f[a] == first_loads(p)[a]);
                    assert(f[b] == first_loads(p)[b]);
                }
            }
        }
    }
}

/// Every Skill that some fact loads is among the loaded Skills, and every loaded Skill
/// is loaded by some fact.
pub proof fn law_loaded_skills_are_the_loaded_ids(facts: Seq<(Seq<char>, Seq<char>)>, id: Seq<char>)
    ensures
        loads(facts, id) <==> loads(first_loads(facts), id),
{
    lemma_first_loads_ids(facts);
}

} // verus!
