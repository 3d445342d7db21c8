//! Which Skills a conversation has loaded, according to its log.

use vstd::prelude::*;

use crate::events::{
    is_rolled_back, lemma_live_positions_bounds, live_event_positions, live_events,
    live_positions, rolled_back_flags, same_text, EventPayload, StoredEvent,
};
use crate::json::json_str_field;
use crate::skill::definition::SkillDefView;
use crate::skill::registry::{
    def_named, has_name, lemma_sorted_unique_names, SkillRegistry,
};
use crate::text::{seq_lt, string_less, texts};

verus! {

/// What the log has established so far: the loaded Skills, and the Skill that each
/// `use_skill` call still waiting for its result asked for.
pub struct SkillLoadState {
    pub loaded: Set<Seq<char>>,
    pub pending: Map<Seq<char>, Seq<char>>,
}

/// The effect of one fact on the loaded Skills of `conversation`.
pub open spec fn skill_step(st: SkillLoadState, p: EventPayload, conversation: Seq<char>) -> SkillLoadState {
    match p {
        EventPayload::ContextSkills { conversation: c, bootstrap_loaded, .. } => if c@ == conversation {
            SkillLoadState { loaded: st.loaded + texts(bootstrap_loaded@).to_set(), pending: st.pending }
        } else {
            st
        },
        EventPayload::ToolCall { conversation: Some(c), tool_call_id, tool, args, .. } => if tool@
            == "use_skill"@ && c@ == conversation {
            match json_str_field(args@, "skill_name"@) {
                Some(name) => SkillLoadState {
                    loaded: st.loaded,
                    pending: st.pending.insert(tool_call_id@, name),
                },
                None => st,
            }
        } else {
            st
        },
        EventPayload::ToolResult { conversation: Some(c), tool_call_id, status, truncated, .. } => if status@
            == "ok"@ && c@ == conversation && !truncated && st.pending.dom().contains(tool_call_id@) {
            SkillLoadState { loaded: st.loaded.insert(st.pending[tool_call_id@]), pending: st.pending }
        } else {
            st
        },
        _ => st,
    }
}

/// The state after the facts `events`, in order.
pub open spec fn skill_state(events: Seq<StoredEvent>, conversation: Seq<char>) -> SkillLoadState
    decreases events.len(),
{
    if events.len() == 0 {
        SkillLoadState { loaded: Set::empty(), pending: Map::empty() }
    } else {
        skill_step(skill_state(events.drop_last(), conversation), events.last().payload, conversation)
    }
}

/// `v` is in strictly increasing order.
pub open spec fn strictly_sorted(v: Seq<Seq<char>>) -> bool {
    forall|a: int, b: int| #![trigger v[a], v[b]] 0 <= a < b < v.len() ==> seq_lt(v[a], v[b])
}

/// Adds `name` to a strictly sorted list of names, keeping it strictly sorted.
fn insert_name(v: &mut Vec<String>, name: &str)
    requires
        strictly_sorted(texts(old(v)@)),
    ensures
        strictly_sorted(texts(final(v)@)),
        texts(final(v)@).to_set() == texts(old(v)@).to_set().insert(name@),
{
    let ghost t0 = texts(v@);
    let n = String::from_str(name);
    let mut p: usize = 0;
    while p < v.len() && string_less(&v[p], &n)
        invariant
            p <= v@.len(),
            t0 == texts(v@),
            v@ == old(v)@,
            n@ == name@,
            forall|q: int| 0 <= q < p ==> seq_lt(#[trigger] t0[q], name@),
        decreases v@.len() - p,
    {
        p = p + 1;
    }
    if p < v.len() && same_text(v[p].as_str(), name) {
        proof {
            assert(t0[p as int] == name@);
            assert(t0.to_set().insert(name@) =~= t0.to_set());
        }
        return;
    }
    let ghost at_p = if p < t0.len() { t0[p as int] } else { Seq::empty() };
    proof {
        if p < t0.len() {
            assert(!seq_lt(t0[p as int], name@));
            assert(t0[p as int] != name@);
            crate::text::lemma_seq_lt_total(t0[p as int], name@);
        }
    }
    v.insert(p, n);
    proof {
        let t1 = texts(v@);
        assert(t1 =~= t0.insert(p as int, name@));
        assert forall|a: int, b: int| #![trigger t1[a], t1[b]] 0 <= a < b < t1.len() implies seq_lt(
            t1[a],
            t1[b],
        ) by {
            if b < p {
            } else if b == p {
            } else if a < p {
                assert(t1[b] == t0[b - 1]);
                if b - 1 > p {
                    assert(seq_lt(t0[p as int], t0[b - 1]));
                    crate::text::lemma_seq_lt_transitive(name@, t0[p as int], t0[b - 1]);
                }
                crate::text::lemma_seq_lt_transitive(t0[a], name@, t0[b - 1]);
            } else if a == p {
                if b - 1 > p {
                    assert(seq_lt(t0[p as int], t0[b - 1]));
                    crate::text::lemma_seq_lt_transitive(name@, t0[p as int], t0[b - 1]);
                }
            } else {
                assert(t1[a] == t0[a - 1] && t1[b] == t0[b - 1]);
            }
        }
        assert(t1.to_set() =~= t0.to_set().insert(name@)) by {
            assert forall|x: Seq<char>| t1.to_set().contains(x) <==> t0.to_set().insert(name@).contains(x) by {
                if t1.contains(x) {
                    let a = choose|a: int| 0 <= a < t1.len() && t1[a] == x;
                    if a < p {
                        assert(t0[a] == x);
                    } else if a > p {
                        assert(t0[a - 1] == x);
                    }
                }
                if t0.contains(x) {
                    let a = choose|a: int| 0 <= a < t0.len() && t0[a] == x;
                    if a < p {
                        assert(t1[a] == x);
                    } else {
                        assert(t1[a + 1] == x);
                    }
                }
                if x == name@ {
                    assert(t1[p as int] == x);
                }
            }
        }
    }
}

/// The Skill that each waiting `use_skill` call asked for, as a map.
pub open spec fn pending_map(v: Seq<(String, String)>) -> Map<Seq<char>, Seq<char>> {
    Map::new(
        |k: Seq<char>| exists|i: int| 0 <= i < v.len() && (#[trigger] v[i]).0@ == k,
        |k: Seq<char>| v[choose|i: int| 0 <= i < v.len() && (#[trigger] v[i]).0@ == k].1@,
    )
}

/// No two waiting calls share an identifier.
pub open spec fn unique_keys(v: Seq<(String, String)>) -> bool {
    forall|a: int, b: int|
        0 <= a < v.len() && 0 <= b < v.len() && a != b ==> (#[trigger] v[a]).0@ != (#[trigger] v[b]).0@
}

proof fn lemma_pending_lookup(v: Seq<(String, String)>, i: int)
    requires
        unique_keys(v),
        0 <= i < v.len(),
    ensures
        pending_map(v).dom().contains(v[i].0@),
        pending_map(v)[v[i].0@] == v[i].1@,
{
    let k = v[i].0@;
    assert(pending_map(v).dom().contains(k));
    let c = choose|c: int| 0 <= c < v.len() && (#[trigger] v[c]).0@ == k;
    if c != i {
        assert(v[c].0@ != v[i].0@);
    }
}

/// Records that call `key` asked for Skill `value`, replacing what it asked before.
fn set_pending(v: &mut Vec<(String, String)>, key: &str, value: &str)
    requires
        unique_keys(old(v)@),
    ensures
        unique_keys(final(v)@),
        pending_map(final(v)@) == pending_map(old(v)@).insert(key@, value@),
{
    let ghost old_v = v@;
    let mut i: usize = 0;
    while i < v.len()
        invariant
            i <= v@.len(),
            v@ == old_v,
            old_v == old(v)@,
            unique_keys(old_v),
            forall|k: int| 0 <= k < i ==> (#[trigger] v@[k]).0@ != key@,
        decreases v@.len() - i,
    {
        if same_text(v[i].0.as_str(), key) {
            let entry = (String::from_str(key), String::from_str(value));
            v.set(i, entry);
            proof {
                assert(old_v[i as int].0@ == key@);
                let nv = v@;
                assert(nv == old_v.update(i as int, entry));
                assert forall|a: int, b: int|
                    0 <= a < nv.len() && 0 <= b < nv.len() && a != b implies (#[trigger] nv[a]).0@ != (
                    #[trigger] nv[b]).0@ by {
                    if a != i && b != i {
                        assert(old_v[a].0@ != old_v[b].0@);
                    } else if a == i {
                        assert(old_v[i as int].0@ != old_v[b].0@);
                    } else {
                        assert(old_v[a].0@ != old_v[i as int].0@);
                    }
                }
                let m0 = pending_map(old_v);
                let m1 = pending_map(nv);
                assert(m1 =~= m0.insert(key@, value@)) by {
                    assert forall|k: Seq<char>| m1.dom().contains(k) <==> m0.insert(key@, value@).dom().contains(k) by {
                        if m1.dom().contains(k) {
                            let a = choose|a: int| 0 <= a < nv.len() && (#[trigger] nv[a]).0@ == k;
                            if a != i {
                                assert(old_v[a].0@ == k);
                            }
                        }
                        if m0.dom().contains(k) {
                            let a = choose|a: int| 0 <= a < old_v.len() && (#[trigger] old_v[a]).0@ == k;
                            if a != i {
                                assert(nv[a].0@ == k);
                            } else {
                                assert(nv[a].0@ == k);
                            }
                        }
                        if k == key@ {
                            assert(nv[i as int].0@ == k);
                        }
                    }
                    assert forall|k: Seq<char>| #[trigger] m1.dom().contains(k) implies m1[k] == m0.insert(key@, value@)[k] by {
                        let a = choose|a: int| 0 <= a < nv.len() && (#[trigger] nv[a]).0@ == k;
                        lemma_pending_lookup(nv, a);
                        if a != i {
                            lemma_pending_lookup(old_v, a);
                            assert(nv[a] == old_v[a]);
                            assert(old_v[a].0@ != old_v[i as int].0@);
                            assert(k != key@);
                        } else {
                            assert(k == key@);
                            assert(nv[a].1@ == value@);
                        }
                    }
                }
            }
            return;
        }
        i = i + 1;
    }
    let entry = (String::from_str(key), String::from_str(value));
    v.push(entry);
    proof {
        let nv = v@;
        assert forall|a: int, b: int|
            0 <= a < nv.len() && 0 <= b < nv.len() && a != b implies (#[trigger] nv[a]).0@ != (
            #[trigger] nv[b]).0@ by {
            if a < old_v.len() && b < old_v.len() {
                assert(old_v[a].0@ != old_v[b].0@);
            } else if a < old_v.len() {
                assert(nv[a] == old_v[a]);
            } else {
                assert(nv[b] == old_v[b]);
            }
        }
        let m0 = pending_map(old_v);
        let m1 = pending_map(nv);
        assert(m1 =~= m0.insert(key@, value@)) by {
            assert forall|k: Seq<char>| m1.dom().contains(k) <==> m0.insert(key@, value@).dom().contains(k) by {
                if m1.dom().contains(k) {
                    let a = choose|a: int| 0 <= a < nv.len() && (#[trigger] nv[a]).0@ == k;
                    if a < old_v.len() {
                        assert(old_v[a].0@ == k);
                    }
                }
                if m0.dom().contains(k) {
                    let a = choose|a: int| 0 <= a < old_v.len() && (#[trigger] old_v[a]).0@ == k;
                    assert(nv[a].0@ == k);
                }
                if k == key@ {
                    assert(nv[old_v.len() as int].0@ == k);
                }
            }
            assert forall|k: Seq<char>| #[trigger] m1.dom().contains(k) implies m1[k] == m0.insert(key@, value@)[k] by {
                let a = choose|a: int| 0 <= a < nv.len() && (#[trigger] nv[a]).0@ == k;
                lemma_pending_lookup(nv, a);
                if a < old_v.len() {
                    lemma_pending_lookup(old_v, a);
                    assert(nv[a] == old_v[a]);
                }
            }
        }
    }
}

/// The Skill that call `key` asked for, if it is waiting.
fn get_pending(v: &Vec<(String, String)>, key: &str) -> (r: Option<String>)
    requires
        unique_keys(v@),
    ensures
        r matches Some(s) ==> pending_map(v@).dom().contains(key@) && pending_map(v@)[key@] == s@,
        r is None ==> !pending_map(v@).dom().contains(key@),
{
    let mut i: usize = 0;
    while i < v.len()
        invariant
            i <= v@.len(),
            unique_keys(v@),
            forall|k: int| 0 <= k < i ==> (#[trigger] v@[k]).0@ != key@,
        decreases v@.len() - i,
    {
        if same_text(v[i].0.as_str(), key) {
            proof {
                lemma_pending_lookup(v@, i as int);
            }
            return Some(v[i].1.clone());
        }
        i = i + 1;
    }
    None
}

/// The Skills that `conversation` has loaded, in increasing order of name: those its
/// snapshots loaded at the start of a turn, and those that a `use_skill` call of it loaded
/// with a complete, successful result; facts that a rollback removed do not count.
pub fn loaded_skill_names(events: &[StoredEvent], conversation: &str) -> (names: Vec<String>)
    ensures
        strictly_sorted(texts(names@)),
        texts(names@).to_set() == skill_state(live_events(events@), conversation@).loaded,
{
    let live = live_event_positions(events);
    let ghost l = live_events(events@);
    proof {
        lemma_live_positions_bounds(events@, events@.len() as int);
        let p = live_positions(events@, events@.len() as int);
        assert(live@.map_values(|j: usize| j as int).len() == p.len());
        assert(live@.len() == l.len());
        assert forall|a: int| 0 <= a < live@.len() implies (#[trigger] live@[a]) < events@.len()
            && events@[live@[a] as int] == l[a] by {
            assert(live@.map_values(|j: usize| j as int)[a] == p[a]);
            assert(0 <= p[a] < events@.len());
        }
    }
    let mut loaded: Vec<String> = Vec::new();
    let mut pending: Vec<(String, String)> = Vec::new();
    let mut i: usize = 0;
    proof {
        assert(texts(loaded@).to_set() =~= Set::<Seq<char>>::empty());
        assert(pending_map(pending@) =~= Map::<Seq<char>, Seq<char>>::empty());
    }
    while i < live.len()
        invariant
            i <= live@.len(),
            live@.len() == l.len(),
            forall|a: int| 0 <= a < live@.len() ==> (#[trigger] live@[a]) < events@.len() && events@[
                live@[a] as int] == l[a],
            strictly_sorted(texts(loaded@)),
            unique_keys(pending@),
            texts(loaded@).to_set() == skill_state(l.subrange(0, i as int), conversation@).loaded,
            pending_map(pending@) == skill_state(l.subrange(0, i as int), conversation@).pending,
        decreases live@.len() - i,
    {
        proof {
            assert(l.subrange(0, i + 1).drop_last() =~= l.subrange(0, i as int));
        }
        let j = live[i];
        match &events[j].payload {
            EventPayload::ContextSkills { conversation: c, bootstrap_loaded, .. } => {
                if same_text(c.as_str(), conversation) {
                    let ghost base = texts(loaded@).to_set();
                    let mut k: usize = 0;
                    while k < bootstrap_loaded.len()
                        invariant
                            k <= bootstrap_loaded@.len(),
                            strictly_sorted(texts(loaded@)),
                            texts(loaded@).to_set() == base + texts(bootstrap_loaded@.subrange(0, k as int)).to_set(),
                        decreases bootstrap_loaded@.len() - k,
                    {
                        insert_name(&mut loaded, bootstrap_loaded[k].as_str());
                        proof {
                            let s0 = texts(bootstrap_loaded@.subrange(0, k as int));
                            let s1 = texts(bootstrap_loaded@.subrange(0, k + 1));
                            assert(s1 =~= s0.push(bootstrap_loaded@[k as int]@));
                            assert(s1.to_set() =~= s0.to_set().insert(bootstrap_loaded@[k as int]@)) by {
                                assert forall|x: Seq<char>| s1.to_set().contains(x) <==> s0.to_set().insert(bootstrap_loaded@[k as int]@).contains(x) by {
                                    if s1.contains(x) {
                                        let a = choose|a: int| 0 <= a < s1.len() && s1[a] == x;
                                        if a < s0.len() {
                                            assert(s0[a] == x);
                                        }
                                    }
                                    if s0.contains(x) {
                                        let a = choose|a: int| 0 <= a < s0.len() && s0[a] == x;
                                        assert(s1[a] == x);
                                    }
                                    if x == bootstrap_loaded@[k as int]@ {
                                        assert(s1[k as int] == x);
                                    }
                                }
                            }
                            assert(texts(loaded@).to_set() =~= base + s1.to_set());
                        }
                        k = k + 1;
                    }
                    proof {
                        assert(bootstrap_loaded@.subrange(0, bootstrap_loaded@.len() as int) =~= bootstrap_loaded@);
                    }
                }
            },
            EventPayload::ToolCall { conversation: Some(c), tool_call_id, tool, args, .. } => {
                if same_text(tool.as_str(), "use_skill") && same_text(c.as_str(), conversation) {
                    match args.str_field("skill_name") {
                        Some(name) => {
                            set_pending(&mut pending, tool_call_id.as_str(), name.as_str());
                        },
                        None => {},
                    }
                }
            },
            EventPayload::ToolResult { conversation: Some(c), tool_call_id, status, truncated, .. } => {
                if same_text(status.as_str(), "ok") && same_text(c.as_str(), conversation) && !*truncated {
                    match get_pending(&pending, tool_call_id.as_str()) {
                        Some(name) => {
                            insert_name(&mut loaded, name.as_str());
                        },
                        None => {},
                    }
                }
            },
            _ => {},
        }
        i = i + 1;
    }
    proof {
        assert(l.subrange(0, l.len() as int) =~= l);
    }
    loaded
}


/// A source that a conversation's binding rests on: its kind, where it came from, and
/// the hash of its content.
#[derive(Debug, Clone, PartialEq, Eq)]
pub struct BindingSource {
    pub kind: String,
    pub source: String,
    pub hash: String,
}

/// The value of a [`BindingSource`]: kind, source and hash.
pub open spec fn binding_view(b: BindingSource) -> (Seq<char>, Seq<char>, Seq<char>) {
    (b.kind@, b.source@, b.hash@)
}

/// The binding source of a Skill definition: kind `skill_definition`, its file when it
/// has one (its name otherwise), and its content hash.
pub open spec fn skill_binding(d: SkillDefView) -> (Seq<char>, Seq<char>, Seq<char>) {
    (
        "skill_definition"@,
        match d.source_path {
            Some(p) => p,
            None => d.name,
        },
        d.hash,
    )
}

/// The binding sources of the Skills `names`, in order, skipping names the registry lacks.
pub open spec fn skill_bindings(defs: Seq<SkillDefView>, names: Seq<Seq<char>>) -> Seq<
    (Seq<char>, Seq<char>, Seq<char>),
>
    decreases names.len(),
{
    if names.len() == 0 {
        Seq::empty()
    } else {
        let rest = skill_bindings(defs, names.drop_last());
        if has_name(defs, names.last()) {
            rest.push(skill_binding(def_named(defs, names.last())))
        } else {
            rest
        }
    }
}

/// The binding sources of the Skills `skill_names` that `registry` defines, in order.
pub fn binding_sources_for_skills(registry: &SkillRegistry, skill_names: &[String]) -> (r: Vec<
    BindingSource,
>)
    ensures
        r@.map_values(|b: BindingSource| binding_view(b)) == skill_bindings(
            registry@.defs,
            texts(skill_names@),
        ),
{
    let mut out: Vec<BindingSource> = Vec::new();
    let mut i: usize = 0;
    while i < skill_names.len()
        invariant
            i <= skill_names@.len(),
            out@.map_values(|b: BindingSource| binding_view(b)) == skill_bindings(
                registry@.defs,
                texts(skill_names@.subrange(0, i as int)),
            ),
        decreases skill_names@.len() - i,
    {
        let ghost names = texts(skill_names@.subrange(0, i + 1));
        proof {
            assert(names.drop_last() =~= texts(skill_names@.subrange(0, i as int)));
            assert(names.last() == skill_names@[i as int]@);
        }
        match registry.get(skill_names[i].as_str()) {
            Some(d) => {
                proof {
                    let defs = registry@.defs;
                    let j = choose|j: int|
                        0 <= j < defs.len() && (#[trigger] defs[j]).name == skill_names@[i as int]@
                            && defs[j] == d@;
                    assert(has_name(defs, names.last()));
                    let k = choose|k: int|
                        0 <= k < defs.len() && (#[trigger] defs[k]).name == names.last();
                    lemma_sorted_unique_names(defs, j, k);
                    assert(def_named(defs, names.last()) == d@);
                }
                let source = match &d.source_path {
                    Some(p) => p.clone(),
                    None => d.name.clone(),
                };
                let b = BindingSource {
                    kind: String::from_str("skill_definition"),
                    source,
                    hash: d.hash.clone(),
                };
                proof {
                    reveal_strlit("skill_definition");
                }
                out.push(b);
                proof {
                    assert(out@.map_values(|b: BindingSource| binding_view(b)) =~= skill_bindings(
                        registry@.defs,
                        texts(skill_names@.subrange(0, i as int)),
                    ).push(skill_binding(d@)));
                }
            },
            None => {},
        }
        i = i + 1;
    }
    proof {
        assert(skill_names@.subrange(0, i as int) =~= skill_names@);
    }
    out
}


/// Whether `p` records the Skills of `conversation` at the wanted turn: before `turn`
/// when `before` holds, at `turn` otherwise.
pub open spec fn is_skill_snapshot(p: EventPayload, conversation: Seq<char>, turn: u64, before: bool) -> bool {
    match p {
        EventPayload::ContextSkills { conversation: c, turn: t, .. } => c@ == conversation && if before {
            t < turn
        } else {
            t == turn
        },
        _ => false,
    }
}

/// The position of the last fact among the first `end` of `events` that records the Skills
/// of `conversation` at `turn` (or, with `before`, at an earlier turn) and that no rollback
/// removed. A turn's Skill
/// snapshot is the last such fact whose registry can be read: when one cannot, the search
/// goes on before it.
pub fn find_skill_snapshot(
    events: &[StoredEvent],
    end: usize,
    conversation: &str,
    turn: u64,
    before: bool,
) -> (r: Option<usize>)
    requires
        end <= events@.len(),
    ensures
        match r {
            Some(i) => {
                &&& i < end
                &&& is_skill_snapshot(events@[i as int].payload, conversation@, turn, before)
                &&& !is_rolled_back(events@, i as int)
                &&& forall|j: int|
                    i < j < end ==> !is_skill_snapshot(
                        #[trigger] events@[j].payload,
                        conversation@,
                        turn,
                        before,
                    ) || is_rolled_back(events@, j)
            },
            None => forall|j: int|
                0 <= j < end ==> !is_skill_snapshot(
                    #[trigger] events@[j].payload,
                    conversation@,
                    turn,
                    before,
                ) || is_rolled_back(events@, j),
        },
{
    let flags = rolled_back_flags(events);
    let mut k: usize = end;
    while k > 0
        invariant
            k <= end <= events@.len(),
            flags@.len() == events@.len(),
            forall|q: int| 0 <= q < events@.len() ==> flags@[q] == is_rolled_back(events@, q),
            forall|j: int|
                k <= j < end ==> !is_skill_snapshot(
                    #[trigger] events@[j].payload,
                    conversation@,
                    turn,
                    before,
                ) || is_rolled_back(events@, j),
        decreases k,
    {
        let i = k - 1;
        match &events[i].payload {
            EventPayload::ContextSkills { conversation: c, turn: t, .. } => {
                let wanted = if before {
                    *t < turn
                } else {
                    *t == turn
                };
                if wanted && same_text(c.as_str(), conversation) && !flags[i] {
                    return Some(i);
                }
            },
            _ => {},
        }
        k = i;
    }
    None
}


/// A fact of another conversation never changes what a conversation has loaded: in
/// particular a snapshot of another conversation adds none of its bootstrap Skills.
pub proof fn law_other_conversation_fact_changes_nothing(
    st: SkillLoadState,
    p: EventPayload,
    conversation: Seq<char>,
)
    requires
        !crate::events::in_conversation_of(p, conversation),
    ensures
        skill_step(st, p, conversation) == st,
{
}

/// Appending to the log a fact of another conversation (one that neither rolls back nor
/// undoes) leaves the Skills that `conversation` has loaded unchanged.
pub proof fn law_loaded_skills_are_conversation_scoped(
    events: Seq<StoredEvent>,
    e: StoredEvent,
    conversation: Seq<char>,
)
    requires
        !crate::events::in_conversation_of(e.payload, conversation),
        !crate::events::is_rollback_fact(e.payload),
    ensures
        skill_state(live_events(events.push(e)), conversation).loaded == skill_state(
            live_events(events),
            conversation,
        ).loaded,
{
    crate::events::lemma_live_events_push(events, e);
    let l = live_events(events);
    assert(l.push(e).drop_last() =~= l);
    assert(l.push(e).last() == e);
    law_other_conversation_fact_changes_nothing(skill_state(l, conversation), e.payload, conversation);
}

} // verus!
