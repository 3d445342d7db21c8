//! The Skill registry: definitions indexed by name, with a content hash and
//! change detection between two registries.

use vstd::prelude::*;

use crate::digest::{extend_bytes, labelled_digest, labelled_sha256};
use crate::events::same_text;
use crate::skill::definition::{skill_hash, SkillDefView, SkillDefinition};
use crate::text::{seq_lt, string_less};

verus! {

/// The values of a list of definitions.
pub open spec fn def_views(v: Seq<SkillDefinition>) -> Seq<SkillDefView> {
    v.map_values(|d: SkillDefinition| d@)
}

/// No two definitions share a name.
pub open spec fn unique_names(v: Seq<SkillDefView>) -> bool {
    forall|a: int, b: int|
        0 <= a < v.len() && 0 <= b < v.len() && a != b ==> (#[trigger] v[a]).name != (
        #[trigger] v[b]).name
}

/// Whether some definition of `v` is named `name`.
pub open spec fn has_name(v: Seq<SkillDefView>, name: Seq<char>) -> bool {
    exists|i: int| 0 <= i < v.len() && (#[trigger] v[i]).name == name
}

/// The definitions after adding `d`: it replaces the one with its name, if any, in place;
/// otherwise it comes last.
pub open spec fn builder_add(v: Seq<SkillDefView>, d: SkillDefView) -> Seq<SkillDefView> {
    if has_name(v, d.name) {
        v.update(choose|i: int| 0 <= i < v.len() && (#[trigger] v[i]).name == d.name, d)
    } else {
        v.push(d)
    }
}

/// The definitions are in strictly increasing order of name.
pub open spec fn sorted_by_name(v: Seq<SkillDefView>) -> bool {
    forall|a: int, b: int| #![trigger v[a], v[b]] 0 <= a < b < v.len() ==> seq_lt(v[a].name, v[b].name)
}

/// The bytes that the registry hash digests: for each definition in name order, its
/// name, `|`, its content hash and a line feed.
pub open spec fn registry_hash_input(v: Seq<SkillDefView>) -> Seq<u8>
    decreases v.len(),
{
    if v.len() == 0 {
        Seq::empty()
    } else {
        registry_hash_input(v.drop_last()) + vstd::utf8::encode_utf8(v.last().name) + seq![124u8]
            + vstd::utf8::encode_utf8(skill_hash(v.last())) + seq![10u8]
    }
}

/// The value of a registry: its definitions in name order and its hash.
pub struct SkillRegistryView {
    pub defs: Seq<SkillDefView>,
    pub hash: Seq<char>,
}

/// In-memory index of loaded Skill definitions.
#[derive(Debug, PartialEq, Eq)]
pub struct SkillRegistry {
    definitions: Vec<SkillDefinition>,
    names: Vec<String>,
    hash: String,
}

impl View for SkillRegistry {
    type V = SkillRegistryView;

    closed spec fn view(&self) -> SkillRegistryView {
        SkillRegistryView { defs: def_views(self.definitions@), hash: self.hash@ }
    }
}

/// What a registry always satisfies.
pub open spec fn registry_wf(r: SkillRegistryView) -> bool {
    &&& sorted_by_name(r.defs)
    &&& r.hash == labelled_sha256(registry_hash_input(r.defs))
}

impl SkillRegistry {
    #[verifier::type_invariant]
    closed spec fn wf(&self) -> bool {
        &&& registry_wf(self@)
        &&& self.hash@.subrange(0, 7) == crate::digest::sha256_label()
        &&& crate::digest::is_sha256_hex(self.hash@.subrange(7, self.hash@.len() as int))
        &&& self.names@.len() == self.definitions@.len()
        &&& forall|i: int|
            0 <= i < self.names@.len() ==> (#[trigger] self.names@[i])@ == self.definitions@[i].name@
    }

    /// An empty builder.
    pub fn builder() -> (b: SkillRegistryBuilder)
        ensures
            b@ == Seq::<SkillDefView>::empty(),
    {
        SkillRegistryBuilder::default()
    }

    /// The definition named `name`.
    pub fn get(&self, name: &str) -> (r: Option<&SkillDefinition>)
        ensures
            registry_wf(self@),
            r matches Some(d) ==> exists|i: int|
                0 <= i < self@.defs.len() && (#[trigger] self@.defs[i]).name == name@ && self@.defs[i]
                    == d@,
            r is None ==> !has_name(self@.defs, name@),
    {
        proof {
            use_type_invariant(self);
        }
        let mut i: usize = 0;
        while i < self.definitions.len()
            invariant
                i <= self.definitions@.len(),
                registry_wf(self@),
                forall|k: int| 0 <= k < i ==> (#[trigger] self.definitions@[k]).name@ != name@,
            decreases self.definitions@.len() - i,
        {
            if same_text(self.definitions[i].name.as_str(), name) {
                proof {
                    assert(self@.defs[i as int] == self.definitions@[i as int]@);
                }
                return Some(&self.definitions[i]);
            }
            i = i + 1;
        }
        proof {
            assert forall|k: int| 0 <= k < self@.defs.len() implies (#[trigger] self@.defs[k]).name
                != name@ by {
                assert(self@.defs[k] == self.definitions@[k]@);
            }
        }
        None
    }

    /// The names of the definitions, in increasing order.
    pub fn names(&self) -> (r: &[String])
        ensures
            registry_wf(self@),
            r@.len() == self@.defs.len(),
            forall|i: int| 0 <= i < r@.len() ==> (#[trigger] r@[i])@ == self@.defs[i].name,
    {
        proof {
            use_type_invariant(self);
        }
        self.names.as_slice()
    }

    /// The definitions, in increasing order of name.
    pub fn definitions(&self) -> (r: Vec<&SkillDefinition>)
        ensures
            registry_wf(self@),
            r@.len() == self@.defs.len(),
            forall|i: int| 0 <= i < r@.len() ==> (#[trigger] r@[i])@ == self@.defs[i],
    {
        proof {
            use_type_invariant(self);
        }
        let mut r: Vec<&SkillDefinition> = Vec::new();
        let mut i: usize = 0;
        while i < self.definitions.len()
            invariant
                i <= self.definitions@.len(),
                r@.len() == i,
                forall|k: int| 0 <= k < i ==> (#[trigger] r@[k])@ == self.definitions@[k]@,
            decreases self.definitions@.len() - i,
        {
            r.push(&self.definitions[i]);
            i = i + 1;
        }
        r
    }

    /// The number of definitions.
    pub fn len(&self) -> (n: usize)
        ensures
            n == self@.defs.len(),
    {
        self.definitions.len()
    }

    /// Whether the registry has no definition.
    pub fn is_empty(&self) -> (b: bool)
        ensures
            b == (self@.defs.len() == 0),
    {
        self.definitions.len() == 0
    }

    /// The registry hash: `sha256:` and the digest of [`registry_hash_input`].
    pub fn hash(&self) -> (h: &str)
        ensures
            h@ == self@.hash,
            h@.subrange(0, 7) == crate::digest::sha256_label(),
            crate::digest::is_sha256_hex(h@.subrange(7, h@.len() as int)),
    {
        proof {
            use_type_invariant(self);
        }
        self.hash.as_str()
    }
}

/// Collects Skill definitions; a later definition replaces an earlier one of the same name.
pub struct SkillRegistryBuilder {
    definitions: Vec<SkillDefinition>,
}

impl View for SkillRegistryBuilder {
    type V = Seq<SkillDefView>;

    closed spec fn view(&self) -> Seq<SkillDefView> {
        def_views(self.definitions@)
    }
}

impl Default for SkillRegistryBuilder {
    fn default() -> (b: Self)
        ensures
            b@ == Seq::<SkillDefView>::empty(),
    {
        let b = SkillRegistryBuilder { definitions: Vec::new() };
        assert(b@ =~= Seq::<SkillDefView>::empty());
        b
    }
}

impl SkillRegistryBuilder {
    #[verifier::type_invariant]
    closed spec fn wf(&self) -> bool {
        unique_names(def_views(self.definitions@))
    }

    /// Adds a definition, replacing the one with the same name.
    pub fn with_definition(self, def: SkillDefinition) -> (b: Self)
        ensures
            b@ == builder_add(self@, def@),
    {
        let mut b = self;
        b.add(def);
        b
    }

    /// Adds a definition, replacing the one with the same name.
    pub fn add(&mut self, def: SkillDefinition)
        ensures
            final(self)@ == builder_add(old(self)@, def@),
    {
        proof {
            use_type_invariant(&*self);
        }
        let ghost v = self@;
        let mut i: usize = 0;
        while i < self.definitions.len()
            invariant
                i <= self.definitions@.len(),
                v == def_views(self.definitions@),
                v == old(self)@,
                unique_names(v),
                forall|k: int| 0 <= k < i ==> (#[trigger] self.definitions@[k]).name@ != def.name@,
            decreases self.definitions@.len() - i,
        {
            if same_text(self.definitions[i].name.as_str(), def.name.as_str()) {
                let ghost dv = def@;
                proof {
                    lemma_builder_add_replace(v, dv, i as int);
                }
                let mut defs: Vec<SkillDefinition> = Vec::new();
                std::mem::swap(&mut defs, &mut self.definitions);
                defs.set(i, def);
                proof {
                    let nv = def_views(defs@);
                    assert(nv =~= v.update(i as int, dv));
                    assert forall|a: int, b: int|
                        0 <= a < nv.len() && 0 <= b < nv.len() && a != b implies (
                        #[trigger] nv[a]).name != (#[trigger] nv[b]).name by {
                        if a != i && b != i {
                            assert(v[a].name != v[b].name);
                        } else if a == i {
                            assert(v[i as int].name != v[b].name);
                        } else {
                            assert(v[a].name != v[i as int].name);
                        }
                    }
                }
                self.definitions = defs;
                return;
            }
            i = i + 1;
        }
        proof {
            assert forall|k: int| 0 <= k < v.len() implies (#[trigger] v[k]).name != def@.name by {
                assert(v[k] == self.definitions@[k]@);
            }
        }
        let ghost dv = def@;
        let mut defs: Vec<SkillDefinition> = Vec::new();
        std::mem::swap(&mut defs, &mut self.definitions);
        defs.push(def);
        proof {
            let nv = def_views(defs@);
            assert(nv =~= v.push(dv));
            assert forall|a: int, b: int|
                0 <= a < nv.len() && 0 <= b < nv.len() && a != b implies (#[trigger] nv[a]).name != (
                #[trigger] nv[b]).name by {
                if a < v.len() && b < v.len() {
                    assert(v[a].name != v[b].name);
                }
            }
        }
        self.definitions = defs;
    }

    /// The registry of the collected definitions, ordered by name.
    pub fn build(self) -> (r: SkillRegistry)
        ensures
            r@.defs.len() == self@.len(),
            sorted_by_name(r@.defs),
            forall|i: int| 0 <= i < r@.defs.len() ==> self@.contains(#[trigger] r@.defs[i]),
            forall|j: int| 0 <= j < self@.len() ==> r@.defs.contains(#[trigger] self@[j]),
            r@.hash == labelled_sha256(registry_hash_input(r@.defs)),
    {
        proof {
            use_type_invariant(&self);
        }
        let ghost b = self@;
        let definitions = sort_by_name(self.definitions);
        let ghost definitions_view = definitions@;
        let mut names: Vec<String> = Vec::new();
        let mut bytes: Vec<u8> = Vec::new();
        let mut i: usize = 0;
        while i < definitions.len()
            invariant
                i <= definitions@.len(),
                names@.len() == i,
                forall|k: int| 0 <= k < i ==> (#[trigger] names@[k])@ == definitions@[k].name@,
                bytes@ == registry_hash_input(def_views(definitions@).subrange(0, i as int)),
            decreases definitions@.len() - i,
        {
            let d = &definitions[i];
            names.push(d.name.clone());
            let h = d.compute_hash();
            let ghost before = def_views(definitions@).subrange(0, i as int);
            let ghost after = def_views(definitions@).subrange(0, i + 1);
            proof {
                assert(after.drop_last() =~= before);
                assert(after.last() == d@);
            }
            extend_bytes(&mut bytes, d.name.as_str().as_bytes());
            let bar: [u8; 1] = [124u8];
            extend_bytes(&mut bytes, bar.as_slice());
            extend_bytes(&mut bytes, h.as_str().as_bytes());
            let nl: [u8; 1] = [10u8];
            extend_bytes(&mut bytes, nl.as_slice());
            proof {
                assert(bar@ =~= seq![124u8]);
                assert(nl@ =~= seq![10u8]);
                assert(bytes@ =~= registry_hash_input(after));
            }
            i = i + 1;
        }
        proof {
            assert(def_views(definitions@).subrange(0, definitions@.len() as int) =~= def_views(
                definitions@,
            ));
        }
        let hash = labelled_digest(bytes.as_slice());
        let r = SkillRegistry { definitions, names, hash };
        proof {
            assert forall|i: int| 0 <= i < r@.defs.len() implies b.contains(#[trigger] r@.defs[i]) by {
                assert(r@.defs[i] == r.definitions@[i]@);
            }
            assert forall|j: int| 0 <= j < b.len() implies r@.defs.contains(#[trigger] b[j]) by {
                assert(r@.defs == def_views(definitions_view));
            }
        }
        r
    }
}

proof fn lemma_builder_add_replace(v: Seq<SkillDefView>, d: SkillDefView, i: int)
    requires
        unique_names(v),
        0 <= i < v.len(),
        v[i].name == d.name,
    ensures
        builder_add(v, d) == v.update(i, d),
{
    assert(has_name(v, d.name));
    let c = choose|c: int| 0 <= c < v.len() && (#[trigger] v[c]).name == d.name;
    if c != i {
        assert(v[c].name != v[i].name);
    }
}

/// Orders definitions with distinct names by name.
fn sort_by_name(defs: Vec<SkillDefinition>) -> (sorted: Vec<SkillDefinition>)
    requires
        unique_names(def_views(defs@)),
    ensures
        sorted@.len() == defs@.len(),
        sorted_by_name(def_views(sorted@)),
        forall|i: int| 0 <= i < sorted@.len() ==> def_views(defs@).contains(#[trigger] sorted@[i]@),
        forall|j: int| 0 <= j < defs@.len() ==> def_views(sorted@).contains(#[trigger] def_views(defs@)[j]),
{
    let ghost orig = def_views(defs@);
    let mut rest = defs;
    let mut sorted: Vec<SkillDefinition> = Vec::new();
    proof {
        assert(def_views(rest@) == orig);
        assert forall|j: int| 0 <= j < orig.len() implies def_views(rest@).contains(#[trigger] orig[j])
            || def_views(sorted@).contains(orig[j]) by {
            assert(def_views(rest@)[j] == orig[j]);
        }
        assert forall|a: int| 0 <= a < rest@.len() implies orig.contains((#[trigger] rest@[a])@) by {
            assert(orig[a] == rest@[a]@);
        }
        assert forall|a: int, b: int|
            0 <= a < rest@.len() && 0 <= b < rest@.len() && a != b implies (#[trigger] rest@[a]).name@
                != (#[trigger] rest@[b]).name@ by {
            assert(orig[a] == rest@[a]@ && orig[b] == rest@[b]@);
        }
    }
    while rest.len() > 0
        invariant
            rest@.len() + sorted@.len() == orig.len(),
            forall|a: int, b: int|
                0 <= a < rest@.len() && 0 <= b < rest@.len() && a != b ==> (#[trigger] rest@[a]).name@
                    != (#[trigger] rest@[b]).name@,
            forall|a: int, b: int|
                0 <= a < rest@.len() && 0 <= b < sorted@.len() ==> (#[trigger] rest@[a]).name@
                    != (#[trigger] sorted@[b]).name@,
            forall|a: int| 0 <= a < rest@.len() ==> orig.contains((#[trigger] rest@[a])@),
            forall|a: int| 0 <= a < sorted@.len() ==> orig.contains((#[trigger] sorted@[a])@),
            forall|j: int|
                0 <= j < orig.len() ==> def_views(rest@).contains(#[trigger] orig[j]) || def_views(
                    sorted@,
                ).contains(orig[j]),
            forall|a: int, b: int|
                #![trigger sorted@[a], sorted@[b]]
                0 <= a < b < sorted@.len() ==> seq_lt(sorted@[a].name@, sorted@[b].name@),
        decreases rest@.len(),
    {
        let ghost old_rest = rest@;
        let ghost old_sorted = sorted@;
        let x = rest.pop().unwrap();
        proof {
            assert(x == old_rest[old_rest.len() - 1]);
            assert forall|b: int| 0 <= b < old_sorted.len() implies x.name@ != (
            #[trigger] old_sorted[b]).name@ by {
                assert(old_rest[old_rest.len() - 1].name@ != old_sorted[b].name@);
            }
        }
        let mut p: usize = 0;
        while p < sorted.len() && !string_less(&x.name, &sorted[p].name)
            invariant
                p <= sorted@.len(),
                sorted@ == old_sorted,
                forall|b: int| 0 <= b < old_sorted.len() ==> x.name@ != (#[trigger] old_sorted[b]).name@,
                forall|q: int| 0 <= q < p ==> seq_lt((#[trigger] sorted@[q]).name@, x.name@),
            decreases sorted@.len() - p,
        {
            proof {
                crate::text::lemma_seq_lt_total(x.name@, sorted@[p as int].name@);
            }
            p = p + 1;
        }
        let ghost xv = x@;
        let ghost xn = x.name@;
        sorted.insert(p, x);
        proof {
            let ns = sorted@;
            assert(ns == old_sorted.insert(p as int, ns[p as int]));
            assert(ns[p as int].name@ == xn);
            assert forall|a: int, b: int|
                #![trigger ns[a], ns[b]]
                0 <= a < b < ns.len() implies seq_lt(ns[a].name@, ns[b].name@) by {
                if b < p {
                    assert(ns[a] == old_sorted[a] && ns[b] == old_sorted[b]);
                } else if b == p {
                    assert(ns[a] == old_sorted[a]);
                } else if a < p {
                    assert(ns[a] == old_sorted[a] && ns[b] == old_sorted[b - 1]);
                    assert(seq_lt(xn, old_sorted[p as int].name@));
                    if b - 1 > p {
                        crate::text::lemma_seq_lt_transitive(
                            xn,
                            old_sorted[p as int].name@,
                            old_sorted[b - 1].name@,
                        );
                    }
                    crate::text::lemma_seq_lt_transitive(old_sorted[a].name@, xn, old_sorted[b - 1].name@);
                } else if a == p {
                    assert(ns[b] == old_sorted[b - 1]);
                    if b - 1 > p {
                        crate::text::lemma_seq_lt_transitive(
                            xn,
                            old_sorted[p as int].name@,
                            old_sorted[b - 1].name@,
                        );
                    }
                } else {
                    assert(ns[a] == old_sorted[a - 1] && ns[b] == old_sorted[b - 1]);
                }
            }
            let nr = rest@;
            assert(nr == old_rest.drop_last());
            assert forall|a: int, b: int|
                0 <= a < nr.len() && 0 <= b < ns.len() implies (#[trigger] nr[a]).name@ != (
                #[trigger] ns[b]).name@ by {
                assert(nr[a] == old_rest[a]);
                if b < p {
                    assert(ns[b] == old_sorted[b]);
                } else if b == p {
                    assert(old_rest[a].name@ != old_rest[old_rest.len() - 1].name@);
                } else {
                    assert(ns[b] == old_sorted[b - 1]);
                }
            }
            assert forall|a: int| 0 <= a < ns.len() implies orig.contains((#[trigger] ns[a])@) by {
                if a < p {
                    assert(ns[a] == old_sorted[a]);
                } else if a > p {
                    assert(ns[a] == old_sorted[a - 1]);
                } else {
                    assert(old_rest[old_rest.len() - 1]@ == ns[a]@);
                }
            }
            assert forall|j: int| 0 <= j < orig.len() implies def_views(nr).contains(#[trigger] orig[j])
                || def_views(ns).contains(orig[j]) by {
                if def_views(old_rest).contains(orig[j]) {
                    let a = choose|a: int| 0 <= a < old_rest.len() && def_views(old_rest)[a] == orig[j];
                    if a == old_rest.len() - 1 {
                        assert(def_views(ns)[p as int] == orig[j]);
                    } else {
                        assert(def_views(nr)[a] == orig[j]);
                    }
                } else {
                    let a = choose|a: int| 0 <= a < old_sorted.len() && def_views(old_sorted)[a] == orig[j];
                    if a < p {
                        assert(def_views(ns)[a] == orig[j]);
                    } else {
                        assert(def_views(ns)[a + 1] == orig[j]);
                    }
                }
            }
        }
    }
    proof {
        let sv = def_views(sorted@);
        assert forall|a: int, b: int| #![trigger sv[a], sv[b]] 0 <= a < b < sv.len() implies seq_lt(
            sv[a].name,
            sv[b].name,
        ) by {
            assert(sorted@[a].name@ == sv[a].name && sorted@[b].name@ == sv[b].name);
        }
        assert forall|j: int| 0 <= j < defs@.len() implies def_views(sorted@).contains(
            #[trigger] def_views(defs@)[j],
        ) by {
            assert(orig[j] == def_views(defs@)[j]);
            assert(def_views(rest@).len() == 0);
        }
    }
    sorted
}

/// The definition named `name` in `v`.
pub open spec fn def_named(v: Seq<SkillDefView>, name: Seq<char>) -> SkillDefView {
    v[choose|i: int| 0 <= i < v.len() && (#[trigger] v[i]).name == name]
}

/// Whether `out` lists, in strictly increasing order, exactly the names that satisfy `p`.
pub open spec fn lists_exactly(out: Seq<Seq<char>>, p: spec_fn(Seq<char>) -> bool) -> bool {
    &&& forall|a: int, b: int| #![trigger out[a], out[b]] 0 <= a < b < out.len() ==> seq_lt(out[a], out[b])
    &&& forall|a: int| 0 <= a < out.len() ==> p(#[trigger] out[a])
    &&& forall|n: Seq<char>| #[trigger] p(n) ==> out.contains(n)
}

/// Names that `new` has and `old` lacks.
pub open spec fn added_names(old: SkillRegistryView, new: SkillRegistryView) -> spec_fn(Seq<char>) -> bool {
    |n: Seq<char>| has_name(new.defs, n) && !has_name(old.defs, n)
}

/// Names that `old` has and `new` lacks.
pub open spec fn removed_names(old: SkillRegistryView, new: SkillRegistryView) -> spec_fn(Seq<char>) -> bool {
    |n: Seq<char>| has_name(old.defs, n) && !has_name(new.defs, n)
}

/// Names that both have, with different recorded hashes.
pub open spec fn updated_names(old: SkillRegistryView, new: SkillRegistryView) -> spec_fn(Seq<char>) -> bool {
    |n: Seq<char>|
        has_name(new.defs, n) && has_name(old.defs, n) && def_named(new.defs, n).hash != def_named(
            old.defs,
            n,
        ).hash
}

/// Skill additions, updates and removals between two registries.
#[derive(Debug, PartialEq, Eq)]
pub struct SkillChanges {
    /// Names of newly added skills.
    pub added: Vec<String>,
    /// Names of skills whose content changed.
    pub updated: Vec<String>,
    /// Names of skills that were removed.
    pub removed: Vec<String>,
}

/// In a registry no two definitions share a name.
proof fn lemma_sorted_unique(v: Seq<SkillDefView>, a: int, b: int)
    requires
        sorted_by_name(v),
        0 <= a < v.len(),
        0 <= b < v.len(),
        v[a].name == v[b].name,
    ensures
        a == b,
{
    if a < b {
        assert(seq_lt(v[a].name, v[b].name));
        crate::text::lemma_seq_lt_irreflexive(v[a].name);
    } else if b < a {
        assert(seq_lt(v[b].name, v[a].name));
        crate::text::lemma_seq_lt_irreflexive(v[a].name);
    }
}

/// Whether `from` has `n` and `other` lacks it (`missing`), or both have it with different
/// recorded hashes (not `missing`).
pub open spec fn selected(
    from: SkillRegistryView,
    other: SkillRegistryView,
    missing: bool,
    n: Seq<char>,
) -> bool {
    &&& has_name(from.defs, n)
    &&& if missing {
        !has_name(other.defs, n)
    } else {
        has_name(other.defs, n) && def_named(from.defs, n).hash != def_named(other.defs, n).hash
    }
}

/// Decides [`selected`] for the `i`th definition of `from`.
fn keep_name(from: &SkillRegistry, other: &SkillRegistry, missing: bool, i: usize) -> (keep: bool)
    requires
        i < from@.defs.len(),
        sorted_by_name(from@.defs),
        sorted_by_name(other@.defs),
    ensures
        keep == selected(from@, other@, missing, from@.defs[i as int].name),
{
    let d = &from.definitions[i];
    let ghost dv = from@.defs[i as int];
    assert(dv == d@);
    let found = other.get(d.name.as_str());
    let keep = match found {
        None => missing,
        Some(o) => !missing && !same_text(o.hash.as_str(), d.hash.as_str()),
    };
    proof {
        assert(has_name(from@.defs, dv.name));
        let c = choose|c: int| 0 <= c < from@.defs.len() && (#[trigger] from@.defs[c]).name == dv.name;
        lemma_sorted_unique(from@.defs, c, i as int);
        assert(def_named(from@.defs, dv.name) == dv);
        match found {
            Some(o) => {
                let k = choose|k: int|
                    0 <= k < other@.defs.len() && (#[trigger] other@.defs[k]).name == dv.name
                        && other@.defs[k] == o@;
                assert(has_name(other@.defs, dv.name));
                let c2 = choose|c2: int|
                    0 <= c2 < other@.defs.len() && (#[trigger] other@.defs[c2]).name == dv.name;
                lemma_sorted_unique(other@.defs, c2, k);
                assert(def_named(other@.defs, dv.name) == o@);
            },
            None => {},
        }
    }
    keep
}

/// `t` lists, in order, the names among the first `i` of `names` that satisfy `sel`.
#[verifier::opaque]
spec fn selection_of(t: Seq<Seq<char>>, names: Seq<Seq<char>>, i: int, sel: spec_fn(Seq<char>) -> bool) -> bool {
    &&& forall|a: int, b: int| #![trigger t[a], t[b]] 0 <= a < b < t.len() ==> seq_lt(t[a], t[b])
    &&& forall|a: int| 0 <= a < t.len() ==> sel(#[trigger] t[a]) && names.subrange(0, i).contains(t[a])
    &&& forall|k: int| 0 <= k < i && sel(#[trigger] names[k]) ==> t.contains(names[k])
}

proof fn lemma_selection_step(
    t: Seq<Seq<char>>,
    names: Seq<Seq<char>>,
    i: int,
    sel: spec_fn(Seq<char>) -> bool,
    keep: bool,
)
    requires
        0 <= i < names.len(),
        forall|a: int, b: int| #![trigger names[a], names[b]] 0 <= a < b < names.len() ==> seq_lt(names[a], names[b]),
        selection_of(t, names, i, sel),
        keep == sel(names[i]),
    ensures
        selection_of(if keep { t.push(names[i]) } else { t }, names, i + 1, sel),
{
    reveal(selection_of);
    let nt = if keep { t.push(names[i]) } else { t };
    assert forall|a: int, b: int| #![trigger nt[a], nt[b]] 0 <= a < b < nt.len() implies seq_lt(nt[a], nt[b]) by {
        if keep && b == t.len() {
            assert(nt[a] == t[a]);
            assert(names.subrange(0, i).contains(t[a]));
            let k = choose|k: int| 0 <= k < i && names.subrange(0, i)[k] == t[a];
            assert(names[k] == t[a]);
            assert(seq_lt(names[k], names[i]));
        } else {
            assert(nt[a] == t[a] && nt[b] == t[b]);
        }
    }
    assert forall|a: int| 0 <= a < nt.len() implies sel(#[trigger] nt[a]) && names.subrange(0, i + 1).contains(nt[a]) by {
        if keep && a == t.len() {
            assert(names.subrange(0, i + 1)[i] == nt[a]);
        } else {
            assert(nt[a] == t[a]);
            assert(names.subrange(0, i).contains(t[a]));
            let k = choose|k: int| 0 <= k < i && names.subrange(0, i)[k] == t[a];
            assert(names.subrange(0, i + 1)[k] == nt[a]);
        }
    }
    assert forall|k: int| 0 <= k < i + 1 && sel(#[trigger] names[k]) implies nt.contains(names[k]) by {
        if k == i {
            assert(keep);
            assert(nt[t.len() as int] == names[k]);
        } else {
            assert(t.contains(names[k]));
            let a = choose|a: int| 0 <= a < t.len() && t[a] == names[k];
            assert(nt[a] == t[a]);
        }
    }
}

/// The names of the definitions.
pub open spec fn def_names(v: Seq<SkillDefView>) -> Seq<Seq<char>> {
    v.map_values(|d: SkillDefView| d.name)
}

/// The names of `from`, in order, that [`selected`] keeps.
fn select_names(from: &SkillRegistry, other: &SkillRegistry, missing: bool) -> (out: Vec<String>)
    ensures
        forall|a: int, b: int|
            #![trigger out@[a], out@[b]]
            0 <= a < b < out@.len() ==> seq_lt(out@[a]@, out@[b]@),
        forall|a: int| 0 <= a < out@.len() ==> selected(from@, other@, missing, (#[trigger] out@[a])@),
        forall|n: Seq<char>|
            #[trigger] selected(from@, other@, missing, n) ==> crate::text::texts(out@).contains(n),
{
    proof {
        use_type_invariant(from);
        use_type_invariant(other);
    }
    let ghost fd = from@.defs;
    let ghost names = def_names(fd);
    let ghost sel = |n: Seq<char>| selected(from@, other@, missing, n);
    let mut out: Vec<String> = Vec::new();
    proof {
        reveal(selection_of);
        assert forall|a: int, b: int| #![trigger names[a], names[b]] 0 <= a < b < names.len() implies seq_lt(
            names[a],
            names[b],
        ) by {
            assert(names[a] == fd[a].name && names[b] == fd[b].name);
        }
    }
    let mut i: usize = 0;
    while i < from.definitions.len()
        invariant
            i <= fd.len(),
            fd == from@.defs,
            names == def_names(fd),
            sel == (|n: Seq<char>| selected(from@, other@, missing, n)),
            fd.len() == from.definitions@.len(),
            sorted_by_name(fd),
            sorted_by_name(other@.defs),
            forall|a: int, b: int| #![trigger names[a], names[b]] 0 <= a < b < names.len() ==> seq_lt(names[a], names[b]),
            selection_of(crate::text::texts(out@), names, i as int, sel),
        decreases fd.len() - i,
    {
        let keep = keep_name(from, other, missing, i);
        let ghost t = crate::text::texts(out@);
        proof {
            assert(names[i as int] == fd[i as int].name);
            lemma_selection_step(t, names, i as int, sel, keep);
        }
        if keep {
            out.push(from.definitions[i].name.clone());
            proof {
                assert(crate::text::texts(out@) =~= t.push(names[i as int]));
            }
        }
        i = i + 1;
    }
    proof {
        reveal(selection_of);
        let t = crate::text::texts(out@);
        assert forall|n: Seq<char>| #[trigger] selected(from@, other@, missing, n) implies t.contains(n) by {
            let k = choose|k: int| 0 <= k < fd.len() && (#[trigger] fd[k]).name == n;
            assert(names[k] == n);
            assert(sel(names[k]));
        }
        assert forall|a: int| 0 <= a < out@.len() implies selected(from@, other@, missing, (#[trigger] out@[a])@) by {
            assert(t[a] == out@[a]@);
        }
        assert forall|a: int, b: int|
            #![trigger out@[a], out@[b]]
            0 <= a < b < out@.len() implies seq_lt(out@[a]@, out@[b]@) by {
            assert(t[a] == out@[a]@ && t[b] == out@[b]@);
        }
    }
    out
}

/// [`lists_exactly`] of a predicate, from what [`select_names`] ensures.
proof fn lemma_lists_exactly(
    out: Seq<String>,
    from: SkillRegistryView,
    other: SkillRegistryView,
    missing: bool,
    p: spec_fn(Seq<char>) -> bool,
)
    requires
        forall|a: int, b: int| #![trigger out[a], out[b]] 0 <= a < b < out.len() ==> seq_lt(out[a]@, out[b]@),
        forall|a: int| 0 <= a < out.len() ==> selected(from, other, missing, (#[trigger] out[a])@),
        forall|n: Seq<char>|
            #[trigger] selected(from, other, missing, n) ==> crate::text::texts(out).contains(n),
        forall|n: Seq<char>| #[trigger] p(n) == selected(from, other, missing, n),
    ensures
        lists_exactly(crate::text::texts(out), p),
{
    let t = crate::text::texts(out);
    assert forall|a: int, b: int| #![trigger t[a], t[b]] 0 <= a < b < t.len() implies seq_lt(t[a], t[b]) by {
        assert(t[a] == out[a]@ && t[b] == out[b]@);
    }
    assert forall|a: int| 0 <= a < t.len() implies p(#[trigger] t[a]) by {
        assert(t[a] == out[a]@);
        assert(selected(from, other, missing, out[a]@));
    }
    assert forall|n: Seq<char>| #[trigger] p(n) implies t.contains(n) by {
        assert(selected(from, other, missing, n));
    }
}

/// The Skills added, updated and removed from `old` to `new`, each list in increasing
/// order of name; `None` when nothing changed.
pub fn detect_skill_changes(old: &SkillRegistry, new: &SkillRegistry) -> (r: Option<SkillChanges>)
    ensures
        r matches Some(c) ==> {
            &&& lists_exactly(crate::text::texts(c.added@), added_names(old@, new@))
            &&& lists_exactly(crate::text::texts(c.updated@), updated_names(old@, new@))
            &&& lists_exactly(crate::text::texts(c.removed@), removed_names(old@, new@))
            &&& (c.added@.len() > 0 || c.updated@.len() > 0 || c.removed@.len() > 0)
        },
        r is None ==> forall|n: Seq<char>|
            !(#[trigger] added_names(old@, new@)(n)) && !updated_names(old@, new@)(n)
                && !removed_names(old@, new@)(n),
{
    let added = select_names(new, old, true);
    let removed = select_names(old, new, true);
    let updated = select_names(new, old, false);
    proof {
        lemma_lists_exactly(added@, new@, old@, true, added_names(old@, new@));
        lemma_lists_exactly(removed@, old@, new@, true, removed_names(old@, new@));
        assert forall|n: Seq<char>| #[trigger] updated_names(old@, new@)(n) == selected(
            new@,
            old@,
            false,
            n,
        ) by {}
        lemma_lists_exactly(updated@, new@, old@, false, updated_names(old@, new@));
    }
    if added.len() == 0 && updated.len() == 0 && removed.len() == 0 {
        proof {
            assert forall|n: Seq<char>|
                !(#[trigger] added_names(old@, new@)(n)) && !updated_names(old@, new@)(n)
                    && !removed_names(old@, new@)(n) by {
                if added_names(old@, new@)(n) {
                    assert(crate::text::texts(added@).contains(n));
                }
                if updated_names(old@, new@)(n) {
                    assert(crate::text::texts(updated@).contains(n));
                }
                if removed_names(old@, new@)(n) {
                    assert(crate::text::texts(removed@).contains(n));
                }
            }
        }
        None
    } else {
        Some(SkillChanges { added, updated, removed })
    }
}

/// In a list sorted by name, two entries with the same name are the same entry.
pub proof fn lemma_sorted_unique_names(v: Seq<SkillDefView>, a: int, b: int)
    requires
        sorted_by_name(v),
        0 <= a < v.len(),
        0 <= b < v.len(),
        v[a].name == v[b].name,
    ensures
        a == b,
{
    lemma_sorted_unique(v, a, b);
}


/// The definitions that a builder holds after `ds` were added in order to an empty one.
pub open spec fn builder_fold(ds: Seq<SkillDefView>) -> Seq<SkillDefView>
    decreases ds.len(),
{
    if ds.len() == 0 {
        Seq::empty()
    } else {
        builder_add(builder_fold(ds.drop_last()), ds.last())
    }
}

/// Whether `ds[i]` is the last of `ds` with its name.
pub open spec fn last_of_its_name(ds: Seq<SkillDefView>, i: int) -> bool {
    forall|j: int| i < j < ds.len() ==> (#[trigger] ds[j]).name != ds[i].name
}

proof fn lemma_builder_fold(ds: Seq<SkillDefView>)
    ensures
        unique_names(builder_fold(ds)),
        forall|n: Seq<char>|
            has_name(builder_fold(ds), n) <==> exists|i: int| 0 <= i < ds.len() && (#[trigger] ds[i]).name == n,
        builder_fold(ds).len() == 0 <==> ds.len() == 0,
        forall|i: int|
            0 <= i < ds.len() && last_of_its_name(ds, i) ==> builder_fold(ds).contains(#[trigger] ds[i]),
    decreases ds.len(),
{
    if ds.len() > 0 {
        let init = ds.drop_last();
        let d = ds.last();
        let v = builder_fold(init);
        lemma_builder_fold(init);
        let w = builder_fold(ds);
        assert(w == builder_add(v, d));
        if has_name(v, d.name) {
            let c = choose|c: int| 0 <= c < v.len() && (#[trigger] v[c]).name == d.name;
            lemma_builder_add_replace(v, d, c);
            assert(w == v.update(c, d));
            assert forall|a: int, b: int|
                0 <= a < w.len() && 0 <= b < w.len() && a != b implies (#[trigger] w[a]).name != (
                #[trigger] w[b]).name by {
                if a == c {
                    assert(v[b].name != v[c].name);
                } else if b == c {
                    assert(v[a].name != v[c].name);
                } else {
                    assert(v[a].name != v[b].name);
                }
            }
            assert forall|n: Seq<char>| has_name(w, n) <==> exists|i: int|
                0 <= i < ds.len() && (#[trigger] ds[i]).name == n by {
                if has_name(w, n) {
                    let k = choose|k: int| 0 <= k < w.len() && (#[trigger] w[k]).name == n;
                    if k == c {
                        assert(ds[ds.len() - 1].name == n);
                    } else {
                        assert(v[k].name == n);
                        assert(has_name(v, n));
                        let i = choose|i: int| 0 <= i < init.len() && (#[trigger] init[i]).name == n;
                        assert(ds[i] == init[i]);
                    }
                }
                if exists|i: int| 0 <= i < ds.len() && (#[trigger] ds[i]).name == n {
                    let i = choose|i: int| 0 <= i < ds.len() && (#[trigger] ds[i]).name == n;
                    if i == ds.len() - 1 {
                        assert(w[c].name == n);
                    } else {
                        assert(init[i].name == n);
                        assert(has_name(v, n));
                        let k = choose|k: int| 0 <= k < v.len() && (#[trigger] v[k]).name == n;
                        if k == c {
                            assert(w[c].name == d.name);
                        } else {
                            assert(w[k].name == n);
                        }
                    }
                }
            }
            assert forall|i: int| 0 <= i < ds.len() && last_of_its_name(ds, i) implies w.contains(
                #[trigger] ds[i],
            ) by {
                if i == ds.len() - 1 {
                    assert(w[c] == ds[i]);
                } else {
                    assert(ds[ds.len() - 1].name != ds[i].name);
                    assert forall|j: int| i < j < init.len() implies (#[trigger] init[j]).name != init[i].name by {
                        assert(init[j] == ds[j]);
                    }
                    assert(init[i] == ds[i]);
                    assert(v.contains(init[i]));
                    let k = choose|k: int| 0 <= k < v.len() && v[k] == init[i];
                    assert(k != c);
                    assert(w[k] == ds[i]);
                }
            }
        } else {
            assert(w == v.push(d));
            assert forall|a: int, b: int|
                0 <= a < w.len() && 0 <= b < w.len() && a != b implies (#[trigger] w[a]).name != (
                #[trigger] w[b]).name by {
                if a == v.len() {
                    assert(!(v[b].name == d.name));
                } else if b == v.len() {
                    assert(!(v[a].name == d.name));
                } else {
                    assert(v[a].name != v[b].name);
                }
            }
            assert forall|n: Seq<char>| has_name(w, n) <==> exists|i: int|
                0 <= i < ds.len() && (#[trigger] ds[i]).name == n by {
                if has_name(w, n) {
                    let k = choose|k: int| 0 <= k < w.len() && (#[trigger] w[k]).name == n;
                    if k == v.len() {
                        assert(ds[ds.len() - 1].name == n);
                    } else {
                        assert(v[k].name == n);
                        assert(has_name(v, n));
                        let i = choose|i: int| 0 <= i < init.len() && (#[trigger] init[i]).name == n;
                        assert(ds[i] == init[i]);
                    }
                }
                if exists|i: int| 0 <= i < ds.len() && (#[trigger] ds[i]).name == n {
                    let i = choose|i: int| 0 <= i < ds.len() && (#[trigger] ds[i]).name == n;
                    if i == ds.len() - 1 {
                        assert(w[v.len() as int].name == n);
                    } else {
                        assert(init[i].name == n);
                        assert(has_name(v, n));
                        let k = choose|k: int| 0 <= k < v.len() && (#[trigger] v[k]).name == n;
                        assert(w[k].name == n);
                    }
                }
            }
            assert forall|i: int| 0 <= i < ds.len() && last_of_its_name(ds, i) implies w.contains(
                #[trigger] ds[i],
            ) by {
                if i == ds.len() - 1 {
                    assert(w[v.len() as int] == ds[i]);
                } else {
                    assert forall|j: int| i < j < init.len() implies (#[trigger] init[j]).name != init[i].name by {
                        assert(init[j] == ds[j]);
                    }
                    assert(init[i] == ds[i]);
                    assert(v.contains(init[i]));
                    let k = choose|k: int| 0 <= k < v.len() && v[k] == init[i];
                    assert(w[k] == ds[i]);
                }
            }
        }
    }
}

/// A registry built from definitions added in order to an empty builder (the registry that
/// `build` gives for such a builder) holds exactly the names that were added, each with the
/// last definition added under it, in strictly increasing order of name; it is empty exactly
/// when nothing was added.
pub proof fn law_registry_from_definitions(ds: Seq<SkillDefView>, r: SkillRegistryView)
    requires
        r.defs.len() == builder_fold(ds).len(),
        sorted_by_name(r.defs),
        forall|i: int| 0 <= i < r.defs.len() ==> builder_fold(ds).contains(#[trigger] r.defs[i]),
        forall|j: int|
            0 <= j < builder_fold(ds).len() ==> r.defs.contains(#[trigger] builder_fold(ds)[j]),
    ensures
        forall|n: Seq<char>|
            has_name(r.defs, n) <==> exists|i: int| 0 <= i < ds.len() && (#[trigger] ds[i]).name == n,
        forall|i: int| 0 <= i < ds.len() && last_of_its_name(ds, i) ==> r.defs.contains(#[trigger] ds[i]),
        r.defs.len() == 0 <==> ds.len() == 0,
        forall|a: int, b: int|
            #![trigger r.defs[a], r.defs[b]]
            0 <= a < b < r.defs.len() ==> seq_lt(r.defs[a].name, r.defs[b].name),
{
    let f = builder_fold(ds);
    lemma_builder_fold(ds);
    assert forall|n: Seq<char>| has_name(r.defs, n) <==> has_name(f, n) by {
        if has_name(r.defs, n) {
            let k = choose|k: int| 0 <= k < r.defs.len() && (#[trigger] r.defs[k]).name == n;
            assert(f.contains(r.defs[k]));
            let m = choose|m: int| 0 <= m < f.len() && f[m] == r.defs[k];
            assert(f[m].name == n);
        }
        if has_name(f, n) {
            let k = choose|k: int| 0 <= k < f.len() && (#[trigger] f[k]).name == n;
            assert(r.defs.contains(f[k]));
            let m = choose|m: int| 0 <= m < r.defs.len() && r.defs[m] == f[k];
            assert(r.defs[m].name == n);
        }
    }
    assert forall|n: Seq<char>| has_name(r.defs, n) <==> exists|i: int|
        0 <= i < ds.len() && (#[trigger] ds[i]).name == n by {
        assert(has_name(r.defs, n) <==> has_name(f, n));
        assert(has_name(f, n) <==> exists|i: int| 0 <= i < ds.len() && (#[trigger] ds[i]).name == n);
    }
    assert forall|i: int| 0 <= i < ds.len() && last_of_its_name(ds, i) implies r.defs.contains(
        #[trigger] ds[i],
    ) by {
        assert(f.contains(ds[i]));
        let m = choose|m: int| 0 <= m < f.len() && f[m] == ds[i];
        assert(r.defs.contains(f[m]));
    }
}

} // verus!
