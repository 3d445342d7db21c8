//! The bootstrap Skill of a turn: the Skills loaded before the first request, restored
//! from the turn's Skill snapshot when a turn resumes.

use vstd::prelude::*;

use crate::skill::definition::SkillDefView;
use crate::skill::registry::{has_name, lemma_sorted_unique_names, registry_wf, SkillRegistry};
use crate::text::{join, join_strings, texts};

verus! {

/// Skill instructions loaded into a turn before its first request.
#[derive(Debug, Clone, PartialEq, Eq)]
pub struct BootstrapSkill {
    /// The Skill's name, when exactly one Skill was loaded.
    pub name: Option<String>,
    pub body: String,
}

/// The Skills a turn saw: the registry snapshot and the bootstrap Skills it loaded.
#[derive(Debug, PartialEq, Eq)]
pub struct TurnSkillSnapshot {
    pub conversation: String,
    pub registry: SkillRegistry,
    pub bootstrap_loaded: Vec<String>,
}

/// The names that a bootstrap Skill records as loaded: its name, when it has one.
pub fn bootstrap_loaded_names(bootstrap_skill: Option<&BootstrapSkill>) -> (r: Vec<String>)
    ensures
        texts(r@) == match bootstrap_skill {
            Some(b) => match b.name {
                Some(n) => seq![n@],
                None => Seq::empty(),
            },
            None => Seq::<Seq<char>>::empty(),
        },
{
    let mut r: Vec<String> = Vec::new();
    if let Some(b) = bootstrap_skill {
        if let Some(n) = &b.name {
            r.push(n.clone());
        }
    }
    proof {
        assert(texts(r@) =~= match bootstrap_skill {
            Some(b) => match b.name {
                Some(n) => seq![n@],
                None => Seq::empty(),
            },
            None => Seq::<Seq<char>>::empty(),
        });
    }
    r
}

/// The definition named `name` among `defs`.
pub open spec fn named(defs: Seq<SkillDefView>, name: Seq<char>) -> SkillDefView {
    defs[choose|i: int| 0 <= i < defs.len() && (#[trigger] defs[i]).name == name]
}

/// The text that loads a Skill: a marker with its directory, a blank line and its
/// instructions.
pub open spec fn loaded_block(d: SkillDefView) -> Seq<char> {
    "<!-- loaded: "@ + match d.source_path {
        Some(p) => p,
        None => Seq::empty(),
    } + " -->\n\n"@ + d.instructions
}

/// The bootstrap Skill that a snapshot restores: the loading text of each Skill it
/// loaded, in order, blank-line separated, named when there is only one. Nothing when it
/// loaded none, or when a loaded Skill is not in its registry.
pub open spec fn restored_bootstrap(defs: Seq<SkillDefView>, names: Seq<Seq<char>>) -> Option<
    (Option<Seq<char>>, Seq<char>),
> {
    if exists|k: int| 0 <= k < names.len() && !has_name(defs, #[trigger] names[k]) {
        None
    } else if names.len() == 0 {
        None
    } else {
        Some(
            (
                if names.len() == 1 {
                    Some(names[0])
                } else {
                    None
                },
                join(names.map_values(|n: Seq<char>| loaded_block(named(defs, n))), "\n\n"@),
            ),
        )
    }
}

/// Restores the bootstrap Skill of a resumed turn from its Skill snapshot.
pub fn restore_bootstrap_skill(snapshot: &TurnSkillSnapshot) -> (r: Option<BootstrapSkill>)
    ensures
        match r {
            Some(b) => restored_bootstrap(snapshot.registry@.defs, texts(snapshot.bootstrap_loaded@))
                == Some(
                (
                    match b.name {
                        Some(n) => Some(n@),
                        None => None,
                    },
                    b.body@,
                ),
            ),
            None => restored_bootstrap(snapshot.registry@.defs, texts(snapshot.bootstrap_loaded@))
                is None,
        },
{
    let ghost defs = snapshot.registry@.defs;
    let ghost names = texts(snapshot.bootstrap_loaded@);
    let ghost blocks = names.map_values(|n: Seq<char>| loaded_block(named(defs, n)));
    let mut restored: Vec<String> = Vec::new();
    let mut i: usize = 0;
    while i < snapshot.bootstrap_loaded.len()
        invariant
            i <= names.len(),
            names == texts(snapshot.bootstrap_loaded@),
            defs == snapshot.registry@.defs,
            blocks == names.map_values(|n: Seq<char>| loaded_block(named(defs, n))),
            restored@.len() == i,
            forall|k: int| 0 <= k < i ==> has_name(defs, #[trigger] names[k]),
            forall|k: int| 0 <= k < i ==> (#[trigger] restored@[k])@ == blocks[k],
        decreases names.len() - i,
    {
        let skill_name = &snapshot.bootstrap_loaded[i];
        let definition = match snapshot.registry.get(skill_name.as_str()) {
            Some(d) => d,
            None => {
                proof {
                    assert(names[i as int] == skill_name@);
                    assert(!has_name(defs, names[i as int]));
                }
                return None;
            },
        };
        proof {
            assert(names[i as int] == skill_name@);
            let j = choose|j: int|
                0 <= j < defs.len() && (#[trigger] defs[j]).name == skill_name@ && defs[j] == definition@;
            let c = choose|c: int| 0 <= c < defs.len() && (#[trigger] defs[c]).name == skill_name@;
            lemma_sorted_unique_names(defs, j, c);
            assert(named(defs, skill_name@) == definition@);
        }
        let mut block = String::from_str("<!-- loaded: ");
        match &definition.source_path {
            Some(p) => {
                block.append(p.as_str());
            },
            None => {},
        }
        block.append(" -->\n\n");
        block.append(definition.instructions.as_str());
        proof {
            reveal_strlit("<!-- loaded: ");
            reveal_strlit(" -->\n\n");
            assert(block@ =~= loaded_block(definition@));
        }
        restored.push(block);
        i = i + 1;
    }
    proof {
        assert(!exists|k: int| 0 <= k < names.len() && !has_name(defs, #[trigger] names[k]));
    }
    if restored.len() == 0 {
        return None;
    }
    let name = if snapshot.bootstrap_loaded.len() == 1 {
        Some(snapshot.bootstrap_loaded[0].clone())
    } else {
        None
    };
    let body = join_strings(restored.as_slice(), "\n\n");
    proof {
        reveal_strlit("\n\n");
        assert(texts(restored@) =~= blocks);
    }
    Some(BootstrapSkill { name, body })
}

} // verus!
