//! Skill definitions and their content hash.

use vstd::prelude::*;

use crate::digest::{labelled_digest, labelled_sha256};
use crate::json::{JsonValue, JsonView};
use crate::text::{decimal, join, join_strings, texts, u64_to_decimal};

verus! {

/// Where a Skill was discovered.
#[derive(Debug, Clone, Copy, PartialEq, Eq, Hash, Structural)]
pub enum SkillSource {
    KukuUser,
    KukuProject,
    ClaudeCodeUser,
    ClaudeCodeProject,
    OpenCodeUser,
    OpenCodeProject,
}

/// The name under which a source is written.
pub open spec fn source_name(s: SkillSource) -> Seq<char> {
    match s {
        SkillSource::KukuUser => "kuku:user"@,
        SkillSource::KukuProject => "kuku:project"@,
        SkillSource::ClaudeCodeUser => "claude_code:user"@,
        SkillSource::ClaudeCodeProject => "claude_code:project"@,
        SkillSource::OpenCodeUser => "opencode:user"@,
        SkillSource::OpenCodeProject => "opencode:project"@,
    }
}

impl SkillSource {
    /// The name under which this source is written.
    pub fn as_str(&self) -> (r: &'static str)
        ensures
            r@ == source_name(*self),
    {
        match self {
            SkillSource::KukuUser => "kuku:user",
            SkillSource::KukuProject => "kuku:project",
            SkillSource::ClaudeCodeUser => "claude_code:user",
            SkillSource::ClaudeCodeProject => "claude_code:project",
            SkillSource::OpenCodeUser => "opencode:user",
            SkillSource::OpenCodeProject => "opencode:project",
        }
    }
}

/// A Skill: instructions that the model may load on demand.
#[derive(Debug, PartialEq, Eq)]
pub struct SkillDefinition {
    pub name: String,
    pub description: String,
    pub instructions: String,
    pub source: SkillSource,
    pub hash: String,
    pub source_path: Option<String>,
    pub allowed_tools: Option<Vec<String>>,
    pub disallowed_tools: Option<Vec<String>>,
    pub max_turns: Option<u32>,
    pub model: Option<String>,
    pub license: Option<String>,
    pub compatibility: Option<String>,
    pub metadata: JsonValue,
}

/// The value of a [`SkillDefinition`].
pub struct SkillDefView {
    pub name: Seq<char>,
    pub description: Seq<char>,
    pub instructions: Seq<char>,
    pub source: SkillSource,
    pub hash: Seq<char>,
    pub source_path: Option<Seq<char>>,
    pub allowed_tools: Option<Seq<Seq<char>>>,
    pub disallowed_tools: Option<Seq<Seq<char>>>,
    pub max_turns: Option<u32>,
    pub model: Option<Seq<char>>,
    pub license: Option<Seq<char>>,
    pub compatibility: Option<Seq<char>>,
    pub metadata: JsonView,
}

/// The text of an optional string.
pub open spec fn opt_text(s: Option<String>) -> Option<Seq<char>> {
    match s {
        Some(t) => Some(t@),
        None => None,
    }
}

/// The texts of an optional list of strings.
pub open spec fn opt_texts(v: Option<Vec<String>>) -> Option<Seq<Seq<char>>> {
    match v {
        Some(l) => Some(texts(l@)),
        None => None,
    }
}

impl View for SkillDefinition {
    type V = SkillDefView;

    open spec fn view(&self) -> SkillDefView {
        SkillDefView {
            name: self.name@,
            description: self.description@,
            instructions: self.instructions@,
            source: self.source,
            hash: self.hash@,
            source_path: opt_text(self.source_path),
            allowed_tools: opt_texts(self.allowed_tools),
            disallowed_tools: opt_texts(self.disallowed_tools),
            max_turns: self.max_turns,
            model: opt_text(self.model),
            license: opt_text(self.license),
            compatibility: opt_text(self.compatibility),
            metadata: self.metadata@,
        }
    }
}

/// An optional list joined with commas, or nothing.
pub open spec fn joined_or_empty(v: Option<Seq<Seq<char>>>) -> Seq<char> {
    match v {
        Some(l) => join(l, seq![',']),
        None => Seq::empty(),
    }
}

/// An optional text, or nothing.
pub open spec fn text_or_empty(v: Option<Seq<char>>) -> Seq<char> {
    match v {
        Some(t) => t,
        None => Seq::empty(),
    }
}

/// The fields that the content hash covers, separated by `|`: name, description,
/// instructions, allowed tools, disallowed tools, turn limit, model, license and
/// compatibility. The source and the path are not covered.
pub open spec fn canonical_text(d: SkillDefView) -> Seq<char> {
    let bar = seq!['|'];
    d.name + bar + d.description + bar + d.instructions + bar + joined_or_empty(d.allowed_tools)
        + bar + joined_or_empty(d.disallowed_tools) + bar + (match d.max_turns {
        Some(n) => decimal(n as nat),
        None => Seq::empty(),
    }) + bar + text_or_empty(d.model) + bar + text_or_empty(d.license) + bar + text_or_empty(
        d.compatibility,
    )
}

/// The content hash of a definition.
pub open spec fn skill_hash(d: SkillDefView) -> Seq<char> {
    labelled_sha256(vstd::utf8::encode_utf8(canonical_text(d)))
}

/// A copy of an optional string.
pub fn copy_opt(s: &Option<String>) -> (r: Option<String>)
    ensures
        opt_text(r) == opt_text(*s),
{
    match s {
        Some(t) => Some(t.clone()),
        None => None,
    }
}

/// A copy of a list of strings.
pub fn copy_strings(v: &Vec<String>) -> (r: Vec<String>)
    ensures
        texts(r@) == texts(v@),
{
    let mut out: Vec<String> = Vec::new();
    let mut i: usize = 0;
    while i < v.len()
        invariant
            i <= v@.len(),
            out@.len() == i,
            forall|k: int| 0 <= k < i ==> (#[trigger] out@[k])@ == v@[k]@,
        decreases v@.len() - i,
    {
        out.push(v[i].clone());
        i = i + 1;
    }
    proof {
        assert(texts(out@) =~= texts(v@));
    }
    out
}

fn copy_opt_strings(v: &Option<Vec<String>>) -> (r: Option<Vec<String>>)
    ensures
        opt_texts(r) == opt_texts(*v),
{
    match v {
        Some(l) => Some(copy_strings(l)),
        None => None,
    }
}

fn append_joined(out: &mut String, v: &Option<Vec<String>>)
    ensures
        final(out)@ == old(out)@ + joined_or_empty(opt_texts(*v)),
{
    match v {
        Some(l) => {
            let j = join_strings(l.as_slice(), ",");
            proof {
                reveal_strlit(",");
                assert(","@ =~= seq![',']);
            }
            out.append(j.as_str());
        },
        None => {
            proof {
                assert(out@ + Seq::<char>::empty() =~= out@);
            }
        },
    }
}

fn append_opt(out: &mut String, v: &Option<String>)
    ensures
        final(out)@ == old(out)@ + text_or_empty(opt_text(*v)),
{
    match v {
        Some(t) => {
            out.append(t.as_str());
        },
        None => {
            proof {
                assert(out@ + Seq::<char>::empty() =~= out@);
            }
        },
    }
}

impl SkillDefinition {
    /// A copy of this definition.
    pub fn duplicate(&self) -> (r: SkillDefinition)
        ensures
            r@ == self@,
    {
        SkillDefinition {
            name: self.name.clone(),
            description: self.description.clone(),
            instructions: self.instructions.clone(),
            source: self.source,
            hash: self.hash.clone(),
            source_path: copy_opt(&self.source_path),
            allowed_tools: copy_opt_strings(&self.allowed_tools),
            disallowed_tools: copy_opt_strings(&self.disallowed_tools),
            max_turns: self.max_turns,
            model: copy_opt(&self.model),
            license: copy_opt(&self.license),
            compatibility: copy_opt(&self.compatibility),
            metadata: self.metadata.duplicate(),
        }
    }

    /// The text that the content hash is computed over.
    pub fn canonical(&self) -> (s: String)
        ensures
            s@ == canonical_text(self@),
    {
        let mut s = String::new();
        let bar = "|";
        proof {
            reveal_strlit("|");
            assert(bar@ =~= seq!['|']);
        }
        s.append(self.name.as_str());
        s.append(bar);
        s.append(self.description.as_str());
        s.append(bar);
        s.append(self.instructions.as_str());
        s.append(bar);
        append_joined(&mut s, &self.allowed_tools);
        s.append(bar);
        append_joined(&mut s, &self.disallowed_tools);
        s.append(bar);
        match self.max_turns {
            Some(n) => {
                let d = u64_to_decimal(n as u64);
                s.append(d.as_str());
            },
            None => {
                proof {
                    assert(s@ + Seq::<char>::empty() =~= s@);
                }
            },
        }
        s.append(bar);
        append_opt(&mut s, &self.model);
        s.append(bar);
        append_opt(&mut s, &self.license);
        s.append(bar);
        append_opt(&mut s, &self.compatibility);
        proof {
            assert(s@ =~= canonical_text(self@));
        }
        s
    }

    /// The content hash: `sha256:` and the SHA-256 digest of [`canonical_text`].
    pub fn compute_hash(&self) -> (h: String)
        ensures
            h@ == skill_hash(self@),
            h@.subrange(0, 7) == crate::digest::sha256_label(),
            crate::digest::is_sha256_hex(h@.subrange(7, h@.len() as int)),
    {
        let canonical = self.canonical();
        labelled_digest(canonical.as_str().as_bytes())
    }
}

} // verus!
