//! Text matching for Skill search: case folding, words, lines, headings and the score of
//! a definition for a query.

use vstd::prelude::*;

use crate::json::{json_str_field, JsonValue};
use crate::skill::definition::{SkillDefView, SkillDefinition};
use crate::text::{chars_of, is_whitespace, is_whitespace_spec, join, string_from_chars, trim, trim_chars, trim_start};

verus! {

/// The lowercase mapping of `c` (`char::to_lowercase`): one or more characters.
pub uninterp spec fn lowercase_of(c: char) -> Seq<char>;

/// Collects `char::to_lowercase` of `c`. The contract only names the result.
#[verifier::external_body]
fn lowercase_char(c: char) -> (r: Vec<char>)
    ensures
        r@ == lowercase_of(c),
{
    c.to_lowercase().collect()
}

/// `s` with every character replaced by its lowercase mapping.
pub open spec fn normalized(s: Seq<char>) -> Seq<char>
    decreases s.len(),
{
    if s.len() == 0 {
        Seq::empty()
    } else {
        normalized(s.drop_last()) + lowercase_of(s.last())
    }
}

/// The lowercase form of `value`, character by character.
pub fn normalize(value: &str) -> (r: Vec<char>)
    ensures
        r@ == normalized(value@),
{
    let c = chars_of(value);
    let mut out: Vec<char> = Vec::new();
    let mut i: usize = 0;
    while i < c.len()
        invariant
            i <= c@.len(),
            c@ == value@,
            out@ == normalized(c@.subrange(0, i as int)),
        decreases c@.len() - i,
    {
        let low = lowercase_char(c[i]);
        crate::text::extend_chars(&mut out, low.as_slice());
        proof {
            assert(c@.subrange(0, i + 1).drop_last() =~= c@.subrange(0, i as int));
        }
        i = i + 1;
    }
    proof {
        assert(c@.subrange(0, c@.len() as int) =~= c@);
    }
    out
}

/// The words found so far and the word being read, after the characters `s`.
pub open spec fn words_acc(s: Seq<char>) -> (Seq<Seq<char>>, Seq<char>)
    decreases s.len(),
{
    if s.len() == 0 {
        (Seq::empty(), Seq::empty())
    } else {
        let (done, cur) = words_acc(s.drop_last());
        if is_whitespace_spec(s.last()) {
            if cur.len() > 0 {
                (done.push(cur), Seq::empty())
            } else {
                (done, cur)
            }
        } else {
            (done, cur.push(s.last()))
        }
    }
}

/// The maximal runs of non-whitespace characters of `s` (`str::split_whitespace`).
pub open spec fn words(s: Seq<char>) -> Seq<Seq<char>> {
    let (done, cur) = words_acc(s);
    if cur.len() > 0 {
        done.push(cur)
    } else {
        done
    }
}

/// The words of `s`.
pub fn split_words(s: &[char]) -> (r: Vec<Vec<char>>)
    ensures
        r@.len() == words(s@).len(),
        forall|i: int| 0 <= i < r@.len() ==> (#[trigger] r@[i])@ == words(s@)[i],
{
    let mut done: Vec<Vec<char>> = Vec::new();
    let mut cur: Vec<char> = Vec::new();
    let mut i: usize = 0;
    while i < s.len()
        invariant
            i <= s@.len(),
            done@.len() == words_acc(s@.subrange(0, i as int)).0.len(),
            forall|k: int| 0 <= k < done@.len() ==> (#[trigger] done@[k])@ == words_acc(
                s@.subrange(0, i as int),
            ).0[k],
            cur@ == words_acc(s@.subrange(0, i as int)).1,
        decreases s@.len() - i,
    {
        proof {
            assert(s@.subrange(0, i + 1).drop_last() =~= s@.subrange(0, i as int));
        }
        if is_whitespace(s[i]) {
            if cur.len() > 0 {
                let w = cur;
                done.push(w);
                cur = Vec::new();
                proof {
                    assert(cur@ =~= Seq::<char>::empty());
                }
            }
        } else {
            cur.push(s[i]);
        }
        i = i + 1;
    }
    proof {
        assert(s@.subrange(0, s@.len() as int) =~= s@);
    }
    if cur.len() > 0 {
        done.push(cur);
    }
    done
}

/// Whether `needle` occurs in `hay` (an empty needle occurs everywhere).
pub open spec fn contains_text(hay: Seq<char>, needle: Seq<char>) -> bool {
    exists|i: int| 0 <= i && i + needle.len() <= hay.len() && #[trigger] hay.subrange(i, i + needle.len()) == needle
}

/// Whether `needle` occurs in `hay`.
pub fn contains_chars(hay: &[char], needle: &[char]) -> (b: bool)
    ensures
        b == contains_text(hay@, needle@),
{
    if needle.len() > hay.len() {
        return false;
    }
    let hl: usize = hay.len();
    let last: usize = hl - needle.len();
    let mut i: usize = 0;
    while i <= last
        invariant
            hl == hay@.len(),
            last == hay@.len() - needle@.len(),
            needle@.len() <= hay@.len(),
            forall|k: int| 0 <= k < i ==> #[trigger] hay@.subrange(k, k + needle@.len()) != needle@,
        decreases last + 1 - i,
    {
        let mut j: usize = 0;
        let mut same = true;
        while j < needle.len()
            invariant
                i <= last,
                hl == hay@.len(),
                last == hay@.len() - needle@.len(),
                needle@.len() <= hay@.len(),
                j <= needle@.len(),
                same == forall|q: int| 0 <= q < j ==> hay@[i + q] == #[trigger] needle@[q],
            decreases needle@.len() - j,
        {
            if hay[i + j] != needle[j] {
                same = false;
            }
            j = j + 1;
        }
        if same {
            proof {
                assert(hay@.subrange(i as int, i + needle@.len()) =~= needle@);
            }
            return true;
        }
        proof {
            let q = choose|q: int| 0 <= q < needle@.len() && hay@[i + q] != needle@[q];
            assert(hay@.subrange(i as int, i + needle@.len())[q] != needle@[q]);
        }
        if i == last {
            proof {
                assert forall|k: int| 0 <= k && k + needle@.len() <= hay@.len() implies #[trigger] hay@.subrange(
                    k,
                    k + needle@.len(),
                ) != needle@ by {
                    if k < i {
                    } else {
                        assert(k == i);
                    }
                }
            }
            return false;
        }
        i = i + 1;
    }
    proof {
        assert forall|k: int| 0 <= k && k + needle@.len() <= hay@.len() implies #[trigger] hay@.subrange(
            k,
            k + needle@.len(),
        ) != needle@ by {
            assert(k <= last);
        }
    }
    false
}

/// `s` without its leading `#` characters.
pub open spec fn drop_hashes(s: Seq<char>) -> Seq<char>
    decreases s.len(),
{
    if s.len() > 0 && s[0] == '#' {
        drop_hashes(s.drop_first())
    } else {
        s
    }
}

/// The text of a heading line: after trimming it starts with `#`; the heading is what
/// follows the `#` characters, trimmed, when that is not empty.
pub open spec fn heading_of(line: Seq<char>) -> Option<Seq<char>> {
    let t = trim(line);
    if t.len() > 0 && t[0] == '#' {
        let h = trim(drop_hashes(t.drop_first()));
        if h.len() > 0 {
            Some(h)
        } else {
            None
        }
    } else {
        None
    }
}

/// The headings of some lines, in order.
pub open spec fn headings_of(lines: Seq<Seq<char>>) -> Seq<Seq<char>>
    decreases lines.len(),
{
    if lines.len() == 0 {
        Seq::empty()
    } else {
        match heading_of(lines.last()) {
            Some(h) => headings_of(lines.drop_last()).push(h),
            None => headings_of(lines.drop_last()),
        }
    }
}

/// Whether a line is a heading line (it starts with `#` after leading whitespace).
pub open spec fn is_heading_line(line: Seq<char>) -> bool {
    let t = trim_start(line);
    t.len() > 0 && t[0] == '#'
}

/// The lines that are not heading lines, in order.
pub open spec fn body_lines_of(lines: Seq<Seq<char>>) -> Seq<Seq<char>>
    decreases lines.len(),
{
    if lines.len() == 0 {
        Seq::empty()
    } else if is_heading_line(lines.last()) {
        body_lines_of(lines.drop_last())
    } else {
        body_lines_of(lines.drop_last()).push(lines.last())
    }
}

/// The title of the first line that starts with `# `, trimmed; empty when none does.
pub open spec fn first_title(lines: Seq<Seq<char>>) -> Seq<char>
    decreases lines.len(),
{
    if lines.len() == 0 {
        Seq::empty()
    } else if lines[0].len() >= 2 && lines[0][0] == '#' && lines[0][1] == ' ' {
        trim(lines[0].subrange(2, lines[0].len() as int))
    } else {
        first_title(lines.drop_first())
    }
}

/// The title of a Skill: its `title` metadata, else the first `# ` line of its instructions.
pub open spec fn skill_title_text(d: SkillDefView) -> Seq<char> {
    match json_str_field(d.metadata, "title"@) {
        Some(t) => t,
        None => first_title(crate::text::lines_of(d.instructions)),
    }
}

/// The headings of a Skill's instructions, one per line.
pub open spec fn skill_headings_text(d: SkillDefView) -> Seq<char> {
    join(headings_of(crate::text::lines_of(d.instructions)), seq!['\n'])
}

/// The body of a Skill's instructions: the lines that are not headings.
pub open spec fn skill_body_text(d: SkillDefView) -> Seq<char> {
    join(body_lines_of(crate::text::lines_of(d.instructions)), seq!['\n'])
}

/// Drops the leading `#` characters.
fn drop_hash_chars(s: &[char]) -> (r: Vec<char>)
    ensures
        r@ == drop_hashes(s@),
{
    let mut i: usize = 0;
    assert(s@.subrange(0, s@.len() as int) =~= s@);
    while i < s.len() && s[i] == '#'
        invariant
            i <= s@.len(),
            drop_hashes(s@) == drop_hashes(s@.subrange(i as int, s@.len() as int)),
        decreases s@.len() - i,
    {
        assert(s@.subrange(i as int, s@.len() as int).drop_first() =~= s@.subrange(i + 1, s@.len() as int));
        i = i + 1;
    }
    let mut r: Vec<char> = Vec::new();
    let mut j: usize = i;
    while j < s.len()
        invariant
            i <= j <= s@.len(),
            r@ == s@.subrange(i as int, j as int),
        decreases s@.len() - j,
    {
        r.push(s[j]);
        j = j + 1;
        assert(r@ =~= s@.subrange(i as int, j as int));
    }
    r
}

fn heading(line: &[char]) -> (r: Option<Vec<char>>)
    ensures
        r matches Some(h) ==> heading_of(line@) == Some(h@),
        r is None ==> heading_of(line@) is None,
{
    let t = trim_chars(line);
    if t.len() > 0 && t[0] == '#' {
        let mut rest: Vec<char> = Vec::new();
        let mut i: usize = 1;
        while i < t.len()
            invariant
                1 <= i <= t@.len(),
                rest@ == t@.subrange(1, i as int),
            decreases t@.len() - i,
        {
            rest.push(t[i]);
            i = i + 1;
            assert(rest@ =~= t@.subrange(1, i as int));
        }
        assert(rest@ =~= t@.drop_first());
        let stripped = drop_hash_chars(&rest);
        let h = trim_chars(&stripped);
        if h.len() > 0 {
            Some(h)
        } else {
            None
        }
    } else {
        None
    }
}

/// Whether a line starts with `#` after leading whitespace.
fn heading_line(line: &[char]) -> (b: bool)
    ensures
        b == is_heading_line(line@),
{
    let mut i: usize = 0;
    assert(line@.subrange(0, line@.len() as int) =~= line@);
    while i < line.len() && is_whitespace(line[i])
        invariant
            i <= line@.len(),
            trim_start(line@) == trim_start(line@.subrange(i as int, line@.len() as int)),
        decreases line@.len() - i,
    {
        assert(line@.subrange(i as int, line@.len() as int).drop_first() =~= line@.subrange(i + 1, line@.len() as int));
        i = i + 1;
    }
    proof {
        let rest = line@.subrange(i as int, line@.len() as int);
        if i < line@.len() {
            assert(rest[0] == line@[i as int]);
        }
    }
    i < line.len() && line[i] == '#'
}

/// Joins lines of characters with line feeds into a string.
fn join_lines(parts: &Vec<Vec<char>>) -> (r: String)
    ensures
        r@ == join(parts@.map_values(|v: Vec<char>| v@), seq!['\n']),
{
    let mut strings: Vec<String> = Vec::new();
    let mut i: usize = 0;
    while i < parts.len()
        invariant
            i <= parts@.len(),
            strings@.len() == i,
            forall|k: int| 0 <= k < i ==> (#[trigger] strings@[k])@ == parts@[k]@,
        decreases parts@.len() - i,
    {
        strings.push(string_from_chars(parts[i].as_slice()));
        i = i + 1;
    }
    proof {
        reveal_strlit("\n");
        assert("\n"@ =~= seq!['\n']);
        assert(crate::text::texts(strings@) =~= parts@.map_values(|v: Vec<char>| v@));
    }
    crate::text::join_strings(strings.as_slice(), "\n")
}

/// The title of a Skill.
pub fn skill_title(definition: &SkillDefinition) -> (r: String)
    ensures
        r@ == skill_title_text(definition@),
{
    match definition.metadata.str_field("title") {
        Some(t) => t.clone(),
        None => {
            let ls = crate::text::lines(definition.instructions.as_str());
            let ghost all = crate::text::lines_of(definition.instructions@);
            let mut i: usize = 0;
            assert(all.subrange(0, all.len() as int) =~= all);
            while i < ls.len()
                invariant
                    i <= ls@.len(),
                    ls@.len() == all.len(),
                    all == crate::text::lines_of(definition.instructions@),
                    json_str_field(definition@.metadata, "title"@) is None,
                    forall|k: int| 0 <= k < ls@.len() ==> (#[trigger] ls@[k])@ == all[k],
                    first_title(all) == first_title(all.subrange(i as int, all.len() as int)),
                decreases ls@.len() - i,
            {
                let line = &ls[i];
                let ghost rest = all.subrange(i as int, all.len() as int);
                assert(rest[0] == line@);
                if line.len() >= 2 && line[0] == '#' && line[1] == ' ' {
                    let mut tail: Vec<char> = Vec::new();
                    let mut j: usize = 2;
                    while j < line.len()
                        invariant
                            2 <= j <= line@.len(),
                            tail@ == line@.subrange(2, j as int),
                        decreases line@.len() - j,
                    {
                        tail.push(line[j]);
                        j = j + 1;
                        assert(tail@ =~= line@.subrange(2, j as int));
                    }
                    let t = trim_chars(&tail);
                    return string_from_chars(&t);
                }
                assert(rest.drop_first() =~= all.subrange(i + 1, all.len() as int));
                i = i + 1;
            }
            String::new()
        },
    }
}

/// The headings of a Skill's instructions, one per line.
pub fn skill_headings(definition: &SkillDefinition) -> (r: String)
    ensures
        r@ == skill_headings_text(definition@),
{
    let ls = crate::text::lines(definition.instructions.as_str());
    let ghost all = crate::text::lines_of(definition.instructions@);
    let mut out: Vec<Vec<char>> = Vec::new();
    let mut i: usize = 0;
    while i < ls.len()
        invariant
            i <= ls@.len(),
            ls@.len() == all.len(),
            forall|k: int| 0 <= k < ls@.len() ==> (#[trigger] ls@[k])@ == all[k],
            out@.map_values(|v: Vec<char>| v@) == headings_of(all.subrange(0, i as int)),
        decreases ls@.len() - i,
    {
        proof {
            assert(all.subrange(0, i + 1).drop_last() =~= all.subrange(0, i as int));
        }
        match heading(ls[i].as_slice()) {
            Some(h) => {
                let ghost before = out@;
                out.push(h);
                proof {
                    assert(out@.map_values(|v: Vec<char>| v@) =~= before.map_values(|v: Vec<char>| v@).push(h@));
                }
            },
            None => {},
        }
        i = i + 1;
    }
    proof {
        assert(all.subrange(0, all.len() as int) =~= all);
    }
    join_lines(&out)
}

/// The body of a Skill's instructions: its lines that are not headings.
pub fn skill_body(definition: &SkillDefinition) -> (r: String)
    ensures
        r@ == skill_body_text(definition@),
{
    let ls = crate::text::lines(definition.instructions.as_str());
    let ghost all = crate::text::lines_of(definition.instructions@);
    let mut out: Vec<Vec<char>> = Vec::new();
    let mut i: usize = 0;
    while i < ls.len()
        invariant
            i <= ls@.len(),
            ls@.len() == all.len(),
            forall|k: int| 0 <= k < ls@.len() ==> (#[trigger] ls@[k])@ == all[k],
            out@.map_values(|v: Vec<char>| v@) == body_lines_of(all.subrange(0, i as int)),
        decreases ls@.len() - i,
    {
        proof {
            assert(all.subrange(0, i + 1).drop_last() =~= all.subrange(0, i as int));
        }
        if !heading_line(ls[i].as_slice()) {
            let ghost before = out@;
            let mut line: Vec<char> = Vec::new();
            crate::text::extend_chars(&mut line, ls[i].as_slice());
            out.push(line);
            proof {
                assert(line@ =~= ls@[i as int]@);
                assert(out@.map_values(|v: Vec<char>| v@) =~= before.map_values(|v: Vec<char>| v@).push(all[i as int]));
            }
        }
        i = i + 1;
    }
    proof {
        assert(all.subrange(0, all.len() as int) =~= all);
    }
    join_lines(&out)
}

/// The texts of some character vectors.
pub open spec fn char_views(v: Seq<Vec<char>>) -> Seq<Seq<char>> {
    v.map_values(|x: Vec<char>| x@)
}

/// How many of `terms` occur in `field`.
pub open spec fn count_contained(field: Seq<char>, terms: Seq<Seq<char>>) -> nat
    decreases terms.len(),
{
    if terms.len() == 0 {
        0
    } else {
        count_contained(field, terms.drop_last()) + if contains_text(field, terms.last()) {
            1nat
        } else {
            0nat
        }
    }
}

proof fn lemma_count_bound(field: Seq<char>, terms: Seq<Seq<char>>)
    ensures
        count_contained(field, terms) <= terms.len(),
    decreases terms.len(),
{
    if terms.len() > 0 {
        lemma_count_bound(field, terms.drop_last());
    }
}

/// The score of one field: eight when it holds the whole query, plus one per term it
/// holds; zero for an empty field.
pub open spec fn field_score_of(field: Seq<char>, query: Seq<char>, terms: Seq<Seq<char>>) -> nat {
    if field.len() == 0 {
        0
    } else {
        (if contains_text(field, query) {
            8nat
        } else {
            0nat
        }) + count_contained(field, terms)
    }
}

/// The score of one field.
pub fn field_score(field: &[char], query: &[char], terms: &Vec<Vec<char>>) -> (r: u32)
    requires
        terms@.len() + 8 <= u32::MAX,
    ensures
        r == field_score_of(field@, query@, char_views(terms@)),
{
    if field.len() == 0 {
        return 0;
    }
    let mut score: u32 = if contains_chars(field, query) { 8 } else { 0 };
    let mut i: usize = 0;
    while i < terms.len()
        invariant
            i <= terms@.len(),
            terms@.len() + 8 <= u32::MAX,
            score == (if contains_text(field@, query@) { 8nat } else { 0nat }) + count_contained(
                field@,
                char_views(terms@).subrange(0, i as int),
            ),
        decreases terms@.len() - i,
    {
        proof {
            assert(char_views(terms@).subrange(0, i + 1).drop_last() =~= char_views(terms@).subrange(0, i as int));
            lemma_count_bound(field@, char_views(terms@).subrange(0, i as int));
        }
        if contains_chars(field, terms[i].as_slice()) {
            score = score + 1;
        }
        i = i + 1;
    }
    proof {
        assert(char_views(terms@).subrange(0, terms@.len() as int) =~= char_views(terms@));
    }
    score
}

/// The most words a query may have: beyond it a score might not fit in 32 bits.
pub const MAX_QUERY_TERMS: usize = 70_000_000;

/// A search score: the weighted total, then the name, description and title, heading and
/// body scores.
pub type SearchScore = (u32, u32, u32, u32, u32);

/// The score of a Skill for a query, when it matches at all; a query is folded to
/// lowercase and split into words, and the fields are folded too.
pub open spec fn search_score_of(d: SkillDefView, query: Seq<char>) -> Option<(nat, nat, nat, nat, nat)> {
    let q = normalized(query);
    let terms = words(q);
    if q.len() == 0 || terms.len() == 0 {
        None
    } else {
        let name = field_score_of(normalized(d.name), q, terms);
        let description = field_score_of(normalized(d.description), q, terms);
        let title = field_score_of(normalized(skill_title_text(d)), q, terms);
        let heading = field_score_of(normalized(skill_headings_text(d)), q, terms);
        let body = field_score_of(normalized(skill_body_text(d)), q, terms);
        let total = name * 32 + description * 16 + title * 8 + heading * 4 + body;
        if total > 0 {
            Some((total, name, description + title, heading, body))
        } else {
            None
        }
    }
}

/// Whether a query has few enough words to be scored.
pub open spec fn scorable(query: Seq<char>) -> bool {
    words(normalized(query)).len() <= MAX_QUERY_TERMS
}

/// A score as numbers.
pub open spec fn score_view(s: SearchScore) -> (nat, nat, nat, nat, nat) {
    (s.0 as nat, s.1 as nat, s.2 as nat, s.3 as nat, s.4 as nat)
}

/// The score of a Skill for a query, when it matches; `None` for a query with more than
/// [`MAX_QUERY_TERMS`] words.
pub fn skill_search_score(definition: &SkillDefinition, query: &str) -> (r: Option<SearchScore>)
    ensures
        !scorable(query@) ==> r is None,
        scorable(query@) ==> match r {
            Some(sc) => search_score_of(definition@, query@) == Some(score_view(sc)),
            None => search_score_of(definition@, query@) is None,
        },
{
    let q = normalize(query);
    if q.len() == 0 {
        return None;
    }
    let terms = split_words(&q);
    proof {
        assert(char_views(terms@) =~= words(q@));
    }
    if terms.len() == 0 {
        return None;
    }
    if terms.len() > MAX_QUERY_TERMS {
        return None;
    }
    let title = skill_title(definition);
    let headings = skill_headings(definition);
    let body = skill_body(definition);
    let name_score = field_score(&normalize(definition.name.as_str()), &q, &terms);
    let description_score = field_score(&normalize(definition.description.as_str()), &q, &terms);
    let title_score = field_score(&normalize(title.as_str()), &q, &terms);
    let heading_score = field_score(&normalize(headings.as_str()), &q, &terms);
    let body_score = field_score(&normalize(body.as_str()), &q, &terms);
    proof {
        lemma_count_bound(normalized(definition@.name), words(q@));
        lemma_count_bound(normalized(definition@.description), words(q@));
        lemma_count_bound(normalized(title@), words(q@));
        lemma_count_bound(normalized(headings@), words(q@));
        lemma_count_bound(normalized(body@), words(q@));
        assert(name_score <= 70_000_008);
        assert(description_score <= 70_000_008);
        assert(title_score <= 70_000_008);
        assert(heading_score <= 70_000_008);
        assert(body_score <= 70_000_008);
    }
    let total: u32 = name_score * 32 + description_score * 16 + title_score * 8 + heading_score * 4
        + body_score;
    if total > 0 {
        Some((total, name_score, description_score + title_score, heading_score, body_score))
    } else {
        None
    }
}

/// The page offset that `args` asks for: its `offset` when it fits in `usize`, else zero.
pub open spec fn offset_of(args: crate::json::JsonView) -> nat {
    match crate::json::json_u64_field(args, "offset"@) {
        Some(v) => if v <= usize::MAX {
            v as nat
        } else {
            0
        },
        None => 0,
    }
}

/// The page size that `args` asks for: its positive `limit`, at most `max`, else `default`.
pub open spec fn limit_of(args: crate::json::JsonView, default: nat, max: nat) -> nat {
    match crate::json::json_u64_field(args, "limit"@) {
        Some(v) => if v <= usize::MAX && v > 0 {
            if v <= max {
                v as nat
            } else {
                max
            }
        } else {
            default
        },
        None => default,
    }
}

/// The page offset that `args` asks for.
pub fn pagination_offset(args: &JsonValue) -> (r: usize)
    ensures
        r == offset_of(args@),
{
    match args.u64_field("offset") {
        Some(v) => if v <= usize::MAX as u64 {
            v as usize
        } else {
            0
        },
        None => 0,
    }
}

/// The page size that `args` asks for.
pub fn pagination_limit(args: &JsonValue, default: usize, max: usize) -> (r: usize)
    ensures
        r == limit_of(args@, default as nat, max as nat),
{
    match args.u64_field("limit") {
        Some(v) => if v <= usize::MAX as u64 && v > 0 {
            let v: usize = v as usize;
            if v <= max {
                v
            } else {
                max
            }
        } else {
            default
        },
        None => default,
    }
}

/// The entry that describes a Skill in a result.
pub open spec fn item_view(d: SkillDefView, loaded: bool) -> crate::json::JsonView {
    crate::json::JsonView::Object(
        seq![
            ("name"@, crate::json::JsonView::String(d.name)),
            ("description"@, crate::json::JsonView::String(d.description)),
            ("source"@, crate::json::JsonView::String(crate::skill::definition::source_name(d.source))),
            ("loaded"@, crate::json::JsonView::Bool(loaded)),
        ],
    )
}

/// The entry that describes a Skill in a result.
pub fn skill_item(definition: &SkillDefinition, loaded: bool) -> (r: JsonValue)
    ensures
        r@ == item_view(definition@, loaded),
{
    let entries: Vec<(String, JsonValue)> = vec![
        (String::from_str("name"), JsonValue::String(definition.name.clone())),
        (String::from_str("description"), JsonValue::String(definition.description.clone())),
        (String::from_str("source"), JsonValue::String(String::from_str(definition.source.as_str()))),
        (String::from_str("loaded"), JsonValue::Bool(loaded)),
    ];
    let r = JsonValue::Object(entries);
    proof {
        reveal_with_fuel(crate::json::json_view, 2);
        assert(r@->Object_0 =~= item_view(definition@, loaded)->Object_0);
    }
    r
}

/// The page `[offset, offset + limit)` of `v`, cut to its length.
pub open spec fn page<T>(v: Seq<T>, offset: nat, limit: nat) -> Seq<T> {
    let start = if offset <= v.len() { offset } else { v.len() };
    let end = if offset + limit <= v.len() { offset + limit } else { v.len() };
    v.subrange(start as int, end as int)
}

/// A paged result: its offset, page size, total and entries.
pub open spec fn result_view(offset: nat, limit: nat, total: nat, items: Seq<crate::json::JsonView>) -> crate::json::JsonView {
    crate::json::JsonView::Object(
        seq![
            ("offset"@, crate::json::JsonView::Number(crate::json::JsonNumberView::Unsigned(offset as u64))),
            ("limit"@, crate::json::JsonView::Number(crate::json::JsonNumberView::Unsigned(limit as u64))),
            ("total"@, crate::json::JsonView::Number(crate::json::JsonNumberView::Unsigned(total as u64))),
            ("skills"@, crate::json::JsonView::Array(items)),
        ],
    )
}

/// Builds a paged result.
fn result_json(offset: usize, limit: usize, total: usize, items: Vec<JsonValue>) -> (r: JsonValue)
    ensures
        r@ == result_view(offset as nat, limit as nat, total as nat, json_views(items@)),
{
    let ghost iv = items@;
    let entries: Vec<(String, JsonValue)> = vec![
        (String::from_str("offset"), JsonValue::Number(crate::json::JsonNumber::Unsigned(offset as u64))),
        (String::from_str("limit"), JsonValue::Number(crate::json::JsonNumber::Unsigned(limit as u64))),
        (String::from_str("total"), JsonValue::Number(crate::json::JsonNumber::Unsigned(total as u64))),
        (String::from_str("skills"), JsonValue::Array(items)),
    ];
    let r = JsonValue::Object(entries);
    proof {
        reveal_with_fuel(crate::json::json_view, 2);
        assert(entries@[3].1@->Array_0 =~= json_views(iv));
        assert(r@->Object_0 =~= result_view(offset as nat, limit as nat, total as nat, json_views(iv))->Object_0);
    }
    r
}

/// Whether `name` is among the strictly sorted loaded names.
fn is_loaded(loaded: &Vec<String>, name: &str) -> (b: bool)
    ensures
        b == crate::text::texts(loaded@).contains(name@),
{
    let mut i: usize = 0;
    while i < loaded.len()
        invariant
            i <= loaded@.len(),
            forall|k: int| 0 <= k < i ==> (#[trigger] loaded@[k])@ != name@,
        decreases loaded@.len() - i,
    {
        if crate::events::same_text(loaded[i].as_str(), name) {
            proof {
                assert(crate::text::texts(loaded@)[i as int] == name@);
            }
            return true;
        }
        i = i + 1;
    }
    proof {
        if crate::text::texts(loaded@).contains(name@) {
            let k = choose|k: int| 0 <= k < loaded@.len() && crate::text::texts(loaded@)[k] == name@;
            assert(loaded@[k]@ == name@);
        }
    }
    false
}

/// The values of some JSON documents.
pub open spec fn json_views(v: Seq<JsonValue>) -> Seq<crate::json::JsonView> {
    v.map_values(|j: JsonValue| j@)
}

/// The entries for a page of definitions.
pub open spec fn items_of(defs: Seq<SkillDefView>, loaded: Set<Seq<char>>) -> Seq<crate::json::JsonView> {
    defs.map_values(|d: SkillDefView| item_view(d, loaded.contains(d.name)))
}

/// The `list_skills` result: a page of the registry's Skills in name order, each marked
/// loaded when `conversation` has loaded it.
pub open spec fn list_result(
    defs: Seq<SkillDefView>,
    loaded: Set<Seq<char>>,
    args: crate::json::JsonView,
) -> crate::json::JsonView {
    let offset = offset_of(args);
    let limit = limit_of(args, 20, 50);
    result_view(offset, limit, defs.len(), items_of(page(defs, offset, limit), loaded))
}

/// The `list_skills` result for the registry, the log of `conversation` and the
/// arguments of the call.
pub fn list_skills_result(
    registry: &crate::skill::registry::SkillRegistry,
    events: &[crate::events::StoredEvent],
    conversation: &str,
    args: &JsonValue,
) -> (r: JsonValue)
    ensures
        r@ == list_result(
            registry@.defs,
            crate::skill::session::skill_state(crate::events::live_events(events@), conversation@).loaded,
            args@,
        ),
{
    let offset = pagination_offset(args);
    let limit = pagination_limit(args, 20, 50);
    let loaded = crate::skill::session::loaded_skill_names(events, conversation);
    let definitions = registry.definitions();
    let total: usize = definitions.len();
    let start: usize = if offset <= total { offset } else { total };
    let end: usize = if offset <= total && limit <= total - offset { offset + limit } else { total };
    let ghost lset = crate::skill::session::skill_state(crate::events::live_events(events@), conversation@).loaded;
    let ghost pg = page(registry@.defs, offset as nat, limit as nat);
    let mut items: Vec<JsonValue> = Vec::new();
    let mut i: usize = start;
    while i < end
        invariant
            start <= i <= end <= total,
            total == definitions@.len(),
            definitions@.len() == registry@.defs.len(),
            forall|k: int| 0 <= k < definitions@.len() ==> (#[trigger] definitions@[k])@ == registry@.defs[k],
            crate::text::texts(loaded@).to_set() == lset,
            pg == registry@.defs.subrange(start as int, end as int),
            items@.len() == i - start,
            json_views(items@) == items_of(pg.subrange(0, i - start), lset),
        decreases end - i,
    {
        let d = definitions[i];
        let l = is_loaded(&loaded, d.name.as_str());
        let item = skill_item(d, l);
        let ghost before = items@;
        items.push(item);
        proof {
            assert(crate::text::texts(loaded@).contains(d.name@) == lset.contains(d.name@));
            assert(pg.subrange(0, i + 1 - start) =~= pg.subrange(0, i - start).push(registry@.defs[i as int]));
            assert(items@[i - start] == item);
            assert(item@ == item_view(registry@.defs[i as int], lset.contains(registry@.defs[i as int].name)));
            let n = (i - start) as int;
            assert forall|k: int| 0 <= k < n + 1 implies #[trigger] json_views(items@)[k]
                == items_of(pg.subrange(0, n + 1), lset)[k] by {
                if k < n {
                    assert(items@[k] == before[k]);
                    assert(json_views(before)[k] == items_of(pg.subrange(0, n), lset)[k]);
                    assert(pg.subrange(0, n + 1)[k] == pg.subrange(0, n)[k]);
                } else {
                    assert(pg.subrange(0, n + 1)[k] == registry@.defs[i as int]);
                }
            }
            assert(json_views(items@) =~= items_of(pg.subrange(0, i + 1 - start), lset));
        }
        i = i + 1;
    }
    proof {
        assert(pg.subrange(0, end - start) =~= pg);
    }
    result_json(offset, limit, total, items)
}

/// Whether score `a` is higher than score `b`, comparing the parts in order.
pub open spec fn score_gt(a: (nat, nat, nat, nat, nat), b: (nat, nat, nat, nat, nat)) -> bool {
    a.0 > b.0 || (a.0 == b.0 && (a.1 > b.1 || (a.1 == b.1 && (a.2 > b.2 || (a.2 == b.2 && (a.3
        > b.3 || (a.3 == b.3 && a.4 > b.4)))))))
}

/// The order of search results: higher score first, then by name.
pub open spec fn rank_before(
    sa: (nat, nat, nat, nat, nat),
    na: Seq<char>,
    sb: (nat, nat, nat, nat, nat),
    nb: Seq<char>,
) -> bool {
    score_gt(sa, sb) || (sa == sb && crate::text::seq_lt(na, nb))
}

proof fn lemma_rank_transitive(
    sa: (nat, nat, nat, nat, nat),
    na: Seq<char>,
    sb: (nat, nat, nat, nat, nat),
    nb: Seq<char>,
    sc: (nat, nat, nat, nat, nat),
    nc: Seq<char>,
)
    requires
        rank_before(sa, na, sb, nb),
        rank_before(sb, nb, sc, nc),
    ensures
        rank_before(sa, na, sc, nc),
{
    if sa == sb && sb == sc {
        crate::text::lemma_seq_lt_transitive(na, nb, nc);
    }
}

proof fn lemma_rank_total(
    sa: (nat, nat, nat, nat, nat),
    na: Seq<char>,
    sb: (nat, nat, nat, nat, nat),
    nb: Seq<char>,
)
    requires
        na != nb,
    ensures
        rank_before(sa, na, sb, nb) || rank_before(sb, nb, sa, na),
{
    crate::text::lemma_seq_lt_total(na, nb);
}

/// `r` lists, best first, the Skills of `defs` that match `query`, each with its score.
pub open spec fn is_ranking(
    r: Seq<((nat, nat, nat, nat, nat), SkillDefView)>,
    defs: Seq<SkillDefView>,
    query: Seq<char>,
) -> bool {
    &&& forall|a: int, b: int|
        #![trigger r[a], r[b]]
        0 <= a < b < r.len() ==> rank_before(r[a].0, r[a].1.name, r[b].0, r[b].1.name)
    &&& forall|a: int|
        0 <= a < r.len() ==> defs.contains((#[trigger] r[a]).1) && search_score_of(r[a].1, query)
            == Some(r[a].0)
    &&& forall|j: int|
        0 <= j < defs.len() && (#[trigger] search_score_of(defs[j], query)) is Some ==> exists|a: int|
            0 <= a < r.len() && (#[trigger] r[a]).1 == defs[j]
}

/// The query of a `search_skills` call: its `query` text, trimmed.
pub open spec fn query_of(args: crate::json::JsonView) -> Seq<char> {
    trim(crate::tools::str_or(args, "query"@, Seq::empty()))
}

/// The `search_skills` result for a ranking of the matching Skills.
pub open spec fn search_result(
    r: Seq<((nat, nat, nat, nat, nat), SkillDefView)>,
    loaded: Set<Seq<char>>,
    args: crate::json::JsonView,
) -> crate::json::JsonView {
    let offset = offset_of(args);
    let limit = limit_of(args, 10, 25);
    let defs = r.map_values(|e: ((nat, nat, nat, nat, nat), SkillDefView)| e.1);
    result_view(offset, limit, r.len(), items_of(page(defs, offset, limit), loaded))
}

fn ranks_before(a: &SearchScore, an: &String, b: &SearchScore, bn: &String) -> (r: bool)
    ensures
        r == rank_before(score_view(*a), an@, score_view(*b), bn@),
{
    if a.0 != b.0 {
        return a.0 > b.0;
    }
    if a.1 != b.1 {
        return a.1 > b.1;
    }
    if a.2 != b.2 {
        return a.2 > b.2;
    }
    if a.3 != b.3 {
        return a.3 > b.3;
    }
    if a.4 != b.4 {
        return a.4 > b.4;
    }
    crate::text::string_less(an, bn)
}

/// The view of a ranked entry: its score and definition.
pub open spec fn entry_view(e: (SearchScore, usize), defs: Seq<SkillDefView>) -> ((nat, nat, nat, nat, nat), SkillDefView) {
    (score_view(e.0), defs[e.1 as int])
}

/// The views of ranked entries.
pub open spec fn entries_view(v: Seq<(SearchScore, usize)>, defs: Seq<SkillDefView>) -> Seq<((nat, nat, nat, nat, nat), SkillDefView)> {
    v.map_values(|e: (SearchScore, usize)| entry_view(e, defs))
}

/// The `search_skills` result for the registry, the log of `conversation` and the
/// arguments of the call: the matching Skills, best first, a page of them with their
/// loaded marks. A query of more than [`MAX_QUERY_TERMS`] words matches nothing.
pub fn search_skills_result(
    registry: &crate::skill::registry::SkillRegistry,
    events: &[crate::events::StoredEvent],
    conversation: &str,
    args: &JsonValue,
) -> (result: JsonValue)
    ensures
        scorable(query_of(args@)) ==> exists|r: Seq<((nat, nat, nat, nat, nat), SkillDefView)>|
            is_ranking(r, registry@.defs, query_of(args@)) && result@ == search_result(
                r,
                crate::skill::session::skill_state(crate::events::live_events(events@), conversation@).loaded,
                args@,
            ),
        !scorable(query_of(args@)) ==> result@ == result_view(
            offset_of(args@),
            limit_of(args@, 10, 25),
            0,
            Seq::empty(),
        ),
{
    let raw = match args.str_field("query") {
        Some(q) => q.clone(),
        None => String::new(),
    };
    let query = crate::text::trim_str(raw.as_str());
    proof {
        assert(raw@ == crate::tools::str_or(args@, "query"@, Seq::empty()));
    }
    let offset = pagination_offset(args);
    let limit = pagination_limit(args, 10, 25);
    let loaded = crate::skill::session::loaded_skill_names(events, conversation);
    let definitions = registry.definitions();
    let ghost defs = registry@.defs;
    let ghost q = query@;
    let mut sorted: Vec<(SearchScore, usize)> = Vec::new();
    let mut j: usize = 0;
    while j < definitions.len()
        invariant
            j <= definitions@.len(),
            definitions@.len() == defs.len(),
            defs == registry@.defs,
            q == query@,
            forall|k: int| 0 <= k < definitions@.len() ==> (#[trigger] definitions@[k])@ == defs[k],
            crate::skill::registry::sorted_by_name(defs),
            forall|a: int| 0 <= a < sorted@.len() ==> (#[trigger] sorted@[a]).1 < j,
            scorable(q) ==> forall|a: int|
                0 <= a < sorted@.len() ==> search_score_of(defs[(#[trigger] sorted@[a]).1 as int], q)
                    == Some(score_view(sorted@[a].0)),
            !scorable(q) ==> sorted@.len() == 0,
            forall|a: int, b: int|
                #![trigger sorted@[a], sorted@[b]]
                0 <= a < b < sorted@.len() ==> rank_before(
                    score_view(sorted@[a].0),
                    defs[sorted@[a].1 as int].name,
                    score_view(sorted@[b].0),
                    defs[sorted@[b].1 as int].name,
                ),
            scorable(q) ==> forall|k: int|
                0 <= k < j && (#[trigger] search_score_of(defs[k], q)) is Some ==> exists|a: int|
                    0 <= a < sorted@.len() && (#[trigger] sorted@[a]).1 == k,
        decreases definitions@.len() - j,
    {
        let d = definitions[j];
        match skill_search_score(d, query.as_str()) {
            Some(sc) => {
                let mut p: usize = 0;
                while p < sorted.len() && !ranks_before(&sc, &d.name, &sorted[p].0, &definitions[sorted[p].1].name)
                    invariant
                        p <= sorted@.len(),
                        j < definitions@.len(),
                        definitions@.len() == defs.len(),
                        forall|k: int| 0 <= k < definitions@.len() ==> (#[trigger] definitions@[k])@ == defs[k],
                        d@ == defs[j as int],
                        crate::skill::registry::sorted_by_name(defs),
                        forall|a: int| 0 <= a < sorted@.len() ==> (#[trigger] sorted@[a]).1 < j,
                        forall|a: int|
                            0 <= a < p ==> rank_before(
                                score_view((#[trigger] sorted@[a]).0),
                                defs[sorted@[a].1 as int].name,
                                score_view(sc),
                                d@.name,
                            ),
                    decreases sorted@.len() - p,
                {
                    proof {
                        let k = sorted@[p as int].1 as int;
                        if defs[k].name == defs[j as int].name {
                            crate::skill::registry::lemma_sorted_unique_names(defs, k, j as int);
                        }
                        lemma_rank_total(score_view(sc), d@.name, score_view(sorted@[p as int].0), defs[k].name);
                    }
                    p = p + 1;
                }
                let ghost old_sorted = sorted@;
                sorted.insert(p, (sc, j));
                proof {
                    lemma_insert_ranked(old_sorted, sorted@, p as int, (sc, j), defs);
                    assert forall|k: int|
                        0 <= k < j + 1 && (#[trigger] search_score_of(defs[k], q)) is Some implies exists|a: int|
                            0 <= a < sorted@.len() && (#[trigger] sorted@[a]).1 == k by {
                        if k == j {
                            assert(sorted@[p as int].1 == k);
                        } else {
                            let a = choose|a: int| 0 <= a < old_sorted.len() && (#[trigger] old_sorted[a]).1 == k;
                            if a < p {
                                assert(sorted@[a] == old_sorted[a]);
                            } else {
                                assert(sorted@[a + 1] == old_sorted[a]);
                            }
                        }
                    }
                }
            },
            None => {
                proof {
                    if scorable(q) {
                        assert forall|k: int|
                            0 <= k < j + 1 && (#[trigger] search_score_of(defs[k], q)) is Some implies exists|a: int|
                                0 <= a < sorted@.len() && (#[trigger] sorted@[a]).1 == k by {
                            if k == j {
                                assert(search_score_of(defs[k], q) is None);
                            }
                        }
                    }
                }
            },
        }
        j = j + 1;
    }
    let total: usize = sorted.len();
    let start: usize = if offset <= total { offset } else { total };
    let end: usize = if offset <= total && limit <= total - offset { offset + limit } else { total };
    let ghost lset = crate::skill::session::skill_state(crate::events::live_events(events@), conversation@).loaded;
    let ghost ranking = entries_view(sorted@, defs);
    let ghost rdefs = ranking.map_values(|e: ((nat, nat, nat, nat, nat), SkillDefView)| e.1);
    let ghost pg = page(rdefs, offset as nat, limit as nat);
    let mut items: Vec<JsonValue> = Vec::new();
    let mut i: usize = start;
    while i < end
        invariant
            start <= i <= end <= total,
            total == sorted@.len(),
            definitions@.len() == defs.len(),
            forall|k: int| 0 <= k < definitions@.len() ==> (#[trigger] definitions@[k])@ == defs[k],
            forall|a: int| 0 <= a < sorted@.len() ==> (#[trigger] sorted@[a]).1 < definitions@.len(),
            rdefs == entries_view(sorted@, defs).map_values(|e: ((nat, nat, nat, nat, nat), SkillDefView)| e.1),
            crate::text::texts(loaded@).to_set() == lset,
            pg == rdefs.subrange(start as int, end as int),
            items@.len() == i - start,
            json_views(items@) == items_of(pg.subrange(0, i - start), lset),
        decreases end - i,
    {
        let d = definitions[sorted[i].1];
        let l = is_loaded(&loaded, d.name.as_str());
        let item = skill_item(d, l);
        let ghost before = items@;
        items.push(item);
        proof {
            let n = (i - start) as int;
            assert(rdefs[i as int] == defs[sorted@[i as int].1 as int]);
            assert(d@ == rdefs[i as int]);
            assert forall|k: int| 0 <= k < n + 1 implies #[trigger] json_views(items@)[k]
                == items_of(pg.subrange(0, n + 1), lset)[k] by {
                if k < n {
                    assert(items@[k] == before[k]);
                    assert(json_views(before)[k] == items_of(pg.subrange(0, n), lset)[k]);
                    assert(pg.subrange(0, n + 1)[k] == pg.subrange(0, n)[k]);
                } else {
                    assert(pg.subrange(0, n + 1)[k] == rdefs[i as int]);
                }
            }
            assert(json_views(items@) =~= items_of(pg.subrange(0, i + 1 - start), lset));
        }
        i = i + 1;
    }
    proof {
        assert(pg.subrange(0, end - start) =~= pg);
        if scorable(q) {
            lemma_ranking(sorted@, defs, q);
            assert(rdefs.len() == ranking.len());
        } else {
            assert(items@.len() == 0);
            assert(json_views(items@) =~= Seq::<crate::json::JsonView>::empty());
        }
    }
    result_json(offset, limit, total, items)
}

proof fn lemma_ranking(sorted: Seq<(SearchScore, usize)>, defs: Seq<SkillDefView>, q: Seq<char>)
    requires
        forall|a: int| 0 <= a < sorted.len() ==> (#[trigger] sorted[a]).1 < defs.len(),
        forall|a: int|
            0 <= a < sorted.len() ==> search_score_of(defs[(#[trigger] sorted[a]).1 as int], q)
                == Some(score_view(sorted[a].0)),
        forall|a: int, b: int|
            #![trigger sorted[a], sorted[b]]
            0 <= a < b < sorted.len() ==> rank_before(
                score_view(sorted[a].0),
                defs[sorted[a].1 as int].name,
                score_view(sorted[b].0),
                defs[sorted[b].1 as int].name,
            ),
        forall|k: int|
            0 <= k < defs.len() && (#[trigger] search_score_of(defs[k], q)) is Some ==> exists|a: int|
                0 <= a < sorted.len() && (#[trigger] sorted[a]).1 == k,
    ensures
        is_ranking(entries_view(sorted, defs), defs, q),
{
    let r = entries_view(sorted, defs);
    assert forall|a: int, b: int| #![trigger r[a], r[b]] 0 <= a < b < r.len() implies rank_before(
        r[a].0,
        r[a].1.name,
        r[b].0,
        r[b].1.name,
    ) by {
        assert(r[a] == entry_view(sorted[a], defs) && r[b] == entry_view(sorted[b], defs));
    }
    assert forall|a: int| 0 <= a < r.len() implies defs.contains((#[trigger] r[a]).1) && search_score_of(
        r[a].1,
        q,
    ) == Some(r[a].0) by {
        assert(r[a] == entry_view(sorted[a], defs));
        assert(defs[sorted[a].1 as int] == r[a].1);
    }
    assert forall|j: int| 0 <= j < defs.len() && (#[trigger] search_score_of(defs[j], q)) is Some implies exists|a: int|
        0 <= a < r.len() && (#[trigger] r[a]).1 == defs[j] by {
        let a = choose|a: int| 0 <= a < sorted.len() && (#[trigger] sorted[a]).1 == j;
        assert(r[a] == entry_view(sorted[a], defs));
    }
}

proof fn lemma_insert_ranked(
    old_sorted: Seq<(SearchScore, usize)>,
    new_sorted: Seq<(SearchScore, usize)>,
    p: int,
    x: (SearchScore, usize),
    defs: Seq<SkillDefView>,
)
    requires
        0 <= p <= old_sorted.len(),
        new_sorted == old_sorted.insert(p, x),
        x.1 < defs.len(),
        forall|a: int| 0 <= a < old_sorted.len() ==> (#[trigger] old_sorted[a]).1 < x.1,
        crate::skill::registry::sorted_by_name(defs),
        forall|a: int, b: int|
            #![trigger old_sorted[a], old_sorted[b]]
            0 <= a < b < old_sorted.len() ==> rank_before(
                score_view(old_sorted[a].0),
                defs[old_sorted[a].1 as int].name,
                score_view(old_sorted[b].0),
                defs[old_sorted[b].1 as int].name,
            ),
        forall|a: int|
            0 <= a < p ==> rank_before(
                score_view((#[trigger] old_sorted[a]).0),
                defs[old_sorted[a].1 as int].name,
                score_view(x.0),
                defs[x.1 as int].name,
            ),
        p < old_sorted.len() ==> rank_before(
            score_view(x.0),
            defs[x.1 as int].name,
            score_view(old_sorted[p].0),
            defs[old_sorted[p].1 as int].name,
        ),
    ensures
        forall|a: int, b: int|
            #![trigger new_sorted[a], new_sorted[b]]
            0 <= a < b < new_sorted.len() ==> rank_before(
                score_view(new_sorted[a].0),
                defs[new_sorted[a].1 as int].name,
                score_view(new_sorted[b].0),
                defs[new_sorted[b].1 as int].name,
            ),
{
    let key = |e: (SearchScore, usize)| (score_view(e.0), defs[e.1 as int].name);
    assert forall|a: int, b: int|
        #![trigger new_sorted[a], new_sorted[b]]
        0 <= a < b < new_sorted.len() implies rank_before(
            score_view(new_sorted[a].0),
            defs[new_sorted[a].1 as int].name,
            score_view(new_sorted[b].0),
            defs[new_sorted[b].1 as int].name,
        ) by {
        if b < p {
            assert(new_sorted[a] == old_sorted[a] && new_sorted[b] == old_sorted[b]);
        } else if b == p {
            assert(new_sorted[a] == old_sorted[a]);
        } else if a < p {
            assert(new_sorted[a] == old_sorted[a] && new_sorted[b] == old_sorted[b - 1]);
            let o = old_sorted[b - 1];
            if b - 1 > p {
                lemma_rank_transitive(
                    score_view(x.0),
                    defs[x.1 as int].name,
                    score_view(old_sorted[p].0),
                    defs[old_sorted[p].1 as int].name,
                    score_view(o.0),
                    defs[o.1 as int].name,
                );
            }
            lemma_rank_transitive(
                score_view(old_sorted[a].0),
                defs[old_sorted[a].1 as int].name,
                score_view(x.0),
                defs[x.1 as int].name,
                score_view(o.0),
                defs[o.1 as int].name,
            );
        } else if a == p {
            assert(new_sorted[b] == old_sorted[b - 1]);
            let o = old_sorted[b - 1];
            if b - 1 > p {
                lemma_rank_transitive(
                    score_view(x.0),
                    defs[x.1 as int].name,
                    score_view(old_sorted[p].0),
                    defs[old_sorted[p].1 as int].name,
                    score_view(o.0),
                    defs[o.1 as int].name,
                );
            }
        } else {
            assert(new_sorted[a] == old_sorted[a - 1] && new_sorted[b] == old_sorted[b - 1]);
        }
    }
}


/// A Skill whose description (folded to lowercase) holds the whole query (folded) matches
/// that query: its total counts the description sixteen-fold, so it is at least sixteen
/// times the eight a field holding the query earns, and the description-and-title part of
/// the score is at least that eight.
pub proof fn law_description_match_is_found(d: SkillDefView, query: Seq<char>)
    requires
        words(normalized(query)).len() > 0,
        contains_text(normalized(d.description), normalized(query)),
    ensures
        search_score_of(d, query) matches Some(sc) && sc.0 >= 16 * field_score_of(
            normalized(d.description),
            normalized(query),
            words(normalized(query)),
        ) && sc.0 >= 128 && sc.2 >= 8,
{
    let q = normalized(query);
    if q.len() == 0 {
        assert(words_acc(q) == (Seq::<Seq<char>>::empty(), Seq::<char>::empty()));
        assert(words(q).len() == 0);
    }
    let desc = normalized(d.description);
    let i = choose|i: int| 0 <= i && i + q.len() <= desc.len() && #[trigger] desc.subrange(i, i + q.len()) == q;
    assert(desc.len() > 0);
}

} // verus!
