//! The Skill catalog block that is shown to the model: a header (changes since the last
//! snapshot, loaded Skills, the total), as many one-line previews as fit, a count of the
//! hidden ones and two hints, all within a byte budget.

use vstd::prelude::*;

use crate::skill::registry::{SkillChanges, SkillRegistry};
use crate::text::{
    blen, byte_len, char_bytes, char_width, chars_of, decimal, join, join_strings,
    lemma_blen_bounds, lemma_blen_concat, lemma_blen_take_next, lemma_decimal_len_u64,
    string_from_chars, texts, u64_to_decimal,
};

verus! {

/// The byte budget of the whole block.
pub const MAX_SKILLS_BLOCK_BYTES: usize = 2048;

/// The byte budget of the line of changes.
pub const CHANGE_LINE_BUDGET: usize = 384;

/// The byte budget of the line of loaded Skills.
pub const LOADED_LINE_BUDGET: usize = 384;

/// The byte budget of one preview line.
pub const PREVIEW_LINE_BUDGET: usize = 320;

/// The number of leading characters of `s` that fit in `budget` bytes.
pub open spec fn fitting_chars(s: Seq<char>, budget: nat) -> nat
    decreases s.len(),
{
    if s.len() == 0 || char_width(s[0]) > budget {
        0
    } else {
        1 + fitting_chars(s.drop_first(), (budget - char_width(s[0])) as nat)
    }
}

/// `text` cut to at most `max_bytes` bytes on a character boundary, with `...` marking a
/// cut; `...` alone when no character fits.
pub open spec fn truncated_utf8(text: Seq<char>, max_bytes: nat) -> Seq<char> {
    if blen(text) <= max_bytes {
        text
    } else {
        let k = fitting_chars(text, if max_bytes >= 3 { (max_bytes - 3) as nat } else { 0 });
        if k == 0 {
            "..."@
        } else {
            text.subrange(0, k as int) + "..."@
        }
    }
}

proof fn lemma_fitting_chars(s: Seq<char>, budget: nat)
    ensures
        fitting_chars(s, budget) <= s.len(),
        blen(s.subrange(0, fitting_chars(s, budget) as int)) <= budget,
        fitting_chars(s, budget) < s.len() ==> blen(
            s.subrange(0, fitting_chars(s, budget) as int),
        ) + char_width(s[fitting_chars(s, budget) as int]) > budget,
    decreases s.len(),
{
    let k = fitting_chars(s, budget);
    if s.len() == 0 || char_width(s[0]) > budget {
        assert(s.subrange(0, 0) =~= Seq::<char>::empty());
        assert(vstd::utf8::encode_utf8(Seq::<char>::empty()) =~= Seq::<u8>::empty());
    } else {
        let rest = s.drop_first();
        let b2 = (budget - char_width(s[0])) as nat;
        lemma_fitting_chars(rest, b2);
        let j = fitting_chars(rest, b2);
        assert(s.subrange(0, k as int) =~= seq![s[0]] + rest.subrange(0, j as int));
        lemma_blen_concat(seq![s[0]], rest.subrange(0, j as int));
        crate::text::lemma_blen_char(s[0]);
        if k < s.len() {
            assert(s[k as int] == rest[j as int]);
        }
    }
}

/// Cuts `text` to `max_bytes` bytes on a character boundary, marking a cut with `...`.
pub fn truncate_utf8_bytes(text: &str, max_bytes: usize) -> (r: String)
    ensures
        r@ == truncated_utf8(text@, max_bytes as nat),
{
    let c = chars_of(text);
    let total: usize = text.as_bytes().len();
    if total <= max_bytes {
        return String::from_str(text);
    }
    let target: usize = if max_bytes >= 3 { max_bytes - 3 } else { 0 };
    let ghost t = target as nat;
    proof {
        lemma_fitting_chars(c@, t);
    }
    let mut i: usize = 0;
    let mut used: usize = 0;
    while i < c.len() && char_bytes(c[i]) <= target - used
        invariant
            i <= c@.len(),
            c@ == text@,
            t == target as nat,
            used == blen(c@.subrange(0, i as int)),
            used <= target,
            i <= fitting_chars(c@, t),
            blen(c@.subrange(0, fitting_chars(c@, t) as int)) <= t,
            fitting_chars(c@, t) <= c@.len(),
            fitting_chars(c@, t) < c@.len() ==> blen(
                c@.subrange(0, fitting_chars(c@, t) as int),
            ) + char_width(c@[fitting_chars(c@, t) as int]) > t,
        decreases c@.len() - i,
    {
        proof {
            lemma_blen_take_next(c@, i as int);
            if i == fitting_chars(c@, t) {
                assert(false);
            }
        }
        used = used + char_bytes(c[i]);
        i = i + 1;
    }
    proof {
        if i < fitting_chars(c@, t) {
            lemma_blen_take_next(c@, i as int);
            lemma_prefix_blen_monotone(c@, i + 1, fitting_chars(c@, t) as int);
        }
    }
    if i == 0 {
        proof {
            reveal_strlit("...");
        }
        return String::from_str("...");
    }
    let head = crate::text::take_chars(&c, i);
    let mut r = string_from_chars(&head);
    r.append("...");
    r
}

/// A longer prefix never takes fewer bytes.
proof fn lemma_prefix_blen_monotone(s: Seq<char>, a: int, b: int)
    requires
        0 <= a <= b <= s.len(),
    ensures
        blen(s.subrange(0, a)) <= blen(s.subrange(0, b)),
{
    assert(s.subrange(0, b) =~= s.subrange(0, a) + s.subrange(a, b));
    lemma_blen_concat(s.subrange(0, a), s.subrange(a, b));
}

/// The line that counts hidden previews, when there are any.
pub open spec fn overflow_text(hidden: nat) -> Option<Seq<char>> {
    if hidden > 0 {
        Some("... +"@ + decimal(hidden) + " more"@)
    } else {
        None
    }
}

/// The line that counts hidden previews, when there are any.
pub fn overflow_line(hidden_count: usize) -> (r: Option<String>)
    ensures
        r matches Some(s) ==> overflow_text(hidden_count as nat) == Some(s@),
        r is None ==> overflow_text(hidden_count as nat) is None,
{
    if hidden_count > 0 {
        let mut s = String::from_str("... +");
        s.append(u64_to_decimal(hidden_count as u64).as_str());
        s.append(" more");
        Some(s)
    } else {
        None
    }
}

/// What follows the listed names when `remaining` names are left out.
pub open spec fn rest_text(remaining: nat) -> Seq<char> {
    if remaining == 0 {
        Seq::empty()
    } else {
        "... +"@ + decimal(remaining) + " more"@
    }
}

/// The line that lists the first `k + 1` names.
pub open spec fn candidate_line(prefix: Seq<char>, names: Seq<Seq<char>>, k: nat) -> Seq<char> {
    prefix + join(names.subrange(0, k as int + 1), ", "@) + rest_text((names.len() - (k + 1)) as nat)
}

/// The first `k` from which the line no longer fits in `max` bytes (the number of names
/// when every line fits).
pub open spec fn first_unfit(prefix: Seq<char>, names: Seq<Seq<char>>, max: nat, k: nat) -> nat
    decreases names.len() - k,
{
    if k >= names.len() {
        names.len()
    } else if blen(candidate_line(prefix, names, k)) > max {
        k
    } else {
        first_unfit(prefix, names, max, k + 1)
    }
}

/// A line that lists as many names as fit in `max` bytes and counts the rest; `None`
/// when there are no names.
pub open spec fn compact_line(prefix: Seq<char>, names: Seq<Seq<char>>, max: nat) -> Option<Seq<char>> {
    if names.len() == 0 {
        None
    } else {
        let j = first_unfit(prefix, names, max, 0);
        if j == names.len() {
            Some(prefix + join(names, ", "@))
        } else if j == 0 {
            Some(prefix + "... +"@ + decimal(names.len()) + " more"@)
        } else {
            Some(
                prefix + join(names.subrange(0, j as int), ", "@) + ", ... +"@ + decimal(
                    (names.len() - j) as nat,
                ) + " more"@,
            )
        }
    }
}

proof fn lemma_first_unfit_from(prefix: Seq<char>, names: Seq<Seq<char>>, max: nat, j: nat, i: nat)
    requires
        j <= i <= names.len(),
        forall|k: nat| k < i ==> blen(#[trigger] candidate_line(prefix, names, k)) <= max,
    ensures
        first_unfit(prefix, names, max, j) == first_unfit(prefix, names, max, i),
    decreases i - j,
{
    if j < i {
        assert(blen(candidate_line(prefix, names, j)) <= max);
        lemma_first_unfit_from(prefix, names, max, j + 1, i);
    }
}

/// A copy of a list of strings.
fn copy_names(v: &Vec<String>) -> (r: Vec<String>)
    ensures
        texts(r@) == texts(v@),
{
    crate::skill::definition::copy_strings(v)
}

/// Lists as many `names` as fit in `max_bytes` bytes after `prefix`, then counts the
/// ones left out; `None` when there are no names.
pub fn render_compact_name_line(prefix: &str, names: &[String], max_bytes: usize) -> (r: Option<
    String,
>)
    ensures
        r matches Some(s) ==> compact_line(prefix@, texts(names@), max_bytes as nat) == Some(s@),
        r is None ==> compact_line(prefix@, texts(names@), max_bytes as nat) is None,
{
    let ghost all = texts(names@);
    let ghost max = max_bytes as nat;
    if names.len() == 0 {
        return None;
    }
    proof {
        reveal_strlit(", ");
        reveal_strlit("... +");
        reveal_strlit(" more");
        reveal_strlit(", ... +");
    }
    let n: usize = names.len();
    let mut selected: Vec<String> = Vec::new();
    let mut i: usize = 0;
    while i < n
        invariant
            n == names@.len(),
            all == texts(names@),
            max == max_bytes as nat,
            i <= n,
            texts(selected@) == all.subrange(0, i as int),
            forall|k: nat| k < i ==> blen(#[trigger] candidate_line(prefix@, all, k)) <= max,
        decreases n - i,
    {
        let remaining: usize = n - (i + 1);
        let mut candidate_names = copy_names(&selected);
        let ghost cn = candidate_names@;
        let next = names[i].clone();
        candidate_names.push(next);
        proof {
            assert(candidate_names@ == cn.push(names@[i as int]));
            crate::text::lemma_texts_push(cn, names@[i as int]);
            assert(texts(cn) == all.subrange(0, i as int));
            assert(all[i as int] == names@[i as int]@);
            assert(texts(candidate_names@) =~= all.subrange(0, i + 1));
        }
        let joined = join_strings(candidate_names.as_slice(), ", ");
        let mut candidate = String::from_str(prefix);
        candidate.append(joined.as_str());
        if remaining != 0 {
            candidate.append("... +");
            candidate.append(u64_to_decimal(remaining as u64).as_str());
            candidate.append(" more");
        }
        proof {
            assert(candidate@ =~= candidate_line(prefix@, all, i as nat));
        }
        if byte_len(&candidate) <= max_bytes {
            let ghost before = selected@;
            selected.push(names[i].clone());
            proof {
                crate::text::lemma_texts_push(before, names@[i as int]);
                assert(texts(selected@) =~= all.subrange(0, i + 1));
            }
            i = i + 1;
        } else {
            proof {
                lemma_first_unfit_from(prefix@, all, max, 0, i as nat);
                assert(first_unfit(prefix@, all, max, i as nat) == i);
            }
            if selected.len() == 0 {
                let mut line = String::from_str(prefix);
                line.append("... +");
                line.append(u64_to_decimal(n as u64).as_str());
                line.append(" more");
                return Some(line);
            }
            let mut line = String::from_str(prefix);
            line.append(join_strings(selected.as_slice(), ", ").as_str());
            line.append(", ... +");
            line.append(u64_to_decimal((n - selected.len()) as u64).as_str());
            line.append(" more");
            return Some(line);
        }
    }
    proof {
        lemma_first_unfit_from(prefix@, all, max, 0, n as nat);
        assert(all.subrange(0, n as int) =~= all);
    }
    let mut line = String::from_str(prefix);
    line.append(join_strings(selected.as_slice(), ", ").as_str());
    Some(line)
}

proof fn lemma_first_unfit_props(prefix: Seq<char>, names: Seq<Seq<char>>, max: nat, k: nat)
    requires
        k <= names.len(),
    ensures
        k <= first_unfit(prefix, names, max, k) <= names.len(),
        forall|m: nat|
            k <= m < first_unfit(prefix, names, max, k) ==> blen(#[trigger] candidate_line(prefix, names, m))
                <= max,
        first_unfit(prefix, names, max, k) < names.len() ==> blen(
            candidate_line(prefix, names, first_unfit(prefix, names, max, k)),
        ) > max,
    decreases names.len() - k,
{
    if k < names.len() && blen(candidate_line(prefix, names, k)) <= max {
        lemma_first_unfit_props(prefix, names, max, k + 1);
    }
}

/// Every literal piece of a line takes at most four bytes per character.
proof fn lemma_blen3(a: Seq<char>, b: Seq<char>, c: Seq<char>)
    ensures
        blen(a + b + c) == blen(a) + blen(b) + blen(c),
{
    lemma_blen_concat(a, b);
    lemma_blen_concat(a + b, c);
}

/// A compact line takes at most its budget, plus the prefix, plus a little for the count.
pub proof fn lemma_compact_line_bound(prefix: Seq<char>, names: Seq<Seq<char>>, max: nat)
    requires
        names.len() <= usize::MAX,
    ensures
        compact_line(prefix, names, max) matches Some(l) ==> blen(l) <= max + blen(prefix) + 122,
{
    if names.len() > 0 {
        reveal_strlit(", ");
        reveal_strlit("... +");
        reveal_strlit(" more");
        reveal_strlit(", ... +");
        lemma_blen_bounds("... +"@);
        lemma_blen_bounds(" more"@);
        lemma_blen_bounds(", "@);
        let n = names.len();
        lemma_first_unfit_props(prefix, names, max, 0);
        let j = first_unfit(prefix, names, max, 0);
        if j == n {
            let c = candidate_line(prefix, names, (n - 1) as nat);
            assert(blen(c) <= max);
            assert(names.subrange(0, n as int) =~= names);
            assert(c =~= prefix + join(names, ", "@));
        } else if j == 0 {
            lemma_decimal_len_u64(n as u64);
            lemma_blen_bounds(decimal(n));
            let l = prefix + "... +"@ + decimal(n) + " more"@;
            lemma_blen3(prefix, "... +"@, decimal(n));
            lemma_blen_concat(prefix + "... +"@ + decimal(n), " more"@);
        } else {
            let c = candidate_line(prefix, names, (j - 1) as nat);
            assert(blen(c) <= max);
            let head = prefix + join(names.subrange(0, j as int), ", "@);
            let d = decimal((n - j) as nat);
            assert(c =~= head + ("... +"@ + d + " more"@));
            let l = head + ", ... +"@ + d + " more"@;
            assert(", ... +"@ =~= ", "@ + "... +"@);
            assert(l =~= head + ", "@ + ("... +"@ + d + " more"@));
            lemma_blen_concat(head, "... +"@ + d + " more"@);
            lemma_blen3(head, ", "@, "... +"@ + d + " more"@);
        }
    }
}

/// The change tokens: `+name` for additions, `~name` for updates, `-name` for removals.
pub open spec fn change_tokens(added: Seq<Seq<char>>, updated: Seq<Seq<char>>, removed: Seq<Seq<char>>) -> Seq<
    Seq<char>,
> {
    added.map_values(|s: Seq<char>| seq!['+'] + s) + updated.map_values(|s: Seq<char>| seq!['~'] + s)
        + removed.map_values(|s: Seq<char>| seq!['-'] + s)
}

/// The line of changes, if anything changed.
pub open spec fn changes_line(added: Seq<Seq<char>>, updated: Seq<Seq<char>>, removed: Seq<Seq<char>>) -> Option<
    Seq<char>,
> {
    compact_line("Changed: "@, change_tokens(added, updated, removed), CHANGE_LINE_BUDGET as nat)
}

fn push_marked(tokens: &mut Vec<String>, mark: char, names: &Vec<String>)
    ensures
        texts(final(tokens)@) == texts(old(tokens)@) + texts(names@).map_values(
            |s: Seq<char>| seq![mark] + s,
        ),
{
    let ghost start = texts(tokens@);
    let mut i: usize = 0;
    while i < names.len()
        invariant
            i <= names@.len(),
            start == texts(old(tokens)@),
            texts(tokens@) == start + texts(names@).subrange(0, i as int).map_values(
                |s: Seq<char>| seq![mark] + s,
            ),
        decreases names@.len() - i,
    {
        let mut t = String::new();
        crate::text::push_char(&mut t, mark);
        t.append(names[i].as_str());
        let ghost before = tokens@;
        tokens.push(t);
        proof {
            crate::text::lemma_texts_push(before, t);
            assert(texts(names@).subrange(0, i + 1).map_values(|s: Seq<char>| seq![mark] + s) =~= texts(
                names@,
            ).subrange(0, i as int).map_values(|s: Seq<char>| seq![mark] + s).push(seq![mark] + names@[i as int]@));
            assert(t@ =~= seq![mark] + names@[i as int]@);
            assert(texts(tokens@) =~= start + texts(names@).subrange(0, i + 1).map_values(
                |s: Seq<char>| seq![mark] + s,
            ));
        }
        i = i + 1;
    }
    proof {
        assert(texts(names@).subrange(0, names@.len() as int) =~= texts(names@));
    }
}

/// The line of changes, if anything changed.
pub fn render_skill_changes(changes: &SkillChanges) -> (r: Option<String>)
    ensures
        r matches Some(s) ==> changes_line(texts(changes.added@), texts(changes.updated@), texts(changes.removed@))
            == Some(s@),
        r is None ==> changes_line(texts(changes.added@), texts(changes.updated@), texts(changes.removed@))
            is None,
        r matches Some(s) ==> blen(s@) <= CHANGE_LINE_BUDGET + blen("Changed: "@) + 122,
{
    let mut tokens: Vec<String> = Vec::new();
    push_marked(&mut tokens, '+', &changes.added);
    push_marked(&mut tokens, '~', &changes.updated);
    push_marked(&mut tokens, '-', &changes.removed);
    proof {
        assert(texts(tokens@) =~= change_tokens(texts(changes.added@), texts(changes.updated@), texts(changes.removed@)));
    }
    let token_count: usize = tokens.len();
    proof {
        assert(texts(tokens@).len() == token_count);
        lemma_compact_line_bound("Changed: "@, texts(tokens@), CHANGE_LINE_BUDGET as nat);
    }
    render_compact_name_line("Changed: ", tokens.as_slice(), CHANGE_LINE_BUDGET)
}

/// The line of loaded Skills.
pub open spec fn loaded_line(names: Seq<Seq<char>>) -> Seq<char> {
    match compact_line("Loaded: "@, names, LOADED_LINE_BUDGET as nat) {
        Some(l) => l,
        None => "Loaded: none"@,
    }
}

/// The line of loaded Skills; `Loaded: none` when there are none.
pub fn render_loaded_skills(loaded_skill_names: &[String]) -> (r: String)
    ensures
        r@ == loaded_line(texts(loaded_skill_names@)),
{
    match render_compact_name_line("Loaded: ", loaded_skill_names, LOADED_LINE_BUDGET) {
        Some(l) => l,
        None => String::from_str("Loaded: none"),
    }
}

/// The preview of a Skill: its name and description, cut to the preview budget.
pub open spec fn preview_text(name: Seq<char>, description: Seq<char>) -> Seq<char> {
    truncated_utf8(name + " - "@ + description, PREVIEW_LINE_BUDGET as nat)
}

/// The preview of a Skill: its name and description, cut to the preview budget.
pub fn render_preview_line(name: &str, description: &str) -> (r: String)
    ensures
        r@ == preview_text(name@, description@),
{
    let mut line = String::from_str(name);
    line.append(" - ");
    line.append(description);
    truncate_utf8_bytes(line.as_str(), PREVIEW_LINE_BUDGET)
}

/// An optional line as a list of zero or one lines.
pub open spec fn opt_line(l: Option<Seq<char>>) -> Seq<Seq<char>> {
    match l {
        Some(x) => seq![x],
        None => Seq::empty(),
    }
}

/// The lines of the block.
pub open spec fn block_lines(
    header: Seq<Seq<char>>,
    previews: Seq<Seq<char>>,
    overflow: Option<Seq<char>>,
    hints: Seq<Seq<char>>,
) -> Seq<Seq<char>> {
    seq!["<kuku_skills>"@] + header + previews + opt_line(overflow) + hints + seq!["</kuku_skills>"@]
}

/// The block: its lines joined with line feeds.
pub open spec fn block_text(
    header: Seq<Seq<char>>,
    previews: Seq<Seq<char>>,
    overflow: Option<Seq<char>>,
    hints: Seq<Seq<char>>,
) -> Seq<char> {
    join(block_lines(header, previews, overflow, hints), seq!['\n'])
}

/// Builds the block from its parts.
pub fn assemble_skill_block(
    header_lines: &[String],
    preview_lines: &[String],
    overflow_line: Option<&str>,
    hint_lines: &[String],
) -> (r: String)
    ensures
        r@ == block_text(
            texts(header_lines@),
            texts(preview_lines@),
            match overflow_line {
                Some(o) => Some(o@),
                None => None,
            },
            texts(hint_lines@),
        ),
{
    let mut lines: Vec<String> = Vec::new();
    let open_tag = String::from_str("<kuku_skills>");
    let ghost l0 = lines@;
    lines.push(open_tag);
    proof {
        crate::text::lemma_texts_push(l0, open_tag);
        assert(texts(l0) =~= Seq::<Seq<char>>::empty());
    }
    let ghost t1 = texts(lines@);
    assert(t1 =~= seq!["<kuku_skills>"@]);
    extend_lines(&mut lines, header_lines);
    extend_lines(&mut lines, preview_lines);
    let ghost t2 = texts(lines@);
    assert(t2 == seq!["<kuku_skills>"@] + texts(header_lines@) + texts(preview_lines@));
    match overflow_line {
        Some(o) => {
            let ghost before = lines@;
            let line = String::from_str(o);
            lines.push(line);
            proof {
                crate::text::lemma_texts_push(before, line);
            }
        },
        None => {},
    }
    let ghost ov = match overflow_line {
        Some(o) => Some(o@),
        None => None,
    };
    assert(texts(lines@) =~= t2 + opt_line(ov));
    extend_lines(&mut lines, hint_lines);
    let close_tag = String::from_str("</kuku_skills>");
    let ghost l3 = lines@;
    lines.push(close_tag);
    proof {
        crate::text::lemma_texts_push(l3, close_tag);
        reveal_strlit("\n");
        assert("\n"@ =~= seq!['\n']);
        assert(texts(lines@) =~= block_lines(
            texts(header_lines@),
            texts(preview_lines@),
            ov,
            texts(hint_lines@),
        ));
    }
    join_strings(lines.as_slice(), "\n")
}

fn extend_lines(lines: &mut Vec<String>, more: &[String])
    ensures
        texts(final(lines)@) == texts(old(lines)@) + texts(more@),
{
    let ghost start = texts(lines@);
    let mut i: usize = 0;
    while i < more.len()
        invariant
            i <= more@.len(),
            start == texts(old(lines)@),
            texts(lines@) == start + texts(more@).subrange(0, i as int),
        decreases more@.len() - i,
    {
        let ghost before = lines@;
        let line = more[i].clone();
        lines.push(line);
        proof {
            crate::text::lemma_texts_push(before, more@[i as int]);
            assert(texts(lines@) =~= start + texts(more@).subrange(0, i + 1));
        }
        i = i + 1;
    }
    proof {
        assert(texts(more@).subrange(0, more@.len() as int) =~= texts(more@));
    }
}

/// The block with the first `i` previews and a count of the others.
pub open spec fn pack_block(
    header: Seq<Seq<char>>,
    cands: Seq<Seq<char>>,
    hints: Seq<Seq<char>>,
    i: nat,
) -> Seq<char> {
    block_text(header, cands.subrange(0, i as int), overflow_text((cands.len() - i) as nat), hints)
}

/// The first `i` from which adding preview `i` makes the block exceed the budget (the
/// number of previews when every one fits).
pub open spec fn first_too_big(header: Seq<Seq<char>>, cands: Seq<Seq<char>>, hints: Seq<Seq<char>>, i: nat) -> nat
    decreases cands.len() - i,
{
    if i >= cands.len() {
        cands.len()
    } else if blen(pack_block(header, cands, hints, i + 1)) > MAX_SKILLS_BLOCK_BYTES {
        i
    } else {
        first_too_big(header, cands, hints, i + 1)
    }
}

/// The packed block: as many previews, in order, as keep it within the budget.
pub open spec fn packed_block(header: Seq<Seq<char>>, cands: Seq<Seq<char>>, hints: Seq<Seq<char>>) -> Seq<char> {
    pack_block(header, cands, hints, first_too_big(header, cands, hints, 0))
}

proof fn lemma_first_too_big_from(header: Seq<Seq<char>>, cands: Seq<Seq<char>>, hints: Seq<Seq<char>>, j: nat, i: nat)
    requires
        j <= i <= cands.len(),
        forall|k: nat| k < i ==> blen(#[trigger] pack_block(header, cands, hints, k + 1)) <= MAX_SKILLS_BLOCK_BYTES,
    ensures
        first_too_big(header, cands, hints, j) == first_too_big(header, cands, hints, i),
    decreases i - j,
{
    if j < i {
        assert(blen(pack_block(header, cands, hints, j + 1)) <= MAX_SKILLS_BLOCK_BYTES);
        lemma_first_too_big_from(header, cands, hints, j + 1, i);
    }
}

/// Packs as many previews as fit in the budget after the header, with a count of the
/// hidden ones and the hints. The block stays within the budget unless even the block
/// without previews exceeds it.
pub fn pack_skill_block(header_lines: &[String], preview_candidates: &[String], hint_lines: &[String]) -> (r: String)
    ensures
        r@ == packed_block(texts(header_lines@), texts(preview_candidates@), texts(hint_lines@)),
        blen(r@) <= MAX_SKILLS_BLOCK_BYTES || r@ == pack_block(
            texts(header_lines@),
            texts(preview_candidates@),
            texts(hint_lines@),
            0,
        ),
{
    let ghost header = texts(header_lines@);
    let ghost cands = texts(preview_candidates@);
    let ghost hints = texts(hint_lines@);
    let n: usize = preview_candidates.len();
    let mut preview_lines: Vec<String> = Vec::new();
    let first_overflow = overflow_line(n);
    let mut best = match &first_overflow {
        Some(o) => assemble_skill_block(header_lines, preview_lines.as_slice(), Some(o.as_str()), hint_lines),
        None => assemble_skill_block(header_lines, preview_lines.as_slice(), None, hint_lines),
    };
    proof {
        assert(texts(preview_lines@) =~= cands.subrange(0, 0));
        assert(best@ == pack_block(header, cands, hints, 0));
    }
    let mut i: usize = 0;
    while i < n
        invariant
            n == preview_candidates@.len(),
            header == texts(header_lines@),
            cands == texts(preview_candidates@),
            hints == texts(hint_lines@),
            i <= n,
            texts(preview_lines@) == cands.subrange(0, i as int),
            best@ == pack_block(header, cands, hints, i as nat),
            i > 0 ==> blen(best@) <= MAX_SKILLS_BLOCK_BYTES,
            forall|k: nat| k < i ==> blen(#[trigger] pack_block(header, cands, hints, k + 1)) <= MAX_SKILLS_BLOCK_BYTES,
        decreases n - i,
    {
        let mut candidate_lines = copy_names(&preview_lines);
        let ghost cl = candidate_lines@;
        let next = preview_candidates[i].clone();
        candidate_lines.push(next);
        proof {
            crate::text::lemma_texts_push(cl, preview_candidates@[i as int]);
            assert(texts(candidate_lines@) =~= cands.subrange(0, i + 1));
        }
        let hidden: usize = n - candidate_lines.len();
        let hidden_line = overflow_line(hidden);
        let block = match &hidden_line {
            Some(o) => assemble_skill_block(header_lines, candidate_lines.as_slice(), Some(o.as_str()), hint_lines),
            None => assemble_skill_block(header_lines, candidate_lines.as_slice(), None, hint_lines),
        };
        proof {
            assert(block@ == pack_block(header, cands, hints, (i + 1) as nat));
        }
        if byte_len(&block) > MAX_SKILLS_BLOCK_BYTES {
            proof {
                lemma_first_too_big_from(header, cands, hints, 0, i as nat);
            }
            return best;
        }
        preview_lines = candidate_lines;
        best = block;
        i = i + 1;
    }
    proof {
        lemma_first_too_big_from(header, cands, hints, 0, n as nat);
    }
    best
}

/// The hint that points at `list_skills`.
pub open spec fn hint_list() -> Seq<char> {
    "Use list_skills to browse available skills."@
}

/// The hint that points at `search_skills`.
pub open spec fn hint_search() -> Seq<char> {
    "Use search_skills to find skills by task or workflow."@
}

/// The header lines: the changes (when anything changed), the loaded Skills and the total.
pub open spec fn catalog_header(total: nat, loaded: Seq<Seq<char>>, change: Option<Seq<char>>) -> Seq<Seq<char>> {
    opt_line(change) + seq![loaded_line(loaded), "Available skills: "@ + decimal(total) + " total"@]
}

/// The previews of the definitions, in order.
pub open spec fn catalog_previews(defs: Seq<crate::skill::definition::SkillDefView>) -> Seq<Seq<char>> {
    defs.map_values(|d: crate::skill::definition::SkillDefView| preview_text(d.name, d.description))
}

/// The change line that `changes` gives, if any.
pub open spec fn change_line_of(changes: Option<&SkillChanges>) -> Option<Seq<char>> {
    match changes {
        Some(c) => changes_line(texts(c.added@), texts(c.updated@), texts(c.removed@)),
        None => None,
    }
}

/// The catalog block of a registry: always rendered, and always within the budget.
pub fn render_skill_catalog(
    registry: &SkillRegistry,
    loaded_skill_names: &[String],
    changes: Option<&SkillChanges>,
) -> (r: Option<String>)
    ensures
        r matches Some(block) && block@ == packed_block(
            catalog_header(registry@.defs.len(), texts(loaded_skill_names@), change_line_of(changes)),
            catalog_previews(registry@.defs),
            seq![hint_list(), hint_search()],
        ),
        r matches Some(block) && blen(block@) <= MAX_SKILLS_BLOCK_BYTES,
{
    let change_line: Option<String> = match changes {
        Some(c) => render_skill_changes(c),
        None => None,
    };
    let loaded_line = render_loaded_skills(loaded_skill_names);
    let count: usize = registry.len();
    let mut total_line = String::from_str("Available skills: ");
    total_line.append(u64_to_decimal(count as u64).as_str());
    total_line.append(" total");
    let hints: Vec<String> = vec![
        String::from_str("Use list_skills to browse available skills."),
        String::from_str("Use search_skills to find skills by task or workflow."),
    ];
    let mut header_lines: Vec<String> = Vec::new();
    let ghost cl = match &change_line {
        Some(l) => Some(l@),
        None => None,
    };
    match change_line {
        Some(l) => {
            header_lines.push(l);
        },
        None => {},
    }
    proof {
        assert(texts(header_lines@) =~= opt_line(cl));
    }
    let ghost h0 = header_lines@;
    header_lines.push(loaded_line);
    let ghost h1 = header_lines@;
    header_lines.push(total_line);
    proof {
        crate::text::lemma_texts_push(h0, loaded_line);
        crate::text::lemma_texts_push(h1, total_line);
        assert(texts(header_lines@) =~= catalog_header(registry@.defs.len(), texts(loaded_skill_names@), change_line_of(changes)));
    }
    let definitions = registry.definitions();
    let mut previews: Vec<String> = Vec::new();
    let mut i: usize = 0;
    while i < definitions.len()
        invariant
            i <= definitions@.len(),
            definitions@.len() == registry@.defs.len(),
            forall|k: int| 0 <= k < definitions@.len() ==> (#[trigger] definitions@[k])@ == registry@.defs[k],
            texts(previews@) == catalog_previews(registry@.defs).subrange(0, i as int),
        decreases definitions@.len() - i,
    {
        let d = definitions[i];
        let line = render_preview_line(d.name.as_str(), d.description.as_str());
        let ghost before = previews@;
        previews.push(line);
        proof {
            crate::text::lemma_texts_push(before, line);
            assert(texts(previews@) =~= catalog_previews(registry@.defs).subrange(0, i + 1));
        }
        i = i + 1;
    }
    let preview_count: usize = previews.len();
    let loaded_count: usize = loaded_skill_names.len();
    proof {
        assert(texts(previews@).len() == preview_count);
        assert(texts(loaded_skill_names@).len() == loaded_count);
        assert(catalog_previews(registry@.defs).subrange(0, definitions@.len() as int) =~= catalog_previews(registry@.defs));
        assert(texts(hints@) =~= seq![hint_list(), hint_search()]);
        lemma_initial_block_fits(
            registry@.defs.len(),
            texts(loaded_skill_names@),
            change_line_of(changes),
            texts(previews@),
        );
    }
    let block = pack_skill_block(header_lines.as_slice(), previews.as_slice(), hints.as_slice());
    Some(block)
}

proof fn lemma_line_bound(l: Seq<char>, k: nat)
    requires
        l.len() <= k,
    ensures
        blen(l) <= 4 * k,
{
    lemma_blen_bounds(l);
}

/// The block without previews stays within the budget.
proof fn lemma_initial_block_fits(
    total: nat,
    loaded: Seq<Seq<char>>,
    change: Option<Seq<char>>,
    cands: Seq<Seq<char>>,
)
    requires
        total <= usize::MAX,
        loaded.len() <= usize::MAX,
        cands.len() <= usize::MAX,
        change matches Some(l) ==> blen(l) <= CHANGE_LINE_BUDGET + blen("Changed: "@) + 122,
    ensures
        blen(
            pack_block(
                catalog_header(total, loaded, change),
                cands,
                seq![hint_list(), hint_search()],
                0,
            ),
        ) <= MAX_SKILLS_BLOCK_BYTES,
{
    reveal_strlit("<kuku_skills>");
    reveal_strlit("</kuku_skills>");
    reveal_strlit("Use list_skills to browse available skills.");
    reveal_strlit("Use search_skills to find skills by task or workflow.");
    reveal_strlit("Available skills: ");
    reveal_strlit(" total");
    reveal_strlit("... +");
    reveal_strlit(" more");
    reveal_strlit("Loaded: ");
    reveal_strlit("Loaded: none");
    reveal_strlit("Changed: ");
    let header = catalog_header(total, loaded, change);
    let hints = seq![hint_list(), hint_search()];
    let ov = overflow_text(cands.len());
    let lines = block_lines(header, cands.subrange(0, 0), ov, hints);
    assert(cands.subrange(0, 0) =~= Seq::<Seq<char>>::empty());
    crate::text::lemma_join_blen(lines, seq!['\n']);
    crate::text::lemma_blen_char('\n');
    lemma_line_bound("<kuku_skills>"@, 13);
    lemma_line_bound("</kuku_skills>"@, 14);
    lemma_line_bound(hint_list(), 43);
    lemma_line_bound(hint_search(), 53);
    lemma_line_bound("Changed: "@, 9);
    lemma_line_bound("Loaded: "@, 8);
    lemma_line_bound("Loaded: none"@, 12);
    // the loaded line
    lemma_compact_line_bound("Loaded: "@, loaded, LOADED_LINE_BUDGET as nat);
    let ll = loaded_line(loaded);
    assert(blen(ll) <= 540);
    // the total line
    lemma_decimal_len_u64(total as u64);
    lemma_line_bound(decimal(total), 20);
    let tl = "Available skills: "@ + decimal(total) + " total"@;
    lemma_line_bound("Available skills: "@, 18);
    lemma_line_bound(" total"@, 6);
    lemma_blen3("Available skills: "@, decimal(total), " total"@);
    assert(blen(tl) <= 176);
    // the overflow line
    let ovl = opt_line(ov);
    if cands.len() > 0 {
        lemma_decimal_len_u64(cands.len() as u64);
        lemma_line_bound(decimal(cands.len()), 20);
        lemma_line_bound("... +"@, 5);
        lemma_line_bound(" more"@, 5);
        lemma_blen3("... +"@, decimal(cands.len()), " more"@);
        let x = "... +"@ + decimal(cands.len()) + " more"@;
        assert(ovl =~= seq![x]);
        lemma_sum_blen_one(x);
    } else {
        assert(ovl =~= Seq::<Seq<char>>::empty());
    }
    assert(crate::text::sum_blen(ovl) <= 120);
    let cl = opt_line(change);
    if change is Some {
        assert(cl =~= seq![change->0]);
        lemma_sum_blen_one(change->0);
    } else {
        assert(cl =~= Seq::<Seq<char>>::empty());
    }
    assert(crate::text::sum_blen(cl) <= 542);
    let two = seq![ll, tl];
    lemma_sum_blen_two(ll, tl);
    crate::text::lemma_sum_blen_concat(cl, two);
    assert(header == cl + two);
    assert(crate::text::sum_blen(header) <= 1258);
    lemma_sum_blen_two(hint_list(), hint_search());
    let t1 = seq!["<kuku_skills>"@];
    let t2 = seq!["</kuku_skills>"@];
    lemma_sum_blen_one("<kuku_skills>"@);
    lemma_sum_blen_one("</kuku_skills>"@);
    let e = Seq::<Seq<char>>::empty();
    crate::text::lemma_sum_blen_concat(t1, header);
    crate::text::lemma_sum_blen_concat(t1 + header, e);
    crate::text::lemma_sum_blen_concat(t1 + header + e, ovl);
    crate::text::lemma_sum_blen_concat(t1 + header + e + ovl, hints);
    crate::text::lemma_sum_blen_concat(t1 + header + e + ovl + hints, t2);
    assert(lines == t1 + header + e + ovl + hints + t2);
    assert(lines.len() <= 9);
    assert(crate::text::sum_blen(lines) <= 1870);
    assert(blen(seq!['\n']) == 1);
    assert(lines.len() * blen(seq!['\n']) <= 9);
    assert(pack_block(header, cands, hints, 0) == join(lines, seq!['\n']));
}

proof fn lemma_sum_blen_one(a: Seq<char>)
    ensures
        crate::text::sum_blen(seq![a]) == blen(a),
{
    assert(seq![a].drop_last() =~= Seq::<Seq<char>>::empty());
    assert(crate::text::sum_blen(Seq::<Seq<char>>::empty()) == 0);
}

proof fn lemma_sum_blen_two(a: Seq<char>, b: Seq<char>)
    ensures
        crate::text::sum_blen(seq![a, b]) == blen(a) + blen(b),
{
    assert(seq![a, b].drop_last() =~= seq![a]);
    lemma_sum_blen_one(a);
}

} // verus!
