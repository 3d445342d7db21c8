//! Validation of session identifiers, which name directories on disk.

use vstd::prelude::*;

use crate::error::Error;
use crate::text::{
    chars_of, decimal, is_digit, lemma_decimal_digits, push_char, string_from_chars,
    u64_to_decimal,
};

verus! {

/// Whether `c` occurs in `s`.
pub open spec fn has_char(s: Seq<char>, c: char) -> bool {
    exists|i: int| 0 <= i < s.len() && s[i] == c
}

/// Whether `s` holds two consecutive dots.
pub open spec fn has_double_dot(s: Seq<char>) -> bool {
    exists|i: int| 0 <= i && i + 1 < s.len() && #[trigger] s[i] == '.' && s[i + 1] == '.'
}

/// ASCII upper-casing of one character; other characters are unchanged.
pub open spec fn ascii_upper(c: char) -> char {
    if 'a' <= c && c <= 'z' {
        ((c as u32) - 32) as char
    } else {
        c
    }
}

/// ASCII upper-casing of a whole sequence.
pub open spec fn ascii_upper_seq(s: Seq<char>) -> Seq<char> {
    Seq::new(s.len(), |i: int| ascii_upper(s[i]))
}

/// The part of `s` before its first `.` (all of `s` when it has none).
pub open spec fn stem(s: Seq<char>) -> Seq<char> {
    if has_char(s, '.') {
        let k = choose|k: int| 0 <= k < s.len() && s[k] == '.' && forall|j: int| 0 <= j < k ==> s[j] != '.';
        s.subrange(0, k)
    } else {
        s
    }
}

/// Whether `seg` is a device name that Windows reserves.
pub open spec fn is_reserved_segment(seg: Seq<char>) -> bool {
    seg == seq!['C', 'O', 'N'] || seg == seq!['P', 'R', 'N'] || seg == seq!['A', 'U', 'X'] || seg
        == seq!['N', 'U', 'L'] || (seg.len() == 4 && seg[0] == 'C' && seg[1] == 'O' && seg[2]
        == 'M' && '1' <= seg[3] && seg[3] <= '9') || (seg.len() == 4 && seg[0] == 'L' && seg[1]
        == 'P' && seg[2] == 'T' && '1' <= seg[3] && seg[3] <= '9')
}

/// Whether `s`, or its part before the first dot, is a reserved device name (ignoring ASCII case).
pub open spec fn is_reserved_device_name(s: Seq<char>) -> bool {
    is_reserved_segment(ascii_upper_seq(s)) || is_reserved_segment(stem(ascii_upper_seq(s)))
}

/// Whether `s` can name a session.
pub open spec fn valid_session_id(s: Seq<char>) -> bool {
    !(s.len() == 0 || s == seq!['.'] || s == seq!['.', '.'] || has_double_dot(s) || s.last() == '.'
        || s.last() == ' ' || has_char(s, '/') || has_char(s, '\\') || has_char(s, '\0')
        || has_char(s, '<') || has_char(s, '>') || has_char(s, ':') || has_char(s, '"')
        || has_char(s, '|') || has_char(s, '?') || has_char(s, '*') || is_reserved_device_name(s))
}

fn to_ascii_upper(s: &Vec<char>) -> (u: Vec<char>)
    ensures
        u@ == ascii_upper_seq(s@),
{
    let mut u: Vec<char> = Vec::new();
    let mut i: usize = 0;
    while i < s.len()
        invariant
            i <= s@.len(),
            u@ =~= ascii_upper_seq(s@).subrange(0, i as int),
        decreases s@.len() - i,
    {
        let c = s[i];
        let d = if 'a' <= c && c <= 'z' {
            let v = (c as u32) - 32;
            assert(0x41 <= v <= 0x5a);
            (v as u8) as char
        } else {
            c
        };
        u.push(d);
        i = i + 1;
    }
    u
}

fn stem_of(s: &Vec<char>) -> (t: Vec<char>)
    ensures
        t@ == stem(s@),
{
    let mut t: Vec<char> = Vec::new();
    let mut i: usize = 0;
    while i < s.len() && s[i] != '.'
        invariant
            i <= s@.len(),
            t@ == s@.subrange(0, i as int),
            forall|j: int| 0 <= j < i ==> s@[j] != '.',
        decreases s@.len() - i,
    {
        t.push(s[i]);
        i = i + 1;
    }
    if i < s.len() {
        assert(has_char(s@, '.'));
        let ghost sv = s@;
        let ghost k = choose|k: int| 0 <= k < sv.len() && sv[k] == '.' && forall|j: int| 0 <= j < k ==> sv[j] != '.';
        assert(0 <= i < sv.len() && sv[i as int] == '.' && forall|j: int| 0 <= j < i ==> sv[j] != '.');
        assert(k == i) by {
            if k < i {
                assert(s@[k] != '.');
            }
            if k > i {
                assert(s@[i as int] != '.');
            }
        }
    } else {
        assert(t@ =~= s@);
    }
    t
}

fn is_reserved_segment_exec(seg: &Vec<char>) -> (b: bool)
    ensures
        b == is_reserved_segment(seg@),
{
    if seg.len() == 3 {
        let r = (seg[0] == 'C' && seg[1] == 'O' && seg[2] == 'N') || (seg[0] == 'P' && seg[1] == 'R'
            && seg[2] == 'N') || (seg[0] == 'A' && seg[1] == 'U' && seg[2] == 'X') || (seg[0] == 'N'
            && seg[1] == 'U' && seg[2] == 'L');
        assert(r == is_reserved_segment(seg@)) by {
            if seg@ == seq!['C', 'O', 'N'] || seg@ == seq!['P', 'R', 'N'] || seg@ == seq!['A', 'U', 'X']
                || seg@ == seq!['N', 'U', 'L'] {
            }
            if r {
                if seg[0] == 'C' {
                    assert(seg@ =~= seq!['C', 'O', 'N']);
                } else if seg[0] == 'P' {
                    assert(seg@ =~= seq!['P', 'R', 'N']);
                } else if seg[0] == 'A' {
                    assert(seg@ =~= seq!['A', 'U', 'X']);
                } else {
                    assert(seg@ =~= seq!['N', 'U', 'L']);
                }
            }
        }
        r
    } else if seg.len() == 4 {
        (seg[0] == 'C' && seg[1] == 'O' && seg[2] == 'M' && '1' <= seg[3] && seg[3] <= '9') || (
        seg[0] == 'L' && seg[1] == 'P' && seg[2] == 'T' && '1' <= seg[3] && seg[3] <= '9')
    } else {
        false
    }
}

fn has_char_exec(s: &Vec<char>, c: char) -> (b: bool)
    ensures
        b == has_char(s@, c),
{
    let mut i: usize = 0;
    while i < s.len()
        invariant
            i <= s@.len(),
            forall|j: int| 0 <= j < i ==> s@[j] != c,
        decreases s@.len() - i,
    {
        if s[i] == c {
            return true;
        }
        i = i + 1;
    }
    false
}

fn has_double_dot_exec(s: &Vec<char>) -> (b: bool)
    ensures
        b == has_double_dot(s@),
{
    let mut i: usize = 0;
    while i < s.len() && s.len() - i > 1
        invariant
            i <= s@.len(),
            forall|j: int| 0 <= j < i && j + 1 < s@.len() ==> !(#[trigger] s@[j] == '.' && s@[j + 1] == '.'),
        decreases s@.len() - i,
    {
        if s[i] == '.' && s[i + 1] == '.' {
            return true;
        }
        i = i + 1;
    }
    false
}

/// Checks that `session_id` can name a session directory.
///
/// Refused: the empty id, ids with `..`, ending in `.` or a space, holding a path separator,
/// NUL or one of `< > : " | ? *`, and Windows device names (`CON`, `PRN`, `AUX`, `NUL`,
/// `COM1`-`COM9`, `LPT1`-`LPT9`, in any ASCII case, also followed by an extension).
pub fn validate_session_id(session_id: &str) -> (r: Result<(), Error>)
    ensures
        r is Ok <==> valid_session_id(session_id@),
        r matches Err(e) ==> (e matches Error::InvalidSessionId(v) && v@ == session_id@),
{
    let s = chars_of(session_id);
    let n = s.len();
    let invalid = n == 0 || (n == 1 && s[0] == '.') || (n == 2 && s[0] == '.' && s[1] == '.')
        || has_double_dot_exec(&s) || s[n - 1] == '.' || s[n - 1] == ' ' || has_char_exec(&s, '/')
        || has_char_exec(&s, '\\') || has_char_exec(&s, '\0') || has_char_exec(&s, '<')
        || has_char_exec(&s, '>') || has_char_exec(&s, ':') || has_char_exec(&s, '"')
        || has_char_exec(&s, '|') || has_char_exec(&s, '?') || has_char_exec(&s, '*')
        || is_windows_reserved_device_name(&s);
    assert(invalid == !valid_session_id(session_id@)) by {
        if n == 1 && s[0] == '.' {
            assert(s@ =~= seq!['.']);
        }
        if n == 2 && s[0] == '.' && s[1] == '.' {
            assert(s@ =~= seq!['.', '.']);
        }
        if n > 0 {
            assert(s@.last() == s@[n - 1]);
        }
    }
    if invalid {
        return Err(Error::InvalidSessionId(string_from_chars(&s)));
    }
    Ok(())
}

fn is_windows_reserved_device_name(s: &Vec<char>) -> (b: bool)
    ensures
        b == is_reserved_device_name(s@),
{
    let upper = to_ascii_upper(s);
    let st = stem_of(&upper);
    is_reserved_segment_exec(&upper) || is_reserved_segment_exec(&st)
}


/// The identifier of a session that process `pid` starts `millis` milliseconds after the
/// Unix epoch as its `counter`-th session: `s_{millis}_{pid}_{counter}`.
pub open spec fn session_id_text(millis: nat, pid: nat, counter: nat) -> Seq<char> {
    seq!['s', '_'] + decimal(millis) + seq!['_'] + decimal(pid) + seq!['_'] + decimal(counter)
}

/// The identifier of a new session.
pub fn format_session_id(millis: u64, pid: u32, counter: u64) -> (r: String)
    ensures
        r@ == session_id_text(millis as nat, pid as nat, counter as nat),
{
    let mut r = String::from_str("s_");
    proof {
        reveal_strlit("s_");
    }
    let m = u64_to_decimal(millis);
    r.append(m.as_str());
    push_char(&mut r, '_');
    let p = u64_to_decimal(pid as u64);
    r.append(p.as_str());
    push_char(&mut r, '_');
    let c = u64_to_decimal(counter);
    r.append(c.as_str());
    proof {
        assert(r@ =~= session_id_text(millis as nat, pid as nat, counter as nat));
    }
    r
}

/// Every identifier that a new session gets passes validation.
pub proof fn law_new_session_ids_are_valid(millis: nat, pid: nat, counter: nat)
    ensures
        valid_session_id(session_id_text(millis, pid, counter)),
{
    let s = session_id_text(millis, pid, counter);
    let a = decimal(millis);
    let b = decimal(pid);
    let c = decimal(counter);
    lemma_decimal_digits(millis);
    lemma_decimal_digits(pid);
    lemma_decimal_digits(counter);
    assert forall|i: int| 0 <= i < s.len() implies s[i] == 's' || s[i] == '_' || is_digit(
        #[trigger] s[i],
    ) by {
        let x = 2 + a.len();
        let y = x + 1 + b.len();
        if i >= 2 && i < x {
            assert(s[i] == a[i - 2]);
        } else if x < i && i < y {
            assert(s[i] == b[i - x - 1]);
        } else if i > y {
            assert(s[i] == c[i - y - 1]);
        }
    }
    assert(s.last() == c.last());
    assert(is_digit(c.last()));
    assert(!has_char(s, '.'));
    let u = ascii_upper_seq(s);
    assert(u[0] == 'S');
    assert(!has_char(u, '.')) by {
        if has_char(u, '.') {
            let k = choose|k: int| 0 <= k < u.len() && u[k] == '.';
            assert(s[k] == 's' || s[k] == '_' || is_digit(s[k]));
        }
    }
    assert(stem(u) == u);
    assert(!is_reserved_segment(u)) by {
        assert(u[0] != seq!['C', 'O', 'N'][0]);
        assert(u[0] != seq!['P', 'R', 'N'][0]);
        assert(u[0] != seq!['A', 'U', 'X'][0]);
        assert(u[0] != seq!['N', 'U', 'L'][0]);
    }
}

} // verus!
