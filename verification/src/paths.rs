//! Where kuku keeps its files: the kuku home, the per-project home that mirrors a
//! workspace path, and the session, policy, memory and lock files under them.
//!
//! Paths are Unix paths held as text: `/` separates components, empty components and
//! `.` are dropped, and `..` is refused in a workspace path.

use vstd::prelude::*;

use crate::error::Error;
use crate::text::{chars_eq, chars_of, string_from_chars};

verus! {

/// The pieces of `s` between slashes, empty pieces included.
pub open spec fn split_slash(s: Seq<char>) -> Seq<Seq<char>>
    decreases s.len(),
{
    if s.len() == 0 {
        seq![Seq::empty()]
    } else {
        let rest = split_slash(s.drop_last());
        if s.last() == '/' {
            rest.push(Seq::empty())
        } else {
            rest.update(rest.len() - 1, rest.last().push(s.last()))
        }
    }
}

proof fn lemma_split_nonempty(s: Seq<char>)
    ensures
        split_slash(s).len() >= 1,
    decreases s.len(),
{
    if s.len() > 0 {
        lemma_split_nonempty(s.drop_last());
    }
}

/// Whether a piece of a path names a directory or file (it is neither empty nor `.`).
pub open spec fn is_normal(piece: Seq<char>) -> bool {
    piece.len() > 0 && piece != seq!['.'] && piece != seq!['.', '.']
}

/// Whether some piece of `s` is `..`.
pub open spec fn has_parent_dir(s: Seq<char>) -> bool {
    split_slash(s).contains(seq!['.', '.'])
}

/// The directory and file names of `s`, in order.
pub open spec fn normal_parts(s: Seq<char>) -> Seq<Seq<char>> {
    split_slash(s).filter(|p: Seq<char>| is_normal(p))
}

/// `path` with `part` pushed on it, as `PathBuf::push` does on Unix: an absolute `part`
/// replaces the path; a relative one is appended after a separator.
pub open spec fn push_part(path: Seq<char>, part: Seq<char>) -> Seq<char> {
    if part.len() > 0 && part[0] == '/' {
        part
    } else if path.len() == 0 {
        part
    } else if path.last() == '/' {
        path + part
    } else {
        path + seq!['/'] + part
    }
}

/// `path` with each of `parts` appended in order.
pub open spec fn push_all(path: Seq<char>, parts: Seq<Seq<char>>) -> Seq<char>
    decreases parts.len(),
{
    if parts.len() == 0 {
        path
    } else {
        push_part(push_all(path, parts.drop_last()), parts.last())
    }
}

/// Pushes `part` on `path`, as `PathBuf::push` does on Unix.
pub fn push_str(path: &mut String, part: &str)
    ensures
        final(path)@ == push_part(old(path)@, part@),
{
    let pc = chars_of(part);
    if pc.len() > 0 && pc[0] == '/' {
        *path = part.to_string();
        return;
    }
    let c = chars_of(path.as_str());
    if c.len() == 0 {
        path.append(part);
    } else if c[c.len() - 1] == '/' {
        path.append(part);
    } else {
        path.append("/");
        proof {
            reveal_strlit("/");
        }
        path.append(part);
    }
}

/// The pieces of `s` between slashes.
fn split_pieces(s: &str) -> (r: Vec<Vec<char>>)
    ensures
        r@.len() == split_slash(s@).len(),
        forall|i: int| 0 <= i < r@.len() ==> (#[trigger] r@[i])@ == split_slash(s@)[i],
{
    let c = chars_of(s);
    let mut pieces: Vec<Vec<char>> = Vec::new();
    let mut current: Vec<char> = Vec::new();
    let mut i: usize = 0;
    while i < c.len()
        invariant
            i <= c@.len(),
            c@ == s@,
            pieces@.len() + 1 == split_slash(c@.subrange(0, i as int)).len(),
            forall|k: int| 0 <= k < pieces@.len() ==> (#[trigger] pieces@[k])@ == split_slash(
                c@.subrange(0, i as int),
            )[k],
            current@ == split_slash(c@.subrange(0, i as int)).last(),
        decreases c@.len() - i,
    {
        let ghost pre = c@.subrange(0, i as int);
        let ghost post = c@.subrange(0, i + 1);
        proof {
            assert(post.drop_last() =~= pre);
            assert(post.last() == c@[i as int]);
            lemma_split_nonempty(pre);
        }
        if c[i] == '/' {
            let done = current;
            pieces.push(done);
            current = Vec::new();
            proof {
                assert(current@ =~= Seq::<char>::empty());
            }
        } else {
            current.push(c[i]);
        }
        i = i + 1;
    }
    pieces.push(current);
    proof {
        assert(c@.subrange(0, c@.len() as int) =~= c@);
    }
    pieces
}

/// The per-project home of `workspace` under `kuku_home`: `kuku_home/p` followed by the
/// workspace's directory names. A workspace path with `..` is refused.
pub open spec fn project_home_path(kuku_home: Seq<char>, workspace: Seq<char>) -> Seq<char> {
    push_all(push_part(kuku_home, seq!['p']), normal_parts(workspace))
}

/// The per-project home of `workspace`: `kuku_home/p/<workspace without its root>`.
pub fn project_home(kuku_home: &str, workspace: &str) -> (r: Result<String, Error>)
    ensures
        r is Err <==> has_parent_dir(workspace@),
        r matches Ok(p) ==> p@ == project_home_path(kuku_home@, workspace@),
        r matches Err(e) ==> e == Error::InvalidWorkspacePath(e->InvalidWorkspacePath_0)
            && e->InvalidWorkspacePath_0@ == workspace@,
{
    let pieces = split_pieces(workspace);
    let ghost sp = split_slash(workspace@);
    let dotdot: Vec<char> = vec!['.', '.'];
    let dot: Vec<char> = vec!['.'];
    let mut path = String::from_str(kuku_home);
    push_str(&mut path, "p");
    proof {
        reveal_strlit("p");
        assert("p"@ =~= seq!['p']);
    }
    let ghost base = path@;
    let mut i: usize = 0;
    while i < pieces.len()
        invariant
            i <= pieces@.len(),
            pieces@.len() == sp.len(),
            sp == split_slash(workspace@),
            forall|k: int| 0 <= k < pieces@.len() ==> (#[trigger] pieces@[k])@ == sp[k],
            dotdot@ == seq!['.', '.'],
            dot@ == seq!['.'],
            !sp.subrange(0, i as int).contains(seq!['.', '.']),
            path@ == push_all(base, sp.subrange(0, i as int).filter(|p: Seq<char>| is_normal(p))),
        decreases pieces@.len() - i,
    {
        let piece = &pieces[i];
        let ghost before = sp.subrange(0, i as int);
        let ghost after = sp.subrange(0, i + 1);
        proof {
            assert(after =~= before.push(sp[i as int]));
            before.lemma_filter_push(sp[i as int], |p: Seq<char>| is_normal(p));
        }
        if chars_eq(piece, &dotdot) {
            proof {
                assert(sp[i as int] == seq!['.', '.']);
                assert(sp.contains(seq!['.', '.']));
            }
            return Err(Error::InvalidWorkspacePath(String::from_str(workspace)));
        }
        if piece.len() > 0 && !chars_eq(piece, &dot) {
            let part = string_from_chars(piece);
            push_str(&mut path, part.as_str());
            proof {
                assert(is_normal(sp[i as int]));
                let fb = before.filter(|p: Seq<char>| is_normal(p));
                assert(after.filter(|p: Seq<char>| is_normal(p)) == fb.push(sp[i as int]));
                assert(fb.push(sp[i as int]).drop_last() =~= fb);
            }
        } else {
            proof {
                assert(!is_normal(sp[i as int]));
            }
        }
        proof {
            assert(!after.contains(seq!['.', '.'])) by {
                if after.contains(seq!['.', '.']) {
                    let k = choose|k: int| 0 <= k < after.len() && after[k] == seq!['.', '.'];
                    if k < i {
                        assert(before[k] == seq!['.', '.']);
                    }
                }
            }
        }
        i = i + 1;
    }
    proof {
        assert(sp.subrange(0, sp.len() as int) =~= sp);
    }
    Ok(path)
}

/// `path` with each literal component of `parts` appended.
fn push_literals(path: &mut String, a: &str, b: &str, c: &str)
    ensures
        final(path)@ == push_part(push_part(push_part(old(path)@, a@), b@), c@),
{
    push_str(path, a);
    push_str(path, b);
    push_str(path, c);
}

/// The event log of a session: `<project home>/sessions/<id>/events.jsonl`.
pub fn session_events_path(kuku_home: &str, workspace: &str, session_id: &str) -> (r: Result<
    String,
    Error,
>)
    ensures
        r is Err <==> has_parent_dir(workspace@),
        r matches Ok(p) ==> p@ == push_part(
            push_part(
                push_part(project_home_path(kuku_home@, workspace@), "sessions"@),
                session_id@,
            ),
            "events.jsonl"@,
        ),
        r matches Err(e) ==> e == Error::InvalidWorkspacePath(e->InvalidWorkspacePath_0)
            && e->InvalidWorkspacePath_0@ == workspace@,
{
    let mut path = project_home(kuku_home, workspace)?;
    push_literals(&mut path, "sessions", session_id, "events.jsonl");
    Ok(path)
}

/// The project's permission policy: `<project home>/policy.md`.
pub fn project_policy_path(kuku_home: &str, workspace: &str) -> (r: Result<String, Error>)
    ensures
        r is Err <==> has_parent_dir(workspace@),
        r matches Ok(p) ==> p@ == push_part(project_home_path(kuku_home@, workspace@), "policy.md"@),
        r matches Err(e) ==> e == Error::InvalidWorkspacePath(e->InvalidWorkspacePath_0)
            && e->InvalidWorkspacePath_0@ == workspace@,
{
    let mut path = project_home(kuku_home, workspace)?;
    push_str(&mut path, "policy.md");
    Ok(path)
}

/// The global memory file: `<kuku home>/memory.md`.
pub fn global_memory_path(kuku_home: &str) -> (r: String)
    ensures
        r@ == push_part(kuku_home@, "memory.md"@),
{
    let mut path = String::from_str(kuku_home);
    push_str(&mut path, "memory.md");
    path
}

/// The project's memory file: `<project home>/memory.md`.
pub fn project_memory_path(kuku_home: &str, workspace: &str) -> (r: Result<String, Error>)
    ensures
        r is Err <==> has_parent_dir(workspace@),
        r matches Ok(p) ==> p@ == push_part(project_home_path(kuku_home@, workspace@), "memory.md"@),
        r matches Err(e) ==> e == Error::InvalidWorkspacePath(e->InvalidWorkspacePath_0)
            && e->InvalidWorkspacePath_0@ == workspace@,
{
    let mut path = project_home(kuku_home, workspace)?;
    push_str(&mut path, "memory.md");
    Ok(path)
}

/// The lock file of a session, `<project home>/sessions/<id>/lock`; empty when the
/// workspace path is refused.
pub fn session_lock_path(kuku_home: &str, workspace: &str, session_id: &str) -> (r: String)
    ensures
        has_parent_dir(workspace@) ==> r@.len() == 0,
        !has_parent_dir(workspace@) ==> r@ == push_part(
            push_part(push_part(project_home_path(kuku_home@, workspace@), "sessions"@), session_id@),
            "lock"@,
        ),
{
    match project_home(kuku_home, workspace) {
        Ok(mut path) => {
            push_literals(&mut path, "sessions", session_id, "lock");
            path
        },
        Err(_) => String::new(),
    }
}

/// Whether a piece of a path is kept as a component after the first: it is neither empty
/// nor `.`.
pub open spec fn keep_piece(p: Seq<char>) -> bool {
    p.len() > 0 && p != seq!['.']
}

/// The components of a Unix path, as `Path::components` gives them: `/` for a leading
/// root, `.` only as the first component of a relative path, then every piece that is
/// neither empty nor `.`.
pub open spec fn components(s: Seq<char>) -> Seq<Seq<char>> {
    let pieces = split_slash(s);
    if s.len() > 0 && s[0] == '/' {
        seq![seq!['/']] + pieces.filter(|p: Seq<char>| keep_piece(p))
    } else if pieces[0] == seq!['.'] {
        seq![seq!['.']] + pieces.drop_first().filter(|p: Seq<char>| keep_piece(p))
    } else {
        pieces.filter(|p: Seq<char>| keep_piece(p))
    }
}

/// The components of `full` after those of `base`, when `base`'s components begin
/// `full`'s (as `Path::strip_prefix` finds); all of `full`'s otherwise.
pub open spec fn relative_to(base: Seq<Seq<char>>, full: Seq<Seq<char>>) -> Seq<Seq<char>> {
    if base.len() <= full.len() && full.subrange(0, base.len() as int) == base {
        full.subrange(base.len() as int, full.len() as int)
    } else {
        full
    }
}

/// Whether a component is not the root.
pub open spec fn not_root(c: Seq<char>) -> bool {
    c != seq!['/']
}

/// The workspace that a project home under `p_dir` stands for: `/` followed by the
/// components of the project home below `p_dir`.
pub open spec fn workspace_path(p_dir: Seq<char>, project_home: Seq<char>) -> Seq<char> {
    push_all(
        seq!['/'],
        relative_to(components(p_dir), components(project_home)).filter(|c: Seq<char>| not_root(c)),
    )
}

fn components_of(s: &str) -> (r: Vec<Vec<char>>)
    ensures
        r@.len() == components(s@).len(),
        forall|i: int| 0 <= i < r@.len() ==> (#[trigger] r@[i])@ == components(s@)[i],
{
    let pieces = split_pieces(s);
    let ghost sp = split_slash(s@);
    proof {
        lemma_split_nonempty(s@);
    }
    let c = chars_of(s);
    let absolute = c.len() > 0 && c[0] == '/';
    let dot: Vec<char> = vec!['.'];
    assert(dot@ =~= seq!['.']);
    let mut out: Vec<Vec<char>> = Vec::new();
    let mut start: usize = 0;
    if absolute {
        let root: Vec<char> = vec!['/'];
        assert(root@ =~= seq!['/']);
        out.push(root);
    } else if chars_eq(&pieces[0], &dot) {
        let cur: Vec<char> = vec!['.'];
        assert(cur@ =~= seq!['.']);
        out.push(cur);
        start = 1;
    }
    let ghost head: Seq<Seq<char>> = if absolute {
        seq![seq!['/']]
    } else if sp[0] == seq!['.'] {
        seq![seq!['.']]
    } else {
        Seq::empty()
    };
    let ghost tail = if !absolute && sp[0] == seq!['.'] {
        sp.drop_first()
    } else {
        sp
    };
    proof {
        assert(out@.len() == head.len());
        assert(forall|k: int| 0 <= k < out@.len() ==> (#[trigger] out@[k])@ == head[k]);
        assert(tail =~= sp.subrange(start as int, sp.len() as int));
    }
    let mut i: usize = start;
    while i < pieces.len()
        invariant
            start <= i <= pieces@.len(),
            pieces@.len() == sp.len(),
            forall|k: int| 0 <= k < pieces@.len() ==> (#[trigger] pieces@[k])@ == sp[k],
            tail == sp.subrange(start as int, sp.len() as int),
            dot@ == seq!['.'],
            out@.len() == head.len() + sp.subrange(start as int, i as int).filter(
                |p: Seq<char>| keep_piece(p),
            ).len(),
            forall|k: int|
                0 <= k < out@.len() ==> (#[trigger] out@[k])@ == (head + sp.subrange(
                    start as int,
                    i as int,
                ).filter(|p: Seq<char>| keep_piece(p)))[k],
        decreases pieces@.len() - i,
    {
        let ghost before = sp.subrange(start as int, i as int);
        proof {
            assert(sp.subrange(start as int, i + 1) =~= before.push(sp[i as int]));
            before.lemma_filter_push(sp[i as int], |p: Seq<char>| keep_piece(p));
        }
        if pieces[i].len() > 0 && !chars_eq(&pieces[i], &dot) {
            let piece = pieces[i].clone();
            out.push(piece);
            proof {
                assert(keep_piece(sp[i as int]));
            }
        } else {
            proof {
                assert(!keep_piece(sp[i as int]));
            }
        }
        i = i + 1;
    }
    proof {
        assert(sp.subrange(start as int, sp.len() as int) == tail);
        assert(components(s@) =~= head + tail.filter(|p: Seq<char>| keep_piece(p)));
    }
    out
}

/// The workspace that a project home under `p_dir` stands for; the inverse of
/// [`project_home`] on the workspaces that it accepts.
pub fn workspace_from_project_home(p_dir: &str, project_home: &str) -> (r: String)
    ensures
        r@ == workspace_path(p_dir@, project_home@),
{
    let base = components_of(p_dir);
    let full = components_of(project_home);
    let ghost bc = components(p_dir@);
    let ghost fc = components(project_home@);
    let mut prefix = base.len() <= full.len();
    let mut k: usize = 0;
    while prefix && k < base.len()
        invariant
            base@.len() == bc.len(),
            full@.len() == fc.len(),
            forall|q: int| 0 <= q < base@.len() ==> (#[trigger] base@[q])@ == bc[q],
            forall|q: int| 0 <= q < full@.len() ==> (#[trigger] full@[q])@ == fc[q],
            k <= base@.len(),
            prefix ==> base@.len() <= full@.len(),
            prefix ==> forall|q: int| 0 <= q < k ==> bc[q] == fc[q],
            !prefix ==> !(bc.len() <= fc.len() && fc.subrange(0, bc.len() as int) == bc),
        decreases base@.len() - k, if prefix { 1int } else { 0int },
    {
        if !chars_eq(&base[k], &full[k]) {
            proof {
                if bc.len() <= fc.len() && fc.subrange(0, bc.len() as int) == bc {
                    assert(fc.subrange(0, bc.len() as int)[k as int] == fc[k as int]);
                }
            }
            prefix = false;
        } else {
            k = k + 1;
        }
    }
    let start: usize = if prefix { base.len() } else { 0 };
    proof {
        if prefix {
            assert(fc.subrange(0, bc.len() as int) =~= bc);
        }
        assert(relative_to(bc, fc) =~= fc.subrange(start as int, fc.len() as int));
    }
    let ghost rel = fc.subrange(start as int, fc.len() as int);
    let mut path = String::from_str("/");
    proof {
        reveal_strlit("/");
    }
    let root: Vec<char> = vec!['/'];
    assert(root@ =~= seq!['/']);
    let mut i: usize = start;
    while i < full.len()
        invariant
            start <= i <= full@.len(),
            full@.len() == fc.len(),
            forall|q: int| 0 <= q < full@.len() ==> (#[trigger] full@[q])@ == fc[q],
            root@ == seq!['/'],
            path@ == push_all(
                seq!['/'],
                fc.subrange(start as int, i as int).filter(|c: Seq<char>| not_root(c)),
            ),
        decreases full@.len() - i,
    {
        let ghost before = fc.subrange(start as int, i as int);
        proof {
            assert(fc.subrange(start as int, i + 1) =~= before.push(fc[i as int]));
            before.lemma_filter_push(fc[i as int], |c: Seq<char>| not_root(c));
        }
        if !chars_eq(&full[i], &root) {
            let part = string_from_chars(&full[i]);
            push_str(&mut path, part.as_str());
            proof {
                let fb = before.filter(|c: Seq<char>| not_root(c));
                assert(fb.push(fc[i as int]).drop_last() =~= fb);
            }
        }
        i = i + 1;
    }
    proof {
        assert(fc.subrange(start as int, fc.len() as int) == rel);
    }
    path
}

/// Whether `s` holds no `/`.
pub open spec fn no_slash(s: Seq<char>) -> bool {
    forall|i: int| 0 <= i < s.len() ==> s[i] != '/'
}

proof fn lemma_pieces_have_no_slash(s: Seq<char>)
    ensures
        forall|k: int| 0 <= k < split_slash(s).len() ==> no_slash(#[trigger] split_slash(s)[k]),
    decreases s.len(),
{
    lemma_split_nonempty(s);
    if s.len() > 0 {
        lemma_pieces_have_no_slash(s.drop_last());
        lemma_split_nonempty(s.drop_last());
        let rest = split_slash(s.drop_last());
        if s.last() != '/' {
            assert forall|k: int| 0 <= k < split_slash(s).len() implies no_slash(
                #[trigger] split_slash(s)[k],
            ) by {
                if k == rest.len() - 1 {
                    let x = rest.last().push(s.last());
                    assert(split_slash(s)[k] == x);
                    assert(no_slash(rest[k]));
                    assert forall|i: int| 0 <= i < x.len() implies x[i] != '/' by {
                        if i < rest.last().len() {
                            assert(x[i] == rest[k][i]);
                        }
                    }
                } else {
                    assert(split_slash(s)[k] == rest[k]);
                }
            }
        } else {
            assert forall|k: int| 0 <= k < split_slash(s).len() implies no_slash(
                #[trigger] split_slash(s)[k],
            ) by {
                if k < rest.len() {
                    assert(split_slash(s)[k] == rest[k]);
                }
            }
        }
    }
}

proof fn lemma_split_append_word(a: Seq<char>, b: Seq<char>)
    requires
        no_slash(b),
    ensures
        split_slash(a).len() >= 1,
        split_slash(a + b) == split_slash(a).drop_last().push(split_slash(a).last() + b),
    decreases b.len(),
{
    lemma_split_nonempty(a);
    let sa = split_slash(a);
    if b.len() == 0 {
        assert(a + b =~= a);
        assert(sa.last() + b =~= sa.last());
        assert(sa.drop_last().push(sa.last()) =~= sa);
    } else {
        let b0 = b.drop_last();
        assert(no_slash(b0));
        lemma_split_append_word(a, b0);
        assert((a + b).drop_last() =~= a + b0);
        assert((a + b).last() == b.last());
        assert(b.last() != '/');
        let prev = split_slash(a + b0);
        lemma_split_nonempty(a + b0);
        assert(prev.last() == sa.last() + b0);
        assert(split_slash(a + b) == prev.update(prev.len() - 1, prev.last().push(b.last())));
        assert((sa.last() + b0).push(b.last()) =~= sa.last() + b);
        assert(split_slash(a + b) =~= sa.drop_last().push(sa.last() + b));
    }
}

proof fn lemma_filter_no_slash(s: Seq<Seq<char>>, pred: spec_fn(Seq<char>) -> bool)
    requires
        forall|i: int| 0 <= i < s.len() ==> no_slash(#[trigger] s[i]),
    ensures
        forall|i: int| 0 <= i < s.filter(pred).len() ==> no_slash(#[trigger] s.filter(pred)[i]),
    decreases s.len(),
{
    if s.len() > 0 {
        let init = s.drop_last();
        lemma_filter_no_slash(init, pred);
        assert(init.push(s.last()) =~= s);
        init.lemma_filter_push(s.last(), pred);
        assert(no_slash(s[s.len() - 1]));
    }
}

proof fn lemma_filter_keeps_all(s: Seq<Seq<char>>, pred: spec_fn(Seq<char>) -> bool)
    requires
        forall|i: int| 0 <= i < s.len() ==> pred(#[trigger] s[i]),
    ensures
        s.filter(pred) == s,
    decreases s.len(),
{
    if s.len() == 0 {
        assert(s.filter(pred) =~= s);
    } else {
        let init = s.drop_last();
        lemma_filter_keeps_all(init, pred);
        assert(init.push(s.last()) =~= s);
        init.lemma_filter_push(s.last(), pred);
    }
}

proof fn lemma_filter_agree(
    s: Seq<Seq<char>>,
    p: spec_fn(Seq<char>) -> bool,
    q: spec_fn(Seq<char>) -> bool,
)
    requires
        forall|i: int| 0 <= i < s.len() ==> p(#[trigger] s[i]) == q(s[i]),
    ensures
        s.filter(p) == s.filter(q),
    decreases s.len(),
{
    if s.len() == 0 {
        assert(s.filter(p) =~= s.filter(q));
    } else {
        let init = s.drop_last();
        lemma_filter_agree(init, p, q);
        assert(init.push(s.last()) =~= s);
        init.lemma_filter_push(s.last(), p);
        init.lemma_filter_push(s.last(), q);
    }
}

/// Appending a piece that is neither empty, `.` nor holds a `/` adds it as the last
/// component.
proof fn lemma_components_push(path: Seq<char>, part: Seq<char>)
    requires
        part.len() > 0,
        part != seq!['.'],
        no_slash(part),
    ensures
        components(push_part(path, part)) == components(path).push(part),
{
    lemma_split_nonempty(path);
    let keep = |p: Seq<char>| keep_piece(p);
    if path.len() == 0 {
        assert(path + part =~= part);
        lemma_split_append_word(path, part);
        assert(split_slash(path) =~= seq![Seq::<char>::empty()]);
        let sp = split_slash(part);
        assert(sp =~= seq![part]);
        assert(part[0] != '/');
        assert(seq![part] =~= Seq::<Seq<char>>::empty().push(part));
        Seq::<Seq<char>>::empty().lemma_filter_push(part, keep);
        assert(seq![Seq::<char>::empty()] =~= Seq::<Seq<char>>::empty().push(Seq::<char>::empty()));
        Seq::<Seq<char>>::empty().lemma_filter_push(Seq::<char>::empty(), keep);
        assert(components(path) =~= Seq::<Seq<char>>::empty());
        assert(components(part) =~= seq![part]);
    } else {
        let sp = split_slash(path);
        let joined = if path.last() == '/' {
            path + part
        } else {
            path + seq!['/'] + part
        };
        assert(push_part(path, part) == joined);
        assert(joined[0] == path[0]);
        // The pieces of the new path: those of `path`, with `part` as the last one.
        let init = if path.last() == '/' {
            assert(path.drop_last().push('/') =~= path);
            lemma_split_nonempty(path.drop_last());
            sp.drop_last()
        } else {
            sp
        };
        if path.last() == '/' {
            lemma_split_append_word(path, part);
            assert(sp == split_slash(path.drop_last()).push(Seq::<char>::empty()));
            assert(sp.last() + part =~= part);
            assert(split_slash(joined) == init.push(part));
            assert(sp =~= init.push(Seq::<char>::empty()));
        } else {
            let a = path + seq!['/'];
            assert(a.drop_last() =~= path);
            assert(split_slash(a) == sp.push(Seq::<char>::empty()));
            lemma_split_append_word(a, part);
            assert(split_slash(a).drop_last() =~= sp);
            assert(Seq::<char>::empty() + part =~= part);
            assert(split_slash(joined) == sp.push(part));
        }
        assert(init.len() >= 1);
        let nsp = split_slash(joined);
        assert(nsp == init.push(part));
        assert(nsp[0] == sp[0]);
        init.lemma_filter_push(part, keep);
        init.lemma_filter_push(Seq::<char>::empty(), keep);
        init.drop_first().lemma_filter_push(part, keep);
        init.drop_first().lemma_filter_push(Seq::<char>::empty(), keep);
        assert(init.push(part).drop_first() =~= init.drop_first().push(part));
        assert(init.push(Seq::<char>::empty()).drop_first() =~= init.drop_first().push(
            Seq::<char>::empty(),
        ));
        if path.last() == '/' {
            assert(sp.filter(keep) == init.filter(keep));
            assert(sp.drop_first().filter(keep) == init.drop_first().filter(keep));
        } else {
            assert(sp == init);
        }
        assert(components(joined) =~= components(path).push(part));
    }
}

proof fn lemma_components_push_all(path: Seq<char>, parts: Seq<Seq<char>>)
    requires
        forall|i: int|
            0 <= i < parts.len() ==> (#[trigger] parts[i]).len() > 0 && parts[i] != seq!['.']
                && no_slash(parts[i]),
    ensures
        components(push_all(path, parts)) == components(path) + parts,
    decreases parts.len(),
{
    if parts.len() == 0 {
        assert(components(path) + parts =~= components(path));
    } else {
        let init = parts.drop_last();
        lemma_components_push_all(path, init);
        assert(parts.last() == parts[parts.len() - 1]);
        lemma_components_push(push_all(path, init), parts.last());
        assert(components(path) + init.push(parts.last()) =~= (components(path) + init).push(
            parts.last(),
        ));
        assert(init.push(parts.last()) =~= parts);
    }
}

/// The workspace that [`workspace_from_project_home`] gives back from the project home
/// that [`project_home`] made for a workspace under the same kuku home is `/` followed by
/// the workspace's directory names: the workspace itself, made absolute, without empty
/// and `.` components. For an absolute workspace it is the same path as the workspace:
/// the two have the same components, which is what `Path` equality compares.
pub proof fn law_workspace_from_project_home_inverts_project_home(
    kuku_home: Seq<char>,
    workspace: Seq<char>,
)
    requires
        !has_parent_dir(workspace),
    ensures
        workspace_path(push_part(kuku_home, seq!['p']), project_home_path(kuku_home, workspace))
            == push_all(seq!['/'], normal_parts(workspace)),
        workspace.len() > 0 && workspace[0] == '/' ==> components(
            workspace_path(push_part(kuku_home, seq!['p']), project_home_path(kuku_home, workspace)),
        ) == components(workspace),
{
    let p_dir = push_part(kuku_home, seq!['p']);
    let parts = normal_parts(workspace);
    lemma_pieces_have_no_slash(workspace);
    let sp = split_slash(workspace);
    lemma_filter_no_slash(sp, |p: Seq<char>| is_normal(p));
    assert forall|i: int| 0 <= i < parts.len() implies (#[trigger] parts[i]).len() > 0
        && parts[i] != seq!['.'] && no_slash(parts[i]) by {
        sp.lemma_filter_pred(|p: Seq<char>| is_normal(p), i);
    }
    assert(no_slash(seq!['p']));
    assert(seq!['p'] != seq!['.']) by {
        assert(seq!['p'][0] != seq!['.'][0]);
    }
    lemma_components_push(kuku_home, seq!['p']);
    lemma_components_push_all(p_dir, parts);
    let base = components(p_dir);
    let full = components(project_home_path(kuku_home, workspace));
    assert(full == base + parts);
    assert(full.subrange(0, base.len() as int) =~= base);
    assert(full.subrange(base.len() as int, full.len() as int) =~= parts);
    assert(relative_to(base, full) == parts);
    assert forall|i: int| 0 <= i < parts.len() implies not_root(#[trigger] parts[i]) by {
        assert(no_slash(parts[i]));
        if parts[i] == seq!['/'] {
            assert(parts[i][0] == '/');
        }
    }
    lemma_filter_keeps_all(parts, |c: Seq<char>| not_root(c));
    lemma_components_push_all(seq!['/'], parts);
    assert(components(seq!['/']) == seq![seq!['/']]) by {
        let sp1 = split_slash(seq!['/']);
        assert(seq!['/'].drop_last() =~= Seq::<char>::empty());
        assert(split_slash(Seq::<char>::empty()) == seq![Seq::<char>::empty()]);
        assert(seq!['/'].last() == '/');
        assert(sp1 == split_slash(Seq::<char>::empty()).push(Seq::<char>::empty()));
        assert(sp1 =~= seq![Seq::<char>::empty(), Seq::<char>::empty()]);
        let e = Seq::<char>::empty();
        assert(seq![e].push(e) =~= sp1);
        seq![e].lemma_filter_push(e, |p: Seq<char>| keep_piece(p));
        assert(Seq::<Seq<char>>::empty().push(e) =~= seq![e]);
        Seq::<Seq<char>>::empty().lemma_filter_push(e, |p: Seq<char>| keep_piece(p));
        assert(Seq::<Seq<char>>::empty().filter(|p: Seq<char>| keep_piece(p)) =~= Seq::<Seq<char>>::empty());
        assert(sp1.filter(|p: Seq<char>| keep_piece(p)) =~= Seq::<Seq<char>>::empty());
    }
    if workspace.len() > 0 && workspace[0] == '/' {
        assert forall|i: int| 0 <= i < sp.len() implies keep_piece(#[trigger] sp[i]) == is_normal(sp[i]) by {
            if sp[i] == seq!['.', '.'] {
                assert(sp.contains(seq!['.', '.']));
            }
        }
        lemma_filter_agree(sp, |p: Seq<char>| keep_piece(p), |p: Seq<char>| is_normal(p));
        assert(seq![seq!['/']] + parts == components(workspace));
    }
}

/// The kuku home: the `KUKU_HOME` value when it is set, else `.kuku` in the user's home
/// directory. An empty `KUKU_HOME` is refused; without either there is no home.
pub fn kuku_home_with_env(kuku_home_var: Option<String>, home_dir: Option<String>) -> (r: Result<
    String,
    Error,
>)
    ensures
        kuku_home_var matches Some(v) ==> (if v@.len() == 0 {
            r matches Err(e) && e == Error::InvalidKukuHome(e->InvalidKukuHome_0)
                && e->InvalidKukuHome_0@.len() == 0
        } else {
            r matches Ok(p) && p@ == v@
        }),
        kuku_home_var is None ==> (match home_dir {
            Some(h) => r matches Ok(p) && p@ == push_part(h@, ".kuku"@),
            None => r == Err::<String, Error>(Error::MissingHomeDirectory),
        }),
{
    match kuku_home_var {
        Some(v) => {
            if v.as_str().is_empty() {
                Err(Error::InvalidKukuHome(String::new()))
            } else {
                Ok(v)
            }
        },
        None => match home_dir {
            Some(h) => {
                let mut p = h;
                push_str(&mut p, ".kuku");
                Ok(p)
            },
            None => Err(Error::MissingHomeDirectory),
        },
    }
}


/// Whether some piece of `s` between slashes is `..`.
pub fn has_parent_dir_str(s: &str) -> (b: bool)
    ensures
        b == has_parent_dir(s@),
{
    let pieces = split_pieces(s);
    let ghost sp = split_slash(s@);
    let dotdot: Vec<char> = vec!['.', '.'];
    let mut i: usize = 0;
    while i < pieces.len()
        invariant
            i <= pieces@.len(),
            pieces@.len() == sp.len(),
            sp == split_slash(s@),
            forall|k: int| 0 <= k < pieces@.len() ==> (#[trigger] pieces@[k])@ == sp[k],
            dotdot@ == seq!['.', '.'],
            forall|k: int| 0 <= k < i ==> sp[k] != seq!['.', '.'],
        decreases pieces@.len() - i,
    {
        if chars_eq(&pieces[i], &dotdot) {
            proof {
                assert(sp[i as int] == seq!['.', '.']);
                assert(sp.contains(seq!['.', '.']));
            }
            return true;
        }
        i = i + 1;
    }
    proof {
        if sp.contains(seq!['.', '.']) {
            let k = choose|k: int| 0 <= k < sp.len() && sp[k] == seq!['.', '.'];
        }
    }
    false
}

} // verus!
