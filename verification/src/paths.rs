//! Lexical path handling on `/`-separated strings, as `std::path` does it
//! on Unix: the last component, lexical normalization, joins, and the
//! "strict descendant of the volumes root" test.

use vstd::prelude::*;
use crate::config::seqs;
use crate::config_model::path_join;
use crate::text::{push_chars, str_chars, string_push, subvec, chars_to_string, chars_eq_str, copy_vec};

verus! {

/// Index of the last `/` in `s`, or -1.
pub open spec fn last_slash(s: Seq<char>) -> int
    decreases s.len(),
{
    if s.len() == 0 {
        -1
    } else if s.last() == '/' {
        s.len() - 1
    } else {
        last_slash(s.drop_last())
    }
}

pub proof fn lemma_last_slash(s: Seq<char>)
    ensures
        -1 <= last_slash(s) < s.len(),
        last_slash(s) >= 0 ==> s[last_slash(s)] == '/',
        forall|k: int| last_slash(s) < k < s.len() ==> s[k] != '/',
    decreases s.len(),
{
    if s.len() > 0 && s.last() != '/' {
        lemma_last_slash(s.drop_last());
        assert forall|k: int| last_slash(s) < k < s.len() implies s[k] != '/' by {
            if k < s.len() - 1 {
                assert(s.drop_last()[k] == s[k]);
            }
        }
    }
}

/// `Path::file_name`: the last component when it is a normal one. Trailing
/// slashes and `.` components are skipped; `..`, a bare root and the empty
/// path have none.
pub open spec fn file_name(s: Seq<char>) -> Option<Seq<char>>
    decreases s.len(),
{
    if s.len() == 0 {
        None
    } else if s.last() == '/' {
        file_name(s.drop_last())
    } else {
        let k = last_slash(s);
        let seg = s.subrange(k + 1, s.len() as int);
        proof {
            lemma_last_slash(s);
        }
        if seg == seq!['.'] {
            file_name(s.subrange(0, k + 1))
        } else if seg == seq!['.', '.'] {
            None
        } else {
            Some(seg)
        }
    }
}

/// The last component of `p` as a string, or `""` when it has none.
pub open spec fn file_name_or_empty(p: Seq<char>) -> Seq<char> {
    match file_name(p) {
        Some(n) => n,
        None => seq![],
    }
}

fn last_slash_exec(s: &Vec<char>, len: usize) -> (r: Option<usize>)
    requires
        len <= s.len(),
    ensures
        match r {
            Some(k) => last_slash(s@.subrange(0, len as int)) == k as int && k < len,
            None => last_slash(s@.subrange(0, len as int)) == -1,
        },
{
    let mut j = len;
    while j > 0
        invariant
            j <= len <= s.len(),
            last_slash(s@.subrange(0, len as int)) == last_slash(s@.subrange(0, j as int)),
        decreases j,
    {
        assert(s@.subrange(0, j as int).drop_last() =~= s@.subrange(0, j - 1));
        if s[j - 1] == '/' {
            return Some(j - 1);
        }
        j = j - 1;
    }
    None
}

/// The last component of a path is its own last component.
pub proof fn lemma_file_name_is_a_name(p: Seq<char>)
    ensures
        file_name_or_empty(file_name_or_empty(p)) == file_name_or_empty(p),
    decreases p.len(),
{
    if p.len() > 0 {
        if p.last() == '/' {
            lemma_file_name_is_a_name(p.drop_last());
        } else {
            lemma_last_slash(p);
            let k = last_slash(p);
            let seg = p.subrange(k + 1, p.len() as int);
            if seg == seq!['.'] {
                lemma_file_name_is_a_name(p.subrange(0, k + 1));
            } else if seg != seq!['.', '.'] {
                assert(seg.len() > 0);
                assert(seg.last() == p.last());
                assert forall|j: int| 0 <= j < seg.len() implies seg[j] != '/' by {
                    assert(seg[j] == p[k + 1 + j]);
                }
                lemma_no_slash_last_slash(seg);
                assert(seg.subrange(0, seg.len() as int) =~= seg);
            }
        }
    } else {
        assert(file_name_or_empty(p) =~= Seq::<char>::empty());
    }
}

proof fn lemma_no_slash_last_slash(s: Seq<char>)
    requires
        forall|j: int| 0 <= j < s.len() ==> s[j] != '/',
    ensures
        last_slash(s) == -1,
    decreases s.len(),
{
    if s.len() > 0 {
        lemma_no_slash_last_slash(s.drop_last());
    }
}

/// The last component of a path, or `""` when it has none.
pub fn file_name_of(path: &str) -> (r: String)
    ensures
        r@ == file_name_or_empty(path@),
{
    let s = str_chars(path);
    let mut len = s.len();
    assert(s@.subrange(0, len as int) =~= s@);
    loop
        invariant
            len <= s.len(),
            s@ == path@,
            file_name(s@) == file_name(s@.subrange(0, len as int)),
        decreases len,
    {
        let ghost cur = s@.subrange(0, len as int);
        if len == 0 {
            assert(cur =~= Seq::<char>::empty());
            return String::new();
        }
        if s[len - 1] == '/' {
            assert(cur.drop_last() =~= s@.subrange(0, len - 1));
            len = len - 1;
            continue;
        }
        let seg_start = match last_slash_exec(&s, len) {
            Some(k) => k + 1,
            None => 0,
        };
        proof {
            lemma_last_slash(cur);
        }
        let seg = subvec(&s, seg_start, len);
        assert(seg@ =~= cur.subrange(last_slash(cur) + 1, cur.len() as int));
        if seg.len() == 1 && seg[0] == '.' {
            assert(seg@ =~= seq!['.']);
            assert(cur.subrange(0, seg_start as int) =~= s@.subrange(0, seg_start as int));
            len = seg_start;
            continue;
        }
        if seg.len() == 2 && seg[0] == '.' && seg[1] == '.' {
            assert(seg@ =~= seq!['.', '.']);
            return String::new();
        }
        proof {
            if seg@ == seq!['.'] {
                assert(seg@.len() == 1);
            }
            if seg@ == seq!['.', '.'] {
                assert(seg@.len() == 2);
            }
        }
        return chars_to_string(&seg);
    }
}

// ------------------------------------------------------- normalization

/// The `/`-separated pieces of `s[i..]`, from index `i`, having collected
/// `segs` and the current piece `cur`.
pub open spec fn segments_from(s: Seq<char>, i: int, segs: Seq<Seq<char>>, cur: Seq<char>) -> Seq<
    Seq<char>,
>
    decreases s.len() - i,
{
    if i >= s.len() || i < 0 {
        segs.push(cur)
    } else if s[i] == '/' {
        segments_from(s, i + 1, segs.push(cur), seq![])
    } else {
        segments_from(s, i + 1, segs, cur.push(s[i]))
    }
}

/// `s` split at every `/` (empty pieces included).
pub open spec fn segments(s: Seq<char>) -> Seq<Seq<char>> {
    segments_from(s, 0, seq![], seq![])
}

/// Lexical normalization of the pieces `segs[i..]` onto `out`: empty and
/// `.` pieces vanish, `..` removes the last kept component, or is kept
/// itself when there is none to remove.
pub open spec fn normalize_from(segs: Seq<Seq<char>>, i: int, out: Seq<Seq<char>>) -> Seq<
    Seq<char>,
>
    decreases segs.len() - i,
{
    if i >= segs.len() || i < 0 {
        out
    } else {
        let g = segs[i];
        if g.len() == 0 || g == seq!['.'] {
            normalize_from(segs, i + 1, out)
        } else if g == seq!['.', '.'] {
            if out.len() > 0 {
                normalize_from(segs, i + 1, out.drop_last())
            } else {
                normalize_from(segs, i + 1, out.push(g))
            }
        } else {
            normalize_from(segs, i + 1, out.push(g))
        }
    }
}

/// The components of `p` after lexical normalization.
pub open spec fn clean_components(p: Seq<char>) -> Seq<Seq<char>> {
    normalize_from(segments(p), 0, seq![])
}

pub open spec fn is_absolute(p: Seq<char>) -> bool {
    p.len() > 0 && p[0] == '/'
}

/// Components joined by `/`.
pub open spec fn join_components(c: Seq<Seq<char>>) -> Seq<char>
    decreases c.len(),
{
    if c.len() == 0 {
        seq![]
    } else if c.len() == 1 {
        c[0]
    } else {
        join_components(c.drop_last()) + seq!['/'] + c.last()
    }
}

/// The lexically normalized path: `.` and empty components dropped, `..`
/// resolved against the previous component (kept when there is none), `.`
/// for an empty relative result.
pub open spec fn clean_path_spec(p: Seq<char>) -> Seq<char> {
    let c = clean_components(p);
    if is_absolute(p) {
        seq!['/'] + join_components(c)
    } else if c.len() == 0 {
        seq!['.']
    } else {
        join_components(c)
    }
}

/// The components that `Path` comparison sees in a normalized path: a root
/// marker for an absolute path, and `.` for an empty relative one.
pub open spec fn compared_components(p: Seq<char>) -> Seq<Seq<char>> {
    let c = clean_components(p);
    if is_absolute(p) {
        seq![seq!['/']] + c
    } else if c.len() == 0 {
        seq![seq!['.']]
    } else {
        c
    }
}

pub open spec fn is_prefix<T>(a: Seq<T>, b: Seq<T>) -> bool {
    a.len() <= b.len() && b.subrange(0, a.len() as int) == a
}

/// After lexical normalization, `dest` is not strictly below `root`.
pub open spec fn escapes_root_spec(root: Seq<char>, dest: Seq<char>) -> bool {
    let a = compared_components(root);
    let b = compared_components(dest);
    !(is_prefix(a, b) && a.len() < b.len())
}

fn segments_exec(s: &Vec<char>) -> (r: Vec<Vec<char>>)
    ensures
        crate::config::seqs(r@) == segments(s@),
{
    let mut segs: Vec<Vec<char>> = Vec::new();
    let mut cur: Vec<char> = Vec::new();
    let mut i: usize = 0;
    assert(crate::config::seqs(segs@) =~= Seq::<Seq<char>>::empty());
    while i < s.len()
        invariant
            i <= s.len(),
            segments(s@) == segments_from(s@, i as int, crate::config::seqs(segs@), cur@),
        decreases s.len() - i,
    {
        if s[i] == '/' {
            let ghost before = crate::config::seqs(segs@);
            let done = cur;
            segs.push(done);
            cur = Vec::new();
            assert(crate::config::seqs(segs@) =~= before.push(done@));
            assert(cur@ =~= Seq::<char>::empty());
        } else {
            cur.push(s[i]);
        }
        i = i + 1;
    }
    let ghost before = crate::config::seqs(segs@);
    let done = cur;
    segs.push(done);
    assert(crate::config::seqs(segs@) =~= before.push(done@));
    segs
}

fn clean_components_exec(s: &Vec<char>) -> (r: Vec<Vec<char>>)
    ensures
        crate::config::seqs(r@) == clean_components(s@),
{
    let segs = segments_exec(s);
    let mut out: Vec<Vec<char>> = Vec::new();
    let mut i: usize = 0;
    assert(crate::config::seqs(out@) =~= Seq::<Seq<char>>::empty());
    while i < segs.len()
        invariant
            i <= segs.len(),
            crate::config::seqs(segs@) == segments(s@),
            clean_components(s@) == normalize_from(
                crate::config::seqs(segs@),
                i as int,
                crate::config::seqs(out@),
            ),
        decreases segs.len() - i,
    {
        let g = &segs[i];
        assert(crate::config::seqs(segs@)[i as int] == g@);
        let ghost before = crate::config::seqs(out@);
        if g.len() == 0 || (g.len() == 1 && g[0] == '.') {
            proof {
                if g.len() == 1 {
                    assert(g@ =~= seq!['.']);
                }
            }
        } else if g.len() == 2 && g[0] == '.' && g[1] == '.' {
            assert(g@ =~= seq!['.', '.']);
            if out.len() > 0 {
                out.pop();
                assert(crate::config::seqs(out@) =~= before.drop_last());
            } else {
                out.push(copy_vec(g));
                assert(crate::config::seqs(out@) =~= before.push(g@));
            }
        } else {
            proof {
                if g@ == seq!['.'] {
                    assert(g@.len() == 1);
                }
                if g@ == seq!['.', '.'] {
                    assert(g@.len() == 2);
                }
            }
            out.push(copy_vec(g));
            assert(crate::config::seqs(out@) =~= before.push(g@));
        }
        i = i + 1;
    }
    out
}

fn join_exec(c: &Vec<Vec<char>>) -> (r: String)
    ensures
        r@ == join_components(crate::config::seqs(c@)),
{
    let mut r = String::new();
    let mut i: usize = 0;
    assert(crate::config::seqs(c@).subrange(0, 0) =~= Seq::<Seq<char>>::empty());
    while i < c.len()
        invariant
            i <= c.len(),
            r@ == join_components(crate::config::seqs(c@).subrange(0, i as int)),
        decreases c.len() - i,
    {
        let ghost pre = crate::config::seqs(c@).subrange(0, i as int);
        let ghost nxt = crate::config::seqs(c@).subrange(0, i + 1);
        assert(nxt.drop_last() =~= pre);
        if i > 0 {
            string_push(&mut r, '/');
        }
        push_chars(&mut r, &c[i]);
        proof {
            if i == 0 {
                assert(r@ =~= c@[0]@);
            } else {
                assert(r@ =~= join_components(pre) + seq!['/'] + c@[i as int]@);
            }
        }
        i = i + 1;
    }
    assert(crate::config::seqs(c@).subrange(0, i as int) =~= crate::config::seqs(c@));
    r
}

/// Lexically normalize a path, resolving `.` and `..` without touching the
/// filesystem (so it works for not-yet-existing destinations).
pub fn clean_path(p: &str) -> (r: String)
    ensures
        r@ == clean_path_spec(p@),
{
    let s = str_chars(p);
    let c = clean_components_exec(&s);
    if s.len() > 0 && s[0] == '/' {
        let mut r = String::new();
        string_push(&mut r, '/');
        let j = join_exec(&c);
        push_str_string(&mut r, &j);
        assert(r@ =~= seq!['/'] + join_components(clean_components(p@)));
        r
    } else if c.len() == 0 {
        let mut r = String::new();
        string_push(&mut r, '.');
        assert(r@ =~= seq!['.']);
        r
    } else {
        join_exec(&c)
    }
}

fn push_str_string(s: &mut String, t: &String)
    ensures
        final(s)@ == old(s)@ + t@,
{
    crate::text::push_str(s, t.as_str());
}

fn compared_exec(s: &Vec<char>) -> (r: Vec<Vec<char>>)
    ensures
        crate::config::seqs(r@) == compared_components(s@),
{
    let c = clean_components_exec(s);
    if s.len() > 0 && s[0] == '/' {
        let mut r: Vec<Vec<char>> = Vec::new();
        let root = vec!['/'];
        assert(root@ =~= seq!['/']);
        r.push(root);
        let mut i: usize = 0;
        assert(crate::config::seqs(r@) =~= seq![seq!['/']] + crate::config::seqs(c@).subrange(0, 0));
        while i < c.len()
            invariant
                i <= c.len(),
                crate::config::seqs(r@) == seq![seq!['/']] + crate::config::seqs(c@).subrange(
                    0,
                    i as int,
                ),
            decreases c.len() - i,
        {
            let ghost before = crate::config::seqs(r@);
            r.push(copy_vec(&c[i]));
            assert(crate::config::seqs(r@) =~= before.push(c@[i as int]@));
            i = i + 1;
            assert(crate::config::seqs(r@) =~= seq![seq!['/']] + crate::config::seqs(c@).subrange(0, i as int));
        }
        assert(crate::config::seqs(c@).subrange(0, i as int) =~= crate::config::seqs(c@));
        r
    } else if c.len() == 0 {
        let mut r: Vec<Vec<char>> = Vec::new();
        let dot = vec!['.'];
        assert(dot@ =~= seq!['.']);
        r.push(dot);
        assert(crate::config::seqs(r@) =~= seq![seq!['.']]);
        r
    } else {
        c
    }
}

/// A destination is never strictly below itself: a destination that is
/// the volumes root is refused.
pub proof fn lemma_root_itself_escapes(p: Seq<char>)
    ensures
        escapes_root_spec(p, p),
{
}

/// True when, after lexical normalization, `dest` is not strictly below
/// `root`: equal to it, beside it, or above it.
pub fn escapes_root(root: &str, dest: &str) -> (r: bool)
    ensures
        r == escapes_root_spec(root@, dest@),
{
    let a = compared_exec(&str_chars(root));
    let b = compared_exec(&str_chars(dest));
    if a.len() >= b.len() {
        return true;
    }
    let mut i: usize = 0;
    while i < a.len()
        invariant
            i <= a.len() < b.len(),
            crate::config::seqs(a@) == compared_components(root@),
            crate::config::seqs(b@) == compared_components(dest@),
            forall|k: int| 0 <= k < i ==> a@[k]@ == b@[k]@,
        decreases a.len() - i,
    {
        if !crate::text::chars_eq(&a[i], &b[i]) {
            assert(crate::config::seqs(b@).subrange(0, a.len() as int)[i as int] == b@[i as int]@);
            assert(crate::config::seqs(a@)[i as int] == a@[i as int]@);
            return true;
        }
        i = i + 1;
    }
    assert(crate::config::seqs(b@).subrange(0, a.len() as int) =~= crate::config::seqs(a@));
    false
}

/// `Path::join` on strings.
pub fn join_path(base: &str, rest: &str) -> (r: String)
    ensures
        r@ == path_join(base@, rest@),
{
    let b = str_chars(base);
    let t = str_chars(rest);
    if t.len() > 0 && t[0] == '/' {
        return chars_to_string(&t);
    }
    if b.len() == 0 {
        return chars_to_string(&t);
    }
    let mut r = chars_to_string(&b);
    if b[b.len() - 1] != '/' {
        string_push(&mut r, '/');
    }
    push_chars(&mut r, &t);
    r
}

/// `s` split at every `/`.
pub(crate) fn slash_segments(s: &str) -> (r: Vec<String>)
    ensures
        crate::config::strs(r@) == segments(s@),
{
    let v = str_chars(s);
    let segs = segments_exec(&v);
    let mut r: Vec<String> = Vec::new();
    let mut i: usize = 0;
    while i < segs.len()
        invariant
            i <= segs.len(),
            crate::config::seqs(segs@) == segments(s@),
            crate::config::strs(r@) == crate::config::seqs(segs@).subrange(0, i as int),
        decreases segs.len() - i,
    {
        let ghost before = crate::config::strs(r@);
        r.push(chars_to_string(&segs[i]));
        assert(crate::config::strs(r@) =~= before.push(segs@[i as int]@));
        i = i + 1;
        assert(crate::config::strs(r@) =~= crate::config::seqs(segs@).subrange(0, i as int));
    }
    assert(crate::config::seqs(segs@).subrange(0, i as int) =~= crate::config::seqs(segs@));
    r
}

/// The first `/`-separated piece of a relative path.
pub open spec fn first_segment(p: Seq<char>) -> Seq<char> {
    segments(p)[0]
}

pub proof fn lemma_segments_nonempty(s: Seq<char>, i: int, segs: Seq<Seq<char>>, cur: Seq<char>)
    ensures
        segments_from(s, i, segs, cur).len() > segs.len(),
        segs.len() > 0 ==> segments_from(s, i, segs, cur)[0] == segs[0],
    decreases s.len() - i,
{
    if !(i >= s.len() || i < 0) {
        if s[i] == '/' {
            lemma_segments_nonempty(s, i + 1, segs.push(cur), seq![]);
        } else {
            lemma_segments_nonempty(s, i + 1, segs, cur.push(s[i]));
        }
    }
}

/// True when a relative path is `.git` or lies inside it.
pub fn is_git_rel(rel: &str) -> (r: bool)
    ensures
        r == (segments(rel@).len() > 0 && first_segment(rel@) == ".git"@),
{
    let s = str_chars(rel);
    let segs = segments_exec(&s);
    proof {
        lemma_segments_nonempty(s@, 0, seq![], seq![]);
    }
    assert(crate::config::seqs(segs@)[0] == segs@[0]@);
    chars_eq_str(&segs[0], ".git")
}

/// The pieces of `segs` other than empty ones and `.`, in order.
pub open spec fn keep_components(segs: Seq<Seq<char>>) -> Seq<Seq<char>>
    decreases segs.len(),
{
    if segs.len() == 0 {
        seq![]
    } else {
        let g = segs.last();
        let head = keep_components(segs.drop_last());
        if g.len() > 0 && g != seq!['.'] {
            head.push(g)
        } else {
            head
        }
    }
}

/// The components of a relative path: its `/`-separated pieces without
/// the empty ones and `.`.
pub open spec fn components(p: Seq<char>) -> Seq<Seq<char>> {
    keep_components(segments(p))
}

pub(crate) fn components_exec(p: &str) -> (r: Vec<Vec<char>>)
    ensures
        seqs(r@) == components(p@),
{
    let segs = slash_segments(p);
    let mut r: Vec<Vec<char>> = Vec::new();
    let mut i: usize = 0;
    assert(crate::config::strs(segs@).subrange(0, 0) =~= Seq::<Seq<char>>::empty());
    assert(seqs(r@) =~= Seq::<Seq<char>>::empty());
    while i < segs.len()
        invariant
            i <= segs.len(),
            crate::config::strs(segs@) == segments(p@),
            seqs(r@) == keep_components(crate::config::strs(segs@).subrange(0, i as int)),
        decreases segs.len() - i,
    {
        let ghost pre = crate::config::strs(segs@).subrange(0, i as int);
        assert(crate::config::strs(segs@).subrange(0, i + 1).drop_last() =~= pre);
        let g = crate::text::str_chars(segs[i].as_str());
        assert(crate::config::strs(segs@)[i as int] == g@);
        let keep = g.len() > 0 && !(g.len() == 1 && g[0] == '.');
        proof {
            if g@ == seq!['.'] {
                assert(g@.len() == 1);
            }
            if g.len() == 1 && g@[0] == '.' {
                assert(g@ =~= seq!['.']);
            }
        }
        if keep {
            let ghost before = seqs(r@);
            r.push(g);
            assert(seqs(r@) =~= before.push(g@));
        }
        i = i + 1;
    }
    assert(crate::config::strs(segs@).subrange(0, i as int) =~= crate::config::strs(segs@));
    r
}


/// The components `Path` sees in `p`: a root for a leading `/`, a
/// current-directory `.` only at the very start, then the pieces between
/// slashes other than empty ones and `.`.
pub open spec fn path_components(p: Seq<char>) -> Seq<Seq<char>> {
    if p.len() > 0 && p[0] == '/' {
        seq![seq!['/']] + components(p)
    } else if segments(p)[0] == seq!['.'] {
        seq![seq!['.']] + components(p)
    } else {
        components(p)
    }
}

pub(crate) fn path_components_exec(p: &str) -> (r: Vec<Vec<char>>)
    ensures
        seqs(r@) == path_components(p@),
{
    let c = components_exec(p);
    let s = str_chars(p);
    let segs = slash_segments(p);
    proof {
        lemma_segments_nonempty(p@, 0, seq![], seq![]);
    }
    assert(crate::config::strs(segs@)[0] == segs@[0]@);
    proof {
        reveal_strlit(".");
        assert("."@ =~= seq!['.']);
    }
    let absolute = s.len() > 0 && s[0] == '/';
    let dot_first = chars_eq_str(&str_chars(segs[0].as_str()), ".");
    assert(absolute == (p@.len() > 0 && p@[0] == '/'));
    assert(dot_first == (segments(p@)[0] == seq!['.']));
    let lead: Option<char> = if absolute {
        Some('/')
    } else if dot_first {
        Some('.')
    } else {
        None
    };
    match lead {
        None => c,
        Some(mark) => {
            let mut r: Vec<Vec<char>> = Vec::new();
            let m = vec![mark];
            assert(m@ =~= seq![mark]);
            r.push(m);
            let mut i: usize = 0;
            assert(seqs(r@) =~= seq![seq![mark]] + seqs(c@).subrange(0, 0));
            while i < c.len()
                invariant
                    i <= c.len(),
                    seqs(r@) == seq![seq![mark]] + seqs(c@).subrange(0, i as int),
                decreases c.len() - i,
            {
                let ghost before = seqs(r@);
                r.push(copy_vec(&c[i]));
                assert(seqs(r@) =~= before.push(c@[i as int]@));
                i = i + 1;
                assert(seqs(r@) =~= seq![seq![mark]] + seqs(c@).subrange(0, i as int));
            }
            assert(seqs(c@).subrange(0, i as int) =~= seqs(c@));
            r
        },
    }
}

/// `Path::starts_with`: the components of `base` lead those of `p`.
pub fn path_starts_with(p: &str, base: &str) -> (r: bool)
    ensures
        r == is_prefix(path_components(base@), path_components(p@)),
{
    let a = path_components_exec(base);
    let b = path_components_exec(p);
    if a.len() > b.len() {
        return false;
    }
    let mut i: usize = 0;
    while i < a.len()
        invariant
            i <= a.len() <= b.len(),
            seqs(a@) == path_components(base@),
            seqs(b@) == path_components(p@),
            forall|k: int| 0 <= k < i ==> a@[k]@ == b@[k]@,
        decreases a.len() - i,
    {
        if !crate::text::chars_eq(&a[i], &b[i]) {
            assert(seqs(b@).subrange(0, a.len() as int)[i as int] == b@[i as int]@);
            assert(seqs(a@)[i as int] == a@[i as int]@);
            return false;
        }
        i = i + 1;
    }
    assert(seqs(b@).subrange(0, a.len() as int) =~= seqs(a@));
    true
}


// ------------------------------------------- normalizing is idempotent

pub open spec fn no_slash(g: Seq<char>) -> bool {
    forall|k: int| 0 <= k < g.len() ==> g[k] != '/'
}

/// A component that normalization keeps as it is.
pub open spec fn plain_name(g: Seq<char>) -> bool {
    &&& g.len() > 0
    &&& no_slash(g)
    &&& g != seq!['.']
    &&& g != seq!['.', '.']
}

/// A normalized component list: plain names, after at most one leading `..`.
pub open spec fn normalized(c: Seq<Seq<char>>) -> bool {
    forall|i: int| 0 <= i < c.len() ==> plain_name(#[trigger] c[i]) || (i == 0 && c[i] == seq!['.', '.'])
}

proof fn lemma_segments_from_no_slash(s: Seq<char>, i: int, segs: Seq<Seq<char>>, cur: Seq<char>)
    requires
        forall|j: int| 0 <= j < segs.len() ==> no_slash(#[trigger] segs[j]),
        no_slash(cur),
    ensures
        forall|j: int|
            0 <= j < segments_from(s, i, segs, cur).len() ==> no_slash(#[trigger] segments_from(s, i, segs, cur)[j]),
    decreases s.len() - i,
{
    assert forall|j: int| 0 <= j < segs.push(cur).len() implies no_slash(#[trigger] segs.push(cur)[j]) by {
        if j < segs.len() {
            assert(segs.push(cur)[j] == segs[j]);
        }
    }
    if !(i >= s.len() || i < 0) {
        if s[i] == '/' {
            lemma_segments_from_no_slash(s, i + 1, segs.push(cur), seq![]);
            assert(segments_from(s, i, segs, cur) == segments_from(s, i + 1, segs.push(cur), seq![]));
        } else {
            assert(segments_from(s, i, segs, cur) == segments_from(s, i + 1, segs, cur.push(s[i])));
            assert(no_slash(cur.push(s[i]))) by {
                assert forall|k: int| 0 <= k < cur.push(s[i]).len() implies cur.push(s[i])[k] != '/' by {
                    if k < cur.len() {
                        assert(cur.push(s[i])[k] == cur[k]);
                    }
                }
            }
            lemma_segments_from_no_slash(s, i + 1, segs, cur.push(s[i]));
        }
    }
}

proof fn lemma_normalize_keeps_normalized(segs: Seq<Seq<char>>, i: int, out: Seq<Seq<char>>)
    requires
        0 <= i,
        normalized(out),
        forall|j: int| 0 <= j < segs.len() ==> no_slash(#[trigger] segs[j]),
    ensures
        normalized(normalize_from(segs, i, out)),
    decreases segs.len() - i,
{
    if i < segs.len() {
        let g = segs[i];
        if g.len() == 0 || g == seq!['.'] {
            lemma_normalize_keeps_normalized(segs, i + 1, out);
        } else if g == seq!['.', '.'] {
            if out.len() > 0 {
                assert(normalized(out.drop_last())) by {
                    assert forall|k: int| 0 <= k < out.drop_last().len() implies plain_name(
                        #[trigger] out.drop_last()[k],
                    ) || (k == 0 && out.drop_last()[k] == seq!['.', '.']) by {
                        assert(out.drop_last()[k] == out[k]);
                    }
                }
                lemma_normalize_keeps_normalized(segs, i + 1, out.drop_last());
            } else {
                assert(normalized(out.push(g))) by {
                    assert forall|k: int| 0 <= k < out.push(g).len() implies plain_name(#[trigger] out.push(g)[k])
                        || (k == 0 && out.push(g)[k] == seq!['.', '.']) by {
                        assert(k == 0);
                    }
                }
                lemma_normalize_keeps_normalized(segs, i + 1, out.push(g));
            }
        } else {
            assert(normalized(out.push(g))) by {
                assert forall|k: int| 0 <= k < out.push(g).len() implies plain_name(#[trigger] out.push(g)[k])
                    || (k == 0 && out.push(g)[k] == seq!['.', '.']) by {
                    if k < out.len() {
                        assert(out.push(g)[k] == out[k]);
                    }
                }
            }
            lemma_normalize_keeps_normalized(segs, i + 1, out.push(g));
        }
    }
}

/// Scanning a piece without `/` just extends the current component.
proof fn lemma_segments_from_plain(s: Seq<char>, i: int, segs: Seq<Seq<char>>, cur: Seq<char>)
    requires
        0 <= i <= s.len(),
        forall|k: int| i <= k < s.len() ==> s[k] != '/',
    ensures
        segments_from(s, i, segs, cur) == segs.push(cur + s.subrange(i, s.len() as int)),
    decreases s.len() - i,
{
    if i < s.len() {
        lemma_segments_from_plain(s, i + 1, segs, cur.push(s[i]));
        assert(cur.push(s[i]) + s.subrange(i + 1, s.len() as int) =~= cur + s.subrange(i, s.len() as int));
    } else {
        assert(cur + s.subrange(i, s.len() as int) =~= cur);
    }
}

/// Scanning `x + t` past `x` is scanning `t`.
proof fn lemma_segments_from_shift(x: Seq<char>, t: Seq<char>, j: int, segs: Seq<Seq<char>>, cur: Seq<char>)
    requires
        0 <= j <= t.len(),
    ensures
        segments_from(x + t, x.len() + j, segs, cur) == segments_from(t, j, segs, cur),
    decreases t.len() - j,
{
    if j < t.len() {
        assert((x + t)[x.len() + j] == t[j]);
        if t[j] == '/' {
            lemma_segments_from_shift(x, t, j + 1, segs.push(cur), seq![]);
        } else {
            lemma_segments_from_shift(x, t, j + 1, segs, cur.push(t[j]));
        }
    }
}

/// The components collected so far stay in front.
proof fn lemma_segments_from_acc(s: Seq<char>, i: int, segs: Seq<Seq<char>>, cur: Seq<char>)
    ensures
        segments_from(s, i, segs, cur) == segs + segments_from(s, i, seq![], cur),
    decreases s.len() - i,
{
    if !(i >= s.len() || i < 0) {
        if s[i] == '/' {
            lemma_segments_from_acc(s, i + 1, segs.push(cur), seq![]);
            lemma_segments_from_acc(s, i + 1, seq![cur], seq![]);
            assert(segs.push(cur) =~= segs + seq![cur]);
            assert(seq![].push(cur) =~= seq![cur]);
            assert(segs + (seq![cur] + segments_from(s, i + 1, seq![], seq![])) =~= (segs + seq![cur])
                + segments_from(s, i + 1, seq![], seq![]));
        } else {
            lemma_segments_from_acc(s, i + 1, segs, cur.push(s[i]));
        }
    } else {
        assert(segs.push(cur) =~= segs + seq![].push(cur));
    }
}

/// A `/` then a piece without `/` adds that piece as the last component.
proof fn lemma_segments_slash_piece(x: Seq<char>, g: Seq<char>)
    requires
        no_slash(g),
    ensures
        segments(x + seq!['/'] + g) == segments(x).push(g),
{
    let t = seq!['/'] + g;
    assert(x + seq!['/'] + g =~= x + t);
    // Scanning x leaves some components and a current piece; then t follows.
    lemma_segments_prefix(x, t, 0, seq![], seq![]);
    let r = segments(x);
    lemma_segments_nonempty(x, 0, seq![], seq![]);
    let st = scan_end(x, 0, seq![], seq![]);
    assert(segments_from(x + t, x.len() as int, st.0, st.1) == segments_from(t, 0, st.0, st.1)) by {
        lemma_segments_from_shift(x, t, 0, st.0, st.1);
    }
    assert(t[0] == '/');
    lemma_segments_from_plain(t, 1, st.0.push(st.1), seq![]);
    assert(seq![] + t.subrange(1, t.len() as int) =~= g);
}

/// Where scanning `s` from `i` ends: the components so far and the
/// current piece.
spec fn scan_end(s: Seq<char>, i: int, segs: Seq<Seq<char>>, cur: Seq<char>) -> (Seq<Seq<char>>, Seq<char>)
    decreases s.len() - i,
{
    if i >= s.len() || i < 0 {
        (segs, cur)
    } else if s[i] == '/' {
        scan_end(s, i + 1, segs.push(cur), seq![])
    } else {
        scan_end(s, i + 1, segs, cur.push(s[i]))
    }
}

/// Scanning `x + t` from inside `x` reaches the end of `x` in the state
/// `scan_end` names, and the pieces of `x` alone are that state closed.
proof fn lemma_segments_prefix(x: Seq<char>, t: Seq<char>, i: int, segs: Seq<Seq<char>>, cur: Seq<char>)
    requires
        0 <= i <= x.len(),
    ensures
        segments_from(x + t, i, segs, cur) == segments_from(
            x + t,
            x.len() as int,
            scan_end(x, i, segs, cur).0,
            scan_end(x, i, segs, cur).1,
        ),
        segments_from(x, i, segs, cur) == scan_end(x, i, segs, cur).0.push(scan_end(x, i, segs, cur).1),
    decreases x.len() - i,
{
    if i < x.len() {
        assert((x + t)[i] == x[i]);
        if x[i] == '/' {
            lemma_segments_prefix(x, t, i + 1, segs.push(cur), seq![]);
        } else {
            lemma_segments_prefix(x, t, i + 1, segs, cur.push(x[i]));
        }
    }
}


proof fn lemma_segments_of_join(c: Seq<Seq<char>>)
    requires
        c.len() >= 1,
        forall|j: int| 0 <= j < c.len() ==> no_slash(#[trigger] c[j]),
    ensures
        segments(join_components(c)) == c,
    decreases c.len(),
{
    if c.len() == 1 {
        lemma_segments_from_plain(c[0], 0, seq![], seq![]);
        assert(seq![] + c[0].subrange(0, c[0].len() as int) =~= c[0]);
        assert(seq![].push(c[0]) =~= c);
    } else {
        lemma_segments_of_join(c.drop_last());
        lemma_segments_slash_piece(join_components(c.drop_last()), c.last());
        assert(c.drop_last().push(c.last()) =~= c);
    }
}

proof fn lemma_join_first(c: Seq<Seq<char>>)
    requires
        c.len() >= 1,
        c[0].len() > 0,
    ensures
        join_components(c).len() > 0,
        join_components(c)[0] == c[0][0],
    decreases c.len(),
{
    if c.len() > 1 {
        lemma_join_first(c.drop_last());
    }
}

proof fn lemma_normalize_identity(c: Seq<Seq<char>>, i: int)
    requires
        normalized(c),
        0 <= i <= c.len(),
    ensures
        normalize_from(c, i, c.take(i)) == c,
    decreases c.len() - i,
{
    if i < c.len() {
        let g = c[i];
        assert(plain_name(g) || (i == 0 && g == seq!['.', '.']));
        assert(c.take(i).push(g) =~= c.take(i + 1));
        if g == seq!['.', '.'] {
            assert(c.take(i).len() == 0);
        }
        lemma_normalize_identity(c, i + 1);
    } else {
        assert(c.take(i) =~= c);
    }
}

proof fn lemma_normalize_shift(pre: Seq<Seq<char>>, c: Seq<Seq<char>>, j: int, out: Seq<Seq<char>>)
    requires
        0 <= j <= c.len(),
    ensures
        normalize_from(pre + c, pre.len() + j, out) == normalize_from(c, j, out),
    decreases c.len() - j,
{
    if j < c.len() {
        assert((pre + c)[pre.len() + j] == c[j]);
        let g = c[j];
        if g.len() == 0 || g == seq!['.'] {
            lemma_normalize_shift(pre, c, j + 1, out);
        } else if g == seq!['.', '.'] {
            if out.len() > 0 {
                lemma_normalize_shift(pre, c, j + 1, out.drop_last());
            } else {
                lemma_normalize_shift(pre, c, j + 1, out.push(g));
            }
        } else {
            lemma_normalize_shift(pre, c, j + 1, out.push(g));
        }
    }
}

proof fn lemma_segments_rooted(j: Seq<char>)
    ensures
        segments(seq!['/'] + j) == seq![Seq::<char>::empty()] + segments(j),
{
    let x = seq!['/'];
    assert(segments(x + j) == segments_from(x + j, 1, seq![Seq::<char>::empty()], seq![])) by {
        assert((x + j)[0] == '/');
        assert(seq![].push(Seq::<char>::empty()) =~= seq![Seq::<char>::empty()]);
    }
    lemma_segments_from_shift(x, j, 0, seq![Seq::<char>::empty()], seq![]);
    lemma_segments_from_acc(j, 0, seq![Seq::<char>::empty()], seq![]);
}

/// Normalizing a normalized path changes nothing.
pub proof fn lemma_clean_path_idempotent(p: Seq<char>)
    ensures
        clean_path_spec(clean_path_spec(p)) == clean_path_spec(p),
{
    let c = clean_components(p);
    lemma_segments_from_no_slash(p, 0, seq![], seq![]);
    lemma_normalize_keeps_normalized(segments(p), 0, seq![]);
    assert(normalized(c));
    assert forall|k: int| 0 <= k < c.len() implies no_slash(#[trigger] c[k]) by {
        assert(plain_name(c[k]) || c[k] == seq!['.', '.']);
    }
    let q = clean_path_spec(p);
    lemma_normalize_identity(c, 0);
    assert(c.take(0) =~= Seq::<Seq<char>>::empty());
    if is_absolute(p) {
        let jn = join_components(c);
        assert(q == seq!['/'] + jn);
        lemma_segments_rooted(jn);
        let pre = seq![Seq::<char>::empty()];
        if c.len() > 0 {
            lemma_segments_of_join(c);
        } else {
            assert(jn =~= Seq::<char>::empty());
            assert(segments(jn) =~= seq![Seq::<char>::empty()]);
        }
        let tail = segments(jn);
        assert(segments(q) == pre + tail);
        lemma_normalize_shift(pre, tail, 0, seq![]);
        assert(normalize_from(pre + tail, 0, seq![]) == normalize_from(pre + tail, 1, seq![]));
        if c.len() > 0 {
            assert(clean_components(q) == c);
        } else {
            assert(normalize_from(tail, 0, seq![]) == normalize_from(tail, 1, seq![]));
            assert(clean_components(q) =~= c);
        }
        assert(is_absolute(q));
    } else if c.len() == 0 {
        assert(q == seq!['.']);
        lemma_segments_from_plain(q, 0, seq![], seq![]);
        assert(seq![] + q.subrange(0, 1) =~= q);
        assert(segments(q) =~= seq![q]);
        assert(normalize_from(seq![q], 1, seq![]) == Seq::<Seq<char>>::empty());
        assert(normalize_from(seq![q], 0, seq![]) == normalize_from(seq![q], 1, seq![]));
        assert(clean_components(q) =~= Seq::<Seq<char>>::empty());
    } else {
        assert(q == join_components(c));
        lemma_segments_of_join(c);
        assert(plain_name(c[0]) || c[0] == seq!['.', '.']);
        lemma_join_first(c);
        assert(!is_absolute(q));
        assert(clean_components(q) == c);
    }
}

} // verus!
