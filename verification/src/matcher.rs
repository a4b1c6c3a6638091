//! File selection: globs with `*`, `?` and `**`, the optional file-name
//! regular expression, excludes, the `.DS_Store` default, and the age
//! guard.

use vstd::prelude::*;
use crate::config::Entry;
use crate::config_model::EntrySpec;
use crate::paths::{file_name, file_name_of, file_name_or_empty};
use crate::text::{chars_eq_str, has_char, str_chars};

verus! {

// ------------------------------------------------------------------ globs

/// Does `p[pi..]` match `s[si..]`? `**` matches any sequence, `*` any
/// sequence without `/`, `?` one character other than `/`; every other
/// character matches itself.
pub open spec fn glob_at(p: Seq<char>, pi: int, s: Seq<char>, si: int) -> bool
    decreases p.len() - pi, 0int,
{
    if pi >= p.len() || pi < 0 {
        si >= s.len()
    } else if pi + 1 < p.len() && p[pi] == '*' && p[pi + 1] == '*' {
        deep_from(p, pi + 2, s, si)
    } else if p[pi] == '*' {
        shallow_from(p, pi + 1, s, si)
    } else if p[pi] == '?' {
        0 <= si < s.len() && s[si] != '/' && glob_at(p, pi + 1, s, si + 1)
    } else {
        0 <= si < s.len() && s[si] == p[pi] && glob_at(p, pi + 1, s, si + 1)
    }
}

/// `p[qi..]` matches `s[j..]` for some `j >= i`.
pub open spec fn deep_from(p: Seq<char>, qi: int, s: Seq<char>, i: int) -> bool
    decreases p.len() - qi, s.len() + 1 - i,
{
    if i > s.len() || i < 0 {
        false
    } else {
        glob_at(p, qi, s, i) || deep_from(p, qi, s, i + 1)
    }
}

/// `p[qi..]` matches `s[j..]` for some `j >= i` with no `/` in `s[i..j]`.
pub open spec fn shallow_from(p: Seq<char>, qi: int, s: Seq<char>, i: int) -> bool
    decreases p.len() - qi, s.len() + 1 - i,
{
    if i > s.len() || i < 0 {
        false
    } else {
        glob_at(p, qi, s, i) || (i < s.len() && s[i] != '/' && shallow_from(p, qi, s, i + 1))
    }
}

pub open spec fn glob(p: Seq<char>, s: Seq<char>) -> bool {
    glob_at(p, 0, s, 0)
}

/// A pattern without `/` is matched against the file name only; an empty
/// pattern matches only the empty path.
pub open spec fn glob_match_spec(pattern: Seq<char>, path: Seq<char>) -> bool {
    if pattern.len() == 0 {
        path.len() == 0
    } else if !has_char(pattern, '/') {
        glob(pattern, file_name_or_empty(path))
    } else {
        glob(pattern, path)
    }
}

fn match_at(p: &Vec<char>, pi: usize, s: &Vec<char>, si: usize) -> (r: bool)
    requires
        pi <= p.len(),
        si <= s.len(),
    ensures
        r == glob_at(p@, pi as int, s@, si as int),
    decreases p.len() - pi,
{
    if pi >= p.len() {
        return si >= s.len();
    }
    if pi + 1 < p.len() && p[pi] == '*' && p[pi + 1] == '*' {
        let mut i = si;
        assert(glob_at(p@, pi as int, s@, si as int) == deep_from(p@, pi + 2, s@, si as int));
        loop
            invariant
                pi + 2 <= p.len(),
                glob_at(p@, pi as int, s@, si as int) == deep_from(p@, pi + 2, s@, si as int),
                si <= i <= s.len(),
                deep_from(p@, pi + 2, s@, si as int) == deep_from(p@, pi + 2, s@, i as int),
            decreases s.len() - i,
        {
            if match_at(p, pi + 2, s, i) {
                return true;
            }
            if i == s.len() {
                assert(!deep_from(p@, pi + 2, s@, i + 1));
                return false;
            }
            i = i + 1;
        }
    } else if p[pi] == '*' {
        let mut i = si;
        assert(glob_at(p@, pi as int, s@, si as int) == shallow_from(p@, pi + 1, s@, si as int));
        loop
            invariant
                pi + 1 <= p.len(),
                glob_at(p@, pi as int, s@, si as int) == shallow_from(p@, pi + 1, s@, si as int),
                si <= i <= s.len(),
                shallow_from(p@, pi + 1, s@, si as int) == shallow_from(p@, pi + 1, s@, i as int),
            decreases s.len() - i,
        {
            if match_at(p, pi + 1, s, i) {
                return true;
            }
            if i == s.len() || s[i] == '/' {
                return false;
            }
            i = i + 1;
        }
    } else if p[pi] == '?' {
        si < s.len() && s[si] != '/' && match_at(p, pi + 1, s, si + 1)
    } else {
        si < s.len() && s[si] == p[pi] && match_at(p, pi + 1, s, si + 1)
    }
}

fn has_slash(p: &Vec<char>) -> (r: bool)
    ensures
        r == has_char(p@, '/'),
{
    let mut i: usize = 0;
    while i < p.len()
        invariant
            i <= p.len(),
            forall|k: int| 0 <= k < i ==> p@[k] != '/',
        decreases p.len() - i,
    {
        if p[i] == '/' {
            return true;
        }
        i = i + 1;
    }
    false
}

/// Hand-rolled glob matcher supporting `*`, `?`, and `**`.
pub fn glob_match(pattern: &str, path: &str) -> (r: bool)
    ensures
        r == glob_match_spec(pattern@, path@),
{
    let p = str_chars(pattern);
    if p.len() == 0 {
        let s = str_chars(path);
        return s.len() == 0;
    }
    if !has_slash(&p) {
        let name = str_chars(file_name_of(path).as_str());
        return match_at(&p, 0, &name, 0);
    }
    let s = str_chars(path);
    match_at(&p, 0, &s, 0)
}

// ------------------------------------------------------------ glob laws

proof fn lemma_literal_at(p: Seq<char>, pi: int, s: Seq<char>, si: int)
    requires
        0 <= pi <= p.len(),
        0 <= si <= s.len(),
        forall|k: int| 0 <= k < p.len() ==> p[k] != '*' && p[k] != '?',
    ensures
        glob_at(p, pi, s, si) <==> s.subrange(si, s.len() as int) == p.subrange(
            pi,
            p.len() as int,
        ),
    decreases p.len() - pi,
{
    if pi < p.len() {
        if si < s.len() {
            lemma_literal_at(p, pi + 1, s, si + 1);
            assert(s.subrange(si, s.len() as int) == seq![s[si]] + s.subrange(
                si + 1,
                s.len() as int,
            ));
            assert(p.subrange(pi, p.len() as int) == seq![p[pi]] + p.subrange(
                pi + 1,
                p.len() as int,
            ));
            if s.subrange(si, s.len() as int) == p.subrange(pi, p.len() as int) {
                assert(s.subrange(si, s.len() as int)[0] == p.subrange(pi, p.len() as int)[0]);
                assert(s.subrange(si + 1, s.len() as int) =~= s.subrange(si, s.len() as int).drop_first());
                assert(p.subrange(pi + 1, p.len() as int) =~= p.subrange(pi, p.len() as int).drop_first());
            }
        } else {
            assert(s.subrange(si, s.len() as int).len() == 0);
        }
    } else {
        assert(p.subrange(pi, p.len() as int).len() == 0);
        if si < s.len() {
            assert(s.subrange(si, s.len() as int).len() > 0);
        } else {
            assert(s.subrange(si, s.len() as int) =~= p.subrange(pi, p.len() as int));
        }
    }
}

/// A pattern without `*` or `?` matches exactly the string equal to it.
pub proof fn lemma_glob_literal(p: Seq<char>, s: Seq<char>)
    requires
        forall|k: int| 0 <= k < p.len() ==> p[k] != '*' && p[k] != '?',
    ensures
        glob(p, s) <==> s == p,
{
    lemma_literal_at(p, 0, s, 0);
    assert(s.subrange(0, s.len() as int) =~= s);
    assert(p.subrange(0, p.len() as int) =~= p);
}

proof fn lemma_star_rest(s: Seq<char>, i: int)
    requires
        0 <= i <= s.len(),
    ensures
        shallow_from(seq!['*'], 1, s, i) <==> (forall|k: int| i <= k < s.len() ==> s[k] != '/'),
    decreases s.len() - i,
{
    let p = seq!['*'];
    if i < s.len() {
        lemma_star_rest(s, i + 1);
        assert(!glob_at(p, 1, s, i));
    } else {
        assert(glob_at(p, 1, s, i));
    }
}

/// A lone `*` matches exactly the strings without `/`: it never crosses a
/// directory boundary.
pub proof fn lemma_glob_star(s: Seq<char>)
    ensures
        glob(seq!['*'], s) <==> !has_char(s, '/'),
{
    lemma_star_rest(s, 0);
}

proof fn lemma_deep_rest(s: Seq<char>, i: int)
    requires
        0 <= i <= s.len(),
    ensures
        deep_from(seq!['*', '*'], 2, s, i),
    decreases s.len() - i,
{
    if i < s.len() {
        lemma_deep_rest(s, i + 1);
    } else {
        assert(glob_at(seq!['*', '*'], 2, s, i));
    }
}

/// `**` matches every string, across `/` too.
pub proof fn lemma_glob_double_star(s: Seq<char>)
    ensures
        glob(seq!['*', '*'], s),
{
    lemma_deep_rest(s, 0);
}

/// A pattern without `/` looks at the file name only: matching a path or
/// just its last component gives the same answer.
pub proof fn lemma_glob_sees_file_name(pattern: Seq<char>, path: Seq<char>)
    requires
        pattern.len() > 0,
        !has_char(pattern, '/'),
    ensures
        glob_match_spec(pattern, path) == glob_match_spec(pattern, file_name_or_empty(path)),
{
    crate::paths::lemma_file_name_is_a_name(path);
}

/// The number of `/` in `s[i..]`.
pub open spec fn slashes_from(s: Seq<char>, i: int) -> nat
    decreases s.len() - i,
{
    if i >= s.len() || i < 0 {
        0
    } else {
        (if s[i] == '/' {
            1nat
        } else {
            0nat
        }) + slashes_from(s, i + 1)
    }
}

/// No `**` anywhere in the pattern.
pub open spec fn no_double_star(p: Seq<char>) -> bool {
    forall|k: int| 0 <= k < p.len() - 1 ==> !(p[k] == '*' && #[trigger] p[k + 1] == '*')
}

proof fn lemma_glob_at_slashes(p: Seq<char>, pi: int, s: Seq<char>, si: int)
    requires
        no_double_star(p),
        0 <= pi,
        0 <= si,
        glob_at(p, pi, s, si),
    ensures
        slashes_from(p, pi) == slashes_from(s, si),
    decreases p.len() - pi, 0int,
{
    if pi < p.len() {
        if pi + 1 < p.len() && p[pi] == '*' && p[pi + 1] == '*' {
            assert(!(p[pi] == '*' && p[pi + 1] == '*'));
        } else if p[pi] == '*' {
            lemma_shallow_slashes(p, pi + 1, s, si);
        } else if p[pi] == '?' {
            lemma_glob_at_slashes(p, pi + 1, s, si + 1);
        } else {
            lemma_glob_at_slashes(p, pi + 1, s, si + 1);
        }
    }
}

proof fn lemma_shallow_slashes(p: Seq<char>, qi: int, s: Seq<char>, i: int)
    requires
        no_double_star(p),
        0 <= qi,
        0 <= i,
        shallow_from(p, qi, s, i),
    ensures
        slashes_from(p, qi) == slashes_from(s, i),
    decreases p.len() - qi, s.len() + 1 - i,
{
    if i <= s.len() {
        if glob_at(p, qi, s, i) {
            lemma_glob_at_slashes(p, qi, s, i);
        } else {
            lemma_shallow_slashes(p, qi, s, i + 1);
        }
    }
}

/// Without `**`, `*` and `?` never match a `/`: a pattern holding `/`
/// matches only paths with exactly as many `/` as it has.
pub proof fn lemma_glob_keeps_depth(pattern: Seq<char>, path: Seq<char>)
    requires
        has_char(pattern, '/'),
        no_double_star(pattern),
        glob_match_spec(pattern, path),
    ensures
        slashes_from(pattern, 0) == slashes_from(path, 0),
{
    lemma_glob_at_slashes(pattern, 0, path, 0);
}


// ------------------------------------------------- regular expressions

#[verifier::external_type_specification]
#[verifier::external_body]
pub struct ExRegex(regex::Regex);

#[verifier::external_type_specification]
#[verifier::external_body]
pub struct ExRegexError(regex::Error);

/// Whether `regex::Regex::new` accepts `pattern` (with its default limits).
pub uninterp spec fn regex_compiles(pattern: Seq<char>) -> bool;

/// Whether the expression compiled from `pattern` by `regex::Regex::new`
/// finds a match anywhere in `haystack` (`Regex::is_match`).
pub uninterp spec fn regex_matches(pattern: Seq<char>, haystack: Seq<char>) -> bool;

/// A compiled file-name expression together with the text it was compiled
/// from; only `compile_name_re` builds one.
pub struct NameRegex {
    source: String,
    re: regex::Regex,
}

impl View for NameRegex {
    type V = Seq<char>;

    closed spec fn view(&self) -> Seq<char> {
        self.source@
    }
}

/// Calls `regex::Regex::new`. Claims that it succeeds exactly when
/// `regex_compiles` holds of the pattern, and that the result keeps the
/// pattern it was compiled from.
#[verifier::external_body]
fn compile_name_re(pattern: &str) -> (r: Result<NameRegex, regex::Error>)
    ensures
        r is Ok <==> regex_compiles(pattern@),
        r matches Ok(nr) ==> nr@ == pattern@,
{
    match regex::Regex::new(pattern) {
        Ok(re) => Ok(NameRegex { source: pattern.to_string(), re }),
        Err(e) => Err(e),
    }
}

/// Calls `regex::Regex::is_match`. Claims that the answer is
/// `regex_matches` of the pattern the expression was compiled from and the
/// haystack.
#[verifier::external_body]
fn name_re_is_match(nr: &NameRegex, haystack: &str) -> (r: bool)
    ensures
        r == regex_matches(nr@, haystack@),
{
    nr.re.is_match(haystack)
}

// ------------------------------------------------------------ selection

/// Why selecting files failed: a directory could not be read (with the
/// error's text), or the file-name expression does not compile.
#[derive(Debug)]
pub enum MatchError {
    Io(String),
    Regex(regex::Error),
}

/// A selected file: its path, its size in bytes, and its modification time
/// in nanoseconds since the Unix epoch (negative before it).
#[derive(Debug, Clone, PartialEq, Eq)]
pub struct Candidate {
    pub path: String,
    pub size: u64,
    pub mtime_nanos: i128,
}

/// Some pattern of `pats` matches `path`.
pub open spec fn any_glob(pats: Seq<Seq<char>>, path: Seq<char>) -> bool {
    exists|i: int| 0 <= i < pats.len() && glob_match_spec(#[trigger] pats[i], path)
}

pub open spec fn ds_store() -> Seq<char> {
    seq!['.', 'D', 'S', '_', 'S', 't', 'o', 'r', 'e']
}

/// `.DS_Store` is listed literally among the includes.
pub open spec fn ds_store_included(includes: Seq<Seq<char>>) -> bool {
    exists|i: int| 0 <= i < includes.len() && includes[i] == ds_store()
}

/// The include globs admit `rel` (no includes admit everything).
pub open spec fn included(e: EntrySpec, rel: Seq<char>) -> bool {
    e.includes.len() == 0 || any_glob(e.includes, rel)
}

/// The content-free checks of a file, given whether its name passes the
/// file-name expression: an include matches (or there are none), the name
/// passes, no exclude matches, and it is not `.DS_Store` unless that name
/// is included literally.
pub open spec fn selected(e: EntrySpec, rel: Seq<char>, name: Seq<char>, name_ok: bool) -> bool {
    &&& included(e, rel)
    &&& name_ok
    &&& !any_glob(e.exclude, rel)
    &&& (name != ds_store() || ds_store_included(e.includes))
}

fn any_glob_exec(pats: &Vec<String>, path: &str) -> (r: bool)
    ensures
        r == any_glob(crate::config::strs(pats@), path@),
{
    let mut i: usize = 0;
    while i < pats.len()
        invariant
            i <= pats.len(),
            forall|k: int|
                0 <= k < i ==> !glob_match_spec(#[trigger] crate::config::strs(pats@)[k], path@),
        decreases pats.len() - i,
    {
        assert(crate::config::strs(pats@)[i as int] == pats@[i as int]@);
        if glob_match(pats[i].as_str(), path) {
            return true;
        }
        i = i + 1;
    }
    false
}

fn is_ds_store(name: &str) -> (r: bool)
    ensures
        r == (name@ == ds_store()),
{
    let v = str_chars(name);
    let w = vec!['.', 'D', 'S', '_', 'S', 't', 'o', 'r', 'e'];
    assert(w@ =~= ds_store());
    crate::text::chars_eq(&v, &w)
}

fn ds_store_included_exec(includes: &Vec<String>) -> (r: bool)
    ensures
        r == ds_store_included(crate::config::strs(includes@)),
{
    let mut i: usize = 0;
    while i < includes.len()
        invariant
            i <= includes.len(),
            forall|k: int| 0 <= k < i ==> crate::config::strs(includes@)[k] != ds_store(),
        decreases includes.len() - i,
    {
        assert(crate::config::strs(includes@)[i as int] == includes@[i as int]@);
        if is_ds_store(includes[i].as_str()) {
            return true;
        }
        i = i + 1;
    }
    false
}

/// `.DS_Store` files are left out unless asked for by name.
pub fn is_excluded_by_default(path: &str) -> (r: bool)
    ensures
        r == (file_name(path@) == Some(ds_store())),
{
    let name = file_name_of(path);
    let r = is_ds_store(name.as_str());
    proof {
        if file_name(path@) is None {
            assert(ds_store().len() == 9);
        }
    }
    r
}

/// The selection checks, given the file-name expression's verdict.
pub fn decide_selected(entry: &Entry, rel_path: &str, name: &str, name_ok: bool) -> (r: bool)
    ensures
        r == selected(entry@, rel_path@, name@, name_ok),
{
    if entry.includes.len() > 0 && !any_glob_exec(&entry.includes, rel_path) {
        return false;
    }
    if !name_ok {
        return false;
    }
    if any_glob_exec(&entry.exclude, rel_path) {
        return false;
    }
    if is_ds_store(name) && !ds_store_included_exec(&entry.includes) {
        return false;
    }
    true
}

/// The verdict of the file-name expression on `name`: none configured
/// passes everything.
pub open spec fn name_verdict(e: EntrySpec, name: Seq<char>) -> bool {
    match e.name_re {
        None => true,
        Some(p) => regex_matches(p, name),
    }
}

/// The content-free checks on the file at `path`, whose path relative to
/// the source root is `rel_path`. The expression is compiled only when an
/// include admits the file; when it does not compile, that is the error.
pub fn passes_filters(entry: &Entry, rel_path: &str, path: &str) -> (r: Result<bool, MatchError>)
    ensures
        match r {
            Err(e) => e is Regex && included(entry@, rel_path@) && entry@.name_re is Some
                && !regex_compiles(entry@.name_re->0),
            Ok(b) => b == selected(
                entry@,
                rel_path@,
                file_name_or_empty(path@),
                name_verdict(entry@, file_name_or_empty(path@)),
            ) && !(included(entry@, rel_path@) && entry@.name_re is Some && !regex_compiles(
                entry@.name_re->0,
            )),
        },
{
    let name = file_name_of(path);
    if entry.includes.len() > 0 && !any_glob_exec(&entry.includes, rel_path) {
        return Ok(false);
    }
    let name_ok = match &entry.name_re {
        None => true,
        Some(p) => match compile_name_re(p.as_str()) {
            Ok(nr) => name_re_is_match(&nr, name.as_str()),
            Err(e) => {
                return Err(MatchError::Regex(e));
            },
        },
    };
    Ok(decide_selected(entry, rel_path, name.as_str(), name_ok))
}

/// Exclude wins over include: a file that an exclude glob matches is never
/// selected, whatever the includes say.
pub proof fn lemma_exclude_wins(e: EntrySpec, rel: Seq<char>, name: Seq<char>, name_ok: bool)
    requires
        any_glob(e.exclude, rel),
    ensures
        !selected(e, rel, name, name_ok),
{
}

/// Every pattern of a list counts, wherever it stands: a file is selected
/// exactly when some include glob matches its relative path (or there are
/// none), its name passes the file-name expression, no exclude glob at any
/// position matches it, and it is not `.DS_Store` unless some include is
/// literally that name. In particular an exclude at position `i` that
/// matches rules the file out.
pub proof fn lemma_every_pattern_counts(
    e: EntrySpec,
    rel: Seq<char>,
    name: Seq<char>,
    name_ok: bool,
    i: int,
)
    ensures
        selected(e, rel, name, name_ok) <==> {
            &&& (e.includes.len() == 0 || exists|k: int|
                0 <= k < e.includes.len() && glob_match_spec(#[trigger] e.includes[k], rel))
            &&& name_ok
            &&& forall|k: int|
                0 <= k < e.exclude.len() ==> !glob_match_spec(#[trigger] e.exclude[k], rel)
            &&& (name != ds_store() || exists|k: int|
                0 <= k < e.includes.len() && #[trigger] e.includes[k] == ds_store())
        },
        0 <= i < e.exclude.len() && glob_match_spec(e.exclude[i], rel) ==> !selected(
            e,
            rel,
            name,
            name_ok,
        ),
        0 <= i < e.includes.len() && glob_match_spec(e.includes[i], rel) ==> included(e, rel),
{
}

/// `.DS_Store` is never selected unless it is listed literally among the
/// includes.
pub proof fn lemma_ds_store_left_out(e: EntrySpec, rel: Seq<char>, name_ok: bool)
    requires
        !ds_store_included(e.includes),
    ensures
        !selected(e, rel, ds_store(), name_ok),
{
}

// ------------------------------------------------------------------ age

pub open spec fn nanos_per_minute() -> int {
    60_000_000_000
}

/// A file is old enough when the time since its modification (zero when
/// it lies in the future) is at least the configured number of minutes.
pub open spec fn old_enough_spec(now_nanos: int, mtime_nanos: int, min_age_minutes: int) -> bool {
    let age = if now_nanos > mtime_nanos {
        now_nanos - mtime_nanos
    } else {
        0
    };
    age >= min_age_minutes * nanos_per_minute()
}

/// The age guard on nanosecond timestamps. The minute count is turned into
/// seconds in 64 bits, so it must stay below `u64::MAX / 60`.
pub fn old_enough(now_nanos: i128, mtime_nanos: i128, min_age_minutes: u64) -> (r: bool)
    requires
        min_age_minutes <= u64::MAX / 60,
        -0x1_0000_0000_0000_0000_0000_0000_0000 <= now_nanos <= 0x1_0000_0000_0000_0000_0000_0000_0000,
        -0x1_0000_0000_0000_0000_0000_0000_0000 <= mtime_nanos <= 0x1_0000_0000_0000_0000_0000_0000_0000,
    ensures
        r == old_enough_spec(now_nanos as int, mtime_nanos as int, min_age_minutes as int),
{
    let age: i128 = if now_nanos > mtime_nanos {
        now_nanos - mtime_nanos
    } else {
        0
    };
    let limit: i128 = (min_age_minutes as i128) * 60_000_000_000;
    age >= limit
}

} // verus!
