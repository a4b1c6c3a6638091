//! Character-sequence utilities: Unicode whitespace, trimming, decimal
//! rendering, and conversions between `str`, `String` and `Vec<char>`.

use vstd::prelude::*;

verus! {

/// The Unicode `White_Space` property, which `char::is_whitespace` and
/// `str::trim` test.
pub open spec fn is_ws(c: char) -> bool {
    let u = c as u32;
    ||| (0x09 <= u && u <= 0x0d)
    ||| u == 0x20
    ||| u == 0x85
    ||| u == 0xa0
    ||| u == 0x1680
    ||| (0x2000 <= u && u <= 0x200a)
    ||| u == 0x2028
    ||| u == 0x2029
    ||| u == 0x202f
    ||| u == 0x205f
    ||| u == 0x3000
}

pub fn is_whitespace(c: char) -> (r: bool)
    ensures
        r == is_ws(c),
{
    let u = c as u32;
    (0x09 <= u && u <= 0x0d) || u == 0x20 || u == 0x85 || u == 0xa0 || u == 0x1680 || (0x2000
        <= u && u <= 0x200a) || u == 0x2028 || u == 0x2029 || u == 0x202f || u == 0x205f || u
        == 0x3000
}

pub open spec fn trim_start(s: Seq<char>) -> Seq<char>
    decreases s.len(),
{
    if s.len() > 0 && is_ws(s[0]) {
        trim_start(s.drop_first())
    } else {
        s
    }
}

pub open spec fn trim_end(s: Seq<char>) -> Seq<char>
    decreases s.len(),
{
    if s.len() > 0 && is_ws(s.last()) {
        trim_end(s.drop_last())
    } else {
        s
    }
}

/// `str::trim`: drop leading and trailing whitespace.
pub open spec fn trim(s: Seq<char>) -> Seq<char> {
    trim_end(trim_start(s))
}

pub open spec fn is_digit(c: char) -> bool {
    '0' <= c && c <= '9'
}

pub open spec fn digit_char(d: nat) -> char {
    ((48 + d) as u8) as char
}

/// Decimal rendering of a natural number, without leading zeros.
pub open spec fn dec(n: nat) -> Seq<char>
    decreases n,
{
    if n < 10 {
        seq![digit_char(n)]
    } else {
        dec(n / 10).push(digit_char(n % 10))
    }
}

/// Decimal rendering of an integer, with a leading `-` when negative.
pub open spec fn idec(v: int) -> Seq<char> {
    if v < 0 {
        seq!['-'] + dec((-v) as nat)
    } else {
        dec(v as nat)
    }
}

/// `s` left-padded with `0` to at least `w` characters.
pub open spec fn zpad(s: Seq<char>, w: nat) -> Seq<char>
    decreases w,
{
    if s.len() >= w {
        s
    } else {
        seq!['0'] + zpad(s, (w - 1) as nat)
    }
}

/// Does `c` occur in `s`?
pub open spec fn has_char(s: Seq<char>, c: char) -> bool {
    exists|i: int| 0 <= i < s.len() && s[i] == c
}

/// `String::push`: append one character.
#[verifier::external_body]
pub(crate) fn string_push(s: &mut String, c: char)
    ensures
        final(s)@ == old(s)@.push(c),
{
    s.push(c);
}

/// The characters of `s`, in order.
pub fn str_chars(s: &str) -> (v: Vec<char>)
    ensures
        v@ == s@,
{
    let mut v: Vec<char> = Vec::new();
    for c in it: s.chars()
        invariant
            v@ == it.seq().take(it.index() as int),
            it.seq() == s@,
    {
        v.push(c);
    }
    v
}

pub fn chars_to_string(v: &Vec<char>) -> (s: String)
    ensures
        s@ == v@,
{
    let mut s = String::new();
    let mut i: usize = 0;
    while i < v.len()
        invariant
            i <= v.len(),
            s@ == v@.take(i as int),
        decreases v.len() - i,
    {
        string_push(&mut s, v[i]);
        i = i + 1;
        assert(s@ =~= v@.take(i as int));
    }
    assert(v@.take(i as int) =~= v@);
    s
}

/// Append the characters of `v` to `s`.
pub fn push_chars(s: &mut String, v: &Vec<char>)
    ensures
        final(s)@ == old(s)@ + v@,
{
    let mut i: usize = 0;
    while i < v.len()
        invariant
            i <= v.len(),
            s@ == old(s)@ + v@.take(i as int),
        decreases v.len() - i,
    {
        string_push(s, v[i]);
        i = i + 1;
        assert(s@ =~= old(s)@ + v@.take(i as int));
    }
    assert(v@.take(i as int) =~= v@);
}

/// Append the characters of `t` to `s`.
pub fn push_str(s: &mut String, t: &str)
    ensures
        final(s)@ == old(s)@ + t@,
{
    s.append(t);
}

pub fn subvec(v: &Vec<char>, lo: usize, hi: usize) -> (r: Vec<char>)
    requires
        lo <= hi <= v.len(),
    ensures
        r@ == v@.subrange(lo as int, hi as int),
{
    let mut r: Vec<char> = Vec::new();
    let mut i = lo;
    while i < hi
        invariant
            lo <= i <= hi <= v.len(),
            r@ == v@.subrange(lo as int, i as int),
        decreases hi - i,
    {
        r.push(v[i]);
        i = i + 1;
        assert(r@ =~= v@.subrange(lo as int, i as int));
    }
    r
}

proof fn lemma_trim_start_skip(s: Seq<char>, i: int)
    requires
        0 <= i <= s.len(),
        forall|k: int| 0 <= k < i ==> is_ws(#[trigger] s[k]),
    ensures
        trim_start(s) == trim_start(s.subrange(i, s.len() as int)),
    decreases i,
{
    if i > 0 {
        assert(s.drop_first().subrange(i - 1, s.drop_first().len() as int) =~= s.subrange(
            i,
            s.len() as int,
        ));
        lemma_trim_start_skip(s.drop_first(), i - 1);
    } else {
        assert(s.subrange(0, s.len() as int) =~= s);
    }
}

proof fn lemma_trim_end_skip(s: Seq<char>, j: int)
    requires
        0 <= j <= s.len(),
        forall|k: int| j <= k < s.len() ==> is_ws(#[trigger] s[k]),
    ensures
        trim_end(s) == trim_end(s.subrange(0, j)),
    decreases s.len() - j,
{
    if j < s.len() {
        assert(s.drop_last().subrange(0, j) =~= s.subrange(0, j));
        lemma_trim_end_skip(s.drop_last(), j);
    } else {
        assert(s.subrange(0, j) =~= s);
    }
}

pub fn copy_vec(v: &Vec<char>) -> (r: Vec<char>)
    ensures
        r@ == v@,
{
    let r = subvec(v, 0, v.len());
    assert(r@ =~= v@);
    r
}

/// `str::trim` on characters.
pub fn trim_chars(v: &Vec<char>) -> (r: Vec<char>)
    ensures
        r@ == trim(v@),
{
    let n = v.len();
    let mut lo: usize = 0;
    while lo < n && is_whitespace(v[lo])
        invariant
            lo <= n == v.len(),
            forall|k: int| 0 <= k < lo ==> is_ws(#[trigger] v@[k]),
        decreases n - lo,
    {
        lo = lo + 1;
    }
    proof {
        lemma_trim_start_skip(v@, lo as int);
    }
    let ghost t = v@.subrange(lo as int, n as int);
    assert(lo == n || !is_ws(t[0]));
    let mut hi: usize = n;
    while hi > lo && is_whitespace(v[hi - 1])
        invariant
            lo <= hi <= n == v.len(),
            forall|k: int| hi <= k < n ==> is_ws(#[trigger] v@[k]),
        decreases hi,
    {
        hi = hi - 1;
    }
    proof {
        let t2 = v@.subrange(lo as int, hi as int);
        assert forall|k: int| (hi - lo) <= k < t.len() implies is_ws(#[trigger] t[k]) by {
            assert(t[k] == v@[lo + k]);
        }
        lemma_trim_end_skip(t, hi - lo);
        assert(t.subrange(0, hi - lo) =~= t2);
        if lo < hi {
            assert(t2.last() == v@[hi - 1]);
        }
    }
    subvec(v, lo, hi)
}

/// Equality of a character vector and a string.
pub fn chars_eq_str(v: &Vec<char>, lit: &str) -> (r: bool)
    ensures
        r == (v@ == lit@),
{
    let w = str_chars(lit);
    chars_eq(v, &w)
}

pub fn chars_eq(v: &Vec<char>, w: &Vec<char>) -> (r: bool)
    ensures
        r == (v@ == w@),
{
    if v.len() != w.len() {
        return false;
    }
    let mut i: usize = 0;
    while i < v.len()
        invariant
            i <= v.len() == w.len(),
            forall|k: int| 0 <= k < i ==> v@[k] == w@[k],
        decreases v.len() - i,
    {
        if v[i] != w[i] {
            return false;
        }
        i = i + 1;
    }
    assert(v@ =~= w@);
    true
}

pub fn digit_to_char(d: u64) -> (c: char)
    requires
        d < 10,
    ensures
        c == digit_char(d as nat),
{
    ((48 + d) as u8) as char
}

/// Append the decimal rendering of `n`.
pub fn push_dec(s: &mut String, n: u64)
    ensures
        final(s)@ == old(s)@ + dec(n as nat),
    decreases n,
{
    if n < 10 {
        string_push(s, digit_to_char(n));
        assert(dec(n as nat) =~= seq![digit_char(n as nat)]);
    } else {
        push_dec(s, n / 10);
        string_push(s, digit_to_char(n % 10));
        assert(old(s)@ + dec(n as nat) =~= old(s)@ + dec((n / 10) as nat) + seq![
            digit_char((n % 10) as nat),
        ]);
    }
}

/// Append the decimal rendering of `v`, signed.
pub fn push_idec(s: &mut String, v: i64)
    ensures
        final(s)@ == old(s)@ + idec(v as int),
{
    if v < 0 {
        string_push(s, '-');
        let m: u64 = (-(v as i128)) as u64;
        push_dec(s, m);
        assert(old(s)@ + idec(v as int) =~= old(s)@.push('-') + dec(m as nat));
    } else {
        push_dec(s, v as u64);
    }
}

// ---------------------------------------------------------- splitting

/// The pieces of `s[i..]` between occurrences of `sep` (empty pieces
/// included), having collected `parts` and the current piece `cur`.
pub open spec fn split_from(s: Seq<char>, sep: char, i: int, parts: Seq<Seq<char>>, cur: Seq<char>) -> Seq<
    Seq<char>,
>
    decreases s.len() - i,
{
    if i >= s.len() || i < 0 {
        parts.push(cur)
    } else if s[i] == sep {
        split_from(s, sep, i + 1, parts.push(cur), seq![])
    } else {
        split_from(s, sep, i + 1, parts, cur.push(s[i]))
    }
}

/// `str::split(sep)` on characters.
pub open spec fn split_at(s: Seq<char>, sep: char) -> Seq<Seq<char>> {
    split_from(s, sep, 0, seq![], seq![])
}

proof fn lemma_split_plain(s: Seq<char>, sep: char, i: int, parts: Seq<Seq<char>>, cur: Seq<char>)
    requires
        0 <= i <= s.len(),
        forall|k: int| i <= k < s.len() ==> s[k] != sep,
    ensures
        split_from(s, sep, i, parts, cur) == parts.push(cur + s.subrange(i, s.len() as int)),
    decreases s.len() - i,
{
    if i < s.len() {
        lemma_split_plain(s, sep, i + 1, parts, cur.push(s[i]));
        assert(cur.push(s[i]) + s.subrange(i + 1, s.len() as int) =~= cur + s.subrange(i, s.len() as int));
    } else {
        assert(cur + s.subrange(i, s.len() as int) =~= cur);
    }
}

proof fn lemma_split_shift(x: Seq<char>, t: Seq<char>, sep: char, j: int, parts: Seq<Seq<char>>, cur: Seq<char>)
    requires
        0 <= j <= t.len(),
    ensures
        split_from(x + t, sep, x.len() + j, parts, cur) == split_from(t, sep, j, parts, cur),
    decreases t.len() - j,
{
    if j < t.len() {
        assert((x + t)[x.len() + j] == t[j]);
        if t[j] == sep {
            lemma_split_shift(x, t, sep, j + 1, parts.push(cur), seq![]);
        } else {
            lemma_split_shift(x, t, sep, j + 1, parts, cur.push(t[j]));
        }
    }
}

/// Where splitting `s` from `i` ends: the pieces so far and the current one.
pub open spec fn split_end(s: Seq<char>, sep: char, i: int, parts: Seq<Seq<char>>, cur: Seq<char>) -> (
    Seq<Seq<char>>,
    Seq<char>,
)
    decreases s.len() - i,
{
    if i >= s.len() || i < 0 {
        (parts, cur)
    } else if s[i] == sep {
        split_end(s, sep, i + 1, parts.push(cur), seq![])
    } else {
        split_end(s, sep, i + 1, parts, cur.push(s[i]))
    }
}

proof fn lemma_split_prefix(x: Seq<char>, t: Seq<char>, sep: char, i: int, parts: Seq<Seq<char>>, cur: Seq<char>)
    requires
        0 <= i <= x.len(),
    ensures
        split_from(x + t, sep, i, parts, cur) == split_from(
            x + t,
            sep,
            x.len() as int,
            split_end(x, sep, i, parts, cur).0,
            split_end(x, sep, i, parts, cur).1,
        ),
        split_from(x, sep, i, parts, cur) == split_end(x, sep, i, parts, cur).0.push(
            split_end(x, sep, i, parts, cur).1,
        ),
    decreases x.len() - i,
{
    if i < x.len() {
        assert((x + t)[i] == x[i]);
        if x[i] == sep {
            lemma_split_prefix(x, t, sep, i + 1, parts.push(cur), seq![]);
        } else {
            lemma_split_prefix(x, t, sep, i + 1, parts, cur.push(x[i]));
        }
    }
}

/// A text without `sep` is one piece.
pub proof fn lemma_split_single(g: Seq<char>, sep: char)
    requires
        forall|k: int| 0 <= k < g.len() ==> g[k] != sep,
    ensures
        split_at(g, sep) == seq![g],
{
    lemma_split_plain(g, sep, 0, seq![], seq![]);
    assert(seq![] + g.subrange(0, g.len() as int) =~= g);
    assert(Seq::<Seq<char>>::empty().push(g) =~= seq![g]);
}

/// A separator then a piece without it adds that piece last.
pub proof fn lemma_split_then_piece(x: Seq<char>, sep: char, g: Seq<char>)
    requires
        forall|k: int| 0 <= k < g.len() ==> g[k] != sep,
    ensures
        split_at(x + seq![sep] + g, sep) == split_at(x, sep).push(g),
{
    let t = seq![sep] + g;
    assert(x + seq![sep] + g =~= x + t);
    lemma_split_prefix(x, t, sep, 0, seq![], seq![]);
    let st = split_end(x, sep, 0, seq![], seq![]);
    lemma_split_shift(x, t, sep, 0, st.0, st.1);
    assert(t[0] == sep);
    lemma_split_plain(t, sep, 1, st.0.push(st.1), seq![]);
    assert(seq![] + t.subrange(1, t.len() as int) =~= g);
}

} // verus!
