//! The mathematical model of the configuration language: a strict subset of
//! TOML read line by line, over sequences of characters.
//!
//! A document is a top-level `version = <int>` followed by `[[entry]]`
//! tables of `key = value` lines. Values are quoted strings (with `\"`,
//! `\\`, `\n`, `\t` escapes), integers, `true`/`false`, or one-line arrays
//! of quoted strings. `#` starts a comment outside quotes.

use vstd::prelude::*;
use crate::text::{dec, idec, is_ws, trim, is_digit};
use crate::config::{Mode, Verify};
use crate::notify::{escape_spec, lemma_escape_concat};

verus! {

/// What can go wrong while reading a document: an error with its message.
pub enum Fail {
    Msg(Seq<char>),
}

pub enum ValueSpec {
    Str(Seq<char>),
    Int(i64),
    Bool(bool),
    StrArray(Seq<Seq<char>>),
}

/// A quoted string read: its contents, or a malformed string.
pub enum Quoted {
    Read(Seq<char>),
    Bad,
}

// ---------------------------------------------------------------- lines

pub open spec fn newline_from(t: Seq<char>, i: int) -> int
    decreases t.len() - i,
{
    if i >= t.len() {
        t.len() as int
    } else if t[i] == '\n' {
        i
    } else {
        newline_from(t, i + 1)
    }
}

pub proof fn lemma_newline_from_bounds(t: Seq<char>, i: int)
    requires
        0 <= i <= t.len(),
    ensures
        i <= newline_from(t, i) <= t.len(),
        newline_from(t, i) < t.len() ==> t[newline_from(t, i)] == '\n',
        forall|k: int| i <= k < newline_from(t, i) ==> t[k] != '\n',
    decreases t.len() - i,
{
    if i < t.len() && t[i] != '\n' {
        lemma_newline_from_bounds(t, i + 1);
    }
}

pub open spec fn strip_cr(l: Seq<char>) -> Seq<char> {
    if l.len() > 0 && l.last() == '\r' {
        l.drop_last()
    } else {
        l
    }
}

/// `str::lines`: split at `\n`, drop a `\r` just before each `\n`; a final
/// line ending is optional.
pub open spec fn lines(t: Seq<char>) -> Seq<Seq<char>>
    decreases t.len(),
{
    if t.len() == 0 {
        seq![]
    } else {
        let k = newline_from(t, 0);
        proof {
            lemma_newline_from_bounds(t, 0);
        }
        if k >= t.len() {
            seq![t]
        } else {
            seq![strip_cr(t.subrange(0, k))] + lines(t.subrange(k + 1, t.len() as int))
        }
    }
}

// ------------------------------------------------------------- comments

/// Index of the first `#` outside a double-quoted string, scanning from `i`
/// in the given quote state; the length when there is none.
pub open spec fn comment_cut(s: Seq<char>, i: int, in_quote: bool, escaped: bool) -> int
    decreases s.len() - i,
{
    if i >= s.len() || i < 0 {
        s.len() as int
    } else {
        let c = s[i];
        if in_quote {
            if escaped {
                comment_cut(s, i + 1, true, false)
            } else if c == '\\' {
                comment_cut(s, i + 1, true, true)
            } else if c == '"' {
                comment_cut(s, i + 1, false, false)
            } else {
                comment_cut(s, i + 1, true, false)
            }
        } else if c == '"' {
            comment_cut(s, i + 1, true, false)
        } else if c == '#' {
            i
        } else {
            comment_cut(s, i + 1, false, false)
        }
    }
}

/// The line without a `#` comment that stands outside quotes.
pub open spec fn strip_comment(s: Seq<char>) -> Seq<char> {
    s.subrange(0, comment_cut(s, 0, false, false))
}

// ------------------------------------------------------- quoted strings

/// Read the rest of a quoted string from index `i`, having produced `out`.
pub open spec fn quoted_from(s: Seq<char>, i: int, out: Seq<char>) -> Quoted
    decreases s.len() - i,
{
    if i >= s.len() || i < 0 {
        Quoted::Bad
    } else {
        let c = s[i];
        if c == '\\' {
            if i + 1 >= s.len() {
                Quoted::Bad
            } else {
                let d = s[i + 1];
                if d == 'n' {
                    quoted_from(s, i + 2, out.push('\n'))
                } else if d == 't' {
                    quoted_from(s, i + 2, out.push('\t'))
                } else if d == '"' {
                    quoted_from(s, i + 2, out.push('"'))
                } else if d == '\\' {
                    quoted_from(s, i + 2, out.push('\\'))
                } else if (d as u32) < 128 {
                    quoted_from(s, i + 2, out.push('\\').push(d))
                } else {
                    Quoted::Bad
                }
            }
        } else if c == '"' {
            if trim(s.subrange(i + 1, s.len() as int)).len() == 0 {
                Quoted::Read(out)
            } else {
                Quoted::Bad
            }
        } else {
            quoted_from(s, i + 1, out.push(c))
        }
    }
}

/// A fully quoted `"..."` string; only whitespace may follow the closing
/// quote. Unknown ASCII escapes are kept as written; a backslash before a
/// non-ASCII character makes the string malformed.
pub open spec fn parse_quoted(s: Seq<char>) -> Quoted {
    if s.len() == 0 || s[0] != '"' {
        Quoted::Bad
    } else {
        quoted_from(s, 1, seq![])
    }
}

/// The quoted form of `s`: a `"`, then `s` with a backslash before every
/// `"` and `\\`, then a `"`.
pub open spec fn quote(s: Seq<char>) -> Seq<char> {
    seq!['"'] + escape_spec(s) + seq!['"']
}

proof fn lemma_quoted_escaped(pre: Seq<char>, s: Seq<char>, rest: Seq<char>, out: Seq<char>)
    ensures
        quoted_from(pre + escape_spec(s) + rest, pre.len() as int, out) == quoted_from(
            pre + escape_spec(s) + rest,
            (pre.len() + escape_spec(s).len()) as int,
            out + s,
        ),
    decreases s.len(),
{
    if s.len() == 0 {
        assert(escape_spec(s) =~= Seq::<char>::empty());
        assert(out + s =~= out);
    } else {
        let c = s[0];
        let tail = s.drop_first();
        assert(s =~= seq![c] + tail);
        lemma_escape_concat(seq![c], tail);
        assert(seq![c].drop_last() =~= Seq::<char>::empty());
        assert(escape_spec(Seq::<char>::empty()) == Seq::<char>::empty());
        assert(seq![c].last() == c);
        let ec = escape_spec(seq![c]);
        if c == '\\' || c == '"' {
            assert(ec =~= seq!['\\', c]);
        } else {
            assert(ec =~= seq![c]);
        }
        let q = pre + escape_spec(s) + rest;
        let pre2 = pre + ec;
        assert(q =~= pre2 + escape_spec(tail) + rest);
        let i = pre.len() as int;
        assert(q[i] == ec[0]);
        if ec.len() == 2 {
            assert(q[i + 1] == c);
        }
        assert(quoted_from(q, i, out) == quoted_from(q, pre2.len() as int, out.push(c)));
        lemma_quoted_escaped(pre2, tail, rest, out.push(c));
        assert(out.push(c) + tail =~= out + s);
        assert(pre2.len() + escape_spec(tail).len() == pre.len() + escape_spec(s).len());
    }
}

/// A value written in quoted form reads back as itself, whatever
/// whitespace follows the closing quote; other text after the closing
/// quote, or a text that does not start with `"`, is malformed.
pub proof fn lemma_quoted_reads_back(s: Seq<char>, after: Seq<char>, t: Seq<char>)
    ensures
        trim(after).len() == 0 ==> parse_quoted(quote(s) + after) == Quoted::Read(s),
        trim(after).len() > 0 ==> parse_quoted(quote(s) + after) == Quoted::Bad,
        t.len() == 0 || t[0] != '"' ==> parse_quoted(t) == Quoted::Bad,
{
    let e = escape_spec(s);
    let q = quote(s) + after;
    let pre = seq!['"'];
    let rest = seq!['"'] + after;
    assert(q =~= pre + e + rest);
    lemma_quoted_escaped(pre, s, rest, seq![]);
    assert(seq![] + s =~= s);
    let k = (1 + e.len()) as int;
    assert(q[k] == '"');
    assert(q.subrange(k + 1, q.len() as int) =~= after);
}

// ------------------------------------------------------------ messages

pub open spec fn malformed(line_no: nat, what: Seq<char>) -> Seq<char> {
    "malformed line "@ + dec(line_no) + ": "@ + what
}

// ------------------------------------------------------- string arrays

/// Split `s` at commas that stand outside quotes, from index `i`.
pub open spec fn split_from(
    s: Seq<char>,
    i: int,
    parts: Seq<Seq<char>>,
    cur: Seq<char>,
    in_quote: bool,
    escaped: bool,
) -> Seq<Seq<char>>
    decreases s.len() - i,
{
    if i >= s.len() || i < 0 {
        parts.push(cur)
    } else {
        let c = s[i];
        if in_quote {
            if escaped {
                split_from(s, i + 1, parts, cur.push(c), true, false)
            } else if c == '\\' {
                split_from(s, i + 1, parts, cur.push(c), true, true)
            } else if c == '"' {
                split_from(s, i + 1, parts, cur.push(c), false, false)
            } else {
                split_from(s, i + 1, parts, cur.push(c), true, false)
            }
        } else if c == '"' {
            split_from(s, i + 1, parts, cur.push(c), true, false)
        } else if c == ',' {
            split_from(s, i + 1, parts.push(cur), seq![], false, false)
        } else {
            split_from(s, i + 1, parts, cur.push(c), false, false)
        }
    }
}

pub open spec fn split_parts(s: Seq<char>) -> Seq<Seq<char>> {
    split_from(s, 0, seq![], seq![], false, false)
}

proof fn lemma_split_from_nonempty(
    s: Seq<char>,
    i: int,
    parts: Seq<Seq<char>>,
    cur: Seq<char>,
    in_quote: bool,
    escaped: bool,
)
    ensures
        split_from(s, i, parts, cur, in_quote, escaped).len() > 0,
    decreases s.len() - i,
{
    if !(i >= s.len() || i < 0) {
        let c = s[i];
        lemma_split_from_nonempty(s, i + 1, parts, cur.push(c), true, false);
        lemma_split_from_nonempty(s, i + 1, parts, cur.push(c), true, true);
        lemma_split_from_nonempty(s, i + 1, parts, cur.push(c), false, false);
        lemma_split_from_nonempty(s, i + 1, parts.push(cur), seq![], false, false);
    }
}

/// Splitting always yields at least one part.
pub proof fn lemma_split_nonempty(s: Seq<char>)
    ensures
        split_parts(s).len() > 0,
{
    lemma_split_from_nonempty(s, 0, seq![], seq![], false, false);
}

/// Read the array elements `ps[i..]`, having read `acc`.
pub open spec fn elements_from(ps: Seq<Seq<char>>, i: int, line_no: nat, acc: Seq<Seq<char>>) -> Result<
    Seq<Seq<char>>,
    Fail,
>
    decreases ps.len() - i,
{
    if i >= ps.len() || i < 0 {
        Ok(acc)
    } else {
        let p = trim(ps[i]);
        if p.len() == 0 {
            Err(Fail::Msg(malformed(line_no, "empty array element"@)))
        } else {
            match parse_quoted(p) {
                Quoted::Read(v) => elements_from(ps, i + 1, line_no, acc.push(v)),
                Quoted::Bad => Err(
                    Fail::Msg(malformed(line_no, "array elements must be quoted strings"@)),
                ),
            }
        }
    }
}

/// A one-line array `[ "a", "b", ]` of quoted strings; one trailing comma
/// is allowed.
pub open spec fn parse_string_array(s: Seq<char>, line_no: nat) -> Result<Seq<Seq<char>>, Fail> {
    let t = trim(s);
    if !(t.len() > 0 && t[0] == '[' && t.last() == ']') {
        Err(Fail::Msg(malformed(line_no, "expected string array"@)))
    } else {
        let inner = t.subrange(1, t.len() - 1);
        if trim(inner).len() == 0 {
            Ok(seq![])
        } else {
            let parts0 = split_parts(inner);
            let parts = if trim(parts0.last()).len() == 0 {
                parts0.drop_last()
            } else {
                parts0
            };
            elements_from(parts, 0, line_no, seq![])
        }
    }
}

// ------------------------------------------------------------- integers

pub open spec fn digits_value(s: Seq<char>) -> nat
    decreases s.len(),
{
    if s.len() == 0 {
        0
    } else {
        digits_value(s.drop_last()) * 10 + ((s.last() as u32) - 48) as nat
    }
}

/// A longer digit string has at least the value of its prefix.
pub proof fn lemma_digits_value_mono(s: Seq<char>, k: int)
    requires
        0 <= k <= s.len(),
        all_digits(s),
    ensures
        digits_value(s.subrange(0, k)) <= digits_value(s),
    decreases s.len() - k,
{
    if k < s.len() {
        lemma_digits_value_mono(s.drop_last(), k);
        assert(s.drop_last().subrange(0, k) =~= s.subrange(0, k));
        assert(all_digits(s.drop_last())) by {
            assert forall|i: int| 0 <= i < s.drop_last().len() implies is_digit(
                #[trigger] s.drop_last()[i],
            ) by {
                assert(s.drop_last()[i] == s[i]);
            }
        }
    } else {
        assert(s.subrange(0, k) =~= s);
    }
}

pub open spec fn all_digits(s: Seq<char>) -> bool {
    forall|i: int| 0 <= i < s.len() ==> is_digit(#[trigger] s[i])
}

/// `i64::from_str` on a string of digits and dashes: an optional `-`
/// followed by at least one digit, within range.
pub open spec fn parse_i64(t: Seq<char>) -> Option<i64> {
    if t.len() > 0 && t[0] == '-' {
        let rest = t.drop_first();
        if rest.len() > 0 && all_digits(rest) && digits_value(rest) <= 0x8000_0000_0000_0000 {
            Some((0 - digits_value(rest)) as i64)
        } else {
            None
        }
    } else if t.len() > 0 && all_digits(t) && digits_value(t) <= 0x7fff_ffff_ffff_ffff {
        Some(digits_value(t) as i64)
    } else {
        None
    }
}

pub open spec fn digit_or_dash(s: Seq<char>) -> bool {
    forall|i: int| 0 <= i < s.len() ==> (is_digit(#[trigger] s[i]) || s[i] == '-')
}

// --------------------------------------------------------------- values

/// The value on the right of `=`.
pub open spec fn parse_value(raw: Seq<char>, line_no: nat) -> Result<ValueSpec, Fail> {
    let t = trim(raw);
    if t.len() == 0 {
        Err(Fail::Msg(malformed(line_no, "missing value after `=`"@)))
    } else if t[0] == '"' {
        match parse_quoted(t) {
            Quoted::Read(v) => Ok(ValueSpec::Str(v)),
            Quoted::Bad => Err(Fail::Msg(malformed(line_no, "bad quoted string"@))),
        }
    } else if t[0] == '[' {
        match parse_string_array(t, line_no) {
            Ok(v) => Ok(ValueSpec::StrArray(v)),
            Err(f) => Err(f),
        }
    } else if t == "true"@ {
        Ok(ValueSpec::Bool(true))
    } else if t == "false"@ {
        Ok(ValueSpec::Bool(false))
    } else if digit_or_dash(t) && t != "-"@ {
        match parse_i64(t) {
            Some(n) => Ok(ValueSpec::Int(n)),
            None => Err(Fail::Msg(malformed(line_no, "bad integer"@))),
        }
    } else {
        Err(Fail::Msg(malformed(line_no, "unsupported value"@)))
    }
}

/// The decimal rendering of `n` is a non-empty string of digits whose value
/// is `n`.
proof fn lemma_dec_value(n: nat)
    ensures
        dec(n).len() > 0,
        all_digits(dec(n)),
        digits_value(dec(n)) == n,
    decreases n,
{
    if n < 10 {
        let c = crate::text::digit_char(n);
        assert(c as u32 == 48 + n);
        assert(dec(n) =~= seq![c]);
        assert(dec(n).drop_last() =~= Seq::<char>::empty());
        assert(digits_value(Seq::<char>::empty()) == 0);
        assert(digits_value(dec(n)) == digits_value(dec(n).drop_last()) * 10 + ((c as u32)
            - 48) as nat);
    } else {
        lemma_dec_value(n / 10);
        let c = crate::text::digit_char(n % 10);
        assert(c as u32 == 48 + n % 10);
        assert(dec(n).drop_last() =~= dec(n / 10));
        assert(dec(n).last() == c);
        assert(digits_value(dec(n)) == digits_value(dec(n / 10)) * 10 + ((c as u32)
            - 48) as nat);
        assert forall|i: int| 0 <= i < dec(n).len() implies is_digit(#[trigger] dec(n)[i]) by {
            if i < dec(n / 10).len() {
                assert(dec(n)[i] == dec(n / 10)[i]);
            }
        }
    }
}

/// A string that starts and ends with a digit is its own trim.
proof fn lemma_digits_untrimmed(s: Seq<char>)
    requires
        s.len() > 0,
        is_digit(s[0]),
        is_digit(s.last()),
    ensures
        trim(s) == s,
{
    assert(!is_ws(s[0]));
    assert(!is_ws(s.last()));
    assert(crate::text::trim_start(s) == s);
}

/// An integer written in decimal reads back as that number: the digits of
/// any `n` up to `i64::MAX` read as the integer `n`, and with a `-` in front
/// of them as `-n`, down to `i64::MIN`.
pub proof fn lemma_decimal_value_reads_back(n: nat, line_no: nat)
    ensures
        n <= i64::MAX ==> parse_i64(dec(n)) == Some(n as i64),
        n <= i64::MAX ==> parse_value(dec(n), line_no) == Ok::<ValueSpec, Fail>(
            ValueSpec::Int(n as i64),
        ),
        n <= 0x8000_0000_0000_0000 ==> parse_i64(seq!['-'] + dec(n)) == Some((0 - n) as i64),
        n <= 0x8000_0000_0000_0000 ==> parse_value(seq!['-'] + dec(n), line_no) == Ok::<
            ValueSpec,
            Fail,
        >(ValueSpec::Int((0 - n) as i64)),
{
    lemma_dec_value(n);
    let d = dec(n);
    let m = seq!['-'] + d;
    reveal_strlit("true");
    reveal_strlit("false");
    reveal_strlit("-");
    assert(d[0] != '-');
    lemma_digits_untrimmed(d);
    assert(d != "true"@ && d != "false"@ && d != "-"@) by {
        assert(d[0] != "true"@[0]);
        assert(d[0] != "false"@[0]);
        assert(d[0] != "-"@[0]);
    }
    assert(digit_or_dash(d));
    // the signed form
    assert(m.drop_first() =~= d);
    assert(m.last() == d.last());
    assert(!is_ws(m[0]));
    assert(!is_ws(m.last()));
    assert(crate::text::trim_start(m) == m);
    assert(trim(m) == m);
    assert(m != "true"@ && m != "false"@ && m != "-"@) by {
        assert(m[0] != "true"@[0]);
        assert(m[0] != "false"@[0]);
        assert(m.len() != "-"@.len());
    }
    assert(digit_or_dash(m)) by {
        assert forall|i: int| 0 <= i < m.len() implies (is_digit(#[trigger] m[i]) || m[i]
            == '-') by {
            if i > 0 {
                assert(m[i] == d[i - 1]);
            }
        }
    }
}


// ---------------------------------------------------------------- lines of a document

/// One `key = value` line of an entry, with its line number.
pub struct FieldSpec {
    pub key: Seq<char>,
    pub value: ValueSpec,
    pub line: nat,
}

/// The reader's state between lines: the version seen so far, the finished
/// entries, and the entry being read.
pub struct DocState {
    pub version: Option<i64>,
    pub raws: Seq<Seq<FieldSpec>>,
    pub current: Option<Seq<FieldSpec>>,
}

pub open spec fn initial_state() -> DocState {
    DocState { version: None, raws: seq![], current: None }
}

pub open spec fn is_key_char(c: char) -> bool {
    ('a' <= c && c <= 'z') || ('A' <= c && c <= 'Z') || ('0' <= c && c <= '9') || c == '_' || c
        == '-'
}

pub open spec fn is_valid_key(k: Seq<char>) -> bool {
    k.len() > 0 && forall|i: int| 0 <= i < k.len() ==> is_key_char(#[trigger] k[i])
}

/// The name of the key that lists the globs a file must match.
pub open spec fn include_key() -> Seq<char> {
    seq!['i', 'n', 'c', 'l', 'u', 'd', 'e']
}

pub open spec fn is_entry_key(k: Seq<char>) -> bool {
    ||| k == "name"@
    ||| k == "mode"@
    ||| k == "drive"@
    ||| k == "source"@
    ||| k == "dest"@
    ||| k == include_key()
    ||| k == "exclude"@
    ||| k == "name_re"@
    ||| k == "min_age_minutes"@
    ||| k == "skip_open"@
    ||| k == "verify"@
}

/// The characters of `s` that are not whitespace.
pub open spec fn remove_ws(s: Seq<char>) -> Seq<char>
    decreases s.len(),
{
    if s.len() == 0 {
        s
    } else if is_ws(s.last()) {
        remove_ws(s.drop_last())
    } else {
        remove_ws(s.drop_last()).push(s.last())
    }
}

pub open spec fn find_from(s: Seq<char>, c: char, i: int) -> Option<int>
    decreases s.len() - i,
{
    if i >= s.len() || i < 0 {
        None
    } else if s[i] == c {
        Some(i)
    } else {
        find_from(s, c, i + 1)
    }
}

/// Does the entry already hold `key`?
pub open spec fn has_key(e: Seq<FieldSpec>, key: Seq<char>) -> bool {
    exists|i: int| 0 <= i < e.len() && (#[trigger] e[i]).key == key
}

pub open spec fn bool_text(b: bool) -> Seq<char> {
    if b {
        "true"@
    } else {
        "false"@
    }
}

pub open spec fn version_tail(line_no: nat) -> Seq<char> {
    " at line "@ + dec(line_no) + ": expected version = 1"@
}

/// A `key = value` line: at top level only `version` is known; inside an
/// entry only the entry keys, each once.
pub open spec fn assign(st: DocState, key: Seq<char>, v: ValueSpec, line_no: nat) -> Result<
    DocState,
    Fail,
> {
    match st.current {
        None => {
            if key == "version"@ {
                if st.version is Some {
                    Err(
                        Fail::Msg(
                            "duplicate version at line "@ + dec(line_no)
                                + ": expected version = 1 once"@,
                        ),
                    )
                } else {
                    match v {
                        ValueSpec::Int(n) => Ok(DocState { version: Some(n), ..st }),
                        ValueSpec::Str(q) => Err(
                            Fail::Msg(
                                "unsupported version \""@ + q + "\""@ + version_tail(line_no),
                            ),
                        ),
                        ValueSpec::Bool(b) => Err(
                            Fail::Msg("unsupported version "@ + bool_text(b) + version_tail(line_no)),
                        ),
                        ValueSpec::StrArray(_) => Err(
                            Fail::Msg("unsupported version array"@ + version_tail(line_no)),
                        ),
                    }
                }
            } else {
                Err(
                    Fail::Msg(
                        "unknown top-level key '"@ + key + "' at line "@ + dec(line_no),
                    ),
                )
            }
        },
        Some(e) => {
            if key == "version"@ {
                Err(
                    Fail::Msg(
                        "duplicate version at line "@ + dec(line_no)
                            + ": expected version = 1 once"@,
                    ),
                )
            } else if !is_entry_key(key) {
                Err(Fail::Msg("unknown entry key '"@ + key + "' at line "@ + dec(line_no)))
            } else if has_key(e, key) {
                Err(Fail::Msg("duplicate key '"@ + key + "' at line "@ + dec(line_no)))
            } else {
                Ok(
                    DocState {
                        current: Some(e.push(FieldSpec { key, value: v, line: line_no })),
                        ..st
                    },
                )
            }
        },
    }
}

/// Read one line (numbered from 1).
pub open spec fn step(st: DocState, line_no: nat, raw_line: Seq<char>) -> Result<DocState, Fail> {
    let t = trim(strip_comment(raw_line));
    if t.len() == 0 {
        Ok(st)
    } else if t[0] == '[' {
        if remove_ws(t) == "[[entry]]"@ {
            if st.version is None {
                Err(
                    Fail::Msg(
                        "entry table [[entry]] before version at line "@ + dec(line_no)
                            + ": expected version = 1 first"@,
                    ),
                )
            } else {
                Ok(
                    DocState {
                        version: st.version,
                        raws: match st.current {
                            Some(c) => st.raws.push(c),
                            None => st.raws,
                        },
                        current: Some(seq![]),
                    },
                )
            }
        } else {
            Err(Fail::Msg(malformed(line_no, "expected [[entry]]"@)))
        }
    } else {
        match find_from(t, '=', 0) {
            None => Err(Fail::Msg(malformed(line_no, "expected `key = value`"@))),
            Some(eq) => {
                let key = trim(t.subrange(0, eq));
                let val_raw = trim(t.subrange(eq + 1, t.len() as int));
                if !is_valid_key(key) {
                    Err(Fail::Msg(malformed(line_no, "bad key"@)))
                } else {
                    match parse_value(val_raw, line_no) {
                        Err(f) => Err(f),
                        Ok(v) => assign(st, key, v, line_no),
                    }
                }
            },
        }
    }
}

/// A line with neither `#` nor `"` holds no comment.
proof fn lemma_no_comment(s: Seq<char>, i: int)
    requires
        0 <= i <= s.len(),
        forall|k: int| 0 <= k < s.len() ==> s[k] != '#' && s[k] != '"',
    ensures
        comment_cut(s, i, false, false) == s.len(),
    decreases s.len() - i,
{
    if i < s.len() {
        lemma_no_comment(s, i + 1);
    }
}

/// The first `=` from `i` on stands at `p` when none stands before it.
proof fn lemma_find_first(s: Seq<char>, c: char, i: int, p: int)
    requires
        0 <= i <= p < s.len(),
        s[p] == c,
        forall|k: int| i <= k < p ==> s[k] != c,
    ensures
        find_from(s, c, i) == Some(p),
    decreases p - i,
{
    if i < p {
        lemma_find_first(s, c, i + 1, p);
    }
}

/// A `key = n` line, with `n` written in decimal digits, assigns the
/// integer `n` to `key`: inside an entry that does not hold the key yet it
/// adds the field `key` with the value `Int(n)` and its line number.
pub proof fn lemma_integer_line_reads_back(st: DocState, key: Seq<char>, n: nat, line_no: nat)
    requires
        is_valid_key(key),
        n <= i64::MAX,
    ensures
        step(st, line_no, key + seq![' ', '=', ' '] + dec(n)) == assign(
            st,
            key,
            ValueSpec::Int(n as i64),
            line_no,
        ),
        st.current is Some && is_entry_key(key) && !has_key(st.current->0, key) ==> step(
            st,
            line_no,
            key + seq![' ', '=', ' '] + dec(n),
        ) == Ok::<DocState, Fail>(
            DocState {
                current: Some(
                    st.current->0.push(FieldSpec { key, value: ValueSpec::Int(n as i64), line: line_no }),
                ),
                ..st
            },
        ),
{
    lemma_dec_value(n);
    lemma_decimal_value_reads_back(n, line_no);
    let d = dec(n);
    let kl = key.len() as int;
    let line = key + seq![' ', '=', ' '] + d;
    assert(forall|k: int| 0 <= k < kl ==> line[k] == key[k]);
    assert(forall|k: int| 0 <= k < d.len() ==> line[kl + 3 + k] == d[k]);
    assert(is_key_char(key[0]));
    assert(is_key_char(key.last()));
    assert forall|k: int| 0 <= k < line.len() implies line[k] != '#' && line[k] != '"' && (k
        < kl ==> line[k] != '=') by {
        if k < kl {
            assert(is_key_char(key[k]));
        } else if k >= kl + 3 {
            assert(is_digit(d[k - kl - 3]));
        }
    }
    lemma_no_comment(line, 0);
    assert(strip_comment(line) =~= line);
    // the whole line is trimmed already
    assert(!is_ws(line[0]));
    assert(line.last() == d.last());
    assert(!is_ws(line.last()));
    assert(crate::text::trim_start(line) == line);
    assert(trim(line) == line);
    assert(line[0] != '[');
    lemma_find_first(line, '=', 0, kl + 1);
    // the key
    let left = line.subrange(0, kl + 1);
    assert(left =~= key.push(' '));
    assert(crate::text::trim_start(left) == left);
    assert(left.drop_last() =~= key);
    assert(crate::text::trim_end(key) == key);
    assert(crate::text::trim_end(left) == key);
    assert(trim(left) == key);
    // the value
    let right = line.subrange(kl + 2, line.len() as int);
    assert(right =~= seq![' '] + d);
    assert(right.drop_first() =~= d);
    assert(crate::text::trim_start(d) == d);
    assert(crate::text::trim_start(right) == d);
    assert(crate::text::trim_end(d) == d);
    assert(trim(right) == d);
    // no entry key is `version`
    if is_entry_key(key) && key == "version"@ {
        reveal_strlit("version");
        reveal_strlit("name");
        reveal_strlit("mode");
        reveal_strlit("drive");
        reveal_strlit("source");
        reveal_strlit("dest");
        reveal_strlit("exclude");
        reveal_strlit("name_re");
        reveal_strlit("min_age_minutes");
        reveal_strlit("skip_open");
        reveal_strlit("verify");
        assert(key.len() == 7 && key[0] == 'v');
        assert(include_key()[0] == 'i');
        assert("exclude"@[0] == 'e');
        assert("name_re"@[0] == 'n');
    }
}

/// Read the lines `ls[i..]`; line `ls[i]` has number `i + 1`.
pub open spec fn run_lines(st: DocState, ls: Seq<Seq<char>>, i: int) -> Result<DocState, Fail>
    decreases ls.len() - i,
{
    if i >= ls.len() || i < 0 {
        Ok(st)
    } else {
        match step(st, (i + 1) as nat, ls[i]) {
            Ok(s2) => run_lines(s2, ls, i + 1),
            Err(f) => Err(f),
        }
    }
}

// ------------------------------------------------------------ entries

/// The configuration of one entry.
pub struct EntrySpec {
    pub name: Seq<char>,
    pub mode: Mode,
    pub drive: Seq<char>,
    pub source: Seq<char>,
    pub dest: Seq<char>,
    pub includes: Seq<Seq<char>>,
    pub exclude: Seq<Seq<char>>,
    pub name_re: Option<Seq<char>>,
    pub min_age_minutes: Option<u64>,
    pub skip_open: bool,
    pub verify: Verify,
}

pub open spec fn lookup_from(e: Seq<FieldSpec>, key: Seq<char>, i: int) -> Option<FieldSpec>
    decreases e.len() - i,
{
    if i >= e.len() || i < 0 {
        None
    } else if e[i].key == key {
        Some(e[i])
    } else {
        lookup_from(e, key, i + 1)
    }
}

pub open spec fn lookup(e: Seq<FieldSpec>, key: Seq<char>) -> Option<FieldSpec> {
    lookup_from(e, key, 0)
}

pub open spec fn field_in(f: Seq<char>, idx: nat) -> Seq<char> {
    "field '"@ + f + "' in entry "@ + dec(idx + 1)
}

pub open spec fn at_line(line: nat) -> Seq<char> {
    " at line "@ + dec(line)
}

/// A string field: absent, present, or of another type.
pub open spec fn field_as_string(e: Seq<FieldSpec>, idx: nat, f: Seq<char>) -> Result<
    Option<(Seq<char>, nat)>,
    Seq<char>,
> {
    match lookup(e, f) {
        None => Ok(None),
        Some(fs) => match fs.value {
            ValueSpec::Str(s) => Ok(Some((s, fs.line))),
            _ => Err(field_in(f, idx) + " expects a string"@ + at_line(fs.line)),
        },
    }
}

pub open spec fn missing_field(f: Seq<char>, idx: nat) -> Seq<char> {
    "missing required field '"@ + f + "' in entry "@ + dec(idx + 1)
}

pub open spec fn required(e: Seq<FieldSpec>, idx: nat, f: Seq<char>) -> Result<Seq<char>, Seq<char>> {
    match field_as_string(e, idx, f) {
        Err(m) => Err(m),
        Ok(None) => Err(missing_field(f, idx)),
        Ok(Some((v, _))) => Ok(v),
    }
}

pub open spec fn mode_field(e: Seq<FieldSpec>, idx: nat) -> Result<Mode, Seq<char>> {
    match field_as_string(e, idx, "mode"@) {
        Err(m) => Err(m),
        Ok(None) => Err(missing_field("mode"@, idx)),
        Ok(Some((v, line))) => if v == "mirror"@ {
            Ok(Mode::Mirror)
        } else if v == "move"@ {
            Ok(Mode::Move)
        } else {
            Err(
                "invalid mode '"@ + v + "' in entry "@ + dec(idx + 1) + at_line(line)
                    + ": expected \"mirror\" or \"move\""@,
            )
        },
    }
}

pub open spec fn array_field(e: Seq<FieldSpec>, idx: nat, f: Seq<char>) -> Result<
    Seq<Seq<char>>,
    Seq<char>,
> {
    match lookup(e, f) {
        None => Ok(seq![]),
        Some(fs) => match fs.value {
            ValueSpec::StrArray(v) => Ok(v),
            _ => Err(field_in(f, idx) + " expects a string array"@ + at_line(fs.line)),
        },
    }
}

pub open spec fn min_age_field(e: Seq<FieldSpec>, idx: nat) -> Result<Option<u64>, Seq<char>> {
    match lookup(e, "min_age_minutes"@) {
        None => Ok(None),
        Some(fs) => match fs.value {
            ValueSpec::Int(n) => if n < 0 {
                Err(field_in("min_age_minutes"@, idx) + " must be >= 0"@ + at_line(fs.line))
            } else {
                Ok(Some(n as u64))
            },
            _ => Err(field_in("min_age_minutes"@, idx) + " expects an integer"@ + at_line(fs.line)),
        },
    }
}

pub open spec fn skip_open_field(e: Seq<FieldSpec>, idx: nat) -> Result<bool, Seq<char>> {
    match lookup(e, "skip_open"@) {
        None => Ok(false),
        Some(fs) => match fs.value {
            ValueSpec::Bool(b) => Ok(b),
            _ => Err(field_in("skip_open"@, idx) + " expects true or false"@ + at_line(fs.line)),
        },
    }
}

pub open spec fn verify_field(e: Seq<FieldSpec>, idx: nat) -> Result<Verify, Seq<char>> {
    match field_as_string(e, idx, "verify"@) {
        Err(m) => Err(m),
        Ok(None) => Ok(Verify::Readback),
        Ok(Some((v, line))) => if v == "readback"@ {
            Ok(Verify::Readback)
        } else if v == "full"@ {
            Ok(Verify::Full)
        } else {
            Err(
                "invalid verify '"@ + v + "' in entry "@ + dec(idx + 1) + at_line(line)
                    + ": expected \"readback\" or \"full\""@,
            )
        },
    }
}

/// `Path::join` on Unix: an absolute `rest` replaces `base`; otherwise a
/// `/` separates them unless `base` is empty or already ends with one.
pub open spec fn path_join(base: Seq<char>, rest: Seq<char>) -> Seq<char> {
    if rest.len() > 0 && rest[0] == '/' {
        rest
    } else if base.len() == 0 {
        rest
    } else if base.last() == '/' {
        base + rest
    } else {
        base + seq!['/'] + rest
    }
}

/// A source path with `~` or a leading `~/` expanded to `home`.
pub open spec fn expand_source(raw: Seq<char>, home: Seq<char>) -> Seq<char> {
    if raw == seq!['~'] {
        home
    } else if raw.len() >= 2 && raw[0] == '~' && raw[1] == '/' {
        path_join(home, raw.subrange(2, raw.len() as int))
    } else {
        raw
    }
}

/// Check the fields of entry number `idx` (from 0) in a fixed order and
/// build it; the first failing check names the field.
pub open spec fn build_entry(e: Seq<FieldSpec>, idx: nat, home: Seq<char>) -> Result<
    EntrySpec,
    Seq<char>,
> {
    match required(e, idx, "name"@) {
        Err(m) => Err(m),
        Ok(name) => match mode_field(e, idx) {
            Err(m) => Err(m),
            Ok(mode) => match required(e, idx, "drive"@) {
                Err(m) => Err(m),
                Ok(drive) => match required(e, idx, "source"@) {
                    Err(m) => Err(m),
                    Ok(source_raw) => match required(e, idx, "dest"@) {
                        Err(m) => Err(m),
                        Ok(dest) => match array_field(e, idx, include_key()) {
                            Err(m) => Err(m),
                            Ok(includes) => match array_field(e, idx, "exclude"@) {
                                Err(m) => Err(m),
                                Ok(exclude) => match field_as_string(e, idx, "name_re"@) {
                                    Err(m) => Err(m),
                                    Ok(re) => match min_age_field(e, idx) {
                                        Err(m) => Err(m),
                                        Ok(min_age_minutes) => match skip_open_field(e, idx) {
                                            Err(m) => Err(m),
                                            Ok(skip_open) => match verify_field(e, idx) {
                                                Err(m) => Err(m),
                                                Ok(verify) => Ok(
                                                    EntrySpec {
                                                        name,
                                                        mode,
                                                        drive,
                                                        source: expand_source(source_raw, home),
                                                        dest,
                                                        includes,
                                                        exclude,
                                                        name_re: match re {
                                                            Some((v, _)) => Some(v),
                                                            None => None,
                                                        },
                                                        min_age_minutes,
                                                        skip_open,
                                                        verify,
                                                    },
                                                ),
                                            },
                                        },
                                    },
                                },
                            },
                        },
                    },
                },
            },
        },
    }
}

/// Build the entries `raws[i..]`, having built `acc`.
pub open spec fn build_from(
    raws: Seq<Seq<FieldSpec>>,
    i: int,
    home: Seq<char>,
    acc: Seq<EntrySpec>,
) -> Result<Seq<EntrySpec>, Seq<char>>
    decreases raws.len() - i,
{
    if i >= raws.len() || i < 0 {
        Ok(acc)
    } else {
        match build_entry(raws[i], i as nat, home) {
            Err(m) => Err(m),
            Ok(en) => build_from(raws, i + 1, home, acc.push(en)),
        }
    }
}

pub open spec fn finished_raws(st: DocState) -> Seq<Seq<FieldSpec>> {
    match st.current {
        Some(c) => st.raws.push(c),
        None => st.raws,
    }
}

/// The meaning of a whole document, with `home` standing for `~`: its
/// entries in order, or the first error.
pub open spec fn parse_document(text: Seq<char>, home: Seq<char>) -> Result<Seq<EntrySpec>, Fail> {
    match run_lines(initial_state(), lines(text), 0) {
        Err(f) => Err(f),
        Ok(st) => match st.version {
            None => Err(Fail::Msg("missing version (found none): expected version = 1"@)),
            Some(v) => if v != 1 {
                Err(
                    Fail::Msg(
                        "unsupported version "@ + idec(v as int) + " (found "@ + idec(v as int)
                            + "): expected version = 1"@,
                    ),
                )
            } else {
                match build_from(finished_raws(st), 0, home, seq![]) {
                    Ok(es) => Ok(es),
                    Err(m) => Err(Fail::Msg(m)),
                }
            },
        },
    }
}


/// The home directory: the given value when it is present and not empty,
/// otherwise `/Users`.
pub open spec fn home_or_default(h: Option<Seq<char>>) -> Seq<char> {
    match h {
        Some(v) => if v.len() > 0 {
            v
        } else {
            "/Users"@
        },
        None => "/Users"@,
    }
}

} // verus!
