//! Notifications: one per error, silent success otherwise. This module
//! builds their text; the caller shows them (or prints them in a dry run).

use vstd::prelude::*;
use crate::text::{push_str, string_push, str_chars};

verus! {

/// `s` with a backslash put before every `"` and `\`.
pub open spec fn escape_spec(s: Seq<char>) -> Seq<char>
    decreases s.len(),
{
    if s.len() == 0 {
        s
    } else {
        let c = s.last();
        let head = escape_spec(s.drop_last());
        if c == '\\' || c == '"' {
            head.push('\\').push(c)
        } else {
            head.push(c)
        }
    }
}

/// Text without `"` or `\` passes through unchanged.
pub proof fn lemma_escape_plain(s: Seq<char>)
    requires
        forall|i: int| 0 <= i < s.len() ==> s[i] != '"' && s[i] != '\\',
    ensures
        escape_spec(s) == s,
    decreases s.len(),
{
    if s.len() > 0 {
        lemma_escape_plain(s.drop_last());
        assert(s.drop_last().push(s.last()) =~= s);
    }
}

/// How AppleScript reads the body of a string literal: a backslash takes
/// the next character as it is; `None` when an unescaped `"` would end the
/// string early or a lone backslash is left at the end.
pub open spec fn read_string_body(t: Seq<char>) -> Option<Seq<char>>
    decreases t.len(),
{
    if t.len() == 0 {
        Some(seq![])
    } else if t[0] == '\\' {
        if t.len() >= 2 {
            match read_string_body(t.subrange(2, t.len() as int)) {
                Some(r) => Some(seq![t[1]] + r),
                None => None,
            }
        } else {
            None
        }
    } else if t[0] == '"' {
        None
    } else {
        match read_string_body(t.drop_first()) {
            Some(r) => Some(seq![t[0]] + r),
            None => None,
        }
    }
}

pub(crate) proof fn lemma_escape_concat(a: Seq<char>, b: Seq<char>)
    ensures
        escape_spec(a + b) == escape_spec(a) + escape_spec(b),
    decreases b.len(),
{
    if b.len() == 0 {
        assert(a + b =~= a);
        assert(escape_spec(a) + escape_spec(b) =~= escape_spec(a));
    } else {
        lemma_escape_concat(a, b.drop_last());
        assert((a + b).drop_last() =~= a + b.drop_last());
        assert((a + b).last() == b.last());
        let c = b.last();
        if c == '\\' || c == '"' {
            assert(escape_spec(a) + escape_spec(b) =~= (escape_spec(a) + escape_spec(b.drop_last())).push('\\').push(c));
        } else {
            assert(escape_spec(a) + escape_spec(b) =~= (escape_spec(a) + escape_spec(b.drop_last())).push(c));
        }
    }
}

/// Escaping never ends the AppleScript string early, and reading the
/// escaped text back gives the text itself: a notification shows exactly
/// the title and body it was given.
pub proof fn lemma_escape_reads_back(s: Seq<char>)
    ensures
        read_string_body(escape_spec(s)) == Some(s),
    decreases s.len(),
{
    if s.len() > 0 {
        let c = s[0];
        let rest = s.drop_first();
        assert(s =~= seq![c] + rest);
        lemma_escape_concat(seq![c], rest);
        lemma_escape_reads_back(rest);
        assert(seq![c].drop_last() =~= Seq::<char>::empty());
        assert(escape_spec(Seq::<char>::empty()) == Seq::<char>::empty());
        assert(seq![c].last() == c);
        let t = escape_spec(s);
        if c == '\\' || c == '"' {
            assert(escape_spec(seq![c]) =~= seq!['\\', c]);
            assert(t.subrange(2, t.len() as int) =~= escape_spec(rest));
        } else {
            assert(escape_spec(seq![c]) =~= seq![c]);
            assert(t.drop_first() =~= escape_spec(rest));
        }
        assert(seq![c] + rest =~= s);
    }
}

/// Escape `"` and `\` for embedding in an AppleScript string.
pub fn escape(s: &str) -> (r: String)
    ensures
        r@ == escape_spec(s@),
{
    let v = str_chars(s);
    let mut out = String::new();
    let mut i: usize = 0;
    assert(v@.subrange(0, 0) =~= Seq::<char>::empty());
    while i < v.len()
        invariant
            i <= v.len(),
            v@ == s@,
            out@ == escape_spec(v@.subrange(0, i as int)),
        decreases v.len() - i,
    {
        let ch = v[i];
        assert(v@.subrange(0, i + 1).drop_last() =~= v@.subrange(0, i as int));
        if ch == '\\' || ch == '"' {
            string_push(&mut out, '\\');
        }
        string_push(&mut out, ch);
        i = i + 1;
    }
    assert(v@.subrange(0, i as int) =~= v@);
    out
}

/// The AppleScript that shows a notification with this title and body.
pub fn notification_script(title: &str, body: &str) -> (r: String)
    ensures
        r@ == "display notification \""@ + escape_spec(body@) + "\" with title \""@
            + escape_spec(title@) + "\""@,
{
    let t = escape(title);
    let b = escape(body);
    let mut r = String::new();
    push_str(&mut r, "display notification \"");
    push_str(&mut r, b.as_str());
    push_str(&mut r, "\" with title \"");
    push_str(&mut r, t.as_str());
    push_str(&mut r, "\"");
    assert(r@ =~= "display notification \""@ + escape_spec(body@) + "\" with title \""@
        + escape_spec(title@) + "\""@);
    r
}

/// What a dry run prints in place of a notification:
/// `NOTIFY <title>: <body>`.
pub fn dry_run_line(title: &str, body: &str) -> (r: String)
    ensures
        r@ == "NOTIFY "@ + title@ + ": "@ + body@,
{
    let mut r = String::new();
    push_str(&mut r, "NOTIFY ");
    push_str(&mut r, title);
    push_str(&mut r, ": ");
    push_str(&mut r, body);
    assert(r@ =~= "NOTIFY "@ + title@ + ": "@ + body@);
    r
}

} // verus!
