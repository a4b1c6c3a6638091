//! Move records.
//!
//! Each move entry keeps one manifest file `<dest>/.exsync-manifest.<entry>`
//! with one line per moved file: `<file>\t<size>\t<YYYY-MM-DDTHH:MM:SSZ>`
//! (UTC). The manifest is a record for the user, never a directory listing
//! and never file contents; recovery never depends on it.

use vstd::prelude::*;
use crate::config_model::{find_from, lines, path_join};
use crate::log::stamp_spec;
use crate::text::{dec, zpad, push_dec, push_str, string_push, str_chars, chars_eq};

verus! {

/// `%Y-%m-%dT%H:%M:%SZ` for a count of seconds since the epoch, in UTC.
pub open spec fn manifest_ts_spec(secs: nat) -> Seq<char> {
    stamp_spec(secs, 'T') + seq!['Z']
}

/// Format a timestamp (seconds since the epoch; earlier times count as 0)
/// as UTC `%Y-%m-%dT%H:%M:%SZ`.
pub fn format_manifest_ts(secs: u64) -> (s: String)
    ensures
        s@ == manifest_ts_spec(secs as nat),
{
    let mut s = crate::log::format_stamp(secs, 'T');
    string_push(&mut s, 'Z');
    s
}

pub open spec fn manifest_prefix() -> Seq<char> {
    ".exsync-manifest."@
}

/// The name of an entry's manifest file: `.exsync-manifest.<entry>`.
pub fn manifest_file_name(entry: &str) -> (s: String)
    ensures
        s@ == manifest_prefix() + entry@,
{
    let mut s = String::new();
    push_str(&mut s, ".exsync-manifest.");
    push_str(&mut s, entry);
    assert(s@ =~= manifest_prefix() + entry@);
    s
}

/// The path of an entry's manifest file in `dest_dir`.
pub fn manifest_file(dest_dir: &str, entry: &str) -> (s: String)
    ensures
        s@ == path_join(dest_dir@, manifest_prefix() + entry@),
{
    let name = manifest_file_name(entry);
    crate::paths::join_path(dest_dir, name.as_str())
}

pub open spec fn manifest_line_spec(name: Seq<char>, size: nat, secs: nat) -> Seq<char> {
    name + seq!['\t'] + dec(size) + seq!['\t'] + manifest_ts_spec(secs) + seq!['\n']
}

/// One record: `<name>\t<size>\t<timestamp>` and a newline.
pub fn manifest_line(name: &str, size: u64, secs: u64) -> (s: String)
    ensures
        s@ == manifest_line_spec(name@, size as nat, secs as nat),
{
    let mut s = String::new();
    push_str(&mut s, name);
    string_push(&mut s, '\t');
    push_dec(&mut s, size);
    string_push(&mut s, '\t');
    let ts = format_manifest_ts(secs);
    push_str(&mut s, ts.as_str());
    string_push(&mut s, '\n');
    assert(s@ =~= manifest_line_spec(name@, size as nat, secs as nat));
    s
}

/// The first tab-separated field of a line.
pub open spec fn first_field(l: Seq<char>) -> Seq<char> {
    match find_from(l, '\t', 0) {
        Some(k) => l.subrange(0, k),
        None => l,
    }
}

/// Some line of a manifest's text records `name`.
pub open spec fn lists_spec(content: Seq<char>, name: Seq<char>) -> bool {
    exists|i: int| 0 <= i < lines(content).len() && first_field(#[trigger] lines(content)[i]) == name
}

fn first_field_exec(l: &Vec<char>) -> (r: Vec<char>)
    ensures
        r@ == first_field(l@),
{
    let mut i: usize = 0;
    while i < l.len()
        invariant
            i <= l.len(),
            find_from(l@, '\t', 0) == find_from(l@, '\t', i as int),
        decreases l.len() - i,
    {
        if l[i] == '\t' {
            return crate::text::subvec(l, 0, i);
        }
        i = i + 1;
    }
    crate::text::copy_vec(l)
}

/// Does the text of a manifest file hold a line for `name`?
pub fn manifest_lists(content: &str, name: &str) -> (r: bool)
    ensures
        r == lists_spec(content@, name@),
{
    let chars = str_chars(content);
    let ls = crate::config::split_lines(&chars);
    let want = str_chars(name);
    let mut i: usize = 0;
    while i < ls.len()
        invariant
            i <= ls.len(),
            crate::config::seqs(ls@) == lines(content@),
            want@ == name@,
            forall|k: int| 0 <= k < i ==> first_field(#[trigger] lines(content@)[k]) != name@,
        decreases ls.len() - i,
    {
        assert(crate::config::seqs(ls@)[i as int] == ls@[i as int]@);
        let f = first_field_exec(&ls[i]);
        if chars_eq(&f, &want) {
            return true;
        }
        i = i + 1;
    }
    false
}


// ------------------------------------------------------ read after write

pub(crate) proof fn lemma_dec_digits(n: nat)
    ensures
        forall|i: int| 0 <= i < dec(n).len() ==> crate::text::is_digit(#[trigger] dec(n)[i]),
    decreases n,
{
    if n >= 10 {
        lemma_dec_digits(n / 10);
        assert forall|i: int| 0 <= i < dec(n).len() implies crate::text::is_digit(
            #[trigger] dec(n)[i],
        ) by {
            if i < dec(n / 10).len() {
                assert(dec(n)[i] == dec(n / 10)[i]);
            }
        }
    }
}

proof fn lemma_zpad_digits(v: nat, w: nat)
    ensures
        forall|i: int|
            0 <= i < zpad(dec(v), w).len() ==> crate::text::is_digit(#[trigger] zpad(dec(v), w)[i]),
    decreases w,
{
    lemma_dec_digits(v);
    if dec(v).len() < w {
        lemma_zpad_digits(v, (w - 1) as nat);
        assert forall|i: int| 0 <= i < zpad(dec(v), w).len() implies crate::text::is_digit(
            #[trigger] zpad(dec(v), w)[i],
        ) by {
            if i > 0 {
                assert(zpad(dec(v), w)[i] == zpad(dec(v), (w - 1) as nat)[i - 1]);
            }
        }
    }
}

/// No character of a timestamp is a tab or a line break.
proof fn lemma_ts_plain(secs: nat)
    ensures
        forall|i: int|
            0 <= i < manifest_ts_spec(secs).len() ==> (#[trigger] manifest_ts_spec(secs)[i] != '\t'
                && manifest_ts_spec(secs)[i] != '\n'),
{
    let days = secs / 86400;
    let rem = secs % 86400;
    let (y, mo, d) = crate::log::civil(days as int);
    lemma_zpad_digits(y as nat, 4);
    lemma_zpad_digits(mo as nat, 2);
    lemma_zpad_digits(d as nat, 2);
    lemma_zpad_digits(rem / 3600, 2);
    lemma_zpad_digits((rem % 3600) / 60, 2);
    lemma_zpad_digits(rem % 60, 2);
}

pub open spec fn plain_name(name: Seq<char>) -> bool {
    forall|i: int| 0 <= i < name.len() ==> name[i] != '\t' && name[i] != '\n'
}

proof fn lemma_newline_in_prefix(a: Seq<char>, b: Seq<char>, i: int)
    requires
        0 <= i <= a.len(),
        exists|k: int| i <= k < a.len() && a[k] == '\n',
    ensures
        crate::config_model::newline_from(a + b, i) == crate::config_model::newline_from(a, i),
        crate::config_model::newline_from(a, i) < a.len(),
    decreases a.len() - i,
{
    assert((a + b)[i] == a[i]) by {
        let k = choose|k: int| i <= k < a.len() && a[k] == '\n';
        assert(i < a.len());
    }
    if a[i] != '\n' {
        let k = choose|k: int| i <= k < a.len() && a[k] == '\n';
        assert(k != i);
        lemma_newline_in_prefix(a, b, i + 1);
    }
}

/// Lines of text ending in a line break are followed by the lines of what
/// comes after it.
proof fn lemma_lines_append(a: Seq<char>, b: Seq<char>)
    requires
        a.len() > 0,
        a.last() == '\n',
    ensures
        lines(a + b) == lines(a) + lines(b),
    decreases a.len(),
{
    let t = a + b;
    lemma_newline_in_prefix(a, b, 0);
    crate::config_model::lemma_newline_from_bounds(a, 0);
    let k = crate::config_model::newline_from(a, 0);
    assert(t.subrange(0, k) =~= a.subrange(0, k));
    let rest = a.subrange(k + 1, a.len() as int);
    assert(t.subrange(k + 1, t.len() as int) =~= rest + b);
    if k + 1 == a.len() {
        assert(rest + b =~= b);
        assert(rest.len() == 0);
        assert(lines(rest) =~= Seq::<Seq<char>>::empty());
        assert(lines(a) =~= seq![crate::config_model::strip_cr(a.subrange(0, k))]);
    } else {
        assert(rest.last() == a.last());
        lemma_lines_append(rest, b);
        assert(lines(a) == seq![crate::config_model::strip_cr(a.subrange(0, k))] + lines(rest));
    }
    assert(lines(t) =~= lines(a) + lines(b));
}

/// A record appended to a manifest's text (empty, or ending in a line
/// break) lists its file: what was written is read back.
pub proof fn lemma_appended_line_is_listed(prev: Seq<char>, name: Seq<char>, size: nat, secs: nat)
    requires
        prev.len() == 0 || prev.last() == '\n',
        plain_name(name),
    ensures
        lists_spec(prev + manifest_line_spec(name, size, secs), name),
{
    let line = manifest_line_spec(name, size, secs);
    let body = line.drop_last();
    lemma_ts_plain(secs);
    lemma_dec_digits(size);
    let ts = manifest_ts_spec(secs);
    assert(body =~= name + seq!['\t'] + dec(size) + seq!['\t'] + ts);
    assert forall|i: int| 0 <= i < body.len() implies body[i] != '\n' by {
        if i < name.len() {
            assert(body[i] == name[i]);
        } else if i == name.len() {
        } else if i < name.len() + 1 + dec(size).len() {
            assert(body[i] == dec(size)[i - name.len() - 1]);
        } else if i == name.len() + 1 + dec(size).len() {
        } else {
            assert(body[i] == ts[i - name.len() - 2 - dec(size).len()]);
        }
    }
    // The line alone is one line: its body.
    assert(line[line.len() - 1] == '\n');
    lemma_newline_in_prefix(line, seq![], 0);
    crate::config_model::lemma_newline_from_bounds(line, 0);
    let k = crate::config_model::newline_from(line, 0);
    assert(k == line.len() - 1) by {
        if k < line.len() - 1 {
            assert(line[k] == body[k]);
        }
    }
    assert(line.subrange(0, k) =~= body);
    assert(line.subrange(k + 1, line.len() as int).len() == 0);
    assert(lines(line.subrange(k + 1, line.len() as int)) =~= Seq::<Seq<char>>::empty());
    assert(body.last() == 'Z');
    assert(crate::config_model::strip_cr(body) == body);
    assert(lines(line) =~= seq![body]);
    // Its first field is the name.
    assert(body.subrange(0, name.len() as int) =~= name);
    assert(body[name.len() as int] == '\t');
    assert(find_from(body, '\t', 0) == Some(name.len() as int)) by {
        lemma_find_first_tab(body, name, 0);
    }
    let all = prev + line;
    if prev.len() == 0 {
        assert(all =~= line);
        assert(first_field(lines(all)[0]) == name);
    } else {
        lemma_lines_append(prev, line);
        assert(lines(all)[lines(prev).len() as int] == body);
        assert(first_field(lines(all)[lines(prev).len() as int]) == name);
    }
}

proof fn lemma_find_first_tab(body: Seq<char>, name: Seq<char>, i: int)
    requires
        0 <= i <= name.len(),
        name.len() < body.len(),
        body.subrange(0, name.len() as int) == name,
        body[name.len() as int] == '\t',
        plain_name(name),
    ensures
        find_from(body, '\t', i) == Some(name.len() as int),
    decreases name.len() - i,
{
    if i < name.len() {
        assert(body[i] == name[i]);
        lemma_find_first_tab(body, name, i + 1);
    }
}

} // verus!
