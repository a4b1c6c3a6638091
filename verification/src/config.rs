//! The configuration: entries read from a strict TOML subset.

use vstd::prelude::*;
use crate::config_model::{self as model, Fail, Quoted, ValueSpec, FieldSpec, EntrySpec};
use crate::text::{
    chars_eq, chars_eq_str, chars_to_string, dec, is_whitespace, push_chars, push_dec, push_idec,
    push_str, string_push, subvec, trim, trim_chars, str_chars,
};

verus! {

pub const CONFIG_VERSION: u32 = 1;

#[derive(Debug, Clone, Copy, PartialEq, Eq, Structural)]
pub enum Mode {
    Mirror,
    Move,
}

#[derive(Debug, Clone, Copy, PartialEq, Eq, Structural)]
pub enum Verify {
    Readback,
    Full,
}

impl Default for Verify {
    fn default() -> (v: Self)
        ensures
            v == Verify::Readback,
    {
        Verify::Readback
    }
}


pub open spec fn seqs(v: Seq<Vec<char>>) -> Seq<Seq<char>> {
    Seq::new(v.len(), |i: int| v[i]@)
}

pub open spec fn strs(v: Seq<String>) -> Seq<Seq<char>> {
    Seq::new(v.len(), |i: int| v[i]@)
}

/// One configured sync job.
#[derive(Debug, Clone, PartialEq, Eq)]
pub struct Entry {
    pub name: String,
    pub mode: Mode,
    pub drive: String,
    pub source: String,
    pub dest: String,
    pub includes: Vec<String>,
    pub exclude: Vec<String>,
    pub name_re: Option<String>,
    pub min_age_minutes: Option<u64>,
    pub skip_open: bool,
    pub verify: Verify,
}

pub open spec fn opt_view(o: Option<String>) -> Option<Seq<char>> {
    match o {
        Some(s) => Some(s@),
        None => None,
    }
}

impl View for Entry {
    type V = EntrySpec;

    open spec fn view(&self) -> EntrySpec {
        EntrySpec {
            name: self.name@,
            mode: self.mode,
            drive: self.drive@,
            source: self.source@,
            dest: self.dest@,
            includes: strs(self.includes@),
            exclude: strs(self.exclude@),
            name_re: opt_view(self.name_re),
            min_age_minutes: self.min_age_minutes,
            skip_open: self.skip_open,
            verify: self.verify,
        }
    }
}

pub open spec fn entries_view(v: Seq<Entry>) -> Seq<EntrySpec> {
    Seq::new(v.len(), |i: int| v[i]@)
}

/// A configuration error; every such error exits with code 2.
#[derive(Debug, Clone, PartialEq, Eq)]
pub struct ConfigError {
    message: String,
}

impl View for ConfigError {
    type V = Seq<char>;

    closed spec fn view(&self) -> Seq<char> {
        self.message@
    }
}

impl ConfigError {
    pub fn new(message: String) -> (e: Self)
        ensures
            e@ == message@,
    {
        ConfigError { message }
    }

    /// The process exit code for a configuration error.
    pub fn code(&self) -> (c: i32)
        ensures
            c == 2,
    {
        2
    }

    /// The error message.
    pub fn to_string(&self) -> (s: String)
        ensures
            s@ == self@,
    {
        self.message.clone()
    }
}

/// A failure while reading: its message.
enum Failure {
    Msg(String),
}

impl View for Failure {
    type V = Fail;

    closed spec fn view(&self) -> Fail {
        match self {
            Failure::Msg(m) => Fail::Msg(m@),
        }
    }
}

enum Value {
    Str(Vec<char>),
    Int(i64),
    Bool(bool),
    StrArray(Vec<Vec<char>>),
}

impl View for Value {
    type V = ValueSpec;

    closed spec fn view(&self) -> ValueSpec {
        match self {
            Value::Str(s) => ValueSpec::Str(s@),
            Value::Int(n) => ValueSpec::Int(*n),
            Value::Bool(b) => ValueSpec::Bool(*b),
            Value::StrArray(v) => ValueSpec::StrArray(seqs(v@)),
        }
    }
}

enum QuoteRead {
    Read(Vec<char>),
    Bad,
}

impl View for QuoteRead {
    type V = Quoted;

    closed spec fn view(&self) -> Quoted {
        match self {
            QuoteRead::Read(v) => Quoted::Read(v@),
            QuoteRead::Bad => Quoted::Bad,
        }
    }
}

// ---------------------------------------------------------------- lines

proof fn lemma_newline_sub(t: Seq<char>, s: int, j: int)
    requires
        0 <= s <= t.len(),
        0 <= j <= t.len() - s,
    ensures
        model::newline_from(t.subrange(s, t.len() as int), j) == model::newline_from(t, s + j) - s,
    decreases t.len() - s - j,
{
    if j < t.len() - s {
        assert(t.subrange(s, t.len() as int)[j] == t[s + j]);
        lemma_newline_sub(t, s, j + 1);
    }
}

/// `str::lines` on characters.
pub(crate) fn split_lines(text: &Vec<char>) -> (r: Vec<Vec<char>>)
    ensures
        seqs(r@) == model::lines(text@),
{
    let n = text.len();
    let mut r: Vec<Vec<char>> = Vec::new();
    let mut start: usize = 0;
    proof {
        assert(text@.subrange(0, n as int) =~= text@);
        assert(seqs(r@) =~= seq![]);
    }
    while start < n
        invariant
            start <= n == text.len(),
            model::lines(text@) == seqs(r@) + model::lines(text@.subrange(start as int, n as int)),
        decreases n - start,
    {
        let mut k = start;
        while k < n && text[k] != '\n'
            invariant
                start <= k <= n == text.len(),
                model::newline_from(text@, start as int) == model::newline_from(text@, k as int),
            decreases n - k,
        {
            k = k + 1;
        }
        let ghost u = text@.subrange(start as int, n as int);
        proof {
            lemma_newline_sub(text@, start as int, 0);
            assert(model::newline_from(u, 0) == k - start);
        }
        if k == n {
            let line = subvec(text, start, n);
            r.push(line);
            proof {
                assert(model::lines(u) == seq![u]);
                assert(seqs(r@) =~= seqs(r@.drop_last()) + seq![u]);
                assert(text@.subrange(n as int, n as int) =~= Seq::<char>::empty());
                assert(model::lines(text@.subrange(n as int, n as int)) =~= Seq::<Seq<char>>::empty());
            }
            start = n;
            assert(model::lines(text@) =~= seqs(r@) + model::lines(text@.subrange(start as int, n as int)));
        } else {
            let mut hi = k;
            if hi > start && text[hi - 1] == '\r' {
                hi = hi - 1;
            }
            let line = subvec(text, start, hi);
            proof {
                assert(u.subrange(0, k - start) =~= text@.subrange(start as int, k as int));
                assert(u.subrange(k - start + 1, u.len() as int) =~= text@.subrange(k + 1, n as int));
                assert(line@ =~= model::strip_cr(text@.subrange(start as int, k as int)));
            }
            r.push(line);
            proof {
                assert(seqs(r@) =~= seqs(r@.drop_last()) + seq![line@]);
            }
            start = k + 1;
            assert(model::lines(text@) =~= seqs(r@) + model::lines(text@.subrange(start as int, n as int)));
        }
    }
    proof {
        assert(text@.subrange(n as int, n as int) =~= Seq::<char>::empty());
        assert(model::lines(text@.subrange(n as int, n as int)) =~= Seq::<Seq<char>>::empty());
        assert(model::lines(text@) =~= seqs(r@));
    }
    r
}

// ------------------------------------------------------------- comments

/// Strip a `#` comment that appears outside a double-quoted string.
fn strip_comment(line: &Vec<char>) -> (r: Vec<char>)
    ensures
        r@ == model::strip_comment(line@),
{
    let mut in_quote = false;
    let mut escaped = false;
    let mut i: usize = 0;
    while i < line.len()
        invariant
            i <= line.len(),
            !in_quote ==> !escaped,
            model::comment_cut(line@, 0, false, false) == model::comment_cut(
                line@,
                i as int,
                in_quote,
                escaped,
            ),
        decreases line.len() - i,
    {
        let b = line[i];
        if in_quote {
            if escaped {
                escaped = false;
            } else if b == '\\' {
                escaped = true;
            } else if b == '"' {
                in_quote = false;
            }
        } else if b == '"' {
            in_quote = true;
        } else if b == '#' {
            return subvec(line, 0, i);
        }
        i = i + 1;
    }
    subvec(line, 0, line.len())
}

// ------------------------------------------------------- quoted strings

/// Parse a fully quoted `"..."` string with `\"` and `\\` escapes.
fn parse_quoted(s: &Vec<char>) -> (r: QuoteRead)
    ensures
        r@ == model::parse_quoted(s@),
{
    if s.len() == 0 || s[0] != '"' {
        return QuoteRead::Bad;
    }
    let mut out: Vec<char> = Vec::new();
    let mut i: usize = 1;
    while i < s.len()
        invariant
            1 <= i,
            s.len() > 0 && s@[0] == '"',
            model::parse_quoted(s@) == model::quoted_from(s@, i as int, out@),
        decreases s.len() - i,
    {
        let c = s[i];
        if c == '\\' {
            if i + 1 >= s.len() {
                return QuoteRead::Bad;
            }
            let d = s[i + 1];
            if d == 'n' {
                out.push('\n');
            } else if d == 't' {
                out.push('\t');
            } else if d == '"' {
                out.push('"');
            } else if d == '\\' {
                out.push('\\');
            } else if (d as u32) < 128 {
                out.push('\\');
                out.push(d);
            } else {
                return QuoteRead::Bad;
            }
            i = i + 2;
        } else if c == '"' {
            let rest = subvec(s, i + 1, s.len());
            let t = trim_chars(&rest);
            if t.len() == 0 {
                return QuoteRead::Read(out);
            }
            return QuoteRead::Bad;
        } else {
            out.push(c);
            i = i + 1;
        }
    }
    QuoteRead::Bad
}


// ------------------------------------------------------------- messages

fn malformed(line_no: usize, what: &str) -> (m: String)
    ensures
        m@ == model::malformed(line_no as nat, what@),
{
    let mut m = String::new();
    push_str(&mut m, "malformed line ");
    push_dec(&mut m, line_no as u64);
    push_str(&mut m, ": ");
    push_str(&mut m, what);
    assert(m@ =~= model::malformed(line_no as nat, what@));
    m
}

// ------------------------------------------------------- string arrays

fn split_parts(s: &Vec<char>) -> (r: Vec<Vec<char>>)
    ensures
        seqs(r@) == model::split_parts(s@),
{
    let mut parts: Vec<Vec<char>> = Vec::new();
    let mut cur: Vec<char> = Vec::new();
    let mut in_quote = false;
    let mut escaped = false;
    let mut i: usize = 0;
    assert(seqs(parts@) =~= Seq::<Seq<char>>::empty());
    while i < s.len()
        invariant
            i <= s.len(),
            !in_quote ==> !escaped,
            model::split_parts(s@) == model::split_from(
                s@,
                i as int,
                seqs(parts@),
                cur@,
                in_quote,
                escaped,
            ),
        decreases s.len() - i,
    {
        let ch = s[i];
        let ghost old_parts = seqs(parts@);
        if in_quote {
            cur.push(ch);
            if escaped {
                escaped = false;
            } else if ch == '\\' {
                escaped = true;
            } else if ch == '"' {
                in_quote = false;
            }
        } else if ch == '"' {
            in_quote = true;
            cur.push(ch);
        } else if ch == ',' {
            let done = cur;
            parts.push(done);
            cur = Vec::new();
            proof {
                assert(seqs(parts@) =~= old_parts.push(done@));
                assert(cur@ =~= Seq::<char>::empty());
            }
        } else {
            cur.push(ch);
        }
        i = i + 1;
    }
    let ghost before = seqs(parts@);
    let done = cur;
    parts.push(done);
    proof {
        assert(seqs(parts@) =~= before.push(done@));
    }
    parts
}

fn elements(parts: &Vec<Vec<char>>, line_no: usize) -> (r: Result<Vec<Vec<char>>, Failure>)
    ensures
        match r {
            Ok(v) => model::elements_from(seqs(parts@), 0, line_no as nat, seq![]) == Ok::<
                Seq<Seq<char>>,
                Fail,
            >(seqs(v@)),
            Err(f) => model::elements_from(seqs(parts@), 0, line_no as nat, seq![]) == Err::<
                Seq<Seq<char>>,
                Fail,
            >(f@),
        },
{
    let mut out: Vec<Vec<char>> = Vec::new();
    let mut i: usize = 0;
    assert(seqs(out@) =~= Seq::<Seq<char>>::empty());
    while i < parts.len()
        invariant
            i <= parts.len(),
            model::elements_from(seqs(parts@), 0, line_no as nat, seq![]) == model::elements_from(
                seqs(parts@),
                i as int,
                line_no as nat,
                seqs(out@),
            ),
        decreases parts.len() - i,
    {
        let p = trim_chars(&parts[i]);
        assert(seqs(parts@)[i as int] == parts@[i as int]@);
        if p.len() == 0 {
            return Err(Failure::Msg(malformed(line_no, "empty array element")));
        }
        match parse_quoted(&p) {
            QuoteRead::Read(v) => {
                let ghost before = seqs(out@);
                out.push(v);
                proof {
                    assert(seqs(out@) =~= before.push(v@));
                }
            },
            QuoteRead::Bad => {
                return Err(
                    Failure::Msg(malformed(line_no, "array elements must be quoted strings")),
                );
            },
        }
        i = i + 1;
    }
    Ok(out)
}

fn parse_string_array(s: &Vec<char>, line_no: usize) -> (r: Result<Vec<Vec<char>>, Failure>)
    ensures
        match r {
            Ok(v) => model::parse_string_array(s@, line_no as nat) == Ok::<Seq<Seq<char>>, Fail>(
                seqs(v@),
            ),
            Err(f) => model::parse_string_array(s@, line_no as nat) == Err::<
                Seq<Seq<char>>,
                Fail,
            >(f@),
        },
{
    let t = trim_chars(s);
    if !(t.len() > 0 && t[0] == '[' && t[t.len() - 1] == ']') {
        return Err(Failure::Msg(malformed(line_no, "expected string array")));
    }
    let inner = subvec(&t, 1, t.len() - 1);
    let ti = trim_chars(&inner);
    if ti.len() == 0 {
        let v: Vec<Vec<char>> = Vec::new();
        assert(seqs(v@) =~= Seq::<Seq<char>>::empty());
        return Ok(v);
    }
    let mut parts = split_parts(&inner);
    proof {
        model::lemma_split_nonempty(inner@);
    }
    let last_blank = {
        let lt = trim_chars(&parts[parts.len() - 1]);
        lt.len() == 0
    };
    if last_blank {
        let ghost before = seqs(parts@);
        parts.pop();
        assert(seqs(parts@) =~= before.drop_last());
    }
    elements(&parts, line_no)
}

// ------------------------------------------------------------- integers

fn all_digits_from(t: &Vec<char>, lo: usize) -> (r: bool)
    requires
        lo <= t.len(),
    ensures
        r == model::all_digits(t@.subrange(lo as int, t.len() as int)),
{
    let mut i = lo;
    while i < t.len()
        invariant
            lo <= i <= t.len(),
            forall|k: int| lo <= k < i ==> crate::text::is_digit(#[trigger] t@[k]),
        decreases t.len() - i,
    {
        if !('0' <= t[i] && t[i] <= '9') {
            assert(t@.subrange(lo as int, t.len() as int)[i - lo] == t@[i as int]);
            return false;
        }
        i = i + 1;
    }
    assert forall|k: int| 0 <= k < t.len() - lo implies crate::text::is_digit(
        #[trigger] t@.subrange(lo as int, t.len() as int)[k],
    ) by {
        assert(t@.subrange(lo as int, t.len() as int)[k] == t@[lo + k]);
    }
    true
}

/// The value of the digits `t[lo..]`, or `None` when it exceeds `bound`.
fn digits_upto(t: &Vec<char>, lo: usize, bound: u64) -> (r: Option<u64>)
    requires
        lo <= t.len(),
        bound >= 9,
        model::all_digits(t@.subrange(lo as int, t.len() as int)),
    ensures
        match r {
            Some(v) => v == model::digits_value(t@.subrange(lo as int, t.len() as int)) && v
                <= bound,
            None => model::digits_value(t@.subrange(lo as int, t.len() as int)) > bound,
        },
{
    let mut acc: u64 = 0;
    let mut i = lo;
    assert(t@.subrange(lo as int, lo as int) =~= Seq::<char>::empty());
    while i < t.len()
        invariant
            lo <= i <= t.len(),
            model::all_digits(t@.subrange(lo as int, t.len() as int)),
            acc == model::digits_value(t@.subrange(lo as int, i as int)),
            acc <= bound,
            bound >= 9,
        decreases t.len() - i,
    {
        let ghost pre = t@.subrange(lo as int, i as int);
        let ghost nxt = t@.subrange(lo as int, i + 1);
        assert(nxt.drop_last() =~= pre);
        assert(t@.subrange(lo as int, t.len() as int)[i - lo] == t@[i as int]);
        let d = (t[i] as u32 - 48) as u64;
        if acc > (bound - d) / 10 {
            proof {
                model::lemma_digits_value_mono(t@.subrange(lo as int, t.len() as int), i + 1 - lo);
                assert(t@.subrange(lo as int, t.len() as int).subrange(0, i + 1 - lo) =~= nxt);
                assert(acc * 10 + d > bound) by (nonlinear_arith)
                    requires
                        acc > (bound - d) / 10,
                        d <= 9,
                        d <= bound,
                ;
            }
            return None;
        }
        assert(acc * 10 + d <= bound) by (nonlinear_arith)
            requires
                acc <= (bound - d) / 10,
                d <= bound,
        ;
        acc = acc * 10 + d;
        i = i + 1;
    }
    assert(t@.subrange(lo as int, i as int) =~= t@.subrange(lo as int, t.len() as int));
    Some(acc)
}

fn parse_i64(t: &Vec<char>) -> (r: Option<i64>)
    ensures
        r == model::parse_i64(t@),
{
    if t.len() > 0 && t[0] == '-' {
        assert(t@.drop_first() =~= t@.subrange(1, t.len() as int));
        if t.len() > 1 && all_digits_from(t, 1) {
            match digits_upto(t, 1, 0x8000_0000_0000_0000) {
                Some(v) => {
                    let n: i64 = (0i128 - (v as i128)) as i64;
                    Some(n)
                },
                None => None,
            }
        } else {
            None
        }
    } else {
        assert(t@.subrange(0, t.len() as int) =~= t@);
        if t.len() > 0 && all_digits_from(t, 0) {
            match digits_upto(t, 0, 0x7fff_ffff_ffff_ffff) {
                Some(v) => Some(v as i64),
                None => None,
            }
        } else {
            None
        }
    }
}

// --------------------------------------------------------------- values

fn digit_or_dash(t: &Vec<char>) -> (r: bool)
    ensures
        r == model::digit_or_dash(t@),
{
    let mut i: usize = 0;
    while i < t.len()
        invariant
            i <= t.len(),
            forall|k: int| 0 <= k < i ==> (crate::text::is_digit(#[trigger] t@[k]) || t@[k] == '-'),
        decreases t.len() - i,
    {
        if !(('0' <= t[i] && t[i] <= '9') || t[i] == '-') {
            return false;
        }
        i = i + 1;
    }
    true
}

fn parse_value(raw: &Vec<char>, line_no: usize) -> (r: Result<Value, Failure>)
    ensures
        match r {
            Ok(v) => model::parse_value(raw@, line_no as nat) == Ok::<ValueSpec, Fail>(v@),
            Err(f) => model::parse_value(raw@, line_no as nat) == Err::<ValueSpec, Fail>(f@),
        },
{
    let t = trim_chars(raw);
    if t.len() == 0 {
        return Err(Failure::Msg(malformed(line_no, "missing value after `=`")));
    }
    if t[0] == '"' {
        return match parse_quoted(&t) {
            QuoteRead::Read(v) => Ok(Value::Str(v)),
            QuoteRead::Bad => Err(Failure::Msg(malformed(line_no, "bad quoted string"))),
        };
    }
    if t[0] == '[' {
        return match parse_string_array(&t, line_no) {
            Ok(v) => Ok(Value::StrArray(v)),
            Err(f) => Err(f),
        };
    }
    if chars_eq_str(&t, "true") {
        return Ok(Value::Bool(true));
    }
    if chars_eq_str(&t, "false") {
        return Ok(Value::Bool(false));
    }
    if digit_or_dash(&t) && !chars_eq_str(&t, "-") {
        return match parse_i64(&t) {
            Some(n) => Ok(Value::Int(n)),
            None => Err(Failure::Msg(malformed(line_no, "bad integer"))),
        };
    }
    Err(Failure::Msg(malformed(line_no, "unsupported value")))
}


// ------------------------------------------------------------ documents

struct Field {
    key: Vec<char>,
    value: Value,
    line: usize,
}

impl View for Field {
    type V = FieldSpec;

    closed spec fn view(&self) -> FieldSpec {
        FieldSpec { key: self.key@, value: self.value@, line: self.line as nat }
    }
}

spec fn fields_view(v: Seq<Field>) -> Seq<FieldSpec> {
    Seq::new(v.len(), |i: int| v[i]@)
}

struct RawEntry {
    fields: Vec<Field>,
}

impl View for RawEntry {
    type V = Seq<FieldSpec>;

    closed spec fn view(&self) -> Seq<FieldSpec> {
        fields_view(self.fields@)
    }
}

impl RawEntry {
    fn new() -> (r: Self)
        ensures
            r@ == Seq::<FieldSpec>::empty(),
    {
        let r = RawEntry { fields: Vec::new() };
        assert(r@ =~= Seq::<FieldSpec>::empty());
        r
    }
}

spec fn raws_view(v: Seq<RawEntry>) -> Seq<Seq<FieldSpec>> {
    Seq::new(v.len(), |i: int| v[i]@)
}

struct Doc {
    version: Option<i64>,
    raws: Vec<RawEntry>,
    current: Option<RawEntry>,
}

impl View for Doc {
    type V = model::DocState;

    closed spec fn view(&self) -> model::DocState {
        model::DocState {
            version: self.version,
            raws: raws_view(self.raws@),
            current: match self.current {
                Some(e) => Some(e@),
                None => None,
            },
        }
    }
}

fn is_valid_key(key: &Vec<char>) -> (r: bool)
    ensures
        r == model::is_valid_key(key@),
{
    if key.len() == 0 {
        return false;
    }
    let mut i: usize = 0;
    while i < key.len()
        invariant
            i <= key.len(),
            forall|k: int| 0 <= k < i ==> model::is_key_char(#[trigger] key@[k]),
        decreases key.len() - i,
    {
        let c = key[i];
        if !(('a' <= c && c <= 'z') || ('A' <= c && c <= 'Z') || ('0' <= c && c <= '9') || c
            == '_' || c == '-') {
            return false;
        }
        i = i + 1;
    }
    true
}

fn include_key() -> (k: Vec<char>)
    ensures
        k@ == model::include_key(),
{
    let k = vec!['i', 'n', 'c', 'l', 'u', 'd', 'e'];
    assert(k@ =~= model::include_key());
    k
}

fn is_entry_key(key: &Vec<char>) -> (r: bool)
    ensures
        r == model::is_entry_key(key@),
{
    chars_eq_str(key, "name") || chars_eq_str(key, "mode") || chars_eq_str(key, "drive")
        || chars_eq_str(key, "source") || chars_eq_str(key, "dest") || chars_eq(
        key,
        &include_key(),
    ) || chars_eq_str(key, "exclude") || chars_eq_str(key, "name_re") || chars_eq_str(
        key,
        "min_age_minutes",
    ) || chars_eq_str(key, "skip_open") || chars_eq_str(key, "verify")
}

fn remove_ws(s: &Vec<char>) -> (r: Vec<char>)
    ensures
        r@ == model::remove_ws(s@),
{
    let mut r: Vec<char> = Vec::new();
    let mut i: usize = 0;
    assert(s@.subrange(0, 0) =~= Seq::<char>::empty());
    while i < s.len()
        invariant
            i <= s.len(),
            r@ == model::remove_ws(s@.subrange(0, i as int)),
        decreases s.len() - i,
    {
        assert(s@.subrange(0, i + 1).drop_last() =~= s@.subrange(0, i as int));
        if !is_whitespace(s[i]) {
            r.push(s[i]);
        }
        i = i + 1;
    }
    assert(s@.subrange(0, i as int) =~= s@);
    r
}

fn find_char(s: &Vec<char>, c: char) -> (r: Option<usize>)
    ensures
        match r {
            Some(i) => model::find_from(s@, c, 0) == Some(i as int) && i < s.len(),
            None => model::find_from(s@, c, 0) is None,
        },
{
    let mut i: usize = 0;
    while i < s.len()
        invariant
            i <= s.len(),
            model::find_from(s@, c, 0) == model::find_from(s@, c, i as int),
        decreases s.len() - i,
    {
        if s[i] == c {
            return Some(i);
        }
        i = i + 1;
    }
    None
}

fn has_key(e: &RawEntry, key: &Vec<char>) -> (r: bool)
    ensures
        r == model::has_key(e@, key@),
{
    let mut i: usize = 0;
    while i < e.fields.len()
        invariant
            i <= e.fields.len(),
            forall|k: int| 0 <= k < i ==> (#[trigger] e@[k]).key != key@,
            e@.len() == e.fields.len(),
        decreases e.fields.len() - i,
    {
        assert(e@[i as int] == e.fields@[i as int]@);
        if chars_eq(&e.fields[i].key, key) {
            return true;
        }
        i = i + 1;
    }
    false
}

fn line_msg(a: &str, line_no: usize, b: &str) -> (m: String)
    ensures
        m@ == a@ + dec(line_no as nat) + b@,
{
    let mut m = String::new();
    push_str(&mut m, a);
    push_dec(&mut m, line_no as u64);
    push_str(&mut m, b);
    assert(m@ =~= a@ + dec(line_no as nat) + b@);
    m
}

fn key_msg(a: &str, key: &Vec<char>, line_no: usize) -> (m: String)
    ensures
        m@ == a@ + key@ + "' at line "@ + dec(line_no as nat),
{
    let mut m = String::new();
    push_str(&mut m, a);
    push_chars(&mut m, key);
    push_str(&mut m, "' at line ");
    push_dec(&mut m, line_no as u64);
    assert(m@ =~= a@ + key@ + "' at line "@ + dec(line_no as nat));
    m
}

fn version_msg(a: &str, mid: &Vec<char>, b: &str, line_no: usize) -> (m: String)
    ensures
        m@ == a@ + mid@ + b@ + model::version_tail(line_no as nat),
{
    let mut m = String::new();
    push_str(&mut m, a);
    push_chars(&mut m, mid);
    push_str(&mut m, b);
    push_str(&mut m, " at line ");
    push_dec(&mut m, line_no as u64);
    push_str(&mut m, ": expected version = 1");
    assert(m@ =~= a@ + mid@ + b@ + model::version_tail(line_no as nat));
    m
}

fn assign(doc: Doc, key: Vec<char>, v: Value, line_no: usize) -> (r: Result<Doc, Failure>)
    ensures
        match r {
            Ok(d) => model::assign(doc@, key@, v@, line_no as nat) == Ok::<
                model::DocState,
                Fail,
            >(d@),
            Err(f) => model::assign(doc@, key@, v@, line_no as nat) == Err::<
                model::DocState,
                Fail,
            >(f@),
        },
{
    let ghost d0 = doc@;
    let ghost v0 = v@;
    proof {
        reveal_strlit("");
        assert(""@ =~= Seq::<char>::empty());
    }
    let Doc { version, raws, current } = doc;
    match current {
        None => {
            assert(d0.current is None);
            assert(d0.version == version);
            if chars_eq_str(&key, "version") {
                if version.is_some() {
                    return Err(
                        Failure::Msg(
                            line_msg(
                                "duplicate version at line ",
                                line_no,
                                ": expected version = 1 once",
                            ),
                        ),
                    );
                }
                match v {
                    Value::Int(n) => {
                        assert(v0 == ValueSpec::Int(n));
                        let d = Doc { version: Some(n), raws, current: None };
                        assert(d@ == model::DocState { version: Some(n), ..d0 });
                        Ok(d)
                    },
                    Value::Str(q) => {
                        Err(Failure::Msg(version_msg("unsupported version \"", &q, "\"", line_no)))
                    },
                    Value::Bool(b) => {
                        let bt = if b {
                            str_chars("true")
                        } else {
                            str_chars("false")
                        };
                        assert(bt@ + ""@ =~= model::bool_text(b));
                        Err(Failure::Msg(version_msg("unsupported version ", &bt, "", line_no)))
                    },
                    Value::StrArray(_) => {
                        let empty: Vec<char> = Vec::new();
                        assert("unsupported version array"@ + empty@ + ""@ =~= "unsupported version array"@);
                        Err(
                            Failure::Msg(
                                version_msg("unsupported version array", &empty, "", line_no),
                            ),
                        )
                    },
                }
            } else {
                Err(Failure::Msg(key_msg("unknown top-level key '", &key, line_no)))
            }
        },
        Some(e) => {
            if chars_eq_str(&key, "version") {
                return Err(
                    Failure::Msg(
                        line_msg(
                            "duplicate version at line ",
                            line_no,
                            ": expected version = 1 once",
                        ),
                    ),
                );
            }
            if !is_entry_key(&key) {
                return Err(Failure::Msg(key_msg("unknown entry key '", &key, line_no)));
            }
            if has_key(&e, &key) {
                return Err(Failure::Msg(key_msg("duplicate key '", &key, line_no)));
            }
            let ghost e0 = e@;
            let RawEntry { fields } = e;
            let mut fields = fields;
            let f = Field { key, value: v, line: line_no };
            let ghost fv = f@;
            fields.push(f);
            let e2 = RawEntry { fields };
            assert(e2@ =~= e0.push(fv));
            let d = Doc { version, raws, current: Some(e2) };
            assert(d@ == model::DocState { current: Some(e0.push(fv)), ..d0 });
            Ok(d)
        },
    }
}

fn step(doc: Doc, line_no: usize, raw_line: &Vec<char>) -> (r: Result<Doc, Failure>)
    ensures
        match r {
            Ok(d) => model::step(doc@, line_no as nat, raw_line@) == Ok::<model::DocState, Fail>(
                d@,
            ),
            Err(f) => model::step(doc@, line_no as nat, raw_line@) == Err::<
                model::DocState,
                Fail,
            >(f@),
        },
{
    let code = strip_comment(raw_line);
    let t = trim_chars(&code);
    if t.len() == 0 {
        return Ok(doc);
    }
    if t[0] == '[' {
        let nospace = remove_ws(&t);
        if chars_eq_str(&nospace, "[[entry]]") {
            if doc.version.is_none() {
                return Err(
                    Failure::Msg(
                        line_msg(
                            "entry table [[entry]] before version at line ",
                            line_no,
                            ": expected version = 1 first",
                        ),
                    ),
                );
            }
            let ghost d0 = doc@;
            let Doc { version, raws, current } = doc;
            let mut raws = raws;
            match current {
                Some(done) => {
                    let ghost before = raws_view(raws@);
                    let ghost dv = done@;
                    raws.push(done);
                    assert(raws_view(raws@) =~= before.push(dv));
                },
                None => {},
            }
            let d = Doc { version, raws, current: Some(RawEntry::new()) };
            return Ok(d);
        }
        return Err(Failure::Msg(malformed(line_no, "expected [[entry]]")));
    }
    let eq = match find_char(&t, '=') {
        Some(p) => p,
        None => {
            return Err(Failure::Msg(malformed(line_no, "expected `key = value`")));
        },
    };
    let key = trim_chars(&subvec(&t, 0, eq));
    let val_raw = trim_chars(&subvec(&t, eq + 1, t.len()));
    if !is_valid_key(&key) {
        return Err(Failure::Msg(malformed(line_no, "bad key")));
    }
    let value = match parse_value(&val_raw, line_no) {
        Ok(v) => v,
        Err(f) => {
            return Err(f);
        },
    };
    assign(doc, key, value, line_no)
}


// ------------------------------------------------------------ entries

fn lookup<'a>(e: &'a RawEntry, key: &Vec<char>) -> (r: Option<&'a Field>)
    ensures
        match r {
            Some(f) => model::lookup(e@, key@) == Some(f@),
            None => model::lookup(e@, key@) is None,
        },
{
    let mut i: usize = 0;
    while i < e.fields.len()
        invariant
            i <= e.fields.len(),
            e@.len() == e.fields.len(),
            model::lookup(e@, key@) == model::lookup_from(e@, key@, i as int),
        decreases e.fields.len() - i,
    {
        assert(e@[i as int] == e.fields@[i as int]@);
        if chars_eq(&e.fields[i].key, key) {
            return Some(&e.fields[i]);
        }
        i = i + 1;
    }
    None
}

fn entry_no_msg(a: &str, f: &Vec<char>, b: &str, idx: usize) -> (m: String)
    requires
        idx < usize::MAX,
    ensures
        m@ == a@ + f@ + b@ + dec(idx as nat + 1),
{
    let mut m = String::new();
    push_str(&mut m, a);
    push_chars(&mut m, f);
    push_str(&mut m, b);
    push_dec(&mut m, idx as u64 + 1);
    assert(m@ =~= a@ + f@ + b@ + dec(idx as nat + 1));
    m
}

fn field_msg(f: &Vec<char>, idx: usize, what: &str, line: usize) -> (m: String)
    requires
        idx < usize::MAX,
    ensures
        m@ == model::field_in(f@, idx as nat) + what@ + model::at_line(line as nat),
{
    let mut m = entry_no_msg("field '", f, "' in entry ", idx);
    push_str(&mut m, what);
    push_str(&mut m, " at line ");
    push_dec(&mut m, line as u64);
    assert(m@ =~= model::field_in(f@, idx as nat) + what@ + model::at_line(line as nat));
    m
}

fn invalid_msg(what: &str, v: &Vec<char>, idx: usize, line: usize, tail: &str) -> (m: String)
    requires
        idx < usize::MAX,
    ensures
        m@ == what@ + v@ + "' in entry "@ + dec(idx as nat + 1) + model::at_line(line as nat)
            + tail@,
{
    let mut m = entry_no_msg(what, v, "' in entry ", idx);
    push_str(&mut m, " at line ");
    push_dec(&mut m, line as u64);
    push_str(&mut m, tail);
    assert(m@ =~= what@ + v@ + "' in entry "@ + dec(idx as nat + 1) + model::at_line(
        line as nat,
    ) + tail@);
    m
}

fn copy_chars(v: &Vec<char>) -> (r: Vec<char>)
    ensures
        r@ == v@,
{
    let r = subvec(v, 0, v.len());
    assert(r@ =~= v@);
    r
}

fn field_as_string(e: &RawEntry, idx: usize, f: &Vec<char>) -> (r: Result<Option<(Vec<char>, usize)>, String>)
    requires
        idx < usize::MAX,
    ensures
        match r {
            Ok(None) => model::field_as_string(e@, idx as nat, f@) == Ok::<
                Option<(Seq<char>, nat)>,
                Seq<char>,
            >(None),
            Ok(Some((v, l))) => model::field_as_string(e@, idx as nat, f@) == Ok::<
                Option<(Seq<char>, nat)>,
                Seq<char>,
            >(Some((v@, l as nat))),
            Err(m) => model::field_as_string(e@, idx as nat, f@) == Err::<
                Option<(Seq<char>, nat)>,
                Seq<char>,
            >(m@),
        },
{
    match lookup(e, f) {
        None => Ok(None),
        Some(fd) => match &fd.value {
            Value::Str(s) => Ok(Some((copy_chars(s), fd.line))),
            _ => Err(field_msg(f, idx, " expects a string", fd.line)),
        },
    }
}

fn required(e: &RawEntry, idx: usize, f: &Vec<char>) -> (r: Result<Vec<char>, String>)
    requires
        idx < usize::MAX,
    ensures
        match r {
            Ok(v) => model::required(e@, idx as nat, f@) == Ok::<Seq<char>, Seq<char>>(v@),
            Err(m) => model::required(e@, idx as nat, f@) == Err::<Seq<char>, Seq<char>>(m@),
        },
{
    match field_as_string(e, idx, f) {
        Err(m) => Err(m),
        Ok(None) => Err(entry_no_msg("missing required field '", f, "' in entry ", idx)),
        Ok(Some((v, _))) => Ok(v),
    }
}

fn mode_field(e: &RawEntry, idx: usize) -> (r: Result<Mode, String>)
    requires
        idx < usize::MAX,
    ensures
        match r {
            Ok(m) => model::mode_field(e@, idx as nat) == Ok::<Mode, Seq<char>>(m),
            Err(m) => model::mode_field(e@, idx as nat) == Err::<Mode, Seq<char>>(m@),
        },
{
    let f = str_chars("mode");
    match field_as_string(e, idx, &f) {
        Err(m) => Err(m),
        Ok(None) => Err(entry_no_msg("missing required field '", &f, "' in entry ", idx)),
        Ok(Some((v, line))) => {
            if chars_eq_str(&v, "mirror") {
                Ok(Mode::Mirror)
            } else if chars_eq_str(&v, "move") {
                Ok(Mode::Move)
            } else {
                Err(invalid_msg("invalid mode '", &v, idx, line, ": expected \"mirror\" or \"move\""))
            }
        },
    }
}

fn to_strings(v: &Vec<Vec<char>>) -> (r: Vec<String>)
    ensures
        strs(r@) == seqs(v@),
{
    let mut r: Vec<String> = Vec::new();
    let mut i: usize = 0;
    while i < v.len()
        invariant
            i <= v.len(),
            strs(r@) == seqs(v@).subrange(0, i as int),
        decreases v.len() - i,
    {
        let ghost before = strs(r@);
        r.push(chars_to_string(&v[i]));
        assert(strs(r@) =~= before.push(v@[i as int]@));
        i = i + 1;
        assert(strs(r@) =~= seqs(v@).subrange(0, i as int));
    }
    assert(seqs(v@).subrange(0, i as int) =~= seqs(v@));
    r
}

fn array_field(e: &RawEntry, idx: usize, f: &Vec<char>) -> (r: Result<Vec<String>, String>)
    requires
        idx < usize::MAX,
    ensures
        match r {
            Ok(v) => model::array_field(e@, idx as nat, f@) == Ok::<Seq<Seq<char>>, Seq<char>>(
                strs(v@),
            ),
            Err(m) => model::array_field(e@, idx as nat, f@) == Err::<Seq<Seq<char>>, Seq<char>>(
                m@,
            ),
        },
{
    match lookup(e, f) {
        None => {
            let v: Vec<String> = Vec::new();
            assert(strs(v@) =~= Seq::<Seq<char>>::empty());
            Ok(v)
        },
        Some(fd) => match &fd.value {
            Value::StrArray(a) => Ok(to_strings(a)),
            _ => Err(field_msg(f, idx, " expects a string array", fd.line)),
        },
    }
}

fn min_age_field(e: &RawEntry, idx: usize) -> (r: Result<Option<u64>, String>)
    requires
        idx < usize::MAX,
    ensures
        match r {
            Ok(m) => model::min_age_field(e@, idx as nat) == Ok::<Option<u64>, Seq<char>>(m),
            Err(m) => model::min_age_field(e@, idx as nat) == Err::<Option<u64>, Seq<char>>(m@),
        },
{
    let f = str_chars("min_age_minutes");
    match lookup(e, &f) {
        None => Ok(None),
        Some(fd) => match &fd.value {
            Value::Int(n) => {
                if *n < 0 {
                    Err(field_msg(&f, idx, " must be >= 0", fd.line))
                } else {
                    Ok(Some(*n as u64))
                }
            },
            _ => Err(field_msg(&f, idx, " expects an integer", fd.line)),
        },
    }
}

fn skip_open_field(e: &RawEntry, idx: usize) -> (r: Result<bool, String>)
    requires
        idx < usize::MAX,
    ensures
        match r {
            Ok(b) => model::skip_open_field(e@, idx as nat) == Ok::<bool, Seq<char>>(b),
            Err(m) => model::skip_open_field(e@, idx as nat) == Err::<bool, Seq<char>>(m@),
        },
{
    let f = str_chars("skip_open");
    match lookup(e, &f) {
        None => Ok(false),
        Some(fd) => match &fd.value {
            Value::Bool(b) => Ok(*b),
            _ => Err(field_msg(&f, idx, " expects true or false", fd.line)),
        },
    }
}

fn verify_field(e: &RawEntry, idx: usize) -> (r: Result<Verify, String>)
    requires
        idx < usize::MAX,
    ensures
        match r {
            Ok(v) => model::verify_field(e@, idx as nat) == Ok::<Verify, Seq<char>>(v),
            Err(m) => model::verify_field(e@, idx as nat) == Err::<Verify, Seq<char>>(m@),
        },
{
    let f = str_chars("verify");
    match field_as_string(e, idx, &f) {
        Err(m) => Err(m),
        Ok(None) => Ok(Verify::Readback),
        Ok(Some((v, line))) => {
            if chars_eq_str(&v, "readback") {
                Ok(Verify::Readback)
            } else if chars_eq_str(&v, "full") {
                Ok(Verify::Full)
            } else {
                Err(
                    invalid_msg(
                        "invalid verify '",
                        &v,
                        idx,
                        line,
                        ": expected \"readback\" or \"full\"",
                    ),
                )
            }
        },
    }
}

/// `~` and a leading `~/` stand for the home directory.
fn expand_source(raw: &Vec<char>, home: &Vec<char>) -> (r: String)
    ensures
        r@ == model::expand_source(raw@, home@),
{
    if raw.len() == 1 && raw[0] == '~' {
        assert(raw@ =~= seq!['~']);
        return chars_to_string(home);
    }
    if raw.len() >= 2 && raw[0] == '~' && raw[1] == '/' {
        proof {
            if raw@ == seq!['~'] {
                assert(raw@.len() == 1);
            }
        }
        let rest = subvec(raw, 2, raw.len());
        if rest.len() > 0 && rest[0] == '/' {
            return chars_to_string(&rest);
        }
        if home.len() == 0 {
            return chars_to_string(&rest);
        }
        let mut r = chars_to_string(home);
        if home[home.len() - 1] != '/' {
            string_push(&mut r, '/');
        }
        push_chars(&mut r, &rest);
        return r;
    }
    proof {
        if raw@ == seq!['~'] {
            assert(raw@.len() == 1 && raw@[0] == '~');
        }
    }
    chars_to_string(raw)
}

fn build_entry(raw: &RawEntry, entry_idx: usize, home: &Vec<char>) -> (r: Result<Entry, String>)
    requires
        entry_idx < usize::MAX,
    ensures
        match r {
            Ok(en) => model::build_entry(raw@, entry_idx as nat, home@) == Ok::<
                EntrySpec,
                Seq<char>,
            >(en@),
            Err(m) => model::build_entry(raw@, entry_idx as nat, home@) == Err::<
                EntrySpec,
                Seq<char>,
            >(m@),
        },
{
    let name = match required(raw, entry_idx, &str_chars("name")) {
        Ok(v) => v,
        Err(m) => {
            return Err(m);
        },
    };
    let mode = match mode_field(raw, entry_idx) {
        Ok(v) => v,
        Err(m) => {
            return Err(m);
        },
    };
    let drive = match required(raw, entry_idx, &str_chars("drive")) {
        Ok(v) => v,
        Err(m) => {
            return Err(m);
        },
    };
    let source_raw = match required(raw, entry_idx, &str_chars("source")) {
        Ok(v) => v,
        Err(m) => {
            return Err(m);
        },
    };
    let dest = match required(raw, entry_idx, &str_chars("dest")) {
        Ok(v) => v,
        Err(m) => {
            return Err(m);
        },
    };
    let includes = match array_field(raw, entry_idx, &include_key()) {
        Ok(v) => v,
        Err(m) => {
            return Err(m);
        },
    };
    let exclude = match array_field(raw, entry_idx, &str_chars("exclude")) {
        Ok(v) => v,
        Err(m) => {
            return Err(m);
        },
    };
    let name_re = match field_as_string(raw, entry_idx, &str_chars("name_re")) {
        Ok(Some((v, _))) => Some(chars_to_string(&v)),
        Ok(None) => None,
        Err(m) => {
            return Err(m);
        },
    };
    let min_age_minutes = match min_age_field(raw, entry_idx) {
        Ok(v) => v,
        Err(m) => {
            return Err(m);
        },
    };
    let skip_open = match skip_open_field(raw, entry_idx) {
        Ok(v) => v,
        Err(m) => {
            return Err(m);
        },
    };
    let verify = match verify_field(raw, entry_idx) {
        Ok(v) => v,
        Err(m) => {
            return Err(m);
        },
    };
    Ok(
        Entry {
            name: chars_to_string(&name),
            mode,
            drive: chars_to_string(&drive),
            source: expand_source(&source_raw, home),
            dest: chars_to_string(&dest),
            includes,
            exclude,
            name_re,
            min_age_minutes,
            skip_open,
            verify,
        },
    )
}


// ------------------------------------------------------------ documents

fn finish_doc(doc: Doc) -> (r: Vec<RawEntry>)
    ensures
        raws_view(r@) == model::finished_raws(doc@),
{
    let ghost d0 = doc@;
    let Doc { version: _, raws, current } = doc;
    let mut raws = raws;
    match current {
        Some(done) => {
            let ghost before = raws_view(raws@);
            let ghost dv = done@;
            raws.push(done);
            assert(raws_view(raws@) =~= before.push(dv));
        },
        None => {},
    }
    raws
}

fn build_all(raws: &Vec<RawEntry>, home: &Vec<char>) -> (r: Result<Vec<Entry>, String>)
    ensures
        match r {
            Ok(es) => model::build_from(raws_view(raws@), 0, home@, seq![]) == Ok::<
                Seq<EntrySpec>,
                Seq<char>,
            >(entries_view(es@)),
            Err(m) => model::build_from(raws_view(raws@), 0, home@, seq![]) == Err::<
                Seq<EntrySpec>,
                Seq<char>,
            >(m@),
        },
{
    let mut out: Vec<Entry> = Vec::new();
    let mut i: usize = 0;
    assert(entries_view(out@) =~= Seq::<EntrySpec>::empty());
    while i < raws.len()
        invariant
            i <= raws.len(),
            model::build_from(raws_view(raws@), 0, home@, seq![]) == model::build_from(
                raws_view(raws@),
                i as int,
                home@,
                entries_view(out@),
            ),
        decreases raws.len() - i,
    {
        assert(raws_view(raws@)[i as int] == raws@[i as int]@);
        match build_entry(&raws[i], i, home) {
            Ok(en) => {
                let ghost before = entries_view(out@);
                let ghost ev = en@;
                out.push(en);
                assert(entries_view(out@) =~= before.push(ev));
            },
            Err(m) => {
                return Err(m);
            },
        }
        i = i + 1;
    }
    Ok(out)
}

fn version_mismatch_msg(v: i64) -> (m: String)
    ensures
        m@ == "unsupported version "@ + crate::text::idec(v as int) + " (found "@
            + crate::text::idec(v as int) + "): expected version = 1"@,
{
    let mut m = String::new();
    push_str(&mut m, "unsupported version ");
    push_idec(&mut m, v);
    push_str(&mut m, " (found ");
    push_idec(&mut m, v);
    push_str(&mut m, "): expected version = 1");
    assert(m@ =~= "unsupported version "@ + crate::text::idec(v as int) + " (found "@
        + crate::text::idec(v as int) + "): expected version = 1"@);
    m
}

/// Parse TOML-subset config text into entries, with `home` standing for
/// `~` in source paths. Every text gives its entries or an error; the
/// error, if any, is the first one in reading order.
pub fn parse(text: &str, home: &str) -> (r: Result<Vec<Entry>, ConfigError>)
    ensures
        match r {
            Ok(es) => model::parse_document(text@, home@) == Ok::<Seq<EntrySpec>, Fail>(
                entries_view(es@),
            ),
            Err(e) => model::parse_document(text@, home@) == Err::<Seq<EntrySpec>, Fail>(
                Fail::Msg(e@),
            ),
        },
{
    let chars = str_chars(text);
    let home_chars = str_chars(home);
    let ls = split_lines(&chars);
    let mut doc = Doc { version: None, raws: Vec::new(), current: None };
    assert(raws_view(doc.raws@) =~= Seq::<Seq<FieldSpec>>::empty());
    assert(doc@ == model::initial_state());
    let mut i: usize = 0;
    while i < ls.len()
        invariant
            i <= ls.len(),
            seqs(ls@) == model::lines(text@),
            model::run_lines(model::initial_state(), model::lines(text@), 0) == model::run_lines(
                doc@,
                model::lines(text@),
                i as int,
            ),
        decreases ls.len() - i,
    {
        assert(seqs(ls@)[i as int] == ls@[i as int]@);
        match step(doc, i + 1, &ls[i]) {
            Ok(d) => {
                doc = d;
            },
            Err(Failure::Msg(m)) => {
                return Err(ConfigError::new(m));
            },
        }
        i = i + 1;
    }
    let version = doc.version;
    match version {
        None => {
            let mut m = String::new();
            push_str(&mut m, "missing version (found none): expected version = 1");
            assert(m@ =~= "missing version (found none): expected version = 1"@);
            Err(ConfigError::new(m))
        },
        Some(v) => {
            if v != CONFIG_VERSION as i64 {
                return Err(ConfigError::new(version_mismatch_msg(v)));
            }
            let raws = finish_doc(doc);
            match build_all(&raws, &home_chars) {
                Ok(es) => Ok(es),
                Err(m) => Err(ConfigError::new(m)),
            }
        },
    }
}

/// The home directory used for `~`: `HOME` when it is set and not empty,
/// otherwise `/Users`.
pub fn resolve_home(home_env: Option<&str>) -> (r: String)
    ensures
        r@ == model::home_or_default(
            match home_env {
                Some(h) => Some(h@),
                None => None,
            },
        ),
{
    match home_env {
        Some(h) => {
            if !h.is_empty() {
                return h.to_owned();
            }
            String::from_str("/Users")
        },
        None => String::from_str("/Users"),
    }
}

} // verus!
