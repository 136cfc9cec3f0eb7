//! `config.toml`: the defaults file, and the settings that the command line
//! and the file give together. The file is read as TOML key/value lines at its
//! top level: strings, booleans, integers, and arrays of strings on one line.

use vstd::prelude::*;

use crate::cli::Cli;
use crate::config::split_lines;
use crate::model::strings_view;
use crate::text::{chars_of, slice_chars, string_of};

verus! {

// ── lexical pieces ───────────────────────────────────────────────

/// A blank inside a line: space, tab, or the carriage return of a CRLF line end.
pub open spec fn is_blank(c: char) -> bool {
    c == ' ' || c == '\t' || c == '\r'
}

/// A character of a bare key or word.
pub open spec fn is_word_char(c: char) -> bool {
    ('a' <= c && c <= 'z') || ('A' <= c && c <= 'Z') || ('0' <= c && c <= '9') || c == '_' || c
        == '-'
}

/// The first index at or after `i` that holds no blank.
pub open spec fn skip_blanks(l: Seq<char>, i: int) -> int
    decreases l.len() - i,
{
    if 0 <= i < l.len() && is_blank(l[i]) {
        skip_blanks(l, i + 1)
    } else {
        i
    }
}

/// The first index at or after `i` that holds no word character.
pub open spec fn word_end(l: Seq<char>, i: int) -> int
    decreases l.len() - i,
{
    if 0 <= i < l.len() && is_word_char(l[i]) {
        word_end(l, i + 1)
    } else {
        i
    }
}

/// The first index at or after `i` that holds `"` or a backslash.
pub open spec fn quote_end(l: Seq<char>, i: int) -> int
    decreases l.len() - i,
{
    if 0 <= i < l.len() && l[i] != '"' && l[i] != '\\' {
        quote_end(l, i + 1)
    } else {
        i
    }
}

pub proof fn lemma_scans(l: Seq<char>, i: int)
    requires
        0 <= i <= l.len(),
    ensures
        i <= skip_blanks(l, i) <= l.len(),
        i <= word_end(l, i) <= l.len(),
        i <= quote_end(l, i) <= l.len(),
    decreases l.len() - i,
{
    if i < l.len() {
        lemma_scans(l, i + 1);
    }
}

/// The string literal at `i` (`"` text without `"` or backslash `"`), with the
/// index after it.
pub open spec fn string_at(l: Seq<char>, i: int) -> Option<(Seq<char>, int)> {
    if 0 <= i < l.len() && l[i] == '"' {
        let j = quote_end(l, i + 1);
        if j < l.len() && l[j] == '"' {
            Some((l.subrange(i + 1, j), j + 1))
        } else {
            None
        }
    } else {
        None
    }
}

pub proof fn lemma_string_at(l: Seq<char>, i: int)
    requires
        0 <= i <= l.len(),
    ensures
        string_at(l, i) matches Some(p) ==> i < p.1 <= l.len(),
{
    if i < l.len() {
        lemma_scans(l, i + 1);
    }
}

/// The items of an array of strings whose `[` ends just before `i`, with the
/// index after its `]`; a trailing comma is allowed.
pub open spec fn items_from(l: Seq<char>, i: int) -> Option<(Seq<Seq<char>>, int)>
    decreases l.len() - i,
{
    if i < 0 || i > l.len() {
        None
    } else {
        let j = skip_blanks(l, i);
        if j < l.len() && l[j] == ']' {
            Some((Seq::empty(), j + 1))
        } else {
            match string_at(l, j) {
                None => None,
                Some(p) => {
                    let k = skip_blanks(l, p.1);
                    if k < l.len() && l[k] == ',' {
                        proof {
                            lemma_scans(l, i);
                            lemma_string_at(l, j);
                            lemma_scans(l, p.1);
                        }
                        match items_from(l, k + 1) {
                            Some(q) => Some((seq![p.0] + q.0, q.1)),
                            None => None,
                        }
                    } else if k < l.len() && l[k] == ']' {
                        Some((seq![p.0], k + 1))
                    } else {
                        None
                    }
                },
            }
        }
    }
}

/// The value of a decimal numeral.
pub open spec fn numeral_value(w: Seq<char>) -> nat
    decreases w.len(),
{
    if w.len() == 0 {
        0
    } else {
        numeral_value(w.drop_last()) * 10 + (w.last() as nat - 48) as nat
    }
}

/// A decimal numeral whose value fits in `u64`.
pub open spec fn is_numeral(w: Seq<char>) -> bool {
    &&& w.len() > 0
    &&& forall|k: int| 0 <= k < w.len() ==> '0' <= #[trigger] w[k] && w[k] <= '9'
    &&& numeral_value(w) <= u64::MAX
}

/// A value as the file writes it, its strings taken as characters.
pub enum ValueView {
    Str(Seq<char>),
    Bool(bool),
    Int(u64),
    List(Seq<Seq<char>>),
}

/// The value at `i`, with the index after it.
pub open spec fn value_at(l: Seq<char>, i: int) -> Option<(ValueView, int)> {
    if i < 0 || i > l.len() {
        None
    } else if i < l.len() && l[i] == '"' {
        match string_at(l, i) {
            Some(p) => Some((ValueView::Str(p.0), p.1)),
            None => None,
        }
    } else if i < l.len() && l[i] == '[' {
        match items_from(l, i + 1) {
            Some(p) => Some((ValueView::List(p.0), p.1)),
            None => None,
        }
    } else {
        let k = word_end(l, i);
        let w = l.subrange(i, k);
        if w == "true"@ {
            Some((ValueView::Bool(true), k))
        } else if w == "false"@ {
            Some((ValueView::Bool(false), k))
        } else if is_numeral(w) {
            Some((ValueView::Int(numeral_value(w) as u64), k))
        } else {
            None
        }
    }
}

/// The key and value of a `key = value` line, which may end in a `#` comment;
/// `None` for any other line (blank lines and comments among them).
pub open spec fn line_entry(l: Seq<char>) -> Option<(Seq<char>, ValueView)> {
    let a = skip_blanks(l, 0);
    let k = word_end(l, a);
    let e = skip_blanks(l, k);
    if k == a || !(e < l.len() && l[e] == '=') {
        None
    } else {
        match value_at(l, skip_blanks(l, e + 1)) {
            None => None,
            Some(p) => {
                let r = skip_blanks(l, p.1);
                if r >= l.len() || l[r] == '#' {
                    Some((l.subrange(a, k), p.0))
                } else {
                    None
                }
            },
        }
    }
}

/// A table header such as `[section]`: the keys after it are not top-level keys.
pub open spec fn is_header(l: Seq<char>) -> bool {
    let a = skip_blanks(l, 0);
    a < l.len() && l[a] == '['
}

// ── the file's settings ──────────────────────────────────────────

/// What `config.toml` sets; `None` where it says nothing.
pub struct FileConfig {
    pub repos: Option<Vec<String>>,
    pub branch: Option<String>,
    pub aggregate: Option<bool>,
    pub sound: Option<bool>,
    pub exclude: Option<Vec<String>>,
    pub watch: Option<bool>,
    pub interval: Option<u64>,
}

/// A `FileConfig` with its strings taken as characters.
pub struct FileView {
    pub repos: Option<Seq<Seq<char>>>,
    pub branch: Option<Seq<char>>,
    pub aggregate: Option<bool>,
    pub sound: Option<bool>,
    pub exclude: Option<Seq<Seq<char>>>,
    pub watch: Option<bool>,
    pub interval: Option<u64>,
}

/// The characters of each string of an optional list.
pub open spec fn opt_list(o: Option<Vec<String>>) -> Option<Seq<Seq<char>>> {
    match o {
        Some(v) => Some(strings_view(v@)),
        None => None,
    }
}

impl View for FileConfig {
    type V = FileView;

    open spec fn view(&self) -> FileView {
        FileView {
            repos: opt_list(self.repos),
            branch: match self.branch {
                Some(b) => Some(b@),
                None => None,
            },
            aggregate: self.aggregate,
            sound: self.sound,
            exclude: opt_list(self.exclude),
            watch: self.watch,
            interval: self.interval,
        }
    }
}

/// A file that sets nothing.
pub open spec fn no_settings() -> FileView {
    FileView {
        repos: None,
        branch: None,
        aggregate: None,
        sound: None,
        exclude: None,
        watch: None,
        interval: None,
    }
}

/// The settings after one `key = value` line: a known key with a value of its
/// type sets that setting (a later line wins); anything else changes nothing.
pub open spec fn with_entry(c: FileView, key: Seq<char>, v: ValueView) -> FileView {
    match v {
        ValueView::List(xs) => if key == "repos"@ {
            FileView { repos: Some(xs), ..c }
        } else if key == "exclude"@ {
            FileView { exclude: Some(xs), ..c }
        } else {
            c
        },
        ValueView::Str(s) => if key == "branch"@ {
            FileView { branch: Some(s), ..c }
        } else {
            c
        },
        ValueView::Bool(b) => if key == "aggregate"@ {
            FileView { aggregate: Some(b), ..c }
        } else if key == "sound"@ {
            FileView { sound: Some(b), ..c }
        } else if key == "watch"@ {
            FileView { watch: Some(b), ..c }
        } else {
            c
        },
        ValueView::Int(n) => if key == "interval"@ {
            FileView { interval: Some(n), ..c }
        } else {
            c
        },
    }
}

/// The settings of the lines, and whether a table header was seen (after
/// which no line sets anything).
pub open spec fn settings_of_lines(ls: Seq<Seq<char>>) -> (FileView, bool)
    decreases ls.len(),
{
    if ls.len() == 0 {
        (no_settings(), false)
    } else {
        let p = settings_of_lines(ls.drop_last());
        let l = ls.last();
        if p.1 {
            p
        } else if is_header(l) {
            (p.0, true)
        } else {
            match line_entry(l) {
                Some(e) => (with_entry(p.0, e.0, e.1), false),
                None => p,
            }
        }
    }
}

/// The settings a `config.toml` text holds.
pub open spec fn file_settings(text: Seq<char>) -> FileView {
    settings_of_lines(split_lines(text)).0
}

// ── reading the file ─────────────────────────────────────────────

fn skip_blanks_exec(l: &Vec<char>, i: usize) -> (j: usize)
    requires
        i <= l.len(),
    ensures
        j as int == skip_blanks(l@, i as int),
        i <= j <= l.len(),
{
    let mut j = i;
    while j < l.len() && (l[j] == ' ' || l[j] == '\t' || l[j] == '\r')
        invariant
            i <= j <= l.len(),
            skip_blanks(l@, i as int) == skip_blanks(l@, j as int),
        decreases l.len() - j,
    {
        j = j + 1;
    }
    j
}

fn word_end_exec(l: &Vec<char>, i: usize) -> (j: usize)
    requires
        i <= l.len(),
    ensures
        j as int == word_end(l@, i as int),
        i <= j <= l.len(),
{
    let mut j = i;
    while j < l.len() && (('a' <= l[j] && l[j] <= 'z') || ('A' <= l[j] && l[j] <= 'Z') || ('0'
        <= l[j] && l[j] <= '9') || l[j] == '_' || l[j] == '-')
        invariant
            i <= j <= l.len(),
            word_end(l@, i as int) == word_end(l@, j as int),
        decreases l.len() - j,
    {
        j = j + 1;
    }
    j
}

fn quote_end_exec(l: &Vec<char>, i: usize) -> (j: usize)
    requires
        i <= l.len(),
    ensures
        j as int == quote_end(l@, i as int),
        i <= j <= l.len(),
{
    let mut j = i;
    while j < l.len() && l[j] != '"' && l[j] != '\\'
        invariant
            i <= j <= l.len(),
            quote_end(l@, i as int) == quote_end(l@, j as int),
        decreases l.len() - j,
    {
        j = j + 1;
    }
    j
}

fn string_at_exec(l: &Vec<char>, i: usize) -> (r: Option<(Vec<char>, usize)>)
    requires
        i <= l.len(),
    ensures
        match r {
            Some(p) => string_at(l@, i as int) == Some((p.0@, p.1 as int)) && p.1 <= l.len(),
            None => string_at(l@, i as int) is None,
        },
{
    if i < l.len() && l[i] == '"' {
        let j = quote_end_exec(l, i + 1);
        if j < l.len() && l[j] == '"' {
            return Some((slice_chars(l, i + 1, j), j + 1));
        }
    }
    None
}

fn strings_of(v: &Vec<Vec<char>>) -> (r: Vec<String>)
    ensures
        strings_view(r@) == v@.map_values(|x: Vec<char>| x@),
{
    let mut r: Vec<String> = Vec::new();
    for i in 0..v.len()
        invariant
            strings_view(r@) == v@.take(i as int).map_values(|x: Vec<char>| x@),
    {
        let ghost before = r@;
        r.push(string_of(&v[i]));
        assert(strings_view(r@) =~= strings_view(before).push(v@[i as int]@));
        assert(v@.take(i + 1).map_values(|x: Vec<char>| x@) =~= v@.take(i as int).map_values(
            |x: Vec<char>| x@,
        ).push(v@[i as int]@));
    }
    assert(v@.take(v.len() as int) =~= v@);
    r
}

fn items_from_exec(l: &Vec<char>, i: usize) -> (r: Option<(Vec<Vec<char>>, usize)>)
    requires
        i <= l.len(),
    ensures
        match r {
            Some(p) => items_from(l@, i as int) == Some((p.0@.map_values(|x: Vec<char>| x@), p.1 as int))
                && p.1 <= l.len(),
            None => items_from(l@, i as int) is None,
        },
    decreases l.len() - i,
{
    let j = skip_blanks_exec(l, i);
    if j < l.len() && l[j] == ']' {
        let v: Vec<Vec<char>> = Vec::new();
        assert(v@.map_values(|x: Vec<char>| x@) =~= Seq::<Seq<char>>::empty());
        return Some((v, j + 1));
    }
    match string_at_exec(l, j) {
        None => None,
        Some((s, e)) => {
            proof {
                lemma_string_at(l@, j as int);
            }
            let k = skip_blanks_exec(l, e);
            if k < l.len() && l[k] == ',' {
                match items_from_exec(l, k + 1) {
                    Some((rest, end)) => {
                        let mut v: Vec<Vec<char>> = Vec::new();
                        let ghost sv = s@;
                        v.push(s);
                        let mut rest = rest;
                        let ghost rv = rest@.map_values(|x: Vec<char>| x@);
                        v.append(&mut rest);
                        assert(v@.map_values(|x: Vec<char>| x@) =~= seq![sv] + rv);
                        Some((v, end))
                    },
                    None => None,
                }
            } else if k < l.len() && l[k] == ']' {
                let mut v: Vec<Vec<char>> = Vec::new();
                let ghost sv = s@;
                v.push(s);
                assert(v@.map_values(|x: Vec<char>| x@) =~= seq![sv]);
                Some((v, k + 1))
            } else {
                None
            }
        },
    }
}

/// A value of `config.toml`.
pub enum Value {
    Str(String),
    Bool(bool),
    Int(u64),
    List(Vec<String>),
}

impl View for Value {
    type V = ValueView;

    open spec fn view(&self) -> ValueView {
        match self {
            Value::Str(s) => ValueView::Str(s@),
            Value::Bool(b) => ValueView::Bool(*b),
            Value::Int(n) => ValueView::Int(*n),
            Value::List(v) => ValueView::List(strings_view(v@)),
        }
    }
}

proof fn lemma_numeral_grows(w: Seq<char>, i: int, j: int)
    requires
        0 <= i <= j <= w.len(),
        forall|k: int| 0 <= k < w.len() ==> '0' <= #[trigger] w[k] && w[k] <= '9',
    ensures
        numeral_value(w.take(i)) <= numeral_value(w.take(j)),
    decreases j - i,
{
    if i < j {
        lemma_numeral_grows(w, i, j - 1);
        assert(w.take(j).drop_last() =~= w.take(j - 1));
    }
}

proof fn lemma_numeral_too_big(w: Seq<char>, i: int)
    requires
        0 <= i < w.len(),
        numeral_value(w.take(i + 1)) > u64::MAX,
    ensures
        !is_numeral(w),
{
    if forall|k: int| 0 <= k < w.len() ==> '0' <= #[trigger] w[k] && w[k] <= '9' {
        lemma_numeral_grows(w, i + 1, w.len() as int);
        assert(w.take(w.len() as int) =~= w);
    }
}

/// The value of a numeral word, if it is one that fits in `u64`.
fn numeral_exec(w: &Vec<char>) -> (r: Option<u64>)
    ensures
        match r {
            Some(n) => is_numeral(w@) && n == numeral_value(w@),
            None => !is_numeral(w@),
        },
{
    if w.len() == 0 {
        return None;
    }
    let mut n: u64 = 0;
    let mut i: usize = 0;
    while i < w.len()
        invariant
            i <= w.len(),
            w.len() > 0,
            forall|k: int| 0 <= k < i ==> '0' <= #[trigger] w@[k] && w@[k] <= '9',
            n == numeral_value(w@.take(i as int)),
        decreases w.len() - i,
    {
        let c = w[i];
        if !('0' <= c && c <= '9') {
            return None;
        }
        let d = (c as u32 - 48) as u64;
        assert(w@.take(i + 1).drop_last() =~= w@.take(i as int));
        match n.checked_mul(10) {
            Some(m) => match m.checked_add(d) {
                Some(x) => {
                    n = x;
                },
                None => {
                    proof {
                        lemma_numeral_too_big(w@, i as int);
                    }
                    return None;
                },
            },
            None => {
                proof {
                    lemma_numeral_too_big(w@, i as int);
                }
                return None;
            },
        }
        i = i + 1;
    }
    assert(w@.take(w.len() as int) =~= w@);
    Some(n)
}

fn is_word(w: &Vec<char>, lit: &str) -> (r: bool)
    ensures
        r == (w@ == lit@),
{
    let v = chars_of(lit);
    crate::text::chars_eq(w, &v)
}

fn value_at_exec(l: &Vec<char>, i: usize) -> (r: Option<(Value, usize)>)
    requires
        i <= l.len(),
    ensures
        match r {
            Some(p) => value_at(l@, i as int) == Some((p.0@, p.1 as int)) && p.1 <= l.len(),
            None => value_at(l@, i as int) is None,
        },
{
    if i < l.len() && l[i] == '"' {
        match string_at_exec(l, i) {
            Some((s, k)) => Some((Value::Str(string_of(&s)), k)),
            None => None,
        }
    } else if i < l.len() && l[i] == '[' {
        match items_from_exec(l, i + 1) {
            Some((v, k)) => {
                let xs = strings_of(&v);
                Some((Value::List(xs), k))
            },
            None => None,
        }
    } else {
        let k = word_end_exec(l, i);
        let w = slice_chars(l, i, k);
        proof {
            reveal_strlit("true");
            reveal_strlit("false");
        }
        if is_word(&w, "true") {
            Some((Value::Bool(true), k))
        } else if is_word(&w, "false") {
            Some((Value::Bool(false), k))
        } else {
            match numeral_exec(&w) {
                Some(n) => Some((Value::Int(n), k)),
                None => None,
            }
        }
    }
}

/// The key and value of one line of `config.toml`, if it is a `key = value` line.
pub fn line_entry_exec(l: &Vec<char>) -> (r: Option<(String, Value)>)
    ensures
        match r {
            Some(p) => line_entry(l@) == Some((p.0@, p.1@)),
            None => line_entry(l@) is None,
        },
{
    let a = skip_blanks_exec(l, 0);
    let k = word_end_exec(l, a);
    let e = skip_blanks_exec(l, k);
    if k == a || !(e < l.len() && l[e] == '=') {
        return None;
    }
    let v0 = skip_blanks_exec(l, e + 1);
    match value_at_exec(l, v0) {
        None => None,
        Some((v, after)) => {
            let r = skip_blanks_exec(l, after);
            if r >= l.len() || l[r] == '#' {
                Some((string_of(&slice_chars(l, a, k)), v))
            } else {
                None
            }
        },
    }
}

fn is_header_exec(l: &Vec<char>) -> (r: bool)
    ensures
        r == is_header(l@),
{
    let a = skip_blanks_exec(l, 0);
    a < l.len() && l[a] == '['
}

fn copy_strings(v: &Vec<String>) -> (r: Vec<String>)
    ensures
        strings_view(r@) == strings_view(v@),
{
    let mut r: Vec<String> = Vec::new();
    crate::cli::extend_cloned(&mut r, v);
    assert(strings_view(Seq::<String>::empty()) =~= Seq::<Seq<char>>::empty());
    assert(strings_view(Seq::<String>::empty()) + strings_view(v@) =~= strings_view(v@));
    r
}

fn set_entry(c: &mut FileConfig, key: &String, v: Value)
    ensures
        final(c)@ == with_entry(old(c)@, key@, v@),
{
    proof {
        reveal_strlit("repos");
        reveal_strlit("exclude");
        reveal_strlit("branch");
        reveal_strlit("aggregate");
        reveal_strlit("sound");
        reveal_strlit("watch");
        reveal_strlit("interval");
    }
    let k = key.as_str();
    match v {
        Value::List(xs) => {
            if crate::text::str_eq(k, "repos") {
                c.repos = Some(xs);
            } else if crate::text::str_eq(k, "exclude") {
                c.exclude = Some(xs);
            }
        },
        Value::Str(s) => {
            if crate::text::str_eq(k, "branch") {
                c.branch = Some(s);
            }
        },
        Value::Bool(b) => {
            if crate::text::str_eq(k, "aggregate") {
                c.aggregate = Some(b);
            } else if crate::text::str_eq(k, "sound") {
                c.sound = Some(b);
            } else if crate::text::str_eq(k, "watch") {
                c.watch = Some(b);
            }
        },
        Value::Int(n) => {
            if crate::text::str_eq(k, "interval") {
                c.interval = Some(n);
            }
        },
    }
}

/// The lines of `text`, cut at every newline.
fn lines_of(text: &str) -> (ls: Vec<Vec<char>>)
    ensures
        ls@.map_values(|x: Vec<char>| x@) == split_lines(text@),
{
    let t = chars_of(text);
    let mut done: Vec<Vec<char>> = Vec::new();
    let mut cur: Vec<char> = Vec::new();
    for i in 0..t.len()
        invariant
            t@ == text@,
            split_lines(t@.take(i as int)) == done@.map_values(|x: Vec<char>| x@).push(cur@),
    {
        assert(t@.take(i + 1).drop_last() =~= t@.take(i as int));
        let ghost dv = done@.map_values(|x: Vec<char>| x@);
        if t[i] == '\n' {
            let ghost cv = cur@;
            done.push(cur);
            cur = Vec::new();
            assert(done@.map_values(|x: Vec<char>| x@) =~= dv.push(cv));
            assert(split_lines(t@.take(i + 1)) =~= dv.push(cv).push(cur@));
        } else {
            cur.push(t[i]);
            assert(dv.push(cur@) =~= split_lines(t@.take(i as int)).update(
                dv.len() as int,
                split_lines(t@.take(i as int)).last().push(t@[i as int]),
            ));
        }
    }
    assert(t@.take(t.len() as int) =~= t@);
    let ghost dv = done@.map_values(|x: Vec<char>| x@);
    let ghost cv = cur@;
    done.push(cur);
    assert(done@.map_values(|x: Vec<char>| x@) =~= dv.push(cv));
    done
}

/// The settings a `config.toml` text holds: its `key = value` lines for
/// `repos`, `exclude` (arrays of strings), `branch` (a string), `aggregate`,
/// `sound`, `watch` (booleans) and `interval` (an integer), up to the first
/// table header; other lines and keys are passed over.
pub fn parse_config_toml(text: &str) -> (c: FileConfig)
    ensures
        c@ == file_settings(text@),
{
    let ls = lines_of(text);
    let ghost lv = ls@.map_values(|x: Vec<char>| x@);
    let mut c = FileConfig {
        repos: None,
        branch: None,
        aggregate: None,
        sound: None,
        exclude: None,
        watch: None,
        interval: None,
    };
    let mut in_table = false;
    for i in 0..ls.len()
        invariant
            lv == ls@.map_values(|x: Vec<char>| x@),
            settings_of_lines(lv.take(i as int)) == (c@, in_table),
    {
        assert(lv.take(i + 1).drop_last() =~= lv.take(i as int));
        assert(lv.take(i + 1).last() == ls@[i as int]@);
        if !in_table {
            if is_header_exec(&ls[i]) {
                in_table = true;
            } else {
                match line_entry_exec(&ls[i]) {
                    Some((k, v)) => set_entry(&mut c, &k, v),
                    None => {},
                }
            }
        }
    }
    assert(lv.take(ls.len() as int) =~= lv);
    c
}

// ── the settings in force ────────────────────────────────────────

/// The settings a run uses: the command line's where it sets them, else the
/// file's, else the built-in defaults.
pub struct Settings {
    pub branch: String,
    pub aggregate: bool,
    pub sound: bool,
    pub exclude: Vec<String>,
    /// Watch mode's refresh interval, when watching.
    pub watch: Option<u64>,
}

/// The branch: `-b`, else the file's, else `main`.
pub open spec fn branch_of(cli: Option<Seq<char>>, file: FileView) -> Seq<char> {
    match cli {
        Some(b) => b,
        None => match file.branch {
            Some(b) => b,
            None => "main"@,
        },
    }
}

/// The exclusion patterns: those of `-x` when any is given, else the file's.
pub open spec fn exclude_of(cli: Seq<Seq<char>>, file: FileView) -> Seq<Seq<char>> {
    if cli.len() > 0 {
        cli
    } else {
        match file.exclude {
            Some(x) => x,
            None => Seq::empty(),
        }
    }
}

/// Watch mode: `-w` with its interval, else the file's `watch = true` with its
/// `interval` (60 when it has none).
pub open spec fn watch_of(cli: Option<u64>, file: FileView) -> Option<u64> {
    match cli {
        Some(n) => Some(n),
        None => if file.watch == Some(true) {
            Some(
                match file.interval {
                    Some(n) => n,
                    None => 60,
                },
            )
        } else {
            None
        },
    }
}

/// The settings in force for this command line and this `config.toml`.
pub fn settings(cli: &Cli, file: &FileConfig) -> (s: Settings)
    ensures
        s.branch@ == branch_of(
            match cli.branch {
                Some(b) => Some(b@),
                None => None,
            },
            file@,
        ),
        s.aggregate == (cli.aggregate || file.aggregate == Some(true)),
        s.sound == (!cli.no_sound && file.sound != Some(false)),
        strings_view(s.exclude@) == exclude_of(strings_view(cli.exclude@), file@),
        s.watch == watch_of(cli.watch, file@),
{
    let branch = match &cli.branch {
        Some(b) => b.clone(),
        None => match &file.branch {
            Some(b) => b.clone(),
            None => String::from_str("main"),
        },
    };
    let exclude = if cli.exclude.len() > 0 {
        copy_strings(&cli.exclude)
    } else {
        match &file.exclude {
            Some(x) => copy_strings(x),
            None => {
                let v: Vec<String> = Vec::new();
                assert(strings_view(v@) =~= Seq::<Seq<char>>::empty());
                v
            },
        }
    };
    let watch = match cli.watch {
        Some(n) => Some(n),
        None => if file.watch == Some(true) {
            Some(
                match file.interval {
                    Some(n) => n,
                    None => 60,
                },
            )
        } else {
            None
        },
    };
    Settings {
        branch,
        aggregate: cli.aggregate || file.aggregate == Some(true),
        sound: !cli.no_sound && file.sound != Some(false),
        exclude,
        watch,
    }
}

} // verus!
