//! Config paths and repo resolution: flags/args, then repos.conf, then the
//! current git remote.

use vstd::prelude::*;

use crate::model::strings_view;
use crate::seqs::{first_occurrences, lemma_filter_step, lemma_first_occurrences_push};
use crate::text::{
    chars_of, ends_with, ends_with_exec, find_from, find_from_exec, slice_chars, string_of,
    str_eq, trim, trim_chars, trimmed,
};

verus! {

/// Where the dashboard keeps its files.
pub struct Paths {
    pub config_dir: String,
    pub state_file: String,
    pub repos_conf: String,
    pub config_toml: String,
}

/// A path with a relative component pushed onto it (as `PathBuf::join`): a
/// `/` goes between them unless the base is empty or already ends with one.
pub open spec fn joined(base: Seq<char>, part: Seq<char>) -> Seq<char> {
    if base.len() == 0 || base.last() == '/' {
        base + part
    } else {
        base + seq!['/'] + part
    }
}

fn join(base: &str, part: &str) -> (r: String)
    ensures
        r@ == joined(base@, part@),
{
    proof {
        reveal_strlit("/");
    }
    let b = chars_of(base);
    let mut r = string_of(&b);
    if b.len() > 0 && b[b.len() - 1] != '/' {
        r.append("/");
    }
    r.append(part);
    r
}

impl Paths {
    /// The paths under `actiontui` in the platform config directory `base`.
    pub fn in_config_dir(base: &str) -> (p: Paths)
        ensures
            p.config_dir@ == joined(base@, "actiontui"@),
            p.state_file@ == joined(p.config_dir@, "state.json"@),
            p.repos_conf@ == joined(p.config_dir@, "repos.conf"@),
            p.config_toml@ == joined(p.config_dir@, "config.toml"@),
    {
        let dir = join(base, "actiontui");
        Paths {
            state_file: join(dir.as_str(), "state.json"),
            repos_conf: join(dir.as_str(), "repos.conf"),
            config_toml: join(dir.as_str(), "config.toml"),
            config_dir: dir,
        }
    }
}

// ── repos.conf ───────────────────────────────────────────────────

/// `s` cut at every newline.
pub open spec fn split_lines(s: Seq<char>) -> Seq<Seq<char>>
    decreases s.len(),
{
    if s.len() == 0 {
        seq![Seq::empty()]
    } else {
        let p = split_lines(s.drop_last());
        if s.last() == '\n' {
            p.push(Seq::empty())
        } else {
            p.update(p.len() - 1, p.last().push(s.last()))
        }
    }
}

pub proof fn lemma_split_lines_nonempty(s: Seq<char>)
    ensures
        split_lines(s).len() > 0,
    decreases s.len(),
{
    if s.len() > 0 {
        lemma_split_lines_nonempty(s.drop_last());
    }
}

/// A trimmed line that names a repo: not empty and not a `#` comment.
pub open spec fn is_entry() -> spec_fn(Seq<char>) -> bool {
    |l: Seq<char>| l.len() > 0 && l[0] != '#'
}

/// The trimmed text of a line.
pub open spec fn trim_fn() -> spec_fn(Seq<char>) -> Seq<char> {
    |l: Seq<char>| trimmed(l)
}

/// The repos a repos.conf lists: its lines, trimmed, without blank lines and `#` comments.
pub open spec fn conf_entries(text: Seq<char>) -> Seq<Seq<char>> {
    split_lines(text).map_values(trim_fn()).filter(is_entry())
}

/// The repos a repos.conf text lists, in order.
pub fn parse_repos_conf(text: &str) -> (repos: Vec<String>)
    ensures
        strings_view(repos@) == conf_entries(text@),
{
    let t = chars_of(text);
    let mut done: Vec<String> = Vec::new();
    let mut cur: Vec<char> = Vec::new();
    let ghost mut segs: Seq<Seq<char>> = Seq::empty();
    for i in 0..t.len()
        invariant
            split_lines(t@.take(i as int)) == segs.push(cur@),
            strings_view(done@) == segs.map_values(trim_fn()).filter(is_entry()),
    {
        assert(t@.take(i + 1).drop_last() =~= t@.take(i as int));
        if t[i] == '\n' {
            let line = trim_chars(&cur);
            proof {
                let all = segs.push(cur@);
                assert(all.map_values(trim_fn()) =~= segs.map_values(trim_fn()).push(trimmed(cur@)));
                lemma_filter_step(all.map_values(trim_fn()), segs.len() as int, is_entry());
                assert(all.map_values(trim_fn()).take(segs.len() as int) =~= segs.map_values(
                    trim_fn(),
                ));
                assert(all.map_values(trim_fn()).take(segs.len() as int + 1) =~= all.map_values(
                    trim_fn(),
                ));
            }
            if line.len() > 0 && line[0] != '#' {
                done.push(string_of(&line));
                assert(strings_view(done@) =~= segs.push(cur@).map_values(trim_fn()).filter(
                    is_entry(),
                ));
            }
            proof {
                segs = segs.push(cur@);
            }
            cur = Vec::new();
        } else {
            cur.push(t[i]);
            assert(segs.push(cur@) =~= split_lines(t@.take(i as int)).update(
                segs.len() as int,
                split_lines(t@.take(i as int)).last().push(t@[i as int]),
            ));
        }
    }
    assert(t@.take(t.len() as int) =~= t@);
    let line = trim_chars(&cur);
    proof {
        let all = segs.push(cur@);
        assert(all.map_values(trim_fn()) =~= segs.map_values(trim_fn()).push(trimmed(cur@)));
        lemma_filter_step(all.map_values(trim_fn()), segs.len() as int, is_entry());
        assert(all.map_values(trim_fn()).take(segs.len() as int) =~= segs.map_values(trim_fn()));
        assert(all.map_values(trim_fn()).take(segs.len() as int + 1) =~= all.map_values(trim_fn()));
    }
    if line.len() > 0 && line[0] != '#' {
        done.push(string_of(&line));
        assert(strings_view(done@) =~= segs.push(cur@).map_values(trim_fn()).filter(is_entry()));
    }
    done
}

// ── dedup ────────────────────────────────────────────────────────

fn contains_string(v: &Vec<String>, s: &String) -> (r: bool)
    ensures
        r == strings_view(v@).contains(s@),
{
    let mut i: usize = 0;
    while i < v.len()
        invariant
            i <= v.len(),
            forall|j: int| 0 <= j < i ==> v@[j]@ != s@,
        decreases v.len() - i,
    {
        if str_eq(v[i].as_str(), s.as_str()) {
            assert(strings_view(v@)[i as int] == s@);
            return true;
        }
        i = i + 1;
    }
    assert forall|j: int| 0 <= j < strings_view(v@).len() implies strings_view(v@)[j] != s@ by {
        assert(strings_view(v@)[j] == v@[j]@);
    }
    false
}

/// The repos in order, each kept at its first occurrence only.
pub fn dedup(repos: Vec<String>) -> (r: Vec<String>)
    ensures
        strings_view(r@) == first_occurrences(strings_view(repos@)),
{
    let mut out: Vec<String> = Vec::new();
    for i in 0..repos.len()
        invariant
            strings_view(out@) == first_occurrences(strings_view(repos@.take(i as int))),
    {
        let x = &repos[i];
        proof {
            assert(strings_view(repos@.take(i + 1)) =~= strings_view(repos@.take(i as int)).push(
                x@,
            ));
            lemma_first_occurrences_push(strings_view(repos@.take(i as int)), x@);
        }
        if !contains_string(&out, x) {
            out.push(x.clone());
            assert(strings_view(out@) =~= first_occurrences(strings_view(repos@.take(i + 1))));
        }
    }
    assert(repos@.take(repos.len() as int) =~= repos@);
    out
}

// ── git remotes ──────────────────────────────────────────────────

/// `s` without its leading `:` and `/` characters.
pub open spec fn strip_leading_seps(s: Seq<char>) -> Seq<char>
    decreases s.len(),
{
    if s.len() > 0 && (s[0] == ':' || s[0] == '/') {
        strip_leading_seps(s.drop_first())
    } else {
        s
    }
}

/// `s` without its trailing `/` characters.
pub open spec fn strip_trailing_slashes(s: Seq<char>) -> Seq<char>
    decreases s.len(),
{
    if s.len() > 0 && s.last() == '/' {
        strip_trailing_slashes(s.drop_last())
    } else {
        s
    }
}

/// The text after the first `github.com`, up to the next one.
pub open spec fn after_host(url: Seq<char>) -> Option<Seq<char>> {
    match find_from(url, "github.com"@, 0) {
        None => None,
        Some(i) => {
            let rest = url.skip(i + "github.com"@.len());
            match find_from(rest, "github.com"@, 0) {
                Some(j) => Some(rest.take(j)),
                None => Some(rest),
            }
        },
    }
}

/// The `owner/repo` of an ssh or https GitHub remote URL.
pub open spec fn github_slug(url: Seq<char>) -> Option<Seq<char>> {
    match after_host(url) {
        None => None,
        Some(after) => {
            let s = strip_trailing_slashes(strip_leading_seps(after));
            let slug = if ends_with(s, ".git"@) {
                s.take(s.len() - 4)
            } else {
                s
            };
            if slug.contains('/') && slug.len() > 0 {
                Some(slug)
            } else {
                None
            }
        },
    }
}

proof fn lemma_strip_leading(s: Seq<char>, i: int)
    requires
        0 <= i <= s.len(),
        forall|j: int| 0 <= j < i ==> (#[trigger] s[j] == ':' || s[j] == '/'),
    ensures
        strip_leading_seps(s) == strip_leading_seps(s.skip(i)),
    decreases i,
{
    if i > 0 {
        lemma_strip_leading(s.drop_first(), i - 1);
        assert(s.drop_first().skip(i - 1) =~= s.skip(i));
    } else {
        assert(s.skip(0) =~= s);
    }
}

proof fn lemma_strip_trailing(s: Seq<char>, k: int)
    requires
        0 <= k <= s.len(),
        forall|j: int| k <= j < s.len() ==> #[trigger] s[j] == '/',
    ensures
        strip_trailing_slashes(s) == strip_trailing_slashes(s.take(k)),
    decreases s.len() - k,
{
    if k < s.len() {
        lemma_strip_trailing(s.drop_last(), k);
        assert(s.drop_last().take(k) =~= s.take(k));
    } else {
        assert(s.take(k) =~= s);
    }
}

fn has_slash(v: &Vec<char>) -> (r: bool)
    ensures
        r == v@.contains('/'),
{
    let mut i: usize = 0;
    while i < v.len()
        invariant
            i <= v.len(),
            forall|j: int| 0 <= j < i ==> v@[j] != '/',
        decreases v.len() - i,
    {
        if v[i] == '/' {
            assert(v@[i as int] == '/');
            return true;
        }
        i = i + 1;
    }
    false
}

/// Extract `owner/repo` from an ssh or https GitHub remote URL.
pub fn parse_github_slug(url: &str) -> (r: Option<String>)
    ensures
        match r {
            Some(s) => github_slug(url@) == Some(s@),
            None => github_slug(url@) is None,
        },
{
    let u = chars_of(url);
    let host = chars_of("github.com");
    let first = find_from_exec(&u, &host, 0);
    let i = match first {
        None => {
            return None;
        },
        Some(i) => i,
    };
    let rest = slice_chars(&u, i + host.len(), u.len());
    assert(rest@ =~= u@.skip(i + "github.com"@.len()));
    let after = match find_from_exec(&rest, &host, 0) {
        Some(j) => {
            let a = slice_chars(&rest, 0, j);
            assert(a@ =~= rest@.take(j as int));
            a
        },
        None => rest,
    };
    assert(find_from(url@, "github.com"@, 0) == Some(i as int));
    assert(after_host(url@) == Some(after@));
    let mut start: usize = 0;
    while start < after.len() && (after[start] == ':' || after[start] == '/')
        invariant
            start <= after.len(),
            forall|j: int| 0 <= j < start ==> (#[trigger] after@[j] == ':' || after@[j] == '/'),
        decreases after.len() - start,
    {
        start = start + 1;
    }
    proof {
        lemma_strip_leading(after@, start as int);
    }
    let ghost lead = after@.skip(start as int);
    assert(strip_leading_seps(lead) == lead);
    let mut end: usize = after.len();
    while end > start && after[end - 1] == '/'
        invariant
            start <= end <= after.len(),
            forall|j: int| end <= j < after.len() ==> #[trigger] after@[j] == '/',
        decreases end,
    {
        end = end - 1;
    }
    let s = slice_chars(&after, start, end);
    proof {
        let k = end - start;
        assert forall|j: int| k <= j < lead.len() implies #[trigger] lead[j] == '/' by {
            assert(lead[j] == after@[start + j]);
        }
        lemma_strip_trailing(lead, k);
        assert(lead.take(k) =~= s@);
        assert(strip_trailing_slashes(s@) == s@);
    }
    proof {
        reveal_strlit(".git");
    }
    let git = chars_of(".git");
    let slug = if ends_with_exec(&s, &git) {
        slice_chars(&s, 0, s.len() - 4)
    } else {
        s
    };
    assert(ends_with(s@, ".git"@) ==> slug@ =~= s@.take(s@.len() - 4));
    if has_slash(&slug) && slug.len() > 0 {
        Some(string_of(&slug))
    } else {
        None
    }
}

/// The `owner/repo` named by the output of `git remote get-url origin`.
pub fn slug_from_remote_output(output: &str) -> (r: Option<String>)
    ensures
        match r {
            Some(s) => github_slug(trimmed(output@)) == Some(s@),
            None => github_slug(trimmed(output@)) is None,
        },
{
    let t = trim(output);
    parse_github_slug(t.as_str())
}

// ── resolution ───────────────────────────────────────────────────

/// Why no repo could be resolved.
#[derive(Clone, Copy, Debug, PartialEq, Eq, Structural)]
pub enum ResolveError {
    /// No flag, no repos.conf entry and no GitHub remote named a repo.
    NoRepos,
}

/// What to tell the user when no repo could be resolved, naming the two files
/// that can list repos.
pub open spec fn no_repos_text(config_toml: Seq<char>, repos_conf: Seq<char>) -> Seq<char> {
    "no repos specified — pass `-R owner/repo`, add them to "@ + config_toml + " or "@ + repos_conf
        + ", or run inside a GitHub repo"@
}

impl ResolveError {
    /// The message for this error, naming the files under `paths`.
    pub fn message(&self, paths: &Paths) -> (m: String)
        ensures
            m@ == no_repos_text(paths.config_toml@, paths.repos_conf@),
    {
        let mut m = String::from_str("no repos specified — pass `-R owner/repo`, add them to ");
        m.append(paths.config_toml.as_str());
        m.append(" or ");
        m.append(paths.repos_conf.as_str());
        m.append(", or run inside a GitHub repo");
        m
    }
}

/// The characters of an optional string slice.
pub open spec fn opt_str(o: Option<&str>) -> Option<Seq<char>> {
    match o {
        Some(s) => Some(s@),
        None => None,
    }
}

/// The repos named by flags, failing those by the `repos` of config.toml,
/// failing those by repos.conf; `None` when none of them names one.
pub open spec fn configured_repos(
    explicit: Seq<Seq<char>>,
    file_repos: Seq<Seq<char>>,
    conf: Option<Seq<char>>,
) -> Option<Seq<Seq<char>>> {
    if explicit.len() > 0 {
        Some(first_occurrences(explicit))
    } else if file_repos.len() > 0 {
        Some(first_occurrences(file_repos))
    } else {
        match conf {
            Some(text) => if conf_entries(text).len() > 0 {
                Some(first_occurrences(conf_entries(text)))
            } else {
                None
            },
            None => None,
        }
    }
}

/// The repos to watch, by precedence: explicit, then config.toml, then
/// repos.conf, then the git remote.
pub open spec fn resolved_repos(
    explicit: Seq<Seq<char>>,
    file_repos: Seq<Seq<char>>,
    conf: Option<Seq<char>>,
    remote: Option<Seq<char>>,
) -> Option<Seq<Seq<char>>> {
    match configured_repos(explicit, file_repos, conf) {
        Some(r) => Some(r),
        None => match remote {
            Some(out) => match github_slug(trimmed(out)) {
                Some(slug) => Some(seq![slug]),
                None => None,
            },
            None => None,
        },
    }
}

fn copy_list(v: &Vec<String>) -> (r: Vec<String>)
    ensures
        strings_view(r@) == strings_view(v@),
{
    let mut copy: Vec<String> = Vec::new();
    crate::cli::extend_cloned(&mut copy, v);
    assert(strings_view(copy@) =~= strings_view(v@));
    copy
}

/// The repos named by flags or, failing those, by the `repos` of config.toml
/// or, failing those, by the repos.conf text.
pub fn repos_from_config(explicit: &Vec<String>, file_repos: &Vec<String>, conf_text: Option<&str>) -> (r:
    Option<Vec<String>>)
    ensures
        match r {
            Some(v) => configured_repos(strings_view(explicit@), strings_view(file_repos@), opt_str(conf_text))
                == Some(strings_view(v@)),
            None => configured_repos(strings_view(explicit@), strings_view(file_repos@), opt_str(conf_text)) is None,
        },
{
    if explicit.len() > 0 {
        return Some(dedup(copy_list(explicit)));
    }
    if file_repos.len() > 0 {
        return Some(dedup(copy_list(file_repos)));
    }
    match conf_text {
        Some(text) => {
            let entries = parse_repos_conf(text);
            if entries.len() > 0 {
                Some(dedup(entries))
            } else {
                None
            }
        },
        None => None,
    }
}

/// Resolve the list of `owner/repo` strings to watch: the explicit repos
/// (flags + positional), else the `repos` of config.toml, else the repos.conf
/// entries, else the repo of the origin remote (given the output of
/// `git remote get-url origin`); each list without duplicates.
pub fn resolve_repos(
    explicit: &Vec<String>,
    file_repos: &Vec<String>,
    conf_text: Option<&str>,
    remote_output: Option<&str>,
) -> (r: Result<Vec<String>, ResolveError>)
    ensures
        match r {
            Ok(v) => resolved_repos(strings_view(explicit@), strings_view(file_repos@), opt_str(conf_text), opt_str(remote_output))
                == Some(strings_view(v@)),
            Err(e) => resolved_repos(strings_view(explicit@), strings_view(file_repos@), opt_str(conf_text), opt_str(remote_output))
                is None && e == ResolveError::NoRepos,
        },
{
    match repos_from_config(explicit, file_repos, conf_text) {
        Some(v) => Ok(v),
        None => match remote_output {
            Some(out) => match slug_from_remote_output(out) {
                Some(slug) => {
                    let mut v: Vec<String> = Vec::new();
                    v.push(slug);
                    assert(strings_view(v@) =~= seq![v@[0]@]);
                    Ok(v)
                },
                None => Err(ResolveError::NoRepos),
            },
            None => Err(ResolveError::NoRepos),
        },
    }
}

// ── laws ─────────────────────────────────────────────────────────

/// Resolved repos are never an empty list and never hold a duplicate.
pub proof fn law_resolved_repos_distinct(
    explicit: Seq<Seq<char>>,
    file_repos: Seq<Seq<char>>,
    conf: Option<Seq<char>>,
    remote: Option<Seq<char>>,
)
    requires
        resolved_repos(explicit, file_repos, conf, remote) is Some,
    ensures
        resolved_repos(explicit, file_repos, conf, remote)->0.no_duplicates(),
        resolved_repos(explicit, file_repos, conf, remote)->0.len() > 0,
{
    crate::seqs::lemma_first_occurrences(explicit);
    crate::seqs::lemma_first_occurrences(file_repos);
    if explicit.len() > 0 {
        assert(explicit.contains(explicit[0]));
        assert(first_occurrences(explicit).contains(explicit[0]));
    } else if file_repos.len() > 0 {
        assert(file_repos.contains(file_repos[0]));
        assert(first_occurrences(file_repos).contains(file_repos[0]));
    } else if conf is Some {
        let e = conf_entries(conf->0);
        crate::seqs::lemma_first_occurrences(e);
        if e.len() > 0 {
            assert(e.contains(e[0]));
            assert(first_occurrences(e).contains(e[0]));
        }
    }
}

/// Explicit repos take precedence: when any is named, exactly those are
/// watched, in order, each once.
pub proof fn law_explicit_repos_win(
    explicit: Seq<Seq<char>>,
    file_repos: Seq<Seq<char>>,
    conf: Option<Seq<char>>,
    remote: Option<Seq<char>>,
    x: Seq<char>,
)
    requires
        explicit.len() > 0,
    ensures
        resolved_repos(explicit, file_repos, conf, remote) == Some(first_occurrences(explicit)),
        resolved_repos(explicit, file_repos, conf, remote)->0.contains(x) <==> explicit.contains(x),
{
    crate::seqs::lemma_first_occurrences(explicit);
}

/// Without explicit repos, the `repos` of config.toml come before repos.conf
/// and the git remote: when it lists any, exactly those are watched, each once.
pub proof fn law_config_toml_comes_second(
    file_repos: Seq<Seq<char>>,
    conf: Option<Seq<char>>,
    remote: Option<Seq<char>>,
    x: Seq<char>,
)
    requires
        file_repos.len() > 0,
    ensures
        resolved_repos(Seq::empty(), file_repos, conf, remote) == Some(first_occurrences(file_repos)),
        resolved_repos(Seq::empty(), file_repos, conf, remote)->0.contains(x) <==> file_repos.contains(x),
{
    crate::seqs::lemma_first_occurrences(file_repos);
}

/// Removing duplicates twice is the same as once.
pub proof fn law_dedup_idempotent(repos: Seq<Seq<char>>)
    ensures
        first_occurrences(first_occurrences(repos)) == first_occurrences(repos),
{
    crate::seqs::lemma_first_occurrences(repos);
    crate::seqs::lemma_first_occurrences_idempotent(first_occurrences(repos));
}

} // verus!
