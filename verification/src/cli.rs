//! Command-line options.

use vstd::prelude::*;

use crate::model::strings_view;

verus! {

/// The options the dashboard is started with.
pub struct Cli {
    /// Watch mode with this refresh interval in seconds (60 when `-w` has no value).
    pub watch: Option<u64>,
    /// Aggregate every repo into a single table.
    pub aggregate: bool,
    /// Branch to inspect (`main` unless `-b` or `config.toml` names one).
    pub branch: Option<String>,
    /// Repos named with `-R`/`--repo`.
    pub repo: Vec<String>,
    /// Disable notification sounds.
    pub no_sound: bool,
    /// Repos named as positional arguments.
    pub repos: Vec<String>,
    /// Hide workflows whose name contains one of these (ignoring case).
    pub exclude: Vec<String>,
}

/// Copies of the strings of `v`, appended to `out`.
pub fn extend_cloned(out: &mut Vec<String>, v: &Vec<String>)
    ensures
        strings_view(final(out)@) == strings_view(old(out)@) + strings_view(v@),
{
    let ghost start = strings_view(out@);
    for i in 0..v.len()
        invariant
            strings_view(out@) == start + strings_view(v@.take(i as int)),
    {
        let ghost before = out@;
        out.push(v[i].clone());
        assert(v@.take(i + 1) =~= v@.take(i as int).push(v@[i as int]));
        assert(strings_view(out@) =~= strings_view(before).push(v@[i as int]@));
        assert(strings_view(v@.take(i + 1)) =~= strings_view(v@.take(i as int)).push(v@[i as int]@));
        assert(strings_view(out@) =~= start + strings_view(v@.take(i + 1)));
    }
    assert(v@.take(v.len() as int) =~= v@);
}

impl Cli {
    /// All explicitly-named repos (flags, then positional), in order.
    pub fn explicit_repos(&self) -> (r: Vec<String>)
        ensures
            strings_view(r@) == strings_view(self.repo@) + strings_view(self.repos@),
    {
        let mut r: Vec<String> = Vec::new();
        extend_cloned(&mut r, &self.repo);
        extend_cloned(&mut r, &self.repos);
        assert(strings_view(Seq::<String>::empty()) =~= Seq::<Seq<char>>::empty());
        r
    }
}

} // verus!
