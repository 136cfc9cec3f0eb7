use actiontui::cli::Cli;
use actiontui::config::{dedup, parse_github_slug, parse_repos_conf, repos_from_config, resolve_repos, slug_from_remote_output, Paths, ResolveError};

fn strings(v: &[&str]) -> Vec<String> {
    v.iter().map(|s| s.to_string()).collect()
}

#[test]
fn slug_from_ssh_remote() {
    assert_eq!(parse_github_slug("git@github.com:owner/repo.git"), Some("owner/repo".to_string()));
}

#[test]
fn slug_from_https_remote() {
    assert_eq!(parse_github_slug("https://github.com/owner/repo"), Some("owner/repo".to_string()));
    assert_eq!(parse_github_slug("https://github.com/owner/repo/"), Some("owner/repo".to_string()));
    assert_eq!(parse_github_slug("https://github.com//owner/repo.git/"), Some("owner/repo".to_string()));
}

#[test]
fn slug_needs_github_and_owner() {
    assert_eq!(parse_github_slug("https://gitlab.com/owner/repo"), None);
    assert_eq!(parse_github_slug("https://github.com/owner"), None);
    assert_eq!(parse_github_slug("https://github.com/"), None);
    assert_eq!(parse_github_slug(""), None);
}

#[test]
fn slug_stops_at_second_host() {
    assert_eq!(
        parse_github_slug("https://github.com/a/bgithub.com/c/d"),
        Some("a/b".to_string())
    );
}

#[test]
fn slug_from_git_output_is_trimmed() {
    assert_eq!(
        slug_from_remote_output("  git@github.com:o/r.git\n"),
        Some("o/r".to_string())
    );
    assert_eq!(slug_from_remote_output("\n"), None);
}

#[test]
fn dedup_keeps_first_occurrences() {
    let out = dedup(strings(&["a/x", "b/y", "a/x", "c/z", "b/y"]));
    assert_eq!(out, strings(&["a/x", "b/y", "c/z"]));
    let again = dedup(out.clone());
    assert_eq!(again, out);
}

#[test]
fn repos_conf_skips_blanks_and_comments() {
    let text = "# my repos\nowner/one\n\n  owner/two  \r\n#owner/three\n   \nowner/four";
    assert_eq!(parse_repos_conf(text), strings(&["owner/one", "owner/two", "owner/four"]));
    assert_eq!(parse_repos_conf(""), Vec::<String>::new());
    assert_eq!(parse_repos_conf("a/b\n"), strings(&["a/b"]));
}

#[test]
fn explicit_repos_win() {
    let explicit = strings(&["a/b", "c/d", "a/b"]);
    let r = resolve_repos(&explicit, &Vec::new(), Some("x/y\n"), Some("git@github.com:e/f.git"));
    assert_eq!(r, Ok(strings(&["a/b", "c/d"])));
}

#[test]
fn repos_conf_comes_next() {
    let r = resolve_repos(&Vec::new(), &Vec::new(), Some("x/y\nx/y\nz/w\n"), Some("git@github.com:e/f.git"));
    assert_eq!(r, Ok(strings(&["x/y", "z/w"])));
}

#[test]
fn git_remote_comes_last() {
    let r = resolve_repos(&Vec::new(), &Vec::new(), Some("# nothing\n"), Some("git@github.com:e/f.git\n"));
    assert_eq!(r, Ok(strings(&["e/f"])));
    let r = resolve_repos(&Vec::new(), &Vec::new(), None, Some("https://github.com/g/h"));
    assert_eq!(r, Ok(strings(&["g/h"])));
}

#[test]
fn no_repos_is_an_error() {
    assert_eq!(resolve_repos(&Vec::new(), &Vec::new(), None, None), Err(ResolveError::NoRepos));
    assert_eq!(
        resolve_repos(&Vec::new(), &Vec::new(), Some(""), Some("https://example.com/a/b")),
        Err(ResolveError::NoRepos)
    );
}

#[test]
fn configured_repos_stage() {
    assert_eq!(repos_from_config(&Vec::new(), &Vec::new(), None), None);
    assert_eq!(repos_from_config(&strings(&["a/b"]), &Vec::new(), None), Some(strings(&["a/b"])));
}

#[test]
fn paths_under_config_dir() {
    let p = Paths::in_config_dir("/home/u/.config");
    assert_eq!(p.config_dir, "/home/u/.config/actiontui");
    assert_eq!(p.state_file, "/home/u/.config/actiontui/state.json");
    assert_eq!(p.repos_conf, "/home/u/.config/actiontui/repos.conf");
    assert_eq!(p.config_toml, "/home/u/.config/actiontui/config.toml");
    let q = Paths::in_config_dir("/cfg/");
    assert_eq!(q.config_dir, "/cfg/actiontui");
}

#[test]
fn explicit_repos_flags_then_positional() {
    let cli = Cli {
        watch: None,
        aggregate: false,
        branch: None,
        repo: strings(&["a/b", "c/d"]),
        no_sound: false,
        repos: strings(&["e/f"]),
        exclude: Vec::new(),
    };
    assert_eq!(cli.explicit_repos(), strings(&["a/b", "c/d", "e/f"]));
}

#[test]
fn config_toml_repos_come_second() {
    let file = strings(&["t/one", "t/two", "t/one"]);
    let r = resolve_repos(&Vec::new(), &file, Some("x/y\n"), Some("git@github.com:e/f.git"));
    assert_eq!(r, Ok(strings(&["t/one", "t/two"])));
    let r = resolve_repos(&strings(&["a/b"]), &file, None, None);
    assert_eq!(r, Ok(strings(&["a/b"])));
    let r = resolve_repos(&Vec::new(), &file, None, None);
    assert_eq!(r, Ok(strings(&["t/one", "t/two"])));
    assert_eq!(repos_from_config(&Vec::new(), &file, None), Some(strings(&["t/one", "t/two"])));
}

#[test]
fn no_repos_message_names_the_files() {
    let p = Paths::in_config_dir("/cfg");
    assert_eq!(
        ResolveError::NoRepos.message(&p),
        "no repos specified — pass `-R owner/repo`, add them to /cfg/actiontui/config.toml or /cfg/actiontui/repos.conf, or run inside a GitHub repo"
    );
}
