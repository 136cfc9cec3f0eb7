use actiontui::cli::Cli;
use actiontui::settings::{parse_config_toml, settings, FileConfig};

fn strings(v: &[&str]) -> Vec<String> {
    v.iter().map(|s| s.to_string()).collect()
}

fn cli() -> Cli {
    Cli {
        watch: None,
        aggregate: false,
        branch: None,
        repo: Vec::new(),
        no_sound: false,
        repos: Vec::new(),
        exclude: Vec::new(),
    }
}

const README_EXAMPLE: &str = "repos = [\"owner/repo1\", \"owner/repo2\"]\n\
branch = \"main\"\n\
aggregate = true\n\
sound = true\n\
# Hide workflows whose name contains any of these (case-insensitive):\n\
exclude = [\"Update #\", \"in /.\"]   # drops Dependabot version-update runs\n\
# Launch in watch mode without typing -w:\n\
# watch = true\n\
# interval = 60\n";

#[test]
fn readme_config_is_read() {
    let c = parse_config_toml(README_EXAMPLE);
    assert_eq!(c.repos, Some(strings(&["owner/repo1", "owner/repo2"])));
    assert_eq!(c.branch, Some("main".to_string()));
    assert_eq!(c.aggregate, Some(true));
    assert_eq!(c.sound, Some(true));
    assert_eq!(c.exclude, Some(strings(&["Update #", "in /."])));
    assert_eq!(c.watch, None);
    assert_eq!(c.interval, None);
}

#[test]
fn values_of_each_kind() {
    let c = parse_config_toml("watch = true\r\ninterval = 30\r\nrepos = [ ]\nexclude = [\"a\",]\nbranch=\"dev\"\n");
    assert_eq!(c.watch, Some(true));
    assert_eq!(c.interval, Some(30));
    assert_eq!(c.repos, Some(Vec::new()));
    assert_eq!(c.exclude, Some(strings(&["a"])));
    assert_eq!(c.branch, Some("dev".to_string()));
}

#[test]
fn bad_lines_and_tables_are_passed_over() {
    let c = parse_config_toml(
        "branch = main\ninterval = 99999999999999999999\naggregate = yes\nsound = false extra\nrepos = [\"a\" \"b\"]\nwatch = true\n[extra]\nbranch = \"x\"\n",
    );
    assert_eq!(c.branch, None);
    assert_eq!(c.interval, None);
    assert_eq!(c.aggregate, None);
    assert_eq!(c.sound, None);
    assert_eq!(c.repos, None);
    assert_eq!(c.watch, Some(true));
    let empty = parse_config_toml("");
    assert_eq!(empty.repos, None);
}

#[test]
fn flags_override_the_file() {
    let file = parse_config_toml("branch = \"dev\"\nsound = false\nexclude = [\"x\"]\nwatch = true\ninterval = 30\n");
    let s = settings(&cli(), &file);
    assert_eq!(s.branch, "dev");
    assert!(!s.sound);
    assert!(!s.aggregate);
    assert_eq!(s.exclude, strings(&["x"]));
    assert_eq!(s.watch, Some(30));

    let mut c = cli();
    c.branch = Some("feature".to_string());
    c.exclude = strings(&["y"]);
    c.watch = Some(10);
    c.aggregate = true;
    let s = settings(&c, &file);
    assert_eq!(s.branch, "feature");
    assert_eq!(s.exclude, strings(&["y"]));
    assert_eq!(s.watch, Some(10));
    assert!(s.aggregate);

    let none = FileConfig {
        repos: None,
        branch: None,
        aggregate: None,
        sound: None,
        exclude: None,
        watch: Some(true),
        interval: None,
    };
    let s = settings(&cli(), &none);
    assert_eq!(s.branch, "main");
    assert!(s.sound);
    assert_eq!(s.watch, Some(60));
    assert!(s.exclude.is_empty());
}
