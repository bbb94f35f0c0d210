use rl::config::{
    check_env_path, get_rl_cli_browser_args, get_rl_database_name, parse_positional_env_arg, EnvPath,
};
use rl::utils::{CliConfig, Config};

fn strings(v: &[&str]) -> Vec<String> {
    v.iter().map(|s| s.to_string()).collect()
}

#[test]
fn positional_arguments() {
    let args = strings(&["rl", "--db", "work.db", "--db", "other"]);
    assert_eq!(parse_positional_env_arg(&args, "--db"), Some("work.db".to_string()));
    assert_eq!(parse_positional_env_arg(&strings(&["rl", "--db"]), "--db"), None);
    assert_eq!(parse_positional_env_arg(&strings(&["rl"]), "--db"), None);
    assert_eq!(parse_positional_env_arg(&strings(&["rl", "--db", "--db"]), "--db"), Some("--db".to_string()));
}

#[test]
fn database_names() {
    assert_eq!(get_rl_database_name(Some("work.sqlite".to_string())), "work.db");
    assert_eq!(get_rl_database_name(Some("plain".to_string())), "plain.db");
    assert_eq!(get_rl_database_name(Some(".hidden".to_string())), ".db");
    assert_eq!(get_rl_database_name(None), "database.db");
}

#[test]
fn browser_arguments() {
    assert_eq!(get_rl_cli_browser_args(Some("-a,-b".to_string())), Some(strings(&["-a", "-b"])));
    assert_eq!(get_rl_cli_browser_args(None), None);
}

fn defaults() -> Config {
    Config {
        cli: CliConfig { browser_bin_path: None, browser_args: None },
        database_location: "/home/u/database.db".to_string(),
        assets_dir: "/home/u/.rl".to_string(),
    }
}

#[test]
fn local_config_lines() {
    let mut c = defaults();
    c.apply_local_config("CLI.Browser_Bin_Path=/usr/bin/ff\ncli.browser_args=-a,-b\nassets_dir=/a=b\nunknown=1\ndatabase_location=/d.db");
    assert_eq!(c.cli.browser_bin_path, Some("/usr/bin/ff".to_string()));
    assert_eq!(c.cli.browser_args, Some(strings(&["-a", "-b"])));
    assert_eq!(c.assets_dir, "/a");
    assert_eq!(c.database_location, "/d.db");
}

#[test]
fn blank_local_config_changes_nothing() {
    let mut c = defaults();
    c.apply_local_config("  \n ");
    assert_eq!(c.database_location, "/home/u/database.db");
    assert_eq!(c.assets_dir, "/home/u/.rl");
    assert!(c.cli.browser_bin_path.is_none());
}

#[test]
fn later_lines_win() {
    let mut c = defaults();
    c.apply_local_config("assets_dir=/one\nassets_dir=/two");
    assert_eq!(c.assets_dir, "/two");
}

#[test]
fn path_variables() {
    assert!(matches!(check_env_path("RL_ASSETS_DIR", None, false), EnvPath::Unset));
    match check_env_path("RL_ASSETS_DIR", Some("/a".to_string()), true) {
        EnvPath::Valid(v) => assert_eq!(v, "/a"),
        other => panic!("unexpected {:?}", other),
    }
    match check_env_path("RL_ASSETS_DIR", Some("/nope".to_string()), false) {
        EnvPath::Invalid(m) => assert_eq!(m, "RL_ASSETS_DIR '/nope' must be a valid path"),
        other => panic!("unexpected {:?}", other),
    }
}
