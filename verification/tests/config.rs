use starlists::cli::{Cli, Command, Format};
use starlists::config::{env_or_config_token, AppConfig, ConfigFile, Paths, TokenSource};

fn paths() -> Paths {
    Paths::resolve(None, None, Some("/home/u".into()), None, None).unwrap()
}

#[test]
fn paths_follow_xdg_and_overrides() {
    let p = paths();
    assert_eq!(p.config_file, "/home/u/.config/stars/config.toml");
    assert_eq!(p.data_dir, "/home/u/.local/share/stars");
    assert_eq!(p.db_file, "/home/u/.local/share/stars/stars.db");
    let p = Paths::resolve(Some("c.toml".into()), Some("/tmp/x.db".into()), Some("/h/".into()), Some("/cfg".into()), Some("/data/".into()))
        .unwrap();
    assert_eq!((p.config_file.as_str(), p.data_dir.as_str(), p.db_file.as_str()), ("c.toml", "/data/stars", "/tmp/x.db"));
    let e = Paths::resolve(None, None, None, None, None).unwrap_err();
    assert_eq!((e.code, e.message.as_str()), ("error", "HOME is not set"));
}

#[test]
fn token_sources_in_order() {
    let file = ConfigFile { github_token: Some("  cfg  ".into()), github_host: None };
    let env = vec![None, Some("   ".into()), Some("gh-env".into())];
    let c = AppConfig::load(paths(), file, &env, Some("from-gh".into()));
    assert_eq!((c.token.as_deref(), c.token_source), (Some("gh-env"), TokenSource::Env));
    let file = ConfigFile { github_token: Some("  cfg  ".into()), github_host: None };
    let c = AppConfig::load(paths(), file, &vec![None, None, None], Some("from-gh".into()));
    assert_eq!((c.token.as_deref(), c.token_source), (Some("cfg"), TokenSource::Config));
    let c = AppConfig::load(paths(), ConfigFile::default(), &vec![None, None, None], Some(" tok\n".into()));
    assert_eq!((c.token.as_deref(), c.token_source), (Some("tok"), TokenSource::GhCli));
    assert!(env_or_config_token(&vec![None, None, None], &ConfigFile::default()).is_none());
    let c = AppConfig::load(paths(), ConfigFile::default(), &vec![], None);
    assert_eq!((c.token.clone(), c.token_source), (None, TokenSource::Missing));
    let e = c.require_token().unwrap_err();
    assert_eq!(e.code, "auth_missing");
    assert_eq!(e.hint.as_deref(), Some("run `stars init` or `gh auth login`, and `gh auth refresh -s user` for list writes"));
}

#[test]
fn api_url_from_host() {
    let c = AppConfig::load(paths(), ConfigFile::default(), &vec![], None);
    assert_eq!(c.api_url, "https://api.github.com/graphql");
    let file = ConfigFile { github_token: None, github_host: Some("ghe.example.com".into()) };
    let c = AppConfig::load(paths(), file, &vec![Some("t".into())], None);
    assert_eq!(c.api_url, "https://ghe.example.com/api/graphql");
    assert_eq!(c.require_token().unwrap(), "t");
}

#[test]
fn token_source_names() {
    assert_eq!(TokenSource::Env.as_str(), "env");
    assert_eq!(TokenSource::Config.as_str(), "config");
    assert_eq!(TokenSource::GhCli.as_str(), "gh");
    assert_eq!(TokenSource::Missing.as_str(), "missing");
}

#[test]
fn json_wins_over_sexp() {
    let cli = |json, sexp| Cli { json, sexp, db: None, config: None, command: Command::Doctor };
    assert_eq!(cli(true, true).format(), Format::Json);
    assert_eq!(cli(false, true).format(), Format::Sexp);
    assert_eq!(cli(false, false).format(), Format::Table);
}
