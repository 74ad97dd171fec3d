//! Where the files live, which GitHub token is used, and which API is called.
use vstd::prelude::*;

use crate::output::{err_v, AppError, AppErrorV};
use crate::text::{has_prefix, owned, push_str, str_eq, trim, trim_str};

verus! {

/// The config file, the data directory and the database file.
#[derive(Debug)]
pub struct Paths {
    pub config_file: String,
    pub data_dir: String,
    pub db_file: String,
}

/// `PathBuf::join` on Unix paths held as text: an absolute `b` replaces `a`, an
/// empty `a` gives `b`, and otherwise one `/` stands between them.
pub open spec fn path_join(a: Seq<char>, b: Seq<char>) -> Seq<char> {
    if has_prefix(b, "/"@) || a.len() == 0 {
        b
    } else if a.last() == '/' {
        a + b
    } else {
        a + seq!['/'] + b
    }
}

fn join_path(a: &str, b: &str) -> (r: String)
    ensures
        r@ == path_join(a@, b@),
{
    let abs = crate::text::starts_with(b, "/");
    let cs = crate::text::chars_of(a);
    if abs || cs.len() == 0 {
        return owned(b);
    }
    let mut r = owned(a);
    if cs[cs.len() - 1] != '/' {
        crate::text::push_char(&mut r, '/');
    }
    push_str(&mut r, b);
    r
}

/// The directory the config file sits in: `$XDG_CONFIG_HOME/stars`, else
/// `$HOME/.config/stars`.
pub open spec fn config_dir_of(home: Seq<char>, xdg_config: Option<Seq<char>>) -> Seq<char> {
    path_join(
        match xdg_config {
            Some(x) => x,
            None => path_join(home, ".config"@),
        },
        "stars"@,
    )
}

/// The data directory: `$XDG_DATA_HOME/stars`, else `$HOME/.local/share/stars`.
pub open spec fn data_dir_of(home: Seq<char>, xdg_data: Option<Seq<char>>) -> Seq<char> {
    path_join(
        match xdg_data {
            Some(x) => x,
            None => path_join(home, ".local/share"@),
        },
        "stars"@,
    )
}

/// The config file, data directory and database file the overrides and the
/// variables give, or the error for an unset `HOME`.
pub open spec fn paths_of(
    config: Option<Seq<char>>,
    db: Option<Seq<char>>,
    home: Option<Seq<char>>,
    xdg_config: Option<Seq<char>>,
    xdg_data: Option<Seq<char>>,
) -> Result<(Seq<char>, Seq<char>, Seq<char>), AppErrorV> {
    match home {
        None => Err(err_v("error"@, "HOME is not set"@)),
        Some(h) => {
            let data = data_dir_of(h, xdg_data);
            Ok(
                (
                    match config {
                        Some(c) => c,
                        None => path_join(config_dir_of(h, xdg_config), "config.toml"@),
                    },
                    data,
                    match db {
                        Some(d) => d,
                        None => path_join(data, "stars.db"@),
                    },
                ),
            )
        },
    }
}

impl Paths {
    /// The paths, given the `--config` and `--db` overrides and the values of
    /// `HOME`, `XDG_CONFIG_HOME` and `XDG_DATA_HOME`.
    pub fn resolve(
        config: Option<String>,
        db: Option<String>,
        home: Option<String>,
        xdg_config_home: Option<String>,
        xdg_data_home: Option<String>,
    ) -> (r: Result<Paths, AppError>)
        ensures
            match r {
                Ok(p) => paths_of(
                    config.deep_view(),
                    db.deep_view(),
                    home.deep_view(),
                    xdg_config_home.deep_view(),
                    xdg_data_home.deep_view(),
                ) == Ok::<(Seq<char>, Seq<char>, Seq<char>), AppErrorV>((p.config_file@, p.data_dir@, p.db_file@)),
                Err(e) => paths_of(
                    config.deep_view(),
                    db.deep_view(),
                    home.deep_view(),
                    xdg_config_home.deep_view(),
                    xdg_data_home.deep_view(),
                ) == Err::<(Seq<char>, Seq<char>, Seq<char>), AppErrorV>(e@),
            },
    {
        let home = match home {
            Some(h) => h,
            None => return Err(AppError::new("error", owned("HOME is not set"))),
        };
        let config_base = match &xdg_config_home {
            Some(x) => owned(x.as_str()),
            None => join_path(home.as_str(), ".config"),
        };
        let config_dir = join_path(config_base.as_str(), "stars");
        let data_base = match &xdg_data_home {
            Some(x) => owned(x.as_str()),
            None => join_path(home.as_str(), ".local/share"),
        };
        let data_dir = join_path(data_base.as_str(), "stars");
        let config_file = match config {
            Some(c) => c,
            None => join_path(config_dir.as_str(), "config.toml"),
        };
        let db_file = match db {
            Some(d) => d,
            None => join_path(data_dir.as_str(), "stars.db"),
        };
        Ok(Paths { config_file, data_dir, db_file })
    }
}

/// What `config.toml` may set.
#[derive(Debug)]
pub struct ConfigFile {
    pub github_token: Option<String>,
    pub github_host: Option<String>,
}

impl Default for ConfigFile {
    fn default() -> (r: ConfigFile)
        ensures
            r.github_token is None,
            r.github_host is None,
    {
        ConfigFile { github_token: None, github_host: None }
    }
}

/// Where the GitHub token came from.
#[derive(Debug, Clone, Copy, PartialEq, Eq, Structural)]
pub enum TokenSource {
    Env,
    Config,
    GhCli,
    Missing,
}

/// The name printed for a token source.
pub open spec fn source_name(s: TokenSource) -> Seq<char> {
    match s {
        TokenSource::Env => "env"@,
        TokenSource::Config => "config"@,
        TokenSource::GhCli => "gh"@,
        TokenSource::Missing => "missing"@,
    }
}

impl TokenSource {
    /// The name printed for the source: `env`, `config`, `gh` or `missing`.
    pub fn as_str(self) -> (s: &'static str)
        ensures
            s@ == source_name(self),
    {
        match self {
            TokenSource::Env => "env",
            TokenSource::Config => "config",
            TokenSource::GhCli => "gh",
            TokenSource::Missing => "missing",
        }
    }
}

/// The error for a command that needs a token when there is none.
pub open spec fn missing_token_err() -> AppErrorV {
    AppErrorV {
        code: "auth_missing"@,
        message: "no GitHub token found (GITHUB_TOKEN, GH_TOKEN, STARS_GITHUB_TOKEN, config, or gh auth token)"@,
        hint: Some("run `stars init` or `gh auth login`, and `gh auth refresh -s user` for list writes"@),
    }
}

/// The settings every command runs with.
#[derive(Debug)]
pub struct AppConfig {
    pub paths: Paths,
    pub token: Option<String>,
    pub token_source: TokenSource,
    pub api_url: String,
}

/// The first of the values of the token variables that is set and not blank.
pub open spec fn env_token(env: Seq<Option<Seq<char>>>) -> Option<Seq<char>>
    decreases env.len(),
{
    if env.len() == 0 {
        None
    } else {
        match env[0] {
            Some(v) => if trim(v).len() > 0 {
                Some(v)
            } else {
                env_token(env.drop_first())
            },
            None => env_token(env.drop_first()),
        }
    }
}

/// The config file's token, trimmed, unless it is blank.
pub open spec fn config_token(file_token: Option<Seq<char>>) -> Option<Seq<char>> {
    match file_token {
        Some(t) => if trim(t).len() > 0 {
            Some(trim(t))
        } else {
            None
        },
        None => None,
    }
}

/// The token the environment or the config file gives, with its source; `None`
/// when the `gh` CLI has to be asked.
pub open spec fn token_without_gh(env: Seq<Option<Seq<char>>>, file_token: Option<Seq<char>>) -> Option<
    (Seq<char>, TokenSource),
> {
    match env_token(env) {
        Some(t) => Some((t, TokenSource::Env)),
        None => match config_token(file_token) {
            Some(t) => Some((t, TokenSource::Config)),
            None => None,
        },
    }
}

/// The token in the `gh auth token` output, trimmed, unless it is blank.
pub open spec fn gh_token_of(output: Option<Seq<char>>) -> Option<Seq<char>> {
    config_token(output)
}

/// The token used and its source: the environment (`STARS_GITHUB_TOKEN`,
/// `GITHUB_TOKEN`, `GH_TOKEN`), then the config file, then `gh auth token`.
pub open spec fn token_choice(
    env: Seq<Option<Seq<char>>>,
    file_token: Option<Seq<char>>,
    gh_output: Option<Seq<char>>,
) -> (Option<Seq<char>>, TokenSource) {
    match token_without_gh(env, file_token) {
        Some((t, s)) => (Some(t), s),
        None => match gh_token_of(gh_output) {
            Some(t) => (Some(t), TokenSource::GhCli),
            None => (None, TokenSource::Missing),
        },
    }
}

/// The GraphQL endpoint of a GitHub host.
pub open spec fn api_url_of(host: Option<Seq<char>>) -> Seq<char> {
    match host {
        None => "https://api.github.com/graphql"@,
        Some(h) => if h == "github.com"@ {
            "https://api.github.com/graphql"@
        } else {
            "https://"@ + h + "/api/graphql"@
        },
    }
}

fn non_blank(t: &str) -> (r: Option<String>)
    ensures
        r.deep_view() == config_token(Some(t@)),
{
    let trimmed = trim_str(t);
    if trimmed.as_str().is_empty() {
        None
    } else {
        Some(trimmed)
    }
}

/// The token the environment (the values of `STARS_GITHUB_TOKEN`, `GITHUB_TOKEN`
/// and `GH_TOKEN`, in that order) or the config file gives; `None` when only
/// `gh auth token` is left to ask.
pub fn env_or_config_token(env: &Vec<Option<String>>, file: &ConfigFile) -> (r: Option<(String, TokenSource)>)
    ensures
        match r {
            Some((t, s)) => token_without_gh(env.deep_view(), file.github_token.deep_view()) == Some((t@, s)),
            None => token_without_gh(env.deep_view(), file.github_token.deep_view()) is None,
        },
{
    let ghost ev = env.deep_view();
    let mut i: usize = 0;
    assert(ev.skip(0) =~= ev);
    while i < env.len()
        invariant
            ev == env.deep_view(),
            i <= env.len(),
            env_token(ev) == env_token(ev.skip(i as int)),
        decreases env.len() - i,
    {
        assert(ev.skip(i as int).drop_first() =~= ev.skip(i + 1));
        assert(ev.skip(i as int)[0] == ev[i as int]);
        match &env[i] {
            Some(v) => {
                if non_blank(v.as_str()).is_some() {
                    return Some((v.clone(), TokenSource::Env));
                }
            },
            None => {},
        }
        i = i + 1;
    }
    match &file.github_token {
        Some(t) => match non_blank(t.as_str()) {
            Some(x) => Some((x, TokenSource::Config)),
            None => None,
        },
        None => None,
    }
}

impl AppConfig {
    /// The settings from the paths, the config file, the token variables' values
    /// and what `gh auth token` printed (asked only when the others give none).
    pub fn load(paths: Paths, file: ConfigFile, env: &Vec<Option<String>>, gh_output: Option<String>) -> (c: AppConfig)
        ensures
            c.paths == paths,
            (c.token.deep_view(), c.token_source) == token_choice(
                env.deep_view(),
                file.github_token.deep_view(),
                gh_output.deep_view(),
            ),
            c.api_url@ == api_url_of(file.github_host.deep_view()),
    {
        let (token, token_source) = match env_or_config_token(env, &file) {
            Some((t, s)) => (Some(t), s),
            None => match &gh_output {
                Some(o) => match non_blank(o.as_str()) {
                    Some(t) => (Some(t), TokenSource::GhCli),
                    None => (None, TokenSource::Missing),
                },
                None => (None, TokenSource::Missing),
            },
        };
        let api_url = match &file.github_host {
            None => owned("https://api.github.com/graphql"),
            Some(h) => if str_eq(h.as_str(), "github.com") {
                owned("https://api.github.com/graphql")
            } else {
                let mut u = owned("https://");
                push_str(&mut u, h.as_str());
                push_str(&mut u, "/api/graphql");
                u
            },
        };
        AppConfig { paths, token, token_source, api_url }
    }

    /// The GitHub token, or the error that says how to provide one.
    pub fn require_token(&self) -> (r: Result<&str, AppError>)
        ensures
            match r {
                Ok(t) => self.token.deep_view() == Some(t@),
                Err(e) => self.token is None && e@ == missing_token_err(),
            },
    {
        match &self.token {
            Some(t) => Ok(t.as_str()),
            None => Err(
                AppError::new(
                    "auth_missing",
                    owned("no GitHub token found (GITHUB_TOKEN, GH_TOKEN, STARS_GITHUB_TOKEN, config, or gh auth token)"),
                ).hint(owned("run `stars init` or `gh auth login`, and `gh auth refresh -s user` for list writes")),
            ),
        }
    }
}

} // verus!
