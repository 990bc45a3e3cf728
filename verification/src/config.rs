use vstd::prelude::*;

use crate::text::{chars_of, push_all, string_of};
use crate::theme::{Preset, ThemeConfig};

verus! {

/// The commented template written to `config.toml` when none exists.
pub const DEFAULT_CONFIG_TEMPLATE: &'static str = "# moco configuration
#
# Command used to open a project directory.
# Falls back to the $EDITOR environment variable if not set.
#
# open_with = \"code\"

# [theme]
# preset = \"moco\"  # moco (default) | default | dracula | nord | solarized-dark
#
# [theme.colors]  # override individual colours (all optional)
# open            = \"light_green\"
# complete        = \"green\"
# defer           = \"148\"        # indexed 256-colour (yellow-green)
# accent          = \"light_green\"
# selection_bg    = \"22\"         # indexed 256-colour (dark forest green)
# progress_filled = \"green\"
# progress_empty  = \"22\"
";

/// The message given when no command to open projects is configured.
pub const NO_EDITOR_MESSAGE: &'static str = "No editor configured. Set `open_with` in ~/.moco/config.toml or export $EDITOR.";

/// `name` appended to the directory `base` as `PathBuf::join` does for a
/// relative `name` on Unix: a `/` goes between them unless `base` is empty
/// or already ends with one.
pub open spec fn joined_path(base: Seq<char>, name: Seq<char>) -> Seq<char> {
    if base.len() == 0 || base.last() == '/' {
        base + name
    } else {
        base.push('/') + name
    }
}

/// Joins a relative `name` onto the directory `base`.
pub fn join_path(base: &str, name: &str) -> (r: String)
    requires
        name@.len() > 0,
        name@[0] != '/',
    ensures
        r@ == joined_path(base@, name@),
{
    let mut v = chars_of(base);
    if v.len() > 0 && v[v.len() - 1] != '/' {
        v.push('/');
    }
    push_all(&mut v, &chars_of(name));
    string_of(&v)
}

/// User-editable preferences loaded from `~/.moco/config.toml`.
#[derive(Debug)]
pub struct MocoConfig {
    /// Command to open a project directory (e.g. `"code"`, `"vim"`).
    /// Falls back to `$EDITOR` if `None`.
    pub open_with: Option<String>,
    /// Colour theme configuration.
    pub theme: ThemeConfig,
    /// Git remote that `~/.moco/` is synced through.
    pub sync_remote: Option<String>,
}

impl Default for MocoConfig {
    fn default() -> (c: Self)
        ensures
            c.open_with is None,
            c.sync_remote is None,
            c.theme.preset == Preset::Moco,
            c.theme.colors.open is None,
            c.theme.colors.complete is None,
            c.theme.colors.defer is None,
            c.theme.colors.accent is None,
            c.theme.colors.selection_bg is None,
            c.theme.colors.progress_filled is None,
            c.theme.colors.progress_empty is None,
    {
        MocoConfig { open_with: None, theme: ThemeConfig::default(), sync_remote: None }
    }
}

/// The command that opens projects: `open_with` when set, else the value of
/// `$EDITOR` when it is set, else the "no editor" error.
pub open spec fn open_command(open_with: Option<Seq<char>>, editor: Option<Seq<char>>) -> Result<
    Seq<char>,
    Seq<char>,
> {
    match open_with {
        Some(c) => Ok(c),
        None => match editor {
            Some(e) => Ok(e),
            None => Err(NO_EDITOR_MESSAGE@),
        },
    }
}

/// The contents of a `Result` of strings.
pub open spec fn result_view(r: Result<String, String>) -> Result<Seq<char>, Seq<char>> {
    match r {
        Ok(s) => Ok(s@),
        Err(e) => Err(e@),
    }
}

impl MocoConfig {
    /// Path to the config file within `moco_dir`.
    pub fn config_path(moco_dir: &str) -> (p: String)
        ensures
            p@ == joined_path(moco_dir@, "config.toml"@),
    {
        proof {
            reveal_strlit("config.toml");
        }
        join_path(moco_dir, "config.toml")
    }

    /// Resolve the command to use for opening a project, given the value of
    /// `$EDITOR` (`None` when it is unset).
    /// Priority: `open_with` field → `$EDITOR` → error.
    pub fn resolve_open_command(&self, editor: Option<&str>) -> (r: Result<String, String>)
        ensures
            result_view(r) == open_command(
                crate::models::project::opt_view(self.open_with),
                match editor {
                    Some(e) => Some(e@),
                    None => None,
                },
            ),
    {
        match &self.open_with {
            Some(cmd) => Ok(cmd.clone()),
            None => match editor {
                Some(e) => Ok(e.to_string()),
                None => Err(NO_EDITOR_MESSAGE.to_string()),
            },
        }
    }
}

/// Application-level configuration: paths for the moco home directory and
/// database, plus the loaded user preferences.
#[derive(Debug)]
pub struct AppConfig {
    /// `~/.moco/`
    pub moco_dir: String,
    /// `~/.moco/moco.db`
    pub db_path: String,
    /// User preferences from `~/.moco/config.toml`.
    pub moco_config: MocoConfig,
}

impl AppConfig {
    /// The configuration rooted at the home directory `home`: the moco
    /// directory is `<home>/.moco` and the database `<home>/.moco/moco.db`.
    pub fn at_home(home: &str, moco_config: MocoConfig) -> (c: AppConfig)
        ensures
            c.moco_dir@ == joined_path(home@, ".moco"@),
            c.db_path@ == joined_path(joined_path(home@, ".moco"@), "moco.db"@),
            c.moco_config == moco_config,
    {
        proof {
            reveal_strlit(".moco");
            reveal_strlit("moco.db");
        }
        let moco_dir = join_path(home, ".moco");
        let db_path = join_path(moco_dir.as_str(), "moco.db");
        AppConfig { moco_dir, db_path, moco_config }
    }
}

/// What `moco config check` finds in a config file that exists: the parse
/// error when it does not parse; when it parses and names an `open_with`
/// command that is not on `PATH`, that; else nothing.
pub open spec fn config_issues_of(parse_error: Option<Seq<char>>, open_with: Option<Seq<char>>, found_on_path: bool) -> Seq<Seq<char>> {
    match parse_error {
        Some(e) => seq!["Parse error in config.toml: "@ + e],
        None => match open_with {
            Some(cmd) => if found_on_path {
                seq![]
            } else {
                seq!["`open_with = \""@ + cmd + "\"` — command not found on PATH."@]
            },
            None => seq![],
        },
    }
}

/// The issues `moco config check` reports for an existing config file,
/// given its parse error (if any), its `open_with` command and whether that
/// command was found on `PATH`.
pub fn config_issues(parse_error: Option<&str>, open_with: Option<&str>, found_on_path: bool) -> (r: Vec<String>)
    ensures
        crate::text::string_views(r@) == config_issues_of(
            match parse_error {
                Some(e) => Some(e@),
                None => None,
            },
            match open_with {
                Some(c) => Some(c@),
                None => None,
            },
            found_on_path,
        ),
{
    let mut r: Vec<String> = Vec::new();
    match parse_error {
        Some(e) => {
            let mut v: Vec<char> = Vec::new();
            crate::text::push_str(&mut v, "Parse error in config.toml: ");
            crate::text::push_str(&mut v, e);
            r.push(string_of(&v));
        },
        None => match open_with {
            Some(cmd) => if !found_on_path {
                let mut v: Vec<char> = Vec::new();
                crate::text::push_str(&mut v, "`open_with = \"");
                crate::text::push_str(&mut v, cmd);
                crate::text::push_str(&mut v, "\"` — command not found on PATH.");
                r.push(string_of(&v));
            },
            None => {},
        },
    }
    assert(crate::text::string_views(r@) =~= config_issues_of(
        match parse_error {
            Some(e) => Some(e@),
            None => None,
        },
        match open_with {
            Some(c) => Some(c@),
            None => None,
        },
        found_on_path,
    ));
    r
}

} // verus!
