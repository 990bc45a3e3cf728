use vstd::prelude::*;

use crate::models::project::opt_view;
use crate::text::{chars_of, lowercase, str_eq, string_of, to_lowercase};

verus! {

/// A terminal colour, with the variants of ratatui's palette.
#[derive(Debug, Clone, Copy, PartialEq, Eq, Structural)]
pub enum Color {
    Reset,
    Black,
    Red,
    Green,
    Yellow,
    Blue,
    Magenta,
    Cyan,
    Gray,
    DarkGray,
    LightRed,
    LightGreen,
    LightYellow,
    LightBlue,
    LightMagenta,
    LightCyan,
    White,
    Rgb(u8, u8, u8),
    Indexed(u8),
}

/// Available built-in colour presets.
#[derive(Debug, Clone, Copy, PartialEq, Eq, Structural)]
pub enum Preset {
    /// Moco signature green palette — the default.
    Moco,
    /// Neutral light-on-dark theme.
    Default,
    /// Dracula-inspired dark theme.
    Dracula,
    /// Nord-inspired cool blue theme.
    Nord,
    /// Solarized Dark theme.
    SolarizedDark,
}

impl Default for Preset {
    fn default() -> (p: Self)
        ensures
            p == Preset::Moco,
    {
        Preset::Moco
    }
}

/// Per-element colour overrides from `[theme.colors]` in `config.toml`.
///
/// Any `None` field falls back to the active preset value.
#[derive(Debug)]
pub struct ColorConfig {
    /// Colour for open task identifiers.
    pub open: Option<String>,
    /// Colour for completed task identifiers.
    pub complete: Option<String>,
    /// Colour for deferred task identifiers.
    pub defer: Option<String>,
    /// Accent colour — headings, labels, selected text.
    pub accent: Option<String>,
    /// Background colour for the selected row in TUI browsers.
    pub selection_bg: Option<String>,
    /// Colour of the filled portion of a progress bar.
    pub progress_filled: Option<String>,
    /// Colour of the empty portion of a progress bar.
    pub progress_empty: Option<String>,
}

impl Default for ColorConfig {
    fn default() -> (c: Self)
        ensures
            c.open is None,
            c.complete is None,
            c.defer is None,
            c.accent is None,
            c.selection_bg is None,
            c.progress_filled is None,
            c.progress_empty is None,
    {
        ColorConfig {
            open: None,
            complete: None,
            defer: None,
            accent: None,
            selection_bg: None,
            progress_filled: None,
            progress_empty: None,
        }
    }
}

/// The `[theme]` section of `config.toml`.
#[derive(Debug)]
pub struct ThemeConfig {
    /// Named colour preset to use as the base.
    pub preset: Preset,
    /// Per-element overrides applied on top of the preset.
    pub colors: ColorConfig,
}

impl Default for ThemeConfig {
    fn default() -> (c: Self)
        ensures
            c.preset == Preset::Moco,
            c.colors.open is None,
            c.colors.complete is None,
            c.colors.defer is None,
            c.colors.accent is None,
            c.colors.selection_bg is None,
            c.colors.progress_filled is None,
            c.colors.progress_empty is None,
    {
        ThemeConfig { preset: Preset::default(), colors: ColorConfig::default() }
    }
}

/// Resolved theme — all colours ready for rendering.
#[derive(Debug, Clone, Copy, PartialEq, Eq, Structural)]
pub struct Theme {
    pub open: Color,
    pub complete: Color,
    pub defer: Color,
    pub accent: Color,
    pub selection_bg: Color,
    pub progress_filled: Color,
    pub progress_empty: Color,
}

/// The palette of each preset.
pub open spec fn preset_theme(p: Preset) -> Theme {
    match p {
        Preset::Moco => Theme {
            open: Color::LightGreen,
            complete: Color::Green,
            defer: Color::Indexed(148),
            accent: Color::LightGreen,
            selection_bg: Color::Indexed(22),
            progress_filled: Color::Green,
            progress_empty: Color::Indexed(22),
        },
        Preset::Default => Theme {
            open: Color::White,
            complete: Color::Green,
            defer: Color::Yellow,
            accent: Color::Blue,
            selection_bg: Color::DarkGray,
            progress_filled: Color::White,
            progress_empty: Color::DarkGray,
        },
        Preset::Dracula => Theme {
            open: Color::White,
            complete: Color::Green,
            defer: Color::Magenta,
            accent: Color::Cyan,
            selection_bg: Color::Indexed(236),
            progress_filled: Color::Cyan,
            progress_empty: Color::Indexed(236),
        },
        Preset::Nord => Theme {
            open: Color::White,
            complete: Color::Cyan,
            defer: Color::Yellow,
            accent: Color::LightBlue,
            selection_bg: Color::DarkGray,
            progress_filled: Color::LightBlue,
            progress_empty: Color::DarkGray,
        },
        Preset::SolarizedDark => Theme {
            open: Color::Cyan,
            complete: Color::Green,
            defer: Color::Yellow,
            accent: Color::Blue,
            selection_bg: Color::DarkGray,
            progress_filled: Color::Blue,
            progress_empty: Color::DarkGray,
        },
    }
}

/// `s` with every `-` replaced by `_`.
pub open spec fn dashes_to_underscores(s: Seq<char>) -> Seq<char> {
    s.map_values(|c: char| if c == '-' { '_' } else { c })
}

/// The colour a normalised name (lowercase, `_` between words) stands for.
pub open spec fn color_named(n: Seq<char>) -> Option<Color> {
    if n == "black"@ {
        Some(Color::Black)
    } else if n == "red"@ {
        Some(Color::Red)
    } else if n == "green"@ {
        Some(Color::Green)
    } else if n == "yellow"@ {
        Some(Color::Yellow)
    } else if n == "blue"@ {
        Some(Color::Blue)
    } else if n == "magenta"@ {
        Some(Color::Magenta)
    } else if n == "cyan"@ {
        Some(Color::Cyan)
    } else if n == "white"@ {
        Some(Color::White)
    } else if n == "gray"@ || n == "grey"@ {
        Some(Color::Gray)
    } else if n == "dark_gray"@ || n == "dark_grey"@ {
        Some(Color::DarkGray)
    } else if n == "light_red"@ {
        Some(Color::LightRed)
    } else if n == "light_green"@ {
        Some(Color::LightGreen)
    } else if n == "light_yellow"@ {
        Some(Color::LightYellow)
    } else if n == "light_blue"@ {
        Some(Color::LightBlue)
    } else if n == "light_magenta"@ {
        Some(Color::LightMagenta)
    } else if n == "light_cyan"@ {
        Some(Color::LightCyan)
    } else {
        None
    }
}

/// What `parse_color` gives for a name that has already been lowercased.
pub open spec fn color_of_lowercase(lower: Seq<char>) -> Option<Color> {
    color_named(dashes_to_underscores(lower))
}

/// What `parse_color` gives for `s`.
pub open spec fn color_of(s: Seq<char>) -> Option<Color> {
    color_of_lowercase(lowercase(s))
}

/// Looks up an already lowercased colour name, accepting `-` or `_`
/// between words.
pub fn color_from_lowercase(lower: &str) -> (r: Option<Color>)
    ensures
        r == color_of_lowercase(lower@),
{
    let v = chars_of(lower);
    let mut w: Vec<char> = Vec::new();
    let mut i: usize = 0;
    while i < v.len()
        invariant
            i <= v.len(),
            v@ == lower@,
            w@ == dashes_to_underscores(v@.take(i as int)),
        decreases v.len() - i,
    {
        let c = v[i];
        if c == '-' {
            w.push('_');
        } else {
            w.push(c);
        }
        assert(dashes_to_underscores(v@.take(i as int + 1)) =~= dashes_to_underscores(
            v@.take(i as int),
        ).push(if c == '-' { '_' } else { c }));
        i = i + 1;
    }
    assert(v@.take(v.len() as int) =~= v@);
    let name = string_of(&w);
    let n = name.as_str();
    if str_eq(n, "black") {
        Some(Color::Black)
    } else if str_eq(n, "red") {
        Some(Color::Red)
    } else if str_eq(n, "green") {
        Some(Color::Green)
    } else if str_eq(n, "yellow") {
        Some(Color::Yellow)
    } else if str_eq(n, "blue") {
        Some(Color::Blue)
    } else if str_eq(n, "magenta") {
        Some(Color::Magenta)
    } else if str_eq(n, "cyan") {
        Some(Color::Cyan)
    } else if str_eq(n, "white") {
        Some(Color::White)
    } else if str_eq(n, "gray") || str_eq(n, "grey") {
        Some(Color::Gray)
    } else if str_eq(n, "dark_gray") || str_eq(n, "dark_grey") {
        Some(Color::DarkGray)
    } else if str_eq(n, "light_red") {
        Some(Color::LightRed)
    } else if str_eq(n, "light_green") {
        Some(Color::LightGreen)
    } else if str_eq(n, "light_yellow") {
        Some(Color::LightYellow)
    } else if str_eq(n, "light_blue") {
        Some(Color::LightBlue)
    } else if str_eq(n, "light_magenta") {
        Some(Color::LightMagenta)
    } else if str_eq(n, "light_cyan") {
        Some(Color::LightCyan)
    } else {
        None
    }
}

/// Parse a colour name string to a [`Color`], returning `None` if unrecognised.
///
/// The name is lowercased first; `-` and `_` both separate words.
pub fn parse_color(s: &str) -> (r: Option<Color>)
    ensures
        r == color_of(s@),
{
    let lower = to_lowercase(s);
    color_from_lowercase(lower.as_str())
}

/// The colour an override asks for, or `base` when it is absent or unknown.
pub open spec fn override_or(o: Option<Seq<char>>, base: Color) -> Color {
    match o {
        Some(s) => match color_of(s) {
            Some(c) => c,
            None => base,
        },
        None => base,
    }
}

/// The theme a configuration resolves to.
pub open spec fn resolved(config: ThemeConfig) -> Theme {
    let base = preset_theme(config.preset);
    let c = config.colors;
    Theme {
        open: override_or(opt_view(c.open), base.open),
        complete: override_or(opt_view(c.complete), base.complete),
        defer: override_or(opt_view(c.defer), base.defer),
        accent: override_or(opt_view(c.accent), base.accent),
        selection_bg: override_or(opt_view(c.selection_bg), base.selection_bg),
        progress_filled: override_or(opt_view(c.progress_filled), base.progress_filled),
        progress_empty: override_or(opt_view(c.progress_empty), base.progress_empty),
    }
}

fn override_color(o: &Option<String>, base: Color) -> (r: Color)
    ensures
        r == override_or(opt_view(*o), base),
{
    match o {
        Some(s) => match parse_color(s.as_str()) {
            Some(c) => c,
            None => base,
        },
        None => base,
    }
}

impl Theme {
    /// The palette of a named preset.
    pub fn from_preset(preset: &Preset) -> (t: Self)
        ensures
            t == preset_theme(*preset),
    {
        match preset {
            Preset::Moco => Theme {
                open: Color::LightGreen,
                complete: Color::Green,
                defer: Color::Indexed(148),
                accent: Color::LightGreen,
                selection_bg: Color::Indexed(22),
                progress_filled: Color::Green,
                progress_empty: Color::Indexed(22),
            },
            Preset::Default => Theme {
                open: Color::White,
                complete: Color::Green,
                defer: Color::Yellow,
                accent: Color::Blue,
                selection_bg: Color::DarkGray,
                progress_filled: Color::White,
                progress_empty: Color::DarkGray,
            },
            Preset::Dracula => Theme {
                open: Color::White,
                complete: Color::Green,
                defer: Color::Magenta,
                accent: Color::Cyan,
                selection_bg: Color::Indexed(236),
                progress_filled: Color::Cyan,
                progress_empty: Color::Indexed(236),
            },
            Preset::Nord => Theme {
                open: Color::White,
                complete: Color::Cyan,
                defer: Color::Yellow,
                accent: Color::LightBlue,
                selection_bg: Color::DarkGray,
                progress_filled: Color::LightBlue,
                progress_empty: Color::DarkGray,
            },
            Preset::SolarizedDark => Theme {
                open: Color::Cyan,
                complete: Color::Green,
                defer: Color::Yellow,
                accent: Color::Blue,
                selection_bg: Color::DarkGray,
                progress_filled: Color::Blue,
                progress_empty: Color::DarkGray,
            },
        }
    }

    /// Resolve a [`ThemeConfig`] into a concrete [`Theme`].
    ///
    /// Applies the named preset as a base, then layers any per-element overrides.
    pub fn resolve(config: &ThemeConfig) -> (t: Self)
        ensures
            t == resolved(*config),
    {
        let base = Self::from_preset(&config.preset);
        let c = &config.colors;
        Theme {
            open: override_color(&c.open, base.open),
            complete: override_color(&c.complete, base.complete),
            defer: override_color(&c.defer, base.defer),
            accent: override_color(&c.accent, base.accent),
            selection_bg: override_color(&c.selection_bg, base.selection_bg),
            progress_filled: override_color(&c.progress_filled, base.progress_filled),
            progress_empty: override_color(&c.progress_empty, base.progress_empty),
        }
    }
}

/// With no overrides, a configuration resolves to its preset's palette.
pub proof fn lemma_resolve_without_overrides(config: ThemeConfig)
    requires
        config.colors.open is None,
        config.colors.complete is None,
        config.colors.defer is None,
        config.colors.accent is None,
        config.colors.selection_bg is None,
        config.colors.progress_filled is None,
        config.colors.progress_empty is None,
    ensures
        resolved(config) == preset_theme(config.preset),
{
}

/// An override that names a colour sets exactly its element: the open
/// colour becomes the named one, and an element without an override keeps
/// the preset's colour.
pub proof fn lemma_override_open(config: ThemeConfig, c: Color)
    requires
        config.colors.open matches Some(s) && color_of(s@) == Some(c),
    ensures
        resolved(config).open == c,
        config.colors.complete is None ==> resolved(config).complete == preset_theme(
            config.preset,
        ).complete,
        config.colors.accent is None ==> resolved(config).accent == preset_theme(
            config.preset,
        ).accent,
{
}

/// A name is looked up the same with `-` or `_` between its words.
pub proof fn lemma_separator_insensitive(a: Seq<char>, b: Seq<char>)
    requires
        a.len() == b.len(),
        forall|i: int|
            0 <= i < a.len() ==> (#[trigger] a[i] == b[i] || (a[i] == '-' && b[i] == '_') || (a[i]
                == '_' && b[i] == '-')),
    ensures
        color_of_lowercase(a) == color_of_lowercase(b),
{
    assert(dashes_to_underscores(a) =~= dashes_to_underscores(b));
}

} // verus!
