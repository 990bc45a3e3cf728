use moco::theme::{parse_color, Color, ColorConfig, Preset, Theme, ThemeConfig};

#[test]
fn parse_color_basic_names() {
    assert_eq!(parse_color("green"), Some(Color::Green));
    assert_eq!(parse_color("cyan"), Some(Color::Cyan));
    assert_eq!(parse_color("white"), Some(Color::White));
}

#[test]
fn parse_color_case_insensitive() {
    assert_eq!(parse_color("GREEN"), Some(Color::Green));
    assert_eq!(parse_color("DarkGray"), None);
}

#[test]
fn parse_color_dash_separator() {
    assert_eq!(parse_color("dark-gray"), Some(Color::DarkGray));
    assert_eq!(parse_color("light-blue"), Some(Color::LightBlue));
}

#[test]
fn parse_color_unknown_returns_none() {
    assert_eq!(parse_color("neon-pink"), None);
}

#[test]
fn parse_color_grey_spellings() {
    assert_eq!(parse_color("grey"), Some(Color::Gray));
    assert_eq!(parse_color("Dark_Grey"), Some(Color::DarkGray));
    assert_eq!(parse_color("LIGHT-MAGENTA"), Some(Color::LightMagenta));
}

#[test]
fn default_preset_resolves() {
    let config = ThemeConfig::default();
    let theme = Theme::resolve(&config);
    assert_eq!(theme.open, Color::LightGreen);
    assert_eq!(theme.complete, Color::Green);
}

#[test]
fn moco_preset() {
    let config = ThemeConfig { preset: Preset::Moco, colors: ColorConfig::default() };
    let theme = Theme::resolve(&config);
    assert_eq!(theme.open, Color::LightGreen);
    assert_eq!(theme.complete, Color::Green);
    assert_eq!(theme.defer, Color::Indexed(148));
    assert_eq!(theme.selection_bg, Color::Indexed(22));
}

#[test]
fn neutral_default_preset() {
    let config = ThemeConfig { preset: Preset::Default, colors: ColorConfig::default() };
    let theme = Theme::resolve(&config);
    assert_eq!(theme.open, Color::White);
    assert_eq!(theme.accent, Color::Blue);
}

#[test]
fn override_applies_on_top_of_preset() {
    let config = ThemeConfig {
        preset: Preset::Default,
        colors: ColorConfig { open: Some("cyan".to_string()), ..ColorConfig::default() },
    };
    let theme = Theme::resolve(&config);
    assert_eq!(theme.open, Color::Cyan);
    assert_eq!(theme.complete, Color::Green);
}

#[test]
fn unknown_override_color_falls_back_to_preset() {
    let config = ThemeConfig {
        preset: Preset::Default,
        colors: ColorConfig { open: Some("__unknown__".to_string()), ..ColorConfig::default() },
    };
    let theme = Theme::resolve(&config);
    assert_eq!(theme.open, Color::White);
}

#[test]
fn dracula_preset() {
    let config = ThemeConfig { preset: Preset::Dracula, colors: ColorConfig::default() };
    let theme = Theme::resolve(&config);
    assert_eq!(theme.accent, Color::Cyan);
    assert_eq!(theme.defer, Color::Magenta);
}

#[test]
fn nord_preset() {
    let config = ThemeConfig { preset: Preset::Nord, colors: ColorConfig::default() };
    let theme = Theme::resolve(&config);
    assert_eq!(theme.complete, Color::Cyan);
    assert_eq!(theme.accent, Color::LightBlue);
}

#[test]
fn solarized_dark_preset() {
    let config = ThemeConfig { preset: Preset::SolarizedDark, colors: ColorConfig::default() };
    let theme = Theme::resolve(&config);
    assert_eq!(theme.open, Color::Cyan);
    assert_eq!(theme.progress_filled, Color::Blue);
    assert_eq!(theme, Theme::from_preset(&Preset::SolarizedDark));
}

#[test]
fn every_override_field_applies() {
    let config = ThemeConfig {
        preset: Preset::Moco,
        colors: ColorConfig {
            open: Some("red".to_string()),
            complete: Some("yellow".to_string()),
            defer: Some("blue".to_string()),
            accent: Some("magenta".to_string()),
            selection_bg: Some("black".to_string()),
            progress_filled: Some("light_cyan".to_string()),
            progress_empty: Some("light-yellow".to_string()),
        },
    };
    let theme = Theme::resolve(&config);
    assert_eq!(theme.open, Color::Red);
    assert_eq!(theme.complete, Color::Yellow);
    assert_eq!(theme.defer, Color::Blue);
    assert_eq!(theme.accent, Color::Magenta);
    assert_eq!(theme.selection_bg, Color::Black);
    assert_eq!(theme.progress_filled, Color::LightCyan);
    assert_eq!(theme.progress_empty, Color::LightYellow);
}
