use std::sync::Arc;
use swissarmyhammer::config::{ColorOutputMode, UiConfig, UiPreferences};
use swissarmyhammer::context::UiContext;
use swissarmyhammer::icon;
use swissarmyhammer::style::{Style, StyledText};
use swissarmyhammer::theme::{
    builtin_theme, theme_for_lowered, BuiltinThemeProvider, Color, Theme, ThemeProvider,
};
use swissarmyhammer::terminal::{detect_terminal_theme, parse_u8, profile_is_light, supports_unicode};
use swissarmyhammer::utils::{center_text, truncate_with_ellipsis, wrap_text, Icon};

#[test]
fn test_color_creation() {
    let color = Color::new(255, 128, 0);
    assert_eq!(color.r, 255);
    assert_eq!(color.g, 128);
    assert_eq!(color.b, 0);
}

#[test]
fn test_color_to_hex() {
    let color = Color::new(255, 128, 0);
    assert_eq!(color.to_hex(), "#ff8000");

    let black = Color::new(0, 0, 0);
    assert_eq!(black.to_hex(), "#000000");

    let white = Color::new(255, 255, 255);
    assert_eq!(white.to_hex(), "#ffffff");
}

#[test]
fn test_color_to_ansi_256() {
    let red = Color::new(255, 0, 0);
    assert_eq!(red.to_ansi_256(), 196);

    let gray = Color::new(128, 128, 128);
    let gray_ansi = gray.to_ansi_256();
    assert!(gray_ansi >= 232);
}

#[test]
fn test_color_to_ansi_16() {
    let red = Color::new(255, 0, 0);
    assert_eq!(red.to_ansi_16(), 9);

    let dark_red = Color::new(128, 0, 0);
    assert_eq!(dark_red.to_ansi_16(), 1);

    let white = Color::new(255, 255, 255);
    assert_eq!(white.to_ansi_16(), 7);

    let black = Color::new(0, 0, 0);
    assert_eq!(black.to_ansi_16(), 0);
}

#[test]
fn test_theme_light() {
    let theme = Theme::light();
    assert_eq!(theme.name, "Light");
    assert!(!theme.is_dark);
    assert_eq!(theme.colors.background, Color::new(255, 255, 255));
    assert_eq!(theme.colors.foreground, Color::new(33, 33, 33));
}

#[test]
fn test_theme_dark() {
    let theme = Theme::dark();
    assert_eq!(theme.name, "Dark");
    assert!(theme.is_dark);
    assert_eq!(theme.colors.background, Color::new(18, 18, 18));
    assert_eq!(theme.colors.foreground, Color::new(238, 238, 238));
}

#[test]
fn test_styled_text_creation() {
    let text = StyledText::plain("Hello, World!");
    assert!(text.render().to_string().contains("Hello, World!"));
}

#[test]
fn test_styled_text_decorations() {
    let text = StyledText::plain("Test").bold().underline().dimmed();

    let rendered = text.render();
    let rendered_str = format!("{rendered}");
    assert!(rendered_str.contains("Test"));
}

#[test]
fn test_style_semantic_colors() {
    let theme = Theme::dark();
    let style = Style::new(Arc::new(theme));

    let primary = style.primary("Primary");
    let error = style.error("Error");
    let success = style.success("Success");
    let warning = style.warning("Warning");
    let info = style.info("Info");

    assert!(primary.render().to_string().contains("Primary"));
    assert!(error.render().to_string().contains("Error"));
    assert!(success.render().to_string().contains("Success"));
    assert!(warning.render().to_string().contains("Warning"));
    assert!(info.render().to_string().contains("Info"));
}

#[test]
fn test_ui_context_creation() {
    let context = UiContext::default();
    assert!(context.theme().name == "Light" || context.theme().name == "Dark");
}

#[test]
fn test_ui_context_with_theme() {
    let theme = Theme::light();
    let context = UiContext::with_theme(theme);
    assert_eq!(context.theme().name, "Light");
}

#[test]
fn test_ui_context_helpers() {
    let context = UiContext::default();

    let primary = context.primary("Test");
    let error = context.error("Error");
    let success = context.success("Success");
    let header = context.header("Header");

    assert!(primary.render().to_string().contains("Test"));
    assert!(error.render().to_string().contains("Error"));
    assert!(success.render().to_string().contains("Success"));
    assert!(header.render().to_string().contains("Header"));
}

#[test]
fn test_icon_emoji_mode() {
    assert_eq!(icon::get(Icon::Success, true), "✓");
    assert_eq!(icon::get(Icon::Error, true), "✗");
    assert_eq!(icon::get(Icon::Warning, true), "⚠");
    assert_eq!(icon::get(Icon::Info, true), "ℹ");
    assert_eq!(icon::get(Icon::Search, true), "🔍");
    assert_eq!(icon::get(Icon::Rocket, true), "🚀");
}

#[test]
fn test_icon_ascii_mode() {
    assert_eq!(icon::get(Icon::Success, false), "[OK]");
    assert_eq!(icon::get(Icon::Error, false), "[X]");
    assert_eq!(icon::get(Icon::Warning, false), "[!]");
    assert_eq!(icon::get(Icon::Info, false), "[i]");
    assert_eq!(icon::get(Icon::Search, false), "[S]");
    assert_eq!(icon::get(Icon::Rocket, false), "[^]");
}

#[test]
fn test_ui_config_default() {
    let config = UiConfig::default();
    assert_eq!(config.preferences.theme, "dark");
    assert!(config.preferences.use_emojis);
    assert_eq!(config.preferences.color_output, ColorOutputMode::Auto);
    assert!(config.custom_themes.is_empty());
}

#[test]
fn test_text_utilities() {
    let truncated = truncate_with_ellipsis("This is a very long text", 10);
    assert_eq!(truncated, "This is...");

    let short = truncate_with_ellipsis("Short", 10);
    assert_eq!(short, "Short");

    let centered = center_text("Hi", 10);
    assert_eq!(centered, "    Hi    ");

    let wrapped = wrap_text("This is a long text that needs wrapping", 10);
    assert_eq!(wrapped.len(), 4);
    assert_eq!(wrapped[0], "This is a");
    assert_eq!(wrapped[1], "long text");
    assert_eq!(wrapped[2], "that needs");
    assert_eq!(wrapped[3], "wrapping");
}

#[test]
fn test_color_output_mode() {
    let mut config = UiConfig::default();

    config.preferences.color_output = ColorOutputMode::Always;
    assert!(config.should_use_color(false, false, false));

    config.preferences.color_output = ColorOutputMode::Never;
    assert!(!config.should_use_color(false, false, false));
}

#[test]
fn test_styled_text_chaining() {
    let styled = StyledText::plain("Test")
        .fg(Color::new(255, 0, 0))
        .bg(Color::new(0, 0, 255))
        .bold()
        .underline()
        .italic();

    let rendered = styled.render().to_string();
    assert!(rendered.contains("Test"));
}

#[test]
fn test_theme_provider() {
    let provider = BuiltinThemeProvider;

    assert!(provider.get_theme("light").is_some());
    assert!(provider.get_theme("dark").is_some());
    assert!(provider.get_theme("unknown").is_none());

    let themes = provider.list_themes();
    assert!(themes.contains(&"light".to_string()));
    assert!(themes.contains(&"dark".to_string()));
}

#[test]
fn gray_ramp_clamps_at_its_last_step() {
    assert_eq!(Color::new(7, 7, 7).to_ansi_256(), 16);
    assert_eq!(Color::new(8, 8, 8).to_ansi_256(), 232);
    assert_eq!(Color::new(128, 128, 128).to_ansi_256(), 244);
    assert_eq!(Color::new(248, 248, 248).to_ansi_256(), 255);
    assert_eq!(Color::new(249, 249, 249).to_ansi_256(), 231);
    assert_eq!(Color::new(0, 128, 255).to_ansi_256(), 16 + 0 + 6 * 2 + 5);
}

#[test]
fn ansi_16_hues() {
    assert_eq!(Color::new(0, 200, 0).to_ansi_16(), 2);
    assert_eq!(Color::new(100, 255, 100).to_ansi_16(), 10);
    assert_eq!(Color::new(0, 0, 200).to_ansi_16(), 4);
    assert_eq!(Color::new(200, 200, 0).to_ansi_16(), 11);
    assert_eq!(Color::new(150, 0, 150).to_ansi_16(), 5);
    assert_eq!(Color::new(0, 150, 150).to_ansi_16(), 6);
}

#[test]
fn theme_lookup_ignores_case() {
    assert_eq!(builtin_theme("LIGHT").unwrap().name, "Light");
    assert_eq!(builtin_theme("Dark").unwrap().name, "Dark");
    assert!(theme_for_lowered("LIGHT").is_none());
    assert_eq!(theme_for_lowered("light").unwrap().name, "Light");
}

#[test]
fn config_selects_custom_then_builtin_then_terminal() {
    let mut custom = Theme::light();
    custom.name = "Solar".to_string();
    let mut config = UiConfig::default();
    config.preferences.theme = "SOLAR".to_string();
    config.custom_themes.push(custom);
    assert_eq!(config.get_theme(false).name, "Solar");

    config.preferences.theme = "light".to_string();
    assert_eq!(config.get_theme(false).name, "Light");

    config.preferences.theme = "nothing".to_string();
    assert_eq!(config.get_theme(true).name, "Light");
    assert_eq!(config.get_theme(false).name, "Dark");

    let ctx = UiContext::new(config, true);
    assert_eq!(ctx.theme().name, "Light");
}

#[test]
fn env_overrides_apply() {
    let mut config = UiConfig::default();
    config.apply_env_overrides(Some("light".to_string()), Some("false".to_string()), false, true);
    assert_eq!(config.preferences.theme, "light");
    assert!(!config.preferences.use_emojis);
    assert_eq!(config.preferences.color_output, ColorOutputMode::Always);
    config.apply_env_overrides(None, Some("maybe".to_string()), true, true);
    assert!(!config.preferences.use_emojis);
    assert_eq!(config.preferences.color_output, ColorOutputMode::Never);
    assert!(!config.should_use_color(false, false, false));
    config.preferences.color_output = ColorOutputMode::Auto;
    assert!(config.should_use_color(false, false, true));
    assert!(!config.should_use_color(true, true, true));
}

#[test]
fn text_edge_cases() {
    assert_eq!(truncate_with_ellipsis("abcdef", 3), "...");
    assert_eq!(truncate_with_ellipsis("abcdef", 6), "abcdef");
    assert_eq!(center_text("abc", 2), "abc");
    assert_eq!(center_text("ab", 5), " ab  ");
    assert_eq!(wrap_text("  spaced   out  ", 0), vec!["  spaced   out  ".to_string()]);
    assert_eq!(wrap_text("   ", 5), vec![String::new()]);
    assert_eq!(wrap_text("averyveryverylongword x", 4), vec!["averyveryverylongword".to_string(), "x".to_string()]);
}

#[test]
fn context_icons_follow_preferences() {
    let ctx = UiContext::default();
    assert_eq!(ctx.icon(Icon::Success, true), "✓");
    assert_eq!(ctx.icon(Icon::Success, false), "[OK]");
    let mut prefs = UiPreferences::default();
    prefs.use_emojis = false;
    let config = UiConfig { preferences: prefs, custom_themes: Vec::new() };
    let ctx = UiContext::new(config, false);
    assert_eq!(ctx.icon(Icon::Success, true), "[OK]");
    assert_eq!(ctx.header("H").decorations.len(), 1);
}

#[test]
fn terminal_background_detection() {
    assert!(detect_terminal_theme(Some("0;15"), None, None));
    assert!(!detect_terminal_theme(Some("15;0"), None, None));
    assert!(detect_terminal_theme(Some("0;+7"), None, None));
    assert!(!detect_terminal_theme(Some("0;300"), None, None));
    assert!(!detect_terminal_theme(Some("nonsense"), None, None));
    assert!(detect_terminal_theme(Some("0;x"), Some("iTerm.app"), Some("Solarized LIGHT")));
    assert!(!detect_terminal_theme(None, Some("iTerm.app"), Some("Dark")));
    assert!(!detect_terminal_theme(None, Some("Apple_Terminal"), Some("light")));
    assert_eq!(parse_u8("255"), Some(255));
    assert_eq!(parse_u8("256"), None);
    assert_eq!(parse_u8("+12"), Some(12));
    assert_eq!(parse_u8(""), None);
    assert_eq!(parse_u8("1a"), None);
}

#[test]
fn unicode_support_from_environment() {
    assert!(supports_unicode(Some("xterm-256color"), false, false, false, false));
    assert!(!supports_unicode(Some("dumb"), true, true, false, false));
    assert!(supports_unicode(None, false, false, false, false));
    assert!(!supports_unicode(None, false, false, true, false));
    assert!(supports_unicode(None, false, false, true, true));
    assert!(supports_unicode(None, true, false, true, false));
}

#[test]
fn color_from_tuple() {
    let c: Color = (1, 2, 3).into();
    assert_eq!(c, Color::new(1, 2, 3));
}

#[test]
fn lowered_profile_names() {
    assert!(profile_is_light("solarized light"));
    assert!(!profile_is_light("Solarized LIGHT"));
    assert!(!profile_is_light("dark"));
}

#[test]
fn theme_choice_after_case_folding() {
    let mut custom = Theme::dark();
    custom.name = "Night".to_string();
    let mut config = UiConfig::default();
    config.custom_themes.push(custom);
    let names = vec!["night".to_string()];
    assert_eq!(config.theme_for_lowered_names("night", &names, true).name, "Night");
    assert_eq!(config.theme_for_lowered_names("Night", &names, true).name, "Light");
    assert_eq!(config.theme_for_lowered_names("dark", &names, true).name, "Dark");
}

#[test]
fn truncation_counts_bytes() {
    assert_eq!(truncate_with_ellipsis("\u{e9}\u{e9}\u{e9}\u{e9}", 5), "\u{e9}...");
    assert_eq!(truncate_with_ellipsis("\u{e9}\u{e9}", 4), "\u{e9}\u{e9}");
    assert_eq!(truncate_with_ellipsis("abc\u{e9}", 4), "a...");
}
