use hypr_showkey::config::{default_max_results, default_show_descriptions, ThemeColors, ThemeSettings};
use hypr_showkey::theme::{parse_hex_color, Color};

#[test]
fn test_parse_hex_color() {
    assert_eq!(parse_hex_color("#ff0000"), Color::Rgb(255, 0, 0));
    assert_eq!(parse_hex_color("00ff00"), Color::Rgb(0, 255, 0));
    assert_eq!(parse_hex_color("#0000ff"), Color::Rgb(0, 0, 255));
}

#[test]
fn hex_color_fallbacks() {
    assert_eq!(parse_hex_color("#fff"), Color::White);
    assert_eq!(parse_hex_color(""), Color::White);
    assert_eq!(parse_hex_color("zz1e2E"), Color::Rgb(255, 30, 46));
    assert_eq!(parse_hex_color("##1e1e2e"), Color::Rgb(30, 30, 46));
    assert_eq!(parse_hex_color("+f0000"), Color::Rgb(15, 0, 0));
}

#[test]
fn theme_presets_by_name() {
    let t = ThemeSettings::from_name("Latte");
    assert_eq!(t.name, "Latte");
    assert_eq!(t.colors.background, "#eff1f5");
    assert_eq!(t.colors.key_color, "#1e66f5");
    let t = ThemeSettings::from_name("catppuccin_frappe");
    assert_eq!(t.colors.border_color, "#626880");
    let t = ThemeSettings::from_name("solarized");
    assert_eq!(t.colors.background, "#1e1e2e");
    let m = ThemeColors::catppuccin_macchiato();
    assert_eq!(m.selected_bg, "#363a4f");
    assert_eq!(m.matched_color, "#eed49f");
    let d = ThemeSettings::default();
    assert_eq!(d.name, "catppuccin_mocha");
    assert_eq!(d.colors.category_color, "#a6e3a1");
    assert!(default_show_descriptions());
    assert_eq!(default_max_results(), 50);
}
