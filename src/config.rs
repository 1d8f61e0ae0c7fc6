use vstd::prelude::*;

verus! {

/// The configuration files that hold the key bindings.
#[derive(Debug, Clone)]
pub struct HyprlandConfigs {
    pub files: Vec<String>,
}

/// A category: its display name, a description, and the keywords that select it.
#[derive(Debug, Clone)]
pub struct Category {
    pub name: String,
    pub description: String,
    pub keywords: Vec<String>,
}

/// The colours of a theme, each written as `#rrggbb`.
#[derive(Debug, Clone)]
pub struct ThemeColors {
    pub background: String,
    pub foreground: String,
    pub selected_bg: String,
    pub selected_fg: String,
    pub search_bg: String,
    pub search_fg: String,
    pub key_color: String,
    pub action_color: String,
    pub category_color: String,
    pub description_color: String,
    pub matched_color: String,
    pub border_color: String,
}

/// A theme: the name it was chosen by and its colours.
#[derive(Debug, Clone)]
pub struct ThemeSettings {
    pub name: String,
    pub colors: ThemeColors,
}

/// Display settings.
#[derive(Debug, Clone)]
pub struct UiSettings {
    pub show_descriptions: bool,
    pub show_raw_command: bool,
    pub max_results: usize,
    pub theme: ThemeSettings,
}

/// The whole configuration. Categories are kept as (identifier, category) pairs,
/// in the order in which they are consulted.
#[derive(Debug, Clone)]
pub struct Config {
    pub hyprland_configs: HyprlandConfigs,
    pub categories: Vec<(String, Category)>,
    pub ui: UiSettings,
}

pub fn default_show_descriptions() -> (r: bool)
    ensures
        r,
{
    true
}

pub fn default_max_results() -> (r: usize)
    ensures
        r == 50,
{
    50
}

pub open spec fn colors_are(
    c: ThemeColors,
    palette: Seq<Seq<char>>,
) -> bool {
    palette.len() == 12 && c.background@ == palette[0] && c.foreground@ == palette[1]
        && c.selected_bg@ == palette[2] && c.selected_fg@ == palette[3] && c.search_bg@
        == palette[4] && c.search_fg@ == palette[5] && c.key_color@ == palette[6]
        && c.action_color@ == palette[7] && c.category_color@ == palette[8]
        && c.description_color@ == palette[9] && c.matched_color@ == palette[10]
        && c.border_color@ == palette[11]
}

pub open spec fn mocha_palette() -> Seq<Seq<char>> {
    seq![
        "#1e1e2e"@, "#cdd6f4"@, "#313244"@, "#cdd6f4"@, "#1e1e2e"@, "#cdd6f4"@,
        "#89b4fa"@, "#cdd6f4"@, "#a6e3a1"@, "#bac2de"@, "#f9e2af"@, "#585b70"@,
    ]
}

pub open spec fn latte_palette() -> Seq<Seq<char>> {
    seq![
        "#eff1f5"@, "#4c4f69"@, "#bcc0cc"@, "#4c4f69"@, "#eff1f5"@, "#4c4f69"@,
        "#1e66f5"@, "#4c4f69"@, "#40a02b"@, "#6c6f85"@, "#df8e1d"@, "#9ca0b0"@,
    ]
}

pub open spec fn macchiato_palette() -> Seq<Seq<char>> {
    seq![
        "#24273a"@, "#cad3f5"@, "#363a4f"@, "#cad3f5"@, "#24273a"@, "#cad3f5"@,
        "#8aadf4"@, "#cad3f5"@, "#a6da95"@, "#b8c0e0"@, "#eed49f"@, "#5b6078"@,
    ]
}

pub open spec fn frappe_palette() -> Seq<Seq<char>> {
    seq![
        "#303446"@, "#c6d0f5"@, "#414559"@, "#c6d0f5"@, "#303446"@, "#c6d0f5"@,
        "#8caaee"@, "#c6d0f5"@, "#a6d189"@, "#b5bfe2"@, "#e5c890"@, "#626880"@,
    ]
}

fn palette(
    background: &str,
    foreground: &str,
    selected_bg: &str,
    search_bg: &str,
    key_color: &str,
    category_color: &str,
    description_color: &str,
    matched_color: &str,
    border_color: &str,
) -> (r: ThemeColors)
    ensures
        colors_are(
            r,
            seq![
                background@, foreground@, selected_bg@, foreground@, search_bg@, foreground@,
                key_color@, foreground@, category_color@, description_color@, matched_color@,
                border_color@,
            ],
        ),
{
    ThemeColors {
        background: String::from_str(background),
        foreground: String::from_str(foreground),
        selected_bg: String::from_str(selected_bg),
        selected_fg: String::from_str(foreground),
        search_bg: String::from_str(search_bg),
        search_fg: String::from_str(foreground),
        key_color: String::from_str(key_color),
        action_color: String::from_str(foreground),
        category_color: String::from_str(category_color),
        description_color: String::from_str(description_color),
        matched_color: String::from_str(matched_color),
        border_color: String::from_str(border_color),
    }
}

impl ThemeColors {
    pub fn catppuccin_mocha() -> (r: Self)
        ensures
            colors_are(r, mocha_palette()),
    {
        palette(
            "#1e1e2e",
            "#cdd6f4",
            "#313244",
            "#1e1e2e",
            "#89b4fa",
            "#a6e3a1",
            "#bac2de",
            "#f9e2af",
            "#585b70",
        )
    }

    pub fn catppuccin_latte() -> (r: Self)
        ensures
            colors_are(r, latte_palette()),
    {
        palette(
            "#eff1f5",
            "#4c4f69",
            "#bcc0cc",
            "#eff1f5",
            "#1e66f5",
            "#40a02b",
            "#6c6f85",
            "#df8e1d",
            "#9ca0b0",
        )
    }

    pub fn catppuccin_macchiato() -> (r: Self)
        ensures
            colors_are(r, macchiato_palette()),
    {
        palette(
            "#24273a",
            "#cad3f5",
            "#363a4f",
            "#24273a",
            "#8aadf4",
            "#a6da95",
            "#b8c0e0",
            "#eed49f",
            "#5b6078",
        )
    }

    pub fn catppuccin_frappe() -> (r: Self)
        ensures
            colors_are(r, frappe_palette()),
    {
        palette(
            "#303446",
            "#c6d0f5",
            "#414559",
            "#303446",
            "#8caaee",
            "#a6d189",
            "#b5bfe2",
            "#e5c890",
            "#626880",
        )
    }
}

} // verus!

verus! {

impl Default for ThemeSettings {
    fn default() -> (r: Self)
        ensures
            r.name@ == "catppuccin_mocha"@,
            colors_are(r.colors, mocha_palette()),
    {
        ThemeSettings {
            name: String::from_str("catppuccin_mocha"),
            colors: ThemeColors::catppuccin_mocha(),
        }
    }
}

impl Default for UiSettings {
    fn default() -> (r: Self)
        ensures
            r.show_descriptions,
            !r.show_raw_command,
            r.max_results == 50,
            r.theme.name@ == "catppuccin_mocha"@,
            colors_are(r.theme.colors, mocha_palette()),
    {
        UiSettings {
            show_descriptions: default_show_descriptions(),
            show_raw_command: false,
            max_results: default_max_results(),
            theme: ThemeSettings::default(),
        }
    }
}

} // verus!
