use hypr_showkey::config::{Category, Config, HyprlandConfigs, UiSettings};
use hypr_showkey::parser::{match_category, HyprlandParser, Keybinding};
use hypr_showkey::tui::{App, Flow, KeyInput};

fn config_with(categories: Vec<(String, Category)>, max_results: usize) -> Config {
    let mut ui = UiSettings::default();
    ui.max_results = max_results;
    Config {
        hyprland_configs: HyprlandConfigs { files: vec!["hyprland.conf".to_string()] },
        categories,
        ui,
    }
}

fn category(name: &str, keywords: &[&str]) -> Category {
    Category {
        name: name.to_string(),
        description: String::new(),
        keywords: keywords.iter().map(|k| k.to_string()).collect(),
    }
}

fn binding(key: &str, action: &str, description: &str) -> Keybinding {
    Keybinding {
        key: key.to_string(),
        action: action.to_string(),
        description: description.to_string(),
        category: "Other".to_string(),
        raw_command: String::new(),
    }
}

#[test]
fn end_to_end_single_file() {
    let config = config_with(vec![("term".to_string(), category("Apps", &["kitty"]))], 50);
    let parser = HyprlandParser::new(&config);
    let records = parser.parse_content("bind = $mainMod, Return, exec, kitty # Open terminal\n");
    assert_eq!(records.len(), 1);
    assert_eq!(records[0].key, "Super + Return");
    assert_eq!(records[0].action, "exec, kitty");
    assert_eq!(records[0].description, "Open terminal");
    assert_eq!(records[0].category, "Apps");
    assert_eq!(records[0].raw_command, "bind = $mainMod, Return, exec, kitty");
}

#[test]
fn three_fields_give_one_record() {
    let config = config_with(vec![], 50);
    let parser = HyprlandParser::new(&config);
    assert!(parser.parse_bind_line("bind = SUPER, Q, killactive").is_some());
    assert!(parser.parse_bind_line("bind = SUPER, Q").is_none());
    assert!(parser.parse_bind_line("bind = SUPER, Q,   ").is_none());
    assert!(parser.parse_bind_line("exec-once = waybar").is_none());
    assert!(parser.parse_bind_line("unbind = SUPER, Q, killactive").is_none());
}

#[test]
fn quoted_comma_stays_in_field() {
    let config = config_with(vec![], 50);
    let parser = HyprlandParser::new(&config);
    let kb = parser.parse_bind_line("bind = SUPER, R, exec, myprog --flag=\"a,b\"").unwrap();
    assert_eq!(kb.action, "exec, myprog --flag=\"a,b\"");
    assert_eq!(kb.description, "Execute: myprog --flag=\"a,b\"");
}

#[test]
fn parenthesised_comma_stays_in_field() {
    let config = config_with(vec![], 50);
    let parser = HyprlandParser::new(&config);
    let kb = parser.parse_bind_line("bind = SUPER, P, exec, run (x, y), z").unwrap();
    assert_eq!(kb.action, "exec, run (x, y),z");
}

#[test]
fn modifiers_joined_with_plus() {
    let config = config_with(vec![], 50);
    let parser = HyprlandParser::new(&config);
    let kb = parser.parse_bind_line("bind = SUPER SHIFT, Q, killactive").unwrap();
    assert_eq!(kb.key, "SUPER + SHIFT + Q");
    assert_eq!(kb.description, "Kill active window");
    let kb = parser.parse_bind_line("bind = , Escape, exec, foo").unwrap();
    assert_eq!(kb.key, "Escape");
}

#[test]
fn placeholders_substituted() {
    let config = config_with(vec![], 50);
    let parser = HyprlandParser::new(&config);
    let kb = parser.parse_bind_line("bind = $mainMod $shiftMod, E, exit").unwrap();
    assert_eq!(kb.key, "Super + Shift + E");
    assert_eq!(kb.description, "exit");
    let key: String = parser
        .format_key_combination(&"$mainMod".chars().collect::<Vec<char>>())
        .into_iter()
        .collect();
    assert_eq!(key, "Super");
    let key: String = parser.format_key_combination(&[]).into_iter().collect();
    assert_eq!(key, "Unknown");
}

#[test]
fn variants_and_separators() {
    let config = config_with(vec![], 50);
    let parser = HyprlandParser::new(&config);
    let kb = parser.parse_bind_line("binde = , XF86AudioRaiseVolume, exec, wpctl up").unwrap();
    assert_eq!(kb.key, "XF86AudioRaiseVolume");
    assert_eq!(kb.raw_command, "bind = , XF86AudioRaiseVolume, exec, wpctl up");
    let kb = parser.parse_bind_line("bindm=SUPER,mouse:272,movewindow").unwrap();
    assert_eq!(kb.key, "SUPER + mouse:272");
    assert_eq!(kb.action, "movewindow");
}

#[test]
fn generated_descriptions() {
    let config = config_with(vec![], 50);
    let parser = HyprlandParser::new(&config);
    let d = |line: &str| parser.parse_bind_line(line).unwrap().description;
    assert_eq!(d("bind = SUPER, T, exec, my-terminal"), "Open terminal");
    assert_eq!(d("bind = SUPER, B, exec, browser"), "Open browser");
    assert_eq!(d("bind = SUPER, E, exec, filemanager"), "Open file manager");
    assert_eq!(d("bind = SUPER, F, fullscreen, 0"), "Toggle fullscreen");
    assert_eq!(d("bind = SUPER, M, fullscreen, 1"), "Maximize window");
    assert_eq!(d("bind = SUPER, V, togglefloating"), "Toggle floating mode");
    assert_eq!(d("bind = SUPER, 1, workspace, 1"), "Switch to workspace 1");
    assert_eq!(d("bind = SUPER SHIFT, 1, movetoworkspace, 1"), "Move window to workspace 1");
    assert_eq!(d("bind = SUPER, P, pseudo"), "pseudo");
}

#[test]
fn category_single_match_and_other() {
    let config = config_with(
        vec![
            ("term".to_string(), category("Apps", &["KITTY"])),
            ("ws".to_string(), category("Workspaces", &["workspace"])),
        ],
        50,
    );
    let parser = HyprlandParser::new(&config);
    assert_eq!(parser.parse_bind_line("bind = SUPER, Return, exec, kitty").unwrap().category, "Apps");
    assert_eq!(parser.parse_bind_line("bind = SUPER, 1, workspace, 1").unwrap().category, "Workspaces");
    assert_eq!(parser.parse_bind_line("bind = SUPER, Q, killactive").unwrap().category, "Other");
}

#[test]
fn content_skips_comments_and_blank_lines() {
    let config = config_with(vec![], 50);
    let parser = HyprlandParser::new(&config);
    let text = "# a comment\n\n   \n# bind = SUPER, X, exec, commented\nbind = SUPER, Q, killactive\r\nmonitor = ,preferred,auto,1\nbind = SUPER, 1, workspace, 1";
    let records = parser.parse_content(text);
    assert_eq!(records.len(), 2);
    assert_eq!(records[0].action, "killactive");
    assert_eq!(records[1].action, "workspace, 1");
    let all = parser.parse_contents(&vec![text.to_string(), "bind = SUPER, V, togglefloating".to_string()]);
    assert_eq!(all.len(), 3);
    assert_eq!(all[2].action, "togglefloating");
}

fn sample() -> Vec<Keybinding> {
    vec![
        binding("Super + Return", "exec, kitty", "Open terminal"),
        binding("Super + Q", "killactive", "Kill active window"),
        binding("Super + 1", "workspace, 1", "Switch to workspace 1"),
        binding("Super + 2", "workspace, 2", "Switch to workspace 2"),
    ]
}

fn type_query(app: &mut App, q: &str) {
    for c in q.chars() {
        assert_eq!(app.handle_key(KeyInput::Char(c)), Flow::Continue);
    }
}

fn set_query(app: &mut App, q: &str) {
    app.search_query = q.to_string();
    app.filter_keybindings();
}

#[test]
fn filter_same_query_twice() {
    let config = config_with(vec![], 50);
    let mut app = App::new(sample(), &config);
    set_query(&mut app, "work");
    let first = app.filtered.clone();
    app.filter_keybindings();
    assert_eq!(app.filtered, first);
    assert_eq!(first.len(), 2);
    assert!(first.contains(&2) && first.contains(&3));
}

#[test]
fn filter_respects_cap() {
    let config = config_with(vec![], 1);
    let mut app = App::new(sample(), &config);
    type_query(&mut app, "s");
    assert_eq!(app.filtered.len(), 1);
    assert_eq!(app.selected, Some(0));
}

#[test]
fn filter_no_match_and_backspace() {
    let config = config_with(vec![], 50);
    let mut app = App::new(sample(), &config);
    type_query(&mut app, "zzzz");
    assert!(app.filtered.is_empty());
    assert_eq!(app.selected, None);
    assert!(app.column_selection.iter().all(|c| c.is_none()));
    for _ in 0..4 {
        app.handle_key(KeyInput::Backspace);
    }
    assert_eq!(app.search_query, "");
    assert_eq!(app.filtered, vec![0, 1, 2, 3]);
    assert_eq!(app.selected, Some(0));
}

#[test]
fn fuzzy_query_finds_terminal() {
    let config = config_with(vec![], 50);
    let mut app = App::new(sample(), &config);
    set_query(&mut app, "kitty");
    assert_eq!(app.filtered, vec![0]);
}

#[test]
fn navigation_wraps() {
    let config = config_with(vec![], 50);
    let mut app = App::new(sample(), &config);
    assert_eq!(app.selected, Some(0));
    app.previous();
    assert_eq!(app.selected, Some(3));
    app.next();
    assert_eq!(app.selected, Some(0));
    app.handle_key(KeyInput::Down);
    app.handle_key(KeyInput::Char('j'));
    assert_eq!(app.selected, Some(2));
    app.handle_key(KeyInput::Up);
    assert_eq!(app.selected, Some(1));
}

#[test]
fn navigation_on_empty_view() {
    let config = config_with(vec![], 50);
    let mut app = App::new(vec![], &config);
    assert_eq!(app.selected, None);
    app.next();
    assert_eq!(app.selected, None);
    app.previous();
    assert_eq!(app.selected, None);
}

#[test]
fn one_column_cursor() {
    let config = config_with(vec![], 50);
    let mut app = App::new(sample(), &config);
    app.calculate_columns(120);
    assert_eq!(app.columns, 2);
    assert_eq!(app.get_items_per_column(), 2);
    app.next();
    app.next();
    app.next();
    assert_eq!(app.selected, Some(3));
    assert_eq!(app.column_selection, vec![None, Some(1)]);
    assert_eq!(app.get_current_column(), 1);
    assert_eq!(app.get_current_row_in_column(), 1);
    assert_eq!(app.column_range(0), (0, 2));
    assert_eq!(app.column_range(1), (2, 4));
    app.calculate_columns(121);
    assert_eq!(app.column_selection, vec![None, Some(1)]);
}

#[test]
fn resize_resets_column_cursors() {
    let config = config_with(vec![], 50);
    let mut app = App::new(sample(), &config);
    app.next();
    app.next();
    app.next();
    assert_eq!(app.column_selection, vec![Some(3)]);
    app.calculate_columns(120);
    assert_eq!(app.columns, 2);
    assert_eq!(app.selected, Some(3));
    assert_eq!(app.column_selection, vec![Some(0), None]);
    app.previous();
    assert_eq!(app.selected, Some(2));
    assert_eq!(app.column_selection, vec![None, Some(0)]);
    app.calculate_columns(20);
    assert_eq!(app.columns, 1);
    assert_eq!(app.column_selection, vec![Some(0)]);
    let mut empty = App::new(vec![], &config);
    empty.calculate_columns(120);
    assert_eq!(empty.column_selection, vec![None, None]);
}

#[test]
fn new_keeps_display_settings() {
    let mut config = config_with(vec![], 7);
    config.ui.show_raw_command = true;
    config.ui.show_descriptions = false;
    let app = App::new(sample(), &config);
    assert_eq!(app.config.ui.max_results, 7);
    assert!(app.config.ui.show_raw_command);
    assert!(!app.config.ui.show_descriptions);
}

#[test]
fn help_and_quit_keys() {
    let config = config_with(vec![], 50);
    let mut app = App::new(sample(), &config);
    assert_eq!(app.handle_key(KeyInput::Char('?')), Flow::Continue);
    assert!(app.show_help);
    assert_eq!(app.handle_key(KeyInput::Char('q')), Flow::Continue);
    assert_eq!(app.search_query, "");
    assert_eq!(app.handle_key(KeyInput::Esc), Flow::Continue);
    assert!(!app.show_help);
    assert_eq!(app.handle_key(KeyInput::Function(1)), Flow::Continue);
    assert!(app.show_help);
    app.handle_key(KeyInput::Function(1));
    assert_eq!(app.handle_key(KeyInput::Char('q')), Flow::Quit);
    assert_eq!(app.handle_key(KeyInput::Esc), Flow::Quit);
}

#[test]
fn status_line_follows_selection() {
    let config = config_with(vec![], 50);
    let mut app = App::new(sample(), &config);
    app.next();
    assert_eq!(app.status_text(), "Category: Other | Action: killactive");
    app.config.ui.show_raw_command = true;
    assert_eq!(app.status_text(), "Raw: ");
    let empty = App::new(vec![], &config);
    assert_eq!(empty.status_text(), "No keybindings found");
}

#[test]
fn category_matching_on_lowered_values() {
    let cats = vec![
        ("Apps".to_string(), vec!["firefox".to_string(), "kitty".to_string()]),
        ("Windows".to_string(), vec!["kill".to_string()]),
    ];
    let text: Vec<char> = "exec kitty open terminal".chars().collect();
    assert_eq!(match_category(&cats, &text), "Apps");
    let text: Vec<char> = "killactive  kill active window".chars().collect();
    assert_eq!(match_category(&cats, &text), "Windows");
    let text: Vec<char> = "exec KITTY".chars().collect();
    assert_eq!(match_category(&cats, &text), "Other");
    assert_eq!(match_category(&vec![], &text), "Other");
}

#[test]
fn moves_keep_the_view() {
    let config = config_with(vec![], 50);
    let mut app = App::new(sample(), &config);
    set_query(&mut app, "work");
    let view = app.filtered.clone();
    app.handle_key(KeyInput::Down);
    assert_eq!(app.filtered, view);
    assert_eq!(app.selected, Some(1));
    app.handle_key(KeyInput::Char('k'));
    assert_eq!(app.filtered, view);
    assert_eq!(app.selected, Some(0));
    assert_eq!(app.search_query, "work");
    assert_eq!(app.config.ui.max_results, 50);
}
