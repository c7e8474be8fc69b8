use ghostty_web::palette::{
    clamp_selection, filter_commands, group_rows, invoke, list_key, load_commands,
    move_selection, palette_hotkey, register_provider, row_class, Command, ListKey, PaletteAction,
};
use ghostty_web::session_commands::{relative_time, session_command, static_actions};
use ghostty_web::text::contains_text;

fn cmd(id: &str, label: &str, group: Option<&str>, detail: Option<&str>, disabled: bool) -> Command {
    Command {
        id: id.to_string(),
        label: label.to_string(),
        group: group.map(|s| s.to_string()),
        detail: detail.map(|s| s.to_string()),
        hint: None,
        disabled,
        on_select: PaletteAction::Reload,
    }
}

#[test]
fn providers_keep_registration_order() {
    let mut providers: Vec<u8> = Vec::new();
    register_provider(&mut providers, 1);
    register_provider(&mut providers, 2);
    assert_eq!(providers, vec![1, 2]);
}

#[test]
fn command_batches_are_concatenated_in_order() {
    let out = load_commands(vec![vec![1, 2], vec![], vec![3]]);
    assert_eq!(out, vec![1, 2, 3]);
    let none: Vec<Vec<u8>> = Vec::new();
    assert!(load_commands(none).is_empty());
}

#[test]
fn substring_search() {
    let hay: Vec<char> = "hello world".chars().collect();
    assert!(contains_text(&hay, &"lo w".chars().collect()));
    assert!(contains_text(&hay, &Vec::new()));
    assert!(!contains_text(&hay, &"worlds".chars().collect()));
    assert!(contains_text(&hay, &"world".chars().collect()));
}

#[test]
fn filter_matches_label_detail_and_group_case_insensitively() {
    let cmds = vec![
        cmd("1", "New Session", Some("Actions"), None, false),
        cmd("2", "abc · vim", Some("Other tabs"), Some("5m ago"), false),
        cmd("3", "Reload", Some("Actions"), None, false),
    ];
    let ids = |v: Vec<Command>| v.into_iter().map(|c| c.id).collect::<Vec<_>>();
    assert_eq!(ids(filter_commands(cmds.clone(), "  ")), vec!["1", "2", "3"]);
    assert_eq!(ids(filter_commands(cmds.clone(), " SESSION ")), vec!["1"]);
    assert_eq!(ids(filter_commands(cmds.clone(), "actions")), vec!["1", "3"]);
    assert_eq!(ids(filter_commands(cmds.clone(), "5m")), vec!["2"]);
    assert_eq!(ids(filter_commands(cmds.clone(), "vim 5m")), vec!["2"]);
    assert!(filter_commands(cmds, "nothing").is_empty());
}

#[test]
fn empty_or_blank_query_lists_every_command() {
    let cmds = vec![
        cmd("a", "a", None, None, false),
        cmd("b", "b", None, None, false),
        cmd("c", "c", None, None, true),
    ];
    let ids = |v: Vec<Command>| v.into_iter().map(|c| c.id).collect::<Vec<_>>();
    assert_eq!(ids(filter_commands(cmds.clone(), "")), vec!["a", "b", "c"]);
    assert_eq!(ids(filter_commands(cmds.clone(), " \t\n\u{a0}\u{3000}")), vec!["a", "b", "c"]);
    assert_eq!(ids(filter_commands(cmds, " B ")), vec!["b"]);
}

#[test]
fn selection_is_clamped() {
    assert_eq!(clamp_selection(5, 3), Some(2));
    assert_eq!(clamp_selection(2, 3), None);
    assert_eq!(clamp_selection(4, 0), Some(0));
    assert_eq!(clamp_selection(0, 0), None);
}

#[test]
fn selection_skips_disabled_and_wraps() {
    let disabled = vec![false, true, false];
    assert_eq!(move_selection(0, 1, &disabled), 2);
    assert_eq!(move_selection(2, 1, &disabled), 0);
    assert_eq!(move_selection(0, -1, &disabled), 2);
    assert_eq!(move_selection(2, -1, &disabled), 0);
    assert_eq!(move_selection(0, 1, &Vec::new()), 0);
    // all disabled: one full round ends where it started
    assert_eq!(move_selection(1, 1, &vec![true, true, true]), 1);
    // stale selection past the end
    assert_eq!(move_selection(7, 1, &disabled), 2);
}

#[test]
fn keys_map_to_list_actions() {
    assert!(matches!(list_key("ArrowDown"), ListKey::Down));
    assert!(matches!(list_key("ArrowUp"), ListKey::Up));
    assert!(matches!(list_key("Enter"), ListKey::Select));
    assert!(matches!(list_key("a"), ListKey::Other));
}

#[test]
fn hotkey_toggles_and_escape_closes() {
    assert_eq!(palette_hotkey(true, false, "k", false), Some(true));
    assert_eq!(palette_hotkey(false, true, "k", true), Some(false));
    assert_eq!(palette_hotkey(false, false, "k", false), None);
    assert_eq!(palette_hotkey(false, false, "Escape", true), Some(false));
    assert_eq!(palette_hotkey(false, false, "Escape", false), None);
}

#[test]
fn invoking_runs_enabled_commands_only() {
    assert!(invoke(None).is_none());
    assert!(invoke(Some(cmd("x", "x", None, None, true))).is_none());
    assert!(matches!(invoke(Some(cmd("x", "x", None, None, false))), Some(PaletteAction::Reload)));
}

#[test]
fn rows_are_grouped_by_first_appearance() {
    let groups = vec![
        Some("Current".to_string()),
        Some("Actions".to_string()),
        None,
        Some("Current".to_string()),
        Some("Actions".to_string()),
    ];
    let g = group_rows(&groups);
    let shape: Vec<(String, Vec<usize>)> = g.into_iter().map(|r| (r.label, r.rows)).collect();
    assert_eq!(
        shape,
        vec![
            ("Current".to_string(), vec![0, 3]),
            ("Actions".to_string(), vec![1, 4]),
            (String::new(), vec![2]),
        ]
    );
    assert!(group_rows(&Vec::new()).is_empty());
}

#[test]
fn row_classes() {
    assert_eq!(row_class(false, false), "ghostty-palette-row");
    assert_eq!(row_class(true, true), "ghostty-palette-row ghostty-palette-row-selected ghostty-palette-row-disabled");
}

fn reference_rel_time(s: i64) -> String {
    if s < 5 {
        return "just now".into();
    }
    if s < 60 {
        return format!("{s}s ago");
    }
    let m = (s as f64 / 60.0).round() as i64;
    if m < 60 {
        return format!("{m}m ago");
    }
    let h = (m as f64 / 60.0).round() as i64;
    if h < 24 {
        return format!("{h}h ago");
    }
    format!("{}d ago", (h as f64 / 24.0).round() as i64)
}

#[test]
fn relative_time_matches_float_rounding() {
    assert_eq!(relative_time(0), "just now");
    assert_eq!(relative_time(5), "5s ago");
    assert_eq!(relative_time(90), "2m ago");
    assert_eq!(relative_time(3599), "1h ago");
    assert_eq!(relative_time(86_400 * 3), "3d ago");
    for s in 0..200_000i64 {
        assert_eq!(relative_time(s), reference_rel_time(s), "{s}");
    }
    for s in [1_000_000i64, 123_456_789, 9_999_999_999] {
        assert_eq!(relative_time(s), reference_rel_time(s));
    }
}

#[test]
fn session_entries_by_kind() {
    let current = "abcdef0123456789".to_string();
    let c = session_command(&current, true, &"bash".to_string(), &current, "just now".to_string());
    assert_eq!(c.id, "session:abcdef0123456789");
    assert_eq!(c.label, "abcdef01 · bash");
    assert_eq!(c.group.as_deref(), Some("Current"));
    assert_eq!(c.hint.as_deref(), Some("this tab"));
    assert!(c.disabled);
    assert!(matches!(c.on_select, PaletteAction::Nothing));

    let o = session_command(&"zz".to_string(), false, &"vim".to_string(), &current, "1m ago".to_string());
    assert_eq!(o.label, "zz · vim");
    assert_eq!(o.group.as_deref(), Some("Orphan"));
    assert_eq!(o.hint.as_deref(), Some("switch"));
    assert_eq!(o.detail.as_deref(), Some("1m ago"));
    assert!(!o.disabled);
    assert!(matches!(o.on_select, PaletteAction::SwitchSession { ref id, take: false } if id == "zz"));

    let t = session_command(&"ééééééééé".to_string(), true, &"top".to_string(), &current, "x".to_string());
    assert_eq!(t.label, "éééééééé · top");
    assert_eq!(t.group.as_deref(), Some("Other tabs"));
    assert_eq!(t.hint.as_deref(), Some("take"));
    assert!(matches!(t.on_select, PaletteAction::SwitchSession { take: true, .. }));
}

#[test]
fn static_actions_are_new_tab_and_reload() {
    let a = static_actions();
    assert_eq!(a.len(), 2);
    assert_eq!(a[0].id, "action:new-tab");
    assert_eq!(a[0].label, "New session in new tab");
    assert!(matches!(a[0].on_select, PaletteAction::OpenNewTab));
    assert_eq!(a[1].id, "action:reload");
    assert_eq!(a[1].hint.as_deref(), Some("⏎"));
    assert!(matches!(a[1].on_select, PaletteAction::Reload));
}
