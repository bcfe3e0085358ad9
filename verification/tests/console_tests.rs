use kintate_proxy::limit::LimitRule;
use kintate_proxy::log::AccessSession;
use kintate_proxy::numbers::{format_int, parse_i32, parse_i64};
use kintate_proxy::policy::{Action, DomainTag, Rule};
use kintate_proxy::report::access_log_lines;
use kintate_proxy::tui_app::{limit_cells, rule_cells, tag_cells, App, Command, InputMode, Key, Tab};

fn loaded_app() -> App {
    let mut app = App::new();
    app.set_data(
        vec![
            Rule::from_row(7, 42, "Allow", Some("n".to_string()), Some("a.com".to_string()), None, Some("^/x".to_string()), None),
            Rule::from_row(8, 50, "Block", None, None, Some("video".to_string()), None, None),
        ],
        vec![],
        vec![DomainTag { id: 1, sld: "ytimg".to_string(), tag: "video".to_string() }],
        vec![LimitRule { id: 3, tag: "video".to_string(), max_duration_secs: 3600 }],
    );
    app
}

fn type_text(app: &mut App, s: &str) {
    for c in s.chars() {
        assert!(matches!(app.handle_key(Key::Char(c)), Command::Nothing));
    }
}

#[test]
fn integers_parse_like_str_parse() {
    assert_eq!(parse_i32("42"), Some(42));
    assert_eq!(parse_i32("+7"), Some(7));
    assert_eq!(parse_i32("-2147483648"), Some(i32::MIN));
    assert_eq!(parse_i32("2147483648"), None);
    assert_eq!(parse_i32("007"), Some(7));
    assert_eq!(parse_i32(""), None);
    assert_eq!(parse_i32("-"), None);
    assert_eq!(parse_i32("+"), None);
    assert_eq!(parse_i32(" 1"), None);
    assert_eq!(parse_i32("1a"), None);
    assert_eq!(parse_i64("-9223372036854775808"), Some(i64::MIN));
    assert_eq!(parse_i64("9223372036854775808"), None);
    assert_eq!(parse_i64("99999999999999999999999999"), None);
    for s in ["0", "12", "-5", "+3", "x", "2147483648", ""] {
        assert_eq!(parse_i32(s), s.parse::<i32>().ok());
        assert_eq!(parse_i64(s), s.parse::<i64>().ok());
    }
}

#[test]
fn integers_format_like_to_string() {
    for n in [0i64, 5, 10, -1, 1234567, i64::MAX, i64::MIN, -100] {
        assert_eq!(format_int(n), n.to_string());
        assert_eq!(parse_i64(&format_int(n)), Some(n));
    }
}

#[test]
fn tab_titles_and_cycle() {
    assert_eq!(Tab::all(), vec![Tab::Rules, Tab::Logs, Tab::Tags, Tab::Limits]);
    assert_eq!(Tab::Rules.title(), " Rules (P) ");
    assert_eq!(Tab::Limits.title(), " Limits (U) ");
    let mut app = App::new();
    for expected in [Tab::Logs, Tab::Tags, Tab::Limits, Tab::Rules] {
        app.handle_key(Key::Tab);
        assert_eq!(app.active_tab, expected);
    }
}

#[test]
fn selection_stays_in_the_list() {
    let mut app = loaded_app();
    app.handle_key(Key::Up);
    assert_eq!(app.rule_selected, Some(0));
    app.handle_key(Key::Down);
    app.handle_key(Key::Down);
    assert_eq!(app.rule_selected, Some(1));
    app.rule_selected = None;
    app.handle_key(Key::Down);
    assert_eq!(app.rule_selected, Some(0));
    app.handle_key(Key::Char('l'));
    app.log_selected = None;
    app.handle_key(Key::Down);
    assert_eq!(app.log_selected, None);
}

#[test]
fn keys_switch_tabs_and_quit() {
    let mut app = loaded_app();
    app.handle_key(Key::Char('t'));
    assert_eq!(app.active_tab, Tab::Tags);
    app.handle_key(Key::Char('u'));
    assert_eq!(app.active_tab, Tab::Limits);
    assert!(matches!(app.handle_key(Key::Char('r')), Command::Refresh));
    assert!(!app.should_quit);
    app.handle_key(Key::Char('q'));
    assert!(app.should_quit);
}

#[test]
fn adding_a_rule() {
    let mut app = loaded_app();
    app.handle_key(Key::Char('a'));
    assert!(matches!(app.input_mode, InputMode::AddingRule));
    assert_eq!(app.form_fields.len(), 6);
    assert_eq!(app.form_fields[0], ("Priority".to_string(), "100".to_string()));
    // priority field: erase "100", type "7"
    for _ in 0..3 {
        app.handle_key(Key::Backspace);
    }
    type_text(&mut app, "7");
    app.handle_key(Key::Down);
    for _ in 0..5 {
        app.handle_key(Key::Backspace);
    }
    type_text(&mut app, "ALLOW");
    app.handle_key(Key::Tab);
    type_text(&mut app, "example.org");
    app.handle_key(Key::Up);
    assert_eq!(app.form_focus, 1);
    app.handle_key(Key::Down);
    app.handle_key(Key::Down);
    app.handle_key(Key::Down);
    type_text(&mut app, "my rule");
    app.handle_key(Key::Enter);
    assert_eq!(app.form_focus, 5);
    // typing on the button does nothing
    type_text(&mut app, "zz");
    match app.handle_key(Key::Enter) {
        Command::InsertRule(d) => {
            assert_eq!(d.priority, 7);
            assert_eq!(d.action, Action::Allow);
            assert_eq!(d.domain, Some("example.org".to_string()));
            assert_eq!(d.tag, None);
            assert_eq!(d.name, Some("my rule".to_string()));
            assert_eq!(d.path_pattern, None);
        }
        _ => panic!("expected an insert"),
    }
    // the form stays open until the insert has run
    assert!(matches!(app.input_mode, InputMode::AddingRule));
    app.finish_command(false);
    assert!(matches!(app.input_mode, InputMode::AddingRule));
    assert_eq!(app.form_focus, 5);
    app.finish_command(true);
    assert!(matches!(app.input_mode, InputMode::Viewing));
}

#[test]
fn bad_priority_becomes_100() {
    let mut app = loaded_app();
    app.handle_key(Key::Char('a'));
    type_text(&mut app, "x");
    app.handle_key(Key::Up);
    match app.handle_key(Key::Enter) {
        Command::InsertRule(d) => {
            assert_eq!(d.priority, 100);
            assert_eq!(d.action, Action::Block);
        }
        _ => panic!("expected an insert"),
    }
}

#[test]
fn editing_a_rule_round_trips() {
    let mut app = loaded_app();
    app.handle_key(Key::Char('e'));
    assert!(matches!(app.input_mode, InputMode::EditingRule(7)));
    assert_eq!(app.form_fields[0].1, "42");
    assert_eq!(app.form_fields[1].1, "Allow");
    assert_eq!(app.form_fields[3].1, "");
    app.handle_key(Key::Up);
    match app.handle_key(Key::Enter) {
        Command::UpdateRule(id, d) => {
            assert_eq!(id, 7);
            assert_eq!(d.priority, 42);
            assert_eq!(d.action, Action::Allow);
            assert_eq!(d.domain, Some("a.com".to_string()));
            assert_eq!(d.name, Some("n".to_string()));
            assert_eq!(d.tag, None);
            // the form has no path pattern: it is dropped
            assert_eq!(d.path_pattern, None);
        }
        _ => panic!("expected an update"),
    }
}

#[test]
fn escape_leaves_the_form() {
    let mut app = loaded_app();
    app.handle_key(Key::Char('a'));
    assert!(matches!(app.handle_key(Key::Esc), Command::Nothing));
    assert!(matches!(app.input_mode, InputMode::Viewing));
}

#[test]
fn tags_are_trimmed_and_lowered() {
    let mut app = loaded_app();
    app.handle_key(Key::Char('t'));
    app.handle_key(Key::Char('a'));
    type_text(&mut app, "  YouTube ");
    app.handle_key(Key::Tab);
    type_text(&mut app, " video ");
    app.handle_key(Key::Tab);
    match app.handle_key(Key::Enter) {
        Command::AddTag(sld, tag) => {
            assert_eq!(sld, "youtube");
            assert_eq!(tag, "video");
        }
        _ => panic!("expected a tag"),
    }
    app.finish_command(true);
    app.handle_key(Key::Char('a'));
    app.handle_key(Key::Up);
    assert!(matches!(app.handle_key(Key::Enter), Command::Refresh));
}

#[test]
fn editing_a_tag_and_a_limit() {
    let mut app = loaded_app();
    app.handle_key(Key::Char('t'));
    app.handle_key(Key::Char('e'));
    assert!(matches!(&app.input_mode, InputMode::EditingTag(s) if s == "ytimg"));
    assert_eq!(app.form_fields[0].1, "ytimg");
    app.handle_key(Key::Esc);
    app.handle_key(Key::Char('u'));
    app.handle_key(Key::Char('e'));
    assert_eq!(app.form_fields[1].1, "60");
    app.handle_key(Key::Down);
    app.handle_key(Key::Backspace);
    app.handle_key(Key::Backspace);
    type_text(&mut app, "90");
    app.handle_key(Key::Down);
    match app.handle_key(Key::Enter) {
        Command::AddLimit(tag, secs) => {
            assert_eq!(tag, "video");
            assert_eq!(secs, 5400);
        }
        _ => panic!("expected a limit"),
    }
}

#[test]
fn limits_need_positive_minutes() {
    let mut app = loaded_app();
    app.handle_key(Key::Char('u'));
    app.handle_key(Key::Char('a'));
    type_text(&mut app, "games");
    app.handle_key(Key::Down);
    app.handle_key(Key::Backspace);
    app.handle_key(Key::Backspace);
    type_text(&mut app, "0");
    app.handle_key(Key::Down);
    assert!(matches!(app.handle_key(Key::Enter), Command::Refresh));
    assert!(app.limit_fits_exec());
}

#[test]
fn oversized_limit_is_reported() {
    let mut app = loaded_app();
    app.handle_key(Key::Char('u'));
    app.handle_key(Key::Char('a'));
    app.handle_key(Key::Down);
    app.handle_key(Key::Backspace);
    app.handle_key(Key::Backspace);
    type_text(&mut app, "999999999999999999");
    assert!(!app.limit_fits_exec());
}

#[test]
fn deleting() {
    let mut app = loaded_app();
    assert!(matches!(app.handle_key(Key::Char('d')), Command::DeleteRule(7)));
    app.handle_key(Key::Char('t'));
    assert!(matches!(app.handle_key(Key::Char('d')), Command::DeleteTag(s) if s == "ytimg"));
    app.handle_key(Key::Char('u'));
    assert!(matches!(app.handle_key(Key::Char('d')), Command::DeleteLimit(s) if s == "video"));
    app.handle_key(Key::Char('l'));
    assert!(matches!(app.handle_key(Key::Char('d')), Command::ClearLogs));
    app.handle_key(Key::Char('t'));
    app.tag_selected = Some(5);
    assert!(matches!(app.handle_key(Key::Char('d')), Command::Refresh));
}

#[test]
fn limit_minutes() {
    let l = |s| LimitRule { id: 1, tag: "t".to_string(), max_duration_secs: s };
    assert_eq!(l(3600).max_minutes(), 60);
    assert_eq!(l(119).max_minutes(), 1);
    assert_eq!(l(-61).max_minutes(), -1);
    assert_eq!(l(i64::MIN).max_minutes(), i64::MIN / 60);
}

#[test]
fn access_log_report() {
    assert_eq!(access_log_lines(&vec![]), vec!["No access logs found.".to_string()]);
    let s = AccessSession {
        device_ip: "10.0.0.1".to_string(),
        target_domain: "example.com".to_string(),
        tag: None,
        action: Action::Block,
        first_access: 0,
        last_access: 0,
        request_count: 12,
    };
    let lines = access_log_lines(&vec![s]);
    assert_eq!(lines.len(), 3);
    assert_eq!(
        lines[0],
        format!("\n{:<16} | {:<28} | {:<14} | {:<7} | {:<7}", "Device IP", "Target", "Tag", "Action", "Reqs")
    );
    assert_eq!(lines[1], "-".repeat(84));
    assert_eq!(
        lines[2],
        format!("{:<16} | {:<28} | {:<14} | {:<7} | {:<7}", "10.0.0.1", "example.com", "-", "Block", 12)
    );
}

#[test]
fn table_cells() {
    let app = loaded_app();
    assert_eq!(rule_cells(&app.rules[0]), vec!["7", "42", "Allow", "a.com", "*", "n"]);
    assert_eq!(rule_cells(&app.rules[1]), vec!["8", "50", "Block", "*", "video", "-"]);
    assert_eq!(tag_cells(&app.tags[0]), vec!["1", "ytimg", "video"]);
    assert_eq!(limit_cells(&app.limits[0]), vec!["3", "video", "60 min"]);
    let l = LimitRule { id: -2, tag: "t".to_string(), max_duration_secs: -119 };
    assert_eq!(limit_cells(&l), vec!["-2", "t", "-1 min"]);
}

#[test]
fn popup_title_and_help_follow_the_mode() {
    let mut app = loaded_app();
    assert_eq!(app.help_text(), " [↑/↓] Select  [A] Add  [E] Edit  [D] Delete  [R] Refresh  [Q] Quit ");
    app.handle_key(Key::Char('a'));
    assert_eq!(app.popup_title(), " Add New Item ");
    assert_eq!(app.help_text(), " [Esc] Cancel  [Tab] Next Field  [Enter] Submit ");
    app.handle_key(Key::Esc);
    app.handle_key(Key::Char('e'));
    assert!(matches!(app.input_mode, InputMode::EditingRule(7)));
    assert_eq!(app.popup_title(), " Edit Item ");
}

#[test]
fn selection_moves_by_any_delta() {
    let mut app = loaded_app();
    app.move_selection(5);
    assert_eq!(app.rule_selected, Some(1));
    app.move_selection(-7);
    assert_eq!(app.rule_selected, Some(0));
    app.move_selection(1);
    assert_eq!(app.rule_selected, Some(1));
    app.move_selection(0);
    assert_eq!(app.rule_selected, Some(1));
}

#[test]
fn an_oversized_limit_form_still_takes_keys() {
    let mut app = loaded_app();
    app.handle_key(Key::Char('u'));
    app.handle_key(Key::Char('a'));
    type_text(&mut app, "video");
    app.handle_key(Key::Down);
    app.handle_key(Key::Backspace);
    app.handle_key(Key::Backspace);
    type_text(&mut app, "999999999999999999");
    assert!(!app.limit_fits_exec());
    assert!(matches!(app.handle_key(Key::Backspace), Command::Nothing));
    assert!(matches!(app.handle_key(Key::Tab), Command::Nothing));
    assert_eq!(app.form_focus, 2);
    assert!(matches!(app.handle_key(Key::Esc), Command::Nothing));
    assert!(matches!(app.input_mode, InputMode::Viewing));
}
