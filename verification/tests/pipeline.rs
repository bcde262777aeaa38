use logwatch::app::{App, ConfigError, KeyAction};
use logwatch::filters::{Filter, FilterError, ListFilter, Rules, Status};
use logwatch::lines::split_lines;
use logwatch::reprocess::{reprocess, LogCS2};

fn mk_filter(name: &str, status: Status, key: &str, pattern: &str, is_on: bool) -> Filter {
    Filter::new(
        name.to_string(),
        status,
        key.to_string(),
        pattern,
        Rules::OneLine,
        is_on,
    )
    .expect("pattern should compile")
}

fn entries(logs: &[LogCS2]) -> Vec<(String, Status)> {
    logs.iter().map(|e| (e.value.clone(), e.status)).collect()
}

#[test]
fn scenario_three_lines_two_filters() {
    let filters = vec![
        mk_filter("info", Status::Infos, "i", "INFO", true),
        mk_filter("err", Status::Error, "e", "ERROR", true),
    ];
    let contents = "INFO start\nWARN something\nERROR boom\n";
    let out = reprocess(&filters, contents);
    assert_eq!(
        entries(&out),
        vec![
            ("INFO start".to_string(), Status::Infos),
            ("ERROR boom".to_string(), Status::Error),
        ]
    );
}

#[test]
fn scenario_toggle_err_off() {
    let mut app = App::default();
    let list = ListFilter {
        filters: vec![
            mk_filter("info", Status::Infos, "i", "INFO", true),
            mk_filter("err", Status::Error, "e", "ERROR", true),
        ],
    };
    app.init_filters(list).expect("valid registry");
    let contents = "INFO start\nWARN something\nERROR boom\n";
    app.reprocess(contents);
    assert_eq!(app.logs.len(), 2);
    let action = app.handle_key('e');
    assert_eq!(action, KeyAction::Toggled);
    assert!(!app.filters[1].is_on);
    app.reprocess(contents);
    assert_eq!(
        entries(&app.logs),
        vec![("INFO start".to_string(), Status::Infos)]
    );
}

#[test]
fn reprocess_is_deterministic() {
    let filters = vec![
        mk_filter("warn", Status::Warning, "w", "WARN", true),
        mk_filter("err", Status::Error, "e", "ERR", true),
    ];
    let contents = "WARN a\nERR b\nWARN c";
    let a = reprocess(&filters, contents);
    let b = reprocess(&filters, contents);
    assert_eq!(entries(&a), entries(&b));
}

#[test]
fn filter_order_precedence() {
    // One line matching the filters at registry positions 0 and 1, both
    // enabled: exactly their two entries, first immediately before second.
    let filters = vec![
        mk_filter("first", Status::Infos, "f", "shared", true),
        mk_filter("second", Status::Warning, "s", "line", true),
        mk_filter("third", Status::Error, "t", "absent", true),
    ];
    let out = reprocess(&filters, "a shared line\n");
    assert_eq!(
        entries(&out),
        vec![
            ("a shared line".to_string(), Status::Infos),
            ("a shared line".to_string(), Status::Warning),
        ]
    );
}

#[test]
fn disabled_filter_produces_nothing() {
    let filters = vec![
        mk_filter("err", Status::Error, "e", "ERROR", false),
        mk_filter("info", Status::Infos, "i", "INFO", true),
    ];
    let out = reprocess(&filters, "ERROR boom\nINFO fine\n");
    assert_eq!(entries(&out), vec![("INFO fine".to_string(), Status::Infos)]);
}

#[test]
fn multiple_matches_fan_out_per_line() {
    // A line matching several enabled filters yields one entry per filter,
    // outer order by line, inner by registry position.
    let filters = vec![
        mk_filter("a", Status::Infos, "a", "x", true),
        mk_filter("b", Status::Warning, "b", "y", true),
    ];
    let out = reprocess(&filters, "xy\nyx\n");
    assert_eq!(
        entries(&out),
        vec![
            ("xy".to_string(), Status::Infos),
            ("xy".to_string(), Status::Warning),
            ("yx".to_string(), Status::Infos),
            ("yx".to_string(), Status::Warning),
        ]
    );
}

#[test]
fn toggle_clears_entries_immediately() {
    let mut app = App::default();
    let list = ListFilter {
        filters: vec![mk_filter("info", Status::Infos, "i", "INFO", true)],
    };
    app.init_filters(list).expect("valid registry");
    app.reprocess("INFO a\nINFO b\n");
    assert_eq!(app.logs.len(), 2);
    let action = app.handle_key('i');
    assert_eq!(action, KeyAction::Toggled);
    // Entries are cleared at the instant of toggle, before any new pass.
    assert_eq!(app.logs.len(), 0);
    app.reprocess("INFO a\nINFO b\n");
    assert_eq!(app.logs.len(), 0);
}

#[test]
fn quit_key_requests_exit() {
    let mut app = App::default();
    let list = ListFilter {
        filters: vec![mk_filter("info", Status::Infos, "i", "INFO", true)],
    };
    app.init_filters(list).expect("valid registry");
    assert!(!app.exit);
    let action = app.handle_key('q');
    assert_eq!(action, KeyAction::Quit);
    assert!(app.exit);
}

#[test]
fn unbound_key_is_ignored() {
    let mut app = App::default();
    let list = ListFilter {
        filters: vec![mk_filter("info", Status::Infos, "i", "INFO", true)],
    };
    app.init_filters(list).expect("valid registry");
    app.reprocess("INFO a\n");
    let action = app.handle_key('z');
    assert_eq!(action, KeyAction::Ignored);
    assert!(!app.exit);
    assert_eq!(app.logs.len(), 1);
    assert!(app.filters[0].is_on);
}

#[test]
fn double_toggle_restores_state() {
    let mut app = App::default();
    let list = ListFilter {
        filters: vec![mk_filter("info", Status::Infos, "i", "INFO", true)],
    };
    app.init_filters(list).expect("valid registry");
    app.handle_key('i');
    assert!(!app.filters[0].is_on);
    app.handle_key('i');
    assert!(app.filters[0].is_on);
}

#[test]
fn control_sequence_separation() {
    // The pattern targets the escape sequence itself, so matching must see
    // the raw line; the displayed text must have the sequence removed.
    let filters = vec![mk_filter("red", Status::Error, "r", "\\[31m", true)];
    let out = reprocess(&filters, "\u{1b}[31mERROR boom\u{1b}[0m\n");
    assert_eq!(
        entries(&out),
        vec![("ERROR boom".to_string(), Status::Error)]
    );
    // The stripped text no longer contains what the pattern matched.
    let none = reprocess(&filters, "ERROR boom\n");
    assert_eq!(none.len(), 0);
}

#[test]
fn debounce_two_quick_events_one_pass() {
    let mut app = App::default();
    let path = "watched.log".to_string();
    assert!(app.note_change_event(&path, 1000));
    // 50 ms later: inside the 100 ms window, suppressed.
    assert!(!app.note_change_event(&path, 1050));
}

#[test]
fn debounce_two_spaced_events_two_passes() {
    let mut app = App::default();
    let path = "watched.log".to_string();
    assert!(app.note_change_event(&path, 1000));
    // Exactly the window apart: accepted again.
    assert!(app.note_change_event(&path, 1100));
}

#[test]
fn debounce_suppressed_event_keeps_old_timestamp() {
    let mut app = App::default();
    let path = "watched.log".to_string();
    assert!(app.note_change_event(&path, 1000));
    assert!(!app.note_change_event(&path, 1099));
    // The suppressed event did not refresh the record: 1100 is a full window
    // after the first accepted event, so it is accepted.
    assert!(app.note_change_event(&path, 1100));
}

#[test]
fn debounce_tracks_paths_independently() {
    let mut app = App::default();
    let a = "a.log".to_string();
    let b = "b.log".to_string();
    assert!(app.note_change_event(&a, 1000));
    assert!(app.note_change_event(&b, 1010));
    assert!(!app.note_change_event(&a, 1050));
    assert!(!app.note_change_event(&b, 1050));
}

#[test]
fn invalid_pattern_is_rejected() {
    let r = Filter::new(
        "bad".to_string(),
        Status::Error,
        "b".to_string(),
        "(unclosed",
        Rules::OneLine,
        true,
    );
    assert_eq!(r.err(), Some(FilterError::InvalidPattern));
}

#[test]
fn empty_key_code_is_config_error() {
    let mut app = App::default();
    let list = ListFilter {
        filters: vec![mk_filter("info", Status::Infos, "", "INFO", true)],
    };
    assert_eq!(app.init_filters(list), Err(ConfigError::EmptyKeyCode));
    assert_eq!(app.filters.len(), 0);
}

#[test]
fn duplicate_key_is_config_error() {
    let mut app = App::default();
    let list = ListFilter {
        filters: vec![
            mk_filter("one", Status::Infos, "x", "a", true),
            mk_filter("two", Status::Warning, "x", "b", true),
        ],
    };
    assert_eq!(app.init_filters(list), Err(ConfigError::DuplicateKey));
    assert_eq!(app.filters.len(), 0);
}

#[test]
fn split_lines_basic() {
    let lines = split_lines("a\nb\nc");
    assert_eq!(lines, vec!["a".to_string(), "b".to_string(), "c".to_string()]);
}

#[test]
fn split_lines_trailing_newline_and_crlf() {
    let lines = split_lines("one\r\ntwo\n");
    assert_eq!(lines, vec!["one".to_string(), "two".to_string()]);
}

#[test]
fn split_lines_empty_and_blank() {
    assert_eq!(split_lines("").len(), 0);
    assert_eq!(split_lines("\n"), vec!["".to_string()]);
    assert_eq!(split_lines("a\n\nb"), vec![
        "a".to_string(),
        "".to_string(),
        "b".to_string(),
    ]);
}

#[test]
fn empty_file_yields_no_entries() {
    let filters = vec![mk_filter("any", Status::Custom, "a", ".*", true)];
    let out = reprocess(&filters, "");
    assert_eq!(out.len(), 0);
}

#[test]
fn match_regex_sees_raw_line_and_status_is_returned() {
    let f = mk_filter("warn", Status::Warning, "w", "WARN", true);
    assert!(f.match_regex("some WARN here"));
    assert!(!f.match_regex("all quiet"));
    assert_eq!(f.get_status(), Status::Warning);
}

#[test]
fn push_error_appends_error_entry() {
    let mut app = App::default();
    app.push_error("ERROR: watch failed".to_string());
    assert_eq!(app.logs.len(), 1);
    assert_eq!(app.logs[0].value, "ERROR: watch failed");
    assert_eq!(app.logs[0].status, Status::Error);
}

#[test]
fn tick_timeout_and_scroll() {
    assert_eq!(logwatch::remaining_timeout(100, 30), 70);
    assert_eq!(logwatch::remaining_timeout(100, 100), 0);
    assert_eq!(logwatch::remaining_timeout(100, 250), 0);
    let mut app = App::default();
    assert_eq!(app.scroll, 0);
    for expected in 1..10u16 {
        app.on_tick();
        assert_eq!(app.scroll, expected);
    }
    app.on_tick();
    assert_eq!(app.scroll, 0);
}
