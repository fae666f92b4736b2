use ratatosk::app::{App, ConfigStep, Section, MAX_ERRORS, MAX_TRACES};
use ratatosk::config::FieldConfig;
use ratatosk::keys::Key;
use ratatosk::layout::Rect;

fn app() -> App {
    App::new(FieldConfig::from_fields("route".to_string(), "latency".to_string(), 1))
}

fn freq(a: &App, k: &str) -> Option<usize> {
    a.json_key_freq.iter().find(|(key, _)| key == k).map(|(_, c)| *c)
}

fn samples(a: &App, route: &str) -> Option<Vec<u64>> {
    a.latencies
        .iter()
        .find(|(r, _)| r == route)
        .map(|(_, s)| s.samples.iter().copied().collect())
}

fn with_rows(mut a: App, lines: usize, rows: usize) -> App {
    for i in 0..lines {
        a.add_trace(format!("line {}", i));
        a.add_error(format!("ERROR {}", i));
    }
    a.traces_view_rows = rows;
    a.errors_view_rows = rows;
    a
}

#[test]
fn json_line_records_latency_and_paths() {
    let mut a = app();
    a.parse_log_line("{\"route\":\"/api/users\",\"latency\":150}".to_string());
    assert_eq!(a.traces.len(), 1);
    assert_eq!(a.errors.len(), 0);
    assert_eq!(samples(&a, "/api/users"), Some(vec![150]));
    assert_eq!(freq(&a, "route"), Some(1));
    assert_eq!(freq(&a, "latency"), Some(1));
    assert!(a.bar_cache_dirty);
}

#[test]
fn nested_json_paths_are_collected() {
    let mut a = app();
    a.parse_log_line("{\"http\":{\"route\":\"/x\"},\"tags\":[{\"k\":1},2]}".to_string());
    assert_eq!(freq(&a, "http"), Some(1));
    assert_eq!(freq(&a, "http.route"), Some(1));
    assert_eq!(freq(&a, "tags"), Some(1));
    assert_eq!(freq(&a, "tags[0].k"), Some(1));
    assert_eq!(a.json_key_freq.len(), 4);
    assert_eq!(a.latencies.len(), 0);
}

#[test]
fn text_line_records_latency_and_keys() {
    let mut a = app();
    a.parse_log_line("GET route=/api/users latency=150ms status=200".to_string());
    assert_eq!(samples(&a, "/api/users"), Some(vec![150]));
    assert_eq!(freq(&a, "route"), Some(1));
    assert_eq!(freq(&a, "latency"), Some(1));
    assert_eq!(freq(&a, "status"), Some(1));
    // a key at the very start of the line has no white space before it
    let mut b = app();
    b.parse_log_line("route=/a latency=5".to_string());
    assert_eq!(freq(&b, "route"), None);
    assert_eq!(freq(&b, "latency"), Some(1));
    assert_eq!(samples(&b, "/a"), Some(vec![5]));
}

#[test]
fn text_latency_must_follow_digits() {
    let mut a = app();
    a.parse_log_line("x route=/a latency=abc".to_string());
    a.parse_log_line("x route=/b".to_string());
    a.parse_log_line("x latency=5".to_string());
    assert_eq!(a.latencies.len(), 0);
    a.parse_log_line("x route=/c latency=99999999999999999999".to_string());
    assert_eq!(a.latencies.len(), 0);
}

#[test]
fn errors_and_warnings_are_kept() {
    let mut a = app();
    a.parse_log_line("ERROR something went wrong".to_string());
    a.parse_log_line("WARN potential issue".to_string());
    a.parse_log_line("INFO all good".to_string());
    assert_eq!(a.traces.len(), 3);
    assert_eq!(a.errors.len(), 2);
    assert_eq!(a.errors[0], "ERROR something went wrong");
    assert_eq!(a.errors[1], "WARN potential issue");
}

#[test]
fn invalid_json_falls_back_to_text_sample() {
    let mut a = app();
    a.parse_log_line("{ broken route=/r latency=7".to_string());
    assert_eq!(samples(&a, "/r"), Some(vec![7]));
    assert_eq!(a.json_key_freq.len(), 0);
}

#[test]
fn json_without_fields_falls_back_to_text_sample() {
    let mut a = app();
    a.parse_log_line("{\"msg\":\"route=/t latency=3\"}".to_string());
    assert_eq!(samples(&a, "/t"), Some(vec![3]));
    assert_eq!(freq(&a, "msg"), Some(1));
}

#[test]
fn latency_scale_applies_to_text_lines() {
    let mut a = App::new(FieldConfig::from_fields("route".to_string(), "latency".to_string(), 1000));
    a.parse_log_line("x route=/a latency=2500".to_string());
    assert_eq!(samples(&a, "/a"), Some(vec![2]));
}

#[test]
fn traces_and_errors_are_bounded() {
    let mut a = app();
    for i in 0..(MAX_TRACES + 5) {
        a.add_trace(format!("t{}", i));
    }
    for i in 0..(MAX_ERRORS + 3) {
        a.add_error(format!("e{}", i));
    }
    assert_eq!(a.traces.len(), MAX_TRACES);
    assert_eq!(a.traces[0], "t5");
    assert_eq!(a.traces[MAX_TRACES - 1], format!("t{}", MAX_TRACES + 4));
    assert_eq!(a.errors.len(), MAX_ERRORS);
    assert_eq!(a.errors[0], "e3");
}

#[test]
fn route_window_keeps_latest_samples() {
    let mut a = app();
    for i in 0..130u64 {
        a.add_latency("/r", i);
    }
    let s = samples(&a, "/r").unwrap();
    assert_eq!(s.len(), 128);
    assert_eq!(s[0], 2);
    assert_eq!(s[127], 129);
    assert_eq!(a.latencies[0].1.average(), (2..130u64).sum::<u64>() / 128);
}

#[test]
fn scrolling_stays_in_range_and_undoes() {
    let mut a = with_rows(app(), 10, 4);
    assert_eq!(a.max_traces_scroll(), 6);
    a.scroll_up();
    assert_eq!(a.traces_scroll, 1);
    a.scroll_down();
    assert_eq!(a.traces_scroll, 0);
    a.scroll_down();
    assert_eq!(a.traces_scroll, 0);
    a.page_up();
    assert_eq!(a.traces_scroll, 3);
    a.page_up();
    a.page_up();
    assert_eq!(a.traces_scroll, 6);
    a.page_down();
    assert_eq!(a.traces_scroll, 3);
    a.to_end();
    assert_eq!(a.traces_scroll, 6);
    a.scroll_up();
    assert_eq!(a.traces_scroll, 6);
    a.to_home();
    assert_eq!(a.traces_scroll, 0);
    assert_eq!(a.errors_scroll, 0);
}

#[test]
fn page_size_is_at_least_one() {
    let mut a = with_rows(app(), 10, 0);
    a.page_up();
    assert_eq!(a.traces_scroll, 1);
    a.traces_view_rows = 1;
    a.page_up();
    assert_eq!(a.traces_scroll, 2);
}

#[test]
fn toggle_section_moves_focus() {
    let mut a = with_rows(app(), 10, 4);
    a.toggle_section();
    assert!(a.selected_section == Section::Errors);
    a.scroll_up();
    assert_eq!(a.errors_scroll, 1);
    assert_eq!(a.traces_scroll, 0);
    a.toggle_section();
    assert!(a.selected_section == Section::Traces);
}

#[test]
fn horizontal_scrolling() {
    let mut a = app();
    a.add_trace("0123456789".to_string());
    a.update_layout(
        Rect { x: 0, y: 0, width: 6, height: 5 },
        Rect { x: 0, y: 5, width: 6, height: 5 },
    );
    assert_eq!(a.traces_view_cols, 4);
    assert_eq!(a.traces_view_rows, 3);
    assert_eq!(a.traces_max_line_width, 10);
    assert_eq!(a.max_traces_h_scroll(), 6);
    for _ in 0..10 {
        a.hscroll_right();
    }
    assert_eq!(a.traces_h_scroll, 6);
    assert_eq!(a.visible_traces(), vec!["6789".to_string()]);
    a.hscroll_left();
    assert_eq!(a.traces_h_scroll, 5);
    a.update_layout(
        Rect { x: 0, y: 0, width: 12, height: 5 },
        Rect { x: 0, y: 5, width: 12, height: 5 },
    );
    assert_eq!(a.traces_h_scroll, 0);
}

#[test]
fn visible_lines_are_newest_first() {
    let mut a = with_rows(app(), 5, 2);
    a.traces_view_cols = 100;
    assert_eq!(a.visible_traces(), vec!["line 4".to_string(), "line 3".to_string()]);
    a.scroll_up();
    assert_eq!(a.visible_traces(), vec!["line 3".to_string(), "line 2".to_string()]);
    a.errors_view_cols = 3;
    assert_eq!(a.visible_errors(), vec!["ERR".to_string(), "ERR".to_string()]);
}

#[test]
fn bar_chart_shows_top_ten_by_average() {
    let mut a = app();
    for i in 0..15u64 {
        a.add_latency(&format!("/r{}", i), i * 10);
        a.add_latency(&format!("/r{}", i), i * 10 + 2);
    }
    a.recompute_bar_cache();
    assert!(!a.bar_cache_dirty);
    assert_eq!(a.cached_bar_data.len(), 10);
    let avgs: Vec<u64> = a.cached_bar_data.iter().map(|(_, v)| *v).collect();
    assert_eq!(avgs, vec![141, 131, 121, 111, 101, 91, 81, 71, 61, 51]);
    assert_eq!(a.cached_bar_data[0].0, "/r14");

    let mut b = app();
    b.add_latency("/a", 5);
    b.add_latency("/b", 9);
    b.recompute_bar_cache();
    assert_eq!(b.cached_bar_data, vec![("/b".to_string(), 9), ("/a".to_string(), 5)]);
}

#[test]
fn suggestions_rank_by_count_then_path() {
    let mut a = app();
    a.parse_log_line("{\"b\":1,\"a\":1,\"c\":{\"d\":1}}".to_string());
    a.parse_log_line("{\"c\":2}".to_string());
    assert_eq!(a.build_suggestions("", 10), vec!["c", "a", "b", "c.d"]);
    assert_eq!(a.build_suggestions("c", 10), vec!["c", "c.d"]);
    assert_eq!(a.build_suggestions("", 2), vec!["c", "a"]);
    assert_eq!(a.build_suggestions("zz", 10), Vec::<String>::new());
    assert_eq!(a.build_suggestions("", 0), Vec::<String>::new());
}

#[test]
fn config_dialog_flow() {
    let mut a = app();
    a.parse_log_line("{\"http\":{\"route\":\"/x\"},\"ms\":5}".to_string());
    a.add_latency("/old", 1);
    assert!(!a.handle_key(Key::Char('c')));
    assert!(a.show_config);
    let st = a.config_state.as_ref().unwrap();
    assert!(st.step == ConfigStep::Route);
    assert_eq!(st.suggestions, vec!["http", "http.route", "ms"]);
    // q is typed into the dialog instead of quitting
    assert!(!a.handle_key(Key::Char('q')));
    assert_eq!(a.config_state.as_ref().unwrap().route_input, "q");
    assert!(!a.handle_key(Key::Backspace));
    assert_eq!(a.config_state.as_ref().unwrap().route_input, "");
    a.handle_key(Key::Down);
    assert_eq!(a.config_state.as_ref().unwrap().selected_idx, 1);
    a.handle_key(Key::Tab);
    assert_eq!(a.config_state.as_ref().unwrap().route_input, "http.route");
    a.handle_key(Key::Enter);
    let st = a.config_state.as_ref().unwrap();
    assert!(st.step == ConfigStep::Latency);
    assert_eq!(st.selected_idx, 0);
    a.handle_key(Key::Char('m'));
    assert_eq!(a.config_state.as_ref().unwrap().suggestions, vec!["ms"]);
    a.handle_key(Key::Enter);
    assert!(a.config_state.as_ref().unwrap().step == ConfigStep::Scale);
    a.handle_key(Key::Char('x'));
    a.handle_key(Key::Char('2'));
    assert_eq!(a.config_state.as_ref().unwrap().scale_input, "2");
    a.handle_key(Key::Enter);
    assert!(!a.show_config);
    assert!(a.config_state.is_none());
    assert_eq!(a.cfg.route_field_raw, "http.route");
    assert_eq!(a.cfg.latency_field_raw, "m");
    assert_eq!(a.cfg.latency_scale, 2);
    assert_eq!(a.latencies.len(), 0);
    assert!(a.bar_cache_dirty);
}

#[test]
fn config_selection_wraps() {
    let mut a = app();
    a.parse_log_line("{\"a\":1,\"b\":2,\"c\":3}".to_string());
    a.open_config();
    a.handle_config_key(Key::Up);
    assert_eq!(a.config_state.as_ref().unwrap().selected_idx, 2);
    a.handle_config_key(Key::Down);
    assert_eq!(a.config_state.as_ref().unwrap().selected_idx, 0);
    a.handle_config_key(Key::Down);
    a.handle_config_key(Key::Up);
    assert_eq!(a.config_state.as_ref().unwrap().selected_idx, 0);
    a.handle_config_key(Key::Esc);
    assert!(!a.show_config);
    assert!(a.config_state.is_none());
}

#[test]
fn empty_answers_keep_settings() {
    let mut a = app();
    a.open_config();
    a.apply_config_changes();
    assert_eq!(a.cfg.route_field_raw, "route");
    assert_eq!(a.cfg.latency_field_raw, "latency");
    assert_eq!(a.cfg.latency_scale, 1);
}

#[test]
fn navigation_keys_and_help() {
    let mut a = with_rows(app(), 10, 4);
    assert!(a.handle_key(Key::Char('q')));
    assert!(!a.handle_key(Key::Char('k')));
    assert_eq!(a.traces_scroll, 1);
    a.handle_key(Key::Char('j'));
    assert_eq!(a.traces_scroll, 0);
    a.handle_key(Key::Char('?'));
    assert!(a.show_help);
    a.handle_key(Key::Up);
    assert_eq!(a.traces_scroll, 0);
    a.handle_key(Key::Esc);
    assert!(!a.show_help);
    a.handle_key(Key::BackTab);
    assert!(a.selected_section == Section::Errors);
    a.handle_key(Key::End);
    assert_eq!(a.errors_scroll, 6);
    a.handle_key(Key::Home);
    assert_eq!(a.errors_scroll, 0);
}

#[test]
fn line_with_no_break_space_before_a_key() {
    let mut a = app();
    a.parse_log_line("a\u{a0}k=1 WARN".to_string());
    assert_eq!(a.traces.len(), 1);
    assert_eq!(a.traces[0], "a\u{a0}k=1 WARN");
    assert_eq!(a.errors.len(), 1);
    assert_eq!(freq(&a, "k"), Some(1));
}

#[test]
fn shorter_limit_gives_prefix_of_suggestions() {
    let mut a = app();
    a.parse_log_line("{\"b\":1,\"a\":1,\"c\":{\"d\":1,\"e\":[1]}}".to_string());
    a.parse_log_line("{\"c\":2,\"b\":3}".to_string());
    let full = a.build_suggestions("", 10);
    for l in 0..12 {
        let short = a.build_suggestions("", l);
        assert_eq!(short, full[..l.min(full.len())].to_vec());
    }
}

#[test]
fn json_record_sample_needs_both_fields() {
    let c = FieldConfig::from_fields("route".to_string(), "latency".to_string(), 10);
    let v = ratatosk::json::parse_json("{\"route\":\"/a\",\"latency\":\"125\"}").unwrap();
    assert_eq!(ratatosk::app::json_record_sample(&c, &v), Some(("/a".to_string(), 12)));
    let w = ratatosk::json::parse_json("{\"route\":\"/a\"}").unwrap();
    assert_eq!(ratatosk::app::json_record_sample(&c, &w), None);
}
