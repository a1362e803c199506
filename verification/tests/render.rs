use container_logs::palette::{get_color, Hue};
use container_logs::render::{
    checkbox, clip, fit, fit_text, help_text, line_budget, measure, scroll_offset, AllRow, Pane,
    Row,
    Segment, HELP_CLOSE_INFO, HELP_SHOW_INFO, MARK_SELECTED, MARK_UNSELECTED,
};
use container_logs::state::AppState;
use container_logs::text::chars_of;

fn plain(text: &str) -> Segment {
    Segment { text: text.to_string(), hue: None }
}

fn tinted(text: &str, hue: Hue) -> Segment {
    Segment { text: text.to_string(), hue: Some(hue) }
}

fn state_with(names: &[&str]) -> AppState {
    let mut state = AppState::new(100);
    for name in names {
        state.add_container(format!("id-{}", name), name.to_string());
    }
    state
}

#[test]
fn palette_has_nine_colors() {
    let expected = [
        Hue::BrightGreen,
        Hue::BrightBlue,
        Hue::BrightYellow,
        Hue::BrightMagenta,
        Hue::BrightCyan,
        Hue::BrightWhite,
        Hue::BrightRed,
        Hue::Yellow,
        Hue::Green,
    ];
    for (i, hue) in expected.iter().enumerate() {
        assert_eq!(get_color(i), *hue);
        assert_eq!(get_color(i + 9), *hue);
        assert_eq!(get_color(i + 900), *hue);
    }
    assert_eq!(get_color(9), Hue::BrightGreen);
    assert_eq!(get_color(17), Hue::Green);
}

#[test]
fn budget_is_width_less_eight_with_a_floor() {
    assert_eq!(line_budget(80), 72);
    assert_eq!(line_budget(14), 6);
    assert_eq!(line_budget(13), 5);
    assert_eq!(line_budget(12), 5);
    assert_eq!(line_budget(9), 5);
    assert_eq!(line_budget(8), 5);
    assert_eq!(line_budget(0), 5);
    assert_eq!(line_budget(65535), 65527);
}

#[test]
fn scroll_keeps_the_newest_line_at_the_bottom() {
    assert_eq!(scroll_offset(100, 22), 80);
    assert_eq!(scroll_offset(20, 22), 0);
    assert_eq!(scroll_offset(21, 22), 1);
    assert_eq!(scroll_offset(5, 2), 5);
    assert_eq!(scroll_offset(5, 0), 5);
    assert_eq!(scroll_offset(0, 10), 0);
    assert_eq!(scroll_offset(70000, 12), 65535);
    assert_eq!(scroll_offset(65545, 12), 65535);
    assert_eq!(scroll_offset(65544, 12), 65534);
}

#[test]
fn help_names_what_the_info_key_does() {
    assert_eq!(help_text(false), HELP_SHOW_INFO);
    assert_eq!(help_text(true), HELP_CLOSE_INFO);
    assert!(help_text(false).contains("i: Show Info"));
    assert!(help_text(true).contains("i: Close Info"));
    assert_eq!(checkbox(true), MARK_SELECTED);
    assert_eq!(checkbox(false), MARK_UNSELECTED);
}

#[test]
fn fit_fills_the_budget() {
    assert_eq!(fit_text("hello world", 6), "hello ");
    assert_eq!(fit_text("hello world", 5), "hello");
    assert_eq!(fit_text("hello", 6), "hello");
    assert_eq!(fit_text("hello", 5), "hello");
    assert_eq!(fit_text("hello", 4), "hell");
    assert_eq!(fit_text("hello", 1), "h");
    assert_eq!(fit_text("hello", 0), "");
    assert_eq!(fit_text("", 3), "");
    assert_eq!(fit(&chars_of("abc"), 3), vec!['a', 'b', 'c']);
    assert_eq!(fit(&chars_of("abc"), 2), vec!['a', 'b']);
}

#[test]
fn fit_counts_wide_characters_twice() {
    assert_eq!(fit_text("日本語", 7), "日本語");
    assert_eq!(fit_text("日本語", 6), "日本語");
    assert_eq!(fit_text("日本語", 5), "日本");
    assert_eq!(fit_text("日本語", 4), "日本");
    assert_eq!(fit_text("日本語", 3), "日");
    assert_eq!(fit_text("日本語", 1), "");
    assert_eq!(fit_text("a日b", 4), "a日b");
    assert_eq!(fit_text("a日b", 3), "a日");
    assert_eq!(fit_text("a日b", 2), "a");
}

#[test]
fn fit_takes_characters_without_width() {
    // A combining accent takes no column.
    assert_eq!(fit_text("e\u{301}x", 1), "e\u{301}");
    assert_eq!(fit_text("e\u{301}x", 2), "e\u{301}x");
    assert_eq!(fit_text("\u{301}", 0), "\u{301}");
}

#[test]
fn measure_adds_up_columns_within_the_budget() {
    assert_eq!(measure(&chars_of("hello"), 5), Some(5));
    assert_eq!(measure(&chars_of("hello"), 4), None);
    assert_eq!(measure(&chars_of("日本語"), 6), Some(6));
    assert_eq!(measure(&chars_of("日本語"), 5), None);
    assert_eq!(measure(&chars_of("e\u{301}"), 1), Some(1));
    assert_eq!(measure(&chars_of(""), 0), Some(0));
    assert_eq!(measure(&chars_of("a"), usize::MAX), Some(1));
}

#[test]
fn clip_leaves_lines_that_fit_alone() {
    let line = vec![tinted("web", Hue::BrightCyan), plain(" o: hi")];
    assert_eq!(clip(line.clone(), 20), line);
    assert_eq!(clip(line.clone(), 9), line);
    assert_eq!(clip(Vec::new(), 5), Vec::<Segment>::new());
    assert_eq!(clip(Vec::new(), 0), Vec::<Segment>::new());
}

#[test]
fn clip_cuts_the_piece_that_passes_the_width() {
    let line = vec![tinted("web", Hue::BrightCyan), plain(" o: hello")];
    assert_eq!(clip(line.clone(), 12), line);
    assert_eq!(clip(line.clone(), 11), vec![tinted("web", Hue::BrightCyan), plain(" o: hell")]);
    assert_eq!(clip(line.clone(), 4), vec![tinted("web", Hue::BrightCyan), plain(" ")]);
    // The name fills the width: nothing is left for what follows.
    assert_eq!(clip(line.clone(), 3), vec![tinted("web", Hue::BrightCyan)]);
    assert_eq!(clip(line.clone(), 2), vec![tinted("we", Hue::BrightCyan)]);
    assert_eq!(clip(line, 0), Vec::<Segment>::new());
}

#[test]
fn single_selected_container_hides_its_name() {
    let mut state = state_with(&["api"]);
    state.add_log("api", "api o: hello".to_string());
    let pane = state.render_logs(80, 24);
    assert_eq!(pane.lines, vec![vec![plain("o: hello")]]);
    assert_eq!(pane.scroll, 0);
    assert_eq!(state.render_line("api o: hello", false, 72), vec![plain("o: hello")]);
}

#[test]
fn several_containers_show_colored_names() {
    let mut state = state_with(&["web", "db"]);
    state.add_log("web", "web o: GET /".to_string());
    state.add_log("db", "db e: slow query".to_string());
    let pane = state.render_logs(80, 24);
    assert_eq!(
        pane.lines,
        vec![
            vec![tinted("web", Hue::BrightGreen), plain(" o: GET /")],
            vec![tinted("db", Hue::BrightBlue), plain(" e: slow query")],
        ]
    );
}

#[test]
fn lines_without_a_known_name_stay_whole() {
    let state = state_with(&["web", "db"]);
    assert_eq!(state.render_line("ghost o: boo", true, 72), vec![plain("ghost o: boo")]);
    assert_eq!(state.render_line("nospace", true, 72), vec![plain("nospace")]);
    assert_eq!(state.render_line("nospace", false, 72), vec![plain("nospace")]);
    assert_eq!(state.render_line("", true, 72), vec![plain("")]);
}

#[test]
fn rendered_lines_are_cleaned_and_cut() {
    let state = state_with(&["web", "db"]);
    assert_eq!(
        state.render_line("web o: \x1b[31mred\x1b[0m\u{7} alert", true, 72),
        vec![tinted("web", Hue::BrightGreen), plain(" o: red alert")]
    );
    assert_eq!(
        state.render_line("web o: a\tb\r\n", true, 72),
        vec![tinted("web", Hue::BrightGreen), plain(" o: a    b ")]
    );
    // 20 columns: the name takes 3 and leaves 17.
    assert_eq!(
        state.render_line("web o: 0123456789abcdef", true, 20),
        vec![tinted("web", Hue::BrightGreen), plain(" o: 0123456789abc")]
    );
    assert_eq!(state.render_line("web o: 0123456789abcdef", false, 10), vec![plain("o: 0123456")]);
}

#[test]
fn lines_that_fit_are_shown_in_full() {
    let state = state_with(&["web", "db"]);
    // 23 columns in all.
    let whole = vec![tinted("web", Hue::BrightGreen), plain(" o: 0123456789abcdef")];
    assert_eq!(state.render_line("web o: 0123456789abcdef", true, 23), whole);
    assert_eq!(state.render_line("web o: 0123456789abcdef", true, 24), whole);
    assert_eq!(
        state.render_line("web o: 0123456789abcdef", true, 22),
        vec![tinted("web", Hue::BrightGreen), plain(" o: 0123456789abcde")]
    );
    assert_eq!(state.render_line("db o: 日本語", false, 9), vec![plain("o: 日本語")]);
    assert_eq!(state.render_line("db o: 日本語", false, 8), vec![plain("o: 日本")]);
    assert_eq!(state.render_line("nospace", true, 7), vec![plain("nospace")]);
    assert_eq!(state.render_line("nospace", true, 6), vec![plain("nospac")]);
}

#[test]
fn rendered_lines_stay_within_the_width() {
    let state = state_with(&["web", "名前"]);
    let lines = [
        "web o: 0123456789abcdef",
        "名前 e: 日本語のログ行です",
        "web o: e\u{301}e\u{301}e\u{301}e\u{301}",
        "nospace-at-all-in-this-line",
        "",
    ];
    for line in lines.iter() {
        for width in 0..30usize {
            for show_names in [true, false] {
                let shown = state.render_line(line, show_names, width);
                let mut columns = 0;
                for segment in shown.iter() {
                    columns += measure(&chars_of(&segment.text), usize::MAX).unwrap();
                }
                assert!(columns <= width, "{:?} at {} takes {}", line, width, columns);
            }
        }
    }
}

#[test]
fn narrow_panes_cut_the_name_too() {
    let state = state_with(&["longname", "x"]);
    assert_eq!(
        state.render_line("longname o: hi", true, 5),
        vec![tinted("longn", Hue::BrightGreen)]
    );
    assert_eq!(
        state.render_line("longname o: hi", true, 8),
        vec![tinted("longname", Hue::BrightGreen), plain("")]
    );
    assert_eq!(
        state.render_line("longname o: hi", true, 9),
        vec![tinted("longname", Hue::BrightGreen), plain(" ")]
    );
}

#[test]
fn log_pane_scrolls_to_the_newest_line() {
    let mut state = state_with(&["api"]);
    for i in 0..30 {
        state.add_log("api", format!("api o: line {}", i));
    }
    let pane = state.render_logs(40, 12);
    assert_eq!(pane.lines.len(), 30);
    assert_eq!(pane.scroll, 20);
    assert_eq!(pane.lines[29], vec![plain("o: line 29")]);
}

#[test]
fn right_pane_shows_info_while_the_overlay_is_open() {
    let mut state = state_with(&["api"]);
    state.add_log("api", "api o: hello".to_string());
    match state.right_pane(80, 24) {
        Pane::Logs(pane) => assert_eq!(pane.lines, vec![vec![plain("o: hello")]]),
        Pane::Info(_) => panic!("the overlay is closed"),
    }
    state.open_info("ID: id-api\n".to_string());
    match state.right_pane(80, 24) {
        Pane::Info(text) => assert_eq!(text, "ID: id-api\n"),
        Pane::Logs(_) => panic!("the overlay is open"),
    }
}

#[test]
fn container_pane_width_follows_the_longest_name() {
    let empty = AppState::new(10);
    assert_eq!(empty.max_container_name_width(), 23);
    assert_eq!(empty.left_pane_width(120), 23);
    assert_eq!(empty.left_pane_width(60), 20);
    assert_eq!(empty.left_pane_width(0), 0);
    let state = state_with(&["short", "a-container-with-a-long-name"]);
    assert_eq!(state.max_container_name_width(), 31);
    assert_eq!(state.left_pane_width(200), 31);
    assert_eq!(state.left_pane_width(93), 31);
    assert_eq!(state.left_pane_width(92), 30);
    // The length counts bytes.
    let accents = state_with(&["ééééééééééééééé"]);
    assert_eq!(accents.max_container_name_width(), 33);
}

#[test]
fn rows_show_mark_color_and_focus() {
    let mut state = state_with(&["web", "db"]);
    assert_eq!(state.all_row(), AllRow { selected: true, focused: false });
    assert_eq!(
        state.rows(),
        vec![
            Row { selected: true, name: "db".to_string(), hue: Hue::BrightBlue, focused: true },
            Row { selected: true, name: "web".to_string(), hue: Hue::BrightGreen, focused: false },
        ]
    );
    state.toggle_selected();
    state.previous();
    assert_eq!(state.all_row(), AllRow { selected: false, focused: true });
    assert_eq!(
        state.rows(),
        vec![
            Row { selected: false, name: "db".to_string(), hue: Hue::BrightBlue, focused: false },
            Row { selected: true, name: "web".to_string(), hue: Hue::BrightGreen, focused: false },
        ]
    );
    assert_eq!(state.get_container_color("web"), Some(Hue::BrightGreen));
    assert_eq!(state.get_container_color("db"), Some(Hue::BrightBlue));
    assert_eq!(state.get_container_color("nobody"), None);
}
