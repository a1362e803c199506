use container_logs::filter::NameFilter;
use container_logs::input::{Command, Effect};
use container_logs::session::Session;
use container_logs::source::Stream;
use container_logs::state::Focus;

fn filter(pattern: &str) -> NameFilter {
    NameFilter::new(regex::Regex::new(pattern).unwrap())
}

fn names(session: &Session) -> Vec<String> {
    session.state().containers().iter().map(|c| c.name.clone()).collect()
}

#[test]
fn new_session_is_empty() {
    let session = Session::new(50);
    assert!(session.state().containers().is_empty());
    assert_eq!(session.state().max_logs(), 50);
    assert!(!session.is_watched("a"));
    assert!(session.has_room());
    assert!(!session.has_row("a"));
}

#[test]
fn seen_containers_get_one_log_source() {
    let mut session = Session::new(50);
    assert_eq!(session.on_seen("a"), Some(0));
    assert_eq!(session.on_seen("b"), Some(1));
    assert_eq!(session.on_seen("a"), None);
    assert!(session.is_watched("a"));
    assert!(session.is_watched("b"));
    assert!(session.state().containers().is_empty());
}

#[test]
fn only_matching_containers_attach() {
    let apps = filter("^app-");
    let mut session = Session::new(50);
    for (id, raw) in [("1", "/app-api"), ("2", "/app-db"), ("3", "/cache")] {
        assert!(session.on_seen(id).is_some());
        let name = session.on_inspected(id, Some(raw), &apps);
        assert_eq!(name.is_some(), raw != "/cache");
    }
    assert_eq!(names(&session), vec!["app-api".to_string(), "app-db".to_string()]);
    assert!(session.is_watched("1"));
    assert!(session.is_watched("2"));
    assert!(!session.is_watched("3"));
    assert!(session.has_row("1"));
    assert!(!session.has_row("3"));
}

#[test]
fn nameless_containers_do_not_attach() {
    let mut session = Session::new(50);
    assert!(session.on_seen("1").is_some());
    assert_eq!(session.on_inspected("1", None, &filter(".*")), None);
    assert!(!session.is_watched("1"));
    assert!(session.state().containers().is_empty());
}

#[test]
fn chunks_become_lines_of_their_container() {
    let all = filter(".*");
    let mut session = Session::new(50);
    session.on_seen("1");
    assert_eq!(session.on_inspected("1", Some("/web"), &all), Some("web".to_string()));
    session.on_chunk("web", Stream::StdOut, b"hello\n");
    session.on_chunk("web", Stream::StdErr, b"oops \n");
    assert_eq!(
        session.state().logs(),
        vec!["web o: hello".to_string(), "web e: oops".to_string()]
    );
    assert_eq!(
        session.state().container_logs("web"),
        Some(vec!["web o: hello".to_string(), "web e: oops".to_string()])
    );
}

#[test]
fn ended_streams_detach_their_container() {
    let all = filter(".*");
    let mut session = Session::new(50);
    session.on_seen("1");
    session.on_inspected("1", Some("/web"), &all);
    session.on_seen("2");
    session.on_inspected("2", Some("/db"), &all);
    session.on_chunk("web", Stream::StdOut, b"w");
    session.on_chunk("db", Stream::StdOut, b"d");
    session.on_ended("1");
    assert_eq!(names(&session), vec!["db".to_string()]);
    assert!(!session.is_watched("1"));
    assert!(session.is_watched("2"));
    assert_eq!(session.state().logs(), vec!["db o: d".to_string()]);
    // The container may come back.
    assert_eq!(session.on_seen("1"), Some(2));
}

#[test]
fn a_restarted_container_is_selected_again() {
    let all = filter(".*");
    let mut session = Session::new(50);
    session.on_seen("old");
    session.on_inspected("old", Some("/web"), &all);
    session.on_seen("db");
    session.on_inspected("db", Some("/db"), &all);
    session.on_seen("new");
    session.on_inspected("new", Some("/web"), &all);
    assert_eq!(session.on_command(Command::DeselectAll), Effect::Continue);
    session.on_ended("old");
    let marks: Vec<(String, bool)> =
        session.state().containers().iter().map(|c| (c.id.clone(), c.selected)).collect();
    assert_eq!(marks, vec![("db".to_string(), false), ("new".to_string(), true)]);
}

#[test]
fn commands_and_info_go_through_the_session() {
    let all = filter(".*");
    let mut session = Session::new(50);
    session.on_seen("1");
    session.on_inspected("1", Some("/web"), &all);
    assert_eq!(session.state().focus(), Focus::Row(0));
    assert_eq!(session.on_command(Command::Info), Effect::Inspect("1".to_string()));
    session.on_info("ID: 1\n".to_string());
    assert!(session.state().show_info());
    assert_eq!(session.state().info_text(), "ID: 1\n");
    assert_eq!(session.on_command(Command::Info), Effect::Continue);
    assert!(!session.state().show_info());
    assert_eq!(session.on_command(Command::Next), Effect::Continue);
    assert_eq!(session.state().focus(), Focus::All);
    assert_eq!(session.on_command(Command::Quit), Effect::Quit);
}

#[test]
fn patterns_compile_or_do_not() {
    assert!(NameFilter::compile("^app-").is_some());
    assert!(NameFilter::compile("").is_some());
    assert!(NameFilter::compile(".*").is_some());
    assert!(NameFilter::compile("foo(bar").is_none());
    assert!(NameFilter::compile("[a-").is_none());
    assert!(NameFilter::compile("*").is_none());
}

#[test]
fn compiled_filters_match_anywhere_in_the_name() {
    let apps = NameFilter::compile("^app-").unwrap();
    assert!(apps.accepts("app-api"));
    assert!(!apps.accepts("my-app-api"));
    assert!(!apps.accepts("cache"));
    let inner = NameFilter::compile("pp").unwrap();
    assert!(inner.accepts("app-api"));
    assert!(!inner.accepts("cache"));
}

#[test]
fn rejected_sources_give_their_claim_back() {
    let mut session = Session::new(50);
    assert_eq!(session.on_seen("a"), Some(0));
    session.on_rejected("a");
    assert!(!session.is_watched("a"));
    // The counter goes on all the same.
    assert_eq!(session.on_seen("a"), Some(1));
    // A container of the list keeps its log source.
    assert_eq!(session.on_inspected("a", Some("/web"), &filter(".*")), Some("web".to_string()));
    session.on_rejected("a");
    assert!(session.is_watched("a"));
    assert!(session.has_row("a"));
    session.on_rejected("nobody");
    assert!(!session.is_watched("nobody"));
}

#[test]
fn containers_without_a_log_source_are_not_taken_on() {
    let mut session = Session::new(50);
    assert_eq!(session.on_inspected("a", Some("/web"), &filter(".*")), None);
    assert!(session.state().containers().is_empty());
    assert!(!session.is_watched("a"));
    assert_eq!(session.on_seen("a"), Some(0));
    assert_eq!(session.on_inspected("a", Some("/web"), &filter(".*")), Some("web".to_string()));
    assert_eq!(names(&session), vec!["web".to_string()]);
    // A second report of the same container changes nothing.
    assert_eq!(session.on_inspected("a", Some("/web"), &filter(".*")), Some("web".to_string()));
    assert_eq!(names(&session), vec!["web".to_string()]);
    assert_eq!(session.state().color_counter(), 1);
}
