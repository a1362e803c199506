use container_logs::state::{AppState, Focus};

fn names(state: &AppState) -> Vec<String> {
    state.containers().iter().map(|c| c.name.clone()).collect()
}

fn ids(state: &AppState) -> Vec<String> {
    state.containers().iter().map(|c| c.id.clone()).collect()
}

fn marks(state: &AppState) -> Vec<bool> {
    state.containers().iter().map(|c| c.selected).collect()
}

fn lines(items: &[&str]) -> Vec<String> {
    items.iter().map(|s| s.to_string()).collect()
}

fn two_containers() -> AppState {
    let mut state = AppState::new(100);
    state.add_container("id-web".to_string(), "web".to_string());
    state.add_container("id-db".to_string(), "db".to_string());
    state.add_log("web", "web o: W1".to_string());
    state.add_log("db", "db o: D1".to_string());
    state.add_log("web", "web o: W2".to_string());
    state
}

#[test]
fn new_state_is_empty_and_focused_on_all() {
    let state = AppState::new(5);
    assert!(state.containers().is_empty());
    assert_eq!(state.focus(), Focus::All);
    assert!(state.select_all_focused());
    assert_eq!(state.logs(), Vec::<String>::new());
    assert_eq!(state.log_count(), 0);
    assert_eq!(state.max_logs(), 5);
    assert_eq!(state.color_counter(), 0);
    assert!(!state.show_info());
    assert_eq!(state.info_text(), "");
    assert_eq!(state.selected_count(), 0);
    assert!(state.all_selected());
}

#[test]
fn merged_buffer_follows_selection() {
    let mut state = two_containers();
    assert_eq!(names(&state), lines(&["db", "web"]));
    assert_eq!(state.logs(), lines(&["web o: W1", "db o: D1", "web o: W2"]));

    // The first container took the focus; `web` is the second row.
    assert_eq!(state.focus(), Focus::Row(0));
    state.next();
    assert_eq!(state.focus(), Focus::Row(1));
    state.toggle_selected();
    assert_eq!(marks(&state), vec![true, false]);
    assert_eq!(state.logs(), lines(&["db o: D1"]));

    // Select it again: the buffer is rebuilt container by container, in list order.
    state.toggle_selected();
    assert_eq!(marks(&state), vec![true, true]);
    assert_eq!(state.logs(), lines(&["db o: D1", "web o: W1", "web o: W2"]));
}

#[test]
fn buffers_keep_the_last_lines() {
    let mut state = AppState::new(3);
    state.add_container("c1".to_string(), "app".to_string());
    for i in 1..=5 {
        state.add_log("app", format!("L{}", i));
    }
    assert_eq!(state.container_logs("app"), Some(lines(&["L3", "L4", "L5"])));
    assert_eq!(state.logs(), lines(&["L3", "L4", "L5"]));
    assert_eq!(state.log_at(0), "L3");
    assert_eq!(state.log_count(), 3);
}

#[test]
fn zero_capacity_keeps_nothing() {
    let mut state = AppState::new(0);
    state.add_container("c1".to_string(), "app".to_string());
    state.add_log("app", "one".to_string());
    assert_eq!(state.container_logs("app"), Some(Vec::<String>::new()));
    assert_eq!(state.logs(), Vec::<String>::new());
}

#[test]
fn rebuild_keeps_the_tail_across_containers() {
    let mut state = AppState::new(3);
    state.add_container("a".to_string(), "a".to_string());
    state.add_container("b".to_string(), "b".to_string());
    state.add_log("a", "A1".to_string());
    state.add_log("a", "A2".to_string());
    state.add_log("b", "B1".to_string());
    state.add_log("b", "B2".to_string());
    assert_eq!(state.logs(), lines(&["A2", "B1", "B2"]));
    state.update_displayed_logs();
    assert_eq!(state.logs(), lines(&["A2", "B1", "B2"]));
    state.deselect_all();
    assert_eq!(state.logs(), Vec::<String>::new());
    state.select_all();
    assert_eq!(state.logs(), lines(&["A2", "B1", "B2"]));
}

#[test]
fn list_is_sorted_by_name_and_stable() {
    let mut state = AppState::new(10);
    state.add_container("3".to_string(), "web".to_string());
    state.add_container("1".to_string(), "cache".to_string());
    state.add_container("2".to_string(), "db".to_string());
    state.add_container("4".to_string(), "db".to_string());
    state.add_container("5".to_string(), "Web".to_string());
    assert_eq!(names(&state), lines(&["Web", "cache", "db", "db", "web"]));
    assert_eq!(ids(&state), lines(&["5", "1", "2", "4", "3"]));
}

#[test]
fn color_indices_count_up() {
    let mut state = AppState::new(10);
    state.add_container("x".to_string(), "zeta".to_string());
    state.add_container("y".to_string(), "alpha".to_string());
    state.add_container("z".to_string(), "mid".to_string());
    let colors: Vec<usize> = state.containers().iter().map(|c| c.color_index).collect();
    assert_eq!(names(&state), lines(&["alpha", "mid", "zeta"]));
    assert_eq!(colors, vec![1, 2, 0]);
    assert_eq!(state.color_counter(), 3);
    state.remove_container("y");
    state.add_container("w".to_string(), "alpha".to_string());
    let colors: Vec<usize> = state.containers().iter().map(|c| c.color_index).collect();
    assert_eq!(colors, vec![3, 2, 0]);
}

#[test]
fn add_container_twice_changes_nothing() {
    let mut state = two_containers();
    let before_names = names(&state);
    let before_logs = state.logs();
    let counter = state.color_counter();
    state.add_container("id-web".to_string(), "web".to_string());
    assert_eq!(names(&state), before_names);
    assert_eq!(state.logs(), before_logs);
    assert_eq!(state.color_counter(), counter);
    // The id decides, not the name.
    state.add_container("id-web".to_string(), "other".to_string());
    assert_eq!(names(&state), before_names);
}

#[test]
fn first_container_takes_the_focus() {
    let mut state = AppState::new(10);
    state.add_container("a".to_string(), "a".to_string());
    assert_eq!(state.focus(), Focus::Row(0));
    assert!(!state.select_all_focused());
    state.add_container("b".to_string(), "b".to_string());
    assert_eq!(state.focus(), Focus::Row(0));
}

#[test]
fn next_goes_round_through_all() {
    let mut state = two_containers();
    state.previous();
    assert_eq!(state.focus(), Focus::All);
    state.next();
    assert_eq!(state.focus(), Focus::Row(0));
    state.next();
    assert_eq!(state.focus(), Focus::Row(1));
    state.next();
    assert_eq!(state.focus(), Focus::All);
}

#[test]
fn previous_goes_round_through_all() {
    let mut state = two_containers();
    state.previous();
    assert_eq!(state.focus(), Focus::All);
    state.previous();
    assert_eq!(state.focus(), Focus::Row(1));
    state.previous();
    assert_eq!(state.focus(), Focus::Row(0));
    state.previous();
    assert_eq!(state.focus(), Focus::All);
}

#[test]
fn focus_stays_on_all_without_containers() {
    let mut state = AppState::new(10);
    state.next();
    assert_eq!(state.focus(), Focus::All);
    state.previous();
    assert_eq!(state.focus(), Focus::All);
}

#[test]
fn toggle_on_all_selects_or_deselects_everything() {
    let mut state = two_containers();
    state.previous();
    assert_eq!(state.focus(), Focus::All);
    state.toggle_selected();
    assert_eq!(marks(&state), vec![false, false]);
    assert_eq!(state.selected_count(), 0);
    assert_eq!(state.logs(), Vec::<String>::new());
    state.toggle_selected();
    assert_eq!(marks(&state), vec![true, true]);
    assert_eq!(state.selected_count(), 2);
    state.next();
    state.toggle_selected();
    assert_eq!(marks(&state), vec![false, true]);
    state.previous();
    state.toggle_selected();
    assert_eq!(marks(&state), vec![true, true]);
}

#[test]
fn select_all_twice_is_select_all_once() {
    let mut state = two_containers();
    state.next();
    state.toggle_selected();
    state.select_all();
    let once = state.logs();
    state.select_all();
    assert_eq!(state.logs(), once);
    assert_eq!(once, lines(&["db o: D1", "web o: W1", "web o: W2"]));
}

#[test]
fn toggle_twice_restores_a_rebuilt_buffer() {
    let mut state = two_containers();
    state.select_all();
    let before = state.logs();
    state.toggle_selected();
    assert_ne!(state.logs(), before);
    state.toggle_selected();
    assert_eq!(state.logs(), before);
}

#[test]
fn lines_of_deselected_containers_stay_out_of_the_merged_buffer() {
    let mut state = two_containers();
    state.toggle_selected();
    assert_eq!(marks(&state), vec![false, true]);
    assert!(!state.is_container_selected("db"));
    assert!(state.is_container_selected("web"));
    assert!(!state.is_container_selected("nobody"));
    state.add_log("db", "db o: D2".to_string());
    state.add_log("web", "web o: W3".to_string());
    assert_eq!(state.logs(), lines(&["web o: W1", "web o: W2", "web o: W3"]));
    assert_eq!(state.container_logs("db"), Some(lines(&["db o: D1", "db o: D2"])));
}

#[test]
fn a_line_for_an_unknown_name_is_buffered_only() {
    let mut state = two_containers();
    state.add_log("ghost", "ghost o: boo".to_string());
    assert_eq!(state.container_logs("ghost"), Some(lines(&["ghost o: boo"])));
    assert_eq!(state.logs(), lines(&["web o: W1", "db o: D1", "web o: W2"]));
    assert_eq!(state.container_logs("nothing"), None);
}

#[test]
fn removing_a_container_drops_its_buffer_and_selects_all() {
    let mut state = two_containers();
    state.toggle_selected();
    assert_eq!(marks(&state), vec![false, true]);
    state.remove_container("id-web");
    assert_eq!(names(&state), lines(&["db"]));
    assert_eq!(marks(&state), vec![true]);
    assert_eq!(state.container_logs("web"), None);
    assert_eq!(state.logs(), lines(&["db o: D1"]));
}

#[test]
fn a_container_of_the_same_name_becomes_selected() {
    let mut state = AppState::new(100);
    state.add_container("old".to_string(), "web".to_string());
    state.add_container("db".to_string(), "db".to_string());
    state.add_container("new".to_string(), "web".to_string());
    assert_eq!(ids(&state), lines(&["db", "old", "new"]));
    state.deselect_all();
    assert_eq!(marks(&state), vec![false, false, false]);
    state.remove_container("old");
    assert_eq!(ids(&state), lines(&["db", "new"]));
    assert_eq!(marks(&state), vec![false, true]);
}

#[test]
fn removing_clamps_the_focus() {
    let mut state = two_containers();
    state.next();
    assert_eq!(state.focus(), Focus::Row(1));
    state.remove_container("id-db");
    assert_eq!(state.focus(), Focus::Row(0));
    state.remove_container("id-web");
    assert_eq!(state.focus(), Focus::All);
    assert!(state.containers().is_empty());
    assert_eq!(state.logs(), Vec::<String>::new());
}

#[test]
fn removing_an_unknown_id_only_rebuilds() {
    let mut state = two_containers();
    state.remove_container("nobody");
    assert_eq!(names(&state), lines(&["db", "web"]));
    assert_eq!(state.logs(), lines(&["db o: D1", "web o: W1", "web o: W2"]));
}

#[test]
fn info_overlay_opens_and_closes() {
    let mut state = two_containers();
    assert_eq!(state.focused_id(), Some("id-db".to_string()));
    state.open_info("ID: id-db\n".to_string());
    assert!(state.show_info());
    assert_eq!(state.info_text(), "ID: id-db\n");
    state.close_info();
    assert!(!state.show_info());
    assert_eq!(state.info_text(), "ID: id-db\n");
    state.previous();
    assert_eq!(state.focused_id(), None);
}
