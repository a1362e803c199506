use container_logs::input::{command_for, Command, Effect, Key};
use container_logs::state::{AppState, Focus};

fn sample() -> AppState {
    let mut state = AppState::new(10);
    state.add_container("id-a".to_string(), "a".to_string());
    state.add_container("id-b".to_string(), "b".to_string());
    state.add_log("a", "a o: 1".to_string());
    state
}

#[test]
fn keys_are_bound_to_commands() {
    assert_eq!(command_for(Key::Char('q')), Command::Quit);
    assert_eq!(command_for(Key::Esc), Command::Quit);
    assert_eq!(command_for(Key::Up), Command::Previous);
    assert_eq!(command_for(Key::Char('k')), Command::Previous);
    assert_eq!(command_for(Key::Down), Command::Next);
    assert_eq!(command_for(Key::Char('j')), Command::Next);
    assert_eq!(command_for(Key::Char(' ')), Command::Toggle);
    assert_eq!(command_for(Key::Enter), Command::Toggle);
    assert_eq!(command_for(Key::Char('a')), Command::SelectAll);
    assert_eq!(command_for(Key::Char('n')), Command::DeselectAll);
    assert_eq!(command_for(Key::Char('i')), Command::Info);
}

#[test]
fn other_keys_are_ignored() {
    assert_eq!(command_for(Key::Other), Command::Ignore);
    assert_eq!(command_for(Key::Char('x')), Command::Ignore);
    assert_eq!(command_for(Key::Char('Q')), Command::Ignore);
    assert_eq!(command_for(Key::Char('A')), Command::Ignore);
    let mut state = sample();
    assert_eq!(state.handle(Command::Ignore), Effect::Continue);
    assert_eq!(state.focus(), Focus::Row(0));
    assert_eq!(state.logs(), vec!["a o: 1".to_string()]);
}

#[test]
fn quit_leaves_the_state_alone() {
    let mut state = sample();
    assert_eq!(state.handle(Command::Quit), Effect::Quit);
    assert_eq!(state.focus(), Focus::Row(0));
}

#[test]
fn movement_and_selection_commands_act_on_the_state() {
    let mut state = sample();
    assert_eq!(state.handle(Command::Next), Effect::Continue);
    assert_eq!(state.focus(), Focus::Row(1));
    assert_eq!(state.handle(Command::Previous), Effect::Continue);
    assert_eq!(state.focus(), Focus::Row(0));
    assert_eq!(state.handle(Command::Toggle), Effect::Continue);
    assert_eq!(state.selected_count(), 1);
    assert_eq!(state.logs(), Vec::<String>::new());
    assert_eq!(state.handle(Command::SelectAll), Effect::Continue);
    assert_eq!(state.selected_count(), 2);
    assert_eq!(state.handle(Command::DeselectAll), Effect::Continue);
    assert_eq!(state.selected_count(), 0);
}

#[test]
fn info_key_asks_for_the_focused_container() {
    let mut state = sample();
    assert_eq!(state.handle(Command::Info), Effect::Inspect("id-a".to_string()));
    assert!(!state.show_info());
    state.open_info("details".to_string());
    assert!(state.show_info());
    assert_eq!(state.handle(Command::Info), Effect::Continue);
    assert!(!state.show_info());
}

#[test]
fn info_key_does_nothing_on_the_all_row() {
    let mut state = sample();
    state.previous();
    assert_eq!(state.focus(), Focus::All);
    assert_eq!(state.handle(Command::Info), Effect::Continue);
    assert!(!state.show_info());
}
