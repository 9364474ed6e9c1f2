use todoist_tui::tui::app_state::{Action, AppState, Mode};
use todoist_tui::tui::item_list::ItemListState;
use todoist_tui::tui::key_hints::KeyHint;
use todoist_tui::tui::lists::State;
use todoist_tui::tui::Key;

#[test]
fn list_cursor_steps_and_wraps() {
    let mut state = State::with_length(3);
    assert_eq!(state.selected_index(), None);
    state.handle_key(Key::Down);
    assert_eq!(state.selected_index(), Some(0));
    state.handle_key(Key::Down);
    assert_eq!(state.selected_index(), Some(1));
    state.handle_key(Key::Up);
    assert_eq!(state.selected_index(), Some(0));
    state.handle_key(Key::Up);
    assert_eq!(state.selected_index(), Some(2));
    state.handle_key(Key::Down);
    assert_eq!(state.selected_index(), Some(0));
}

#[test]
fn list_cursor_ignores_an_empty_list() {
    let mut state = State::with_length(0);
    state.handle_key(Key::Down);
    assert_eq!(state.selected_index(), None);
}

#[test]
fn list_cursor_clamps_when_the_list_shrinks() {
    let mut state = State::new(5, 4);
    state.set_length(2);
    assert_eq!(state.selected_index(), Some(1));
    state.set_length(0);
    assert_eq!(state.selected_index(), None);
}

#[test]
fn flat_cursor_steps_and_wraps() {
    let mut state = ItemListState::with_length(2);
    state.handle_key(Key::Down);
    assert_eq!(state.selected_index(), Some(0));
    state.handle_key(Key::Up);
    assert_eq!(state.selected_index(), Some(1));
    state.set_length(1);
    assert_eq!(state.selected_index(), Some(0));
}

#[test]
fn keys_move_between_modes() {
    let mut app = AppState {
        mode: Mode::SelectingItems,
        projects: State::with_length(1),
        items: State::with_length(2),
    };

    assert_eq!(app.handle_key(Key::Char('a')), Action::Nothing);
    assert_eq!(app.mode, Mode::AddingItem);

    assert_eq!(app.handle_key(Key::Esc), Action::ClearInput);
    assert_eq!(app.mode, Mode::SelectingItems);

    assert_eq!(app.handle_key(Key::Tab), Action::Nothing);
    assert_eq!(app.mode, Mode::SelectingProjects);

    assert_eq!(app.handle_key(Key::Tab), Action::Nothing);
    assert_eq!(app.mode, Mode::SelectingItems);

    assert_eq!(app.handle_key(Key::Char('q')), Action::Nothing);
    assert_eq!(app.mode, Mode::Exiting);
}

#[test]
fn space_asks_to_complete_the_selected_item() {
    let mut app = AppState {
        mode: Mode::SelectingItems,
        projects: State::with_length(1),
        items: State::with_length(2),
    };
    assert_eq!(app.handle_key(Key::Char(' ')), Action::Nothing);
    app.handle_key(Key::Down);
    app.handle_key(Key::Down);
    assert_eq!(app.items.selected_index(), Some(1));
    assert_eq!(app.handle_key(Key::Char(' ')), Action::CompleteSelected(1));
    assert_eq!(app.items.selected_index(), None);
}

#[test]
fn enter_submits_the_input_bar() {
    let mut app = AppState {
        mode: Mode::AddingItem,
        projects: State::with_length(1),
        items: State::with_length(2),
    };
    assert_eq!(app.handle_key(Key::Char('x')), Action::ForwardInput);
    assert_eq!(app.mode, Mode::AddingItem);
    assert_eq!(app.handle_key(Key::Enter), Action::SubmitNewItem);
    assert_eq!(app.mode, Mode::SelectingItems);
}

#[test]
fn key_hints_follow_the_mode() {
    let hints = KeyHint::from_mode(&Mode::SelectingItems);
    assert_eq!(hints.len(), 5);
    assert_eq!(hints[0].key, "q");
    assert_eq!(hints[0].action, "quit");
    assert_eq!(hints[3].key, "space");
    assert_eq!(hints[3].action, "mark complete");

    let hints = KeyHint::from_mode(&Mode::AddingItem);
    assert_eq!(hints.len(), 2);
    assert_eq!(hints[0].key, "enter");
    assert_eq!(hints[0].action, "add todo");
    assert_eq!(hints[1].key, "escape");
    assert_eq!(hints[1].action, "cancel");

    assert!(KeyHint::from_mode(&Mode::Exiting).is_empty());
}
