use crate::tui::lists;
use crate::tui::lists::State;
use crate::tui::Key;
use vstd::prelude::*;

verus! {

/// What part of the screen the keyboard drives.
#[derive(Clone, Copy, Debug, PartialEq, Eq, Structural)]
pub enum Mode {
    AddingItem,
    SelectingItems,
    SelectingProjects,
    Exiting,
}

/// What the binary must do after a keypress, beyond the state change the
/// library already made: nothing, complete the item selected at the given
/// listing position, commit the text of the input bar as a new task, clear
/// the input bar, or hand the raw event to the input bar.
#[derive(Clone, Copy, Debug, PartialEq, Eq, Structural)]
pub enum Action {
    Nothing,
    CompleteSelected(usize),
    SubmitNewItem,
    ClearInput,
    ForwardInput,
}

/// The keyboard-facing state of the whole screen: the mode, the project
/// pane cursor, and the item pane cursor.
#[derive(Clone, Copy, Debug, PartialEq, Eq, Structural)]
pub struct AppState {
    pub mode: Mode,
    pub projects: State,
    pub items: State,
}

/// The item pane cursor after the item collection changed under it: sized
/// again by the next frame.
pub open spec fn reset_items(s: AppState) -> AppState {
    AppState { items: State { selected: None, length: 0 }, ..s }
}

/// The state after one keypress.
pub open spec fn stepped(prior: AppState, key: Key) -> AppState {
    match prior.mode {
        Mode::SelectingItems => match key {
            Key::Char('a') => AppState { mode: Mode::AddingItem, ..prior },
            Key::Char('q') => AppState { mode: Mode::Exiting, ..prior },
            Key::Tab => AppState { mode: Mode::SelectingProjects, ..prior },
            Key::Char(' ') => if prior.items.selected is Some {
                reset_items(prior)
            } else {
                prior
            },
            _ => AppState {
                items: State {
                    selected: match key {
                        Key::Up => lists::previous_index(
                            prior.items.selected,
                            prior.items.length,
                        ),
                        Key::Down => lists::next_index(prior.items.selected, prior.items.length),
                        _ => prior.items.selected,
                    },
                    length: prior.items.length,
                },
                ..prior
            },
        },
        Mode::SelectingProjects => reset_items(
            match key {
                Key::Char('a') => AppState { mode: Mode::AddingItem, ..prior },
                Key::Char('q') => AppState { mode: Mode::Exiting, ..prior },
                Key::Tab => AppState { mode: Mode::SelectingItems, ..prior },
                _ => AppState {
                    projects: State {
                        selected: match key {
                            Key::Up => lists::previous_index(
                                prior.projects.selected,
                                prior.projects.length,
                            ),
                            Key::Down => lists::next_index(
                                prior.projects.selected,
                                prior.projects.length,
                            ),
                            _ => prior.projects.selected,
                        },
                        length: prior.projects.length,
                    },
                    ..prior
                },
            },
        ),
        Mode::AddingItem => match key {
            Key::Esc => AppState { mode: Mode::SelectingItems, ..prior },
            Key::Enter => reset_items(AppState { mode: Mode::SelectingItems, ..prior }),
            _ => prior,
        },
        Mode::Exiting => prior,
    }
}

/// The action one keypress asks of the binary.
pub open spec fn step_action(prior: AppState, key: Key) -> Action {
    match prior.mode {
        Mode::SelectingItems => match key {
            Key::Char(' ') => match prior.items.selected {
                Some(i) => Action::CompleteSelected(i),
                None => Action::Nothing,
            },
            _ => Action::Nothing,
        },
        Mode::SelectingProjects => Action::Nothing,
        Mode::AddingItem => match key {
            Key::Esc => Action::ClearInput,
            Key::Enter => Action::SubmitNewItem,
            _ => Action::ForwardInput,
        },
        Mode::Exiting => Action::Nothing,
    }
}

impl AppState {
    /// Reacts to one keypress: moves the screen state and says what outside
    /// work the keypress asks for.
    pub fn handle_key(&mut self, key: Key) -> (a: Action)
        ensures
            *final(self) == stepped(*old(self), key),
            a == step_action(*old(self), key),
    {
        match self.mode {
            Mode::SelectingItems => match key {
                Key::Char('a') => {
                    self.mode = Mode::AddingItem;
                    Action::Nothing
                },
                Key::Char('q') => {
                    self.mode = Mode::Exiting;
                    Action::Nothing
                },
                Key::Tab => {
                    self.mode = Mode::SelectingProjects;
                    Action::Nothing
                },
                Key::Char(' ') => {
                    match self.items.selected_index() {
                        Some(i) => {
                            self.update_state();
                            Action::CompleteSelected(i)
                        },
                        None => Action::Nothing,
                    }
                },
                _ => {
                    self.items.handle_key(key);
                    Action::Nothing
                },
            },
            Mode::SelectingProjects => {
                match key {
                    Key::Char('a') => {
                        self.mode = Mode::AddingItem;
                    },
                    Key::Char('q') => {
                        self.mode = Mode::Exiting;
                    },
                    Key::Tab => {
                        self.mode = Mode::SelectingItems;
                    },
                    _ => {
                        self.projects.handle_key(key);
                    },
                }
                self.update_state();
                Action::Nothing
            },
            Mode::AddingItem => match key {
                Key::Esc => {
                    self.mode = Mode::SelectingItems;
                    Action::ClearInput
                },
                Key::Enter => {
                    self.mode = Mode::SelectingItems;
                    self.update_state();
                    Action::SubmitNewItem
                },
                _ => Action::ForwardInput,
            },
            Mode::Exiting => Action::Nothing,
        }
    }

    /// Forgets the item pane cursor after the item collection changed under
    /// it; the next frame sizes it again.
    pub fn update_state(&mut self)
        ensures
            *final(self) == reset_items(*old(self)),
    {
        self.items = State::with_length(0);
    }
}

} // verus!
