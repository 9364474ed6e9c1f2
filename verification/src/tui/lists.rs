use crate::tui::Key;
use vstd::prelude::*;

verus! {

/// The cursor of one scrollable list: how many entries the list shows and
/// which of them is selected.
#[derive(Clone, Copy, Debug, PartialEq, Eq, Structural)]
pub struct State {
    pub selected: Option<usize>,
    pub length: usize,
}

/// Where the selection lands when the list is resized: it stays where it
/// was, moves up to the new last entry where the list shrank past it, and
/// goes away where the list is empty.
pub open spec fn clamped(selected: Option<usize>, length: usize) -> Option<usize> {
    match selected {
        Some(i) => if length == 0 {
            None
        } else if i >= length {
            Some((length - 1) as usize)
        } else {
            Some(i)
        },
        None => None,
    }
}

/// Where the selection lands on a step down: the next entry, wrapping to
/// the top past the last; the top where nothing was selected.  An empty
/// list leaves the selection alone.
pub open spec fn next_index(selected: Option<usize>, length: usize) -> Option<usize> {
    if length == 0 {
        selected
    } else {
        match selected {
            Some(i) => if i >= length - 1 {
                Some(0usize)
            } else {
                Some((i + 1) as usize)
            },
            None => Some(0usize),
        }
    }
}

/// Where the selection lands on a step up: the previous entry, wrapping to
/// the bottom past the first; the top where nothing was selected.  An empty
/// list leaves the selection alone.
pub open spec fn previous_index(selected: Option<usize>, length: usize) -> Option<usize> {
    if length == 0 {
        selected
    } else {
        match selected {
            Some(i) => if i == 0 {
                Some((length - 1) as usize)
            } else {
                Some((i - 1) as usize)
            },
            None => Some(0usize),
        }
    }
}

impl State {
    #[must_use]
    pub fn new(length: usize, selected: usize) -> (r: Self)
        ensures
            r == (State { selected: Some(selected), length }),
    {
        State { selected: Some(selected), length }
    }

    #[must_use]
    pub fn with_length(length: usize) -> (r: Self)
        ensures
            r == (State { selected: None, length }),
    {
        State { selected: None, length }
    }

    pub fn set_length(&mut self, length: usize)
        ensures
            *final(self) == (State { selected: clamped(old(self).selected, length), length }),
    {
        self.length = length;
        let new_index = match self.selected {
            Some(index) => if self.length == 0 {
                None
            } else if index >= self.length {
                Some(self.length - 1)
            } else {
                Some(index)
            },
            None => None,
        };
        self.selected = new_index;
    }

    fn select_next(&mut self)
        ensures
            *final(self) == (State {
                selected: next_index(old(self).selected, old(self).length),
                length: old(self).length,
            }),
    {
        if self.length == 0 {
            return ;
        }
        let next_index = match self.selected {
            Some(index) => if index >= self.length - 1 {
                0
            } else {
                index + 1
            },
            None => 0,
        };
        self.selected = Some(next_index);
    }

    fn select_previous(&mut self)
        ensures
            *final(self) == (State {
                selected: previous_index(old(self).selected, old(self).length),
                length: old(self).length,
            }),
    {
        if self.length == 0 {
            return ;
        }
        let previous_index = match self.selected {
            Some(index) => if index == 0 {
                self.length - 1
            } else {
                index - 1
            },
            None => 0,
        };
        self.selected = Some(previous_index);
    }

    pub fn handle_key(&mut self, key: Key)
        ensures
            *final(self) == (State {
                selected: match key {
                    Key::Up => previous_index(old(self).selected, old(self).length),
                    Key::Down => next_index(old(self).selected, old(self).length),
                    _ => old(self).selected,
                },
                length: old(self).length,
            }),
    {
        match key {
            Key::Up => self.select_previous(),
            Key::Down => self.select_next(),
            _ => {},
        }
    }

    #[must_use]
    pub fn selected_index(&self) -> (r: Option<usize>)
        ensures
            r == self.selected,
    {
        self.selected
    }
}

} // verus!
