use crate::tui::Key;
use vstd::prelude::*;

verus! {

/// The cursor of the flat inbox listing.  Unlike `lists::State`, this one
/// assumes a non-empty list once a selection exists, and selects the top
/// entry even of an empty list when stepped; its callers size it first.
#[derive(Clone, Copy, Debug, PartialEq, Eq, Structural)]
pub struct ItemListState {
    pub selected: Option<usize>,
    pub length: usize,
}

/// Where this cursor lands on a step down.
pub open spec fn flat_next_index(selected: Option<usize>, length: usize) -> usize {
    match selected {
        Some(i) => if i >= length - 1 {
            0usize
        } else {
            (i + 1) as usize
        },
        None => 0usize,
    }
}

/// Where this cursor lands on a step up.
pub open spec fn flat_previous_index(selected: Option<usize>, length: usize) -> usize {
    match selected {
        Some(i) => if i == 0 {
            (length - 1) as usize
        } else {
            (i - 1) as usize
        },
        None => 0usize,
    }
}

impl ItemListState {
    #[must_use]
    pub fn with_length(length: usize) -> (r: Self)
        ensures
            r == (ItemListState { selected: None, length }),
    {
        ItemListState { selected: None, length }
    }

    pub fn set_length(&mut self, length: usize)
        requires
            length > 0 || old(self).selected is None,
        ensures
            final(self).length == length,
            final(self).selected == (match old(self).selected {
                Some(i) => if i >= length {
                    Some((length - 1) as usize)
                } else {
                    Some(i)
                },
                None => None::<usize>,
            }),
    {
        self.length = length;
        let new_index = match self.selected {
            Some(index) => if index >= self.length {
                Some(self.length - 1)
            } else {
                Some(index)
            },
            None => None,
        };
        self.selected = new_index;
    }

    fn select_next(&mut self)
        requires
            old(self).length > 0 || old(self).selected is None,
        ensures
            *final(self) == (ItemListState {
                selected: Some(flat_next_index(old(self).selected, old(self).length)),
                length: old(self).length,
            }),
    {
        let next_index = match self.selected {
            Some(index) => if index >= self.length - 1 {
                0
            } else {
                index + 1
            },
            None => 0,
        };
        self.selected = Some(next_index);
    }

    fn select_previous(&mut self)
        requires
            old(self).length > 0 || old(self).selected is None,
        ensures
            *final(self) == (ItemListState {
                selected: Some(flat_previous_index(old(self).selected, old(self).length)),
                length: old(self).length,
            }),
    {
        let previous_index = match self.selected {
            Some(index) => if index == 0 {
                self.length - 1
            } else {
                index - 1
            },
            None => 0,
        };
        self.selected = Some(previous_index);
    }

    pub fn handle_key(&mut self, key: Key)
        requires
            old(self).length > 0 || old(self).selected is None,
        ensures
            final(self).length == old(self).length,
            final(self).selected == (match key {
                Key::Up => Some(flat_previous_index(old(self).selected, old(self).length)),
                Key::Down => Some(flat_next_index(old(self).selected, old(self).length)),
                _ => old(self).selected,
            }),
    {
        match key {
            Key::Up => self.select_previous(),
            Key::Down => self.select_next(),
            _ => {},
        }
    }

    #[must_use]
    pub fn selected_index(&self) -> (r: Option<usize>)
        ensures
            r == self.selected,
    {
        self.selected
    }
}

} // verus!
