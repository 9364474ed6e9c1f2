use crate::tui::app_state::Mode;
use vstd::prelude::*;

verus! {

/// One entry of the hint bar: the key to press and what it does.
#[derive(Debug)]
pub struct KeyHint {
    pub key: String,
    pub action: String,
}

impl KeyHint {
    fn new(key: &str, action: &str) -> (r: Self)
        ensures
            r.key@ == key@,
            r.action@ == action@,
    {
        KeyHint { key: key.to_owned(), action: action.to_owned() }
    }

    /// The hints the bar shows in each mode.
    #[must_use]
    pub fn from_mode(mode: &Mode) -> (r: Vec<KeyHint>)
        ensures
            match mode {
                Mode::AddingItem => {
                    &&& r@.len() == 2
                    &&& r@[0].key@ == "enter"@ && r@[0].action@ == "add todo"@
                    &&& r@[1].key@ == "escape"@ && r@[1].action@ == "cancel"@
                },
                Mode::SelectingItems => {
                    &&& r@.len() == 5
                    &&& r@[0].key@ == "q"@ && r@[0].action@ == "quit"@
                    &&& r@[1].key@ == "a"@ && r@[1].action@ == "new todo"@
                    &&& r@[2].key@ == "\u{2191}\u{2193}"@ && r@[2].action@ == "select"@
                    &&& r@[3].key@ == "space"@ && r@[3].action@ == "mark complete"@
                    &&& r@[4].key@ == "tab"@ && r@[4].action@ == "change focus"@
                },
                Mode::SelectingProjects => {
                    &&& r@.len() == 4
                    &&& r@[0].key@ == "q"@ && r@[0].action@ == "quit"@
                    &&& r@[1].key@ == "a"@ && r@[1].action@ == "new todo"@
                    &&& r@[2].key@ == "\u{2191}\u{2193}"@ && r@[2].action@ == "select"@
                    &&& r@[3].key@ == "tab"@ && r@[3].action@ == "change focus"@
                },
                Mode::Exiting => r@.len() == 0,
            },
    {
        let mut r: Vec<KeyHint> = Vec::new();
        match mode {
            Mode::AddingItem => {
                r.push(KeyHint::new("enter", "add todo"));
                r.push(KeyHint::new("escape", "cancel"));
            },
            Mode::SelectingItems => {
                r.push(KeyHint::new("q", "quit"));
                r.push(KeyHint::new("a", "new todo"));
                r.push(KeyHint::new("\u{2191}\u{2193}", "select"));
                r.push(KeyHint::new("space", "mark complete"));
                r.push(KeyHint::new("tab", "change focus"));
            },
            Mode::SelectingProjects => {
                r.push(KeyHint::new("q", "quit"));
                r.push(KeyHint::new("a", "new todo"));
                r.push(KeyHint::new("\u{2191}\u{2193}", "select"));
                r.push(KeyHint::new("tab", "change focus"));
            },
            Mode::Exiting => {},
        }
        r
    }
}

} // verus!
