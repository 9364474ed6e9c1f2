use crate::model::due_date::Due;
use crate::model::fresh_uuid_string;
use crate::model::project;
use crate::model::section;
use vstd::prelude::*;

verus! {

/// An id for an item, which is really just `String`.
#[derive(Debug, Eq, Hash)]
pub struct Id(pub String);

impl View for Id {
    type V = Seq<char>;

    open spec fn view(&self) -> Seq<char> {
        self.0@
    }
}

impl Clone for Id {
    fn clone(&self) -> (r: Self)
        ensures
            r == *self,
    {
        Id(self.0.clone())
    }
}

impl PartialEq for Id {
    fn eq(&self, other: &Self) -> (r: bool) {
        self.0 == other.0
    }
}

impl vstd::std_specs::cmp::PartialEqSpecImpl for Id {
    open spec fn obeys_eq_spec() -> bool {
        true
    }

    open spec fn eq_spec(&self, other: &Self) -> bool {
        self@ == other@
    }
}

impl Default for Id {
    fn default() -> (r: Self)
        ensures
            r@ == Seq::<char>::empty(),
    {
        Id(String::new())
    }
}

impl From<String> for Id {
    fn from(value: String) -> (r: Self) {
        Id(value)
    }
}

impl vstd::std_specs::convert::FromSpecImpl<String> for Id {
    open spec fn obeys_from_spec() -> bool {
        true
    }

    open spec fn from_spec(v: String) -> Self {
        Id(v)
    }
}

impl From<&str> for Id {
    fn from(value: &str) -> (r: Self) {
        Id(value.to_owned())
    }
}

impl vstd::std_specs::convert::FromSpecImpl<&str> for Id {
    open spec fn obeys_from_spec() -> bool {
        false
    }

    open spec fn from_spec(v: &str) -> Self {
        Id(vstd::pervasive::arbitrary())
    }
}

impl From<&Id> for Id {
    fn from(value: &Id) -> (r: Self) {
        Id(value.0.clone())
    }
}

impl vstd::std_specs::convert::FromSpecImpl<&Id> for Id {
    open spec fn obeys_from_spec() -> bool {
        true
    }

    open spec fn from_spec(v: &Id) -> Self {
        *v
    }
}

/// A single task of the list.
#[derive(Debug)]
pub struct Item {
    pub id: Id,
    pub project_id: project::Id,
    pub content: String,
    pub checked: bool,
    pub due: Option<Due>,
    pub parent_id: Option<Id>,
    pub child_order: i32,
    pub section_id: Option<section::Id>,
    pub collapsed: bool,
}

impl Clone for Item {
    fn clone(&self) -> (r: Self)
        ensures
            r == *self,
    {
        Item {
            id: self.id.clone(),
            project_id: self.project_id.clone(),
            content: self.content.clone(),
            checked: self.checked,
            due: self.due,
            parent_id: match &self.parent_id {
                Some(p) => Some(p.clone()),
                None => None,
            },
            child_order: self.child_order,
            section_id: match &self.section_id {
                Some(s) => Some(s.clone()),
                None => None,
            },
            collapsed: self.collapsed,
        }
    }
}

impl PartialEq for Item {
    fn eq(&self, other: &Self) -> (r: bool) {
        self.id == other.id && self.project_id == other.project_id && self.content == other.content
            && self.checked == other.checked && (match (&self.due, &other.due) {
            (Some(a), Some(b)) => *a == *b,
            (None, None) => true,
            _ => false,
        }) && (match (&self.parent_id, &other.parent_id) {
            (Some(a), Some(b)) => *a == *b,
            (None, None) => true,
            _ => false,
        }) && self.child_order == other.child_order && (match (&self.section_id, &other.section_id) {
            (Some(a), Some(b)) => *a == *b,
            (None, None) => true,
            _ => false,
        }) && self.collapsed == other.collapsed
    }
}

impl vstd::std_specs::cmp::PartialEqSpecImpl for Item {
    open spec fn obeys_eq_spec() -> bool {
        true
    }

    open spec fn eq_spec(&self, other: &Self) -> bool {
        &&& self.id@ == other.id@
        &&& self.project_id@ == other.project_id@
        &&& self.content@ == other.content@
        &&& self.checked == other.checked
        &&& self.due == other.due
        &&& (match (self.parent_id, other.parent_id) {
            (Some(a), Some(b)) => a@ == b@,
            (None, None) => true,
            _ => false,
        })
        &&& self.child_order == other.child_order
        &&& (match (self.section_id, other.section_id) {
            (Some(a), Some(b)) => a@ == b@,
            (None, None) => true,
            _ => false,
        })
        &&& self.collapsed == other.collapsed
    }
}

impl Default for Item {
    fn default() -> (r: Self)
        ensures
            r.content@ == Seq::<char>::empty(),
            !r.checked,
            r.due is None,
            r.parent_id is None,
            r.child_order == 0,
            r.section_id is None,
            !r.collapsed,
    {
        Item {
            id: Id(fresh_uuid_string()),
            project_id: project::Id(fresh_uuid_string()),
            content: String::new(),
            checked: false,
            due: None,
            parent_id: None,
            child_order: 0,
            section_id: None,
            collapsed: false,
        }
    }
}

impl Item {
    /// Creates a new item with the given content and project id. Creates a random ID using `UUIDv4`.
    pub fn new(content: &str, project_id: project::Id) -> (r: Self)
        ensures
            r.content@ == content@,
            r.project_id == project_id,
            !r.checked,
            r.due is None,
            r.parent_id is None,
            r.child_order == 0,
            r.section_id is None,
            !r.collapsed,
    {
        Item { content: content.to_owned(), project_id: project_id, ..Default::default() }
    }

    #[must_use]
    pub fn checked(self, checked: bool) -> (r: Self)
        ensures
            r == (Item { checked: checked, ..self }),
    {
        Item { checked: checked, ..self }
    }

    #[must_use]
    pub fn due(self, due: Option<Due>) -> (r: Self)
        ensures
            r == (Item { due: due, ..self }),
    {
        Item { due: due, ..self }
    }

    #[must_use]
    pub fn parent_id(self, parent_id: Id) -> (r: Self)
        ensures
            r == (Item { parent_id: Some(parent_id), ..self }),
    {
        Item { parent_id: Some(parent_id), ..self }
    }

    #[must_use]
    pub fn child_order(self, child_order: i32) -> (r: Self)
        ensures
            r == (Item { child_order: child_order, ..self }),
    {
        Item { child_order: child_order, ..self }
    }

    #[must_use]
    pub fn section_id(self, section_id: section::Id) -> (r: Self)
        ensures
            r == (Item { section_id: Some(section_id), ..self }),
    {
        Item { section_id: Some(section_id), ..self }
    }

    pub fn mark_complete(&mut self, complete: bool)
        ensures
            *final(self) == (Item { checked: complete, ..*old(self) }),
    {
        self.checked = complete;
    }
}

} // verus!
