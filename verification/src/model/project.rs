use crate::model::fresh_uuid_string;
use vstd::prelude::*;

verus! {

/// An id for a project, which is really just `String`.
#[derive(Debug, Eq, Hash)]
pub struct Id(pub String);

impl View for Id {
    type V = Seq<char>;

    open spec fn view(&self) -> Seq<char> {
        self.0@
    }
}

impl Clone for Id {
    fn clone(&self) -> (r: Self)
        ensures
            r == *self,
    {
        Id(self.0.clone())
    }
}

impl PartialEq for Id {
    fn eq(&self, other: &Self) -> (r: bool) {
        self.0 == other.0
    }
}

impl vstd::std_specs::cmp::PartialEqSpecImpl for Id {
    open spec fn obeys_eq_spec() -> bool {
        true
    }

    open spec fn eq_spec(&self, other: &Self) -> bool {
        self@ == other@
    }
}

impl Default for Id {
    fn default() -> (r: Self)
        ensures
            r@ == Seq::<char>::empty(),
    {
        Id(String::new())
    }
}

impl From<String> for Id {
    fn from(value: String) -> (r: Self) {
        Id(value)
    }
}

impl vstd::std_specs::convert::FromSpecImpl<String> for Id {
    open spec fn obeys_from_spec() -> bool {
        true
    }

    open spec fn from_spec(v: String) -> Self {
        Id(v)
    }
}

impl From<&str> for Id {
    fn from(value: &str) -> (r: Self) {
        Id(value.to_owned())
    }
}

impl vstd::std_specs::convert::FromSpecImpl<&str> for Id {
    open spec fn obeys_from_spec() -> bool {
        false
    }

    open spec fn from_spec(v: &str) -> Self {
        Id(vstd::pervasive::arbitrary())
    }
}

impl From<&Id> for Id {
    fn from(value: &Id) -> (r: Self) {
        Id(value.0.clone())
    }
}

impl vstd::std_specs::convert::FromSpecImpl<&Id> for Id {
    open spec fn obeys_from_spec() -> bool {
        true
    }

    open spec fn from_spec(v: &Id) -> Self {
        *v
    }
}

/// Represents a todoist project.
#[derive(Debug)]
pub struct Project {
    pub id: Id,
    pub name: String,
    pub parent_id: Option<Id>,
    pub child_order: i32,
    pub collapsed: bool,
}

impl Clone for Project {
    fn clone(&self) -> (r: Self)
        ensures
            r == *self,
    {
        Project {
            id: self.id.clone(),
            name: self.name.clone(),
            parent_id: match &self.parent_id {
                Some(p) => Some(p.clone()),
                None => None,
            },
            child_order: self.child_order,
            collapsed: self.collapsed,
        }
    }
}

impl Project {
    /// Create a new project with a given name. Generates a random uuid as an id.
    pub fn new(name: &str) -> (r: Self)
        ensures
            r.name@ == name@,
            r.parent_id is None,
            r.child_order == 0,
            !r.collapsed,
    {
        Project { name: name.to_owned(), ..Default::default() }
    }

    /// Sets a parent id for a project.
    /// This consumes the project and returns a new one.
    #[must_use]
    pub fn parent_id(self, parent_id: Id) -> (r: Self)
        ensures
            r == (Project { parent_id: Some(parent_id), ..self }),
    {
        Project { parent_id: Some(parent_id), ..self }
    }

    /// Sets a child order for a project, which is the order in
    /// which a project appears relative to its siblings.
    /// This consumes the project and returns a new one.
    #[must_use]
    pub fn child_order(self, child_order: i32) -> (r: Self)
        ensures
            r == (Project { child_order: child_order, ..self }),
    {
        Project { child_order: child_order, ..self }
    }
}

impl Default for Project {
    fn default() -> (r: Self)
        ensures
            r.name@ == Seq::<char>::empty(),
            r.parent_id is None,
            r.child_order == 0,
            !r.collapsed,
    {
        Project {
            id: Id(fresh_uuid_string()),
            name: String::new(),
            parent_id: None,
            child_order: 0,
            collapsed: false,
        }
    }
}

} // verus!
