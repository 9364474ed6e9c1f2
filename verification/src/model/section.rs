use crate::model::fresh_uuid_string;
use crate::model::project;
use vstd::prelude::*;

verus! {

/// An id for a section, which is really just `String`.
#[derive(Debug, Eq)]
pub struct Id(pub String);

impl View for Id {
    type V = Seq<char>;

    open spec fn view(&self) -> Seq<char> {
        self.0@
    }
}

impl Clone for Id {
    fn clone(&self) -> (r: Self)
        ensures
            r == *self,
    {
        Id(self.0.clone())
    }
}

impl PartialEq for Id {
    fn eq(&self, other: &Self) -> (r: bool) {
        self.0 == other.0
    }
}

impl vstd::std_specs::cmp::PartialEqSpecImpl for Id {
    open spec fn obeys_eq_spec() -> bool {
        true
    }

    open spec fn eq_spec(&self, other: &Self) -> bool {
        self@ == other@
    }
}

impl Default for Id {
    fn default() -> (r: Self)
        ensures
            r@ == Seq::<char>::empty(),
    {
        Id(String::new())
    }
}

impl From<String> for Id {
    fn from(value: String) -> (r: Self) {
        Id(value)
    }
}

impl vstd::std_specs::convert::FromSpecImpl<String> for Id {
    open spec fn obeys_from_spec() -> bool {
        true
    }

    open spec fn from_spec(v: String) -> Self {
        Id(v)
    }
}

impl From<&str> for Id {
    fn from(value: &str) -> (r: Self) {
        Id(value.to_owned())
    }
}

impl vstd::std_specs::convert::FromSpecImpl<&str> for Id {
    open spec fn obeys_from_spec() -> bool {
        false
    }

    open spec fn from_spec(v: &str) -> Self {
        Id(vstd::pervasive::arbitrary())
    }
}

impl From<&Id> for Id {
    fn from(value: &Id) -> (r: Self) {
        Id(value.0.clone())
    }
}

impl vstd::std_specs::convert::FromSpecImpl<&Id> for Id {
    open spec fn obeys_from_spec() -> bool {
        true
    }

    open spec fn from_spec(v: &Id) -> Self {
        *v
    }
}

/// Represents a section inside a project.
#[derive(Debug)]
pub struct Section {
    pub id: Id,
    pub name: String,
    pub project_id: project::Id,
    pub section_order: i32,
}

impl Clone for Section {
    fn clone(&self) -> (r: Self)
        ensures
            r == *self,
    {
        Section {
            id: self.id.clone(),
            name: self.name.clone(),
            project_id: self.project_id.clone(),
            section_order: self.section_order,
        }
    }
}

impl Section {
    /// Create a new section with a given name. Generates a random uuid as an id.
    pub fn new(name: &str, project_id: project::Id) -> (r: Self)
        ensures
            r.name@ == name@,
            r.project_id == project_id,
            r.section_order == 0,
    {
        Section { name: name.to_owned(), project_id: project_id, ..Default::default() }
    }

    /// Sets a section order for a section, which describes the order
    /// in which it appears relative to the other sections in a project.
    /// This consumes the section and returns a new one.
    #[must_use]
    pub fn section_order(self, section_order: i32) -> (r: Self)
        ensures
            r == (Section { section_order: section_order, ..self }),
    {
        Section { section_order: section_order, ..self }
    }
}

impl Default for Section {
    fn default() -> (r: Self)
        ensures
            r.name@ == Seq::<char>::empty(),
            r.project_id@ == Seq::<char>::empty(),
            r.section_order == 0,
    {
        Section {
            id: Id(fresh_uuid_string()),
            name: String::new(),
            project_id: Default::default(),
            section_order: 0,
        }
    }
}

} // verus!
