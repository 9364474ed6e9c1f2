use crate::model::project;
use vstd::prelude::*;

verus! {

/// The record of the account that owns the task list, as far as the client
/// cares: a display name and the id of the default ("inbox") project.
#[derive(Debug)]
pub struct User {
    pub full_name: String,
    pub inbox_project_id: project::Id,
}

impl Clone for User {
    fn clone(&self) -> (r: Self)
        ensures
            r == *self,
    {
        User { full_name: self.full_name.clone(), inbox_project_id: self.inbox_project_id.clone() }
    }
}

impl Default for User {
    fn default() -> (r: Self)
        ensures
            r.full_name@ == Seq::<char>::empty(),
            r.inbox_project_id@ == Seq::<char>::empty(),
    {
        User { full_name: String::new(), inbox_project_id: Default::default() }
    }
}

} // verus!
