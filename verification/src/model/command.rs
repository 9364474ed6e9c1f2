use crate::model::due_date::Due;
use crate::model::item;
use crate::model::project;
use vstd::prelude::*;

verus! {

/// A recorded intent to mutate remote state.  `uuid` is the idempotency key
/// the server acknowledges the command under; `temp_id` carries the locally
/// generated identifier for creation commands, so that the server can map it
/// to the permanent one it assigns.
#[derive(Debug)]
pub struct Command {
    pub request_type: String,
    pub uuid: String,
    pub temp_id: Option<String>,
    pub args: Args,
}

impl Clone for Command {
    fn clone(&self) -> (r: Self)
        ensures
            r == *self,
    {
        Command {
            request_type: self.request_type.clone(),
            uuid: self.uuid.clone(),
            temp_id: match &self.temp_id {
                Some(t) => Some(t.clone()),
                None => None,
            },
            args: self.args.clone(),
        }
    }
}

impl PartialEq for Command {
    fn eq(&self, other: &Self) -> (r: bool) {
        self.request_type == other.request_type && self.uuid == other.uuid && (match (
            &self.temp_id,
            &other.temp_id,
        ) {
            (Some(a), Some(b)) => *a == *b,
            (None, None) => true,
            _ => false,
        }) && self.args == other.args
    }
}

impl vstd::std_specs::cmp::PartialEqSpecImpl for Command {
    open spec fn obeys_eq_spec() -> bool {
        true
    }

    open spec fn eq_spec(&self, other: &Self) -> bool {
        &&& self.request_type@ == other.request_type@
        &&& self.uuid@ == other.uuid@
        &&& (match (self.temp_id, other.temp_id) {
            (Some(a), Some(b)) => a@ == b@,
            (None, None) => true,
            _ => false,
        })
        &&& (match (self.args, other.args) {
            (Args::AddItemCommandArgs(a), Args::AddItemCommandArgs(b)) => a.project_id@
                == b.project_id@ && a.content@ == b.content@ && a.due == b.due,
            (Args::CompleteItemCommandArgs(a), Args::CompleteItemCommandArgs(b)) => a.id@ == b.id@,
            _ => false,
        })
    }
}

/// The payload of a command, one variant per command kind.
#[derive(Debug, Eq)]
pub enum Args {
    AddItemCommandArgs(AddItemArgs),
    CompleteItemCommandArgs(CompleteItemArgs),
}

impl Clone for Args {
    fn clone(&self) -> (r: Self)
        ensures
            r == *self,
    {
        match self {
            Args::AddItemCommandArgs(a) => Args::AddItemCommandArgs(a.clone()),
            Args::CompleteItemCommandArgs(a) => Args::CompleteItemCommandArgs(a.clone()),
        }
    }
}

impl PartialEq for Args {
    fn eq(&self, other: &Self) -> (r: bool) {
        match (self, other) {
            (Args::AddItemCommandArgs(a), Args::AddItemCommandArgs(b)) => *a == *b,
            (Args::CompleteItemCommandArgs(a), Args::CompleteItemCommandArgs(b)) => *a == *b,
            _ => false,
        }
    }
}

impl vstd::std_specs::cmp::PartialEqSpecImpl for Args {
    open spec fn obeys_eq_spec() -> bool {
        true
    }

    open spec fn eq_spec(&self, other: &Self) -> bool {
        match (self, other) {
            (Args::AddItemCommandArgs(a), Args::AddItemCommandArgs(b)) => a.project_id@
                == b.project_id@ && a.content@ == b.content@ && a.due == b.due,
            (Args::CompleteItemCommandArgs(a), Args::CompleteItemCommandArgs(b)) => a.id@ == b.id@,
            _ => false,
        }
    }
}

#[derive(Debug, Eq)]
pub struct AddItemArgs {
    pub project_id: project::Id,
    pub content: String,
    pub due: Option<Due>,
}

impl Clone for AddItemArgs {
    fn clone(&self) -> (r: Self)
        ensures
            r == *self,
    {
        AddItemArgs {
            project_id: self.project_id.clone(),
            content: self.content.clone(),
            due: self.due,
        }
    }
}

impl PartialEq for AddItemArgs {
    fn eq(&self, other: &Self) -> (r: bool) {
        self.project_id == other.project_id && self.content == other.content && (match (
            &self.due,
            &other.due,
        ) {
            (Some(a), Some(b)) => *a == *b,
            (None, None) => true,
            _ => false,
        })
    }
}

impl vstd::std_specs::cmp::PartialEqSpecImpl for AddItemArgs {
    open spec fn obeys_eq_spec() -> bool {
        true
    }

    open spec fn eq_spec(&self, other: &Self) -> bool {
        self.project_id@ == other.project_id@ && self.content@ == other.content@ && self.due
            == other.due
    }
}

#[derive(Debug, Eq)]
pub struct CompleteItemArgs {
    pub id: item::Id,
}

impl Clone for CompleteItemArgs {
    fn clone(&self) -> (r: Self)
        ensures
            r == *self,
    {
        CompleteItemArgs { id: self.id.clone() }
    }
}

impl PartialEq for CompleteItemArgs {
    fn eq(&self, other: &Self) -> (r: bool) {
        self.id == other.id
    }
}

impl vstd::std_specs::cmp::PartialEqSpecImpl for CompleteItemArgs {
    open spec fn obeys_eq_spec() -> bool {
        true
    }

    open spec fn eq_spec(&self, other: &Self) -> bool {
        self.id@ == other.id@
    }
}

} // verus!
