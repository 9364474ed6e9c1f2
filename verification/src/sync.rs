use crate::model::command::Command;
use crate::model::item::Item;
use crate::model::project::Project;
use crate::model::section::Section;
use crate::model::user::User;
use crate::model::Model;
use vstd::prelude::*;

verus! {

/// What one exchange with the server brings back: the new cursor, full or
/// delta entity collections, the map from locally generated identifiers to
/// the permanent ones the server assigned, and the per-command
/// acknowledgements.  The two maps are held as key/value pair lists.
#[derive(Debug)]
pub struct Response {
    pub sync_token: String,
    pub projects: Vec<Project>,
    pub sections: Vec<Section>,
    pub items: Vec<Item>,
    pub user: Option<User>,
    pub full_sync: bool,
    pub sync_status: Option<Vec<(String, Status)>>,
    pub temp_id_mapping: Vec<(String, String)>,
}

impl Default for Response {
    fn default() -> (r: Self)
        ensures
            r.sync_token@ == Seq::<char>::empty(),
            r.projects@ == Seq::<Project>::empty(),
            r.sections@ == Seq::<Section>::empty(),
            r.items@ == Seq::<Item>::empty(),
            r.user is None,
            !r.full_sync,
            r.sync_status is None,
            r.temp_id_mapping@ == Seq::<(String, String)>::empty(),
    {
        Response {
            sync_token: String::new(),
            projects: Vec::new(),
            sections: Vec::new(),
            items: Vec::new(),
            user: None,
            full_sync: false,
            sync_status: None,
            temp_id_mapping: Vec::new(),
        }
    }
}

/// What one sync cycle sends out: the cursor, the resource kinds asked for,
/// and the whole pending command queue.
#[derive(Debug)]
pub struct Request {
    pub commands: Vec<Command>,
    pub resource_types: Vec<ResourceType>,
    pub sync_token: String,
}

/// The server's verdict on one command.
#[derive(Debug)]
pub enum Status {
    Okay,
    Error(StatusError),
}

impl PartialEq for Status {
    fn eq(&self, other: &Self) -> (r: bool) {
        match (self, other) {
            (Status::Okay, Status::Okay) => true,
            (Status::Error(a), Status::Error(b)) => *a == *b,
            _ => false,
        }
    }
}

impl vstd::std_specs::cmp::PartialEqSpecImpl for Status {
    open spec fn obeys_eq_spec() -> bool {
        true
    }

    open spec fn eq_spec(&self, other: &Self) -> bool {
        match (self, other) {
            (Status::Okay, Status::Okay) => true,
            (Status::Error(a), Status::Error(b)) => a.code == b.code && a.message@ == b.message@,
            _ => false,
        }
    }
}

#[derive(Debug)]
pub struct StatusError {
    pub code: u32,
    pub message: String,
}

impl PartialEq for StatusError {
    fn eq(&self, other: &Self) -> (r: bool) {
        self.code == other.code && self.message == other.message
    }
}

impl vstd::std_specs::cmp::PartialEqSpecImpl for StatusError {
    open spec fn obeys_eq_spec() -> bool {
        true
    }

    open spec fn eq_spec(&self, other: &Self) -> bool {
        self.code == other.code && self.message@ == other.message@
    }
}

/// A kind of resource that a request can ask the server to send.
#[derive(Clone, Copy, Debug, PartialEq, Eq, Structural)]
pub enum ResourceType {
    Items,
    Projects,
    User,
}

impl ResourceType {
    /// Returns all of the resource types that should be requested in a full sync
    #[must_use]
    pub fn all() -> (r: Vec<ResourceType>)
        ensures
            r@ == seq![ResourceType::Items, ResourceType::Projects, ResourceType::User],
    {
        let mut r: Vec<ResourceType> = Vec::new();
        r.push(ResourceType::Items);
        r.push(ResourceType::Projects);
        r.push(ResourceType::User);
        proof {
            assert(r@ =~= seq![ResourceType::Items, ResourceType::Projects, ResourceType::User]);
        }
        r
    }
}

/// Builds the outbound request for one sync cycle.  Full mode sends the
/// "no prior knowledge" cursor `"*"` so that the server answers with a full
/// snapshot; incremental mode sends the replica's current cursor.  Both
/// modes carry the entire pending command queue.
pub fn build_request(model: &Model, incremental: bool) -> (r: Request)
    ensures
        r.sync_token@ == if incremental {
            model.sync_token@
        } else {
            "*"@
        },
        r.resource_types@ == seq![ResourceType::Items, ResourceType::Projects, ResourceType::User],
        r.commands@ == model.commands@,
{
    let sync_token = if incremental {
        model.sync_token.clone()
    } else {
        "*".to_owned()
    };
    let commands = model.commands.clone();
    proof {
        assert(commands@ =~= model.commands@);
    }
    Request { commands, resource_types: ResourceType::all(), sync_token }
}

} // verus!
