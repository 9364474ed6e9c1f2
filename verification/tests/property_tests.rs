//! Concrete scenarios for the reconciler and command-queue laws.

use todoist_tui::model::command::{AddItemArgs, Args, Command};
use todoist_tui::model::item::Item;
use todoist_tui::model::Model;
use todoist_tui::sync::{build_request, Response, Status};

fn item_with_id(id: &str, content: &str, checked: bool) -> Item {
    Item { id: id.into(), checked, content: content.into(), ..Item::new("", "P1".into()) }
}

fn add_command(uuid: &str, temp_id: &str) -> Command {
    Command {
        request_type: "item_add".to_string(),
        uuid: uuid.to_string(),
        temp_id: Some(temp_id.to_string()),
        args: Args::AddItemCommandArgs(AddItemArgs {
            project_id: "P1".into(),
            content: "x".to_string(),
            due: None,
        }),
    }
}

fn base_model() -> Model {
    let mut model = Model::default();
    model.user.inbox_project_id = "P1".into();
    model.items.push(item_with_id("1", "x", false));
    model.items.push(item_with_id("tmp-1", "local", false));
    model.commands.push(add_command("U", "tmp-1"));
    model.commands.push(add_command("V", "tmp-2"));
    model
}

fn sample_response() -> Response {
    Response {
        sync_token: "TOKEN-2".to_string(),
        items: vec![item_with_id("1", "y", false), item_with_id("9", "new", false)],
        full_sync: false,
        temp_id_mapping: vec![("tmp-1".to_string(), "srv-1".to_string())],
        sync_status: Some(vec![("U".to_string(), Status::Okay)]),
        ..Default::default()
    }
}

#[test]
fn applying_the_same_response_twice_changes_nothing_more() {
    let mut once = base_model();
    once.update(sample_response());

    let mut twice = base_model();
    twice.update(sample_response());
    twice.update(sample_response());

    assert_eq!(once.sync_token, twice.sync_token);
    assert_eq!(once.items, twice.items);
    assert_eq!(once.commands, twice.commands);
    assert_eq!(once.projects.len(), twice.projects.len());
    assert_eq!(once.sections.len(), twice.sections.len());
}

#[test]
fn full_sync_replaces_items_wholesale() {
    let mut model = base_model();
    let a = item_with_id("A", "left", false);
    let b = item_with_id("B", "right", true);
    let response = Response {
        sync_token: "TOKEN-2".to_string(),
        items: vec![a.clone(), b.clone()],
        full_sync: true,
        ..Default::default()
    };
    model.update(response);
    assert_eq!(model.items, vec![a, b]);
}

#[test]
fn incremental_upsert_replaces_matching_item() {
    let mut model = Model::default();
    model.items.push(item_with_id("1", "x", false));
    let response = Response {
        items: vec![item_with_id("1", "y", false)],
        full_sync: false,
        ..Default::default()
    };
    model.update(response);
    assert_eq!(model.items.len(), 1);
    assert_eq!(model.items[0].id, "1".into());
    assert_eq!(model.items[0].content, "y");
}

#[test]
fn incremental_done_item_is_a_tombstone() {
    let mut model = Model::default();
    model.items.push(item_with_id("1", "x", false));
    let response = Response {
        items: vec![item_with_id("1", "x", true)],
        full_sync: false,
        ..Default::default()
    };
    model.update(response);
    assert!(model.items.is_empty());
}

#[test]
fn identifier_continuity_across_remap_and_acknowledgement() {
    let mut model = Model::default();
    model.items.push(item_with_id("tmp-1", "local", false));
    model.commands.push(add_command("U", "tmp-1"));

    let response = Response {
        sync_token: "TOKEN-2".to_string(),
        full_sync: false,
        temp_id_mapping: vec![("tmp-1".to_string(), "srv-1".to_string())],
        sync_status: Some(vec![("U".to_string(), Status::Okay)]),
        ..Default::default()
    };
    model.update(response);

    assert_eq!(model.items.len(), 1);
    assert_eq!(model.items[0].id, "srv-1".into());
    assert_eq!(model.items[0].content, "local");
    assert!(model.commands.is_empty());
}

#[test]
fn command_without_acknowledgement_stays_queued() {
    let mut model = base_model();
    let unacked = model.commands[1].clone();
    model.update(sample_response());
    assert!(model.commands.contains(&unacked));
    assert_eq!(model.commands.len(), 1);
}

#[test]
fn command_with_error_acknowledgement_stays_queued() {
    let mut model = Model::default();
    model.commands.push(add_command("U", "tmp-1"));
    let response = Response {
        full_sync: false,
        sync_status: Some(vec![(
            "U".to_string(),
            Status::Error(todoist_tui::sync::StatusError {
                code: 42,
                message: "invalid".to_string(),
            }),
        )]),
        ..Default::default()
    };
    model.update(response);
    assert_eq!(model.commands.len(), 1);
    assert_eq!(model.commands[0].uuid, "U");
}

#[test]
fn cancelling_a_completion_restores_the_queue() {
    let mut model = base_model();
    let queue_before = model.commands.clone();
    let id = model.items[0].id.clone();

    model.mark_item(&id, true);
    model.mark_item(&id, false);

    assert_eq!(model.commands, queue_before);
    assert!(!model.items[0].checked);
}

#[test]
fn completing_twice_queues_only_one_command() {
    let mut model = base_model();
    let id = model.items[0].id.clone();

    model.mark_item(&id, true);
    model.mark_item(&id, true);

    let completions = model
        .commands
        .iter()
        .filter(|c| c.request_type == "item_complete")
        .count();
    assert_eq!(completions, 1);
}

#[test]
fn end_to_end_create_sync_acknowledge() {
    let mut model = Model::default();
    let inbox_id = model.user.inbox_project_id.clone();
    model.add_item("Buy milk", inbox_id, None);

    assert_eq!(model.items.len(), 1);
    assert_eq!(model.commands.len(), 1);
    let correlation = model.commands[0].temp_id.clone().expect("a creation command carries one");
    assert_eq!(correlation, model.items[0].id.0);

    let request = build_request(&model, true);
    assert_eq!(request.sync_token, model.sync_token);
    assert_eq!(request.commands.len(), 1);

    let response = Response {
        sync_token: "TOKEN-2".to_string(),
        full_sync: false,
        temp_id_mapping: vec![(correlation, "SRV-1".to_string())],
        sync_status: Some(vec![(model.commands[0].uuid.clone(), Status::Okay)]),
        ..Default::default()
    };
    model.update(response);

    assert_eq!(model.items.len(), 1);
    assert_eq!(model.items[0].id, "SRV-1".into());
    assert!(model.commands.is_empty());
}
