use todoist_tui::model::command::{AddItemArgs, Args, CompleteItemArgs};
use todoist_tui::model::item::Item;
use todoist_tui::model::Model;
use todoist_tui::sync::Response;

#[test]
fn add_item_to_inbox() {
    let mut model = Model::default();
    model.user.inbox_project_id = "INBOX_ID".into();
    model.add_item_to_inbox("New item!", None);

    assert_eq!(model.items[0].project_id, "INBOX_ID".into());
    assert_eq!(model.items[0].content, "New item!");
    assert_eq!(model.commands[0].request_type, "item_add");
    assert_eq!(
        model.commands[0].args,
        Args::AddItemCommandArgs(AddItemArgs {
            project_id: "INBOX_ID".into(),
            content: "New item!".to_string(),
            due: None
        })
    );
}

#[test]
fn mark_item_completed() {
    let mut model = Model::default();
    let item = Item::new("Item!", "INBOX_ID".into());
    let item_id = item.id.clone();
    model.items.push(item);
    model.mark_item(&item_id, true);

    assert!(model.items[0].checked);
    assert_eq!(model.commands[0].request_type, "item_complete");
    assert_eq!(
        model.commands[0].args,
        Args::CompleteItemCommandArgs(CompleteItemArgs { id: item_id })
    );
}

#[test]
fn incremental_update_with_updated_todos() {
    let mut model = Model::default();
    let item1 = Item::new("Item One!", "INBOX_ID".into());
    let item1_updated = Item { checked: true, ..item1.clone() };

    let item2 = Item::new("Item Two!", "INBOX_ID".into());
    let item2_updated = Item { content: "Item Two with a new title!".into(), ..item2.clone() };

    model.items.push(item1);
    model.items.push(item2);
    let response = Response {
        items: vec![item1_updated, item2_updated],
        full_sync: false,
        ..Default::default()
    };

    model.update(response);
    assert_eq!(model.items.len(), 1);
    assert_eq!(model.items[0].content, "Item Two with a new title!");
}

#[test]
fn incremental_update_with_new_external_todo() {
    let mut model = Model::default();
    let item = Item::new("Item!", "INBOX_ID".into());

    let response = Response { items: vec![item], full_sync: false, ..Default::default() };

    model.update(response);
    assert_eq!(model.items.len(), 1);
    assert_eq!(model.items[0].content, "Item!");
}

#[test]
fn incremental_update_after_adding_local_todo() {
    let mut model = Model::default();
    let item = Item::new("Item!", "INBOX_ID".into());
    let item_updated = Item { id: "NEW_ITEM_ID".into(), ..item.clone() };
    let item_id = item.id.clone();
    model.items.push(item);

    let response = Response {
        items: vec![item_updated],
        full_sync: false,
        temp_id_mapping: vec![(item_id.0.clone(), "NEW_ITEM_ID".to_string())],
        ..Default::default()
    };

    model.update(response);
    assert_eq!(model.items.len(), 1);
    assert_eq!(model.items[0].content, "Item!");
}
