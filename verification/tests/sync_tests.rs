use todoist_tui::model::item::Item;
use todoist_tui::model::section::Section;
use todoist_tui::model::Model;
use todoist_tui::sync::{build_request, ResourceType};

fn ordered_model() -> Model {
    let mut model = Model::default();
    model.user.inbox_project_id = "P1".into();
    model.items.push(Item {
        id: "b".into(),
        content: "second by id".into(),
        ..Item::new("", "P1".into())
    });
    model.items.push(Item {
        id: "c".into(),
        content: "third by order".into(),
        child_order: 7,
        ..Item::new("", "P1".into())
    });
    model.items.push(Item {
        id: "a".into(),
        content: "first by id".into(),
        ..Item::new("", "P1".into())
    });
    model
}

#[test]
fn full_mode_requests_everything_from_scratch() {
    let mut model = Model::default();
    model.sync_token = "CURSOR".to_string();
    let request = build_request(&model, false);
    assert_eq!(request.sync_token, "*");
    assert_eq!(
        request.resource_types,
        vec![ResourceType::Items, ResourceType::Projects, ResourceType::User]
    );
    assert!(request.commands.is_empty());
}

#[test]
fn incremental_mode_sends_the_cursor_and_the_whole_queue() {
    let mut model = Model::default();
    model.sync_token = "CURSOR".to_string();
    let inbox = model.user.inbox_project_id.clone();
    model.add_item("one", inbox.clone(), None);
    model.add_item("two", inbox, None);
    let request = build_request(&model, true);
    assert_eq!(request.sync_token, "CURSOR");
    assert_eq!(request.commands.len(), 2);
}

#[test]
fn inbox_listing_sorts_by_order_value_then_identifier() {
    let model = ordered_model();
    let listing = model.get_inbox_items(true);
    let contents: Vec<&str> = listing.iter().map(|it| it.content.as_str()).collect();
    assert_eq!(contents, vec!["first by id", "second by id", "third by order"]);
}

#[test]
fn inbox_listing_can_keep_done_items() {
    let mut model = ordered_model();
    model.items[0].checked = true;
    assert_eq!(model.get_inbox_items(true).len(), 2);
    assert_eq!(model.get_inbox_items(false).len(), 3);
}

#[test]
fn project_listing_filters_by_project() {
    let mut model = ordered_model();
    model.items.push(Item {
        id: "z".into(),
        content: "elsewhere".into(),
        ..Item::new("", "P2".into())
    });
    let listing = model.items_in_project(&"P2".into());
    assert_eq!(listing.len(), 1);
    assert_eq!(listing[0].content, "elsewhere");
}

#[test]
fn sections_group_their_items() {
    let mut model = Model::default();
    model.user.inbox_project_id = "P1".into();
    model.sections.push(Section {
        id: "s2".into(),
        name: "Later".into(),
        section_order: 2,
        ..Section::new("", "P1".into())
    });
    model.sections.push(Section {
        id: "s1".into(),
        name: "Soon".into(),
        section_order: 1,
        ..Section::new("", "P1".into())
    });
    model.items.push(Item {
        id: "1".into(),
        content: "loose".into(),
        ..Item::new("", "P1".into())
    });
    model.items.push(Item {
        id: "2".into(),
        content: "soon task".into(),
        section_id: Some("s1".into()),
        ..Item::new("", "P1".into())
    });
    model.items.push(Item {
        id: "3".into(),
        content: "later task".into(),
        section_id: Some("s2".into()),
        ..Item::new("", "P1".into())
    });

    let groups = model.sections_and_items_in_project(&"P1".into());
    assert_eq!(groups.len(), 3);
    assert!(groups[0].0.is_none());
    assert_eq!(groups[0].1.len(), 1);
    assert_eq!(groups[0].1[0].content, "loose");
    assert_eq!(groups[1].0.expect("a section").name, "Soon");
    assert_eq!(groups[1].1[0].content, "soon task");
    assert_eq!(groups[2].0.expect("a section").name, "Later");
    assert_eq!(groups[2].1[0].content, "later task");
}

#[test]
fn inbox_project_lookup_finds_the_inbox() {
    let model = Model::default();
    assert_eq!(model.inbox_project().name, "Inbox");
    let id = model.projects[0].id.clone();
    assert!(model.project_with_id(&id).is_some());
    assert!(model.project_with_id(&"nowhere".into()).is_none());
}
