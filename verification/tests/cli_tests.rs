use todoist_tui::cli::{complete_item, CliError};
use todoist_tui::model::item::Item;
use todoist_tui::model::Model;

fn inbox_model() -> Model {
    let mut model = Model::default();
    model.user.inbox_project_id = "P1".into();
    model.items.push(Item {
        id: "1".into(),
        content: "Todo One!".into(),
        ..Item::new("", "P1".into())
    });
    model.items.push(Item {
        id: "2".into(),
        content: "Todo Two!".into(),
        ..Item::new("", "P1".into())
    });
    model
}

#[test]
fn completes_the_numbered_inbox_item() {
    let mut model = inbox_model();
    let completed = complete_item(1, &mut model);
    assert_eq!(completed, Ok("Todo One!".to_string()));
    assert!(model.items[0].checked);
    assert_eq!(model.commands.len(), 1);
    assert_eq!(model.commands[0].request_type, "item_complete");
}

#[test]
fn rejects_the_number_zero() {
    let mut model = inbox_model();
    let completed = complete_item(0, &mut model);
    assert_eq!(completed, Err(CliError::InvalidItemNumber { number: 0, num_items: 2 }));
    assert!(!model.items[0].checked && !model.items[1].checked);
    assert!(model.commands.is_empty());
}

#[test]
fn rejects_a_number_past_the_listing() {
    let mut model = inbox_model();
    let completed = complete_item(3, &mut model);
    assert_eq!(completed, Err(CliError::InvalidItemNumber { number: 3, num_items: 2 }));
    assert!(model.commands.is_empty());
}

#[test]
fn completes_the_numbered_item_even_when_contents_repeat() {
    let mut model = Model::default();
    model.user.inbox_project_id = "P1".into();
    model.items.push(Item { id: "b".into(), content: "Twin!".into(), ..Item::new("", "P1".into()) });
    model.items.push(Item { id: "a".into(), content: "Twin!".into(), ..Item::new("", "P1".into()) });

    // the listing orders by identifier here, so entry 2 is the item with id "b"
    let completed = complete_item(2, &mut model);
    assert_eq!(completed, Ok("Twin!".to_string()));
    assert_eq!(model.commands.len(), 1);
    assert_eq!(
        model.commands[0].args,
        todoist_tui::model::command::Args::CompleteItemCommandArgs(
            todoist_tui::model::command::CompleteItemArgs { id: "b".into() }
        )
    );
    let done: Vec<&str> = model
        .items
        .iter()
        .filter(|it| it.checked)
        .map(|it| it.id.0.as_str())
        .collect();
    assert_eq!(done, vec!["b"]);
}

#[test]
fn completed_items_leave_the_listing() {
    let mut model = inbox_model();
    complete_item(1, &mut model).expect("the first item exists");
    // the listing skips done items, so the former second item is now first
    let completed = complete_item(1, &mut model);
    assert_eq!(completed, Ok("Todo Two!".to_string()));
}
