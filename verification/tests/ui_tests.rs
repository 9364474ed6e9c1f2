use todoist_tui::tui::ui::{centered_rect, Rect};

#[test]
fn centered_rect_same_parity_width_container() {
    let container = Rect { width: 8, height: 1, ..Default::default() };
    let rect = centered_rect(container, 4, 1, None);
    assert_eq!(rect, Rect { x: 2, y: 0, width: 4, height: 1 });
}

#[test]
fn centered_rect_opposite_parity_width_container() {
    let container = Rect { width: 7, height: 1, ..Default::default() };
    let rect = centered_rect(container, 4, 1, None);
    assert_eq!(rect, Rect { x: 1, y: 0, width: 4, height: 1 });
}

#[test]
fn centered_rect_squashed_by_margins() {
    let container = Rect { width: 8, height: 7, ..Default::default() };
    let rect = centered_rect(container, 4, 1, Some(3));
    assert_eq!(rect, Rect { x: 3, y: 3, width: 2, height: 1 });
}
