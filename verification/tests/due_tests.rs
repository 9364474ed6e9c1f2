use todoist_tui::model::due_date::{Date, Due, DueDate, Time};

#[test]
fn finds_a_due_phrase_inside_text() {
    let today = Date { year: 2023, month: 10, day: 8 };
    let (due, range) =
        Due::parse_from_str("buy potatoes tomorrow", today).expect("the phrase should parse");
    assert_eq!(due, Due { date: DueDate::Date(Date { year: 2023, month: 10, day: 9 }) });
    assert_eq!(range, (13, 21));
}

#[test]
fn resolves_a_weekday_relative_to_today() {
    // 2023-10-08 was a Sunday; the following Wednesday is 2023-10-11.
    let today = Date { year: 2023, month: 10, day: 8 };
    let (due, _) = Due::parse_from_str("wednesday", today).expect("the phrase should parse");
    assert_eq!(due, Due { date: DueDate::Date(Date { year: 2023, month: 10, day: 11 }) });
}

#[test]
fn plain_text_has_no_due_phrase() {
    let today = Date { year: 2023, month: 10, day: 8 };
    assert_eq!(Due::parse_from_str("buy potatoes", today), None);
}

#[test]
fn exact_parse_accepts_a_whole_phrase_only() {
    let today = Date { year: 2021, month: 10, day: 6 };
    let due = Due::parse_exact("tomorrow", today);
    assert_eq!(due, Some(Due { date: DueDate::Date(Date { year: 2021, month: 10, day: 7 }) }));
    assert_eq!(Due::parse_exact("buy milk tomorrow", today), None);
    assert_eq!(Due::parse_exact("", today), None);
}

#[test]
fn cuts_the_phrase_and_its_joining_byte_out() {
    let text = "buy potatoes tomorrow okay";
    let (_, (start, end)) = todoist_tui::model::due_date::Due::parse_from_str(
        text,
        todoist_tui::model::due_date::Date { year: 2023, month: 10, day: 8 },
    )
    .expect("the phrase should parse");
    let cut = todoist_tui::model::due_date::cut_phrase_bytes(text.as_bytes(), start, end);
    assert_eq!(String::from_utf8(cut).unwrap(), "buy potatoes okay");
}

#[test]
fn cutting_clamps_to_the_text() {
    let cut = todoist_tui::model::due_date::cut_phrase_bytes(b"note now", 5, 7);
    assert_eq!(cut, b"note ".to_vec());
    let cut = todoist_tui::model::due_date::cut_phrase_bytes(b"now", 0, 2);
    assert_eq!(cut, Vec::<u8>::new());
    let cut = todoist_tui::model::due_date::cut_phrase_bytes(b"ab", 9, 12);
    assert_eq!(cut, b"ab".to_vec());
}

#[test]
fn displays_a_day() {
    let due = Due { date: DueDate::Date(Date { year: 2011, month: 11, day: 12 }) };
    assert_eq!(due.to_display_string(), "2011-11-12");
}

#[test]
fn displays_a_moment() {
    let due = Due {
        date: DueDate::DateTime(
            Date { year: 2011, month: 10, day: 14 },
            Time { hour: 3, minute: 48, second: 0 },
        ),
    };
    assert_eq!(due.to_display_string(), "2011-10-14 03:48:00");
}

#[test]
fn displays_an_early_year_zero_padded() {
    let due = Due { date: DueDate::Date(Date { year: 33, month: 1, day: 2 }) };
    assert_eq!(due.to_display_string(), "0033-01-02");
}
