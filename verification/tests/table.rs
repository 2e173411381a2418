use payinfo::event::Event;
use payinfo::table::{EventTable, PREAMBLE_LINES, SUMMARY_OFFSET};
use payinfo::time::Time;

const TITLES: &str =
    "Customer,Date,Adder,Hours,MSR,Time In,Time Out,Meals,Travel Meet Time,Travel Return Time";
const END_NOTE: &str = "Note: Travel Pay is paid at the prevailing minimum wage.";

fn row(cells: &[(usize, &str)]) -> String {
    let mut line = String::new();
    for (offset, text) in cells {
        while line.chars().count() < *offset {
            line.push(' ');
        }
        line.push_str(text);
    }
    line
}

fn named(name: &str) -> Event {
    Event {
        name: name.to_owned(),
        date: String::new(),
        adder: None,
        hours: String::new(),
        msr: String::new(),
        time_in: Time { hour: 0, minute: 0 },
        time_out: Time { hour: 0, minute: 0 },
        meals: None,
        travel_meet_time: None,
        travel_rtn_time: None,
    }
}

fn names(table: &EventTable) -> Vec<&str> {
    table.events.iter().map(|e| e.name.as_str()).collect()
}

fn table_of(body: &[&str]) -> String {
    let mut lines = vec!["Stub 1 Pay Details", "titles", "more titles", "-----------"];
    lines.extend_from_slice(body);
    lines.join("\n")
}

#[test]
fn preamble_and_summary_constants() {
    assert_eq!(PREAMBLE_LINES, 4);
    assert_eq!(SUMMARY_OFFSET, 5);
}

#[test]
fn block_without_its_preamble_is_no_table() {
    assert_eq!(EventTable::from_str(""), Err(()));
    assert_eq!(EventTable::from_str("X Pay Details"), Err(()));
    assert_eq!(EventTable::from_str("X Pay Details\na row here\nanother row"), Err(()));
}

#[test]
fn preamble_alone_is_an_empty_table() {
    assert_eq!(EventTable::from_str(&table_of(&[])), Ok(EventTable { events: vec![] }));
    assert_eq!(
        EventTable::from_str("Alice row 1\nAlice row 2\nAlice row 3\nAlice row 4"),
        Ok(EventTable { events: vec![] })
    );
}

#[test]
fn first_four_lines_are_never_rows() {
    let block = "Alice row 1\nAlice row 2\nAlice row 3\nAlice row 4\nAlice row 5\nAlice row 6";
    let table = EventTable::from_str(block).unwrap();
    assert_eq!(names(&table), vec!["Alice row 5", "Alice row 6"]);
}

#[test]
fn rows_stop_at_the_footer() {
    let block = table_of(&["Alice first", END_NOTE, "Bob after the footer"]);
    let table = EventTable::from_str(&block).unwrap();
    assert_eq!(names(&table), vec!["Alice first"]);
}

#[test]
fn footer_is_looked_for_at_the_start_of_the_trimmed_row() {
    let indented = format!("   {} and more", END_NOTE);
    let block = table_of(&["Alice first", &indented, "Bob after"]);
    assert_eq!(names(&EventTable::from_str(&block).unwrap()), vec!["Alice first"]);
    let inside = format!("See {}", END_NOTE);
    let block = table_of(&["Alice first", &inside, "Bob after"]);
    let table = EventTable::from_str(&block).unwrap();
    assert_eq!(table.events.len(), 3);
    assert_eq!(table.events[0].name, "Alice first");
    assert_eq!(table.events[2].name, "Bob after");
}

#[test]
fn table_without_footer_gives_all_rows() {
    let block = table_of(&["Alice first", "Bob second"]);
    assert_eq!(names(&EventTable::from_str(&block).unwrap()), vec!["Alice first", "Bob second"]);
}

#[test]
fn week_rows_are_left_out() {
    let block = table_of(&[
        "Alice first",
        "Week 1 Totals          40.00",
        "   Week 2",
        "Weekend Cleaning Co",
        "Bob second",
        "A Week later",
    ]);
    assert_eq!(
        names(&EventTable::from_str(&block).unwrap()),
        vec!["Alice first", "Bob second", "A Week later"]
    );
}

#[test]
fn week_row_with_full_event_columns_is_left_out() {
    let week = row(&[
        (0, "Week 3 Acme Corp"),
        (41, "01/02/2024"),
        (76, "8.00"),
        (101, "9:00"),
        (115, "17:00"),
    ]);
    let block = table_of(&[&week]);
    assert_eq!(EventTable::from_str(&block), Ok(EventTable { events: vec![] }));
}

#[test]
fn rows_of_digits_after_the_label_are_left_out() {
    let block = table_of(&[
        "Tot: 12345",
        "ABCDE0",
        "ABCDE",
        "Abc",
        "",
        "     ",
        "12345678",
        "Total 12a4",
        "ABCDE 1",
        "ABCDE\u{0661}",
    ]);
    assert_eq!(
        names(&EventTable::from_str(&block).unwrap()),
        vec!["Total 12a4", "ABCDE 1", "ABCDE\u{0661}"]
    );
}

#[test]
fn rows_are_trimmed_before_their_columns_are_cut() {
    let line = row(&[(3, "Acme Corp"), (44, "01/02/2024"), (104, "9:00")]);
    let block = table_of(&[&line]);
    let table = EventTable::from_str(&block).unwrap();
    assert_eq!(
        table.events,
        vec![Event {
            date: "01/02/2024".to_owned(),
            time_in: Time { hour: 9, minute: 0 },
            ..named("Acme Corp")
        }]
    );
}

#[test]
fn duplicate_rows_are_kept() {
    let block = table_of(&["Alice first", "Alice first", "Alice first"]);
    assert_eq!(
        EventTable::from_str(&block).unwrap().events,
        vec![named("Alice first"), named("Alice first"), named("Alice first")]
    );
}

#[test]
fn report_without_tables_has_no_events() {
    assert_eq!(EventTable::parse_stub(""), EventTable { events: vec![] });
    assert_eq!(EventTable::parse_stub("nothing\nto see\n"), EventTable { events: vec![] });
}

#[test]
fn events_of_all_tables_follow_in_order() {
    let stub = format!(
        "intro\nA Pay Details\nt\nt\nt\nAlice one\nWeek 1\nAlice two\n{n}\nbetween\nB Pay Details\nt\nt\nt\nBob one\n{n}\nC Pay Details\nt\nt\nt\nCarol one\nCarol two",
        n = END_NOTE
    );
    assert_eq!(
        names(&EventTable::parse_stub(&stub)),
        vec!["Alice one", "Alice two", "Bob one", "Carol one", "Carol two"]
    );
}

#[test]
fn short_block_adds_nothing() {
    let stub = format!(
        "A Pay Details\nAlice in a short block\n{n}\nB Pay Details\nt\nt\nt\nBob one\n{n}\nC Pay Details\nlast",
        n = END_NOTE
    );
    assert_eq!(names(&EventTable::parse_stub(&stub)), vec!["Bob one"]);
}

#[test]
fn missing_footer_merges_the_tables() {
    let stub = format!(
        "A Pay Details\nt\nt\nt\nAlice one\nB Pay Details\nBob title line\n{}\n",
        END_NOTE
    );
    assert_eq!(
        names(&EventTable::parse_stub(&stub)),
        vec!["Alice one", "B Pay Details", "Bob title line"]
    );
}

#[test]
fn csv_has_header_then_one_line_for_each_event() {
    let table = EventTable {
        events: vec![
            Event { hours: "8.00".to_owned(), meals: Some(1), ..named("Alice") },
            Event {
                msr: "3.25".to_owned(),
                travel_rtn_time: Some(Time { hour: 18, minute: 5 }),
                ..named("Bob")
            },
        ],
    };
    assert_eq!(
        table.to_csv(),
        format!("{}\nAlice,,,8.00,,00:00,00:00,1,,\nBob,,,,3.25,00:00,00:00,0,,18:05", TITLES)
    );
}

#[test]
fn csv_of_no_events_is_the_header_line() {
    let csv = EventTable { events: vec![] }.to_csv();
    assert_eq!(csv, TITLES);
    assert!(!csv.ends_with('\n'));
}

#[test]
fn csv_of_a_parsed_report() {
    let first = row(&[
        (0, "Acme Corp"),
        (41, "01/02/2024"),
        (54, "OT"),
        (76, "8.00"),
        (89, "1.50"),
        (101, "9:00"),
        (115, "17:00"),
        (129, "1"),
        (139, "8:30"),
        (154, "17:45"),
    ]);
    let second = row(&[(0, "Zenith"), (41, "01/03/2024"), (76, "4.25"), (101, "13:00")]);
    let stub = format!(
        "Statement\nEmployee Pay Details\n\ntitles\n------\n{}\nWeek 1 Totals 12.25\n{}\n{}\n",
        first, second, END_NOTE
    );
    assert_eq!(
        EventTable::parse_stub(&stub).to_csv(),
        format!(
            "{}\nAcme Corp,01/02/2024,OT,8.00,1.50,09:00,17:00,1,08:30,17:45\nZenith,01/03/2024,,4.25,,13:00,00:00,0,,",
            TITLES
        )
    );
}
