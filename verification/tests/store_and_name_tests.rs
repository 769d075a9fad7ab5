use constellations::date::Date;
use constellations::store::decode_records;
use constellations::task::Task;

fn record(title: &str, priority: u8) -> String {
    Task {
        title: title.to_string(),
        priority,
        due_date: Date { year: 2024, month: 5, day: 9 },
        info: String::new(),
    }
    .encode()
}

#[test]
fn all_valid_records_decode_in_order() {
    let files = vec![record("first", 1), record("second", 2), record("third", 3)];
    let ts = decode_records(&files).expect("all records are valid");
    assert_eq!(ts.len(), 3);
    assert_eq!(ts[0].title, "first");
    assert_eq!(ts[1].title, "second");
    assert_eq!(ts[2].title, "third");
}

#[test]
fn one_malformed_record_fails_the_whole_listing() {
    let files = vec![
        record("first", 1),
        "title: \"X\"\npriority: abc\ndue_date: 2024/1/1\ninfo: \"\"".to_string(),
        record("third", 3),
    ];
    assert!(decode_records(&files).is_none());
}

#[test]
fn empty_store_lists_nothing() {
    let files: Vec<String> = Vec::new();
    let ts = decode_records(&files).expect("an empty store is fine");
    assert!(ts.is_empty());
}

#[test]
fn file_name_from_title() {
    let t = Task {
        title: "Buy Milk".to_string(),
        priority: 5,
        due_date: Date { year: 2024, month: 1, day: 15 },
        info: String::new(),
    };
    assert_eq!(t.file_name(), "buy_milk.cstf");
}

#[test]
fn file_name_multiple_spaces_and_case() {
    let t = Task {
        title: "A B  C".to_string(),
        priority: 5,
        due_date: Date { year: 2024, month: 1, day: 15 },
        info: String::new(),
    };
    assert_eq!(t.file_name(), "a_b__c.cstf");
}
