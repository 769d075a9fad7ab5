use constellations::codec::decode;
use constellations::date::Date;
use constellations::task::Task;

fn task(title: &str, priority: u8, year: i32, month: u32, day: u32, info: &str) -> Task {
    Task {
        title: title.to_string(),
        priority,
        due_date: Date { year, month, day },
        info: info.to_string(),
    }
}

#[test]
fn encode_exact_layout() {
    let t = task("Buy Milk", 5, 2024, 1, 15, "get the good stuff");
    assert_eq!(
        t.encode(),
        "title: \"Buy Milk\"\npriority: 5\ndue_date: 2024/1/15\ninfo: \"get the good stuff\""
    );
}

#[test]
fn round_trip_basic() {
    let t = task("Buy Milk", 5, 2024, 1, 15, "get the good\nstuff");
    let d = decode(&t.encode()).expect("round trip");
    assert_eq!(d, t);
}

#[test]
fn round_trip_empty_info_and_title_spaces() {
    let t = task("  spaced  title  ", 10, 1999, 12, 31, "");
    let d = decode(&t.encode()).expect("round trip");
    assert_eq!(d, t);
}

#[test]
fn round_trip_priority_zero() {
    let t = task("a", 0, 2024, 2, 29, "");
    let d = decode(&t.encode()).expect("round trip");
    assert_eq!(d, t);
}

#[test]
fn round_trip_priority_max() {
    let t = task("a", 255, 2024, 6, 30, "x");
    let d = decode(&t.encode()).expect("round trip");
    assert_eq!(d, t);
}

#[test]
fn priority_above_255_rejected() {
    let s = "title: \"X\"\npriority: 256\ndue_date: 2024/1/1\ninfo: \"\"";
    assert!(decode(s).is_none());
    let s = "title: \"X\"\npriority: 999999\ndue_date: 2024/1/1\ninfo: \"\"";
    assert!(decode(s).is_none());
}

#[test]
fn priority_leading_zeros_accepted() {
    let s = "title: \"X\"\npriority: 00255\ndue_date: 2024/1/1\ninfo: \"\"";
    let t = decode(s).expect("leading zeros keep the value in range");
    assert_eq!(t.priority, 255);
}

#[test]
fn malformed_priority_rejected() {
    let s = "title: \"X\"\npriority: abc\ndue_date: 2024/1/1\ninfo: \"\"";
    assert!(decode(s).is_none());
}

#[test]
fn invalid_calendar_date_rejected() {
    let s = "title: \"X\"\npriority: 3\ndue_date: 2024/13/40\ninfo: \"\"";
    assert!(decode(s).is_none());
}

#[test]
fn leap_day_rules() {
    let ok = "title: \"X\"\npriority: 3\ndue_date: 2024/2/29\ninfo: \"\"";
    assert!(decode(ok).is_some());
    let bad = "title: \"X\"\npriority: 3\ndue_date: 2023/2/29\ninfo: \"\"";
    assert!(decode(bad).is_none());
    let century = "title: \"X\"\npriority: 3\ndue_date: 1900/2/29\ninfo: \"\"";
    assert!(decode(century).is_none());
    let quadricentennial = "title: \"X\"\npriority: 3\ndue_date: 2000/2/29\ninfo: \"\"";
    assert!(decode(quadricentennial).is_some());
}

#[test]
fn whitespace_around_literals_tolerated() {
    let s = "  title: \"X\"  \n priority:  7\n due_date: 2024/1/1\n info: \"notes\"";
    let t = decode(s).expect("incidental whitespace is skipped");
    assert_eq!(t.title, "X");
    assert_eq!(t.priority, 7);
    assert_eq!(t.info, "notes");
}

#[test]
fn trailing_text_after_record_ignored() {
    let s = "title: \"X\"\npriority: 7\ndue_date: 2024/1/1\ninfo: \"n\" trailing";
    let t = decode(s).expect("text after the closing quote is ignored");
    assert_eq!(t.info, "n");
}

#[test]
fn missing_pieces_rejected() {
    assert!(decode("").is_none());
    assert!(decode("nope").is_none());
    assert!(decode("title: \"X").is_none());
    assert!(decode("title: \"X\"\npriority: 5\ndue_date: 2024/1\ninfo: \"\"").is_none());
    assert!(decode("title: \"X\"\npriority: 5\ndue_date: 2024/1/1\ninfo: no quote").is_none());
    assert!(decode("title: \"X\"\npriority: \ndue_date: 2024/1/1\ninfo: \"\"").is_none());
}

#[test]
fn negative_year_encodes_but_cannot_decode() {
    let t = task("BC", 1, -44, 3, 15, "");
    let s = t.encode();
    assert_eq!(s, "title: \"BC\"\npriority: 1\ndue_date: -44/3/15\ninfo: \"\"");
    assert!(decode(&s).is_none());
}

#[test]
fn year_above_i32_max_rejected() {
    let s = "title: \"X\"\npriority: 5\ndue_date: 2147483648/1/1\ninfo: \"\"";
    assert!(decode(s).is_none());
    let s = "title: \"X\"\npriority: 5\ndue_date: 2147483647/1/31\ninfo: \"\"";
    assert!(decode(s).is_some());
}
