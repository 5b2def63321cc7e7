use braindump::journal::{
    entry_text, is_day_header, last_day_header, separator_after,
};

const DAY: &str = "2026-08-11";
const TIME: &str = "14:37:01";

fn is_time_header(line: &str) -> bool {
    let time = line.strip_prefix("## ").unwrap_or_default();
    time.len() == 8
        && time.as_bytes()[2] == b':'
        && time.as_bytes()[5] == b':'
        && time
            .bytes()
            .enumerate()
            .all(|(index, byte)| matches!(index, 2 | 5) || byte.is_ascii_digit())
}

fn dump(existing: &str, day: &str, time: &str, note: &str) -> String {
    format!("{existing}{}", entry_text(existing, day, time, note))
}

#[test]
fn inline_dump_creates_the_default_braindump_file() {
    let content = dump("", DAY, TIME, "hello world");
    let lines: Vec<_> = content.lines().collect();
    assert_eq!(lines.len(), 4);
    assert_eq!(lines[0], format!("# {DAY}"));
    assert_eq!(lines[1], "");
    assert!(is_time_header(lines[2]));
    assert_eq!(lines[3], "hello world");
    assert!(content.ends_with('\n'));
}

#[test]
fn repeated_dumps_keep_entries_in_order_and_cleanly_separated() {
    let mut content = String::new();
    for note in ["first", "second", "third"] {
        content = dump(&content, DAY, TIME, note);
    }
    let day_headers: Vec<_> = content
        .lines()
        .filter(|line| line.starts_with("# ") && !line.starts_with("## "))
        .collect();
    assert!(content.ends_with('\n'));
    assert!(!content.contains('\r'));
    assert!(!content.contains("\n\n\n"));
    assert_eq!(content.matches("## ").count(), 3);
    assert!(content.contains("first\n\n## "));
    assert!(content.contains("second\n\n## "));
    assert!(content.ends_with("third\n"));
    assert_eq!(day_headers, vec![format!("# {DAY}")]);
}

#[test]
fn dump_after_a_previous_day_starts_a_new_day_section() {
    let yesterday = "2026-08-10";
    let fixture = format!("# {yesterday}\n\n## 23:59:59\nyesterday entry\n");
    let content = dump(&fixture, DAY, TIME, "today entry");
    let day_headers: Vec<_> = content
        .lines()
        .filter(|line| line.starts_with("# ") && !line.starts_with("## "))
        .collect();
    assert_eq!(day_headers.len(), 2);
    assert_eq!(day_headers[0], format!("# {yesterday}"));
    assert!(content.starts_with(&fixture));
    assert!(content.contains("yesterday entry\n\n# "));
    assert!(content.contains("\n\n## "));
    assert!(content.ends_with("today entry\n"));
    assert_eq!(day_headers[1], format!("# {DAY}"));
}

#[test]
fn dump_does_not_add_extra_blank_lines_to_a_file_that_already_ends_with_one() {
    let fixture = format!("# {DAY}\n\n## 10:00:00\nexisting entry\n\n");
    let content = dump(&fixture, DAY, TIME, "next entry");
    assert!(content.contains("existing entry\n\n## "));
    assert!(!content.contains("existing entry\n\n\n## "));
}

#[test]
fn rapid_dumps_persist_both_entries() {
    let first = dump("", DAY, TIME, "duplicate one");
    let content = dump(&first, DAY, TIME, "duplicate two");
    assert_eq!(content.matches("## ").count(), 2);
    assert!(content.contains("duplicate one\n\n## "));
    assert!(content.ends_with("duplicate two\n"));
}

#[test]
fn entry_for_a_fresh_file_is_exact() {
    assert_eq!(
        entry_text("", DAY, TIME, "remember to buy milk"),
        "# 2026-08-11\n\n## 14:37:01\nremember to buy milk\n"
    );
}

#[test]
fn entry_for_the_same_day_has_no_day_header() {
    let existing = "# 2026-08-11\n\n## 10:00:00\nfirst\n";
    assert_eq!(entry_text(existing, DAY, TIME, "second"), "\n## 14:37:01\nsecond\n");
}

#[test]
fn entry_after_text_without_trailing_lf_adds_a_blank_line() {
    let existing = "# 2026-08-11\n\n## 10:00:00\nfirst";
    assert_eq!(entry_text(existing, DAY, TIME, "second"), "\n\n## 14:37:01\nsecond\n");
}

#[test]
fn entry_for_a_new_day_opens_a_section() {
    let existing = "# 2026-08-10\n\n## 10:00:00\nold\n";
    assert_eq!(
        entry_text(existing, DAY, TIME, "new"),
        "\n# 2026-08-11\n\n## 14:37:01\nnew\n"
    );
}

#[test]
fn separator_depends_on_trailing_line_feeds() {
    assert_eq!(separator_after(""), "");
    assert_eq!(separator_after("text"), "\n\n");
    assert_eq!(separator_after("text\n"), "\n");
    assert_eq!(separator_after("text\n\n"), "");
    assert_eq!(separator_after("text\n\n\n"), "");
    assert_eq!(separator_after("\n"), "\n");
}

#[test]
fn day_headers_are_recognized_exactly() {
    assert!(is_day_header("# 2026-08-11"));
    assert!(!is_day_header("## 2026-08-11"));
    assert!(!is_day_header("# 2026-08-11 "));
    assert!(!is_day_header("# 2026/08/11"));
    assert!(!is_day_header("# 2026-0a-11"));
    assert!(!is_day_header("# 2026-08-1"));
    assert!(!is_day_header("# 2026-08-1١"));
}

#[test]
fn last_day_header_is_the_latest_one() {
    let content = "# 2026-08-10\n\n## 10:00:00\na\n\n# 2026-08-11\r\n\n## 11:00:00\nb\n";
    assert_eq!(last_day_header(content), Some("# 2026-08-11".to_string()));
    assert_eq!(last_day_header("no headers\n## 10:00:00\n"), None);
    assert_eq!(last_day_header("# 2026-08-12"), Some("# 2026-08-12".to_string()));
    assert_eq!(last_day_header("# 2026-08-12\r"), None);
    assert_eq!(last_day_header(""), None);
}
