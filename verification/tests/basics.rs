use xilous_stratagems_manager::assets::{text_without_byte_order_mark, without_byte_order_mark};
use xilous_stratagems_manager::log_buffer::{LogBuffer, LogWriter, LOG_CAPACITY};
use xilous_stratagems_manager::startup::{
    config_reset_message, fatal_message, is_icon_extension, preset_format_message, wide_null,
    with_windows_lines,
};
use xilous_stratagems_manager::text::{
    ascii_lowered, comes_before, contains_control, contains_text, decimal_of, first_line, join_all,
    split_at_each, trimmed,
};
use xilous_stratagems_manager::text_map::TextMap;

#[test]
fn texts_are_taken_apart() {
    assert_eq!(trimmed(" \t\u{a0}a b\u{3000}\n"), " \t\u{a0}a b\u{3000}\n".trim());
    assert_eq!(split_at_each("a,,b", ','), vec!["a", "", "b"]);
    assert_eq!(join_all(&vec!["a".to_string(), "b".to_string()], ", "), "a, b");
    assert_eq!(first_line("one\ntwo"), "one");
    assert_eq!(ascii_lowered("ÄbC"), "Äbc");
    assert_eq!(decimal_of(0), "0");
    assert_eq!(decimal_of(u64::MAX), u64::MAX.to_string());
    assert!(contains_control("a\u{7f}") && contains_control("\u{85}") && !contains_control("é"));
    assert!(contains_text("abc", "bc") && contains_text("abc", "") && !contains_text("abc", "ca"));
    assert!(!contains_text("", "a"));
}

#[test]
fn texts_are_ordered_by_their_characters() {
    assert!(comes_before("a", "b") && comes_before("a", "ab") && comes_before("Z", "a"));
    assert!(!comes_before("b", "a") && !comes_before("a", "a"));
}

#[test]
fn maps_are_walked_in_order() {
    let mut map = TextMap::new();
    map.insert("b".to_string(), 2);
    map.insert("a".to_string(), 1);
    map.insert("b".to_string(), 3);
    assert_eq!(map.len(), 2);
    assert_eq!((map.key_at(0), *map.value_at(0)), ("a", 1));
    assert_eq!(map.get("b"), Some(&3));
    assert_eq!(map.remove("a"), Some(1));
    assert_eq!(map.remove("a"), None);
    assert!(!map.contains_key("a"));
}

#[test]
fn byte_order_marks_are_dropped() {
    assert_eq!(without_byte_order_mark(&[0xef, 0xbb, 0xbf, 1]), &[1]);
    assert_eq!(without_byte_order_mark(&[0xef, 0xbb]), &[0xef, 0xbb]);
    assert_eq!(text_without_byte_order_mark("\u{feff}x"), "x");
    assert_eq!(text_without_byte_order_mark("x"), "x");
}

#[test]
fn log_lines_are_cut_at_line_feeds() {
    let mut buffer = LogBuffer::default();
    let mut writer = LogWriter::new();
    assert_eq!(writer.write(&mut buffer, b"one  \r\ntw"), 9);
    assert_eq!(buffer.lines(), vec!["one"]);
    writer.write(&mut buffer, b"o\n\xff\n");
    assert_eq!(buffer.lines(), vec!["one", "two", "\u{fffd}"]);
    writer.write(&mut buffer, "grüße \u{1F680}\t\n".as_bytes());
    assert_eq!(buffer.lines()[3], "grüße \u{1F680}");
    writer.write(&mut buffer, b"rest");
    writer.flush(&mut buffer);
    writer.flush(&mut buffer);
    assert_eq!(buffer.lines().len(), 5);
    assert_eq!(buffer.lines()[4], "rest");
}

#[test]
fn the_log_keeps_the_latest_lines() {
    let mut buffer = LogBuffer::default();
    for line in 0..LOG_CAPACITY + 3 {
        buffer.push(line.to_string());
    }
    let lines = buffer.lines();
    assert_eq!(lines.len(), LOG_CAPACITY);
    assert_eq!(lines[0], "3");
    assert_eq!(lines[LOG_CAPACITY - 1], (LOG_CAPACITY + 2).to_string());
}

#[test]
fn messages_have_windows_lines() {
    assert_eq!(with_windows_lines("a\nb\r\nc\r"), "a\r\nb\r\nc\r");
    assert_eq!(
        fatal_message("a\nb", Some("app.log")),
        "Xilous Stratagems Manager could not start or encountered a fatal error.\r\n\r\na\r\nb\r\n\r\nSee app.log for more information if the log was created."
    );
    assert!(fatal_message("a", None).ends_with("\r\n\r\na"));
    assert!(config_reset_message("p.json", "c.toml").ends_with("c.toml"));
    assert!(config_reset_message("p.json", "c.toml").contains("Saved presets in\r\np.json\r\n"));
    assert!(preset_format_message("old.json").contains("backed up to:\r\nold.json\r\n"));
}

#[test]
fn wide_texts_end_with_zero() {
    assert_eq!(wide_null("aé"), vec![97, 233, 0]);
    let expected: Vec<u16> = "x😀".encode_utf16().chain(std::iter::once(0)).collect();
    assert_eq!(wide_null("x😀"), expected);
}

#[test]
fn icon_files_are_told_by_their_extension() {
    assert!(is_icon_extension("svg") && is_icon_extension("PNG"));
    assert!(!is_icon_extension("jpg"));
}
