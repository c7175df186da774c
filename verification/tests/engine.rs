use taildir::config::{Contains, Custom, EndsWith, SelectAll, Selector};
use taildir::table::HandleTable;
use taildir::translate::{
    collect, collect_logs, follows, insert_handle, read_failed, register_dir, remove_handle,
    should_deliver, translate, ChangeKind, FileEntry, Notification, ReadError, Step,
};
use notify::DebouncedEvent;
use std::path::PathBuf;

fn log_files() -> EndsWith {
    EndsWith { suffix: String::from(".log") }
}

fn event(kind: ChangeKind, name: &str, path: &str) -> Notification {
    Notification { kind, name: Some(String::from(name)), path: String::from(path) }
}

fn entry(name: &str, path: &str, len: u64) -> FileEntry {
    FileEntry { name: String::from(name), path: String::from(path), len }
}

fn offset_of(table: &HandleTable, name: &str) -> Option<u64> {
    table.get(name).map(|handle| handle.offset)
}

fn read_at(step: Step) -> (String, String, u64, bool) {
    match step {
        Step::Read { name, path, offset, reopen } => (name, path, offset, reopen),
        Step::Ignore => panic!("the notification was ignored"),
        Step::Removed { name } => panic!("the handle of {} was removed", name),
    }
}

fn starts_with_upper(text: &str) -> bool {
    text.chars().next().map_or(false, |c| c.is_uppercase())
}

#[test]
fn registration_follows_selected_files_from_their_end() {
    let files = vec![entry("a.log", "d/a.log", 12), entry("a.tmp", "d/a.tmp", 5)];
    let table = register_dir(&files, &log_files());
    assert_eq!(offset_of(&table, "a.log"), Some(12));
    assert!(table.contains("a.log"));
    assert!(!table.contains("a.tmp"));
    assert_eq!(table.get("a.log").unwrap().path, "d/a.log");
}

#[test]
fn registration_keeps_the_later_of_two_files_with_one_name() {
    let files = vec![entry("a.log", "d/x/a.log", 3), entry("a.log", "d/y/a.log", 9)];
    let table = register_dir(&files, &SelectAll);
    assert_eq!(offset_of(&table, "a.log"), Some(9));
    assert_eq!(table.get("a.log").unwrap().path, "d/y/a.log");
}

#[test]
fn registration_of_nothing_gives_an_empty_table() {
    let table = register_dir(&Vec::new(), &SelectAll);
    assert!(!table.contains("a.log"));
}

#[test]
fn write_to_selected_file_delivers_the_line() {
    let files = vec![entry("a.log", "d/a.log", 0), entry("a.tmp", "d/a.tmp", 0)];
    let filter = log_files();
    let mut table = register_dir(&files, &filter);

    let step = translate(&event(ChangeKind::Write, "a.log", "d/a.log"), &mut table, &filter);
    let (name, path, offset, reopen) = read_at(step);
    assert_eq!((name.as_str(), path.as_str(), offset, reopen), ("a.log", "d/a.log", 0, false));

    let batch = collect(&mut table, "a.log", 6, b"hello\n", &SelectAll).unwrap();
    let (file, lines) = batch.unwrap();
    assert_eq!(file, "a.log");
    assert_eq!(lines, vec![String::from("hello\n")]);
    assert!(should_deliver(&lines));
    assert_eq!(offset_of(&table, "a.log"), Some(6));
}

#[test]
fn write_to_filtered_file_is_ignored() {
    let files = vec![entry("a.log", "d/a.log", 0), entry("a.tmp", "d/a.tmp", 0)];
    let filter = log_files();
    let mut table = register_dir(&files, &filter);
    let step = translate(&event(ChangeKind::Write, "a.tmp", "d/a.tmp"), &mut table, &filter);
    assert!(matches!(step, Step::Ignore));
    assert!(!table.contains("a.tmp"));
    assert_eq!(offset_of(&table, "a.log"), Some(0));
}

#[test]
fn line_filter_keeps_only_matching_lines() {
    let mut table = HandleTable::new();
    insert_handle(&mut table, "app.log", "d/app.log", 100, true);
    let filter = Contains { part: String::from("ERROR") };
    let data = b"info\nERROR x\n";
    let batch = collect(&mut table, "app.log", 100 + data.len() as u64, data, &filter).unwrap();
    let (file, lines) = batch.unwrap();
    assert_eq!(file, "app.log");
    assert_eq!(lines, vec![String::from("ERROR x\n")]);
    assert_eq!(offset_of(&table, "app.log"), Some(113));
}

#[test]
fn truncation_then_append_delivers_only_new_content() {
    let mut table = HandleTable::new();
    insert_handle(&mut table, "a.log", "d/a.log", 40, true);
    let write = event(ChangeKind::Write, "a.log", "d/a.log");

    let (_, _, offset, reopen) = read_at(translate(&write, &mut table, &SelectAll));
    assert_eq!((offset, reopen), (40, false));
    let (_, lines) = collect(&mut table, "a.log", 4, b"", &SelectAll).unwrap().unwrap();
    assert!(lines.is_empty());
    assert!(!should_deliver(&lines));
    assert_eq!(offset_of(&table, "a.log"), Some(0));

    let (_, _, offset, _) = read_at(translate(&write, &mut table, &SelectAll));
    assert_eq!(offset, 0);
    let (_, lines) = collect(&mut table, "a.log", 4, b"new\n", &SelectAll).unwrap().unwrap();
    assert_eq!(lines, vec![String::from("new\n")]);
    assert_eq!(offset_of(&table, "a.log"), Some(4));
}

#[test]
fn removal_then_append_delivers_only_new_content() {
    let mut table = HandleTable::new();
    insert_handle(&mut table, "a.log", "d/a.log", 40, true);
    let step = translate(&event(ChangeKind::Remove, "a.log", "d/a.log"), &mut table, &SelectAll);
    match step {
        Step::Removed { name } => assert_eq!(name, "a.log"),
        _ => panic!("the removal was not translated"),
    }
    assert!(!table.contains("a.log"));

    let write = event(ChangeKind::Create, "a.log", "d/a.log");
    let (name, path, offset, reopen) = read_at(translate(&write, &mut table, &SelectAll));
    assert_eq!((name.as_str(), path.as_str(), offset, reopen), ("a.log", "d/a.log", 0, true));
    assert_eq!(offset_of(&table, "a.log"), Some(0));
    let (_, lines) = collect(&mut table, "a.log", 4, b"new\n", &SelectAll).unwrap().unwrap();
    assert_eq!(lines, vec![String::from("new\n")]);
    assert_eq!(offset_of(&table, "a.log"), Some(4));
}

#[test]
fn offset_never_decreases_over_successive_writes() {
    let mut table = HandleTable::new();
    insert_handle(&mut table, "a.log", "d/a.log", 10, true);
    let write = event(ChangeKind::Write, "a.log", "d/a.log");
    let mut last = 10;
    for (end, data) in [(12u64, &b"a\n"[..]), (12, &b""[..]), (15, &b"bc\n"[..]), (16, &b"d"[..])] {
        let (_, _, offset, _) = read_at(translate(&write, &mut table, &SelectAll));
        assert_eq!(offset, last);
        collect(&mut table, "a.log", end, data, &SelectAll).unwrap();
        let now = offset_of(&table, "a.log").unwrap();
        assert!(now >= last);
        assert_eq!(now, end);
        last = now;
    }
}

#[test]
fn nothing_is_replayed_after_registration() {
    let files = vec![entry("a.log", "d/a.log", 25)];
    let mut table = register_dir(&files, &SelectAll);
    let write = event(ChangeKind::Write, "a.log", "d/a.log");
    let (_, _, offset, reopen) = read_at(translate(&write, &mut table, &SelectAll));
    assert_eq!((offset, reopen), (25, false));
    let (_, lines) = collect(&mut table, "a.log", 25, b"", &SelectAll).unwrap().unwrap();
    assert!(lines.is_empty());
    assert_eq!(offset_of(&table, "a.log"), Some(25));
}

#[test]
fn offset_advances_when_every_line_is_rejected() {
    let mut table = HandleTable::new();
    insert_handle(&mut table, "a.log", "d/a.log", 5, true);
    let filter = Contains { part: String::from("ERROR") };
    let (file, lines) = collect(&mut table, "a.log", 15, b"info\nmore\n", &filter).unwrap().unwrap();
    assert_eq!(file, "a.log");
    assert!(lines.is_empty());
    assert_eq!(offset_of(&table, "a.log"), Some(15));
}

#[test]
fn rotation_reads_the_new_file_from_its_start() {
    let mut table = HandleTable::new();
    insert_handle(&mut table, "f", "d/f", 50, true);
    remove_handle(&mut table, "f");
    let write = event(ChangeKind::Write, "f", "d/f");
    let (_, _, offset, reopen) = read_at(translate(&write, &mut table, &SelectAll));
    assert_eq!((offset, reopen), (0, true));
    let (_, lines) = collect(&mut table, "f", 8, b"one\ntwo\n", &SelectAll).unwrap().unwrap();
    assert_eq!(lines, vec![String::from("one\n"), String::from("two\n")]);
    assert_eq!(offset_of(&table, "f"), Some(8));
}

#[test]
fn shrunken_file_resets_the_offset_without_lines() {
    let mut table = HandleTable::new();
    insert_handle(&mut table, "f", "d/f", 50, true);
    let (file, lines) = collect(&mut table, "f", 49, b"garbage\n", &SelectAll).unwrap().unwrap();
    assert_eq!(file, "f");
    assert!(lines.is_empty());
    assert_eq!(offset_of(&table, "f"), Some(0));
    assert_eq!(table.get("f").unwrap().path, "d/f");
}

#[test]
fn removing_twice_is_harmless() {
    let mut table = HandleTable::new();
    insert_handle(&mut table, "a.log", "d/a.log", 1, true);
    insert_handle(&mut table, "b.log", "d/b.log", 2, true);
    let removal = event(ChangeKind::Remove, "a.log", "d/a.log");
    assert!(matches!(translate(&removal, &mut table, &SelectAll), Step::Removed { .. }));
    assert!(!table.contains("a.log"));
    assert!(matches!(translate(&removal, &mut table, &SelectAll), Step::Removed { .. }));
    assert!(!table.contains("a.log"));
    assert_eq!(offset_of(&table, "b.log"), Some(2));
    remove_handle(&mut table, "a.log");
    assert!(!table.contains("a.log"));
}

#[test]
fn removal_is_not_filtered_by_name() {
    let mut table = HandleTable::new();
    insert_handle(&mut table, "a.tmp", "d/a.tmp", 1, true);
    let removal = event(ChangeKind::Remove, "a.tmp", "d/a.tmp");
    assert!(matches!(translate(&removal, &mut table, &log_files()), Step::Removed { .. }));
    assert!(!table.contains("a.tmp"));
}

#[test]
fn other_changes_and_nameless_paths_are_ignored() {
    let mut table = HandleTable::new();
    insert_handle(&mut table, "a.log", "d/a.log", 1, true);
    for kind in [ChangeKind::Chmod, ChangeKind::Rename, ChangeKind::Rescan, ChangeKind::Error] {
        let other = event(kind, "a.log", "d/a.log");
        assert!(matches!(translate(&other, &mut table, &SelectAll), Step::Ignore));
    }
    for kind in [
        ChangeKind::Create,
        ChangeKind::NoticeWrite,
        ChangeKind::Write,
        ChangeKind::NoticeRemove,
        ChangeKind::Remove,
    ] {
        let nameless = Notification { kind, name: None, path: String::from("..") };
        assert!(matches!(translate(&nameless, &mut table, &SelectAll), Step::Ignore));
    }
    assert_eq!(offset_of(&table, "a.log"), Some(1));
}

#[test]
fn read_for_unknown_file_gives_nothing() {
    let mut table = HandleTable::new();
    let batch = collect(&mut table, "a.log", 3, b"x\ny", &SelectAll).unwrap();
    assert!(batch.is_none());
    assert!(!table.contains("a.log"));
}

#[test]
fn read_of_wrong_length_fails_and_drops_the_file() {
    let mut table = HandleTable::new();
    insert_handle(&mut table, "a.log", "d/a.log", 10, true);
    insert_handle(&mut table, "b.log", "d/b.log", 4, true);
    let failed = collect(&mut table, "a.log", 20, b"short\n", &SelectAll);
    assert_eq!(failed, Err(ReadError::LengthMismatch));
    assert_eq!(offset_of(&table, "a.log"), None);
    assert_eq!(offset_of(&table, "b.log"), Some(4));
}

#[test]
fn read_of_invalid_text_fails_and_drops_the_file() {
    let mut table = HandleTable::new();
    insert_handle(&mut table, "a.log", "d/a.log", 10, true);
    insert_handle(&mut table, "b.log", "d/b.log", 4, true);
    let data = [b'o', b'k', b'\n', 0xff, 0xfe, b'\n'];
    let failed = collect(&mut table, "a.log", 16, &data, &SelectAll);
    assert_eq!(failed, Err(ReadError::InvalidData));
    assert_eq!(offset_of(&table, "a.log"), None);
    let (_, lines) = collect(&mut table, "b.log", 6, b"x\n", &SelectAll).unwrap().unwrap();
    assert_eq!(lines, vec![String::from("x\n")]);

    let write = event(ChangeKind::Write, "a.log", "d/a.log");
    let (_, _, offset, reopen) = read_at(translate(&write, &mut table, &SelectAll));
    assert_eq!((offset, reopen), (0, true));
}

#[test]
fn unreadable_file_is_dropped() {
    let mut table = HandleTable::new();
    insert_handle(&mut table, "a.log", "d/a.log", 10, true);
    insert_handle(&mut table, "b.log", "d/b.log", 4, true);
    assert_eq!(read_failed(&mut table, "a.log"), ReadError::Unreadable);
    assert!(!table.contains("a.log"));
    assert_eq!(read_failed(&mut table, "a.log"), ReadError::Unreadable);
    assert_eq!(offset_of(&table, "b.log"), Some(4));
}

#[test]
fn only_the_file_in_the_table_is_followed() {
    let files = vec![
        entry("a.log", "d/x/a.log", 3),
        entry("a.log", "d/y/a.log", 9),
        entry("a.tmp", "d/a.tmp", 1),
    ];
    let table = register_dir(&files, &log_files());
    assert!(!follows(&table, &files[0]));
    assert!(follows(&table, &files[1]));
    assert!(!follows(&table, &files[2]));
}

#[test]
fn file_entry_takes_its_name_from_the_path() {
    let file = FileEntry::new(String::from("var/log/app.log"), 17).unwrap();
    assert_eq!(file.name, "app.log");
    assert_eq!(file.path, "var/log/app.log");
    assert_eq!(file.len, 17);
    assert!(FileEntry::new(String::from("var/log/.."), 0).is_none());
    assert!(FileEntry::new(String::new(), 0).is_none());
}

#[test]
fn unterminated_rest_is_delivered_as_a_line() {
    let mut table = HandleTable::new();
    insert_handle(&mut table, "a.log", "d/a.log", 0, false);
    let (_, lines) = collect(&mut table, "a.log", 7, b"one\ntwo", &SelectAll).unwrap().unwrap();
    assert_eq!(lines, vec![String::from("one\n"), String::from("two")]);
    assert_eq!(offset_of(&table, "a.log"), Some(7));
}

#[test]
fn text_beyond_ascii_is_decoded() {
    let mut table = HandleTable::new();
    insert_handle(&mut table, "a.log", "d/a.log", 0, false);
    let data = "caf\u{e9}\n\u{4e2d}\u{6587}\n".as_bytes();
    let (_, lines) =
        collect(&mut table, "a.log", data.len() as u64, data, &SelectAll).unwrap().unwrap();
    assert_eq!(lines, vec![String::from("caf\u{e9}\n"), String::from("\u{4e2d}\u{6587}\n")]);
}

#[test]
fn insert_handle_at_tail_or_at_start() {
    let mut table = HandleTable::new();
    insert_handle(&mut table, "a", "d/a", 33, true);
    insert_handle(&mut table, "b", "d/b", 33, false);
    assert_eq!(offset_of(&table, "a"), Some(33));
    assert_eq!(offset_of(&table, "b"), Some(0));
    insert_handle(&mut table, "a", "e/a", 7, true);
    assert_eq!(offset_of(&table, "a"), Some(7));
    assert_eq!(table.get("a").unwrap().path, "e/a");
    assert_eq!(table.get("a").unwrap().name, "a");
}

#[test]
fn table_insert_and_remove() {
    let mut table = HandleTable::new();
    assert!(table.get("x").is_none());
    table.insert(String::from("x"), String::from("p/x"), 1);
    table.insert(String::from("y"), String::from("p/y"), 2);
    table.insert(String::from("z"), String::from("p/z"), 3);
    assert!(table.remove("y"));
    assert!(!table.remove("y"));
    assert_eq!(offset_of(&table, "x"), Some(1));
    assert_eq!(offset_of(&table, "y"), None);
    assert_eq!(offset_of(&table, "z"), Some(3));
}

#[test]
fn notification_takes_its_name_from_the_path() {
    let named = Notification::new(ChangeKind::Write, String::from("var/log/app.log"));
    assert_eq!(named.kind, ChangeKind::Write);
    assert_eq!(named.path, "var/log/app.log");
    assert_eq!(named.name.as_deref(), Some("app.log"));
    let nameless = Notification::new(ChangeKind::Remove, String::from("var/log/.."));
    assert_eq!(nameless.name, None);
    assert_eq!(Notification::new(ChangeKind::Write, String::new()).name, None);
    let nested = Notification::new(ChangeKind::Create, String::from("a/b/"));
    assert_eq!(nested.name.as_deref(), Some("b"));
}

#[test]
fn selector_written_by_a_caller() {
    let mut table = HandleTable::new();
    insert_handle(&mut table, "a.log", "d/a.log", 0, false);
    let (_, lines) =
        collect(&mut table, "a.log", 11, b"warn\nError\n", &Custom::new(starts_with_upper))
            .unwrap()
            .unwrap();
    assert_eq!(lines, vec![String::from("Error\n")]);
    let short = Custom::new(|text: &str| text.len() < 4);
    assert!(short.evaluate("abc"));
    assert!(!short.evaluate("abcd"));
}

#[test]
fn watcher_events_are_read_by_variant() {
    let path = PathBuf::from("d/a.log");
    let cases = [
        (DebouncedEvent::NoticeWrite(path.clone()), ChangeKind::NoticeWrite),
        (DebouncedEvent::NoticeRemove(path.clone()), ChangeKind::NoticeRemove),
        (DebouncedEvent::Create(path.clone()), ChangeKind::Create),
        (DebouncedEvent::Write(path.clone()), ChangeKind::Write),
        (DebouncedEvent::Remove(path.clone()), ChangeKind::Remove),
        (DebouncedEvent::Chmod(path.clone()), ChangeKind::Chmod),
    ];
    for (event, kind) in cases {
        let seen = Notification::from_event(&event);
        assert_eq!(seen.kind, kind);
        assert_eq!(seen.path, "d/a.log");
        assert_eq!(seen.name.as_deref(), Some("a.log"));
    }
    let pathless = [
        (DebouncedEvent::Rename(path.clone(), PathBuf::from("d/b.log")), ChangeKind::Rename),
        (DebouncedEvent::Rescan, ChangeKind::Rescan),
        (DebouncedEvent::Error(notify::Error::WatchNotFound, Some(path.clone())), ChangeKind::Error),
    ];
    for (event, kind) in pathless {
        let seen = Notification::from_event(&event);
        assert_eq!(seen.kind, kind);
        assert_eq!(seen.name, None);
        assert_eq!(seen.path, "");
    }
}

#[test]
fn watcher_events_drive_the_table() {
    let mut table = HandleTable::new();
    insert_handle(&mut table, "a.log", "d/a.log", 3, true);
    let path = PathBuf::from("d/a.log");
    let filter = log_files();

    for event in [DebouncedEvent::NoticeWrite(path.clone()), DebouncedEvent::Write(path.clone())] {
        let (name, at, offset, reopen) = read_at(collect_logs(&event, &mut table, &filter));
        assert_eq!((name.as_str(), at.as_str(), offset, reopen), ("a.log", "d/a.log", 3, false));
    }
    let chmod = DebouncedEvent::Chmod(path.clone());
    assert!(matches!(collect_logs(&chmod, &mut table, &filter), Step::Ignore));
    assert!(table.contains("a.log"));

    let gone = DebouncedEvent::NoticeRemove(path.clone());
    assert!(matches!(collect_logs(&gone, &mut table, &filter), Step::Removed { .. }));
    assert!(!table.contains("a.log"));
    let gone = DebouncedEvent::Remove(path.clone());
    assert!(matches!(collect_logs(&gone, &mut table, &filter), Step::Removed { .. }));
    assert!(!table.contains("a.log"));

    let back = DebouncedEvent::Create(path.clone());
    let (_, at, offset, reopen) = read_at(collect_logs(&back, &mut table, &filter));
    assert_eq!((at.as_str(), offset, reopen), ("d/a.log", 0, true));

    let other = DebouncedEvent::Write(PathBuf::from("d/a.tmp"));
    assert!(matches!(collect_logs(&other, &mut table, &filter), Step::Ignore));
    assert!(!table.contains("a.tmp"));
}

#[test]
fn successive_reads_deliver_what_one_read_would() {
    let mut split_up = HandleTable::new();
    insert_handle(&mut split_up, "a.log", "d/a.log", 5, true);
    let (_, mut lines) = collect(&mut split_up, "a.log", 9, b"a\nb\n", &SelectAll).unwrap().unwrap();
    let (_, more) = collect(&mut split_up, "a.log", 12, b"c\nd", &SelectAll).unwrap().unwrap();
    lines.extend(more);

    let mut at_once = HandleTable::new();
    insert_handle(&mut at_once, "a.log", "d/a.log", 5, true);
    let (_, whole) = collect(&mut at_once, "a.log", 12, b"a\nb\nc\nd", &SelectAll).unwrap().unwrap();

    assert_eq!(lines, whole);
    assert_eq!(lines, vec!["a\n", "b\n", "c\n", "d"]);
    assert_eq!(offset_of(&split_up, "a.log"), Some(12));
    assert_eq!(offset_of(&at_once, "a.log"), Some(12));
}
