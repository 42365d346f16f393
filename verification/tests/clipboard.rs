use mtrm::clipboard::{ClipboardBackend, MemoryClipboard, UnavailableClipboard};
use mtrm::errors::{notice_for_clipboard_error, ClipboardError};

#[test]
fn memory_clipboard_starts_with_consistent_empty_state() {
    let mut clipboard = MemoryClipboard::new();
    assert_eq!(clipboard.get_text().unwrap(), "");
}

#[test]
fn memory_clipboard_set_text_stores_string() {
    let mut clipboard = MemoryClipboard::new();
    clipboard.set_text("hello").unwrap();
    assert_eq!(clipboard.get_text().unwrap(), "hello");
}

#[test]
fn memory_clipboard_returns_last_written_value() {
    let mut clipboard = MemoryClipboard::new();
    clipboard.set_text("first").unwrap();
    clipboard.set_text("second").unwrap();
    assert_eq!(clipboard.get_text().unwrap(), "second");
}

#[test]
fn memory_clipboard_preserves_multiline_text() {
    let mut clipboard = MemoryClipboard::new();
    let text = "one\ntwo\nthree";
    clipboard.set_text(text).unwrap();
    assert_eq!(clipboard.get_text().unwrap(), text);
}

#[test]
fn memory_clipboard_accepts_empty_string() {
    let mut clipboard = MemoryClipboard::new();
    clipboard.set_text("").unwrap();
    assert_eq!(clipboard.get_text().unwrap(), "");
}

#[test]
fn unavailable_clipboard_reports_unavailable_for_read_and_write() {
    let mut clipboard = UnavailableClipboard;
    assert!(matches!(clipboard.get_text(), Err(ClipboardError::Unavailable)));
    assert!(matches!(clipboard.set_text("hello"), Err(ClipboardError::Unavailable)));
}

#[test]
fn system_error_conversion_preserves_operation_kind() {
    let read_error = ClipboardError::Read("read failed".to_owned());
    let write_error = ClipboardError::Write("write failed".to_owned());

    assert_eq!(read_error.message(), "failed to read from system clipboard: read failed");
    assert_eq!(write_error.message(), "failed to write to system clipboard: write failed");
    assert_eq!(ClipboardError::Unavailable.message(), "system clipboard is unavailable");
}

#[test]
fn clipboard_notices_name_the_failure() {
    assert_eq!(notice_for_clipboard_error(&ClipboardError::Unavailable), "Clipboard is unavailable");
    assert_eq!(notice_for_clipboard_error(&ClipboardError::Read("x".into())), "Failed to read from clipboard");
    assert_eq!(notice_for_clipboard_error(&ClipboardError::Write("x".into())), "Failed to write to clipboard");
}
