use nodian::history::{latest_record_index, most_recent_records, ClipboardRecord, HistoryStore};

fn record(id: i64, content: &str, timestamp: i64) -> ClipboardRecord {
    ClipboardRecord { id, content: content.to_string(), timestamp }
}

#[test]
fn eleven_additions_keep_the_ten_most_recent() {
    let mut st = HistoryStore::new();
    for k in 1..=11i64 {
        st.add_clipboard_record(format!("content-{}", k), 1000 + k);
    }
    let listing = st.get_clipboard_history();
    assert_eq!(listing.len(), 10);
    for (pos, rec) in listing.iter().enumerate() {
        assert_eq!(rec.content, format!("content-{}", 11 - pos as i64));
        assert_eq!(rec.timestamp, 1011 - pos as i64);
    }
    assert!(listing.iter().all(|r| r.content != "content-1"));
}

#[test]
fn history_of_few_records_is_all_of_them_newest_first() {
    let mut st = HistoryStore::new();
    st.add_clipboard_record("one".to_string(), 5);
    st.add_clipboard_record("two".to_string(), 9);
    st.add_clipboard_record("three".to_string(), 7);
    let listing = st.get_clipboard_history();
    assert_eq!(listing.len(), 3);
    assert_eq!(listing[0].content, "two");
    assert_eq!(listing[1].content, "three");
    assert_eq!(listing[2].content, "one");
}

#[test]
fn delete_latest_on_empty_history_is_a_no_op() {
    let mut st = HistoryStore::new();
    assert!(st.delete_latest_clipboard_record().is_none());
    assert_eq!(st.get_clipboard_history().len(), 0);
}

#[test]
fn delete_latest_removes_the_maximum_timestamp() {
    let mut st = HistoryStore::new();
    st.add_clipboard_record("one".to_string(), 5);
    st.add_clipboard_record("two".to_string(), 9);
    st.add_clipboard_record("three".to_string(), 7);
    let removed = st.delete_latest_clipboard_record().expect("non-empty");
    assert_eq!(removed.content, "two");
    assert_eq!(removed.timestamp, 9);
    let listing = st.get_clipboard_history();
    assert_eq!(listing.len(), 2);
    assert_eq!(listing[0].content, "three");
    assert_eq!(listing[1].content, "one");
}

#[test]
fn delete_latest_with_tied_maxima_removes_the_first() {
    let mut st = HistoryStore::new();
    st.add_clipboard_record("a".to_string(), 9);
    st.add_clipboard_record("b".to_string(), 9);
    let removed = st.delete_latest_clipboard_record().expect("non-empty");
    assert_eq!(removed.content, "a");
    let listing = st.get_clipboard_history();
    assert_eq!(listing.len(), 1);
    assert_eq!(listing[0].content, "b");
}

#[test]
fn most_recent_sorts_loaded_rows() {
    let rows = vec![record(1, "a", 30), record(2, "b", 10), record(3, "c", 20)];
    let listing = most_recent_records(&rows);
    assert_eq!(listing.len(), 3);
    assert_eq!(listing[0].id, 1);
    assert_eq!(listing[1].id, 3);
    assert_eq!(listing[2].id, 2);
}

#[test]
fn most_recent_with_tied_timestamps_keeps_all_sorted() {
    let rows = vec![record(1, "a", 7), record(2, "b", 7), record(3, "c", 9)];
    let listing = most_recent_records(&rows);
    assert_eq!(listing.len(), 3);
    assert_eq!(listing[0].id, 3);
    assert_eq!(listing[1].timestamp, 7);
    assert_eq!(listing[2].timestamp, 7);
}

#[test]
fn latest_index_empty_and_first_maximum() {
    let empty: Vec<ClipboardRecord> = Vec::new();
    assert!(latest_record_index(&empty).is_none());
    let rows = vec![record(1, "a", 5), record(2, "b", 9), record(3, "c", 9)];
    assert_eq!(latest_record_index(&rows), Some(1));
}
