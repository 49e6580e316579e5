use nodian::events::{events_matching, Event, EventStore};

#[test]
fn added_event_listed_on_its_date_only() {
    let mut st = EventStore::new();
    st.add_event("t".to_string(), "d".to_string(), "2024-01-01".to_string());
    let on_day = st.get_events(&"2024-01-01".to_string());
    assert_eq!(on_day.len(), 1);
    assert_eq!(on_day[0].title, "t");
    assert_eq!(on_day[0].description, "d");
    let off_day = st.get_events(&"2024-01-02".to_string());
    assert_eq!(off_day.len(), 0);
}

#[test]
fn events_share_a_date_and_keep_order() {
    let mut st = EventStore::new();
    let a = st.add_event("first".to_string(), "".to_string(), "2024-05-05".to_string());
    let b = st.add_event("second".to_string(), "".to_string(), "2024-05-05".to_string());
    st.add_event("other".to_string(), "".to_string(), "2024-05-06".to_string());
    assert_ne!(a, b);
    let day = st.get_events(&"2024-05-05".to_string());
    assert_eq!(day.len(), 2);
    assert_eq!(day[0].title, "first");
    assert_eq!(day[1].title, "second");
    assert_eq!(day[0].id, a);
    assert_eq!(day[1].id, b);
}

#[test]
fn delete_event_removes_only_its_id() {
    let mut st = EventStore::new();
    let a = st.add_event("one".to_string(), "".to_string(), "2024-01-01".to_string());
    let b = st.add_event("two".to_string(), "".to_string(), "2024-01-01".to_string());
    st.delete_event(a);
    let day = st.get_events(&"2024-01-01".to_string());
    assert_eq!(day.len(), 1);
    assert_eq!(day[0].id, b);
}

#[test]
fn delete_absent_id_is_a_no_op() {
    let mut st = EventStore::new();
    st.add_event("one".to_string(), "".to_string(), "2024-01-01".to_string());
    st.delete_event(999);
    assert_eq!(st.get_events(&"2024-01-01".to_string()).len(), 1);
}

#[test]
fn matching_filters_loaded_rows() {
    let rows = vec![
        Event { id: 7, title: "a".to_string(), description: "".to_string(), date: "d1".to_string() },
        Event { id: 9, title: "b".to_string(), description: "".to_string(), date: "d2".to_string() },
        Event { id: 11, title: "c".to_string(), description: "".to_string(), date: "d1".to_string() },
    ];
    let day = events_matching(&rows, &"d1".to_string());
    assert_eq!(day.len(), 2);
    assert_eq!(day[0].id, 7);
    assert_eq!(day[1].id, 11);
    assert_eq!(events_matching(&rows, &"d3".to_string()).len(), 0);
}
