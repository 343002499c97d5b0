use text_relay::store::Store;

#[test]
fn store_starts_empty() {
    let store = Store::new();
    assert_eq!(store.read(), "");
}

#[test]
fn store_write_then_read() {
    let mut store = Store::new();
    store.write("hello".to_string());
    assert_eq!(store.read(), "hello");
}

#[test]
fn store_last_writer_wins() {
    let mut store = Store::new();
    for text in ["one", "two", "three", "four"] {
        store.write(text.to_string());
    }
    assert_eq!(store.read(), "four");
}

#[test]
fn store_write_replaces_whole_value() {
    let mut store = Store::new();
    store.write("a long first value".to_string());
    store.write("b".to_string());
    assert_eq!(store.read(), "b");
}

#[test]
fn store_accepts_empty_text() {
    let mut store = Store::new();
    store.write("something".to_string());
    store.write(String::new());
    assert_eq!(store.read(), "");
}

#[test]
fn store_read_does_not_change_value() {
    let mut store = Store::new();
    store.write("kept".to_string());
    assert_eq!(store.read(), "kept");
    assert_eq!(store.read(), "kept");
}

#[test]
fn store_keeps_text_verbatim() {
    let mut store = Store::new();
    let text = "  line one\n\tline two \u{1F600} \u{00e9}\n".to_string();
    store.write(text.clone());
    assert_eq!(store.read(), text);
}
