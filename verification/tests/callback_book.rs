use camellia_nexus_desktop::callback_book::{CallbackBook, CALLBACK_CAPACITY};

#[test]
fn a_stored_callback_reads_back() {
    let mut book = CallbackBook::new();
    book.store("state-b".to_string(), "camellia-nexus://auth/callback?code=1".to_string());
    assert!(book.contains("state-b"));
    assert_eq!(book.get("state-b").as_deref(), Some("camellia-nexus://auth/callback?code=1"));
    assert_eq!(book.get("state-a"), None);
    assert_eq!(book.len(), 1);
}

#[test]
fn storing_again_replaces_the_callback() {
    let mut book = CallbackBook::new();
    book.store("s".to_string(), "first".to_string());
    book.store("s".to_string(), "second".to_string());
    assert_eq!(book.len(), 1);
    assert_eq!(book.get("s").as_deref(), Some("second"));
}

#[test]
fn a_full_book_drops_the_first_state() {
    let mut book = CallbackBook::new();
    for i in 0..CALLBACK_CAPACITY {
        book.store(format!("state-{i:02}"), format!("url-{i}"));
    }
    assert_eq!(book.len(), CALLBACK_CAPACITY);
    book.store("state-99".to_string(), "url-99".to_string());
    assert_eq!(book.len(), CALLBACK_CAPACITY);
    assert!(!book.contains("state-00"));
    assert!(book.contains("state-01"));
    assert!(book.contains("state-99"));
}

#[test]
fn a_full_book_drops_a_new_state_that_comes_first() {
    let mut book = CallbackBook::new();
    for i in 0..CALLBACK_CAPACITY {
        book.store(format!("state-{i:02}"), format!("url-{i}"));
    }
    book.store("a".to_string(), "url-a".to_string());
    assert_eq!(book.len(), CALLBACK_CAPACITY);
    assert!(!book.contains("a"));
    assert!(book.contains("state-00"));
}

#[test]
fn removing_and_clearing_callbacks() {
    let mut book = CallbackBook::new();
    book.store("x".to_string(), "1".to_string());
    book.store("y".to_string(), "2".to_string());
    assert!(book.remove("x"));
    assert!(!book.remove("x"));
    assert_eq!(book.len(), 1);
    book.clear();
    assert_eq!(book.len(), 0);
    assert!(!book.contains("y"));
}
