use quotelinks::errors::StoreError;
use quotelinks::greet::greeting;
use quotelinks::ids::u64_to_dec;
use quotelinks::quotes::QuoteStore;

#[test]
fn add_returns_distinct_ids() {
    let mut store = QuoteStore::new();
    let a = store.add("first".to_string(), "alice".to_string());
    let b = store.add("second".to_string(), "bob".to_string());
    let c = store.add("third".to_string(), "carol".to_string());
    assert_ne!(a.id, b.id);
    assert_ne!(a.id, c.id);
    assert_ne!(b.id, c.id);
}

#[test]
fn list_keeps_insertion_order_and_length() {
    let mut store = QuoteStore::new();
    assert_eq!(store.list().len(), 0);
    store.add("first".to_string(), "alice".to_string());
    store.add("second".to_string(), "bob".to_string());
    store.add("third".to_string(), "carol".to_string());
    let all = store.list();
    assert_eq!(all.len(), 3);
    assert_eq!(all[0].text, "first");
    assert_eq!(all[1].text, "second");
    assert_eq!(all[2].text, "third");
    assert_eq!(all[0].speaker, "alice");
    assert_eq!(all[1].speaker, "bob");
    assert_eq!(all[2].speaker, "carol");
}

#[test]
fn get_by_id_returns_the_added_record() {
    let mut store = QuoteStore::new();
    store.add("first".to_string(), "alice".to_string());
    let added = store.add("second".to_string(), "bob".to_string());
    let found = store.get_by_id(&added.id).unwrap();
    assert_eq!(found.id, added.id);
    assert_eq!(found.text, added.text);
    assert_eq!(found.speaker, added.speaker);
}

#[test]
fn get_by_id_unknown_id_is_not_found() {
    let mut store = QuoteStore::new();
    store.add("first".to_string(), "alice".to_string());
    assert_eq!(store.get_by_id("no-such-id").unwrap_err(), StoreError::NotFound);
}

#[test]
fn get_random_on_empty_store_is_empty_collection() {
    let store = QuoteStore::new();
    assert_eq!(store.get_random().unwrap_err(), StoreError::EmptyCollection);
}

#[test]
fn get_random_returns_a_member() {
    let mut store = QuoteStore::new();
    let only = store.add("alone".to_string(), "alice".to_string());
    for _ in 0..10 {
        let picked = store.get_random().unwrap();
        assert_eq!(picked.id, only.id);
        assert_eq!(picked.text, only.text);
    }
    store.add("another".to_string(), "bob".to_string());
    for _ in 0..10 {
        let picked = store.get_random().unwrap();
        let found = store.get_by_id(&picked.id).unwrap();
        assert_eq!(found.text, picked.text);
        assert_eq!(found.speaker, picked.speaker);
    }
}

#[test]
fn decimal_rendering_is_exact() {
    assert_eq!(u64_to_dec(0), "0");
    assert_eq!(u64_to_dec(7), "7");
    assert_eq!(u64_to_dec(10), "10");
    assert_eq!(u64_to_dec(12345), "12345");
    assert_eq!(u64_to_dec(u64::MAX), "18446744073709551615");
}

#[test]
fn greeting_is_exact() {
    assert_eq!(greeting("Sheldon"), "Hello Sheldon!");
    assert_eq!(greeting(""), "Hello !");
}
