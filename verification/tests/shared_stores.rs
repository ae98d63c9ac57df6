use quotelinks::errors::StoreError;
use quotelinks::links::SHORT_CODE_LEN;
use quotelinks::shared::{SharedLinkStore, SharedQuoteStore};

#[test]
fn many_adds_yield_full_list_with_distinct_ids() {
    let store = SharedQuoteStore::new();
    let n = 50;
    for k in 0..n {
        store.add(format!("text {}", k), format!("speaker {}", k));
    }
    let all = store.list();
    assert_eq!(all.len(), n);
    for i in 0..n {
        for j in 0..n {
            if i != j {
                assert_ne!(all[i].id, all[j].id);
            }
        }
    }
}

#[test]
fn quote_round_trip_through_shared_store() {
    let store = SharedQuoteStore::new();
    assert_eq!(store.list().len(), 0);
    let created = store.add("Bazinga, punk!".to_string(), "Sheldon Cooper".to_string());
    let fetched = store.get_by_id(&created.id).unwrap();
    assert_eq!(fetched.id, created.id);
    assert_eq!(fetched.text, "Bazinga, punk!");
    assert_eq!(fetched.speaker, "Sheldon Cooper");
    let all = store.list();
    assert_eq!(all.len(), 1);
    assert_eq!(all[0].text, "Bazinga, punk!");
    let missing = store.get_by_id("unissued").unwrap_err();
    assert_eq!(missing, StoreError::NotFound);
    let empty = SharedQuoteStore::new();
    assert_eq!(empty.get_random().unwrap_err(), StoreError::EmptyCollection);
}

#[test]
fn link_round_trip_through_shared_store() {
    let store = SharedLinkStore::new();
    let (code, echoed) = store.shorten("https://example.com".to_string());
    assert_eq!(code.chars().count(), SHORT_CODE_LEN);
    assert_eq!(echoed, "https://example.com");
    assert_eq!(store.resolve(&code).unwrap(), "https://example.com");
    assert!(store.delete(&code).is_ok());
    assert_eq!(store.resolve(&code).unwrap_err(), StoreError::NotFound);
    assert_eq!(store.delete(&code).unwrap_err(), StoreError::NotFound);
}
