use quotelinks::errors::StoreError;
use quotelinks::links::{LinkStore, SHORT_CODE_LEN};

#[test]
fn shorten_returns_fixed_length_code_and_resolves() {
    let mut store = LinkStore::new();
    let (code, echoed) = store.shorten("https://example.com".to_string());
    assert_eq!(code.chars().count(), SHORT_CODE_LEN);
    assert_eq!(echoed, "https://example.com");
    let url = store.resolve(&code).unwrap();
    assert_eq!(url, "https://example.com");
}

#[test]
fn codes_are_independent_per_request() {
    let mut store = LinkStore::new();
    let (first, _) = store.shorten("https://example.com/a".to_string());
    let (second, _) = store.shorten("https://example.com/b".to_string());
    assert_eq!(store.resolve(&second).unwrap(), "https://example.com/b");
    if first != second {
        assert_eq!(store.resolve(&first).unwrap(), "https://example.com/a");
    } else {
        // A regenerated collision silently overwrites the prior mapping.
        assert_eq!(store.resolve(&first).unwrap(), "https://example.com/b");
    }
}

#[test]
fn delete_then_resolve_is_not_found() {
    let mut store = LinkStore::new();
    let (code, _) = store.shorten("https://example.com".to_string());
    assert!(store.delete(&code).is_ok());
    assert_eq!(store.resolve(&code).unwrap_err(), StoreError::NotFound);
}

#[test]
fn delete_of_absent_code_is_not_found() {
    let mut store = LinkStore::new();
    assert_eq!(store.delete("zzzzz").unwrap_err(), StoreError::NotFound);
    let (code, _) = store.shorten("https://example.com".to_string());
    assert!(store.delete(&code).is_ok());
    assert_eq!(store.delete(&code).unwrap_err(), StoreError::NotFound);
}

#[test]
fn resolve_of_unknown_code_is_not_found() {
    let store = LinkStore::new();
    assert_eq!(store.resolve("abcde").unwrap_err(), StoreError::NotFound);
}
