use url_shortener::code::{code_alphabet, generate_code, CODE_LEN};
use url_shortener::link::{links_of, short_link};
use url_shortener::retry::{after_write, Step, StoreError, WriteOutcome, MAX_ATTEMPTS};
use url_shortener::store::MappingStore;

fn codes(v: &[&str]) -> Vec<String> {
    v.iter().map(|s| s.to_string()).collect()
}

fn is_code(s: &str) -> bool {
    s.chars().count() == CODE_LEN && s.chars().all(|c| c.is_ascii_alphanumeric())
}

#[test]
fn example_scenario() {
    let mut store = MappingStore::new();
    let r = store.insert_with_candidates("https://example.com/a", &codes(&["Ab3dE9"]));
    assert_eq!(r, Ok("Ab3dE9".to_string()));
    assert_eq!(store.resolve("Ab3dE9"), Some("https://example.com/a".to_string()));
    assert_eq!(store.resolve("zzzzzz"), None);
}

#[test]
fn empty_store_resolves_nothing() {
    let store = MappingStore::new();
    assert_eq!(store.len(), 0);
    assert_eq!(store.resolve("Ab3dE9"), None);
    assert_eq!(store.resolve(""), None);
    assert!(store.list_all().is_empty());
}

#[test]
fn round_trip_with_random_codes() {
    let mut store = MappingStore::new();
    let urls = ["https://example.com/a", "https://example.com/b", "", "not a url at all"];
    for url in urls.iter() {
        let code = store.insert(url).expect("a fresh code within the budget");
        assert!(is_code(&code));
        assert_eq!(store.resolve(&code), Some(url.to_string()));
    }
    assert_eq!(store.len(), urls.len());
}

#[test]
fn repeated_reads_agree() {
    let mut store = MappingStore::new();
    let code = store.insert("https://example.com/x").unwrap();
    let first = store.resolve(&code);
    let second = store.resolve(&code);
    let third = store.resolve(&code);
    assert_eq!(first, Some("https://example.com/x".to_string()));
    assert_eq!(first, second);
    assert_eq!(second, third);
    assert_eq!(store.len(), 1);
}

#[test]
fn collision_is_retried_with_fresh_code() {
    let mut store = MappingStore::new();
    store.insert_with_candidates("https://example.com/old", &codes(&["aaaaaa"])).unwrap();
    let r = store.insert_with_candidates("https://example.com/new", &codes(&["aaaaaa", "bbbbbb"]));
    assert_eq!(r, Ok("bbbbbb".to_string()));
    assert_eq!(store.resolve("aaaaaa"), Some("https://example.com/old".to_string()));
    assert_eq!(store.resolve("bbbbbb"), Some("https://example.com/new".to_string()));
    assert_eq!(store.len(), 2);
}

#[test]
fn exhausted_budget_reports_capacity() {
    let mut store = MappingStore::new();
    let used = codes(&["c00001", "c00002", "c00003", "c00004", "c00005"]);
    for (i, c) in used.iter().enumerate() {
        let url = format!("https://example.com/{}", i);
        store.insert_with_candidates(&url, &vec![c.clone()]).unwrap();
    }
    let mut again = used.clone();
    again.push("c00006".to_string());
    assert_eq!(again.len() as u32, MAX_ATTEMPTS + 1);
    let r = store.insert_with_candidates("https://example.com/late", &again);
    assert_eq!(r, Err(StoreError::CapacityExhausted));
    assert_eq!(store.len(), 5);
    assert_eq!(store.resolve("c00001"), Some("https://example.com/0".to_string()));
    assert_eq!(store.resolve("c00006"), None);
}

#[test]
fn same_used_code_every_time_exhausts() {
    let mut store = MappingStore::new();
    store.insert_with_candidates("https://example.com/a", &codes(&["Ab3dE9"])).unwrap();
    let all_same = codes(&["Ab3dE9", "Ab3dE9", "Ab3dE9", "Ab3dE9", "Ab3dE9", "Ab3dE9", "Ab3dE9"]);
    let r = store.insert_with_candidates("https://example.com/b", &all_same);
    assert_eq!(r, Err(StoreError::CapacityExhausted));
    assert_eq!(store.resolve("Ab3dE9"), Some("https://example.com/a".to_string()));
    assert_eq!(store.len(), 1);
}

#[test]
fn no_candidates_exhausts() {
    let mut store = MappingStore::new();
    let r = store.insert_with_candidates("https://example.com/a", &Vec::new());
    assert_eq!(r, Err(StoreError::CapacityExhausted));
    assert_eq!(store.len(), 0);
}

#[test]
fn last_candidate_in_budget_is_used() {
    let mut store = MappingStore::new();
    let used = codes(&["u1", "u2", "u3", "u4"]);
    for c in used.iter() {
        store.insert_with_candidates("x", &vec![c.clone()]).unwrap();
    }
    let mut cands = used.clone();
    cands.push("free".to_string());
    let r = store.insert_with_candidates("https://example.com/z", &cands);
    assert_eq!(r, Ok("free".to_string()));
    assert_eq!(store.len(), 5);
}

#[test]
fn listing_holds_every_insert() {
    let mut store = MappingStore::new();
    let mut issued = Vec::new();
    for i in 0..20 {
        let url = format!("https://example.com/page/{}", i);
        let code = store.insert(&url).unwrap();
        issued.push((code, url));
    }
    let listed = store.list_all();
    assert_eq!(listed.len(), 20);
    assert_eq!(listed, issued);
}

#[test]
fn issued_codes_are_unique() {
    let mut store = MappingStore::new();
    let mut seen: Vec<String> = Vec::new();
    for i in 0..200 {
        let code = store.insert(&format!("u{}", i)).unwrap();
        assert!(!seen.contains(&code));
        seen.push(code);
    }
    let listed = store.list_all();
    for i in 0..listed.len() {
        for j in (i + 1)..listed.len() {
            assert_ne!(listed[i].0, listed[j].0);
        }
    }
}

#[test]
fn try_insert_refuses_taken_code() {
    let mut store = MappingStore::new();
    assert_eq!(store.try_insert("abc".to_string(), "one".to_string()), WriteOutcome::Stored);
    assert_eq!(store.try_insert("abc".to_string(), "two".to_string()), WriteOutcome::CodeTaken);
    assert!(store.contains_code(&"abc".to_string()));
    assert!(!store.contains_code(&"abd".to_string()));
    assert_eq!(store.resolve("abc"), Some("one".to_string()));
    assert_eq!(store.len(), 1);
}

#[test]
fn retry_decisions() {
    assert_eq!(after_write(0, WriteOutcome::Stored), Step::Done);
    assert_eq!(after_write(0, WriteOutcome::CodeTaken), Step::Retry(1));
    assert_eq!(after_write(MAX_ATTEMPTS - 2, WriteOutcome::CodeTaken), Step::Retry(MAX_ATTEMPTS - 1));
    assert_eq!(
        after_write(MAX_ATTEMPTS - 1, WriteOutcome::CodeTaken),
        Step::Fail(StoreError::CapacityExhausted)
    );
    assert_eq!(after_write(2, WriteOutcome::StoreFailed), Step::Fail(StoreError::Unavailable));
    assert_eq!(after_write(MAX_ATTEMPTS - 1, WriteOutcome::Stored), Step::Done);
}

#[test]
fn generated_codes_are_well_formed() {
    for _ in 0..100 {
        let c = generate_code();
        assert_eq!(c.len(), 6);
        assert!(is_code(&c));
    }
}

#[test]
fn alphabet_is_letters_and_digits() {
    let a = code_alphabet();
    assert_eq!(a.len(), 62);
    for (i, c) in a.iter().enumerate() {
        assert!(c.is_ascii_alphanumeric());
        assert!(!a[i + 1..].contains(c));
    }
}

#[test]
fn short_link_format() {
    assert_eq!(short_link("localhost:8000", "Ab3dE9"), "http://localhost:8000/Ab3dE9");
    assert_eq!(short_link("", ""), "http:///");
}

#[test]
fn links_of_listing() {
    let pairs = vec![
        ("Ab3dE9".to_string(), "https://example.com/a".to_string()),
        ("zz9900".to_string(), "https://example.com/b".to_string()),
    ];
    let links = links_of("sho.rt", &pairs);
    assert_eq!(
        links,
        vec![
            ("http://sho.rt/Ab3dE9".to_string(), "https://example.com/a".to_string()),
            ("http://sho.rt/zz9900".to_string(), "https://example.com/b".to_string()),
        ]
    );
    assert!(links_of("sho.rt", &Vec::new()).is_empty());
}

#[test]
fn store_without_code_shaped_keys_accepts_random_insert() {
    let mut store = MappingStore::new();
    store.insert_with_candidates("https://example.com/a", &codes(&["short"])).unwrap();
    store.insert_with_candidates("https://example.com/b", &codes(&["toolong7"])).unwrap();
    let code = store.insert("https://example.com/c").unwrap();
    assert!(is_code(&code));
    assert_eq!(store.len(), 3);
    assert_eq!(store.resolve(&code), Some("https://example.com/c".to_string()));
}

#[test]
fn reads_survive_many_later_inserts() {
    let mut store = MappingStore::new();
    let first = store.insert("https://example.com/first").unwrap();
    let before = store.resolve(&first);
    for i in 0..50 {
        store.insert(&format!("https://example.com/{}", i)).unwrap();
        assert_eq!(store.resolve(&first), before);
    }
    assert_eq!(before, Some("https://example.com/first".to_string()));
}
