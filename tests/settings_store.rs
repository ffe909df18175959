use preload_supervisor::settings::{RemoteSettings, SettingsStore};

fn doc(generation: u64, key: &str, value: &str) -> RemoteSettings {
    RemoteSettings::new(generation, None, vec![(key.to_string(), value.to_string())]).unwrap()
}

#[test]
fn empty_store_is_at_generation_zero() {
    let store = SettingsStore::new();
    assert_eq!(RemoteSettings::get_generation(&store), 0);
    assert!(RemoteSettings::get(&store).is_none());
}

#[test]
fn store_makes_document_active() {
    let mut store = SettingsStore::new();
    doc(3, "A", "1").store(&mut store);
    assert_eq!(RemoteSettings::get_generation(&store), 3);
    let got = RemoteSettings::get(&store).unwrap();
    assert_eq!(got.generation(), 3);
    assert_eq!(got.env(), &vec![("A".to_string(), "1".to_string())]);
}

#[test]
fn store_with_generation_zero_on_empty_store_is_ignored() {
    let mut store = SettingsStore::new();
    doc(0, "A", "1").store(&mut store);
    assert_eq!(RemoteSettings::get_generation(&store), 0);
    assert!(RemoteSettings::get(&store).is_none());
}

#[test]
fn equal_generation_leaves_store_unchanged() {
    let mut store = SettingsStore::new();
    doc(5, "A", "first").store(&mut store);
    doc(5, "A", "second").store(&mut store);
    assert_eq!(RemoteSettings::get_generation(&store), 5);
    let got = RemoteSettings::get(&store).unwrap();
    assert_eq!(got.env()[0].1, "first");
}

#[test]
fn storing_twice_is_storing_once() {
    let mut once = SettingsStore::new();
    doc(7, "K", "v").store(&mut once);
    let mut twice = SettingsStore::new();
    doc(7, "K", "v").store(&mut twice);
    doc(7, "K", "v").store(&mut twice);
    assert_eq!(RemoteSettings::get_generation(&once), RemoteSettings::get_generation(&twice));
    let a = RemoteSettings::get(&once).unwrap();
    let b = RemoteSettings::get(&twice).unwrap();
    assert_eq!(a.generation(), b.generation());
    assert_eq!(a.env(), b.env());
}

#[test]
fn generations_observed_never_decrease() {
    let mut store = SettingsStore::new();
    let mut last = RemoteSettings::get_generation(&store);
    for g in [1u64, 1, 2, 0, 2, 9, 3, 9, 10, 7] {
        doc(g, "G", "x").store(&mut store);
        let now = RemoteSettings::get_generation(&store);
        assert!(now >= last);
        last = now;
    }
    assert_eq!(last, 10);
}

#[test]
fn get_returns_last_document_that_changed_the_store() {
    let mut store = SettingsStore::new();
    doc(1, "A", "one").store(&mut store);
    doc(2, "A", "two").store(&mut store);
    doc(2, "A", "ignored").store(&mut store);
    let got = RemoteSettings::get(&store).unwrap();
    assert_eq!(got.generation(), 2);
    assert_eq!(got.env()[0].1, "two");
    assert_eq!(got.generation(), RemoteSettings::get_generation(&store));
}

#[test]
fn a_lower_generation_is_refused() {
    let mut store = SettingsStore::new();
    doc(4, "A", "four").store(&mut store);
    doc(2, "A", "two").store(&mut store);
    assert_eq!(RemoteSettings::get_generation(&store), 4);
    assert_eq!(RemoteSettings::get(&store).unwrap().env()[0].1, "four");
}

#[test]
fn get_hands_out_an_owned_copy() {
    let mut store = SettingsStore::new();
    RemoteSettings::new(1, Some("https://example.com/a.jar".to_string()), vec![])
        .unwrap()
        .store(&mut store);
    let copy = RemoteSettings::get(&store).unwrap();
    doc(2, "B", "b").store(&mut store);
    doc(3, "C", "c").store(&mut store);
    assert_eq!(copy.generation(), 1);
    assert_eq!(copy.java_agent_url(), Some("https://example.com/a.jar".to_string()));
    assert_eq!(RemoteSettings::get(&store).unwrap().generation(), 3);
}

#[test]
fn snapshot_copies_every_field() {
    let s = RemoteSettings::new(
        9,
        Some("u".to_string()),
        vec![("X".to_string(), "1".to_string()), ("Y".to_string(), "2".to_string())],
    )
    .unwrap();
    let c = s.snapshot();
    assert_eq!(c.generation(), 9);
    assert_eq!(c.java_agent_url(), Some("u".to_string()));
    assert_eq!(c.env(), s.env());
}

#[test]
fn new_refuses_pairs_that_are_not_a_map() {
    let p = |k: &str, v: &str| (k.to_string(), v.to_string());
    assert!(RemoteSettings::new(1, None, vec![p("A", "1"), p("B", "2")]).is_some());
    assert!(RemoteSettings::new(1, None, vec![p("B", "1"), p("A", "2")]).is_none());
    assert!(RemoteSettings::new(1, None, vec![p("A", "1"), p("A", "2")]).is_none());
    assert!(RemoteSettings::new(1, None, vec![p("A", "1"), p("B", "2"), p("A", "3")]).is_none());
    assert!(RemoteSettings::new(1, None, vec![p("A", "x\0y")]).is_none());
    assert!(RemoteSettings::new(1, None, vec![p("A\0", "1")]).is_none());
    assert!(RemoteSettings::new(1, None, vec![p("AB", "1"), p("B", "2"), p("\u{e9}", "3")]).is_some());
    assert!(RemoteSettings::new(1, None, vec![p("AB", "1"), p("A", "2")]).is_none());
}
