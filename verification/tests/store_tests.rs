//! Unit tests of the record store's own operations.

use royalguard::parse::{Assign, Query};
use royalguard::store::{RenameStatus, Store};

fn assign(attr: &str, value: &str, sensitive: bool) -> Assign {
    Assign {
        attr: attr.to_string(),
        value: value.to_string(),
        sensitive,
    }
}

#[test]
fn set_then_get_by_name() {
    let mut store = Store::new();
    store.set("gmail", vec![assign("user", "zahash", false)]);
    let got = store.get(Query::Name("gmail".to_string()));
    assert_eq!(got.len(), 1);
    assert_eq!(got[0].name, "gmail");
    assert_eq!(got[0].fields.len(), 1);
    assert_eq!(got[0].fields[0].attr, "user");
    assert_eq!(got[0].fields[0].value, "zahash");
}

#[test]
fn set_with_no_assignments_creates_an_empty_record() {
    let mut store = Store::new();
    store.set("gmail", Vec::new());
    let got = store.get(Query::Name("gmail".to_string()));
    assert_eq!(got.len(), 1);
    assert!(got[0].fields.is_empty());
}

#[test]
fn set_on_an_existing_name_keeps_one_record() {
    let mut store = Store::new();
    store.set("gmail", vec![assign("user", "a", false)]);
    store.set("gmail", vec![assign("pass", "b", false)]);
    assert_eq!(store.get(Query::All).len(), 1);
    store.set("other", Vec::new());
    assert_eq!(store.get(Query::All).len(), 2);
}

#[test]
fn history_grows_and_deduplicates() {
    let mut store = Store::new();
    store.set("gmail", vec![assign("user", "a", false)]);
    assert_eq!(store.history("gmail").len(), 1);
    store.set("gmail", vec![assign("user", "a", false)]);
    assert_eq!(store.history("gmail").len(), 1);
    store.set("gmail", vec![assign("user", "b", false)]);
    assert_eq!(store.history("gmail").len(), 2);
    assert_eq!(store.history("absent").len(), 0);
}

#[test]
fn remove_returns_the_record_and_clears_it() {
    let mut store = Store::new();
    store.set("gmail", vec![assign("user", "a", false)]);
    let taken = store.remove("gmail");
    assert!(taken.is_some());
    assert_eq!(taken.unwrap().name, "gmail");
    assert!(store.get(Query::Name("gmail".to_string())).is_empty());
    assert!(store.remove("gmail").is_none());
}

#[test]
fn remove_attrs_drops_only_the_named_fields() {
    let mut store = Store::new();
    store.set(
        "gmail",
        vec![assign("user", "a", false), assign("pass", "b", false)],
    );
    let before = store.history("gmail").len();
    let got = store.remove_attrs("gmail", &vec!["pass".to_string()]);
    assert!(got.is_some());
    let rec = got.unwrap();
    assert_eq!(rec.fields.len(), 1);
    assert_eq!(rec.fields[0].attr, "user");
    assert_eq!(store.history("gmail").len(), before + 1);
    assert!(store.remove_attrs("absent", &vec!["x".to_string()]).is_none());
}

#[test]
fn rename_rules() {
    let mut store = Store::new();
    assert!(matches!(
        store.rename("a", "b"),
        RenameStatus::OldNameNotFound
    ));
    store.set("a", vec![assign("user", "x", false)]);
    store.set("b", Vec::new());
    assert!(matches!(
        store.rename("a", "b"),
        RenameStatus::NewNameAlreadyExists
    ));
    // renaming a record onto its own name counts as a collision
    assert!(matches!(
        store.rename("a", "a"),
        RenameStatus::NewNameAlreadyExists
    ));
    let before = store.get(Query::Name("a".to_string())).remove(0);
    assert!(matches!(store.rename("a", "c"), RenameStatus::Successful));
    let after = store.get(Query::Name("c".to_string())).remove(0);
    assert_eq!(before.id, after.id);
    assert_eq!(after.fields.len(), 1);
    assert_eq!(after.fields[0].value, "x");
    assert!(store.get(Query::Name("a".to_string())).is_empty());
}
