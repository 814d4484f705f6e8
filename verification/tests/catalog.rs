use cookbook::error::Error;
use cookbook::menu::{Cookbook, Meal};

fn store_from(contents: &str) -> Cookbook {
    Cookbook::connect("cookbook.json".to_string(), contents).unwrap()
}

fn meal(name: &str, tags: &[&str]) -> Meal {
    Meal::new(
        name.to_string(),
        Some(tags.iter().map(|t| t.to_string()).collect()),
    )
}

#[test]
fn scenario_empty_catalog_lifecycle() {
    let mut store = store_from("[]");
    assert_eq!(store.list().len(), 0);

    let count = store
        .add(meal("Curried Chickpeas", &["vegan"]))
        .unwrap();
    assert_eq!(count, 1);

    let listed = store.list();
    assert_eq!(listed.len(), 1);
    assert_eq!(listed[0].name, "Curried Chickpeas");
    assert_eq!(listed[0].tags, vec!["vegan".to_string()]);

    let duplicate = store.add(Meal::new("Curried Chickpeas".to_string(), None));
    assert_eq!(
        duplicate,
        Err(Error::AddError("Curried Chickpeas".to_string()))
    );

    let found = store.search("Curr").unwrap();
    assert_eq!(found.len(), 1);
    assert_eq!(found[0].name, "Curried Chickpeas");

    assert!(store.search("zzz").unwrap().is_empty());

    let info = store.info("Curried Chickpeas".to_string()).unwrap();
    assert_eq!(info.name, "Curried Chickpeas");
    assert_eq!(info.tags, vec!["vegan".to_string()]);

    let missing = store.info("Pasta".to_string());
    assert_eq!(missing, Err(Error::MealDoesNotExist("Pasta".to_string())));

    let text = store.commit();
    let reopened = Cookbook::connect("cookbook.json".to_string(), &text).unwrap();
    let relisted = reopened.list();
    assert_eq!(relisted.len(), 1);
    assert_eq!(relisted[0].name, "Curried Chickpeas");
    assert_eq!(relisted[0].tags, vec!["vegan".to_string()]);
}

#[test]
fn add_returns_count_after_insertion() {
    let mut store = store_from("[]");
    assert_eq!(store.add(meal("Soup", &[])).unwrap(), 1);
    assert_eq!(store.add(meal("Salad", &[])).unwrap(), 2);
    assert_eq!(store.add(meal("Stew", &[])).unwrap(), 3);
}

#[test]
fn duplicate_add_fails_and_leaves_entries_unchanged() {
    let mut store = store_from("[]");
    store.add(meal("Soup", &["warm"])).unwrap();
    store.add(meal("Salad", &["cold"])).unwrap();

    let before: Vec<String> = store.list().iter().map(|m| m.name.clone()).collect();
    let rejected = store.add(meal("Soup", &["other"]));
    assert_eq!(rejected, Err(Error::AddError("Soup".to_string())));
    let after: Vec<String> = store.list().iter().map(|m| m.name.clone()).collect();
    assert_eq!(before, after);
}

#[test]
fn search_matches_literal_substrings_in_order() {
    let mut store = store_from("[]");
    store.add(meal("Pasta Carbonara", &[])).unwrap();
    store.add(meal("Salad", &[])).unwrap();
    store.add(meal("Pasta", &[])).unwrap();

    let found = store.search("Pasta").unwrap();
    let names: Vec<&str> = found.iter().map(|m| m.name.as_str()).collect();
    assert_eq!(names, vec!["Pasta Carbonara", "Pasta"]);

    let middle = store.search("sta Car").unwrap();
    assert_eq!(middle.len(), 1);
    assert_eq!(middle[0].name, "Pasta Carbonara");
}

#[test]
fn search_is_case_sensitive() {
    let mut store = store_from("[]");
    store.add(meal("Pasta", &[])).unwrap();
    assert!(store.search("pasta").unwrap().is_empty());
}

#[test]
fn empty_pattern_matches_every_entry() {
    let mut store = store_from("[]");
    store.add(meal("Soup", &[])).unwrap();
    store.add(meal("Salad", &[])).unwrap();
    let found = store.search("").unwrap();
    let names: Vec<&str> = found.iter().map(|m| m.name.as_str()).collect();
    assert_eq!(names, vec!["Soup", "Salad"]);
}

#[test]
fn info_requires_exact_match_not_substring() {
    let mut store = store_from("[]");
    store.add(meal("Pasta Carbonara", &[])).unwrap();
    let missing = store.info("Pasta".to_string());
    assert_eq!(missing, Err(Error::MealDoesNotExist("Pasta".to_string())));
    let hit = store.info("Pasta Carbonara".to_string()).unwrap();
    assert_eq!(hit.name, "Pasta Carbonara");
}

#[test]
fn list_is_idempotent_without_mutation() {
    let mut store = store_from("[]");
    store.add(meal("Soup", &["warm", "starter"])).unwrap();
    store.add(meal("Salad", &[])).unwrap();
    let first = store.list();
    let second = store.list();
    assert_eq!(first.len(), second.len());
    for (a, b) in first.iter().zip(second.iter()) {
        assert_eq!(a.name, b.name);
        assert_eq!(a.tags, b.tags);
    }
}

#[test]
fn commit_then_connect_round_trips_entries() {
    let mut store = store_from("[]");
    store.add(meal("Soup", &["warm", "starter"])).unwrap();
    store.add(Meal::new("Salad".to_string(), None)).unwrap();
    store.add(meal("Pasta", &["italian"])).unwrap();

    let text = store.commit();
    let reopened = Cookbook::connect("elsewhere.json".to_string(), &text).unwrap();

    let before = store.list();
    let after = reopened.list();
    assert_eq!(before.len(), after.len());
    for (a, b) in before.iter().zip(after.iter()) {
        assert_eq!(a.name, b.name);
        assert_eq!(a.tags, b.tags);
    }
}

#[test]
fn round_trip_keeps_names_that_need_escaping() {
    let mut store = store_from("[]");
    store
        .add(meal("Sauce \"Béarnaise\"\nwith \\ stripes", &["fancy, yes"]))
        .unwrap();
    let text = store.commit();
    let reopened = Cookbook::connect("cookbook.json".to_string(), &text).unwrap();
    let listed = reopened.list();
    assert_eq!(listed.len(), 1);
    assert_eq!(listed[0].name, "Sauce \"Béarnaise\"\nwith \\ stripes");
    assert_eq!(listed[0].tags, vec!["fancy, yes".to_string()]);
}

#[test]
fn commit_writes_readable_json_not_the_raw_names() {
    let mut store = store_from("[]");
    store.add(meal("Soup", &["warm"])).unwrap();
    let text = store.commit();
    assert!(text.trim_start().starts_with('['));
    assert!(text.contains("\"name\""));
    assert!(text.contains("\"Soup\""));
    assert!(text.contains("\"warm\""));
    assert_ne!(text, "Soup");
}

#[test]
fn connect_accepts_entries_with_absent_tags() {
    let store = store_from("[{\"name\": \"Soup\"}, {\"name\": \"Salad\", \"tags\": []}]");
    let listed = store.list();
    assert_eq!(listed.len(), 2);
    assert_eq!(listed[0].name, "Soup");
    assert!(listed[0].tags.is_empty());
    assert_eq!(listed[1].name, "Salad");
    assert!(listed[1].tags.is_empty());
}

#[test]
fn connect_rejects_malformed_contents() {
    for bad in [
        "",
        "not json",
        "{\"name\": \"Soup\"}",
        "[3]",
        "[{\"tags\": [\"x\"]}]",
        "[{\"name\": 5}]",
        "[{\"name\": \"Soup\", \"tags\": \"warm\"}]",
        "[{\"name\": \"Soup\", \"tags\": [1]}]",
    ] {
        let r = Cookbook::connect("cookbook.json".to_string(), bad);
        assert!(
            matches!(r, Err(Error::DeserializationError(_))),
            "accepted: {bad}"
        );
    }
}

#[test]
fn meal_new_defaults_to_no_tags_and_keeps_tag_order() {
    let bare = Meal::new("Soup".to_string(), None);
    assert_eq!(bare.name, "Soup");
    assert!(bare.tags.is_empty());

    let tagged = meal("Salad", &["b", "a"]);
    assert_eq!(tagged.tags, vec!["b".to_string(), "a".to_string()]);
}
