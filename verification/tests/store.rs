//! End-to-end tests of the versioned item store: CRUD, snapshots, restore,
//! search and the derived aggregates.

use grimoire::category::Category;
use grimoire::item::{Item, StoreError};
use grimoire::store::ItemStore;

fn item(name: &str, category: Category, content: &str) -> Item {
    Item::new(name.to_string(), category, content.to_string())
}

#[test]
fn insert_assigns_identifier_and_version_one() {
    let mut store = ItemStore::new();
    let a = item("x", Category::Prompt, "hello");
    let id = store.insert_at(&a, 100).unwrap();
    assert_eq!(id, 1);
    let row = store.get(id).unwrap();
    assert_eq!(row.version, 1);
    assert_eq!(row.name, "x");
    assert_eq!(row.content, "hello");
    assert_eq!(row.created_at, Some(100));
    assert_eq!(row.updated_at, Some(100));
}

#[test]
fn get_unknown_identifier_is_none() {
    let store = ItemStore::new();
    assert!(store.get(7).is_none());
}

#[test]
fn version_monotonicity_over_updates() {
    let mut store = ItemStore::new();
    let id = store.insert_at(&item("x", Category::Prompt, "v1"), 10).unwrap();
    for n in 2..=5u64 {
        let mut edit = store.get(id).unwrap();
        edit.content = format!("v{}", n);
        store.update_at(&edit, 10 + n).unwrap();
    }
    // after 4 updates the current version is 5 and the history holds 1..=4
    let versions = store.list_versions(id);
    assert_eq!(versions.len(), 5);
    assert!(versions[0].is_current);
    assert_eq!(versions[0].version, 5);
    let historical: Vec<u64> = versions[1..].iter().map(|v| v.version).collect();
    assert_eq!(historical, vec![4, 3, 2, 1]);
}

#[test]
fn snapshot_before_write_keeps_prior_fields() {
    let mut store = ItemStore::new();
    let id = store.insert_at(&item("x", Category::Prompt, "hello"), 10).unwrap();
    let mut edit = store.get(id).unwrap();
    edit.content = "world".to_string();
    store.update_at(&edit, 20).unwrap();

    let old = store.get_version(id, 1).unwrap();
    assert_eq!(old.content, "hello");
    assert_eq!(old.version, 1);
    let current = store.get_version(id, 2).unwrap();
    assert_eq!(current.content, "world");
    assert_eq!(current.version, 2);
    assert!(store.get_version(id, 3).is_none());
    assert!(store.get_version(id, 0).is_none());
}

#[test]
fn update_snapshots_persisted_state_not_callers_copy() {
    let mut store = ItemStore::new();
    let id = store.insert_at(&item("x", Category::Prompt, "stored"), 10).unwrap();
    // the caller's copy disagrees with the persisted row; the snapshot must
    // capture the persisted state
    let mut edit = store.get(id).unwrap();
    edit.content = "new".to_string();
    store.update_at(&edit, 20).unwrap();
    assert_eq!(store.get_version(id, 1).unwrap().content, "stored");
}

#[test]
fn restore_is_additive() {
    let mut store = ItemStore::new();
    let id = store.insert_at(&item("x", Category::Prompt, "hello"), 10).unwrap();
    let mut edit = store.get(id).unwrap();
    edit.content = "world".to_string();
    store.update_at(&edit, 20).unwrap();

    store.restore_version_at(id, 1, 30).unwrap();
    let current = store.get(id).unwrap();
    assert_eq!(current.version, 3);
    assert_eq!(current.content, "hello");
    let versions = store.list_versions(id);
    assert_eq!(versions.len(), 3);
    assert!(versions[0].is_current);
    assert_eq!(versions[0].version, 3);
    assert_eq!(versions[1].version, 2);
    assert_eq!(versions[2].version, 1);
}

#[test]
fn restore_unknown_version_is_not_found() {
    let mut store = ItemStore::new();
    let id = store.insert_at(&item("x", Category::Prompt, "hello"), 10).unwrap();
    assert_eq!(store.restore_version_at(id, 9, 20), Err(StoreError::NotFound));
    assert_eq!(store.restore_version_at(77, 1, 20), Err(StoreError::NotFound));
    assert_eq!(store.get(id).unwrap().version, 1);
}

#[test]
fn duplicate_name_is_conflict_and_leaves_store_unchanged() {
    let mut store = ItemStore::new();
    store.insert_at(&item("x", Category::Prompt, "one"), 10).unwrap();
    let r = store.insert_at(&item("x", Category::Command, "two"), 20);
    assert_eq!(r, Err(StoreError::Conflict));
    assert_eq!(store.list_recent(100).len(), 1);
    assert_eq!(store.list_recent(100)[0].content, "one");
}

#[test]
fn update_to_taken_name_is_conflict() {
    let mut store = ItemStore::new();
    let a = store.insert_at(&item("a", Category::Prompt, "one"), 10).unwrap();
    store.insert_at(&item("b", Category::Prompt, "two"), 11).unwrap();
    let mut edit = store.get(a).unwrap();
    edit.name = "b".to_string();
    assert_eq!(store.update_at(&edit, 20), Err(StoreError::Conflict));
    assert_eq!(store.get(a).unwrap().name, "a");
}

#[test]
fn update_without_identifier_is_not_found() {
    let mut store = ItemStore::new();
    let r = store.update_at(&item("x", Category::Prompt, "hello"), 10);
    assert_eq!(r, Err(StoreError::NotFound));
}

#[test]
fn idempotent_delete() {
    let mut store = ItemStore::new();
    let id = store.insert_at(&item("x", Category::Prompt, "hello"), 10).unwrap();
    // deleting something that never existed succeeds and changes nothing
    assert!(store.delete(99).is_ok());
    assert_eq!(store.list_recent(100).len(), 1);
    // deleting twice is fine too
    assert!(store.delete(id).is_ok());
    assert!(store.delete(id).is_ok());
    assert!(store.get(id).is_none());
    assert_eq!(store.list_recent(100).len(), 0);
}

#[test]
fn delete_cascades_to_history() {
    let mut store = ItemStore::new();
    let id = store.insert_at(&item("x", Category::Prompt, "hello"), 10).unwrap();
    let mut edit = store.get(id).unwrap();
    edit.content = "world".to_string();
    store.update_at(&edit, 20).unwrap();
    store.delete(id).unwrap();
    assert!(store.list_versions(id).is_empty());
    assert!(store.get_version(id, 1).is_none());
}

#[test]
fn validation_rejected_before_any_persistence() {
    let mut store = ItemStore::new();
    // blank name
    assert_eq!(
        store.insert_at(&item("  ", Category::Prompt, "body"), 10),
        Err(StoreError::Validation)
    );
    // blank content
    assert_eq!(
        store.insert_at(&item("n", Category::Prompt, " "), 10),
        Err(StoreError::Validation)
    );
    assert_eq!(store.list_recent(100).len(), 0);
}

#[test]
fn category_validation_agent_needs_description() {
    let mut store = ItemStore::new();
    let agent = item("helper", Category::Agent, "body");
    assert_eq!(store.insert_at(&agent, 10), Err(StoreError::Validation));
    // the very same payload passes as a prompt
    let prompt = item("helper", Category::Prompt, "body");
    assert!(store.insert_at(&prompt, 10).is_ok());
    // and the agent passes once a description is set
    let mut agent2 = item("agent2", Category::Agent, "body");
    agent2.description = Some("does things".to_string());
    assert!(store.insert_at(&agent2, 11).is_ok());
}

#[test]
fn search_consistency_across_update() {
    let mut store = ItemStore::new();
    let id = store
        .insert_at(&item("note", Category::Prompt, "zebra migration"), 10)
        .unwrap();
    assert_eq!(store.search("zebra").len(), 1);
    assert_eq!(store.search("walrus").len(), 0);

    let mut edit = store.get(id).unwrap();
    edit.content = "walrus migration".to_string();
    store.update_at(&edit, 20).unwrap();

    // the removed token no longer matches; the added one does
    assert_eq!(store.search("zebra").len(), 0);
    let hits = store.search("walrus");
    assert_eq!(hits.len(), 1);
    assert_eq!(hits[0].id, Some(id));
}

#[test]
fn search_requires_every_token_and_ignores_case() {
    let mut store = ItemStore::new();
    store
        .insert_at(&item("a", Category::Prompt, "Red Panda habitat"), 10)
        .unwrap();
    store.insert_at(&item("b", Category::Prompt, "red fox"), 11).unwrap();
    assert_eq!(store.search("red panda").len(), 1);
    assert_eq!(store.search("RED").len(), 2);
    assert_eq!(store.search("panda fox").len(), 0);
    assert_eq!(store.search("").len(), 0);
    assert_eq!(store.search("  ,;  ").len(), 0);
}

#[test]
fn search_ranks_heavier_use_first() {
    let mut store = ItemStore::new();
    store
        .insert_at(&item("once", Category::Prompt, "kiwi"), 10)
        .unwrap();
    store
        .insert_at(&item("thrice", Category::Prompt, "kiwi kiwi kiwi"), 11)
        .unwrap();
    let hits = store.search("kiwi");
    assert_eq!(hits.len(), 2);
    assert_eq!(hits[0].name, "thrice");
    assert_eq!(hits[1].name, "once");
}

#[test]
fn search_index_covers_name_description_and_tags() {
    let mut store = ItemStore::new();
    let mut a = item("quasar", Category::Prompt, "body");
    a.description = Some("about nebulae".to_string());
    a.tags = Some("astronomy, space".to_string());
    store.insert_at(&a, 10).unwrap();
    assert_eq!(store.search("quasar").len(), 1);
    assert_eq!(store.search("nebulae").len(), 1);
    assert_eq!(store.search("astronomy").len(), 1);
}

#[test]
fn tag_aggregation_determinism() {
    let mut store = ItemStore::new();
    let mut a = item("a", Category::Prompt, "1");
    a.tags = Some("Go, rust".to_string());
    let mut b = item("b", Category::Prompt, "2");
    b.tags = Some("go".to_string());
    let mut c = item("c", Category::Prompt, "3");
    c.tags = Some("RUST, go".to_string());
    store.insert_at(&a, 10).unwrap();
    store.insert_at(&b, 11).unwrap();
    store.insert_at(&c, 12).unwrap();
    let tags = store.get_tags_with_counts();
    assert_eq!(tags, vec![("go".to_string(), 3), ("rust".to_string(), 2)]);
}

#[test]
fn tag_aggregation_breaks_count_ties_lexically() {
    let mut store = ItemStore::new();
    let mut a = item("a", Category::Prompt, "1");
    a.tags = Some("pear, apple".to_string());
    store.insert_at(&a, 10).unwrap();
    let tags = store.get_tags_with_counts();
    assert_eq!(tags, vec![("apple".to_string(), 1), ("pear".to_string(), 1)]);
}

#[test]
fn tag_aggregation_trims_and_drops_blanks() {
    let mut store = ItemStore::new();
    let mut a = item("a", Category::Prompt, "1");
    a.tags = Some("  spaced  , ,, other".to_string());
    store.insert_at(&a, 10).unwrap();
    let tags = store.get_tags_with_counts();
    assert_eq!(
        tags,
        vec![("other".to_string(), 1), ("spaced".to_string(), 1)]
    );
}

#[test]
fn list_recent_orders_by_update_time_and_caps() {
    let mut store = ItemStore::new();
    let a = store.insert_at(&item("a", Category::Prompt, "1"), 10).unwrap();
    let b = store.insert_at(&item("b", Category::Prompt, "2"), 20).unwrap();
    let c = store.insert_at(&item("c", Category::Prompt, "3"), 15).unwrap();
    let all = store.list_recent(100);
    let names: Vec<&str> = all.iter().map(|i| i.name.as_str()).collect();
    assert_eq!(names, vec!["b", "c", "a"]);
    let capped = store.list_recent(2);
    let names: Vec<&str> = capped.iter().map(|i| i.name.as_str()).collect();
    assert_eq!(names, vec!["b", "c"]);
    // an update refreshes recency
    let mut edit = store.get(a).unwrap();
    edit.content = "1!".to_string();
    store.update_at(&edit, 30).unwrap();
    let names: Vec<String> = store.list_recent(100).iter().map(|i| i.name.clone()).collect();
    assert_eq!(names, vec!["a", "b", "c"]);
    assert_eq!((a, b, c), (1, 2, 3));
}

#[test]
fn equal_timestamps_break_ties_by_identifier() {
    let mut store = ItemStore::new();
    store.insert_at(&item("first", Category::Prompt, "1"), 10).unwrap();
    store.insert_at(&item("second", Category::Prompt, "2"), 10).unwrap();
    let names: Vec<String> = store.list_recent(100).iter().map(|i| i.name.clone()).collect();
    assert_eq!(names, vec!["first", "second"]);
}

#[test]
fn list_by_category_filters_exactly() {
    let mut store = ItemStore::new();
    store.insert_at(&item("p", Category::Prompt, "1"), 10).unwrap();
    let mut agent = item("a", Category::Agent, "2");
    agent.description = Some("d".to_string());
    store.insert_at(&agent, 20).unwrap();
    let prompts = store.list_by_category(Category::Prompt);
    assert_eq!(prompts.len(), 1);
    assert_eq!(prompts[0].name, "p");
    let commands = store.list_by_category(Category::Command);
    assert!(commands.is_empty());
}

#[test]
fn list_by_tag_is_substring_match() {
    let mut store = ItemStore::new();
    let mut a = item("a", Category::Prompt, "1");
    a.tags = Some("golang".to_string());
    let mut b = item("b", Category::Prompt, "2");
    b.tags = Some("Go".to_string());
    let c = item("c", Category::Prompt, "3");
    store.insert_at(&a, 10).unwrap();
    store.insert_at(&b, 20).unwrap();
    store.insert_at(&c, 30).unwrap();
    // "go" matches inside "golang" too, and matching ignores case
    let hits = store.list_by_tag("go");
    let names: Vec<String> = hits.iter().map(|i| i.name.clone()).collect();
    assert_eq!(names, vec!["b", "a"]);
}

#[test]
fn count_by_category_skips_empty_categories() {
    let mut store = ItemStore::new();
    store.insert_at(&item("p1", Category::Prompt, "1"), 10).unwrap();
    store.insert_at(&item("p2", Category::Prompt, "2"), 11).unwrap();
    let mut s = item("s", Category::Skill, "3");
    s.description = Some("d".to_string());
    store.insert_at(&s, 12).unwrap();
    let counts = store.count_by_category();
    assert_eq!(
        counts,
        vec![(Category::Prompt, 2), (Category::Skill, 1)]
    );
}

#[test]
fn full_versioning_scenario() {
    // insert A at version 1, update to version 2, restore version 1 to get
    // version 3 carrying the original content
    let mut store = ItemStore::new();
    let a = item("x", Category::Prompt, "hello");
    let id = store.insert_at(&a, 100).unwrap();
    assert_eq!(store.get(id).unwrap().version, 1);

    let mut edit = store.get(id).unwrap();
    edit.content = "world".to_string();
    store.update_at(&edit, 200).unwrap();
    let current = store.get(id).unwrap();
    assert_eq!(current.version, 2);
    assert_eq!(current.content, "world");
    let versions = store.list_versions(id);
    assert_eq!(versions.len(), 2);
    assert_eq!(versions[1].version, 1);
    assert_eq!(store.get_version(id, 1).unwrap().content, "hello");

    store.restore_version_at(id, 1, 300).unwrap();
    let current = store.get(id).unwrap();
    assert_eq!(current.version, 3);
    assert_eq!(current.content, "hello");
    let versions = store.list_versions(id);
    assert_eq!(versions.len(), 3);
    assert_eq!(versions[1].version, 2);
    assert_eq!(versions[2].version, 1);
    assert_eq!(store.get_version(id, 2).unwrap().content, "world");
}

#[test]
fn update_keeps_created_at_and_refreshes_updated_at() {
    let mut store = ItemStore::new();
    let id = store.insert_at(&item("x", Category::Prompt, "a"), 100).unwrap();
    let mut edit = store.get(id).unwrap();
    edit.content = "b".to_string();
    store.update_at(&edit, 250).unwrap();
    let row = store.get(id).unwrap();
    assert_eq!(row.created_at, Some(100));
    assert_eq!(row.updated_at, Some(250));
}

#[test]
fn wall_clock_operations_work_end_to_end() {
    let mut store = ItemStore::new();
    let id = store.insert(&item("x", Category::Prompt, "hello")).unwrap();
    let mut edit = store.get(id).unwrap();
    edit.content = "world".to_string();
    store.update(&edit).unwrap();
    store.restore_version(id, 1).unwrap();
    let row = store.get(id).unwrap();
    assert_eq!(row.version, 3);
    assert_eq!(row.content, "hello");
}

#[test]
fn next_identifier_is_never_reused() {
    let mut store = ItemStore::new();
    assert_eq!(store.next_id(), 1);
    let a = store.insert_at(&item("a", Category::Prompt, "1"), 10).unwrap();
    let b = store.insert_at(&item("b", Category::Prompt, "2"), 11).unwrap();
    store.delete(b).unwrap();
    let c = store.insert_at(&item("c", Category::Prompt, "3"), 12).unwrap();
    assert_eq!((a, b, c), (1, 2, 3));
    assert_eq!(store.next_id(), 4);
}

#[test]
fn reload_path_preserves_identifiers() {
    let mut store = ItemStore::new();
    let mut a = item("kept", Category::Prompt, "body");
    a.id = None;
    let id = store.insert_with_id_at(&a, 41, 10).unwrap();
    assert_eq!(id, 41);
    assert_eq!(store.get(41).unwrap().name, "kept");
    assert_eq!(store.next_id(), 42);
}
