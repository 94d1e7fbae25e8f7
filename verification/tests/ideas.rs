use life_track::errors::ServiceError;
use life_track::idea_service::IdeaStore;
use life_track::models::{CreateIdeaRequest, UpdateIdeaRequest};

fn plain_create(title: &str, content: &str) -> CreateIdeaRequest {
    CreateIdeaRequest {
        title: title.to_string(),
        content: content.to_string(),
        tags: None,
        is_favorite: None,
        category: None,
    }
}

fn empty_update() -> UpdateIdeaRequest {
    UpdateIdeaRequest {
        title: None,
        content: None,
        tags: None,
        is_favorite: None,
        category: None,
    }
}

#[test]
fn create_note_fills_defaults_and_timestamps() {
    let mut store = IdeaStore::new();
    let id = store.create_idea(plain_create("X", "Y"), 700).unwrap();
    let idea = store.get_idea_by_id(id).unwrap().unwrap();
    assert_eq!(idea.title, "X");
    assert_eq!(idea.content, "Y");
    assert_eq!(idea.category, "uncategorized");
    assert!(!idea.is_favorite);
    assert!(idea.tags.is_empty());
    assert_eq!(idea.created_at, 700);
    assert_eq!(idea.updated_at, 700);
}

#[test]
fn search_is_case_insensitive_over_title_and_content() {
    let mut store = IdeaStore::new();
    let id = store
        .create_idea(plain_create("X", "contains shop keyword"), 10)
        .unwrap();
    store.create_idea(plain_create("Other", "nothing here"), 20).unwrap();

    let hits = store.search_ideas("shop".to_string()).unwrap();
    assert_eq!(hits.len(), 1);
    assert_eq!(hits[0].id.as_ref().unwrap().to_hex(), id);

    let hits_upper = store.search_ideas("SHOP".to_string()).unwrap();
    assert_eq!(hits_upper.len(), 1);
    assert_eq!(hits_upper[0].id.as_ref().unwrap().to_hex(), id);

    let misses = store.search_ideas("zzz".to_string()).unwrap();
    assert!(misses.is_empty());
}

#[test]
fn empty_keyword_returns_every_note() {
    let mut store = IdeaStore::new();
    store.create_idea(plain_create("a", "1"), 10).unwrap();
    store.create_idea(plain_create("b", "2"), 30).unwrap();
    store.create_idea(plain_create("c", "3"), 20).unwrap();
    let hits = store.search_ideas(String::new()).unwrap();
    assert_eq!(hits.len(), 3);
    // Newest first.
    assert_eq!(hits[0].title, "b");
    assert_eq!(hits[1].title, "c");
    assert_eq!(hits[2].title, "a");
}

#[test]
fn search_matches_tags_exactly() {
    let mut store = IdeaStore::new();
    let request = CreateIdeaRequest {
        title: "Alpha".to_string(),
        content: "Beta".to_string(),
        tags: Some(vec!["gamma".to_string()]),
        is_favorite: None,
        category: None,
    };
    let id = store.create_idea(request, 1).unwrap();

    let hits = store.search_ideas("gamma".to_string()).unwrap();
    assert_eq!(hits.len(), 1);
    assert_eq!(hits[0].id.as_ref().unwrap().to_hex(), id);

    // Tag membership is exact; only title and content fold case.
    let misses = store.search_ideas("GAMMA".to_string()).unwrap();
    assert!(misses.is_empty());
}

#[test]
fn favorite_toggle_twice_restores_original_value() {
    let mut store = IdeaStore::new();
    let id = store.create_idea(plain_create("f", "c"), 1).unwrap();
    assert!(store.toggle_idea_favorite(id.clone(), 2).unwrap());
    assert!(!store.toggle_idea_favorite(id.clone(), 3).unwrap());
    let idea = store.get_idea_by_id(id).unwrap().unwrap();
    assert!(!idea.is_favorite);
    assert_eq!(idea.updated_at, 3);
}

#[test]
fn favorite_filters_partition_the_collection() {
    let mut store = IdeaStore::new();
    let a = store.create_idea(plain_create("a", "1"), 10).unwrap();
    let b = store.create_idea(plain_create("b", "2"), 20).unwrap();
    store.toggle_idea_favorite(a.clone(), 30).unwrap();

    let ids = |v: Vec<life_track::models::Idea>| -> Vec<String> {
        v.into_iter().map(|i| i.id.unwrap().to_hex()).collect()
    };
    let favs = ids(store.get_ideas(Some(true)).unwrap());
    let plain = ids(store.get_ideas(Some(false)).unwrap());
    let all = ids(store.get_ideas(None).unwrap());

    assert_eq!(favs, vec![a]);
    assert_eq!(plain, vec![b]);
    let mut union: Vec<String> = favs.iter().chain(plain.iter()).cloned().collect();
    union.sort();
    let mut all_sorted = all;
    all_sorted.sort();
    assert_eq!(union, all_sorted);
}

#[test]
fn note_update_touches_only_present_fields() {
    let mut store = IdeaStore::new();
    let request = CreateIdeaRequest {
        title: "Keep".to_string(),
        content: "Original".to_string(),
        tags: Some(vec!["t1".to_string()]),
        is_favorite: Some(true),
        category: Some("notes".to_string()),
    };
    let id = store.create_idea(request, 100).unwrap();
    let mut upd = empty_update();
    upd.content = Some("Changed".to_string());
    assert!(store.update_idea(id.clone(), upd, 200).unwrap());
    let idea = store.get_idea_by_id(id).unwrap().unwrap();
    assert_eq!(idea.title, "Keep");
    assert_eq!(idea.content, "Changed");
    assert_eq!(idea.tags, vec!["t1".to_string()]);
    assert!(idea.is_favorite);
    assert_eq!(idea.category, "notes");
    assert_eq!(idea.created_at, 100);
    assert_eq!(idea.updated_at, 200);
}

#[test]
fn note_update_with_stored_values_reports_not_modified() {
    let mut store = IdeaStore::new();
    let id = store.create_idea(plain_create("s", "c"), 40).unwrap();
    let mut upd = empty_update();
    upd.title = Some("s".to_string());
    upd.content = Some("c".to_string());
    assert!(!store.update_idea(id.clone(), upd, 40).unwrap());
    let mut upd2 = empty_update();
    upd2.title = Some("s".to_string());
    assert!(store.update_idea(id, upd2, 41).unwrap());
}

#[test]
fn note_malformed_id_is_rejected_without_store_interaction() {
    let mut store = IdeaStore::new();
    store.create_idea(plain_create("x", "y"), 1).unwrap();
    let before = store.ops_performed();

    assert!(matches!(
        store.get_idea_by_id("not-an-id".to_string()).unwrap_err(),
        ServiceError::InvalidIdentifier
    ));
    assert!(matches!(
        store
            .update_idea("not-an-id".to_string(), empty_update(), 2)
            .unwrap_err(),
        ServiceError::InvalidIdentifier
    ));
    assert!(matches!(
        store.delete_idea("not-an-id".to_string()).unwrap_err(),
        ServiceError::InvalidIdentifier
    ));
    assert!(matches!(
        store.toggle_idea_favorite("not-an-id".to_string(), 3).unwrap_err(),
        ServiceError::InvalidIdentifier
    ));

    assert_eq!(store.ops_performed(), before);
}

#[test]
fn delete_note_then_get_is_absent() {
    let mut store = IdeaStore::new();
    let id = store.create_idea(plain_create("gone", "soon"), 1).unwrap();
    assert!(store.delete_idea(id.clone()).unwrap());
    assert!(store.get_idea_by_id(id.clone()).unwrap().is_none());
    assert!(!store.delete_idea(id).unwrap());
}

#[test]
fn search_matches_title_too() {
    let mut store = IdeaStore::new();
    let id = store.create_idea(plain_create("Grocery Run", "list"), 5).unwrap();
    let hits = store.search_ideas("grocery".to_string()).unwrap();
    assert_eq!(hits.len(), 1);
    assert_eq!(hits[0].id.as_ref().unwrap().to_hex(), id);
}
