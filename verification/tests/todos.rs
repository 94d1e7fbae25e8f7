use life_track::errors::ServiceError;
use life_track::models::{CreateTodoRequest, UpdateTodoRequest};
use life_track::todo_service::TodoStore;

fn plain_create(title: &str) -> CreateTodoRequest {
    CreateTodoRequest {
        title: title.to_string(),
        description: None,
        priority: None,
        due_date: None,
        tags: None,
        category: None,
    }
}

fn empty_update() -> UpdateTodoRequest {
    UpdateTodoRequest {
        title: None,
        description: None,
        completed: None,
        priority: None,
        due_date: None,
        tags: None,
        category: None,
    }
}

#[test]
fn create_task_fills_defaults_and_timestamps() {
    let mut store = TodoStore::new();
    let id = store.create_todo(plain_create("Buy milk"), 1000).unwrap();
    assert_eq!(id, "000000000000000000000000");
    let todo = store.get_todo_by_id(id).unwrap().unwrap();
    assert_eq!(todo.title, "Buy milk");
    assert_eq!(todo.priority, 3);
    assert_eq!(todo.category, "default");
    assert!(!todo.completed);
    assert!(todo.description.is_none());
    assert!(todo.due_date.is_none());
    assert!(todo.tags.is_empty());
    assert_eq!(todo.created_at, 1000);
    assert_eq!(todo.updated_at, 1000);
}

#[test]
fn task_end_to_end_scenario() {
    let mut store = TodoStore::new();
    let id = store.create_todo(plain_create("Buy milk"), 1000).unwrap();
    let flipped = store.toggle_todo_completion(id.clone(), 2000).unwrap();
    assert!(flipped);
    let todo = store.get_todo_by_id(id.clone()).unwrap().unwrap();
    assert!(todo.completed);
    assert_eq!(todo.updated_at, 2000);
    assert_eq!(todo.created_at, 1000);
    let mut back = empty_update();
    back.completed = Some(false);
    let modified = store.update_todo(id.clone(), back, 3000).unwrap();
    assert!(modified);
    let todo = store.get_todo_by_id(id.clone()).unwrap().unwrap();
    assert!(!todo.completed);
    assert!(store.delete_todo(id.clone()).unwrap());
    assert!(store.get_todo_by_id(id).unwrap().is_none());
}

#[test]
fn update_touches_only_present_fields() {
    let mut store = TodoStore::new();
    let request = CreateTodoRequest {
        title: "Report".to_string(),
        description: Some("quarterly".to_string()),
        priority: Some(2),
        due_date: None,
        tags: Some(vec!["work".to_string(), "urgent".to_string()]),
        category: Some("office".to_string()),
    };
    let id = store.create_todo(request, 100).unwrap();
    let mut upd = empty_update();
    upd.title = Some("Annual report".to_string());
    assert!(store.update_todo(id.clone(), upd, 200).unwrap());
    let todo = store.get_todo_by_id(id).unwrap().unwrap();
    assert_eq!(todo.title, "Annual report");
    assert_eq!(todo.description.as_deref(), Some("quarterly"));
    assert_eq!(todo.priority, 2);
    assert_eq!(todo.tags, vec!["work".to_string(), "urgent".to_string()]);
    assert_eq!(todo.category, "office");
    assert_eq!(todo.created_at, 100);
    assert_eq!(todo.updated_at, 200);
}

#[test]
fn update_with_stored_values_reports_not_modified() {
    let mut store = TodoStore::new();
    let id = store.create_todo(plain_create("Same"), 500).unwrap();
    let mut upd = empty_update();
    upd.title = Some("Same".to_string());
    upd.completed = Some(false);
    upd.priority = Some(3);
    // The merge always rewrites updated_at, so the document is unchanged
    // only when the refreshed timestamp repeats the stored one.
    let modified = store.update_todo(id.clone(), upd, 500).unwrap();
    assert!(!modified);
    let mut upd2 = empty_update();
    upd2.title = Some("Same".to_string());
    let modified_later = store.update_todo(id, upd2, 501).unwrap();
    assert!(modified_later);
}

#[test]
fn update_unknown_id_reports_false() {
    let mut store = TodoStore::new();
    store.create_todo(plain_create("One"), 1).unwrap();
    let modified = store
        .update_todo("ffffffffffffffffffffffff".to_string(), empty_update(), 2)
        .unwrap();
    assert!(!modified);
}

#[test]
fn toggle_twice_restores_original_value() {
    let mut store = TodoStore::new();
    let id = store.create_todo(plain_create("Flip"), 10).unwrap();
    let first = store.toggle_todo_completion(id.clone(), 20).unwrap();
    assert!(first);
    let second = store.toggle_todo_completion(id.clone(), 30).unwrap();
    // The second call reports the value the record held before the first.
    assert!(!second);
    let todo = store.get_todo_by_id(id).unwrap().unwrap();
    assert!(!todo.completed);
}

#[test]
fn toggle_unknown_id_is_not_found() {
    let mut store = TodoStore::new();
    let err = store
        .toggle_todo_completion("ffffffffffffffffffffffff".to_string(), 1)
        .unwrap_err();
    assert!(matches!(err, ServiceError::NotFound));
}

#[test]
fn list_filters_partition_the_collection() {
    let mut store = TodoStore::new();
    let a = store.create_todo(plain_create("a"), 10).unwrap();
    let b = store.create_todo(plain_create("b"), 30).unwrap();
    let c = store.create_todo(plain_create("c"), 20).unwrap();
    store.toggle_todo_completion(b.clone(), 40).unwrap();

    let ids = |v: Vec<life_track::models::Todo>| -> Vec<String> {
        v.into_iter().map(|t| t.id.unwrap().to_hex()).collect()
    };
    let done = ids(store.get_todos(Some(true)).unwrap());
    let open = ids(store.get_todos(Some(false)).unwrap());
    let all = ids(store.get_todos(None).unwrap());

    assert_eq!(done, vec![b.clone()]);
    let mut union: Vec<String> = done.iter().chain(open.iter()).cloned().collect();
    union.sort();
    let mut all_sorted = all.clone();
    all_sorted.sort();
    assert_eq!(union, all_sorted);
    // Newest first: created 30, then 20, then 10.
    assert_eq!(all, vec![b, c, a]);
}

#[test]
fn list_is_empty_when_nothing_matches() {
    let mut store = TodoStore::new();
    store.create_todo(plain_create("open"), 1).unwrap();
    let done = store.get_todos(Some(true)).unwrap();
    assert!(done.is_empty());
    let mut empty_store = TodoStore::new();
    assert!(empty_store.get_todos(None).unwrap().is_empty());
}

#[test]
fn malformed_id_is_rejected_without_store_interaction() {
    let mut store = TodoStore::new();
    store.create_todo(plain_create("x"), 1).unwrap();
    let before = store.ops_performed();

    let err = store.get_todo_by_id("not-an-id".to_string()).unwrap_err();
    assert!(matches!(err, ServiceError::InvalidIdentifier));
    let err = store
        .update_todo("not-an-id".to_string(), empty_update(), 2)
        .unwrap_err();
    assert!(matches!(err, ServiceError::InvalidIdentifier));
    let err = store.delete_todo("not-an-id".to_string()).unwrap_err();
    assert!(matches!(err, ServiceError::InvalidIdentifier));
    let err = store
        .toggle_todo_completion("not-an-id".to_string(), 3)
        .unwrap_err();
    assert!(matches!(err, ServiceError::InvalidIdentifier));

    assert_eq!(store.ops_performed(), before);
}

#[test]
fn invalid_date_rejects_create_and_update() {
    let mut store = TodoStore::new();
    let mut bad = plain_create("dated");
    bad.due_date = Some("not-a-date".to_string());
    let err = store.create_todo(bad, 1).unwrap_err();
    assert!(matches!(err, ServiceError::InvalidDateFormat));
    assert_eq!(store.ops_performed(), 0);

    let id = store.create_todo(plain_create("dated"), 1).unwrap();
    let mut upd = empty_update();
    upd.due_date = Some("2024-13-99T99:99:99Z".to_string());
    let err = store.update_todo(id.clone(), upd, 2).unwrap_err();
    assert!(matches!(err, ServiceError::InvalidDateFormat));
    let todo = store.get_todo_by_id(id).unwrap().unwrap();
    assert_eq!(todo.updated_at, 1);
}

#[test]
fn due_date_is_parsed_to_utc_millis() {
    let mut store = TodoStore::new();
    let mut req = plain_create("due");
    req.due_date = Some("2024-01-15T10:30:00Z".to_string());
    let id = store.create_todo(req, 1).unwrap();
    let todo = store.get_todo_by_id(id).unwrap().unwrap();
    assert_eq!(todo.due_date, Some(1705314600000));

    let mut req2 = plain_create("due offset");
    req2.due_date = Some("2024-01-15T10:30:00+02:00".to_string());
    let id2 = store.create_todo(req2, 1).unwrap();
    let todo2 = store.get_todo_by_id(id2).unwrap().unwrap();
    assert_eq!(todo2.due_date, Some(1705307400000));
}

#[test]
fn upper_case_id_finds_the_same_record() {
    let mut store = TodoStore::new();
    let mut req = plain_create("abc");
    req.priority = Some(1);
    let id = store.create_todo(req, 1).unwrap();
    let upper = id.to_uppercase();
    let todo = store.get_todo_by_id(upper).unwrap().unwrap();
    assert_eq!(todo.title, "abc");
}

#[test]
fn created_ids_are_distinct_and_sequential() {
    let mut store = TodoStore::new();
    let a = store.create_todo(plain_create("a"), 1).unwrap();
    let b = store.create_todo(plain_create("b"), 1).unwrap();
    assert_ne!(a, b);
    assert_eq!(a, "000000000000000000000000");
    assert_eq!(b, "000000000000000000000001");
}

#[test]
fn equal_creation_times_keep_both_records() {
    let mut store = TodoStore::new();
    let a = store.create_todo(plain_create("tie-a"), 50).unwrap();
    let b = store.create_todo(plain_create("tie-b"), 50).unwrap();
    let all = store.get_todos(None).unwrap();
    assert_eq!(all.len(), 2);
    let mut ids: Vec<String> = all.into_iter().map(|t| t.id.unwrap().to_hex()).collect();
    ids.sort();
    let mut expected = vec![a, b];
    expected.sort();
    assert_eq!(ids, expected);
}

#[test]
fn out_of_range_priority_is_stored_unchanged() {
    let mut store = TodoStore::new();
    let mut req = plain_create("loose");
    req.priority = Some(42);
    let id = store.create_todo(req, 1).unwrap();
    let todo = store.get_todo_by_id(id).unwrap().unwrap();
    assert_eq!(todo.priority, 42);
}

#[test]
fn update_can_set_due_date() {
    let mut store = TodoStore::new();
    let id = store.create_todo(plain_create("dated later"), 1).unwrap();
    let mut upd = empty_update();
    upd.due_date = Some("1970-01-01T00:00:01Z".to_string());
    assert!(store.update_todo(id.clone(), upd, 2).unwrap());
    let todo = store.get_todo_by_id(id).unwrap().unwrap();
    assert_eq!(todo.due_date, Some(1000));
}
