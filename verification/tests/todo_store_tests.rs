use record_store::{StoreError, TodoStore};

#[test]
fn create_todo_sets_defaults() {
    let mut store = TodoStore::new();
    let todo = store.create_todo("Test Todo".to_string(), None, 100).unwrap();
    assert_eq!(todo.id, 1);
    assert_eq!(todo.title, "Test Todo");
    assert_eq!(todo.description, None);
    assert!(!todo.completed);
    assert_eq!(todo.created_at, 100);
    assert_eq!(todo.updated_at, 100);
}

#[test]
fn create_todo_assigns_fresh_ids() {
    let mut store = TodoStore::new();
    let a = store.create_todo("First".to_string(), None, 100).unwrap();
    let b = store.create_todo("Second".to_string(), None, 101).unwrap();
    assert_ne!(a.id, b.id);
    assert_eq!(b.id, a.id + 1);
}

#[test]
fn create_todo_rejects_empty_title() {
    let mut store = TodoStore::new();
    let r = store.create_todo(String::new(), None, 100);
    assert_eq!(r, Err(StoreError::Validation));
    assert!(store.get_todos().is_empty());
}

#[test]
fn create_todo_exhausted_ids_is_storage_error() {
    let mut store = TodoStore { todos: Vec::new(), next_id: i64::MAX };
    let r = store.create_todo("Late".to_string(), None, 100);
    assert_eq!(r, Err(StoreError::Storage));
}

#[test]
fn get_todos_starts_empty() {
    let store = TodoStore::new();
    assert!(store.get_todos().is_empty());
}

#[test]
fn get_todos_lists_in_insertion_order() {
    let mut store = TodoStore::new();
    store.create_todo("A".to_string(), None, 100).unwrap();
    store.create_todo("B".to_string(), None, 101).unwrap();
    let todos = store.get_todos();
    assert_eq!(todos.len(), 2);
    assert_eq!(todos[0].title, "A");
    assert_eq!(todos[1].title, "B");
}

#[test]
fn update_todo_title_only_keeps_other_fields() {
    let mut store = TodoStore::new();
    let todo = store
        .create_todo("Update Test".to_string(), Some("keep me".to_string()), 100)
        .unwrap();
    let updated = store
        .update_todo(todo.id, Some("Updated Title".to_string()), None, None, 200)
        .unwrap();
    assert_eq!(updated.title, "Updated Title");
    assert_eq!(updated.description, Some("keep me".to_string()));
    assert!(!updated.completed);
    assert_eq!(updated.created_at, 100);
    assert_eq!(updated.updated_at, 200);
    let stored = store.get_todo_by_id(todo.id).unwrap();
    assert_eq!(stored.title, "Updated Title");
    assert_eq!(stored.description, Some("keep me".to_string()));
    assert_eq!(stored.updated_at, 200);
}

#[test]
fn update_todo_completed_only_keeps_title() {
    let mut store = TodoStore::new();
    let todo = store.create_todo("Flag me".to_string(), None, 100).unwrap();
    let updated = store.update_todo(todo.id, None, None, Some(true), 150).unwrap();
    assert_eq!(updated.title, "Flag me");
    assert!(updated.completed);
    assert_eq!(updated.updated_at, 150);
}

#[test]
fn update_todo_refreshes_updated_at_even_without_changes() {
    let mut store = TodoStore::new();
    let todo = store.create_todo("Same".to_string(), None, 100).unwrap();
    let updated = store.update_todo(todo.id, None, None, None, 250).unwrap();
    assert_eq!(updated.title, "Same");
    assert_eq!(updated.created_at, 100);
    assert_eq!(updated.updated_at, 250);
}

#[test]
fn update_todo_missing_id_is_not_found() {
    let mut store = TodoStore::new();
    let r = store.update_todo(42, Some("X".to_string()), None, None, 100);
    assert_eq!(r, Err(StoreError::NotFound));
}

#[test]
fn update_todo_rejects_empty_title() {
    let mut store = TodoStore::new();
    let todo = store.create_todo("Keep".to_string(), None, 100).unwrap();
    let r = store.update_todo(todo.id, Some(String::new()), None, None, 200);
    assert_eq!(r, Err(StoreError::Validation));
    let stored = store.get_todo_by_id(todo.id).unwrap();
    assert_eq!(stored.title, "Keep");
    assert_eq!(stored.updated_at, 100);
}

#[test]
fn delete_todo_then_list_lacks_the_id() {
    let mut store = TodoStore::new();
    let a = store.create_todo("A".to_string(), None, 100).unwrap();
    let b = store.create_todo("B".to_string(), None, 101).unwrap();
    let c = store.create_todo("C".to_string(), None, 102).unwrap();
    store.delete_todo(b.id);
    let todos = store.get_todos();
    assert!(todos.iter().all(|t| t.id != b.id));
    assert_eq!(todos.len(), 2);
    assert!(todos.iter().any(|t| t.id == a.id));
    assert!(todos.iter().any(|t| t.id == c.id));
}

#[test]
fn delete_todo_absent_id_changes_nothing() {
    let mut store = TodoStore::new();
    store.create_todo("Still here".to_string(), None, 100).unwrap();
    store.delete_todo(999);
    assert_eq!(store.get_todos().len(), 1);
}

#[test]
fn get_todo_by_id_finds_the_exact_record() {
    let mut store = TodoStore::new();
    let todo = store.create_todo("Get by ID Test".to_string(), None, 100).unwrap();
    let fetched = store.get_todo_by_id(todo.id).unwrap();
    assert_eq!(fetched.title, "Get by ID Test");
    assert_eq!(fetched.id, todo.id);
}

#[test]
fn get_todo_by_id_missing_is_not_found() {
    let store = TodoStore::new();
    assert_eq!(store.get_todo_by_id(7), Err(StoreError::NotFound));
}

#[test]
fn completion_filter_is_exact() {
    let mut store = TodoStore::new();
    let a = store.create_todo("Done".to_string(), None, 100).unwrap();
    store.create_todo("Pending".to_string(), None, 101).unwrap();
    store.update_todo(a.id, None, None, Some(true), 102).unwrap();
    let complete = store.get_todos_by_completion(true);
    let incomplete = store.get_todos_by_completion(false);
    assert_eq!(complete.len(), 1);
    assert_eq!(complete[0].title, "Done");
    assert_eq!(incomplete.len(), 1);
    assert_eq!(incomplete[0].title, "Pending");
}

#[test]
fn time_range_uses_inclusive_bounds() {
    let mut store = TodoStore::new();
    // 2001-09-09T01:46:40, 2020-01-01T00:00:00 and 2020-09-13T12:26:40.
    store.create_todo("Early".to_string(), None, 1000000000).unwrap();
    store.create_todo("OnStart".to_string(), None, 1577836800).unwrap();
    store.create_todo("OnEnd".to_string(), None, 1600000000).unwrap();
    let r = store
        .get_todos_by_time_range("2020-01-01T00:00:00", "2020-09-13T12:26:40")
        .unwrap();
    assert_eq!(r.len(), 2);
    assert_eq!(r[0].title, "OnStart");
    assert_eq!(r[1].title, "OnEnd");
}

#[test]
fn time_range_outside_everything_is_empty() {
    let mut store = TodoStore::new();
    store.create_todo("Late".to_string(), None, 1600000000).unwrap();
    let r = store
        .get_todos_by_time_range("1999-01-01T00:00:00", "1999-12-31T23:59:59")
        .unwrap();
    assert!(r.is_empty());
}

#[test]
fn time_range_rejects_malformed_bounds() {
    let store = TodoStore::new();
    let r = store.get_todos_by_time_range("not-a-date", "2020-01-01T00:00:00");
    assert_eq!(r, Err(StoreError::Validation));
    let r = store.get_todos_by_time_range("2020-01-01T00:00:00", "2020-13-45T99:00:00");
    assert_eq!(r, Err(StoreError::Validation));
}
