use todo_store::TodoList;

#[test]
fn init_todo() {
    let todo = TodoList::new();
    assert!(todo.is_empty());
}

#[test]
fn add_item() {
    let mut todo = TodoList::new();
    todo.add("Something to do".to_string());
    assert_eq!(todo.get("Something to do"), Some(true));
}

#[test]
fn add_items_already_exist() {
    let mut todo = TodoList::new();
    todo.add("Something to do".to_string());
    todo.add("Something to do".to_string());
    assert_eq!(todo.get("Something to do"), Some(true));
    assert_eq!(todo.len(), 1);
}

#[test]
fn add_item_does_not_change_value() {
    let mut todo = TodoList::new();
    todo.add("Something to do".to_string());

    assert!(todo.mark("Something to do".to_string(), false).is_ok());

    todo.add("Something to do".to_string());
    assert_eq!(todo.get("Something to do"), Some(false));
    assert_eq!(todo.len(), 1);
}

#[test]
fn mark_item() {
    let mut todo = TodoList::new();
    todo.add("Something to do".to_string());
    assert!(todo.mark("Something to do".to_string(), false).is_ok());
    assert_eq!(todo.get("Something to do"), Some(false));
    assert!(todo.mark("Something to do".to_string(), true).is_ok());
    assert_eq!(todo.get("Something to do"), Some(true));
}

#[test]
fn mark_item_does_not_exist() {
    let mut todo = TodoList::new();
    assert_eq!(
        todo.mark("Something to do".to_string(), false),
        Err("Something to do".to_string())
    );
}

#[test]
fn list_items() {
    let mut todo = TodoList::new();
    todo.add("Something to do".to_string());
    todo.add("Something else to do".to_string());
    todo.add("Something done".to_string());
    todo.mark("Something done".to_string(), false).unwrap();

    let (todo_items, done_items) = todo.list();

    assert!(todo_items.contains(&"Something to do".to_string()));
    assert!(todo_items.contains(&"Something else to do".to_string()));
    assert_eq!(todo_items.len(), 2);
    assert!(done_items.contains(&"Something done".to_string()));
    assert_eq!(done_items.len(), 1);
}

#[test]
fn get_absent_task_is_none() {
    let todo = TodoList::new();
    assert_eq!(todo.get("Nothing"), None);
}

#[test]
fn mark_absent_leaves_store_unchanged() {
    let mut todo = TodoList::new();
    todo.add("A".to_string());
    assert_eq!(todo.mark("B".to_string(), true), Err("B".to_string()));
    assert_eq!(todo.len(), 1);
    assert_eq!(todo.get("A"), Some(true));
    assert_eq!(todo.get("B"), None);
}

#[test]
fn mark_toggles_and_last_wins() {
    let mut todo = TodoList::new();
    todo.add("A".to_string());
    todo.mark("A".to_string(), false).unwrap();
    todo.mark("A".to_string(), true).unwrap();
    todo.mark("A".to_string(), false).unwrap();
    assert_eq!(todo.get("A"), Some(false));
    assert_eq!(todo.len(), 1);
}

#[test]
fn list_partitions_every_task() {
    let mut todo = TodoList::new();
    for name in ["a", "b", "c", "d", "e"] {
        todo.add(name.to_string());
    }
    todo.mark("b".to_string(), false).unwrap();
    todo.mark("d".to_string(), false).unwrap();
    let (open, done) = todo.list();
    assert_eq!(open.len() + done.len(), todo.len());
    for name in &open {
        assert!(!done.contains(name));
        assert_eq!(todo.get(name), Some(true));
    }
    for name in &done {
        assert_eq!(todo.get(name), Some(false));
    }
    assert_eq!(done.len(), 2);
}

#[test]
fn clear_empties_and_lists_nothing() {
    let mut todo = TodoList::new();
    todo.add("A".to_string());
    todo.add("B".to_string());
    todo.clear();
    assert!(todo.is_empty());
    assert_eq!(todo.len(), 0);
    let (open, done) = todo.list();
    assert!(open.is_empty());
    assert!(done.is_empty());
}

#[test]
fn scenario_buy_milk_walk_dog() {
    let mut todo = TodoList::new();
    todo.add("Buy milk".to_string());
    assert_eq!(todo.get("Buy milk"), Some(true));
    assert_eq!(todo.len(), 1);
    todo.add("Walk dog".to_string());
    assert_eq!(todo.get("Buy milk"), Some(true));
    assert_eq!(todo.get("Walk dog"), Some(true));
    assert_eq!(todo.len(), 2);
    todo.mark("Buy milk".to_string(), false).unwrap();
    assert_eq!(todo.get("Buy milk"), Some(false));
    assert_eq!(todo.get("Walk dog"), Some(true));
    let (flag_true, flag_false) = todo.list();
    assert_eq!(flag_true, vec!["Walk dog".to_string()]);
    assert_eq!(flag_false, vec!["Buy milk".to_string()]);
}

#[test]
fn scenario_mark_nonexistent_on_empty() {
    let mut todo = TodoList::new();
    assert_eq!(
        todo.mark("Nonexistent".to_string(), false),
        Err("Nonexistent".to_string())
    );
    assert!(todo.is_empty());
}

#[test]
fn scenario_add_twice_then_clear() {
    let mut todo = TodoList::new();
    todo.add("A".to_string());
    todo.add("A".to_string());
    assert_eq!(todo.len(), 1);
    todo.clear();
    assert!(todo.is_empty());
    let (open, done) = todo.list();
    assert!(open.is_empty());
    assert!(done.is_empty());
}
