use todo_store::TodoList;

fn sample() -> TodoList {
    let mut todo = TodoList::new();
    todo.add("Buy milk".to_string());
    todo.add("Walk dog".to_string());
    todo.add("Read \"book\"".to_string());
    todo.mark("Walk dog".to_string(), false).unwrap();
    todo
}

#[test]
fn save_then_load_round_trips() {
    let todo = sample();
    let text = todo.save().unwrap();
    let back = TodoList::load(&text);
    assert_eq!(back.len(), 3);
    assert_eq!(back.get("Buy milk"), Some(true));
    assert_eq!(back.get("Walk dog"), Some(false));
    assert_eq!(back.get("Read \"book\""), Some(true));
}

#[test]
fn save_writes_an_items_object() {
    let mut todo = TodoList::new();
    todo.add("A".to_string());
    let text = todo.save().unwrap();
    assert_eq!(text, "{\n  \"items\": {\n    \"A\": true\n  }\n}");
}

#[test]
fn save_of_empty_store() {
    let todo = TodoList::new();
    let text = todo.save().unwrap();
    assert_eq!(text, "{\n  \"items\": {}\n}");
    assert!(TodoList::load(&text).is_empty());
}

#[test]
fn load_reads_a_document() {
    let todo = TodoList::load("{\"items\": {\"x\": false, \"y\": true}}");
    assert_eq!(todo.len(), 2);
    assert_eq!(todo.get("x"), Some(false));
    assert_eq!(todo.get("y"), Some(true));
}

#[test]
fn load_of_corrupt_text_is_empty() {
    assert!(TodoList::load("not json").is_empty());
    assert!(TodoList::load("").is_empty());
    assert!(TodoList::load("{\"items\": [1, 2]}").is_empty());
}

#[test]
fn load_without_items_is_empty() {
    assert!(TodoList::load("{}").is_empty());
}

#[test]
fn document_round_trip_keeps_the_store() {
    let todo = sample();
    let doc = todo.to_document();
    assert_eq!(doc.len(), 1);
    assert_eq!(doc[0].0, "items");
    assert_eq!(doc[0].1.len(), 3);
    let back = TodoList::from_document(&doc);
    assert_eq!(back.len(), 3);
    assert_eq!(back.get("Walk dog"), Some(false));
    assert_eq!(back.get("Buy milk"), Some(true));
}

#[test]
fn from_document_takes_last_items_field_and_last_entry() {
    let doc = vec![
        ("items".to_string(), vec![("old".to_string(), true)]),
        ("other".to_string(), vec![("ignored".to_string(), true)]),
        (
            "items".to_string(),
            vec![("a".to_string(), true), ("a".to_string(), false)],
        ),
    ];
    let todo = TodoList::from_document(&doc);
    assert_eq!(todo.len(), 1);
    assert_eq!(todo.get("a"), Some(false));
    assert_eq!(todo.get("old"), None);
}

#[test]
fn load_drops_empty_names() {
    let todo = TodoList::load("{\"items\": {\"\": true, \"x\": false}}");
    assert_eq!(todo.len(), 1);
    assert_eq!(todo.get("x"), Some(false));
    assert_eq!(todo.get(""), None);
}

#[test]
fn save_after_clear_reads_back_empty() {
    let mut todo = TodoList::new();
    todo.add("A".to_string());
    todo.add("A".to_string());
    todo.clear();
    let text = todo.save().unwrap();
    assert!(TodoList::load(&text).is_empty());
}
