use items_api::handlers::{
    create_item, delete_item, get_item_by_id, get_items, health_check, update_item, Body,
};
use items_api::models::NewItem;
use items_api::store::Store;

fn payload(name: &str, description: &str) -> NewItem {
    NewItem { name: name.to_string(), description: description.to_string() }
}

#[test]
fn example_scenario_create_get_delete_get() {
    let mut store = Store::new();

    let r = create_item(&mut store, payload("a", "b"));
    assert_eq!(r.status, 201);
    match r.body {
        Body::Entity(item) => {
            assert_eq!(item.id, 1);
            assert_eq!(item.name, "a");
            assert_eq!(item.description, "b");
        }
        _ => panic!("create must answer with the created entity"),
    }

    let r = get_item_by_id(&store, 1);
    assert_eq!(r.status, 200);
    match r.body {
        Body::Entity(item) => {
            assert_eq!(item.id, 1);
            assert_eq!(item.name, "a");
            assert_eq!(item.description, "b");
        }
        _ => panic!("get must answer with the entity"),
    }

    let r = delete_item(&mut store, 1);
    assert_eq!(r.status, 204);
    assert!(matches!(r.body, Body::Empty));

    let r = get_item_by_id(&store, 1);
    assert_eq!(r.status, 404);
    match r.body {
        Body::Message(msg) => assert_eq!(msg, "Item not found"),
        _ => panic!("a missing id must answer with the not-found message"),
    }
}

#[test]
fn create_then_get_yields_same_fields() {
    let mut store = Store::new();
    let created = store.create(payload("widget", "a round one"));
    let fetched = store.get(created.id).expect("the created id must resolve");
    assert_eq!(fetched.name, "widget");
    assert_eq!(fetched.description, "a round one");
    assert_eq!(fetched.id, created.id);
}

#[test]
fn delete_then_get_yields_not_found() {
    let mut store = Store::new();
    let created = store.create(payload("gone", "soon"));
    assert!(store.delete(created.id));
    assert!(store.get(created.id).is_none());
}

#[test]
fn update_missing_id_yields_not_found_and_creates_no_row() {
    let mut store = Store::new();
    store.create(payload("only", "row"));
    let r = update_item(&mut store, 99, payload("new", "text"));
    assert_eq!(r.status, 404);
    match r.body {
        Body::Message(msg) => assert_eq!(msg, "Item not found"),
        _ => panic!("a missing id must answer with the not-found message"),
    }
    assert_eq!(store.len(), 1);
    let rows = store.list();
    assert_eq!(rows.len(), 1);
    assert_eq!(rows[0].name, "only");
    assert_eq!(rows[0].description, "row");
}

#[test]
fn update_existing_replaces_fields_and_keeps_id() {
    let mut store = Store::new();
    let created = store.create(payload("before", "old text"));
    let r = update_item(&mut store, created.id, payload("after", "new text"));
    assert_eq!(r.status, 200);
    match r.body {
        Body::Message(msg) => assert_eq!(msg, "Item updated successfully"),
        _ => panic!("a successful update must confirm with a message"),
    }
    let fetched = store.get(created.id).expect("the updated id must still resolve");
    assert_eq!(fetched.id, created.id);
    assert_eq!(fetched.name, "after");
    assert_eq!(fetched.description, "new text");
}

#[test]
fn listing_after_n_creates_returns_exactly_n_entities() {
    let mut store = Store::new();
    let a = store.create(payload("a", "1"));
    let b = store.create(payload("b", "2"));
    let c = store.create(payload("c", "3"));

    let r = get_items(&store);
    assert_eq!(r.status, 200);
    let rows = match r.body {
        Body::Entities(rows) => rows,
        _ => panic!("list must answer with the entities"),
    };
    assert_eq!(rows.len(), 3);

    // order-independent comparison: collect and sort both sides
    let mut got: Vec<(i32, String, String)> =
        rows.into_iter().map(|it| (it.id, it.name, it.description)).collect();
    got.sort();
    let mut want = vec![
        (a.id, "a".to_string(), "1".to_string()),
        (b.id, "b".to_string(), "2".to_string()),
        (c.id, "c".to_string(), "3".to_string()),
    ];
    want.sort();
    assert_eq!(got, want);
}

#[test]
fn creates_assign_distinct_ids() {
    let mut store = Store::new();
    let mut ids = Vec::new();
    for k in 0..10 {
        let created = store.create(payload("item", &k.to_string()));
        ids.push(created.id);
    }
    for i in 0..ids.len() {
        for j in 0..ids.len() {
            if i != j {
                assert_ne!(ids[i], ids[j]);
            }
        }
    }
    // deleting does not make an id come back
    assert!(store.delete(ids[9]));
    let fresh = store.create(payload("item", "again"));
    assert!(!ids.contains(&fresh.id));
}

#[test]
fn listing_empty_store_gives_empty_sequence() {
    let store = Store::new();
    let r = get_items(&store);
    assert_eq!(r.status, 200);
    match r.body {
        Body::Entities(rows) => assert!(rows.is_empty()),
        _ => panic!("list must answer with the entities"),
    }
}

#[test]
fn health_check_confirms_in_plain_text() {
    let r = health_check();
    assert_eq!(r.status, 200);
    match r.body {
        Body::Message(msg) => assert_eq!(msg, "API is running"),
        _ => panic!("the health check must answer with a message"),
    }
}

#[test]
fn delete_missing_id_yields_not_found() {
    let mut store = Store::new();
    store.create(payload("kept", "row"));
    let r = delete_item(&mut store, 42);
    assert_eq!(r.status, 404);
    assert_eq!(store.len(), 1);
}
