use codex_core::store::Block;
use codex_core::store::ContentStore;
use codex_core::store::INDEXING_INDEXED;
use codex_core::store::INDEXING_PENDING;

fn put_block(store: &mut ContentStore, id: &str, doc: &str, content: Option<&str>, now: u64) {
    store.upsert_block(
        id.to_string(),
        doc.to_string(),
        content.map(|c| c.to_string()),
        0,
        None,
        INDEXING_PENDING,
        now,
    );
}

fn get<'a>(store: &'a ContentStore, id: &str) -> &'a Block {
    store.find_block_by_id(&id.to_string()).unwrap()
}

#[test]
fn changed_content_resets_to_pending_and_bumps_the_timestamp() {
    let mut store = ContentStore::new();
    put_block(&mut store, "b1", "d1", Some("old"), 1);
    store.update_block_indexing_status(&"b1".to_string(), INDEXING_INDEXED);
    assert_eq!(get(&store, "b1").indexing_status, INDEXING_INDEXED);

    put_block(&mut store, "b1", "d1", Some("new"), 9);
    let b = get(&store, "b1");
    assert_eq!(b.indexing_status, INDEXING_PENDING);
    assert_eq!(b.updated_at, 9);
    assert_eq!(b.content.as_deref(), Some("new"));
}

#[test]
fn unchanged_content_keeps_status_and_timestamp() {
    let mut store = ContentStore::new();
    put_block(&mut store, "b1", "d1", Some("same"), 1);
    store.update_block_indexing_status(&"b1".to_string(), INDEXING_INDEXED);

    put_block(&mut store, "b1", "d1", Some("same"), 9);
    let b = get(&store, "b1");
    assert_eq!(b.indexing_status, INDEXING_INDEXED);
    assert_eq!(b.updated_at, 1);
}

#[test]
fn clearing_content_also_counts_as_a_change() {
    let mut store = ContentStore::new();
    put_block(&mut store, "b1", "d1", Some("text"), 1);
    store.update_block_indexing_status(&"b1".to_string(), INDEXING_INDEXED);
    put_block(&mut store, "b1", "d1", None, 5);
    assert_eq!(get(&store, "b1").indexing_status, INDEXING_PENDING);
}

#[test]
fn oldest_pending_block_is_fetched_by_staleness() {
    let mut store = ContentStore::new();
    put_block(&mut store, "late", "d1", Some("x"), 30);
    put_block(&mut store, "early", "d1", Some("y"), 10);
    put_block(&mut store, "middle", "d1", Some("z"), 20);
    assert_eq!(store.find_oldest_pending_block().unwrap().id.as_str(), "early");

    store.update_block_indexing_status(&"early".to_string(), INDEXING_INDEXED);
    assert_eq!(store.find_oldest_pending_block().unwrap().id.as_str(), "middle");

    store.update_block_indexing_status(&"middle".to_string(), INDEXING_INDEXED);
    store.update_block_indexing_status(&"late".to_string(), INDEXING_INDEXED);
    assert!(store.find_oldest_pending_block().is_none());
}

#[test]
fn equal_staleness_breaks_ties_by_store_order() {
    let mut store = ContentStore::new();
    put_block(&mut store, "first", "d1", Some("x"), 7);
    put_block(&mut store, "second", "d1", Some("y"), 7);
    assert_eq!(store.find_oldest_pending_block().unwrap().id.as_str(), "first");
}

#[test]
fn reset_marks_everything_pending_and_reports_the_count() {
    let mut store = ContentStore::new();
    put_block(&mut store, "b1", "d1", Some("x"), 1);
    put_block(&mut store, "b2", "d1", Some("y"), 2);
    store.update_block_indexing_status(&"b1".to_string(), INDEXING_INDEXED);
    store.update_block_indexing_status(&"b2".to_string(), INDEXING_INDEXED);
    assert_eq!(store.reset_all_indexing_status(), 2);
    assert_eq!(get(&store, "b1").indexing_status, INDEXING_PENDING);
    assert_eq!(get(&store, "b2").indexing_status, INDEXING_PENDING);
}

#[test]
fn document_upsert_keeps_creation_time() {
    let mut store = ContentStore::new();
    store.upsert_document("d1".to_string(), Some("One".to_string()), 0, None, 5);
    store.upsert_document("d1".to_string(), Some("One renamed".to_string()), 1, None, 9);
    let d = store.find_document_by_id(&"d1".to_string()).unwrap();
    assert_eq!(d.title.as_deref(), Some("One renamed"));
    assert_eq!(d.status, 1);
    assert_eq!(d.created_at, 5);
    assert_eq!(d.updated_at, 9);
}

#[test]
fn deleting_a_document_takes_its_blocks_along() {
    let mut store = ContentStore::new();
    store.upsert_document("d1".to_string(), None, 0, None, 1);
    put_block(&mut store, "b1", "d1", Some("x"), 1);
    put_block(&mut store, "b2", "d1", Some("y"), 2);
    put_block(&mut store, "b3", "d2", Some("z"), 3);
    store.delete_blocks_by_document_id(&"d1".to_string());
    store.delete_document(&"d1".to_string());
    assert!(store.find_document_by_id(&"d1".to_string()).is_none());
    assert!(store.find_block_by_id(&"b1".to_string()).is_none());
    assert!(store.find_block_by_id(&"b2".to_string()).is_none());
    assert!(store.find_block_by_id(&"b3".to_string()).is_some());
}

#[test]
fn stored_blocks_never_change_their_owner() {
    let mut store = ContentStore::new();
    put_block(&mut store, "b1", "d1", Some("x"), 1);
    // An upsert that names another document does not move the block.
    put_block(&mut store, "b1", "d2", Some("x2"), 2);
    assert_eq!(get(&store, "b1").document_id.as_str(), "d1");
}

#[test]
fn blocks_of_a_document_come_back_in_position_order() {
    let mut store = ContentStore::new();
    store.upsert_block(
        "b-late".to_string(), "d1".to_string(), Some("z".to_string()), 30, None,
        INDEXING_PENDING, 1,
    );
    store.upsert_block(
        "b-early".to_string(), "d1".to_string(), Some("a".to_string()), 10, None,
        INDEXING_PENDING, 2,
    );
    store.upsert_block(
        "b-other".to_string(), "d2".to_string(), Some("x".to_string()), 5, None,
        INDEXING_PENDING, 3,
    );
    let blocks = store.find_blocks_by_document_id(&"d1".to_string());
    let ids: Vec<&str> = blocks.iter().map(|b| b.id.as_str()).collect();
    assert_eq!(ids, vec!["b-early", "b-late"]);
}

#[test]
fn listings_hide_archived_and_order_by_status_then_freshness() {
    let mut store = ContentStore::new();
    store.upsert_document("perm-old".to_string(), None, 1, None, 10);
    store.upsert_document("fleeting-new".to_string(), None, 0, None, 40);
    store.upsert_document("archived".to_string(), None, 99, None, 50);
    store.upsert_document("fleeting-old".to_string(), None, 0, None, 20);
    store.upsert_document("perm-new".to_string(), None, 1, None, 30);

    let page = store.find_documents(10, 0);
    let ids: Vec<&str> = page.iter().map(|d| d.id.as_str()).collect();
    assert_eq!(ids, vec!["fleeting-new", "fleeting-old", "perm-new", "perm-old"]);

    let second = store.find_documents(2, 2);
    let ids: Vec<&str> = second.iter().map(|d| d.id.as_str()).collect();
    assert_eq!(ids, vec!["perm-new", "perm-old"]);

    let beyond = store.find_documents(2, 9);
    assert!(beyond.is_empty());
}
