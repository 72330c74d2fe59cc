use price_monitor::store::{PricePoint, ProductStore, StoreError};

#[test]
fn upsert_twice_same_url_keeps_one_row_same_id() {
    let mut s = ProductStore::new();
    let id1 = s.upsert(String::from("https://example.com/a"), String::from("Widget"), 1000, 1);
    let id2 = s.upsert(String::from("https://example.com/a"), String::from("Widget v2"), 1200, 2);
    assert_eq!(id1, id2);
    let rows = s.list_tracked();
    assert_eq!(rows.len(), 1);
    assert_eq!(rows[0].id, id1);
    assert_eq!(rows[0].url, "https://example.com/a");
    assert_eq!(rows[0].name, "Widget v2");
    assert_eq!(rows[0].current_price, 1200);
}

#[test]
fn upsert_new_urls_get_fresh_ids() {
    let mut s = ProductStore::new();
    let id1 = s.upsert(String::from("u1"), String::from("A"), 100, 1);
    let id2 = s.upsert(String::from("u2"), String::from("B"), 200, 1);
    assert_eq!(id1, 1);
    assert_eq!(id2, 2);
    assert_eq!(s.list_tracked().len(), 2);
}

#[test]
fn upsert_keeps_created_at_and_history() {
    let mut s = ProductStore::new();
    let id = s.upsert(String::from("u1"), String::from("A"), 100, 5);
    s.append_history(id, 100, 5).unwrap();
    s.upsert(String::from("u1"), String::from("A"), 90, 9);
    let h = s.history_for(id).unwrap();
    assert_eq!(h.len(), 1);
    assert_eq!(h[0], PricePoint { price: 100, checked_at: 5 });
}

#[test]
fn history_appends_in_order() {
    let mut s = ProductStore::new();
    let id = s.upsert(String::from("u1"), String::from("A"), 100, 1);
    s.append_history(id, 100, 10).unwrap();
    s.append_history(id, 110, 20).unwrap();
    s.append_history(id, 105, 20).unwrap();
    s.append_history(id, 95, 30).unwrap();
    let h = s.history_for(id).unwrap();
    assert_eq!(h.len(), 4);
    for w in h.windows(2) {
        assert!(w[0].checked_at <= w[1].checked_at);
    }
    assert_eq!(h[0], PricePoint { price: 100, checked_at: 10 });
    assert_eq!(h[3], PricePoint { price: 95, checked_at: 30 });
}

#[test]
fn history_files_late_point_in_time_order() {
    let mut s = ProductStore::new();
    let id = s.upsert(String::from("u1"), String::from("A"), 100, 1);
    s.append_history(id, 200, 20).unwrap();
    s.append_history(id, 100, 10).unwrap();
    let h = s.history_for(id).unwrap();
    assert_eq!(h[0], PricePoint { price: 100, checked_at: 10 });
    assert_eq!(h[1], PricePoint { price: 200, checked_at: 20 });
}

#[test]
fn append_history_unknown_id_reports_not_found() {
    let mut s = ProductStore::new();
    let id = s.upsert(String::from("u1"), String::from("A"), 100, 1);
    assert_eq!(s.append_history(id + 1, 100, 1), Err(StoreError::NotFound));
    assert_eq!(s.history_for(id).unwrap().len(), 0);
}

#[test]
fn remove_cascades_product_and_history() {
    let mut s = ProductStore::new();
    let id = s.upsert(String::from("u1"), String::from("A"), 100, 1);
    let other = s.upsert(String::from("u2"), String::from("B"), 200, 1);
    s.append_history(id, 100, 10).unwrap();
    s.append_history(id, 110, 20).unwrap();
    assert_eq!(s.remove(id), Ok(()));
    assert_eq!(s.history_for(id), Err(StoreError::NotFound));
    assert_eq!(s.remove(id), Err(StoreError::NotFound));
    let rows = s.list_tracked();
    assert_eq!(rows.len(), 1);
    assert_eq!(rows[0].id, other);
}

#[test]
fn history_for_unknown_id_reports_not_found() {
    let s = ProductStore::new();
    assert_eq!(s.history_for(42), Err(StoreError::NotFound));
}
