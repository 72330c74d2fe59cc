use price_monitor::fetch::{FetchError, Product};
use price_monitor::store::{PricePoint, ProductStore};
use price_monitor::sweep::{run_sweep, FetchGate};

fn snapshot(url: &str, name: &str, price: i32) -> Product {
    Product { name: String::from(name), price, url: String::from(url) }
}

#[test]
fn sweep_reconciles_and_isolates_a_failure() {
    let mut s = ProductStore::new();
    let a = s.upsert(String::from("u1"), String::from("A"), 1000, 1);
    let results = vec![
        Ok(snapshot("u1", "A", 1100)),
        Err(FetchError::Unreachable),
    ];
    let summary = run_sweep(&mut s, results, 50);
    assert_eq!(summary.attempted, 2);
    assert_eq!(summary.succeeded, 1);
    assert_eq!(summary.failed, 1);
    let rows = s.list_tracked();
    assert_eq!(rows.len(), 1);
    assert_eq!(rows[0].current_price, 1100);
    let h = s.history_for(a).unwrap();
    assert_eq!(h.len(), 1);
    assert_eq!(h[0], PricePoint { price: 1100, checked_at: 50 });
}

#[test]
fn sweep_failure_leaves_other_products_reconciled() {
    let mut s = ProductStore::new();
    let a = s.upsert(String::from("u1"), String::from("A"), 100, 1);
    let b = s.upsert(String::from("u2"), String::from("B"), 200, 1);
    let c = s.upsert(String::from("u3"), String::from("C"), 300, 1);
    let results = vec![
        Ok(snapshot("u1", "A", 110)),
        Err(FetchError::PriceNotFound),
        Ok(snapshot("u3", "C new", 330)),
    ];
    let summary = run_sweep(&mut s, results, 9);
    assert_eq!(summary.attempted, 3);
    assert_eq!(summary.succeeded, 2);
    assert_eq!(summary.failed, 1);
    let rows = s.list_tracked();
    assert_eq!(rows.len(), 3);
    assert_eq!(rows[0].current_price, 110);
    assert_eq!(rows[1].current_price, 200);
    assert_eq!(rows[1].name, "B");
    assert_eq!(rows[2].current_price, 330);
    assert_eq!(rows[2].name, "C new");
    assert_eq!(s.history_for(a).unwrap().len(), 1);
    assert_eq!(s.history_for(b).unwrap().len(), 0);
    assert_eq!(s.history_for(c).unwrap().len(), 1);
}

#[test]
fn sweep_over_empty_store_completes_immediately() {
    let mut s = ProductStore::new();
    let summary = run_sweep(&mut s, Vec::new(), 1);
    assert_eq!(summary.attempted, 0);
    assert_eq!(summary.succeeded, 0);
    assert_eq!(summary.failed, 0);
    assert!(s.list_tracked().is_empty());
}

#[test]
fn sweep_recreates_a_product_removed_mid_flight() {
    let mut s = ProductStore::new();
    let a = s.upsert(String::from("u1"), String::from("A"), 100, 1);
    s.remove(a).unwrap();
    let summary = run_sweep(&mut s, vec![Ok(snapshot("u1", "A", 120))], 7);
    assert_eq!(summary.succeeded, 1);
    let rows = s.list_tracked();
    assert_eq!(rows.len(), 1);
    assert_ne!(rows[0].id, a);
    assert_eq!(rows[0].current_price, 120);
    assert_eq!(s.history_for(rows[0].id).unwrap().len(), 1);
}

#[test]
fn gate_never_grants_more_than_the_limit() {
    let mut gate = FetchGate::new(2);
    let mut in_flight = 0usize;
    let mut peak = 0usize;
    let mut granted = 0usize;
    let products = 5usize;
    let mut remaining = products;
    while remaining > 0 {
        if gate.try_acquire() {
            in_flight += 1;
            granted += 1;
            if in_flight > peak {
                peak = in_flight;
            }
        } else {
            assert_eq!(in_flight, 2);
            gate.release();
            in_flight -= 1;
            remaining -= 1;
        }
        assert!(gate.in_flight <= gate.limit);
    }
    assert_eq!(peak, 2);
    assert!(granted >= products);
}

#[test]
fn gate_frees_a_slot_on_release() {
    let mut gate = FetchGate::new(1);
    assert!(gate.try_acquire());
    assert!(!gate.try_acquire());
    gate.release();
    assert!(gate.try_acquire());
}
