//! One sweep: reconcile every fetch outcome into the store.
//!
//! A sweep snapshots the tracked products, fetches each URL — at most
//! `FetchGate::limit` fetches in flight at once — and merges each outcome
//! into the store: a successful snapshot is upserted and gets one history
//! point, a failed fetch is counted and touches nothing. One product's
//! failure never aborts the sweep. The fetching itself happens outside the
//! library; the outcomes come back as plain values and `run_sweep` states
//! exactly what the store looks like afterwards.

use vstd::prelude::*;

use crate::fetch::{FetchError, Product};
use crate::store::{
    append_v, find_id, find_url, insert_pos, lemma_append_v_props, lemma_find_id_props,
    lemma_find_url_props, lemma_find_url_same, lemma_upsert_v_props, store_wf, upsert_id,
    upsert_v, PricePoint, ProductStore, StoreV,
};

verus! {

/// Aggregate outcome of one sweep: how many products were checked, and how
/// many of the checks succeeded or failed.
#[derive(Clone, Copy, PartialEq, Eq, Structural, Debug)]
pub struct SweepSummary {
    pub attempted: usize,
    pub succeeded: usize,
    pub failed: usize,
}

/// The snapshot inside a successful outcome.
pub open spec fn ok_product(r: Result<Product, FetchError>) -> Product {
    r->Ok_0
}

/// How many outcomes are successful.
pub open spec fn count_ok(rs: Seq<Result<Product, FetchError>>) -> int
    decreases rs.len(),
{
    if rs.len() == 0 {
        0
    } else {
        count_ok(rs.drop_last()) + if rs.last() is Ok {
            1int
        } else {
            0int
        }
    }
}

/// No two successful outcomes carry the same URL — true of any sweep,
/// since the product list it fetched from keys products by URL.
pub open spec fn ok_urls_distinct(rs: Seq<Result<Product, FetchError>>) -> bool {
    forall|k1: int, k2: int|
        0 <= k1 < k2 < rs.len() && rs[k1] is Ok && rs[k2] is Ok ==> ok_product(rs[k1]).url@
            != ok_product(rs[k2]).url@
}

/// One reconciliation on the image: upsert the snapshot by URL, then file
/// one history point for the row the upsert named. A failed fetch changes
/// nothing.
pub open spec fn reconcile_v(m: StoreV, r: Result<Product, FetchError>, now: u64) -> StoreV {
    match r {
        Ok(p) => append_v(
            upsert_v(m, p.url@, p.name@, p.price, now),
            upsert_id(m, p.url@),
            p.price,
            now,
        ),
        Err(_) => m,
    }
}

/// The whole sweep's effect on the image: the outcomes reconciled in order.
pub open spec fn sweep_v(m: StoreV, rs: Seq<Result<Product, FetchError>>, now: u64) -> StoreV
    decreases rs.len(),
{
    if rs.len() == 0 {
        m
    } else {
        reconcile_v(sweep_v(m, rs.drop_last(), now), rs.last(), now)
    }
}

/// Merge one fetch outcome into the store. On success the snapshot is
/// upserted — the row's id confirmed or freshly assigned — and exactly one
/// history point is filed for that row; the pair is one reconciliation
/// unit. On failure the store is untouched. Returns whether this product's
/// check succeeded.
pub fn reconcile(store: &mut ProductStore, outcome: Result<Product, FetchError>, now: u64) -> (ok:
    bool)
    requires
        store_wf(old(store)@),
        old(store)@.next_id < u64::MAX,
    ensures
        store_wf(final(store)@),
        final(store)@ == reconcile_v(old(store)@, outcome, now),
        ok == outcome is Ok,
        final(store)@.next_id <= old(store)@.next_id + 1,
{
    match outcome {
        Ok(p) => {
            let Product { name, price, url } = p;
            let id = store.upsert(url, name, price, now);
            let res = store.append_history(id, price, now);
            res.is_ok()
        },
        Err(_) => false,
    }
}

/// Run the reconciliation half of a sweep over the fetched outcomes, in
/// order, and report the summary: every outcome is attempted, each one
/// succeeds or fails on its own, and the store ends exactly as the
/// outcome-by-outcome reconciliation leaves it. When the successful
/// outcomes name pairwise distinct URLs, `sweep_isolated` holds of the
/// result as well.
pub fn run_sweep(
    store: &mut ProductStore,
    results: Vec<Result<Product, FetchError>>,
    now: u64,
) -> (summary: SweepSummary)
    requires
        store_wf(old(store)@),
        old(store)@.next_id + results@.len() <= u64::MAX,
    ensures
        store_wf(final(store)@),
        final(store)@ == sweep_v(old(store)@, results@, now),
        summary.attempted == results@.len(),
        summary.succeeded == count_ok(results@),
        summary.failed == results@.len() - count_ok(results@),
        summary.succeeded + summary.failed == summary.attempted,
        ok_urls_distinct(results@) ==> sweep_isolated(
            old(store)@,
            results@,
            now,
            final(store)@,
        ),
{
    let ghost m0 = old(store)@;
    let ghost rs = results@;
    let attempted = results.len();
    let mut rest = results;
    let mut done: usize = 0;
    let mut succeeded: usize = 0;
    proof {
        assert(rs.take(0) =~= Seq::<Result<Product, FetchError>>::empty());
        assert(rest@ =~= rs.subrange(0, rs.len() as int));
    }
    while rest.len() > 0
        invariant
            done + rest@.len() == rs.len(),
            attempted == rs.len(),
            rest@ == rs.subrange(done as int, rs.len() as int),
            store_wf(store@),
            store@ == sweep_v(m0, rs.take(done as int), now),
            store@.next_id <= m0.next_id + done,
            m0.next_id + rs.len() <= u64::MAX,
            succeeded == count_ok(rs.take(done as int)),
            succeeded <= done,
        decreases rest@.len(),
    {
        let outcome = rest.remove(0);
        proof {
            assert(outcome == rs[done as int]);
            assert(rest@ =~= rs.subrange(done as int + 1, rs.len() as int));
        }
        let ok = reconcile(store, outcome, now);
        proof {
            assert(rs.take(done as int + 1).drop_last() =~= rs.take(done as int));
            assert(rs.take(done as int + 1).last() == rs[done as int]);
        }
        if ok {
            succeeded = succeeded + 1;
        }
        done = done + 1;
    }
    proof {
        assert(rs.take(rs.len() as int) =~= rs);
        if ok_urls_distinct(rs) {
            lemma_sweep_isolation(m0, rs, now);
        }
    }
    SweepSummary { attempted, succeeded, failed: attempted - succeeded }
}

/// The clauses of `lemma_sweep_isolation`, spelled out over the image a
/// sweep leaves behind.
pub open spec fn sweep_isolated(
    m: StoreV,
    rs: Seq<Result<Product, FetchError>>,
    now: u64,
    m2: StoreV,
) -> bool {
    &&& store_wf(m2)
    &&& m.products.len() <= m2.products.len() <= m.products.len() + rs.len()
    &&& m.next_id <= m2.next_id <= m.next_id + rs.len()
    // ids, URLs and creation times of pre-existing rows survive in place
    &&& forall|i: int|
        0 <= i < m.products.len() ==> m2.products[i].id == m.products[i].id && m2.products[i].url
            == m.products[i].url && m2.products[i].created_at == m.products[i].created_at
    // a product whose URL no successful outcome carries is untouched
    &&& forall|i: int|
        0 <= i < m.products.len() && !(exists|k: int|
            0 <= k < rs.len() && rs[k] is Ok && ok_product(rs[k]).url@ == m.products[i].url)
            ==> m2.products[i] == m.products[i]
    // every appended row stems from some successful outcome
    &&& forall|i: int|
        m.products.len() <= i < m2.products.len() ==> (exists|k: int|
            0 <= k < rs.len() && rs[k] is Ok && ok_product(rs[k]).url@ == m2.products[i].url)
            && m.next_id <= m2.products[i].id < m2.next_id && m2.products[i].created_at == now
    // every successful outcome is fully reconciled
    &&& forall|k: int|
        0 <= k < rs.len() && rs[k] is Ok ==> {
            let p = ok_product(rs[k]);
            let j0 = find_url(m.products, p.url@);
            let j = find_url(m2.products, p.url@);
            &&& 0 <= j < m2.products.len()
            &&& m2.products[j].name == p.name@
            &&& m2.products[j].current_price == p.price
            &&& if j0 >= 0 {
                j == j0 && m2.products[j].id == m.products[j0].id && m2.products[j].history
                    == m.products[j0].history.insert(
                    insert_pos(m.products[j0].history, now),
                    PricePoint { price: p.price, checked_at: now },
                )
            } else {
                j >= m.products.len() && m2.products[j].history == seq![
                    PricePoint { price: p.price, checked_at: now },
                ]
            }
        }
}

/// Sweep isolation: when the successful outcomes name pairwise distinct
/// URLs — as they do, since the sweep fetched a snapshot keyed by URL —
/// each successful outcome is fully reconciled on its own row, one new
/// history point and the new name and price, while a product none of the
/// successful outcomes names keeps exactly the state it had. A failed
/// fetch influences nothing beyond its own count.
pub proof fn lemma_sweep_isolation(m: StoreV, rs: Seq<Result<Product, FetchError>>, now: u64)
    requires
        store_wf(m),
        m.next_id + rs.len() <= u64::MAX,
        ok_urls_distinct(rs),
    ensures
        sweep_isolated(m, rs, now, sweep_v(m, rs, now)),
    decreases rs.len(),
{
    if rs.len() == 0 {
    } else {
        let rs1 = rs.drop_last();
        let last = rs.last();
        assert(forall|k: int| 0 <= k < rs1.len() ==> rs1[k] == rs[k]);
        lemma_sweep_isolation(m, rs1, now);
        let m1 = sweep_v(m, rs1, now);
        let m2 = sweep_v(m, rs, now);
        assert(m2 == reconcile_v(m1, last, now));
        if last is Ok {
            let p = ok_product(last);
            let url = p.url@;
            let j0 = find_url(m.products, url);
            lemma_find_url_props(m.products, url);
            // appended rows of m1 carry other successful outcomes' URLs, all
            // distinct from p's
            assert forall|i: int| m.products.len() <= i < m1.products.len() implies m1.products[i].url
                != url by {
                let kk = choose|kk: int|
                    0 <= kk < rs1.len() && rs1[kk] is Ok && ok_product(rs1[kk]).url@
                        == m1.products[i].url;
                assert(ok_product(rs[kk]).url@ != url);
            }
            lemma_find_url_same(m.products, m1.products, url);
            assert(find_url(m1.products, url) == j0);
            lemma_upsert_v_props(m1, url, p.name@, p.price, now);
            let mu = upsert_v(m1, url, p.name@, p.price, now);
            let j1 = find_url(mu.products, url);
            let pid = upsert_id(m1, url);
            // the id the upsert named is at j1, and nowhere else
            lemma_find_id_props(mu.products, pid);
            let rid = find_id(mu.products, pid);
            assert(mu.products[j1].id == pid);
            if rid == -1 {
                assert(false);
            }
            if rid != j1 {
                assert(mu.products[rid].id == mu.products[j1].id);
                assert(false);
            }
            lemma_append_v_props(mu, pid, p.price, now);
            assert(m2 == append_v(mu, pid, p.price, now));
            // URLs are the same in m1, mu and m2, except for the row the
            // upsert may have pushed
            assert(forall|i: int|
                0 <= i < m1.products.len() ==> m2.products[i].url == m1.products[i].url);
            // the reconciled row for p
            if j0 >= 0 {
                assert(m1.products[j0] == m.products[j0]);
                assert(mu.products[j0].history == m.products[j0].history);
            } else {
                assert(j1 == m1.products.len());
                assert(mu.products[j1].history =~= Seq::<PricePoint>::empty());
                assert(insert_pos(Seq::<PricePoint>::empty(), now) == 0);
                assert(m2.products[j1].history =~= seq![
                    PricePoint { price: p.price, checked_at: now },
                ]);
            }
            lemma_find_url_same(mu.products, m2.products, url);
            assert(find_url(m2.products, url) == j1);
            // pre-existing rows keep id, URL and creation time
            assert forall|i: int| 0 <= i < m.products.len() implies m2.products[i].id
                == m.products[i].id && m2.products[i].url == m.products[i].url
                && m2.products[i].created_at == m.products[i].created_at by {
                assert(m1.products[i].id == m.products[i].id);
            }
            // rows no successful outcome names are untouched
            assert forall|i: int|
                0 <= i < m.products.len() && !(exists|k: int|
                    0 <= k < rs.len() && rs[k] is Ok && ok_product(rs[k]).url@
                        == m.products[i].url) implies m2.products[i] == m.products[i] by {
                assert(!(exists|k: int|
                    0 <= k < rs1.len() && rs1[k] is Ok && ok_product(rs1[k]).url@
                        == m.products[i].url));
                assert(m1.products[i] == m.products[i]);
                assert(m.products[i].url != url);
                assert(i != j1);
                assert(mu.products[i] == m1.products[i]);
            }
            // every appended row stems from some successful outcome
            assert forall|i: int| m.products.len() <= i < m2.products.len() implies (exists|k: int|
                0 <= k < rs.len() && rs[k] is Ok && ok_product(rs[k]).url@ == m2.products[i].url)
                && m.next_id <= m2.products[i].id < m2.next_id && m2.products[i].created_at
                == now by {
                if i < m1.products.len() {
                    let kk = choose|kk: int|
                        0 <= kk < rs1.len() && rs1[kk] is Ok && ok_product(rs1[kk]).url@
                            == m1.products[i].url;
                    assert(i != j1);
                    assert(m2.products[i] == m1.products[i]);
                    assert(rs[kk] is Ok && ok_product(rs[kk]).url@ == m2.products[i].url);
                } else {
                    assert(j0 == -1 && i == j1);
                    assert(rs[rs.len() - 1] is Ok && ok_product(rs[rs.len() - 1]).url@
                        == m2.products[i].url);
                }
            }
            // every successful outcome is fully reconciled
            assert forall|k: int| 0 <= k < rs.len() && rs[k] is Ok implies {
                let pk = ok_product(rs[k]);
                let jk0 = find_url(m.products, pk.url@);
                let jk = find_url(m2.products, pk.url@);
                &&& 0 <= jk < m2.products.len()
                &&& m2.products[jk].name == pk.name@
                &&& m2.products[jk].current_price == pk.price
                &&& if jk0 >= 0 {
                    jk == jk0 && m2.products[jk].id == m.products[jk0].id
                        && m2.products[jk].history == m.products[jk0].history.insert(
                        insert_pos(m.products[jk0].history, now),
                        PricePoint { price: pk.price, checked_at: now },
                    )
                } else {
                    jk >= m.products.len() && m2.products[jk].history == seq![
                        PricePoint { price: pk.price, checked_at: now },
                    ]
                }
            } by {
                let pk = ok_product(rs[k]);
                if k == rs.len() - 1 {
                    assert(find_url(m2.products, pk.url@) == j1);
                } else {
                    let jk = find_url(m1.products, pk.url@);
                    lemma_find_url_props(m1.products, pk.url@);
                    assert(pk.url@ != url);
                    assert(0 <= jk < m1.products.len());
                    assert(m1.products[jk].url == pk.url@);
                    if j1 < m1.products.len() {
                        assert(m1.products[j1].url == url);
                    }
                    assert(jk != j1);
                    assert(mu.products[jk] == m1.products[jk]);
                    assert(m2.products[jk] == m1.products[jk]);
                    assert forall|i: int| m1.products.len() <= i < m2.products.len() implies m2.products[i].url
                        != pk.url@ by {
                        assert(m2.products[i].url == url);
                    }
                    lemma_find_url_same(m1.products, m2.products, pk.url@);
                    assert(find_url(m2.products, pk.url@) == jk);
                }
            }
        } else {
            assert(m2 == m1);
            assert forall|i: int|
                0 <= i < m.products.len() && !(exists|k: int|
                    0 <= k < rs.len() && rs[k] is Ok && ok_product(rs[k]).url@
                        == m.products[i].url) implies m2.products[i] == m.products[i] by {
                assert(!(exists|k: int|
                    0 <= k < rs1.len() && rs1[k] is Ok && ok_product(rs1[k]).url@
                        == m.products[i].url));
            }
            assert forall|i: int| m.products.len() <= i < m2.products.len() implies (exists|k: int|
                0 <= k < rs.len() && rs[k] is Ok && ok_product(rs[k]).url@ == m2.products[i].url)
                && m.next_id <= m2.products[i].id < m2.next_id && m2.products[i].created_at
                == now by {
                let kk = choose|kk: int|
                    0 <= kk < rs1.len() && rs1[kk] is Ok && ok_product(rs1[kk]).url@
                        == m1.products[i].url;
                assert(rs[kk] is Ok && ok_product(rs[kk]).url@ == m2.products[i].url);
            }
        }
    }
}

/// Bounds the number of fetches in flight at once. A fetch may start only
/// when `try_acquire` grants a slot and must give it back with `release`;
/// the count of granted slots stays within the limit, whatever the count
/// of products a sweep checks.
pub struct FetchGate {
    pub limit: usize,
    pub in_flight: usize,
}

impl FetchGate {
    /// Never more fetches in flight than the limit allows.
    pub open spec fn wf(self) -> bool {
        self.in_flight <= self.limit
    }

    pub fn new(limit: usize) -> (g: FetchGate)
        ensures
            g.wf(),
            g.limit == limit,
            g.in_flight == 0,
    {
        FetchGate { limit, in_flight: 0 }
    }

    /// Grant a slot exactly when one is free.
    pub fn try_acquire(&mut self) -> (granted: bool)
        requires
            old(self).wf(),
        ensures
            final(self).wf(),
            final(self).limit == old(self).limit,
            granted == (old(self).in_flight < old(self).limit),
            granted ==> final(self).in_flight == old(self).in_flight + 1,
            !granted ==> final(self).in_flight == old(self).in_flight,
    {
        if self.in_flight < self.limit {
            self.in_flight = self.in_flight + 1;
            true
        } else {
            false
        }
    }

    /// Give a granted slot back.
    pub fn release(&mut self)
        requires
            old(self).wf(),
            old(self).in_flight > 0,
        ensures
            final(self).wf(),
            final(self).limit == old(self).limit,
            final(self).in_flight == old(self).in_flight - 1,
    {
        self.in_flight = self.in_flight - 1;
    }
}

} // verus!
