//! The product store: tracked products and their append-only price history.
//!
//! The store is the single durable relation the sweep writes to. Its
//! contract is stated over a mathematical image (`StoreV`): a sequence of
//! product records keyed by a unique URL, each carrying its own history of
//! observed prices sorted by the time of observation. `upsert` is
//! insert-or-update by URL, `append_history` files one immutable price
//! point, and `remove` drops a product together with its whole history.

use vstd::prelude::*;

verus! {

/// One observed price, in whole currency units, and when it was seen.
#[derive(Clone, Copy, PartialEq, Eq, Structural, Debug)]
pub struct PricePoint {
    pub price: i32,
    pub checked_at: u64,
}

/// A tracked product together with its price history.
pub struct ProductRow {
    pub id: u64,
    pub url: String,
    pub name: String,
    pub current_price: i32,
    pub created_at: u64,
    pub history: Vec<PricePoint>,
}

/// Mathematical image of one product row.
#[verifier::ext_equal]
pub struct ProductV {
    pub id: u64,
    pub url: Seq<char>,
    pub name: Seq<char>,
    pub current_price: i32,
    pub created_at: u64,
    pub history: Seq<PricePoint>,
}

impl View for ProductRow {
    type V = ProductV;

    open spec fn view(&self) -> ProductV {
        ProductV {
            id: self.id,
            url: self.url@,
            name: self.name@,
            current_price: self.current_price,
            created_at: self.created_at,
            history: self.history@,
        }
    }
}

/// Mathematical image of the whole store.
#[verifier::ext_equal]
pub struct StoreV {
    pub products: Seq<ProductV>,
    pub next_id: u64,
}

/// Failure of a store operation that names a product that is not there.
#[derive(Clone, Copy, PartialEq, Eq, Structural, Debug)]
pub enum StoreError {
    NotFound,
}

/// The store itself. All mutating operations keep `store_wf` and are stated
/// exactly over the `StoreV` image.
pub struct ProductStore {
    pub products: Vec<ProductRow>,
    pub next_id: u64,
}

impl View for ProductStore {
    type V = StoreV;

    open spec fn view(&self) -> StoreV {
        StoreV {
            products: self.products@.map_values(|r: ProductRow| r@),
            next_id: self.next_id,
        }
    }
}

/// Prices appear in the order they were observed: `checked_at` never
/// decreases along a product's history.
pub open spec fn points_sorted(h: Seq<PricePoint>) -> bool {
    forall|i: int, j: int| 0 <= i <= j < h.len() ==> h[i].checked_at <= h[j].checked_at
}

/// Index of the first product with this URL, or -1 if none has it.
pub open spec fn find_url(ps: Seq<ProductV>, url: Seq<char>) -> int
    decreases ps.len(),
{
    if ps.len() == 0 {
        -1
    } else if ps[0].url == url {
        0
    } else {
        let r = find_url(ps.drop_first(), url);
        if r == -1 {
            -1
        } else {
            r + 1
        }
    }
}

/// Index of the first product with this id, or -1 if none has it.
pub open spec fn find_id(ps: Seq<ProductV>, id: u64) -> int
    decreases ps.len(),
{
    if ps.len() == 0 {
        -1
    } else if ps[0].id == id {
        0
    } else {
        let r = find_id(ps.drop_first(), id);
        if r == -1 {
            -1
        } else {
            r + 1
        }
    }
}

/// Store invariant: URLs are unique, ids are unique and below the id
/// counter, and every history is sorted by time of observation.
pub open spec fn store_wf(m: StoreV) -> bool {
    &&& forall|i: int, j: int|
        0 <= i < j < m.products.len() ==> m.products[i].url != m.products[j].url
    &&& forall|i: int, j: int|
        0 <= i < j < m.products.len() ==> m.products[i].id != m.products[j].id
    &&& forall|i: int| 0 <= i < m.products.len() ==> m.products[i].id < m.next_id
    &&& forall|i: int| 0 <= i < m.products.len() ==> points_sorted(m.products[i].history)
}

/// What `upsert` does to the image: update name and price in place when the
/// URL is already tracked, otherwise append a fresh row with the next id.
pub open spec fn upsert_v(m: StoreV, url: Seq<char>, name: Seq<char>, price: i32, now: u64) -> StoreV {
    let j = find_url(m.products, url);
    if j >= 0 {
        let p = m.products[j];
        StoreV {
            products: m.products.update(
                j,
                ProductV {
                    id: p.id,
                    url: p.url,
                    name: name,
                    current_price: price,
                    created_at: p.created_at,
                    history: p.history,
                },
            ),
            next_id: m.next_id,
        }
    } else {
        StoreV {
            products: m.products.push(
                ProductV {
                    id: m.next_id,
                    url: url,
                    name: name,
                    current_price: price,
                    created_at: now,
                    history: Seq::empty(),
                },
            ),
            next_id: (m.next_id + 1) as u64,
        }
    }
}

/// The id `upsert` hands back: the existing row's id, or the fresh one.
pub open spec fn upsert_id(m: StoreV, url: Seq<char>) -> u64 {
    let j = find_url(m.products, url);
    if j >= 0 {
        m.products[j].id
    } else {
        m.next_id
    }
}

/// Where a point observed at `t` goes in a history: after every point
/// observed at or before `t`, before every later one.
pub open spec fn insert_pos(h: Seq<PricePoint>, t: u64) -> int
    decreases h.len(),
{
    if h.len() == 0 {
        0
    } else if h.last().checked_at <= t {
        h.len() as int
    } else {
        insert_pos(h.drop_last(), t)
    }
}

/// What `append_history` does to the image: file one point into the named
/// product's history, or change nothing when the id is not there.
pub open spec fn append_v(m: StoreV, pid: u64, price: i32, t: u64) -> StoreV {
    let j = find_id(m.products, pid);
    if j >= 0 {
        let p = m.products[j];
        let pt = PricePoint { price: price, checked_at: t };
        StoreV {
            products: m.products.update(
                j,
                ProductV {
                    id: p.id,
                    url: p.url,
                    name: p.name,
                    current_price: p.current_price,
                    created_at: p.created_at,
                    history: p.history.insert(insert_pos(p.history, t), pt),
                },
            ),
            next_id: m.next_id,
        }
    } else {
        m
    }
}

/// What `remove` does to the image: drop the named product's row, history
/// and all, or change nothing when the id is not there.
pub open spec fn remove_v(m: StoreV, pid: u64) -> StoreV {
    let j = find_id(m.products, pid);
    if j >= 0 {
        StoreV { products: m.products.remove(j), next_id: m.next_id }
    } else {
        m
    }
}

/// `insert_pos` splits a history at `t`: points at or before `t` lie below
/// it, later points at or above it.
pub proof fn lemma_insert_pos_props(h: Seq<PricePoint>, t: u64)
    ensures
        0 <= insert_pos(h, t) <= h.len(),
        points_sorted(h) ==> forall|i: int| 0 <= i < insert_pos(h, t) ==> h[i].checked_at <= t,
        forall|i: int| insert_pos(h, t) <= i < h.len() ==> h[i].checked_at > t,
    decreases h.len(),
{
    if h.len() == 0 {
    } else if h.last().checked_at <= t {
    } else {
        let d = h.drop_last();
        lemma_insert_pos_props(d, t);
        assert(forall|i: int| 0 <= i < d.len() ==> d[i] == h[i]);
    }
}

/// Inserting a point at `insert_pos` keeps the history sorted.
pub proof fn lemma_insert_point_sorted(h: Seq<PricePoint>, p: PricePoint)
    requires
        points_sorted(h),
    ensures
        points_sorted(h.insert(insert_pos(h, p.checked_at), p)),
{
    lemma_insert_pos_props(h, p.checked_at);
    let pos = insert_pos(h, p.checked_at);
    let h2 = h.insert(pos, p);
    h.insert_ensures(pos, p);
    assert forall|i: int, j: int| 0 <= i <= j < h2.len() implies h2[i].checked_at
        <= h2[j].checked_at by {
        if i < pos {
            assert(h2[i] == h[i]);
        } else if i == pos {
            assert(h2[i] == p);
        } else {
            assert(h2[i] == h[i - 1]);
        }
        if j < pos {
            assert(h2[j] == h[j]);
        } else if j == pos {
            assert(h2[j] == p);
        } else {
            assert(h2[j] == h[j - 1]);
        }
    }
}

/// `find_url` returns the first index carrying the URL, and -1 exactly when
/// no product carries it.
pub proof fn lemma_find_url_props(ps: Seq<ProductV>, url: Seq<char>)
    ensures
        find_url(ps, url) == -1 ==> forall|i: int| 0 <= i < ps.len() ==> ps[i].url != url,
        find_url(ps, url) != -1 ==> {
            &&& 0 <= find_url(ps, url) < ps.len()
            &&& ps[find_url(ps, url)].url == url
            &&& forall|i: int| 0 <= i < find_url(ps, url) ==> ps[i].url != url
        },
    decreases ps.len(),
{
    if ps.len() == 0 {
    } else if ps[0].url == url {
    } else {
        let d = ps.drop_first();
        lemma_find_url_props(d, url);
        let r = find_url(d, url);
        assert(forall|i: int| 0 <= i < d.len() ==> d[i] == ps[i + 1]);
        if r == -1 {
            assert forall|i: int| 0 <= i < ps.len() implies ps[i].url != url by {
                if i > 0 {
                    assert(ps[i] == d[i - 1]);
                }
            }
        } else {
            assert(ps[r + 1] == d[r]);
            assert forall|i: int| 0 <= i < r + 1 implies ps[i].url != url by {
                if i > 0 {
                    assert(ps[i] == d[i - 1]);
                }
            }
        }
    }
}

/// `find_id` returns the first index carrying the id, and -1 exactly when no
/// product carries it.
pub proof fn lemma_find_id_props(ps: Seq<ProductV>, id: u64)
    ensures
        find_id(ps, id) == -1 ==> forall|i: int| 0 <= i < ps.len() ==> ps[i].id != id,
        find_id(ps, id) != -1 ==> {
            &&& 0 <= find_id(ps, id) < ps.len()
            &&& ps[find_id(ps, id)].id == id
            &&& forall|i: int| 0 <= i < find_id(ps, id) ==> ps[i].id != id
        },
    decreases ps.len(),
{
    if ps.len() == 0 {
    } else if ps[0].id == id {
    } else {
        let d = ps.drop_first();
        lemma_find_id_props(d, id);
        let r = find_id(d, id);
        assert(forall|i: int| 0 <= i < d.len() ==> d[i] == ps[i + 1]);
        if r == -1 {
            assert forall|i: int| 0 <= i < ps.len() implies ps[i].id != id by {
                if i > 0 {
                    assert(ps[i] == d[i - 1]);
                }
            }
        } else {
            assert(ps[r + 1] == d[r]);
            assert forall|i: int| 0 <= i < r + 1 implies ps[i].id != id by {
                if i > 0 {
                    assert(ps[i] == d[i - 1]);
                }
            }
        }
    }
}

/// `find_url` does not change when the URLs at existing indices are kept and
/// whatever is appended carries other URLs.
pub proof fn lemma_find_url_same(ps1: Seq<ProductV>, ps2: Seq<ProductV>, url: Seq<char>)
    requires
        ps1.len() <= ps2.len(),
        forall|i: int| 0 <= i < ps1.len() ==> ps2[i].url == ps1[i].url,
        forall|i: int| ps1.len() <= i < ps2.len() ==> ps2[i].url != url,
    ensures
        find_url(ps2, url) == find_url(ps1, url),
{
    lemma_find_url_props(ps1, url);
    lemma_find_url_props(ps2, url);
    let r1 = find_url(ps1, url);
    let r2 = find_url(ps2, url);
    if r1 == -1 {
        if r2 != -1 {
            assert(ps2[r2].url == url);
            if r2 < ps1.len() {
                assert(ps1[r2].url == url);
            }
            assert(false);
        }
    } else {
        assert(ps1[r1].url == url);
        assert(ps2[r1].url == url);
        if r2 == -1 {
            assert(false);
        }
        if r2 < r1 {
            assert(ps1[r2].url == ps2[r2].url);
            assert(false);
        }
        if r1 < r2 {
            assert(false);
        }
    }
}

impl ProductStore {
    /// An empty store; ids start at 1 as the persistent relation's do.
    pub fn new() -> (s: ProductStore)
        ensures
            store_wf(s@),
            s@.products.len() == 0,
            s@.next_id == 1,
    {
        ProductStore { products: Vec::new(), next_id: 1 }
    }

    /// Index of the product carrying this URL, if any.
    fn find_by_url(&self, url: &String) -> (r: Option<usize>)
        ensures
            match r {
                Some(j) => j < self@.products.len() && find_url(self@.products, url@) == j as int,
                None => find_url(self@.products, url@) == -1,
            },
    {
        let ghost ps = self@.products;
        let mut i: usize = 0;
        while i < self.products.len()
            invariant
                i <= self.products.len(),
                ps == self@.products,
                ps.len() == self.products.len(),
                forall|k: int| 0 <= k < i ==> ps[k].url != url@,
            decreases self.products.len() - i,
        {
            if self.products[i].url == *url {
                proof {
                    lemma_find_url_props(ps, url@);
                    let r = find_url(ps, url@);
                    assert(ps[i as int].url == url@);
                    if r == -1 {
                        assert(false);
                    }
                    if r < i as int {
                        assert(false);
                    }
                    if r > i as int {
                        assert(ps[r].url == url@);
                        assert(false);
                    }
                }
                return Some(i);
            }
            i = i + 1;
        }
        proof {
            lemma_find_url_props(ps, url@);
            let r = find_url(ps, url@);
            if r != -1 {
                assert(ps[r].url == url@);
                assert(false);
            }
        }
        None
    }

    /// Index of the product carrying this id, if any.
    fn find_by_id(&self, id: u64) -> (r: Option<usize>)
        ensures
            match r {
                Some(j) => j < self@.products.len() && find_id(self@.products, id) == j as int,
                None => find_id(self@.products, id) == -1,
            },
    {
        let ghost ps = self@.products;
        let mut i: usize = 0;
        while i < self.products.len()
            invariant
                i <= self.products.len(),
                ps == self@.products,
                ps.len() == self.products.len(),
                forall|k: int| 0 <= k < i ==> ps[k].id != id,
            decreases self.products.len() - i,
        {
            if self.products[i].id == id {
                proof {
                    lemma_find_id_props(ps, id);
                    let r = find_id(ps, id);
                    assert(ps[i as int].id == id);
                    if r == -1 {
                        assert(false);
                    }
                    if r < i as int {
                        assert(false);
                    }
                    if r > i as int {
                        assert(ps[r].id == id);
                        assert(false);
                    }
                }
                return Some(i);
            }
            i = i + 1;
        }
        proof {
            lemma_find_id_props(ps, id);
            let r = find_id(ps, id);
            if r != -1 {
                assert(ps[r].id == id);
                assert(false);
            }
        }
        None
    }

    /// Insert-or-update keyed by URL. An already tracked URL has its name
    /// and current price overwritten in place and keeps its id, its creation
    /// time and its history; a new URL gets a fresh row with the next id and
    /// an empty history. Returns the row's id either way.
    pub fn upsert(&mut self, url: String, name: String, price: i32, now: u64) -> (id: u64)
        requires
            store_wf(old(self)@),
            old(self)@.next_id < u64::MAX,
        ensures
            store_wf(final(self)@),
            final(self)@ == upsert_v(old(self)@, url@, name@, price, now),
            id == upsert_id(old(self)@, url@),
            find_id(final(self)@.products, id) >= 0,
    {
        let ghost m = self@;
        proof {
            lemma_find_url_props(m.products, url@);
        }
        match self.find_by_url(&url) {
            Some(j) => {
                let mut row = self.products.remove(j);
                row.name = name;
                row.current_price = price;
                let id = row.id;
                self.products.insert(j, row);
                proof {
                    m.products.remove_ensures(j as int);
                    old(self).products@.remove(j as int).insert_ensures(j as int, row);
                    assert(self@.products =~= m.products.update(j as int, row@));
                    assert(self@ =~= upsert_v(m, url@, name@, price, now));
                    lemma_find_id_props(self@.products, id);
                    assert(self@.products[j as int].id == id);
                    if find_id(self@.products, id) == -1 {
                        assert(false);
                    }
                }
                id
            },
            None => {
                let id = self.next_id;
                let row = ProductRow {
                    id,
                    url,
                    name,
                    current_price: price,
                    created_at: now,
                    history: Vec::new(),
                };
                self.products.push(row);
                self.next_id = self.next_id + 1;
                proof {
                    assert(row@ =~= ProductV {
                        id: m.next_id,
                        url: row.url@,
                        name: row.name@,
                        current_price: price,
                        created_at: now,
                        history: Seq::empty(),
                    });
                    assert(self@.products =~= m.products.push(row@));
                    assert(self@ =~= upsert_v(m, url@, name@, price, now));
                    lemma_find_id_props(self@.products, id);
                    assert(self@.products[m.products.len() as int].id == id);
                    if find_id(self@.products, id) == -1 {
                        assert(false);
                    }
                }
                id
            },
        }
    }

    /// Where a point observed at `t` goes in this sorted history.
    fn find_insert_pos(h: &Vec<PricePoint>, t: u64) -> (pos: usize)
        ensures
            pos == insert_pos(h@, t),
    {
        let mut pos = h.len();
        proof {
            assert(h@.take(h@.len() as int) =~= h@);
        }
        while pos > 0 && h[pos - 1].checked_at > t
            invariant
                pos <= h@.len(),
                insert_pos(h@, t) == insert_pos(h@.take(pos as int), t),
            decreases pos,
        {
            proof {
                assert(h@.take(pos as int).drop_last() =~= h@.take(pos as int - 1));
            }
            pos = pos - 1;
        }
        proof {
            if pos > 0 {
                assert(h@.take(pos as int).last() == h@[pos as int - 1]);
            }
            assert(insert_pos(h@.take(pos as int), t) == pos as int);
        }
        pos
    }

    /// File one immutable price point for a tracked product. The point goes
    /// into that product's history at its place in time order; nothing else
    /// changes. A missing id leaves the store untouched and reports it.
    #[verifier::rlimit(50)]
    pub fn append_history(&mut self, product_id: u64, price: i32, checked_at: u64) -> (r: Result<
        (),
        StoreError,
    >)
        requires
            store_wf(old(self)@),
        ensures
            store_wf(final(self)@),
            final(self)@ == append_v(old(self)@, product_id, price, checked_at),
            r is Ok <==> find_id(old(self)@.products, product_id) >= 0,
            r is Err ==> r == Err::<(), StoreError>(StoreError::NotFound) && final(self)@ == old(
                self,
            )@,
    {
        let ghost m = self@;
        match self.find_by_id(product_id) {
            None => Err(StoreError::NotFound),
            Some(j) => {
                let mut row = self.products.remove(j);
                let pos = Self::find_insert_pos(&row.history, checked_at);
                let pt = PricePoint { price, checked_at };
                proof {
                    lemma_insert_pos_props(row.history@, checked_at);
                }
                row.history.insert(pos, pt);
                proof {
                    lemma_insert_point_sorted(m.products[j as int].history, pt);
                }
                self.products.insert(j, row);
                proof {
                    m.products.remove_ensures(j as int);
                    old(self).products@.remove(j as int).insert_ensures(j as int, row);
                    assert(self@.products =~= m.products.update(j as int, row@));
                    assert(self@ =~= append_v(m, product_id, price, checked_at));
                }
                Ok(())
            },
        }
    }

    /// Drop a product and its whole history in one step. A missing id
    /// leaves the store untouched and reports it; afterwards no row carries
    /// the id, so a later `history_for` or `remove` on it reports `NotFound`.
    pub fn remove(&mut self, product_id: u64) -> (r: Result<(), StoreError>)
        requires
            store_wf(old(self)@),
        ensures
            store_wf(final(self)@),
            final(self)@ == remove_v(old(self)@, product_id),
            r is Ok <==> find_id(old(self)@.products, product_id) >= 0,
            find_id(final(self)@.products, product_id) == -1,
            r is Err ==> r == Err::<(), StoreError>(StoreError::NotFound) && final(self)@ == old(
                self,
            )@,
    {
        let ghost m = self@;
        match self.find_by_id(product_id) {
            None => Err(StoreError::NotFound),
            Some(j) => {
                self.products.remove(j);
                proof {
                    m.products.remove_ensures(j as int);
                    assert(self@.products =~= m.products.remove(j as int));
                    assert(self@ =~= remove_v(m, product_id));
                    lemma_find_id_props(m.products, product_id);
                    lemma_find_id_props(self@.products, product_id);
                    let r2 = find_id(self@.products, product_id);
                    if r2 != -1 {
                        assert(self@.products[r2].id == product_id);
                        if r2 < j as int {
                            assert(m.products[r2].id == product_id);
                        } else {
                            assert(m.products[r2 + 1].id == product_id);
                        }
                        assert(false);
                    }
                }
                Ok(())
            },
        }
    }

    /// The product's history, one point per successful reconciliation,
    /// ascending by time of observation.
    pub fn history_for(&self, product_id: u64) -> (r: Result<Vec<PricePoint>, StoreError>)
        ensures
            match r {
                Ok(h) => find_id(self@.products, product_id) >= 0 && h@ == self@.products[find_id(
                    self@.products,
                    product_id,
                )].history,
                Err(e) => find_id(self@.products, product_id) == -1 && e == StoreError::NotFound,
            },
    {
        match self.find_by_id(product_id) {
            None => Err(StoreError::NotFound),
            Some(j) => {
                let mut out: Vec<PricePoint> = Vec::new();
                let n = self.products[j].history.len();
                let mut i: usize = 0;
                while i < n
                    invariant
                        i <= n,
                        j < self.products@.len(),
                        n == self.products@[j as int].history@.len(),
                        out@ == self.products@[j as int].history@.take(i as int),
                    decreases n - i,
                {
                    out.push(self.products[j].history[i]);
                    proof {
                        let h = self.products@[j as int].history@;
                        assert(h.take(i as int + 1) =~= h.take(i as int).push(h[i as int]));
                    }
                    i = i + 1;
                }
                proof {
                    let h = self.products@[j as int].history@;
                    assert(h.take(h.len() as int) =~= h);
                }
                Ok(out)
            },
        }
    }
}

/// What one upsert does to a well-formed image: it keeps the invariant, it
/// touches exactly the row keyed by the URL — updating it in place, or
/// appending a fresh row with the next id — and it leaves every other row,
/// and every id, URL and creation time, as it was.
pub proof fn lemma_upsert_v_props(m: StoreV, url: Seq<char>, name: Seq<char>, price: i32, now: u64)
    requires
        store_wf(m),
        m.next_id < u64::MAX,
    ensures
        ({
            let m1 = upsert_v(m, url, name, price, now);
            let j0 = find_url(m.products, url);
            let j1 = find_url(m1.products, url);
            &&& store_wf(m1)
            &&& j1 == if j0 >= 0 {
                j0
            } else {
                m.products.len() as int
            }
            &&& m1.products.len() == if j0 >= 0 {
                m.products.len() as int
            } else {
                m.products.len() as int + 1
            }
            &&& m1.next_id == if j0 >= 0 {
                m.next_id as int
            } else {
                m.next_id + 1
            }
            &&& m1.products[j1].url == url
            &&& m1.products[j1].name == name
            &&& m1.products[j1].current_price == price
            &&& m1.products[j1].id == upsert_id(m, url)
            &&& m1.products[j1].history == if j0 >= 0 {
                m.products[j0].history
            } else {
                Seq::<PricePoint>::empty()
            }
            &&& m1.products[j1].created_at == if j0 >= 0 {
                m.products[j0].created_at
            } else {
                now
            }
            &&& upsert_id(m, url) < m1.next_id
            &&& forall|i: int|
                0 <= i < m.products.len() ==> m1.products[i].id == m.products[i].id
                    && m1.products[i].url == m.products[i].url && m1.products[i].created_at
                    == m.products[i].created_at
            &&& forall|i: int|
                0 <= i < m.products.len() && i != j0 ==> m1.products[i] == m.products[i]
        }),
{
    let m1 = upsert_v(m, url, name, price, now);
    let j0 = find_url(m.products, url);
    lemma_find_url_props(m.products, url);
    if j0 >= 0 {
        lemma_find_url_same(m.products, m1.products, url);
    } else {
        lemma_find_url_props(m1.products, url);
        let j1 = find_url(m1.products, url);
        assert(m1.products[m.products.len() as int].url == url);
        if j1 == -1 {
            assert(false);
        }
        if j1 < m.products.len() {
            assert(m.products[j1].url == url);
            assert(false);
        }
    }
}

/// History is append-only: one append files exactly one point at its slot
/// in time order; every point observed before keeps its value and its
/// relative order, no other product changes, and a missing id changes
/// nothing at all.
pub proof fn lemma_append_v_props(m: StoreV, pid: u64, price: i32, t: u64)
    requires
        store_wf(m),
    ensures
        ({
            let m2 = append_v(m, pid, price, t);
            let j = find_id(m.products, pid);
            &&& store_wf(m2)
            &&& j == -1 ==> m2 == m
            &&& j >= 0 ==> {
                let h = m.products[j].history;
                let pos = insert_pos(h, t);
                let h2 = m2.products[j].history;
                &&& m2.products.len() == m.products.len()
                &&& m2.next_id == m.next_id
                &&& forall|i: int|
                    0 <= i < m.products.len() && i != j ==> m2.products[i] == m.products[i]
                &&& m2.products[j].id == m.products[j].id
                &&& m2.products[j].url == m.products[j].url
                &&& m2.products[j].name == m.products[j].name
                &&& m2.products[j].current_price == m.products[j].current_price
                &&& m2.products[j].created_at == m.products[j].created_at
                &&& h2.len() == h.len() + 1
                &&& h2[pos] == PricePoint { price: price, checked_at: t }
                &&& forall|i: int| 0 <= i < pos ==> h2[i] == h[i]
                &&& forall|i: int| pos <= i < h.len() ==> h2[i + 1] == h[i]
                &&& points_sorted(h2)
            }
        }),
{
    let j = find_id(m.products, pid);
    lemma_find_id_props(m.products, pid);
    if j >= 0 {
        let h = m.products[j].history;
        let pt = PricePoint { price: price, checked_at: t };
        lemma_insert_pos_props(h, t);
        h.insert_ensures(insert_pos(h, t), pt);
        lemma_insert_point_sorted(h, pt);
    }
}

/// Deletion cascades: removing a product takes its row and with it its
/// whole history out in one step, leaves every other product as it was,
/// and afterwards no row carries the removed id.
pub proof fn lemma_remove_v_props(m: StoreV, pid: u64)
    requires
        store_wf(m),
    ensures
        ({
            let m2 = remove_v(m, pid);
            let j = find_id(m.products, pid);
            &&& store_wf(m2)
            &&& j == -1 ==> m2 == m
            &&& j >= 0 ==> {
                &&& m2.products.len() == m.products.len() - 1
                &&& forall|i: int| 0 <= i < j ==> m2.products[i] == m.products[i]
                &&& forall|i: int|
                    j <= i < m2.products.len() ==> m2.products[i] == m.products[i + 1]
            }
            &&& find_id(m2.products, pid) == -1
        }),
{
    let m2 = remove_v(m, pid);
    let j = find_id(m.products, pid);
    lemma_find_id_props(m.products, pid);
    if j >= 0 {
        m.products.remove_ensures(j);
        lemma_find_id_props(m2.products, pid);
        let r2 = find_id(m2.products, pid);
        if r2 != -1 {
            assert(m2.products[r2].id == pid);
            if r2 < j {
                assert(m.products[r2].id == pid);
            } else {
                assert(m.products[r2 + 1].id == pid);
            }
            assert(false);
        }
    }
}

/// Upsert is idempotent on the URL: a second upsert for the same URL
/// updates the one row the first call made or found — same id handed back,
/// no second row, and the later name and price win.
pub proof fn lemma_upsert_idempotent_on_url(
    m: StoreV,
    url: Seq<char>,
    name1: Seq<char>,
    price1: i32,
    now1: u64,
    name2: Seq<char>,
    price2: i32,
    now2: u64,
)
    requires
        store_wf(m),
        m.next_id + 1 < u64::MAX,
    ensures
        ({
            let m1 = upsert_v(m, url, name1, price1, now1);
            let m2 = upsert_v(m1, url, name2, price2, now2);
            let j = find_url(m2.products, url);
            &&& upsert_id(m1, url) == upsert_id(m, url)
            &&& m2.products.len() == m1.products.len()
            &&& m2.next_id == m1.next_id
            &&& 0 <= j < m2.products.len()
            &&& m2.products[j].id == upsert_id(m, url)
            &&& m2.products[j].name == name2
            &&& m2.products[j].current_price == price2
            &&& forall|i: int| 0 <= i < m2.products.len() && i != j ==> m2.products[i].url != url
        }),
{
    lemma_upsert_v_props(m, url, name1, price1, now1);
    let m1 = upsert_v(m, url, name1, price1, now1);
    lemma_upsert_v_props(m1, url, name2, price2, now2);
    let m2 = upsert_v(m1, url, name2, price2, now2);
    lemma_find_url_props(m1.products, url);
    lemma_find_url_props(m2.products, url);
}

/// One line of the tracked-product listing.
pub struct ProductSummary {
    pub id: u64,
    pub url: String,
    pub name: String,
    pub current_price: i32,
}

impl ProductStore {
    /// Snapshot of every tracked product: id, URL, display name and the
    /// price last observed, in the store's enumeration order.
    pub fn list_tracked(&self) -> (r: Vec<ProductSummary>)
        ensures
            r@.len() == self@.products.len(),
            forall|i: int|
                0 <= i < r@.len() ==> r@[i].id == self@.products[i].id && r@[i].url@
                    == self@.products[i].url && r@[i].name@ == self@.products[i].name
                    && r@[i].current_price == self@.products[i].current_price,
    {
        let mut out: Vec<ProductSummary> = Vec::new();
        let mut i: usize = 0;
        while i < self.products.len()
            invariant
                i <= self.products@.len(),
                out@.len() == i,
                forall|k: int|
                    0 <= k < i ==> out@[k].id == self@.products[k].id && out@[k].url@
                        == self@.products[k].url && out@[k].name@ == self@.products[k].name
                        && out@[k].current_price == self@.products[k].current_price,
            decreases self.products@.len() - i,
        {
            let row = &self.products[i];
            out.push(
                ProductSummary {
                    id: row.id,
                    url: row.url.clone(),
                    name: row.name.clone(),
                    current_price: row.current_price,
                },
            );
            i = i + 1;
        }
        out
    }
}

} // verus!
