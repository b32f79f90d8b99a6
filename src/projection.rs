//! The materialized balances: a cache of the ledger's sums, one row per
//! (product, warehouse) pair, updated entry by entry and rebuilt by replay.
use vstd::prelude::*;
use crate::ledger::{LedgerStore, is_key, last_entry_id, ledger_sum};
use crate::types::{BalanceKey, LedgerEntry, LedgerError, StockBalance};

verus! {

/// The row held for (p, w): the last one with that key.
pub open spec fn row_for(rows: Seq<StockBalance>, p: u128, w: u128) -> Option<StockBalance>
    decreases rows.len(),
{
    if rows.len() == 0 {
        None
    } else if rows.last().product_id == p && rows.last().warehouse_id == w {
        Some(rows.last())
    } else {
        row_for(rows.drop_last(), p, w)
    }
}

/// The row that stands for (p, w) when none is held: nothing on hand.
pub open spec fn empty_row(p: u128, w: u128) -> StockBalance {
    StockBalance { product_id: p, warehouse_id: w, quantity: 0, last_entry_id: 0, stale: false }
}

/// The row for (p, w), or the empty one.
pub open spec fn row_at(rows: Seq<StockBalance>, p: u128, w: u128) -> StockBalance {
    match row_for(rows, p, w) {
        Some(r) => r,
        None => empty_row(p, w),
    }
}

pub open spec fn keys_unique(rows: Seq<StockBalance>) -> bool {
    forall|i: int, j: int|
        0 <= i < rows.len() && 0 <= j < rows.len() && i != j ==> !(rows[i].product_id
            == rows[j].product_id && rows[i].warehouse_id == rows[j].warehouse_id)
}

/// `b` has `a`'s rows, except that the row of (p, w) is now `r`.
pub open spec fn rows_with(a: Seq<StockBalance>, b: Seq<StockBalance>, r: StockBalance) -> bool {
    &&& row_for(b, r.product_id, r.warehouse_id) == Some(r)
    &&& forall|p: u128, w: u128|
        #![trigger row_for(b, p, w)]
        !(p == r.product_id && w == r.warehouse_id) ==> row_for(b, p, w) == row_for(a, p, w)
}

pub proof fn lemma_row_present(rows: Seq<StockBalance>, i: int)
    requires
        keys_unique(rows),
        0 <= i < rows.len(),
    ensures
        row_for(rows, rows[i].product_id, rows[i].warehouse_id) == Some(rows[i]),
    decreases rows.len(),
{
    if i != rows.len() - 1 {
        assert(keys_unique(rows.drop_last()));
        lemma_row_present(rows.drop_last(), i);
    }
}

proof fn lemma_row_absent(rows: Seq<StockBalance>, p: u128, w: u128)
    requires
        forall|i: int| 0 <= i < rows.len() ==> !(rows[i].product_id == p && rows[i].warehouse_id == w),
    ensures
        row_for(rows, p, w) is None,
    decreases rows.len(),
{
    if rows.len() > 0 {
        lemma_row_absent(rows.drop_last(), p, w);
    }
}

proof fn lemma_row_lookup(rows: Seq<StockBalance>, p: u128, w: u128)
    requires
        keys_unique(rows),
    ensures
        row_for(rows, p, w) is None <==> forall|i: int|
            0 <= i < rows.len() ==> !(rows[i].product_id == p && rows[i].warehouse_id == w),
        row_for(rows, p, w) matches Some(r) ==> exists|i: int|
            0 <= i < rows.len() && rows[i] == r && r.product_id == p && r.warehouse_id == w,
{
    if exists|i: int| 0 <= i < rows.len() && rows[i].product_id == p && rows[i].warehouse_id == w {
        let i = choose|i: int|
            0 <= i < rows.len() && rows[i].product_id == p && rows[i].warehouse_id == w;
        lemma_row_present(rows, i);
    } else {
        lemma_row_absent(rows, p, w);
    }
}

/// The row that stands for (p, w) carries that key.
pub proof fn lemma_row_at_key(rows: Seq<StockBalance>, p: u128, w: u128)
    requires
        keys_unique(rows),
    ensures
        row_at(rows, p, w).product_id == p,
        row_at(rows, p, w).warehouse_id == w,
{
    lemma_row_lookup(rows, p, w);
}

proof fn lemma_row_update(rows: Seq<StockBalance>, i: int, r: StockBalance)
    requires
        keys_unique(rows),
        0 <= i < rows.len(),
        rows[i].product_id == r.product_id,
        rows[i].warehouse_id == r.warehouse_id,
    ensures
        keys_unique(rows.update(i, r)),
        rows_with(rows, rows.update(i, r), r),
{
    let u = rows.update(i, r);
    assert(keys_unique(u));
    lemma_row_present(u, i);
    assert forall|p: u128, w: u128| #![trigger row_for(u, p, w)]
        !(p == r.product_id && w == r.warehouse_id) implies row_for(u, p, w) == row_for(rows, p, w) by {
        lemma_row_lookup(rows, p, w);
        lemma_row_lookup(u, p, w);
        if row_for(rows, p, w) is None {
            assert forall|j: int| 0 <= j < u.len() implies !(u[j].product_id == p
                && u[j].warehouse_id == w) by {
                if j != i {
                    assert(u[j] == rows[j]);
                }
            }
        } else {
            let j = choose|j: int|
                0 <= j < rows.len() && rows[j] == row_for(rows, p, w)->Some_0 && rows[j].product_id == p
                    && rows[j].warehouse_id == w;
            assert(u[j] == rows[j]);
            lemma_row_present(u, j);
        }
    }
}

proof fn lemma_row_push(rows: Seq<StockBalance>, r: StockBalance)
    requires
        keys_unique(rows),
        row_for(rows, r.product_id, r.warehouse_id) is None,
    ensures
        keys_unique(rows.push(r)),
        rows_with(rows, rows.push(r), r),
{
    lemma_row_lookup(rows, r.product_id, r.warehouse_id);
    let u = rows.push(r);
    assert(u.drop_last() =~= rows);
    assert forall|i: int, j: int|
        0 <= i < u.len() && 0 <= j < u.len() && i != j implies !(u[i].product_id
            == u[j].product_id && u[i].warehouse_id == u[j].warehouse_id) by {
        if i < rows.len() && j < rows.len() {
            assert(u[i] == rows[i] && u[j] == rows[j]);
        } else if i < rows.len() {
            assert(u[i] == rows[i]);
        } else {
            assert(u[j] == rows[j]);
        }
    }
}

/// Every pair agrees with `entries`: its quantity is the ledger's sum, its
/// last entry id the ledger's, and it is not stale.
pub open spec fn rows_agree(rows: Seq<StockBalance>, entries: Seq<LedgerEntry>) -> bool {
    forall|p: u128, w: u128|
        #![trigger row_for(rows, p, w)]
        {
            &&& row_at(rows, p, w).quantity == ledger_sum(entries, p, w)
            &&& row_at(rows, p, w).last_entry_id == last_entry_id(entries, p, w)
            &&& !row_at(rows, p, w).stale
        }
}

/// Balances projected from the ledger, one row per pair that has one.
pub struct BalanceProjector {
    rows: Vec<StockBalance>,
}

impl View for BalanceProjector {
    type V = Seq<StockBalance>;

    closed spec fn view(&self) -> Seq<StockBalance> {
        self.rows@
    }
}

impl BalanceProjector {
    /// Keys are unique and no balance is negative.
    pub open spec fn wf(&self) -> bool {
        &&& keys_unique(self@)
        &&& forall|i: int| #![trigger self@[i]] 0 <= i < self@.len() ==> self@[i].quantity >= 0
    }

    /// The projected balance of (p, w).
    pub open spec fn quantity(&self, p: u128, w: u128) -> int {
        row_at(self@, p, w).quantity as int
    }

    /// Every pair agrees with `entries`: its quantity is the ledger's sum, its
    /// last entry id the ledger's, and it is not stale.
    pub open spec fn agrees_with(&self, entries: Seq<LedgerEntry>) -> bool {
        rows_agree(self@, entries)
    }

    /// A projection with no rows.
    pub fn new() -> (r: BalanceProjector)
        ensures
            r.wf(),
            r@ == Seq::<StockBalance>::empty(),
    {
        BalanceProjector { rows: Vec::new() }
    }

    fn find(&self, p: u128, w: u128) -> (r: Option<usize>)
        requires
            self.wf(),
        ensures
            r matches Some(i) ==> i < self@.len() && row_for(self@, p, w) == Some(self@[i as int]),
            r is None ==> row_for(self@, p, w) is None,
    {
        let mut i: usize = 0;
        while i < self.rows.len()
            invariant
                self.wf(),
                0 <= i <= self@.len(),
                forall|j: int| 0 <= j < i ==> !(self@[j].product_id == p && self@[j].warehouse_id == w),
            decreases self@.len() - i,
        {
            if self.rows[i].product_id == p && self.rows[i].warehouse_id == w {
                proof {
                    lemma_row_present(self@, i as int);
                }
                return Some(i);
            }
            i = i + 1;
        }
        proof {
            lemma_row_absent(self@, p, w);
        }
        None
    }

    /// The row of (p, w); a pair never touched has nothing on hand.
    pub fn balance(&self, p: u128, w: u128) -> (r: StockBalance)
        requires
            self.wf(),
        ensures
            r == row_at(self@, p, w),
    {
        match self.find(p, w) {
            Some(i) => self.rows[i],
            None => StockBalance {
                product_id: p,
                warehouse_id: w,
                quantity: 0,
                last_entry_id: 0,
                stale: false,
            },
        }
    }

    /// The projected quantity of (p, w).
    pub fn current_balance(&self, p: u128, w: u128) -> (r: i64)
        requires
            self.wf(),
        ensures
            r == self.quantity(p, w),
    {
        self.balance(p, w).quantity
    }

    /// Whether (p, w) awaits a rebuild after a consistency fault.
    pub fn is_stale(&self, p: u128, w: u128) -> (r: bool)
        requires
            self.wf(),
        ensures
            r == row_at(self@, p, w).stale,
    {
        self.balance(p, w).stale
    }

    fn put(&mut self, r: StockBalance)
        requires
            old(self).wf(),
            r.quantity >= 0,
        ensures
            final(self).wf(),
            rows_with(old(self)@, final(self)@, r),
    {
        match self.find(r.product_id, r.warehouse_id) {
            Some(i) => {
                proof {
                    lemma_row_lookup(self@, r.product_id, r.warehouse_id);
                    lemma_row_present(self@, i as int);
                    lemma_row_update(self@, i as int, r);
                }
                self.rows.set(i, r);
            },
            None => {
                proof {
                    lemma_row_push(self@, r);
                }
                self.rows.push(r);
            },
        }
    }

    /// Marks (p, w) stale, keeping its last known-good quantity.
    fn mark_stale(&mut self, p: u128, w: u128)
        requires
            old(self).wf(),
        ensures
            final(self).wf(),
            rows_with(
                old(self)@,
                final(self)@,
                StockBalance { stale: true, ..row_at(old(self)@, p, w) },
            ),
    {
        let b = self.balance(p, w);
        proof {
            lemma_row_lookup(self@, p, w);
        }
        self.put(StockBalance { stale: true, ..b });
    }

    /// Folds one ledger entry into its pair's balance. The old quantity plus
    /// the entry's change must be the entry's own resulting balance, and not
    /// negative; otherwise, or when the pair is already stale, the pair is
    /// marked stale and a consistency fault is reported.
    pub fn apply_entry(&mut self, e: &LedgerEntry) -> (r: Result<i64, LedgerError>)
        requires
            old(self).wf(),
        ensures
            final(self).wf(),
            r is Ok <==> {
                &&& !row_at(old(self)@, e.product_id, e.warehouse_id).stale
                &&& old(self).quantity(e.product_id, e.warehouse_id) + e.quantity_change
                    == e.resulting_balance
                &&& e.resulting_balance >= 0
            },
            r is Ok ==> r == Ok::<i64, LedgerError>(e.resulting_balance) && rows_with(
                old(self)@,
                final(self)@,
                StockBalance {
                    product_id: e.product_id,
                    warehouse_id: e.warehouse_id,
                    quantity: e.resulting_balance,
                    last_entry_id: e.id,
                    stale: false,
                },
            ),
            r is Err ==> r == Err::<i64, LedgerError>(
                LedgerError::ConsistencyFault {
                    product_id: e.product_id,
                    warehouse_id: e.warehouse_id,
                },
            ) && rows_with(
                old(self)@,
                final(self)@,
                StockBalance { stale: true, ..row_at(old(self)@, e.product_id, e.warehouse_id) },
            ),
    {
        let b = self.balance(e.product_id, e.warehouse_id);
        let consistent = !b.stale && e.resulting_balance >= 0 && b.quantity as i128
            + e.quantity_change as i128 == e.resulting_balance as i128;
        if consistent {
            self.put(
                StockBalance {
                    product_id: e.product_id,
                    warehouse_id: e.warehouse_id,
                    quantity: e.resulting_balance,
                    last_entry_id: e.id,
                    stale: false,
                },
            );
            Ok(e.resulting_balance)
        } else {
            self.mark_stale(e.product_id, e.warehouse_id);
            Err(LedgerError::ConsistencyFault { product_id: e.product_id, warehouse_id: e.warehouse_id })
        }
    }

    /// Replays the whole ledger for (p, w), in ascending id order, and
    /// overwrites its row with the result, which clears a stale mark. A sum
    /// that is negative or out of range cannot be a balance: the pair is then
    /// marked stale and a consistency fault is reported.
    pub fn rebuild_key(&mut self, ledger: &LedgerStore, p: u128, w: u128) -> (r: Result<
        i64,
        LedgerError,
    >)
        requires
            old(self).wf(),
        ensures
            final(self).wf(),
            r is Ok <==> 0 <= ledger_sum(ledger@, p, w) <= i64::MAX,
            r is Ok ==> r == Ok::<i64, LedgerError>(ledger_sum(ledger@, p, w) as i64) && rows_with(
                old(self)@,
                final(self)@,
                StockBalance {
                    product_id: p,
                    warehouse_id: w,
                    quantity: ledger_sum(ledger@, p, w) as i64,
                    last_entry_id: last_entry_id(ledger@, p, w) as u64,
                    stale: false,
                },
            ),
            r is Err ==> r == Err::<i64, LedgerError>(
                LedgerError::ConsistencyFault { product_id: p, warehouse_id: w },
            ) && rows_with(
                old(self)@,
                final(self)@,
                StockBalance { stale: true, ..row_at(old(self)@, p, w) },
            ),
    {
        let (acc, last) = ledger.replay(p, w);
        if 0 <= acc && acc <= i64::MAX as i128 {
            self.put(
                StockBalance {
                    product_id: p,
                    warehouse_id: w,
                    quantity: acc as i64,
                    last_entry_id: last,
                    stale: false,
                },
            );
            Ok(acc as i64)
        } else {
            self.mark_stale(p, w);
            Err(LedgerError::ConsistencyFault { product_id: p, warehouse_id: w })
        }
    }

    /// The rows whose pair the optional product and warehouse admit.
    pub fn stock(&self, product_id: Option<u128>, warehouse_id: Option<u128>) -> (r: Vec<
        StockBalance,
    >)
        ensures
            r@ == self@.filter(|b: StockBalance| stock_admits(product_id, warehouse_id, b)),
    {
        let ghost pred = |b: StockBalance| stock_admits(product_id, warehouse_id, b);
        let mut out: Vec<StockBalance> = Vec::new();
        let mut i: usize = 0;
        while i < self.rows.len()
            invariant
                0 <= i <= self@.len(),
                pred == (|b: StockBalance| stock_admits(product_id, warehouse_id, b)),
                out@ == self@.take(i as int).filter(pred),
            decreases self@.len() - i,
        {
            proof {
                assert(self@.take(i as int + 1) =~= self@.take(i as int).push(self@[i as int]));
                self@.take(i as int).lemma_filter_push(self@[i as int], pred);
            }
            let b = self.rows[i];
            let p_ok = match product_id {
                Some(p) => b.product_id == p,
                None => true,
            };
            let w_ok = match warehouse_id {
                Some(w) => b.warehouse_id == w,
                None => true,
            };
            if p_ok && w_ok {
                out.push(b);
            }
            i = i + 1;
        }
        proof {
            assert(self@.take(self@.len() as int) =~= self@);
        }
        out
    }
}

/// Whether a balance row belongs to the optional product and warehouse.
pub open spec fn stock_admits(
    product_id: Option<u128>,
    warehouse_id: Option<u128>,
    b: StockBalance,
) -> bool {
    &&& (product_id matches Some(p) ==> b.product_id == p)
    &&& (warehouse_id matches Some(w) ==> b.warehouse_id == w)
}

/// Whether (p, w) lies in the scope of an optional product and warehouse.
pub open spec fn scope_admits(
    product_id: Option<u128>,
    warehouse_id: Option<u128>,
    p: u128,
    w: u128,
) -> bool {
    &&& (product_id matches Some(q) ==> p == q)
    &&& (warehouse_id matches Some(v) ==> w == v)
}

/// The row that replaying `entries` gives (p, w): their sum and last entry
/// when the sum is a balance, else the row held in `rows`, marked stale.
pub open spec fn replayed(
    rows: Seq<StockBalance>,
    entries: Seq<LedgerEntry>,
    p: u128,
    w: u128,
) -> StockBalance {
    if 0 <= ledger_sum(entries, p, w) <= i64::MAX {
        StockBalance {
            product_id: p,
            warehouse_id: w,
            quantity: ledger_sum(entries, p, w) as i64,
            last_entry_id: last_entry_id(entries, p, w) as u64,
            stale: false,
        }
    } else {
        StockBalance { stale: true, ..row_at(rows, p, w) }
    }
}

pub open spec fn listed(keys: Seq<BalanceKey>, n: int, p: u128, w: u128) -> bool {
    exists|m: int| 0 <= m < n && #[trigger] keys[m] == BalanceKey { product_id: p, warehouse_id: w }
}

proof fn lemma_no_entries(s: Seq<LedgerEntry>, p: u128, w: u128)
    requires
        forall|i: int| 0 <= i < s.len() ==> !is_key(#[trigger] s[i], p, w),
    ensures
        ledger_sum(s, p, w) == 0,
        last_entry_id(s, p, w) == 0,
    decreases s.len(),
{
    if s.len() > 0 {
        let t = s.drop_last();
        assert forall|i: int| 0 <= i < t.len() implies !is_key(#[trigger] t[i], p, w) by {
            assert(t[i] == s[i]);
        }
        lemma_no_entries(t, p, w);
        assert(s.last() == s[s.len() - 1]);
    }
}

impl BalanceProjector {
    /// Replays the ledger for every pair in scope (all products and/or all
    /// warehouses when a bound is `None`) and overwrites their rows; rows out
    /// of scope are kept. Returns whether every pair in scope came out
    /// consistent.
    pub fn rebuild(
        &mut self,
        ledger: &LedgerStore,
        product_id: Option<u128>,
        warehouse_id: Option<u128>,
    ) -> (r: bool)
        requires
            old(self).wf(),
        ensures
            final(self).wf(),
            forall|p: u128, w: u128|
                #![trigger row_for(final(self)@, p, w)]
                scope_admits(product_id, warehouse_id, p, w) ==> row_at(final(self)@, p, w)
                    == replayed(old(self)@, ledger@, p, w),
            forall|p: u128, w: u128|
                #![trigger row_for(final(self)@, p, w)]
                !scope_admits(product_id, warehouse_id, p, w) ==> row_for(final(self)@, p, w)
                    == row_for(old(self)@, p, w),
            r == forall|p: u128, w: u128|
                #![trigger ledger_sum(ledger@, p, w)]
                scope_admits(product_id, warehouse_id, p, w) ==> 0 <= ledger_sum(ledger@, p, w)
                    <= i64::MAX,
    {
        let ghost start = self@;
        let ghost s = ledger@;
        let mut keys: Vec<BalanceKey> = Vec::new();
        let n = ledger.len();
        let mut i: usize = 0;
        while i < n
            invariant
                n == s.len(),
                s == ledger@,
                0 <= i <= n,
                forall|k: int| #![trigger keys@[k]] 0 <= k < keys@.len() ==> scope_admits(product_id, warehouse_id, keys@[k].product_id, keys@[k].warehouse_id),
                forall|j: int|
                    #![trigger s[j]]
                    0 <= j < i && scope_admits(product_id, warehouse_id, s[j].product_id, s[j].warehouse_id)
                        ==> listed(keys@, keys@.len() as int, s[j].product_id, s[j].warehouse_id),
            decreases n - i,
        {
            let e = ledger.entry(i);
            if scope_matches(product_id, warehouse_id, e.product_id, e.warehouse_id) {
                let ghost before = keys@;
                keys.push(BalanceKey { product_id: e.product_id, warehouse_id: e.warehouse_id });
                proof {
                    assert forall|j: int|
                        #![trigger s[j]]
                        0 <= j < i + 1 && scope_admits(product_id, warehouse_id, s[j].product_id, s[j].warehouse_id)
                            implies listed(keys@, keys@.len() as int, s[j].product_id, s[j].warehouse_id) by {
                        if j < i {
                            let m = choose|m: int| 0 <= m < before.len() && #[trigger] before[m]
                                == BalanceKey { product_id: s[j].product_id, warehouse_id: s[j].warehouse_id };
                            assert(keys@[m] == before[m]);
                        } else {
                            assert(keys@[before.len() as int] == BalanceKey {
                                product_id: s[j].product_id,
                                warehouse_id: s[j].warehouse_id,
                            });
                        }
                    }
                }
            }
            i = i + 1;
        }
        let rn = self.rows.len();
        let mut i: usize = 0;
        while i < rn
            invariant
                n == s.len(),
                s == ledger@,
                self@ == start,
                rn == start.len(),
                0 <= i <= rn,
                forall|k: int| #![trigger keys@[k]] 0 <= k < keys@.len() ==> scope_admits(product_id, warehouse_id, keys@[k].product_id, keys@[k].warehouse_id),
                forall|j: int|
                    #![trigger s[j]]
                    0 <= j < n && scope_admits(product_id, warehouse_id, s[j].product_id, s[j].warehouse_id)
                        ==> listed(keys@, keys@.len() as int, s[j].product_id, s[j].warehouse_id),
                forall|j: int|
                    #![trigger start[j]]
                    0 <= j < i && scope_admits(product_id, warehouse_id, start[j].product_id, start[j].warehouse_id)
                        ==> listed(keys@, keys@.len() as int, start[j].product_id, start[j].warehouse_id),
            decreases rn - i,
        {
            let b = self.rows[i];
            if scope_matches(product_id, warehouse_id, b.product_id, b.warehouse_id) {
                let ghost before = keys@;
                keys.push(BalanceKey { product_id: b.product_id, warehouse_id: b.warehouse_id });
                proof {
                    assert forall|j: int|
                        #![trigger s[j]]
                        0 <= j < n && scope_admits(product_id, warehouse_id, s[j].product_id, s[j].warehouse_id)
                            implies listed(keys@, keys@.len() as int, s[j].product_id, s[j].warehouse_id) by {
                        let m = choose|m: int| 0 <= m < before.len() && #[trigger] before[m]
                            == BalanceKey { product_id: s[j].product_id, warehouse_id: s[j].warehouse_id };
                        assert(keys@[m] == before[m]);
                    }
                    assert forall|j: int|
                        #![trigger start[j]]
                        0 <= j < i + 1 && scope_admits(product_id, warehouse_id, start[j].product_id, start[j].warehouse_id)
                            implies listed(keys@, keys@.len() as int, start[j].product_id, start[j].warehouse_id) by {
                        if j < i {
                            let m = choose|m: int| 0 <= m < before.len() && #[trigger] before[m]
                                == BalanceKey { product_id: start[j].product_id, warehouse_id: start[j].warehouse_id };
                            assert(keys@[m] == before[m]);
                        } else {
                            assert(keys@[before.len() as int] == BalanceKey {
                                product_id: start[j].product_id,
                                warehouse_id: start[j].warehouse_id,
                            });
                        }
                    }
                }
            }
            i = i + 1;
        }
        let kn = keys.len();
        let mut all_ok = true;
        let mut i: usize = 0;
        while i < kn
            invariant
                self.wf(),
                s == ledger@,
                kn == keys@.len(),
                0 <= i <= kn,
                forall|k: int| #![trigger keys@[k]] 0 <= k < kn ==> scope_admits(product_id, warehouse_id, keys@[k].product_id, keys@[k].warehouse_id),
                forall|p: u128, w: u128|
                    #![trigger row_for(self@, p, w)]
                    listed(keys@, i as int, p, w) ==> row_at(self@, p, w) == replayed(start, s, p, w),
                forall|p: u128, w: u128|
                    #![trigger row_for(self@, p, w)]
                    !listed(keys@, i as int, p, w) ==> row_for(self@, p, w) == row_for(start, p, w),
                all_ok == forall|k: int|
                    #![trigger keys@[k]]
                    0 <= k < i ==> 0 <= ledger_sum(s, keys@[k].product_id, keys@[k].warehouse_id) <= i64::MAX,
            decreases kn - i,
        {
            let k = keys[i];
            let ghost rows0 = self@;
            let res = self.rebuild_key(ledger, k.product_id, k.warehouse_id);
            proof {
                let rows1 = self@;
                let good = StockBalance {
                    product_id: k.product_id,
                    warehouse_id: k.warehouse_id,
                    quantity: ledger_sum(s, k.product_id, k.warehouse_id) as i64,
                    last_entry_id: last_entry_id(s, k.product_id, k.warehouse_id) as u64,
                    stale: false,
                };
                let bad = StockBalance { stale: true, ..row_at(rows0, k.product_id, k.warehouse_id) };
                let put = if res is Ok { good } else { bad };
                lemma_row_lookup(rows0, k.product_id, k.warehouse_id);
                assert(rows_with(rows0, rows1, put));
                assert(put.product_id == k.product_id && put.warehouse_id == k.warehouse_id);
                assert(row_at(rows1, k.product_id, k.warehouse_id) == put);
                assert(put == replayed(rows0, s, k.product_id, k.warehouse_id));
                assert forall|p: u128, w: u128| #![trigger row_for(rows1, p, w)]
                    !(p == k.product_id && w == k.warehouse_id) implies row_for(rows1, p, w) == row_for(rows0, p, w) by {
                    assert(!(p == put.product_id && w == put.warehouse_id));
                }
                assert forall|p: u128, w: u128| #![trigger row_for(rows1, p, w)]
                    listed(keys@, i as int + 1, p, w) implies row_at(rows1, p, w) == replayed(start, s, p, w) by {
                    if p == k.product_id && w == k.warehouse_id {
                        if !listed(keys@, i as int, p, w) {
                            assert(row_for(rows0, p, w) == row_for(start, p, w));
                        } else {
                            assert(row_at(rows0, p, w) == replayed(start, s, p, w));
                        }
                    } else {
                        assert(row_for(rows1, p, w) == row_for(rows0, p, w));
                        let m = choose|m: int| 0 <= m < i + 1 && #[trigger] keys@[m] == BalanceKey { product_id: p, warehouse_id: w };
                        assert(m != i);
                        assert(listed(keys@, i as int, p, w));
                        assert(row_for(rows0, p, w) == row_for(rows0, p, w));
                    }
                }
                assert forall|p: u128, w: u128| #![trigger row_for(rows1, p, w)]
                    !listed(keys@, i as int + 1, p, w) implies row_for(rows1, p, w) == row_for(start, p, w) by {
                    assert(!(p == k.product_id && w == k.warehouse_id)) by {
                        if p == k.product_id && w == k.warehouse_id {
                            assert(keys@[i as int] == BalanceKey { product_id: p, warehouse_id: w });
                        }
                    }
                    assert(row_for(rows1, p, w) == row_for(rows0, p, w));
                    if listed(keys@, i as int, p, w) {
                        let m = choose|m: int| 0 <= m < i && #[trigger] keys@[m] == BalanceKey { product_id: p, warehouse_id: w };
                        assert(listed(keys@, i as int + 1, p, w));
                    }
                    assert(row_for(rows0, p, w) == row_for(start, p, w));
                }
            }
            all_ok = all_ok && res.is_ok();
            i = i + 1;
        }
        proof {
            assert forall|p: u128, w: u128|
                #![trigger row_for(self@, p, w)]
                scope_admits(product_id, warehouse_id, p, w) implies row_at(self@, p, w)
                    == replayed(start, s, p, w) by {
                if !listed(keys@, kn as int, p, w) {
                    assert forall|j: int| 0 <= j < s.len() implies !is_key(#[trigger] s[j], p, w) by {
                        if is_key(s[j], p, w) {
                            assert(listed(keys@, kn as int, s[j].product_id, s[j].warehouse_id));
                        }
                    }
                    lemma_no_entries(s, p, w);
                    assert forall|j: int| 0 <= j < start.len() implies !(start[j].product_id == p
                        && start[j].warehouse_id == w) by {
                        if start[j].product_id == p && start[j].warehouse_id == w {
                            assert(listed(keys@, kn as int, start[j].product_id, start[j].warehouse_id));
                        }
                    }
                    lemma_row_absent(start, p, w);
                    assert(row_for(self@, p, w) == row_for(start, p, w));
                }
            }
            assert forall|p: u128, w: u128|
                #![trigger row_for(self@, p, w)]
                !scope_admits(product_id, warehouse_id, p, w) implies row_for(self@, p, w)
                    == row_for(old(self)@, p, w) by {
                if listed(keys@, kn as int, p, w) {
                    let m = choose|m: int| 0 <= m < kn && #[trigger] keys@[m] == BalanceKey { product_id: p, warehouse_id: w };
                    assert(scope_admits(product_id, warehouse_id, keys@[m].product_id, keys@[m].warehouse_id));
                }
            }
            let claim = forall|p: u128, w: u128|
                #![trigger ledger_sum(ledger@, p, w)]
                scope_admits(product_id, warehouse_id, p, w) ==> 0 <= ledger_sum(ledger@, p, w) <= i64::MAX;
            if all_ok {
                assert forall|p: u128, w: u128|
                    #![trigger ledger_sum(ledger@, p, w)]
                    scope_admits(product_id, warehouse_id, p, w) implies 0 <= ledger_sum(ledger@, p, w) <= i64::MAX by {
                    if listed(keys@, kn as int, p, w) {
                        let m = choose|m: int| 0 <= m < kn && #[trigger] keys@[m] == BalanceKey { product_id: p, warehouse_id: w };
                    } else {
                        assert forall|j: int| 0 <= j < s.len() implies !is_key(#[trigger] s[j], p, w) by {
                            if is_key(s[j], p, w) {
                                assert(listed(keys@, kn as int, s[j].product_id, s[j].warehouse_id));
                            }
                        }
                        lemma_no_entries(s, p, w);
                    }
                }
            } else {
                let m = choose|m: int| 0 <= m < kn && !(0 <= ledger_sum(s, #[trigger] keys@[m].product_id, keys@[m].warehouse_id) <= i64::MAX);
                assert(scope_admits(product_id, warehouse_id, keys@[m].product_id, keys@[m].warehouse_id));
                assert(!claim);
            }
        }
        all_ok
    }
}

/// Whether (p, w) lies in the scope of an optional product and warehouse.
pub fn scope_matches(product_id: Option<u128>, warehouse_id: Option<u128>, p: u128, w: u128) -> (r:
    bool)
    ensures
        r == scope_admits(product_id, warehouse_id, p, w),
{
    let p_ok = match product_id {
        Some(q) => p == q,
        None => true,
    };
    let w_ok = match warehouse_id {
        Some(v) => w == v,
        None => true,
    };
    p_ok && w_ok
}

} // verus!
