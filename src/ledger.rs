//! The append-only ledger and the arithmetic that defines balances from it.
use vstd::prelude::*;
use crate::types::{
    EntryDraft, EntryHeader, LedgerEntry, LedgerError, ReferenceType, ValidationError,
    copy_notes,
};

verus! {

/// Whether `e` records a change of the pair (p, w).
pub open spec fn is_key(e: LedgerEntry, p: u128, w: u128) -> bool {
    e.product_id == p && e.warehouse_id == w
}

/// The balance of (p, w) that the entries define: the sum of their changes.
pub open spec fn ledger_sum(entries: Seq<LedgerEntry>, p: u128, w: u128) -> int
    decreases entries.len(),
{
    if entries.len() == 0 {
        0
    } else {
        ledger_sum(entries.drop_last(), p, w) + if is_key(entries.last(), p, w) {
            entries.last().quantity_change as int
        } else {
            0
        }
    }
}

/// Id of the last entry recorded for (p, w), or 0 if there is none.
pub open spec fn last_entry_id(entries: Seq<LedgerEntry>, p: u128, w: u128) -> int
    decreases entries.len(),
{
    if entries.len() == 0 {
        0
    } else if is_key(entries.last(), p, w) {
        entries.last().id as int
    } else {
        last_entry_id(entries.drop_last(), p, w)
    }
}

/// The quantity of product `p` over all warehouses.
pub open spec fn product_total(entries: Seq<LedgerEntry>, p: u128) -> int
    decreases entries.len(),
{
    if entries.len() == 0 {
        0
    } else {
        product_total(entries.drop_last(), p) + if entries.last().product_id == p {
            entries.last().quantity_change as int
        } else {
            0
        }
    }
}

/// The sum of the changes that drafts ask of (p, w).
pub open spec fn draft_sum(ds: Seq<EntryDraft>, p: u128, w: u128) -> int
    decreases ds.len(),
{
    if ds.len() == 0 {
        0
    } else {
        draft_sum(ds.drop_last(), p, w) + if ds.last().product_id == p && ds.last().warehouse_id
            == w {
            ds.last().quantity_change as int
        } else {
            0
        }
    }
}

/// Why one draft cannot be applied to a balance of `have`, if it cannot.
pub open spec fn draft_problem(have: int, d: EntryDraft) -> Option<LedgerError> {
    if d.quantity_change == i64::MIN {
        Some(LedgerError::Validation(ValidationError::QuantityOutOfRange))
    } else if have + d.quantity_change < 0 {
        Some(
            LedgerError::InsufficientStock {
                have: have as i64,
                requested: (-(d.quantity_change as int)) as i64,
            },
        )
    } else if have + d.quantity_change > i64::MAX {
        Some(LedgerError::Validation(ValidationError::QuantityOutOfRange))
    } else {
        None
    }
}

/// The first problem met when the drafts are applied in order to the
/// balances of `entries`, each draft seeing the changes of those before it.
pub open spec fn batch_problem(entries: Seq<LedgerEntry>, ds: Seq<EntryDraft>) -> Option<
    LedgerError,
>
    decreases ds.len(),
{
    if ds.len() == 0 {
        None
    } else {
        let prev = ds.drop_last();
        let d = ds.last();
        match batch_problem(entries, prev) {
            Some(e) => Some(e),
            None => draft_problem(
                ledger_sum(entries, d.product_id, d.warehouse_id) + draft_sum(
                    prev,
                    d.product_id,
                    d.warehouse_id,
                ),
                d,
            ),
        }
    }
}

/// The entry that the ledger `prev` numbers for a draft.
pub open spec fn new_entry(
    prev: Seq<LedgerEntry>,
    h: EntryHeader,
    notes: Option<String>,
    d: EntryDraft,
) -> LedgerEntry {
    LedgerEntry {
        id: (prev.len() + 1) as u64,
        product_id: d.product_id,
        warehouse_id: d.warehouse_id,
        reference_type: h.reference_type,
        reference_id: h.reference_id,
        quantity_change: d.quantity_change,
        resulting_balance: (ledger_sum(prev, d.product_id, d.warehouse_id)
            + d.quantity_change) as i64,
        performed_by: h.performed_by,
        reason: h.reason,
        reversal_of: d.reversal_of,
        notes: notes,
        created_at: h.created_at,
    }
}

/// The ledger after the drafts are appended one after another.
pub open spec fn posted(
    entries: Seq<LedgerEntry>,
    h: EntryHeader,
    notes: Option<String>,
    ds: Seq<EntryDraft>,
) -> Seq<LedgerEntry>
    decreases ds.len(),
{
    if ds.len() == 0 {
        entries
    } else {
        let prev = posted(entries, h, notes, ds.drop_last());
        prev.push(new_entry(prev, h, notes, ds.last()))
    }
}

/// A well-formed ledger: entries are numbered 1, 2, ... in order, each
/// records the balance its pair had right after it, and no balance is ever
/// negative or out of range.
pub open spec fn ledger_wf(s: Seq<LedgerEntry>) -> bool {
    &&& forall|i: int|
        #![trigger s[i]]
        0 <= i < s.len() ==> {
            &&& s[i].id == i + 1
            &&& s[i].quantity_change != i64::MIN
            &&& s[i].resulting_balance >= 0
            &&& s[i].resulting_balance == ledger_sum(
                s.take(i + 1),
                s[i].product_id,
                s[i].warehouse_id,
            )
        }
    &&& forall|p: u128, w: u128|
        #![trigger ledger_sum(s, p, w)]
        0 <= ledger_sum(s, p, w) <= i64::MAX
}

pub proof fn lemma_sum_push(s: Seq<LedgerEntry>, e: LedgerEntry, p: u128, w: u128)
    ensures
        ledger_sum(s.push(e), p, w) == ledger_sum(s, p, w) + if is_key(e, p, w) {
            e.quantity_change as int
        } else {
            0
        },
        last_entry_id(s.push(e), p, w) == if is_key(e, p, w) {
            e.id as int
        } else {
            last_entry_id(s, p, w)
        },
        product_total(s.push(e), p) == product_total(s, p) + if e.product_id == p {
            e.quantity_change as int
        } else {
            0
        },
{
    assert(s.push(e).drop_last() =~= s);
}

pub proof fn lemma_draft_sum_push(ds: Seq<EntryDraft>, d: EntryDraft, p: u128, w: u128)
    ensures
        draft_sum(ds.push(d), p, w) == draft_sum(ds, p, w) + if d.product_id == p
            && d.warehouse_id == w {
            d.quantity_change as int
        } else {
            0
        },
{
    assert(ds.push(d).drop_last() =~= ds);
}

pub proof fn lemma_posted_len(
    entries: Seq<LedgerEntry>,
    h: EntryHeader,
    notes: Option<String>,
    ds: Seq<EntryDraft>,
)
    ensures
        posted(entries, h, notes, ds).len() == entries.len() + ds.len(),
    decreases ds.len(),
{
    if ds.len() > 0 {
        lemma_posted_len(entries, h, notes, ds.drop_last());
    }
}

/// Appending drafts adds exactly their changes to every balance.
pub proof fn lemma_posted_sum(
    entries: Seq<LedgerEntry>,
    h: EntryHeader,
    notes: Option<String>,
    ds: Seq<EntryDraft>,
    p: u128,
    w: u128,
)
    ensures
        ledger_sum(posted(entries, h, notes, ds), p, w) == ledger_sum(entries, p, w) + draft_sum(
            ds,
            p,
            w,
        ),
    decreases ds.len(),
{
    if ds.len() > 0 {
        let prev = posted(entries, h, notes, ds.drop_last());
        lemma_posted_sum(entries, h, notes, ds.drop_last(), p, w);
        lemma_sum_push(prev, new_entry(prev, h, notes, ds.last()), p, w);
    }
}

/// The drafts that follow the first `k` are appended after the ledger that
/// those `k` produce.
pub proof fn lemma_posted_step(
    entries: Seq<LedgerEntry>,
    h: EntryHeader,
    notes: Option<String>,
    ds: Seq<EntryDraft>,
    k: int,
)
    requires
        0 <= k < ds.len(),
    ensures
        posted(entries, h, notes, ds.take(k + 1)) == posted(entries, h, notes, ds.take(k)).push(
            new_entry(posted(entries, h, notes, ds.take(k)), h, notes, ds[k]),
        ),
{
    assert(ds.take(k + 1).drop_last() =~= ds.take(k));
}

/// Posting keeps the entries there were and tags each new one with the
/// header's reference.
pub proof fn lemma_posted_entries(
    entries: Seq<LedgerEntry>,
    h: EntryHeader,
    notes: Option<String>,
    ds: Seq<EntryDraft>,
)
    ensures
        posted(entries, h, notes, ds).len() == entries.len() + ds.len(),
        forall|k: int|
            #![trigger posted(entries, h, notes, ds)[k]]
            0 <= k < entries.len() ==> posted(entries, h, notes, ds)[k] == entries[k],
        forall|k: int|
            #![trigger posted(entries, h, notes, ds)[k]]
            entries.len() <= k < entries.len() + ds.len() ==> {
                &&& posted(entries, h, notes, ds)[k].reference_id == h.reference_id
                &&& posted(entries, h, notes, ds)[k].reference_type == h.reference_type
                &&& posted(entries, h, notes, ds)[k].product_id == ds[k - entries.len()].product_id
                &&& posted(entries, h, notes, ds)[k].warehouse_id == ds[k - entries.len()].warehouse_id
                &&& posted(entries, h, notes, ds)[k].quantity_change == ds[k
                    - entries.len()].quantity_change
            },
    decreases ds.len(),
{
    lemma_posted_len(entries, h, notes, ds);
    if ds.len() > 0 {
        lemma_posted_entries(entries, h, notes, ds.drop_last());
        let prev = posted(entries, h, notes, ds.drop_last());
        assert forall|k: int| #![trigger posted(entries, h, notes, ds)[k]] 0 <= k < entries.len()
            implies posted(entries, h, notes, ds)[k] == entries[k] by {
            assert(posted(entries, h, notes, ds)[k] == prev[k]);
        }
        assert forall|k: int| #![trigger posted(entries, h, notes, ds)[k]] entries.len() <= k
            < entries.len() + ds.len() implies {
            &&& posted(entries, h, notes, ds)[k].reference_id == h.reference_id
            &&& posted(entries, h, notes, ds)[k].reference_type == h.reference_type
            &&& posted(entries, h, notes, ds)[k].product_id == ds[k - entries.len()].product_id
            &&& posted(entries, h, notes, ds)[k].warehouse_id == ds[k - entries.len()].warehouse_id
            &&& posted(entries, h, notes, ds)[k].quantity_change == ds[k
                - entries.len()].quantity_change
        } by {
            if k < prev.len() {
                assert(posted(entries, h, notes, ds)[k] == prev[k]);
                assert(ds.drop_last()[k - entries.len()] == ds[k - entries.len()]);
            }
        }
    }
}

/// A problem met within a prefix of the drafts is the problem of the whole.
pub proof fn lemma_problem_prefix(entries: Seq<LedgerEntry>, ds: Seq<EntryDraft>, k: int)
    requires
        0 <= k <= ds.len(),
        batch_problem(entries, ds.take(k)) is Some,
    ensures
        batch_problem(entries, ds) == batch_problem(entries, ds.take(k)),
    decreases ds.len(),
{
    if k == ds.len() {
        assert(ds.take(k) =~= ds);
    } else {
        assert(ds.drop_last().take(k) =~= ds.take(k));
        lemma_problem_prefix(entries, ds.drop_last(), k);
    }
}

/// Selects ledger entries for a history query.
#[derive(Clone, Copy, Debug, PartialEq, Eq, Structural)]
pub struct LedgerFilter {
    pub product_id: Option<u128>,
    pub warehouse_id: Option<u128>,
    pub reference_type: Option<ReferenceType>,
    /// Earliest `created_at` admitted, inclusive.
    pub from_time: Option<i64>,
    /// Latest `created_at` admitted, inclusive.
    pub to_time: Option<i64>,
}

impl LedgerFilter {
    /// A filter that admits every entry.
    pub fn all() -> (r: LedgerFilter)
        ensures
            forall|e: LedgerEntry| r.admits(e),
    {
        LedgerFilter {
            product_id: None,
            warehouse_id: None,
            reference_type: None,
            from_time: None,
            to_time: None,
        }
    }

    pub open spec fn admits(self, e: LedgerEntry) -> bool {
        &&& (self.product_id matches Some(p) ==> e.product_id == p)
        &&& (self.warehouse_id matches Some(w) ==> e.warehouse_id == w)
        &&& (self.reference_type matches Some(t) ==> e.reference_type == t)
        &&& (self.from_time matches Some(t) ==> t <= e.created_at)
        &&& (self.to_time matches Some(t) ==> e.created_at <= t)
    }

    /// Whether the filter admits the entry.
    pub fn matches(&self, e: &LedgerEntry) -> (r: bool)
        ensures
            r == self.admits(*e),
    {
        let p_ok = match self.product_id {
            Some(p) => e.product_id == p,
            None => true,
        };
        let w_ok = match self.warehouse_id {
            Some(w) => e.warehouse_id == w,
            None => true,
        };
        let t_ok = match self.reference_type {
            Some(t) => e.reference_type == t,
            None => true,
        };
        let from_ok = match self.from_time {
            Some(t) => t <= e.created_at,
            None => true,
        };
        let to_ok = match self.to_time {
            Some(t) => e.created_at <= t,
            None => true,
        };
        p_ok && w_ok && t_ok && from_ok && to_ok
    }
}

/// The page of history that a query returns: in ledger order, the entries
/// after the cursor `after_id` that the filter admits, at most `limit` of them.
pub open spec fn history_page(
    s: Seq<LedgerEntry>,
    f: LedgerFilter,
    after_id: u64,
    limit: nat,
) -> Seq<LedgerEntry> {
    let sel = s.filter(|e: LedgerEntry| f.admits(e) && e.id > after_id);
    if sel.len() <= limit {
        sel
    } else {
        sel.take(limit as int)
    }
}

/// The ledger: entries are appended, numbered, and never changed.
pub struct LedgerStore {
    entries: Vec<LedgerEntry>,
}

impl View for LedgerStore {
    type V = Seq<LedgerEntry>;

    closed spec fn view(&self) -> Seq<LedgerEntry> {
        self.entries@
    }
}

impl LedgerStore {
    pub open spec fn wf(&self) -> bool {
        ledger_wf(self@)
    }

    /// An empty ledger.
    pub fn new() -> (r: LedgerStore)
        ensures
            r@ == Seq::<LedgerEntry>::empty(),
            r.wf(),
    {
        LedgerStore { entries: Vec::new() }
    }

    /// The number of entries.
    pub fn len(&self) -> (r: usize)
        ensures
            r == self@.len(),
    {
        self.entries.len()
    }

    /// A copy of the entry at position `i` (its id is `i + 1`).
    pub fn entry(&self, i: usize) -> (r: LedgerEntry)
        requires
            i < self@.len(),
        ensures
            r == self@[i as int],
    {
        self.entries[i].duplicate()
    }

    /// The sum of the changes recorded for (p, w) and the id of the last
    /// entry for it (0 if none), by replaying the ledger in id order.
    pub fn replay(&self, p: u128, w: u128) -> (r: (i128, u64))
        ensures
            r.0 == ledger_sum(self@, p, w),
            r.1 == last_entry_id(self@, p, w),
    {
        let n = self.entries.len();
        let mut acc: i128 = 0;
        let mut last: u64 = 0;
        let mut i: usize = 0;
        while i < n
            invariant
                n == self@.len(),
                0 <= i <= n,
                acc == ledger_sum(self@.take(i as int), p, w),
                last == last_entry_id(self@.take(i as int), p, w),
                -(i as int) * 0x8000_0000_0000_0000 <= acc <= (i as int) * 0x8000_0000_0000_0000,
            decreases n - i,
        {
            let e = &self.entries[i];
            proof {
                assert(self@.take(i as int + 1).drop_last() =~= self@.take(i as int));
                assert((i as int + 1) * 0x8000_0000_0000_0000 <= 0x1_0000_0000_0000_0000
                    * 0x8000_0000_0000_0000) by (nonlinear_arith)
                    requires
                        i as int + 1 <= 0x1_0000_0000_0000_0000,
                ;
            }
            if e.product_id == p && e.warehouse_id == w {
                acc = acc + e.quantity_change as i128;
                last = e.id;
            }
            i = i + 1;
        }
        proof {
            assert(self@.take(n as int) =~= self@);
        }
        (acc, last)
    }

    /// Appends the entry for `d`, numbering it and recording the balance its
    /// pair will have. Refused, with nothing written, when that balance would
    /// be negative or out of range, or when no id is left.
    pub fn append(&mut self, h: EntryHeader, notes: &Option<String>, d: EntryDraft) -> (r: Result<
        LedgerEntry,
        LedgerError,
    >)
        requires
            old(self).wf(),
        ensures
            final(self).wf(),
            match draft_problem(ledger_sum(old(self)@, d.product_id, d.warehouse_id), d) {
                Some(e) => r == Err::<LedgerEntry, LedgerError>(e) && final(self)@ == old(self)@,
                None => if old(self)@.len() + 1 >= u64::MAX {
                    r == Err::<LedgerEntry, LedgerError>(LedgerError::CapacityExhausted)
                        && final(self)@ == old(self)@
                } else {
                    r == Ok::<LedgerEntry, LedgerError>(new_entry(old(self)@, h, *notes, d))
                        && final(self)@ == old(self)@.push(new_entry(old(self)@, h, *notes, d))
                },
            },
    {
        let (sum, _) = self.replay(d.product_id, d.warehouse_id);
        proof {
            assert(0 <= ledger_sum(self@, d.product_id, d.warehouse_id) <= i64::MAX);
        }
        let have = sum as i64;
        if let Some(e) = crate::validate::check_draft(have, &d) {
            return Err(e);
        }
        if self.entries.len() as u64 >= u64::MAX - 1 {
            return Err(LedgerError::CapacityExhausted);
        }
        Ok(self.append_at(h, notes, d, have))
    }

    /// Appends the entry for `d`, given `have`, the current balance of its pair.
    pub(crate) fn append_at(
        &mut self,
        h: EntryHeader,
        notes: &Option<String>,
        d: EntryDraft,
        have: i64,
    ) -> (r: LedgerEntry)
        requires
            old(self).wf(),
            old(self)@.len() < u64::MAX,
            have == ledger_sum(old(self)@, d.product_id, d.warehouse_id),
            draft_problem(have as int, d) is None,
        ensures
            final(self).wf(),
            r == new_entry(old(self)@, h, *notes, d),
            final(self)@ == old(self)@.push(r),
    {
        let ghost s = self@;
        let id = (self.entries.len() as u64) + 1;
        let e = LedgerEntry {
            id,
            product_id: d.product_id,
            warehouse_id: d.warehouse_id,
            reference_type: h.reference_type,
            reference_id: h.reference_id,
            quantity_change: d.quantity_change,
            resulting_balance: have + d.quantity_change,
            performed_by: h.performed_by,
            reason: h.reason,
            reversal_of: d.reversal_of,
            notes: copy_notes(notes),
            created_at: h.created_at,
        };
        let r = e.duplicate();
        self.entries.push(e);
        proof {
            let t = s.push(r);
            assert(t == self@);
            assert forall|i: int| #![trigger t[i]] 0 <= i < t.len() implies {
                &&& t[i].id == i + 1
                &&& t[i].quantity_change != i64::MIN
                &&& t[i].resulting_balance >= 0
                &&& t[i].resulting_balance == ledger_sum(
                    t.take(i + 1),
                    t[i].product_id,
                    t[i].warehouse_id,
                )
            } by {
                if i < s.len() {
                    assert(t.take(i + 1) =~= s.take(i + 1));
                    assert(t[i] == s[i]);
                } else {
                    assert(t.take(i + 1) =~= t);
                    lemma_sum_push(s, r, r.product_id, r.warehouse_id);
                }
            }
            assert forall|p: u128, w: u128| #![trigger ledger_sum(t, p, w)]
                0 <= ledger_sum(t, p, w) <= i64::MAX by {
                lemma_sum_push(s, r, p, w);
                assert(0 <= ledger_sum(s, p, w) <= i64::MAX);
            }
        }
        r
    }

    /// One page of history: see [`history_page`].
    pub fn history(&self, f: &LedgerFilter, after_id: u64, limit: usize) -> (r: Vec<LedgerEntry>)
        ensures
            r@ == history_page(self@, *f, after_id, limit as nat),
    {
        let ghost pred = |e: LedgerEntry| f.admits(e) && e.id > after_id;
        let mut out: Vec<LedgerEntry> = Vec::new();
        let mut i: usize = 0;
        while i < self.entries.len()
            invariant
                0 <= i <= self@.len(),
                pred == (|e: LedgerEntry| f.admits(e) && e.id > after_id),
                out@.len() <= limit,
                out@ == (if self@.take(i as int).filter(pred).len() <= limit {
                    self@.take(i as int).filter(pred)
                } else {
                    self@.take(i as int).filter(pred).take(limit as int)
                }),
            decreases self@.len() - i,
        {
            let ghost before = self@.take(i as int).filter(pred);
            proof {
                assert(self@.take(i as int + 1) =~= self@.take(i as int).push(self@[i as int]));
                self@.take(i as int).lemma_filter_push(self@[i as int], pred);
            }
            let e = &self.entries[i];
            if f.matches(e) && e.id > after_id {
                if out.len() < limit {
                    out.push(e.duplicate());
                } else {
                    proof {
                        assert(before.push(self@[i as int]).take(limit as int) =~= out@);
                    }
                }
            }
            i = i + 1;
        }
        proof {
            assert(self@.take(self@.len() as int) =~= self@);
        }
        out
    }
}

} // verus!
