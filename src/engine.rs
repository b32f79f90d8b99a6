//! The movement engine: documents, their lifecycle, and the all-or-nothing
//! posting of their entries to the ledger and the projection.
use vstd::prelude::*;
use crate::ledger::{
    LedgerFilter, LedgerStore, batch_problem, draft_sum, history_page, last_entry_id, ledger_sum,
    ledger_wf, lemma_posted_entries, lemma_posted_len, lemma_posted_step, lemma_posted_sum,
    lemma_problem_prefix,
    lemma_sum_push, posted,
};
use crate::projection::{
    BalanceProjector, keys_unique, lemma_row_at_key, replayed, row_at, row_for, rows_agree,
    scope_admits, stock_admits,
};
use crate::types::{
    AdjustmentReason, EntryDraft, EntryHeader, LedgerEntry, LedgerError, StockBalance,
    ValidationError, copy_notes,
};
use crate::validate::{
    AdjustmentAmount, Movement, MovementLine, check_draft, movement_plan, plan_movement,
};

verus! {

/// Where a document stands. Only `Draft` can be executed or discarded, and
/// only `Executed` can be cancelled.
#[derive(Clone, Copy, Debug, PartialEq, Eq, Structural)]
pub enum DocumentStatus {
    Draft,
    Executed,
    CancelledAsDraft,
    CancelledAfterExecution,
}

/// A movement document as it was created.
#[derive(Clone, Debug)]
pub struct Document {
    pub id: u64,
    pub movement: Movement,
    /// The other party: the supplier of a receipt, the customer of a delivery.
    pub party: Option<String>,
    pub created_by: u128,
    pub notes: Option<String>,
}

/// The lifecycle of a document and, once executed, where its entries stand
/// in the ledger.
#[derive(Clone, Copy, Debug, PartialEq, Eq, Structural)]
pub struct DocumentState {
    pub status: DocumentStatus,
    /// Position of the document's first entry in the ledger.
    pub first_entry: u64,
    /// How many entries its execution appended.
    pub entry_count: u64,
    /// For a stock count: the balance that the count was reconciled against
    /// when the document was executed (0 otherwise).
    pub counted_balance: i64,
    /// Set once the document is deleted. Its ledger entries stay.
    pub deleted: bool,
}

/// What an executed movement hands back.
#[derive(Clone, Debug)]
pub struct MovementResult {
    pub document_id: u64,
    pub entries: Vec<LedgerEntry>,
}

/// The first reason a batch of drafts cannot be posted to `entries`.
pub open spec fn post_problem(entries: Seq<LedgerEntry>, ds: Seq<EntryDraft>) -> Option<
    LedgerError,
> {
    match batch_problem(entries, ds) {
        Some(e) => Some(e),
        None => if entries.len() + ds.len() >= u64::MAX {
            Some(LedgerError::CapacityExhausted)
        } else {
            None
        },
    }
}

/// The entries that cancelling asks for: each of `es` negated, in order.
pub open spec fn reversal_drafts(es: Seq<LedgerEntry>) -> Seq<EntryDraft> {
    es.map_values(
        |e: LedgerEntry|
            EntryDraft {
                product_id: e.product_id,
                warehouse_id: e.warehouse_id,
                quantity_change: (-e.quantity_change) as i64,
                reversal_of: Some(e.id),
            },
    )
}

/// The header of the entries of document `d` performed at `now`.
pub open spec fn document_header(d: Document, performed_by: u128, now: i64) -> EntryHeader {
    EntryHeader {
        reference_type: d.movement.kind(),
        reference_id: d.id,
        performed_by: performed_by,
        reason: d.movement.reason(),
        created_at: now,
    }
}

/// The ledger after a movement, or the error that rejects it.
pub open spec fn movement_outcome(
    entries: Seq<LedgerEntry>,
    m: Movement,
    h: EntryHeader,
    notes: Option<String>,
) -> Result<Seq<LedgerEntry>, LedgerError> {
    let (p, w) = m.counted_pair();
    match movement_plan(m, ledger_sum(entries, p, w)) {
        Err(e) => Err(e),
        Ok(ds) => match post_problem(entries, ds) {
            Some(e) => Err(e),
            None => Ok(posted(entries, h, notes, ds)),
        },
    }
}

/// The ledger after documents' entries are reversed, or the error.
pub open spec fn reversal_outcome(
    entries: Seq<LedgerEntry>,
    originals: Seq<LedgerEntry>,
    h: EntryHeader,
) -> Result<Seq<LedgerEntry>, LedgerError> {
    match post_problem(entries, reversal_drafts(originals)) {
        Some(e) => Err(e),
        None => Ok(posted(entries, h, None, reversal_drafts(originals))),
    }
}

/// The balance that movement `m` reconciles a count against in `entries`.
pub open spec fn counted_have(entries: Seq<LedgerEntry>, m: Movement) -> int {
    ledger_sum(entries, m.counted_pair().0, m.counted_pair().1)
}

/// Whether a document in this state has entries in the ledger.
pub open spec fn was_executed(st: DocumentState) -> bool {
    st.status == DocumentStatus::Executed || st.status == DocumentStatus::CancelledAfterExecution
}

/// The drafts that executing document `d` produced, given its state.
pub open spec fn document_drafts(d: Document, st: DocumentState) -> Seq<EntryDraft> {
    match movement_plan(d.movement, st.counted_balance as int) {
        Ok(ds) => ds,
        Err(_) => Seq::empty(),
    }
}

/// Whether entry `e` records what draft `d` asked for.
pub open spec fn entry_follows(e: LedgerEntry, d: EntryDraft) -> bool {
    e.product_id == d.product_id && e.warehouse_id == d.warehouse_id && e.quantity_change
        == d.quantity_change
}

/// Ledger, projection and documents, kept consistent with one another.
pub struct MovementEngine {
    ledger: LedgerStore,
    projector: BalanceProjector,
    documents: Vec<Document>,
    states: Vec<DocumentState>,
}

impl MovementEngine {
    /// The ledger's entries.
    pub closed spec fn entries(&self) -> Seq<LedgerEntry> {
        self.ledger@
    }

    /// The projected rows.
    pub closed spec fn balances(&self) -> Seq<StockBalance> {
        self.projector@
    }

    /// The documents, the one with id `i + 1` at position `i`.
    pub closed spec fn documents(&self) -> Seq<Document> {
        self.documents@
    }

    /// The state of each document, at the same position.
    pub closed spec fn states(&self) -> Seq<DocumentState> {
        self.states@
    }

    pub closed spec fn wf(&self) -> bool {
        &&& self.ledger.wf()
        &&& self.projector.wf()
        &&& self.projector.agrees_with(self.ledger@)
        &&& self.documents@.len() == self.states@.len()
        &&& forall|i: int|
            #![trigger self.documents@[i]]
            0 <= i < self.documents@.len() ==> self.documents@[i].id == i + 1
        &&& forall|i: int|
            #![trigger self.states@[i]]
            0 <= i < self.states@.len() ==> self.states@[i].first_entry
                + self.states@[i].entry_count <= self.ledger@.len()
        &&& forall|i: int, k: int|
            #![trigger self.states@[i], self.ledger@[k]]
            0 <= i < self.states@.len() && self.states@[i].first_entry <= k
                < self.states@[i].first_entry + self.states@[i].entry_count ==> {
                &&& self.ledger@[k].reference_id == i + 1
                &&& self.ledger@[k].reference_type == self.documents@[i].movement.kind()
                &&& entry_follows(
                    self.ledger@[k],
                    document_drafts(self.documents@[i], self.states@[i])[k
                        - self.states@[i].first_entry],
                )
            }
        &&& forall|i: int|
            #![trigger self.states@[i]]
            0 <= i < self.states@.len() ==> if was_executed(self.states@[i]) {
                &&& movement_plan(
                    self.documents@[i].movement,
                    self.states@[i].counted_balance as int,
                ) is Ok
                &&& document_drafts(self.documents@[i], self.states@[i]).len()
                    == self.states@[i].entry_count
            } else {
                self.states@[i].entry_count == 0
            }
    }

    /// What a well-formed engine guarantees: a valid ledger, and a projection
    /// that agrees with it.
    pub proof fn lemma_wf(&self)
        requires
            self.wf(),
        ensures
            ledger_wf(self.entries()),
            rows_agree(self.balances(), self.entries()),
            keys_unique(self.balances()),
            forall|i: int|
                #![trigger self.balances()[i]]
                0 <= i < self.balances().len() ==> self.balances()[i].quantity >= 0,
            self.documents().len() == self.states().len(),
            forall|i: int|
                #![trigger self.documents()[i]]
                0 <= i < self.documents().len() ==> self.documents()[i].id == i + 1,
            forall|i: int|
                #![trigger self.states()[i]]
                0 <= i < self.states().len() ==> self.states()[i].first_entry
                    + self.states()[i].entry_count <= self.entries().len(),
            forall|i: int, k: int|
                #![trigger self.states()[i], self.entries()[k]]
                0 <= i < self.states().len() && self.states()[i].first_entry <= k
                    < self.states()[i].first_entry + self.states()[i].entry_count ==> {
                    &&& self.entries()[k].reference_id == i + 1
                    &&& self.entries()[k].reference_type == self.documents()[i].movement.kind()
                    &&& entry_follows(
                        self.entries()[k],
                        document_drafts(self.documents()[i], self.states()[i])[k
                            - self.states()[i].first_entry],
                    )
                },
            forall|i: int|
                #![trigger self.states()[i]]
                0 <= i < self.states().len() ==> if was_executed(self.states()[i]) {
                    &&& movement_plan(
                        self.documents()[i].movement,
                        self.states()[i].counted_balance as int,
                    ) is Ok
                    &&& document_drafts(self.documents()[i], self.states()[i]).len()
                        == self.states()[i].entry_count
                } else {
                    self.states()[i].entry_count == 0
                },
    {
    }

    /// Whether a document with this id exists and is not deleted.
    pub open spec fn has_document(&self, id: u64) -> bool {
        1 <= id <= self.documents().len() && !self.states()[id - 1].deleted
    }

    pub open spec fn document(&self, id: u64) -> Document {
        self.documents()[id - 1]
    }

    pub open spec fn state(&self, id: u64) -> DocumentState {
        self.states()[id - 1]
    }

    /// The entries that the execution of document `id` appended: on a
    /// consistent engine, each names the document as its reference.
    pub open spec fn document_entries(&self, id: u64) -> Seq<LedgerEntry> {
        let st = self.state(id);
        self.entries().subrange(st.first_entry as int, st.first_entry + st.entry_count)
    }

    /// An engine with an empty ledger and no documents.
    pub fn new() -> (r: MovementEngine)
        ensures
            r.wf(),
            r.entries() == Seq::<LedgerEntry>::empty(),
            r.documents() == Seq::<Document>::empty(),
            r.states() == Seq::<DocumentState>::empty(),
            r.balances() == Seq::<StockBalance>::empty(),
    {
        let r = MovementEngine {
            ledger: LedgerStore::new(),
            projector: BalanceProjector::new(),
            documents: Vec::new(),
            states: Vec::new(),
        };
        proof {
            assert forall|p: u128, w: u128| #![trigger row_for(r.projector@, p, w)]
                {
                    &&& row_at(r.projector@, p, w).quantity == ledger_sum(r.ledger@, p, w)
                    &&& row_at(r.projector@, p, w).last_entry_id == last_entry_id(r.ledger@, p, w)
                    &&& !row_at(r.projector@, p, w).stale
                } by {}
        }
        r
    }

    /// Posts the drafts, in order, as one unit: either every entry is
    /// appended and every balance updated, or nothing changes.
    fn post_batch(&mut self, h: EntryHeader, notes: &Option<String>, ds: &Vec<EntryDraft>) -> (r:
        Result<Vec<LedgerEntry>, LedgerError>)
        requires
            old(self).wf(),
        ensures
            final(self).wf(),
            match post_problem(old(self).entries(), ds@) {
                Some(e) => r == Err::<Vec<LedgerEntry>, LedgerError>(e) && *final(self) == *old(
                    self,
                ),
                None => r is Ok && final(self).entries() == posted(
                    old(self).entries(),
                    h,
                    *notes,
                    ds@,
                ) && r->Ok_0@ == final(self).entries().skip(old(self).entries().len() as int)
                    && final(self).documents() == old(self).documents() && final(self).states()
                    == old(self).states(),
            },
    {
        let ghost e0 = self.ledger@;
        let n = ds.len();
        // Check every draft against the balance it will meet, before writing.
        let mut k: usize = 0;
        while k < n
            invariant
                self.wf(),
                self.ledger@ == e0,
                n == ds@.len(),
                0 <= k <= n,
                batch_problem(e0, ds@.take(k as int)) is None,
            decreases n - k,
        {
            let d = ds[k];
            let mut have = self.projector.current_balance(d.product_id, d.warehouse_id);
            let mut j: usize = 0;
            proof {
                assert(ds@.take(0) =~= Seq::<EntryDraft>::empty());
                assert(0 <= ledger_sum(e0, d.product_id, d.warehouse_id) <= i64::MAX);
            }
            while j < k
                invariant
                    self.wf(),
                    self.ledger@ == e0,
                    n == ds@.len(),
                    0 <= j <= k < n,
                    d == ds@[k as int],
                    batch_problem(e0, ds@.take(k as int)) is None,
                    have == ledger_sum(e0, d.product_id, d.warehouse_id) + draft_sum(
                        ds@.take(j as int),
                        d.product_id,
                        d.warehouse_id,
                    ),
                    0 <= have,
                decreases k - j,
            {
                let dj = ds[j];
                proof {
                    assert(ds@.take(j as int + 1).drop_last() =~= ds@.take(j as int));
                    assert(ds@.take(k as int).take(j as int + 1) =~= ds@.take(j as int + 1));
                    if batch_problem(e0, ds@.take(j as int + 1)) is Some {
                        lemma_problem_prefix(e0, ds@.take(k as int), j as int + 1);
                    }
                }
                if dj.product_id == d.product_id && dj.warehouse_id == d.warehouse_id {
                    have = have + dj.quantity_change;
                }
                j = j + 1;
            }
            let problem = check_draft(have, &d);
            proof {
                assert(ds@.take(k as int + 1).drop_last() =~= ds@.take(k as int));
            }
            match problem {
                Some(e) => {
                    proof {
                        lemma_problem_prefix(e0, ds@, k as int + 1);
                    }
                    return Err(e);
                },
                None => {},
            }
            k = k + 1;
        }
        proof {
            assert(ds@.take(n as int) =~= ds@);
        }
        let len = self.ledger.len();
        if n as u64 >= u64::MAX - len as u64 {
            return Err(LedgerError::CapacityExhausted);
        }
        // Write: every draft is now known to fit.

        let mut out: Vec<LedgerEntry> = Vec::new();
        let mut k: usize = 0;
        let ghost docs = self.documents@;
        let ghost sts = self.states@;
        while k < n
            invariant
                self.wf(),
                n == ds@.len(),
                0 <= k <= n,
                e0.len() + n < u64::MAX,
                batch_problem(e0, ds@) is None,
                self.ledger@ == posted(e0, h, *notes, ds@.take(k as int)),
                out@ == self.ledger@.skip(e0.len() as int),
                e0.len() <= self.ledger@.len(),
                self.documents@ == docs,
                self.states@ == sts,
                forall|i: int|
                    #![trigger sts[i]]
                    0 <= i < sts.len() ==> sts[i].first_entry + sts[i].entry_count <= e0.len(),
            decreases n - k,
        {
            let d = ds[k];
            let ghost cur = self.ledger@;
            let have = self.projector.current_balance(d.product_id, d.warehouse_id);
            proof {
                lemma_posted_sum(e0, h, *notes, ds@.take(k as int), d.product_id, d.warehouse_id);
                lemma_posted_len(e0, h, *notes, ds@.take(k as int));
                lemma_posted_step(e0, h, *notes, ds@, k as int);
                assert(ds@.take(k as int + 1).drop_last() =~= ds@.take(k as int));
                if batch_problem(e0, ds@.take(k as int + 1)) is Some {
                    lemma_problem_prefix(e0, ds@, k as int + 1);
                }
            }
            let e = self.ledger.append_at(h, notes, d, have);
            let ghost rows0 = self.projector@;
            let applied = self.projector.apply_entry(&e);
            proof {
                assert(applied is Ok);
                let rows1 = self.projector@;
                let next = cur.push(e);
                assert forall|p: u128, w: u128| #![trigger row_for(rows1, p, w)]
                    {
                        &&& row_at(rows1, p, w).quantity == ledger_sum(next, p, w)
                        &&& row_at(rows1, p, w).last_entry_id == last_entry_id(next, p, w)
                        &&& !row_at(rows1, p, w).stale
                    } by {
                    lemma_sum_push(cur, e, p, w);
                    // names the row, so that facts quantified over rows apply to it
                    assert(row_for(rows0, p, w) == row_for(rows0, p, w));
                }
                assert(self.projector.agrees_with(self.ledger@));
                assert(next.skip(e0.len() as int) =~= cur.skip(e0.len() as int).push(e));
            }
            out.push(e);
            k = k + 1;
        }
        proof {
            assert(ds@.take(n as int) =~= ds@);
        }
        Ok(out)
    }

    /// Records a new draft document; its id is one more than the number of
    /// documents before it.
    pub fn create_draft(
        &mut self,
        movement: Movement,
        party: Option<String>,
        created_by: u128,
        notes: Option<String>,
    ) -> (r: Result<u64, LedgerError>)
        requires
            old(self).wf(),
        ensures
            final(self).wf(),
            draft_created(*old(self), *final(self), movement, party, created_by, notes, r),
    {
        let n = self.documents.len() as u64;
        if n >= u64::MAX - 1 {
            return Err(LedgerError::CapacityExhausted);
        }
        let id = n + 1;
        self.documents.push(Document { id, movement, party, created_by, notes });
        self.states.push(
            DocumentState {
                        status: DocumentStatus::Draft,
                        first_entry: 0,
                        entry_count: 0,
                        counted_balance: 0,
                        deleted: false,
                    },
        );
        Ok(id)
    }

    /// Executes a draft: validates its movement against the balances it meets
    /// now, then posts its entries as one unit and marks it executed. On any
    /// error nothing changes and the document stays a draft.
    pub fn execute(&mut self, id: u64, performed_by: u128, now: i64) -> (r: Result<
        Vec<LedgerEntry>,
        LedgerError,
    >)
        requires
            old(self).wf(),
        ensures
            final(self).wf(),
            !old(self).has_document(id) ==> r == Err::<Vec<LedgerEntry>, LedgerError>(
                LedgerError::Validation(ValidationError::UnknownDocument),
            ) && *final(self) == *old(self),
            old(self).has_document(id) && old(self).state(id).status != DocumentStatus::Draft ==> r
                == Err::<Vec<LedgerEntry>, LedgerError>(
                LedgerError::Validation(ValidationError::NotDraft),
            ) && *final(self) == *old(self),
            old(self).has_document(id) && old(self).state(id).status == DocumentStatus::Draft ==> {
                let d = old(self).document(id);
                match movement_outcome(
                    old(self).entries(),
                    d.movement,
                    document_header(d, performed_by, now),
                    d.notes,
                ) {
                    Err(e) => r == Err::<Vec<LedgerEntry>, LedgerError>(e) && *final(self) == *old(
                        self,
                    ),
                    Ok(after) => {
                        &&& r is Ok
                        &&& final(self).entries() == after
                        &&& r->Ok_0@ == after.skip(old(self).entries().len() as int)
                        &&& final(self).documents() == old(self).documents()
                        &&& final(self).states() == old(self).states().update(
                            id - 1,
                            DocumentState {
                                status: DocumentStatus::Executed,
                                first_entry: old(self).entries().len() as u64,
                                entry_count: (after.len() - old(self).entries().len()) as u64,
                                counted_balance: counted_have(old(self).entries(), d.movement)
                                    as i64,
                                deleted: false,
                            },
                        )
                    },
                }
            },
    {
        if id == 0 || id > self.documents.len() as u64 || self.states[(id - 1) as usize].deleted {
            return Err(LedgerError::Validation(ValidationError::UnknownDocument));
        }
        let idx = (id - 1) as usize;
        match self.states[idx].status {
            DocumentStatus::Draft => {},
            _ => {
                return Err(LedgerError::Validation(ValidationError::NotDraft));
            },
        }
        let (cp, cw) = self.documents[idx].movement.counted_key();
        let have = self.projector.current_balance(cp, cw);
        let ds = plan_movement(&self.documents[idx].movement, have)?;
        let h = EntryHeader {
            reference_type: self.documents[idx].movement.reference_type(),
            reference_id: id,
            performed_by,
            reason: self.documents[idx].movement.adjustment_reason(),
            created_at: now,
        };
        let notes = copy_notes(&self.documents[idx].notes);
        let first = self.ledger.len() as u64;
        let ghost e0 = self.ledger@;
        let ghost s0 = self.states@;
        let out = self.post_batch(h, &notes, &ds)?;
        proof {
            lemma_posted_entries(e0, h, notes, ds@);
        }
        self.states.set(
            idx,
            DocumentState {
                status: DocumentStatus::Executed,
                first_entry: first,
                entry_count: ds.len() as u64,
                counted_balance: have,
                deleted: false,
            },
        );
        proof {
            let es = self.ledger@;
            assert(es == posted(e0, h, notes, ds@));
            assert forall|i: int, k: int|
                #![trigger self.states@[i], self.ledger@[k]]
                0 <= i < self.states@.len() && self.states@[i].first_entry <= k
                    < self.states@[i].first_entry + self.states@[i].entry_count implies {
                    &&& self.ledger@[k].reference_id == i + 1
                    &&& self.ledger@[k].reference_type == self.documents@[i].movement.kind()
                } by {
                if i != idx {
                    assert(self.states@[i] == s0[i]);
                    assert(s0[i].first_entry + s0[i].entry_count <= e0.len());
                    assert(es[k] == e0[k]);
                } else {
                    assert(es[k] == posted(e0, h, notes, ds@)[k]);
                    assert(document_drafts(self.documents@[i], self.states@[i]) == ds@);
                }
            }
        }
        Ok(out)
    }

    /// Cancels an executed document: appends, in order, one compensating
    /// entry per entry it produced, with the change negated, and marks it
    /// cancelled. Nothing is ever edited or removed. Cancelling a draft or a
    /// cancelled document is a validation error; a reversal that would take a
    /// balance below zero is refused. On any error nothing changes.
    pub fn cancel(&mut self, id: u64, performed_by: u128, now: i64) -> (r: Result<
        Vec<LedgerEntry>,
        LedgerError,
    >)
        requires
            old(self).wf(),
        ensures
            final(self).wf(),
            !old(self).has_document(id) ==> r == Err::<Vec<LedgerEntry>, LedgerError>(
                LedgerError::Validation(ValidationError::UnknownDocument),
            ) && *final(self) == *old(self),
            old(self).has_document(id) && old(self).state(id).status == DocumentStatus::Draft ==> r
                == Err::<Vec<LedgerEntry>, LedgerError>(
                LedgerError::Validation(ValidationError::NotExecuted),
            ) && *final(self) == *old(self),
            old(self).has_document(id) && (old(self).state(id).status
                == DocumentStatus::CancelledAsDraft || old(self).state(id).status
                == DocumentStatus::CancelledAfterExecution) ==> r == Err::<
                Vec<LedgerEntry>,
                LedgerError,
            >(LedgerError::Validation(ValidationError::AlreadyCancelled)) && *final(self) == *old(
                self,
            ),
            old(self).has_document(id) && old(self).state(id).status == DocumentStatus::Executed
                ==> match reversal_outcome(
                old(self).entries(),
                old(self).document_entries(id),
                document_header(old(self).document(id), performed_by, now),
            ) {
                Err(e) => r == Err::<Vec<LedgerEntry>, LedgerError>(e) && *final(self) == *old(
                    self,
                ),
                Ok(after) => {
                    &&& r is Ok
                    &&& final(self).entries() == after
                    &&& r->Ok_0@ == after.skip(old(self).entries().len() as int)
                    &&& final(self).documents() == old(self).documents()
                    &&& final(self).states() == old(self).states().update(
                        id - 1,
                        DocumentState {
                            status: DocumentStatus::CancelledAfterExecution,
                            ..old(self).state(id)
                        },
                    )
                },
            },
    {
        if id == 0 || id > self.documents.len() as u64 || self.states[(id - 1) as usize].deleted {
            return Err(LedgerError::Validation(ValidationError::UnknownDocument));
        }
        let idx = (id - 1) as usize;
        let st = self.states[idx];
        match st.status {
            DocumentStatus::Executed => {},
            DocumentStatus::Draft => {
                return Err(LedgerError::Validation(ValidationError::NotExecuted));
            },
            _ => {
                return Err(LedgerError::Validation(ValidationError::AlreadyCancelled));
            },
        }
        let ghost originals = self.ledger@.subrange(
            st.first_entry as int,
            st.first_entry + st.entry_count,
        );
        let n = self.ledger.len();
        proof {
            assert(self.states@[idx as int] == st);
            assert(st.first_entry + st.entry_count <= n);
        }
        let first = st.first_entry as usize;
        let count = st.entry_count as usize;
        let mut ds: Vec<EntryDraft> = Vec::new();
        let mut k: usize = 0;
        while k < count
            invariant
                self.wf(),
                0 <= k <= count,
                first + count <= self.ledger@.len(),
                n == self.ledger@.len(),
                originals == self.ledger@.subrange(first as int, first + count),
                ds@ == reversal_drafts(originals.take(k as int)),
            decreases count - k,
        {
            let e = self.ledger.entry(first + k);
            proof {
                assert(originals[k as int] == e);
                assert(reversal_drafts(originals.take(k as int + 1)) =~= reversal_drafts(
                    originals.take(k as int),
                ).push(
                    EntryDraft {
                        product_id: e.product_id,
                        warehouse_id: e.warehouse_id,
                        quantity_change: (-e.quantity_change) as i64,
                        reversal_of: Some(e.id),
                    },
                ));
            }
            ds.push(
                EntryDraft {
                    product_id: e.product_id,
                    warehouse_id: e.warehouse_id,
                    quantity_change: -e.quantity_change,
                    reversal_of: Some(e.id),
                },
            );
            k = k + 1;
        }
        proof {
            assert(originals.take(count as int) =~= originals);
        }
        let h = EntryHeader {
            reference_type: self.documents[idx].movement.reference_type(),
            reference_id: id,
            performed_by,
            reason: self.documents[idx].movement.adjustment_reason(),
            created_at: now,
        };
        let notes: Option<String> = None;
        let ghost e0 = self.ledger@;
        let ghost s0 = self.states@;
        let out = self.post_batch(h, &notes, &ds)?;
        proof {
            lemma_posted_entries(e0, h, notes, ds@);
        }
        self.states.set(idx, DocumentState { status: DocumentStatus::CancelledAfterExecution, ..st });
        proof {
            let es = self.ledger@;
            assert forall|i: int, k: int|
                #![trigger self.states@[i], self.ledger@[k]]
                0 <= i < self.states@.len() && self.states@[i].first_entry <= k
                    < self.states@[i].first_entry + self.states@[i].entry_count implies {
                    &&& self.ledger@[k].reference_id == i + 1
                    &&& self.ledger@[k].reference_type == self.documents@[i].movement.kind()
                } by {
                assert(s0[i].first_entry == self.states@[i].first_entry);
                assert(s0[i].entry_count == self.states@[i].entry_count);
                assert(s0[i].first_entry + s0[i].entry_count <= e0.len());
                assert(es[k] == e0[k]);
            }
        }
        Ok(out)
    }

    /// Drops a draft without any effect on the ledger.
    pub fn discard_draft(&mut self, id: u64) -> (r: Result<(), LedgerError>)
        requires
            old(self).wf(),
        ensures
            final(self).wf(),
            !old(self).has_document(id) ==> r == Err::<(), LedgerError>(
                LedgerError::Validation(ValidationError::UnknownDocument),
            ) && *final(self) == *old(self),
            old(self).has_document(id) && old(self).state(id).status != DocumentStatus::Draft ==> r
                == Err::<(), LedgerError>(LedgerError::Validation(ValidationError::NotDraft))
                && *final(self) == *old(self),
            old(self).has_document(id) && old(self).state(id).status == DocumentStatus::Draft ==> r
                == Ok::<(), LedgerError>(()) && final(self).entries() == old(self).entries()
                && final(self).documents() == old(self).documents() && final(self).states()
                == old(self).states().update(
                id - 1,
                DocumentState { status: DocumentStatus::CancelledAsDraft, ..old(self).state(id) },
            ),
    {
        if id == 0 || id > self.documents.len() as u64 || self.states[(id - 1) as usize].deleted {
            return Err(LedgerError::Validation(ValidationError::UnknownDocument));
        }
        let idx = (id - 1) as usize;
        let st = self.states[idx];
        match st.status {
            DocumentStatus::Draft => {},
            _ => {
                return Err(LedgerError::Validation(ValidationError::NotDraft));
            },
        }
        self.states.set(idx, DocumentState { status: DocumentStatus::CancelledAsDraft, ..st });
        Ok(())
    }

    /// Deletes document `id`. The ledger keeps every entry the document
    /// produced, and balances do not change: only the document is gone.
    pub fn delete_document(&mut self, id: u64) -> (r: Result<(), LedgerError>)
        requires
            old(self).wf(),
        ensures
            final(self).wf(),
            !old(self).has_document(id) ==> r == Err::<(), LedgerError>(
                LedgerError::Validation(ValidationError::UnknownDocument),
            ) && *final(self) == *old(self),
            old(self).has_document(id) ==> {
                &&& r == Ok::<(), LedgerError>(())
                &&& final(self).entries() == old(self).entries()
                &&& final(self).balances() == old(self).balances()
                &&& final(self).documents() == old(self).documents()
                &&& final(self).states() == old(self).states().update(
                    id - 1,
                    DocumentState { deleted: true, ..old(self).state(id) },
                )
                &&& !final(self).has_document(id)
            },
    {
        if id == 0 || id > self.documents.len() as u64 || self.states[(id - 1) as usize].deleted {
            return Err(LedgerError::Validation(ValidationError::UnknownDocument));
        }
        let idx = (id - 1) as usize;
        let st = self.states[idx];
        self.states.set(idx, DocumentState { deleted: true, ..st });
        Ok(())
    }

    /// Puts `d` in the place of draft `idx` and hands back what stood there.
    pub(crate) fn replace_draft(&mut self, idx: usize, d: Document) -> (prev: Document)
        requires
            old(self).wf(),
            idx < old(self).documents().len(),
            old(self).states()[idx as int].status == DocumentStatus::Draft,
            d.id == idx + 1,
        ensures
            final(self).wf(),
            prev == old(self).documents()[idx as int],
            final(self).documents() == old(self).documents().update(idx as int, d),
            final(self).states() == old(self).states(),
            final(self).entries() == old(self).entries(),
            final(self).balances() == old(self).balances(),
    {
        let ghost before = self.documents@;
        let prev = self.documents.remove(idx);
        self.documents.insert(idx, d);
        proof {
            assert(self.documents@ =~= before.update(idx as int, d));
            assert forall|i: int|
                #![trigger self.states@[i]]
                0 <= i < self.states@.len() implies (if was_executed(self.states@[i]) {
                &&& movement_plan(self.documents@[i].movement, self.states@[i].counted_balance as int) is Ok
                &&& document_drafts(self.documents@[i], self.states@[i]).len() == self.states@[i].entry_count
            } else {
                self.states@[i].entry_count == 0
            }) by {
                if i != idx {
                    assert(self.documents@[i] == before[i]);
                }
            }
            assert forall|i: int, k: int|
                #![trigger self.states@[i], self.ledger@[k]]
                0 <= i < self.states@.len() && self.states@[i].first_entry <= k
                    < self.states@[i].first_entry + self.states@[i].entry_count implies {
                    &&& self.ledger@[k].reference_id == i + 1
                    &&& self.ledger@[k].reference_type == self.documents@[i].movement.kind()
                    &&& entry_follows(
                        self.ledger@[k],
                        document_drafts(self.documents@[i], self.states@[i])[k - self.states@[i].first_entry],
                    )
                } by {
                if i != idx {
                    assert(self.documents@[i] == before[i]);
                }
            }
        }
        prev
    }

    /// How many documents were ever recorded (deleted ones included).
    pub fn document_count(&self) -> (r: usize)
        ensures
            r == self.documents().len(),
    {
        self.documents.len()
    }

    /// Document `id`, if there is one.
    pub fn get_document(&self, id: u64) -> (r: Option<&Document>)
        requires
            self.wf(),
        ensures
            r is Some <==> self.has_document(id),
            r matches Some(d) ==> *d == self.document(id),
    {
        if id == 0 || id > self.documents.len() as u64 || self.states[(id - 1) as usize].deleted {
            None
        } else {
            Some(&self.documents[(id - 1) as usize])
        }
    }

    /// The status of document `id`, if there is one.
    pub fn document_status(&self, id: u64) -> (r: Option<DocumentStatus>)
        requires
            self.wf(),
        ensures
            r == (if self.has_document(id) {
                Some(self.state(id).status)
            } else {
                None::<DocumentStatus>
            }),
    {
        if id == 0 || id > self.states.len() as u64 || self.states[(id - 1) as usize].deleted {
            None
        } else {
            Some(self.states[(id - 1) as usize].status)
        }
    }

    /// The current quantity of (p, w): the sum of its ledger changes.
    pub fn current_balance(&self, p: u128, w: u128) -> (r: i64)
        requires
            self.wf(),
        ensures
            r == ledger_sum(self.entries(), p, w),
    {
        self.projector.current_balance(p, w)
    }

    /// The projected rows, optionally for one product and/or one warehouse.
    pub fn current_stock(&self, product_id: Option<u128>, warehouse_id: Option<u128>) -> (r: Vec<
        StockBalance,
    >)
        requires
            self.wf(),
        ensures
            r@ == self.balances().filter(
                |b: StockBalance| stock_admits(product_id, warehouse_id, b),
            ),
    {
        self.projector.stock(product_id, warehouse_id)
    }

    /// One page of the ledger's history, ascending by id.
    pub fn ledger_history(&self, f: &LedgerFilter, after_id: u64, limit: usize) -> (r: Vec<
        LedgerEntry,
    >)
        requires
            self.wf(),
        ensures
            r@ == history_page(self.entries(), *f, after_id, limit as nat),
    {
        self.ledger.history(f, after_id, limit)
    }

    /// The number of ledger entries.
    pub fn ledger_len(&self) -> (r: usize)
        requires
            self.wf(),
        ensures
            r == self.entries().len(),
    {
        self.ledger.len()
    }

    /// Replays the ledger for (p, w) and overwrites its projected row. On a
    /// consistent engine the replay gives back the current balance.
    pub fn rebuild_balance(&mut self, p: u128, w: u128) -> (r: Result<i64, LedgerError>)
        requires
            old(self).wf(),
        ensures
            final(self).wf(),
            r == Ok::<i64, LedgerError>(ledger_sum(old(self).entries(), p, w) as i64),
            final(self).entries() == old(self).entries(),
            final(self).documents() == old(self).documents(),
            final(self).states() == old(self).states(),
            forall|q: u128, v: u128|
                #![trigger row_for(final(self).balances(), q, v)]
                row_at(final(self).balances(), q, v) == row_at(old(self).balances(), q, v),
    {
        let ghost rows0 = self.projector@;
        let r = self.projector.rebuild_key(&self.ledger, p, w);
        proof {
            assert(0 <= ledger_sum(self.ledger@, p, w) <= i64::MAX);
            let rows1 = self.projector@;
            assert forall|q: u128, v: u128| #![trigger row_for(rows1, q, v)]
                {
                    &&& row_at(rows1, q, v).quantity == ledger_sum(self.ledger@, q, v)
                    &&& row_at(rows1, q, v).last_entry_id == last_entry_id(self.ledger@, q, v)
                    &&& !row_at(rows1, q, v).stale
                } by {
                // names the row, so that facts quantified over rows apply to it
                assert(row_for(rows0, q, v) == row_for(rows0, q, v));
            }
            assert forall|q: u128, v: u128| #![trigger row_for(rows1, q, v)]
                row_at(rows1, q, v) == row_at(rows0, q, v) by {
                // names the row, so that facts quantified over rows apply to it
                assert(row_for(rows0, q, v) == row_for(rows0, q, v));
                if q == p && v == w {
                    lemma_row_at_key(rows0, p, w);
                }
            }
        }
        r
    }

    /// Replays the ledger for every pair in scope and overwrites their rows,
    /// then returns the rows in scope. On a consistent engine the replay
    /// reproduces every row exactly.
    pub fn rebuild(&mut self, product_id: Option<u128>, warehouse_id: Option<u128>) -> (r: Vec<
        StockBalance,
    >)
        requires
            old(self).wf(),
        ensures
            final(self).wf(),
            final(self).entries() == old(self).entries(),
            final(self).documents() == old(self).documents(),
            final(self).states() == old(self).states(),
            forall|p: u128, w: u128|
                #![trigger row_for(final(self).balances(), p, w)]
                row_at(final(self).balances(), p, w) == row_at(old(self).balances(), p, w),
            r@ == final(self).balances().filter(
                |b: StockBalance| stock_admits(product_id, warehouse_id, b),
            ),
    {
        let ghost rows0 = self.projector@;
        let _all_consistent = self.projector.rebuild(&self.ledger, product_id, warehouse_id);
        proof {
            let rows1 = self.projector@;
            let s = self.ledger@;
            assert forall|p: u128, w: u128| #![trigger row_for(rows1, p, w)]
                row_at(rows1, p, w) == row_at(rows0, p, w) by {
                // names the row, so that facts quantified over rows apply to it
                assert(row_for(rows0, p, w) == row_for(rows0, p, w));
                if scope_admits(product_id, warehouse_id, p, w) {
                    assert(0 <= ledger_sum(s, p, w) <= i64::MAX);
                    lemma_row_at_key(rows0, p, w);
                    assert(row_at(rows1, p, w) == replayed(rows0, s, p, w));
                }
            }
            assert forall|p: u128, w: u128| #![trigger row_for(rows1, p, w)]
                {
                    &&& row_at(rows1, p, w).quantity == ledger_sum(s, p, w)
                    &&& row_at(rows1, p, w).last_entry_id == last_entry_id(s, p, w)
                    &&& !row_at(rows1, p, w).stale
                } by {
                assert(row_at(rows1, p, w) == row_at(rows0, p, w));
                // names the row, so that facts quantified over rows apply to it
                assert(row_for(rows0, p, w) == row_for(rows0, p, w));
            }
        }
        self.projector.stock(product_id, warehouse_id)
    }

    /// Records `m` as a new document and executes it at once; see
    /// [`recorded_and_executed`] for the outcome.
    pub fn execute_movement(
        &mut self,
        m: Movement,
        party: Option<String>,
        performed_by: u128,
        notes: Option<String>,
        now: i64,
    ) -> (r: Result<MovementResult, LedgerError>)
        requires
            old(self).wf(),
        ensures
            final(self).wf(),
            recorded_and_executed(*old(self), *final(self), m, party, performed_by, notes, now, r),
    {
        let ghost before = *self;
        let ghost m0 = m;
        let ghost party0 = party;
        let ghost notes0 = notes;
        let id = self.create_draft(m, party, performed_by, notes)?;
        let ghost mid = *self;
        let res = self.execute(id, performed_by, now);
        proof {
            let d = Document {
                id,
                movement: m0,
                party: party0,
                created_by: performed_by,
                notes: notes0,
            };
            assert(mid.documents()[id - 1] == d);
            assert(mid.states()[id - 1].status == DocumentStatus::Draft);
            match movement_outcome(before.entries(), m0, document_header(d, performed_by, now), notes0) {
                Ok(after) => {
                    assert(self.states() =~= before.states().push(
                        DocumentState {
                            status: DocumentStatus::Executed,
                            first_entry: before.entries().len() as u64,
                            entry_count: (after.len() - before.entries().len()) as u64,
                            counted_balance: counted_have(before.entries(), m0) as i64,
                            deleted: false,
                        },
                    ));
                },
                Err(e) => {},
            }
        }
        match res {
            Ok(entries) => Ok(MovementResult { document_id: id, entries }),
            Err(e) => Err(e),
        }
    }

    /// Receives the lines from supplier `supplier_name` into warehouse
    /// `warehouse_id`.
    pub fn execute_receipt(
        &mut self,
        warehouse_id: u128,
        supplier_name: Option<String>,
        lines: Vec<MovementLine>,
        performed_by: u128,
        now: i64,
    ) -> (r: Result<MovementResult, LedgerError>)
        requires
            old(self).wf(),
        ensures
            final(self).wf(),
            recorded_and_executed(
                *old(self),
                *final(self),
                Movement::Receipt { warehouse_id, lines },
                supplier_name,
                performed_by,
                None,
                now,
                r,
            ),
    {
        self.execute_movement(
            Movement::Receipt { warehouse_id, lines },
            supplier_name,
            performed_by,
            None,
            now,
        )
    }

    /// Delivers the lines out of warehouse `warehouse_id` to customer
    /// `customer_name`.
    pub fn execute_delivery(
        &mut self,
        warehouse_id: u128,
        customer_name: Option<String>,
        lines: Vec<MovementLine>,
        performed_by: u128,
        now: i64,
    ) -> (r: Result<MovementResult, LedgerError>)
        requires
            old(self).wf(),
        ensures
            final(self).wf(),
            recorded_and_executed(
                *old(self),
                *final(self),
                Movement::Delivery { warehouse_id, lines },
                customer_name,
                performed_by,
                None,
                now,
                r,
            ),
    {
        self.execute_movement(
            Movement::Delivery { warehouse_id, lines },
            customer_name,
            performed_by,
            None,
            now,
        )
    }

    /// Moves the lines from one warehouse to another.
    pub fn execute_transfer(
        &mut self,
        from_warehouse_id: u128,
        to_warehouse_id: u128,
        lines: Vec<MovementLine>,
        performed_by: u128,
        now: i64,
    ) -> (r: Result<MovementResult, LedgerError>)
        requires
            old(self).wf(),
        ensures
            final(self).wf(),
            recorded_and_executed(
                *old(self),
                *final(self),
                Movement::Transfer { from_warehouse_id, to_warehouse_id, lines },
                None,
                performed_by,
                None,
                now,
                r,
            ),
    {
        self.execute_movement(
            Movement::Transfer { from_warehouse_id, to_warehouse_id, lines },
            None,
            performed_by,
            None,
            now,
        )
    }

    /// Adjusts one balance by a change, or reconciles it to a counted quantity.
    pub fn execute_adjustment(
        &mut self,
        warehouse_id: u128,
        product_id: u128,
        reason: AdjustmentReason,
        amount: AdjustmentAmount,
        notes: Option<String>,
        performed_by: u128,
        now: i64,
    ) -> (r: Result<MovementResult, LedgerError>)
        requires
            old(self).wf(),
        ensures
            final(self).wf(),
            recorded_and_executed(
                *old(self),
                *final(self),
                Movement::Adjustment { warehouse_id, product_id, reason, amount },
                None,
                performed_by,
                notes,
                now,
                r,
            ),
    {
        self.execute_movement(
            Movement::Adjustment { warehouse_id, product_id, reason, amount },
            None,
            performed_by,
            notes,
            now,
        )
    }
}

/// How `after` and `r` follow from `before` when a draft of `movement` is
/// recorded: it gets the next id, and neither ledger nor balances change.
/// When no id is left, nothing changes.
pub open spec fn draft_created(
    before: MovementEngine,
    after: MovementEngine,
    movement: Movement,
    party: Option<String>,
    created_by: u128,
    notes: Option<String>,
    r: Result<u64, LedgerError>,
) -> bool {
    if before.documents().len() + 1 >= u64::MAX {
        r == Err::<u64, LedgerError>(LedgerError::CapacityExhausted) && after == before
    } else {
        let id = (before.documents().len() + 1) as u64;
        &&& r == Ok::<u64, LedgerError>(id)
        &&& after.documents() == before.documents().push(
            Document { id, movement, party, created_by, notes },
        )
        &&& after.states() == before.states().push(
            DocumentState {
                status: DocumentStatus::Draft,
                first_entry: 0,
                entry_count: 0,
                counted_balance: 0,
                deleted: false,
            },
        )
        &&& after.entries() == before.entries()
        &&& after.balances() == before.balances()
    }
}

/// How `after` and `r` follow from `before` when movement `m` is recorded as
/// a new document and executed at once. When no document id is left, nothing
/// changes. Otherwise the document is recorded; if the movement is rejected
/// it stays a draft and the ledger is unchanged, else its entries are posted
/// and it is marked executed.
pub open spec fn recorded_and_executed(
    before: MovementEngine,
    after: MovementEngine,
    m: Movement,
    party: Option<String>,
    performed_by: u128,
    notes: Option<String>,
    now: i64,
    r: Result<MovementResult, LedgerError>,
) -> bool {
    let id = (before.documents().len() + 1) as u64;
    let d = Document { id, movement: m, party, created_by: performed_by, notes };
    let n0 = before.entries().len();
    if before.documents().len() + 1 >= u64::MAX {
        r == Err::<MovementResult, LedgerError>(LedgerError::CapacityExhausted) && after == before
    } else {
        &&& after.documents() == before.documents().push(d)
        &&& match movement_outcome(before.entries(), m, document_header(d, performed_by, now), notes) {
            Err(e) => {
                &&& r == Err::<MovementResult, LedgerError>(e)
                &&& after.entries() == before.entries()
                &&& after.balances() == before.balances()
                &&& after.states() == before.states().push(
                    DocumentState {
                        status: DocumentStatus::Draft,
                        first_entry: 0,
                        entry_count: 0,
                        counted_balance: 0,
                        deleted: false,
                    },
                )
            },
            Ok(ledger) => {
                &&& r is Ok
                &&& r->Ok_0.document_id == id
                &&& r->Ok_0.entries@ == ledger.skip(n0 as int)
                &&& after.entries() == ledger
                &&& after.states() == before.states().push(
                    DocumentState {
                        status: DocumentStatus::Executed,
                        first_entry: n0 as u64,
                        entry_count: (ledger.len() - n0) as u64,
                        counted_balance: counted_have(before.entries(), m) as i64,
                        deleted: false,
                    },
                )
            },
        }
    }
}

} // verus!
