//! Properties that hold across calls: each is a proof over the spec
//! functions that the engine's own contracts use.
use vstd::prelude::*;
use crate::engine::{
    DocumentStatus, MovementEngine, document_drafts, entry_follows, movement_outcome,
    post_problem, reversal_drafts, reversal_outcome,
};
use crate::ledger::{
    batch_problem, draft_problem, draft_sum, last_entry_id, ledger_sum, ledger_wf, lemma_posted_len,
    lemma_posted_sum, lemma_sum_push, new_entry, posted, product_total,
};
use crate::projection::{lemma_row_present, row_at, row_for};
use crate::types::{EntryDraft, EntryHeader, LedgerEntry, LedgerError};
use crate::validate::{
    Movement, MovementLine, all_positive, line_drafts, movement_plan, simple_draft,
    transfer_drafts,
};

verus! {

proof fn lemma_one_draft(
    entries: Seq<LedgerEntry>,
    h: EntryHeader,
    notes: Option<String>,
    d: EntryDraft,
)
    ensures
        batch_problem(entries, seq![d]) == draft_problem(
            ledger_sum(entries, d.product_id, d.warehouse_id),
            d,
        ),
        posted(entries, h, notes, seq![d]) == entries.push(new_entry(entries, h, notes, d)),
{
    assert(seq![d].drop_last() =~= Seq::<EntryDraft>::empty());
    assert(seq![d].last() == d);
    assert(batch_problem(entries, Seq::<EntryDraft>::empty()) is None);
    assert(draft_sum(Seq::<EntryDraft>::empty(), d.product_id, d.warehouse_id) == 0);
    assert(posted(entries, h, notes, Seq::<EntryDraft>::empty()) == entries);
}

proof fn lemma_two_drafts(
    entries: Seq<LedgerEntry>,
    h: EntryHeader,
    notes: Option<String>,
    a: EntryDraft,
    b: EntryDraft,
)
    requires
        !(a.product_id == b.product_id && a.warehouse_id == b.warehouse_id),
    ensures
        batch_problem(entries, seq![a, b]) == match draft_problem(
            ledger_sum(entries, a.product_id, a.warehouse_id),
            a,
        ) {
            Some(e) => Some(e),
            None => draft_problem(ledger_sum(entries, b.product_id, b.warehouse_id), b),
        },
        posted(entries, h, notes, seq![a, b]) == entries.push(new_entry(entries, h, notes, a)).push(
            new_entry(entries.push(new_entry(entries, h, notes, a)), h, notes, b),
        ),
{
    assert(seq![a, b].drop_last() =~= seq![a]);
    lemma_one_draft(entries, h, notes, a);
    assert(seq![a].drop_last() =~= Seq::<EntryDraft>::empty());
    assert(draft_sum(Seq::<EntryDraft>::empty(), b.product_id, b.warehouse_id) == 0);
    assert(draft_sum(seq![a], b.product_id, b.warehouse_id) == 0);
    assert(seq![a, b].last() == b);
    lemma_sum_push(entries, new_entry(entries, h, notes, a), b.product_id, b.warehouse_id);
}

proof fn lemma_one_line(lines: Seq<MovementLine>, w: u128, inbound: bool)
    requires
        lines.len() == 1,
    ensures
        line_drafts(lines, w, inbound) == seq![
            simple_draft(
                lines[0].product_id,
                w,
                if inbound {
                    lines[0].quantity
                } else {
                    (-lines[0].quantity) as i64
                },
            ),
        ],
{
    assert(lines.drop_last() =~= Seq::<MovementLine>::empty());
    assert(line_drafts(lines.drop_last(), w, inbound) == Seq::<EntryDraft>::empty());
    assert(lines.last() == lines[0]);
    assert(Seq::<EntryDraft>::empty().push(
        simple_draft(
            lines[0].product_id,
            w,
            if inbound {
                lines[0].quantity
            } else {
                (-lines[0].quantity) as i64
            },
        ),
    ) =~= seq![
        simple_draft(
            lines[0].product_id,
            w,
            if inbound {
                lines[0].quantity
            } else {
                (-lines[0].quantity) as i64
            },
        ),
    ]);
}

proof fn lemma_one_transfer_line(lines: Seq<MovementLine>, from: u128, to: u128)
    requires
        lines.len() == 1,
    ensures
        transfer_drafts(lines, from, to) == seq![
            simple_draft(lines[0].product_id, from, (-lines[0].quantity) as i64),
            simple_draft(lines[0].product_id, to, lines[0].quantity),
        ],
{
    assert(lines.drop_last() =~= Seq::<MovementLine>::empty());
    assert(transfer_drafts(lines.drop_last(), from, to) == Seq::<EntryDraft>::empty());
    assert(lines.last() == lines[0]);
    assert(Seq::<EntryDraft>::empty().push(
        simple_draft(lines[0].product_id, from, (-lines[0].quantity) as i64),
    ).push(simple_draft(lines[0].product_id, to, lines[0].quantity)) =~= seq![
        simple_draft(lines[0].product_id, from, (-lines[0].quantity) as i64),
        simple_draft(lines[0].product_id, to, lines[0].quantity),
    ]);
}

proof fn lemma_last_entry_balance(s: Seq<LedgerEntry>, p: u128, w: u128)
    requires
        forall|i: int|
            #![trigger s[i]]
            0 <= i < s.len() ==> s[i].id == i + 1 && s[i].resulting_balance == ledger_sum(
                s.take(i + 1),
                s[i].product_id,
                s[i].warehouse_id,
            ),
    ensures
        last_entry_id(s, p, w) == 0 ==> ledger_sum(s, p, w) == 0,
        last_entry_id(s, p, w) != 0 ==> 1 <= last_entry_id(s, p, w) <= s.len() && s[last_entry_id(
            s,
            p,
            w,
        ) - 1].resulting_balance == ledger_sum(s, p, w),
    decreases s.len(),
{
    if s.len() > 0 {
        let t = s.drop_last();
        assert forall|i: int| #![trigger t[i]] 0 <= i < t.len() implies t[i].id == i + 1
            && t[i].resulting_balance == ledger_sum(
            t.take(i + 1),
            t[i].product_id,
            t[i].warehouse_id,
        ) by {
            assert(t.take(i + 1) =~= s.take(i + 1));
            assert(t[i] == s[i]);
        }
        lemma_last_entry_balance(t, p, w);
        let l = s.last();
        assert(l == s[s.len() - 1]);
        assert(s.take(s.len() as int) =~= s);
        if !(l.product_id == p && l.warehouse_id == w) && last_entry_id(t, p, w) != 0 {
            assert(s[last_entry_id(t, p, w) - 1] == t[last_entry_id(t, p, w) - 1]);
        }
    }
}

/// Projection and replay agree. On a consistent engine (which every
/// operation keeps consistent), the projected quantity of every pair is the
/// sum of all changes recorded for it (what a rebuild replays), is the
/// resulting balance of its most recent entry, and is never negative.
pub proof fn law_projection_is_replay(engine: &MovementEngine, p: u128, w: u128)
    requires
        engine.wf(),
    ensures
        row_at(engine.balances(), p, w).quantity == ledger_sum(engine.entries(), p, w),
        !row_at(engine.balances(), p, w).stale,
        0 <= ledger_sum(engine.entries(), p, w) <= i64::MAX,
        last_entry_id(engine.entries(), p, w) == 0 ==> ledger_sum(engine.entries(), p, w) == 0,
        last_entry_id(engine.entries(), p, w) != 0 ==> engine.entries()[last_entry_id(
            engine.entries(),
            p,
            w,
        ) - 1].resulting_balance == ledger_sum(engine.entries(), p, w),
{
    engine.lemma_wf();
    let s = engine.entries();
    assert(row_at(engine.balances(), p, w).quantity == ledger_sum(s, p, w));
    // names the row, so that facts quantified over rows apply to it
    assert(row_for(engine.balances(), p, w) == row_for(engine.balances(), p, w));
    assert(0 <= ledger_sum(s, p, w) <= i64::MAX);
    lemma_last_entry_balance(s, p, w);
}

/// Every row that the stock listing shows is the sum of its pair's ledger
/// changes, is not stale, and no two rows share a pair.
pub proof fn law_listed_rows_are_ledger_sums(engine: &MovementEngine)
    requires
        engine.wf(),
    ensures
        forall|i: int|
            #![trigger engine.balances()[i]]
            0 <= i < engine.balances().len() ==> {
                &&& engine.balances()[i].quantity == ledger_sum(
                    engine.entries(),
                    engine.balances()[i].product_id,
                    engine.balances()[i].warehouse_id,
                )
                &&& engine.balances()[i].quantity >= 0
                &&& !engine.balances()[i].stale
            },
        forall|i: int, j: int|
            0 <= i < j < engine.balances().len() ==> !(engine.balances()[i].product_id
                == engine.balances()[j].product_id && engine.balances()[i].warehouse_id
                == engine.balances()[j].warehouse_id),
{
    engine.lemma_wf();
    let rows = engine.balances();
    assert forall|i: int| #![trigger rows[i]] 0 <= i < rows.len() implies {
        &&& rows[i].quantity == ledger_sum(engine.entries(), rows[i].product_id, rows[i].warehouse_id)
        &&& rows[i].quantity >= 0
        &&& !rows[i].stale
    } by {
        lemma_row_present(rows, i);
        assert(row_for(rows, rows[i].product_id, rows[i].warehouse_id) == Some(rows[i]));
    }
}

/// A delivery of more than is on hand is refused with `InsufficientStock`,
/// naming what is on hand and what was requested.
pub proof fn law_delivery_overdraft_refused(
    entries: Seq<LedgerEntry>,
    warehouse_id: u128,
    lines: Vec<MovementLine>,
    h: EntryHeader,
    notes: Option<String>,
)
    requires
        ledger_wf(entries),
        lines@.len() == 1,
        lines@[0].quantity > 0,
        ledger_sum(entries, lines@[0].product_id, warehouse_id) < lines@[0].quantity,
    ensures
        movement_outcome(entries, Movement::Delivery { warehouse_id, lines }, h, notes) == Err::<
            Seq<LedgerEntry>,
            LedgerError,
        >(
            LedgerError::InsufficientStock {
                have: ledger_sum(entries, lines@[0].product_id, warehouse_id) as i64,
                requested: lines@[0].quantity,
            },
        ),
{
    let l = lines@[0];
    lemma_one_line(lines@, warehouse_id, false);
    let d = simple_draft(l.product_id, warehouse_id, (-l.quantity) as i64);
    lemma_one_draft(entries, h, notes, d);
    assert(0 <= ledger_sum(entries, l.product_id, warehouse_id));
}

/// A transfer of more than the source holds is refused with
/// `InsufficientStock`; the destination side is never reached.
pub proof fn law_transfer_overdraft_refused(
    entries: Seq<LedgerEntry>,
    from_warehouse_id: u128,
    to_warehouse_id: u128,
    lines: Vec<MovementLine>,
    h: EntryHeader,
    notes: Option<String>,
)
    requires
        ledger_wf(entries),
        from_warehouse_id != to_warehouse_id,
        lines@.len() == 1,
        lines@[0].quantity > 0,
        ledger_sum(entries, lines@[0].product_id, from_warehouse_id) < lines@[0].quantity,
    ensures
        movement_outcome(
            entries,
            Movement::Transfer { from_warehouse_id, to_warehouse_id, lines },
            h,
            notes,
        ) == Err::<Seq<LedgerEntry>, LedgerError>(
            LedgerError::InsufficientStock {
                have: ledger_sum(entries, lines@[0].product_id, from_warehouse_id) as i64,
                requested: lines@[0].quantity,
            },
        ),
{
    let l = lines@[0];
    lemma_one_transfer_line(lines@, from_warehouse_id, to_warehouse_id);
    let a = simple_draft(l.product_id, from_warehouse_id, (-l.quantity) as i64);
    let b = simple_draft(l.product_id, to_warehouse_id, l.quantity);
    lemma_two_drafts(entries, h, notes, a, b);
    assert(0 <= ledger_sum(entries, l.product_id, from_warehouse_id));
}

/// A negative adjustment larger than what is on hand is refused with
/// `InsufficientStock`.
pub proof fn law_adjustment_overdraft_refused(
    entries: Seq<LedgerEntry>,
    warehouse_id: u128,
    product_id: u128,
    reason: crate::types::AdjustmentReason,
    change: i64,
    h: EntryHeader,
    notes: Option<String>,
)
    requires
        ledger_wf(entries),
        change != i64::MIN,
        ledger_sum(entries, product_id, warehouse_id) + change < 0,
    ensures
        movement_outcome(
            entries,
            Movement::Adjustment {
                warehouse_id,
                product_id,
                reason,
                amount: crate::validate::AdjustmentAmount::Change(change),
            },
            h,
            notes,
        ) == Err::<Seq<LedgerEntry>, LedgerError>(
            LedgerError::InsufficientStock {
                have: ledger_sum(entries, product_id, warehouse_id) as i64,
                requested: (-change) as i64,
            },
        ),
{
    lemma_one_draft(entries, h, notes, simple_draft(product_id, warehouse_id, change));
    assert(0 <= ledger_sum(entries, product_id, warehouse_id));
}

/// A successful transfer of quantity Q from A to B appends exactly two
/// entries, -Q at A and then +Q at B, and leaves the product's total over all
/// warehouses unchanged.
pub proof fn law_transfer_conserves(
    entries: Seq<LedgerEntry>,
    from_warehouse_id: u128,
    to_warehouse_id: u128,
    lines: Vec<MovementLine>,
    h: EntryHeader,
    notes: Option<String>,
)
    requires
        lines@.len() == 1,
    ensures
        movement_outcome(
            entries,
            Movement::Transfer { from_warehouse_id, to_warehouse_id, lines },
            h,
            notes,
        ) matches Ok(after) ==> {
            let n = entries.len() as int;
            let l = lines@[0];
            &&& after.len() == n + 2
            &&& after.take(n) == entries
            &&& after[n].product_id == l.product_id && after[n].warehouse_id == from_warehouse_id
                && after[n].quantity_change == -l.quantity
            &&& after[n + 1].product_id == l.product_id && after[n + 1].warehouse_id
                == to_warehouse_id && after[n + 1].quantity_change == l.quantity
            &&& forall|p: u128|
                #![trigger product_total(after, p)]
                product_total(after, p) == product_total(entries, p)
        },
{
    if from_warehouse_id != to_warehouse_id && lines@[0].quantity > 0 {
        let l = lines@[0];
        lemma_one_transfer_line(lines@, from_warehouse_id, to_warehouse_id);
        let a = simple_draft(l.product_id, from_warehouse_id, (-l.quantity) as i64);
        let b = simple_draft(l.product_id, to_warehouse_id, l.quantity);
        lemma_two_drafts(entries, h, notes, a, b);
        let ea = new_entry(entries, h, notes, a);
        let eb = new_entry(entries.push(ea), h, notes, b);
        let after = entries.push(ea).push(eb);
        assert(after.take(entries.len() as int) =~= entries);
        assert forall|p: u128| #![trigger product_total(after, p)] product_total(after, p)
            == product_total(entries, p) by {
            lemma_sum_push(entries, ea, p, 0);
            lemma_sum_push(entries.push(ea), eb, p, 0);
        }
    }
}

/// The change that drafts make to product `p` over all warehouses.
pub open spec fn drafts_product_total(ds: Seq<EntryDraft>, p: u128) -> int
    decreases ds.len(),
{
    if ds.len() == 0 {
        0
    } else {
        drafts_product_total(ds.drop_last(), p) + if ds.last().product_id == p {
            ds.last().quantity_change as int
        } else {
            0
        }
    }
}

proof fn lemma_posted_product_total(
    entries: Seq<LedgerEntry>,
    h: EntryHeader,
    notes: Option<String>,
    ds: Seq<EntryDraft>,
    p: u128,
)
    ensures
        product_total(posted(entries, h, notes, ds), p) == product_total(entries, p)
            + drafts_product_total(ds, p),
    decreases ds.len(),
{
    if ds.len() > 0 {
        let prev = posted(entries, h, notes, ds.drop_last());
        lemma_posted_product_total(entries, h, notes, ds.drop_last(), p);
        lemma_sum_push(prev, new_entry(prev, h, notes, ds.last()), p, 0);
    }
}

proof fn lemma_transfer_drafts_balance(lines: Seq<MovementLine>, from: u128, to: u128, p: u128)
    requires
        all_positive(lines),
    ensures
        drafts_product_total(transfer_drafts(lines, from, to), p) == 0,
        transfer_drafts(lines, from, to).len() == 2 * lines.len(),
    decreases lines.len(),
{
    if lines.len() > 0 {
        let t = lines.drop_last();
        assert(all_positive(t));
        lemma_transfer_drafts_balance(t, from, to, p);
        let l = lines.last();
        let a = simple_draft(l.product_id, from, (-l.quantity) as i64);
        let b = simple_draft(l.product_id, to, l.quantity);
        let base = transfer_drafts(t, from, to);
        assert(base.push(a).push(b).drop_last() =~= base.push(a));
        assert(base.push(a).drop_last() =~= base);
        assert(l.quantity > 0);
        assert(transfer_drafts(lines, from, to) == base.push(a).push(b));
        assert(drafts_product_total(base.push(a).push(b), p) == drafts_product_total(base.push(a), p)
            + if b.product_id == p { b.quantity_change as int } else { 0 });
        assert(drafts_product_total(base.push(a), p) == drafts_product_total(base, p)
            + if a.product_id == p { a.quantity_change as int } else { 0 });
    }
}

/// A successful transfer, whatever its lines, appends two entries per line
/// and leaves every product's total over all warehouses unchanged.
pub proof fn law_transfer_conserves_totals(
    entries: Seq<LedgerEntry>,
    from_warehouse_id: u128,
    to_warehouse_id: u128,
    lines: Vec<MovementLine>,
    h: EntryHeader,
    notes: Option<String>,
)
    ensures
        movement_outcome(
            entries,
            Movement::Transfer { from_warehouse_id, to_warehouse_id, lines },
            h,
            notes,
        ) matches Ok(after) ==> {
            &&& after.len() == entries.len() + 2 * lines@.len()
            &&& forall|p: u128|
                #![trigger product_total(after, p)]
                product_total(after, p) == product_total(entries, p)
        },
{
    if from_warehouse_id != to_warehouse_id && lines@.len() > 0 && all_positive(lines@) {
        let ds = transfer_drafts(lines@, from_warehouse_id, to_warehouse_id);
        let after = posted(entries, h, notes, ds);
        lemma_posted_len(entries, h, notes, ds);
        lemma_transfer_drafts_balance(lines@, from_warehouse_id, to_warehouse_id, 0);
        assert forall|p: u128| #![trigger product_total(after, p)] product_total(after, p)
            == product_total(entries, p) by {
            lemma_posted_product_total(entries, h, notes, ds, p);
            lemma_transfer_drafts_balance(lines@, from_warehouse_id, to_warehouse_id, p);
        }
    }
}

/// Cancelling a receipt of quantity Q right after it was executed appends
/// one reversal entry of -Q and brings the balance back to what it was
/// before the receipt.
pub proof fn law_cancel_receipt_restores(
    entries: Seq<LedgerEntry>,
    warehouse_id: u128,
    lines: Vec<MovementLine>,
    h: EntryHeader,
    h2: EntryHeader,
)
    requires
        ledger_wf(entries),
        entries.len() + 2 < u64::MAX,
        lines@.len() == 1,
    ensures
        movement_outcome(entries, Movement::Receipt { warehouse_id, lines }, h, None) matches Ok(
            after,
        ) ==> {
            let n = entries.len() as int;
            let l = lines@[0];
            &&& after.len() == n + 1
            &&& after[n].quantity_change == l.quantity
            &&& reversal_outcome(after, after.subrange(n, n + 1), h2) matches Ok(undone) && {
                &&& undone.len() == n + 2
                &&& undone.take(n + 1) == after
                &&& undone[n + 1].quantity_change == -l.quantity
                &&& undone[n + 1].reversal_of == Some(after[n].id)
                &&& ledger_sum(undone, l.product_id, warehouse_id) == ledger_sum(
                    entries,
                    l.product_id,
                    warehouse_id,
                )
            }
        },
{
    let l = lines@[0];
    if l.quantity > 0 {
        lemma_one_line(lines@, warehouse_id, true);
        let d = simple_draft(l.product_id, warehouse_id, l.quantity);
        lemma_one_draft(entries, h, None, d);
        assert(0 <= ledger_sum(entries, l.product_id, warehouse_id) <= i64::MAX);
        if movement_outcome(entries, Movement::Receipt { warehouse_id, lines }, h, None) is Ok {
            let e1 = new_entry(entries, h, None, d);
            let after = entries.push(e1);
            let n = entries.len() as int;
            assert(after.subrange(n, n + 1) =~= seq![e1]);
            let r = EntryDraft {
                product_id: l.product_id,
                warehouse_id,
                quantity_change: (-l.quantity) as i64,
                reversal_of: Some(e1.id),
            };
            assert(reversal_drafts(seq![e1]) =~= seq![r]);
            lemma_sum_push(entries, e1, l.product_id, warehouse_id);
            lemma_one_draft(after, h2, None, r);
            let e2 = new_entry(after, h2, None, r);
            lemma_sum_push(after, e2, l.product_id, warehouse_id);
            assert(after.push(e2).take(n + 1) =~= after);
        }
    }
}

proof fn lemma_reversal_sum(os: Seq<LedgerEntry>, p: u128, w: u128)
    requires
        forall|i: int| 0 <= i < os.len() ==> (#[trigger] os[i]).quantity_change != i64::MIN,
    ensures
        draft_sum(reversal_drafts(os), p, w) == -ledger_sum(os, p, w),
        reversal_drafts(os).len() == os.len(),
    decreases os.len(),
{
    if os.len() > 0 {
        let t = os.drop_last();
        assert forall|i: int| 0 <= i < t.len() implies (#[trigger] t[i]).quantity_change != i64::MIN by {
            assert(t[i] == os[i]);
        }
        lemma_reversal_sum(t, p, w);
        assert(reversal_drafts(os).drop_last() =~= reversal_drafts(t));
        assert(os.last() == os[os.len() - 1]);
    }
}

/// Cancelling an executed document changes every balance by exactly the
/// negation of what its entries recorded, and appends one entry per entry.
pub proof fn law_cancel_reverses_exactly(
    entries: Seq<LedgerEntry>,
    originals: Seq<LedgerEntry>,
    h: EntryHeader,
)
    requires
        forall|i: int| 0 <= i < originals.len() ==> (#[trigger] originals[i]).quantity_change != i64::MIN,
    ensures
        reversal_outcome(entries, originals, h) matches Ok(after) ==> {
            &&& after.len() == entries.len() + originals.len()
            &&& forall|p: u128, w: u128|
                #![trigger ledger_sum(after, p, w)]
                ledger_sum(after, p, w) == ledger_sum(entries, p, w) - ledger_sum(originals, p, w)
        },
{
    let ds = reversal_drafts(originals);
    lemma_posted_len(entries, h, None, ds);
    assert forall|p: u128, w: u128| #![trigger ledger_sum(posted(entries, h, None, ds), p, w)]
        ledger_sum(posted(entries, h, None, ds), p, w) == ledger_sum(entries, p, w) - ledger_sum(originals, p, w) by {
        lemma_posted_sum(entries, h, None, ds, p, w);
        lemma_reversal_sum(originals, p, w);
    }
    lemma_reversal_sum(originals, 0, 0);
}

/// What a run of one-line deliveries asks for in all.
pub open spec fn delivered(deliveries: Seq<Vec<MovementLine>>) -> int
    decreases deliveries.len(),
{
    if deliveries.len() == 0 {
        0
    } else {
        delivered(deliveries.drop_last()) + deliveries.last()@[0].quantity
    }
}

/// Whether every delivery has one line, of product `p`, with a positive quantity.
pub open spec fn single_lines_of(deliveries: Seq<Vec<MovementLine>>, p: u128) -> bool {
    forall|k: int|
        #![trigger deliveries[k]]
        0 <= k < deliveries.len() ==> deliveries[k]@.len() == 1 && deliveries[k]@[0].product_id
            == p && deliveries[k]@[0].quantity > 0
}

/// The ledger after the deliveries from warehouse `w`, each executed as a
/// movement of its own with the header at the same position, or the first
/// error.
pub open spec fn successive_deliveries(
    entries: Seq<LedgerEntry>,
    w: u128,
    deliveries: Seq<Vec<MovementLine>>,
    hs: Seq<EntryHeader>,
) -> Result<Seq<LedgerEntry>, LedgerError>
    decreases deliveries.len(),
{
    if deliveries.len() == 0 {
        Ok(entries)
    } else {
        match successive_deliveries(entries, w, deliveries.drop_last(), hs) {
            Err(e) => Err(e),
            Ok(s) => movement_outcome(
                s,
                Movement::Delivery { warehouse_id: w, lines: deliveries.last() },
                hs[deliveries.len() - 1],
                None,
            ),
        }
    }
}

proof fn lemma_successive(
    entries: Seq<LedgerEntry>,
    p: u128,
    w: u128,
    deliveries: Seq<Vec<MovementLine>>,
    hs: Seq<EntryHeader>,
)
    requires
        single_lines_of(deliveries, p),
        hs.len() >= deliveries.len(),
        delivered(deliveries) <= ledger_sum(entries, p, w) <= i64::MAX,
        entries.len() + deliveries.len() < u64::MAX,
    ensures
        0 <= delivered(deliveries),
        successive_deliveries(entries, w, deliveries, hs) matches Ok(after) && {
            &&& after.len() == entries.len() + deliveries.len()
            &&& after.take(entries.len() as int) == entries
            &&& ledger_sum(after, p, w) == ledger_sum(entries, p, w) - delivered(deliveries)
            &&& forall|k: int|
                #![trigger after[entries.len() + k]]
                0 <= k < deliveries.len() ==> {
                    &&& after[entries.len() + k].product_id == p
                    &&& after[entries.len() + k].warehouse_id == w
                    &&& after[entries.len() + k].quantity_change == -deliveries[k]@[0].quantity
                    &&& after[entries.len() + k].resulting_balance == ledger_sum(entries, p, w)
                        - delivered(deliveries.take(k + 1))
                }
        },
    decreases deliveries.len(),
{
    if deliveries.len() > 0 {
        let prev = deliveries.drop_last();
        let n = deliveries.len() - 1;
        assert(single_lines_of(prev, p)) by {
            assert forall|k: int| #![trigger prev[k]] 0 <= k < prev.len() implies prev[k]@.len() == 1
                && prev[k]@[0].product_id == p && prev[k]@[0].quantity > 0 by {
                assert(prev[k] == deliveries[k]);
            }
        }
        assert(deliveries[n] == deliveries.last());
        lemma_successive(entries, p, w, prev, hs);
        let s = successive_deliveries(entries, w, prev, hs)->Ok_0;
        let lines = deliveries.last();
        let q = lines@[0].quantity;
        lemma_one_line(lines@, w, false);
        let d = simple_draft(p, w, (-q) as i64);
        lemma_one_draft(s, hs[n], None, d);
        let e = new_entry(s, hs[n], None, d);
        lemma_sum_push(s, e, p, w);
        let after = s.push(e);
        assert(after.take(entries.len() as int) =~= s.take(entries.len() as int));
        assert(deliveries.take(n + 1) =~= deliveries);
        assert forall|k: int| #![trigger after[entries.len() + k]] 0 <= k < deliveries.len() implies {
            &&& after[entries.len() + k].product_id == p
            &&& after[entries.len() + k].warehouse_id == w
            &&& after[entries.len() + k].quantity_change == -deliveries[k]@[0].quantity
            &&& after[entries.len() + k].resulting_balance == ledger_sum(entries, p, w) - delivered(
                deliveries.take(k + 1),
            )
        } by {
            if k < n {
                assert(after[entries.len() + k] == s[entries.len() + k]);
                assert(prev[k] == deliveries[k]);
                assert(prev.take(k + 1) =~= deliveries.take(k + 1));
            }
        }
    }
}

/// Deliveries against one balance all succeed, whatever order they arrive
/// in, as long as together they ask for no more than is on hand. Each is
/// executed as a movement of its own; the entry of the k-th records what is
/// left after the first k, so no intermediate balance is negative.
pub proof fn law_deliveries_within_stock_succeed(
    entries: Seq<LedgerEntry>,
    p: u128,
    w: u128,
    deliveries: Seq<Vec<MovementLine>>,
    hs: Seq<EntryHeader>,
)
    requires
        ledger_wf(entries),
        single_lines_of(deliveries, p),
        hs.len() >= deliveries.len(),
        delivered(deliveries) <= ledger_sum(entries, p, w),
        entries.len() + deliveries.len() < u64::MAX,
    ensures
        successive_deliveries(entries, w, deliveries, hs) matches Ok(after) && {
            &&& after.len() == entries.len() + deliveries.len()
            &&& ledger_sum(after, p, w) == ledger_sum(entries, p, w) - delivered(deliveries)
            &&& forall|k: int|
                #![trigger after[entries.len() + k]]
                0 <= k < deliveries.len() ==> {
                    &&& after[entries.len() + k].product_id == p
                    &&& after[entries.len() + k].warehouse_id == w
                    &&& after[entries.len() + k].quantity_change == -deliveries[k]@[0].quantity
                    &&& after[entries.len() + k].resulting_balance == ledger_sum(entries, p, w)
                        - delivered(deliveries.take(k + 1))
                    &&& after[entries.len() + k].resulting_balance >= 0
                }
        },
{
    assert(ledger_sum(entries, p, w) <= i64::MAX);
    lemma_successive(entries, p, w, deliveries, hs);
    let after = successive_deliveries(entries, w, deliveries, hs)->Ok_0;
    assert forall|k: int| #![trigger after[entries.len() + k]] 0 <= k < deliveries.len() implies
        after[entries.len() + k].resulting_balance >= 0 by {
        lemma_delivered_prefix(deliveries, p, k + 1);
    }
}

proof fn lemma_delivered_prefix(deliveries: Seq<Vec<MovementLine>>, p: u128, k: int)
    requires
        single_lines_of(deliveries, p),
        0 <= k <= deliveries.len(),
    ensures
        0 <= delivered(deliveries.take(k)) <= delivered(deliveries),
    decreases deliveries.len(),
{
    if k == deliveries.len() {
        assert(deliveries.take(k) =~= deliveries);
        lemma_delivered_nonneg(deliveries, p);
    } else {
        let prev = deliveries.drop_last();
        assert(prev.take(k) =~= deliveries.take(k));
        assert(single_lines_of(prev, p)) by {
            assert forall|j: int| #![trigger prev[j]] 0 <= j < prev.len() implies prev[j]@.len() == 1
                && prev[j]@[0].product_id == p && prev[j]@[0].quantity > 0 by {
                assert(prev[j] == deliveries[j]);
            }
        }
        lemma_delivered_prefix(prev, p, k);
        assert(deliveries.last() == deliveries[deliveries.len() - 1]);
    }
}

proof fn lemma_delivered_nonneg(deliveries: Seq<Vec<MovementLine>>, p: u128)
    requires
        single_lines_of(deliveries, p),
    ensures
        0 <= delivered(deliveries),
    decreases deliveries.len(),
{
    if deliveries.len() > 0 {
        let prev = deliveries.drop_last();
        assert(single_lines_of(prev, p)) by {
            assert forall|j: int| #![trigger prev[j]] 0 <= j < prev.len() implies prev[j]@.len() == 1
                && prev[j]@[0].product_id == p && prev[j]@[0].quantity > 0 by {
                assert(prev[j] == deliveries[j]);
            }
        }
        lemma_delivered_nonneg(prev, p);
        assert(deliveries.last() == deliveries[deliveries.len() - 1]);
    }
}

proof fn lemma_delivered_equal(deliveries: Seq<Vec<MovementLine>>, q: i64, k: int)
    requires
        forall|j: int| #![trigger deliveries[j]] 0 <= j < deliveries.len() ==> deliveries[j]@[0].quantity == q,
        0 <= k <= deliveries.len(),
    ensures
        delivered(deliveries.take(k)) == k * q,
    decreases k,
{
    let t = deliveries.take(k);
    if k > 0 {
        assert(t.drop_last() =~= deliveries.take(k - 1));
        assert(t.last() == deliveries[k - 1]);
        lemma_delivered_equal(deliveries, q, k - 1);
        assert(delivered(t) == delivered(t.drop_last()) + t.last()@[0].quantity);
        assert((k - 1) * q + q == k * q) by (nonlinear_arith);
    } else {
        assert(t.len() == 0);
    }
}

/// N deliveries of Q each, against a balance of exactly N×Q, all succeed,
/// whatever their order: the k-th leaves (N-1-k)×Q, and the last leaves 0.
pub proof fn law_equal_deliveries_drain(
    entries: Seq<LedgerEntry>,
    p: u128,
    w: u128,
    deliveries: Seq<Vec<MovementLine>>,
    hs: Seq<EntryHeader>,
    q: i64,
)
    requires
        ledger_wf(entries),
        single_lines_of(deliveries, p),
        forall|j: int| #![trigger deliveries[j]] 0 <= j < deliveries.len() ==> deliveries[j]@[0].quantity == q,
        hs.len() >= deliveries.len(),
        ledger_sum(entries, p, w) == deliveries.len() * q,
        entries.len() + deliveries.len() < u64::MAX,
    ensures
        successive_deliveries(entries, w, deliveries, hs) matches Ok(after) && {
            &&& after.len() == entries.len() + deliveries.len()
            &&& ledger_sum(after, p, w) == 0
            &&& forall|k: int|
                #![trigger after[entries.len() + k]]
                0 <= k < deliveries.len() ==> after[entries.len() + k].quantity_change == -q
                    && after[entries.len() + k].resulting_balance == (deliveries.len() - 1 - k) * q
        },
{
    lemma_delivered_equal(deliveries, q, deliveries.len() as int);
    assert(deliveries.take(deliveries.len() as int) =~= deliveries);
    law_deliveries_within_stock_succeed(entries, p, w, deliveries, hs);
    let after = successive_deliveries(entries, w, deliveries, hs)->Ok_0;
    assert forall|k: int| #![trigger after[entries.len() + k]] 0 <= k < deliveries.len() implies
        after[entries.len() + k].quantity_change == -q && after[entries.len() + k].resulting_balance
        == (deliveries.len() - 1 - k) * q by {
        lemma_delivered_equal(deliveries, q, k + 1);
        assert(deliveries.len() * q - (k + 1) * q == (deliveries.len() - 1 - k) * q)
            by (nonlinear_arith);
    }
}

/// Cancelling an executed one-line receipt of Q into `w`, from any state of a
/// consistent engine, appends one entry of -Q at that pair, marked as the
/// reversal of the receipt's entry, and lowers the balance by exactly Q. It
/// succeeds when at least Q is on hand (and an id is left), and is refused
/// with `InsufficientStock` when less is.
pub proof fn law_cancel_receipt(engine: &MovementEngine, id: u64, h: EntryHeader)
    requires
        engine.wf(),
        engine.has_document(id),
        engine.state(id).status == DocumentStatus::Executed,
        engine.document(id).movement matches Movement::Receipt { lines, .. } && lines@.len() == 1,
    ensures
        ({
            let (w, l) = match engine.document(id).movement {
                Movement::Receipt { warehouse_id, lines } => (warehouse_id, lines@[0]),
                _ => (0, MovementLine { product_id: 0, quantity: 0, expiry_date: None }),
            };
            let es = engine.entries();
            let n = es.len() as int;
            let o = engine.document_entries(id);
            &&& o.len() == 1
            &&& o[0].product_id == l.product_id && o[0].warehouse_id == w && o[0].quantity_change
                == l.quantity
            &&& (reversal_outcome(es, o, h) matches Ok(after) ==> {
                &&& after.len() == n + 1
                &&& after.take(n) == es
                &&& after[n].product_id == l.product_id && after[n].warehouse_id == w
                &&& after[n].quantity_change == -l.quantity
                &&& after[n].reversal_of == Some(o[0].id)
                &&& ledger_sum(after, l.product_id, w) == ledger_sum(es, l.product_id, w)
                    - l.quantity
            })
            &&& (ledger_sum(es, l.product_id, w) >= l.quantity && n + 1 < u64::MAX ==> reversal_outcome(
                es,
                o,
                h,
            ) is Ok)
            &&& (ledger_sum(es, l.product_id, w) < l.quantity ==> reversal_outcome(es, o, h) == Err::<
                Seq<LedgerEntry>,
                LedgerError,
            >(
                LedgerError::InsufficientStock {
                    have: ledger_sum(es, l.product_id, w) as i64,
                    requested: l.quantity,
                },
            ))
        }),
{
    engine.lemma_wf();
    let (w, lines) = match engine.document(id).movement {
        Movement::Receipt { warehouse_id, lines } => (warehouse_id, lines),
        _ => {
            assert(false);
            arbitrary()
        },
    };
    let l = lines@[0];
    let es = engine.entries();
    let n = es.len() as int;
    let i = id - 1;
    let st = engine.states()[i];
    let d = engine.documents()[i];
    assert(engine.state(id) == st && engine.document(id) == d);
    assert(movement_plan(d.movement, st.counted_balance as int) is Ok);
    assert(l.quantity > 0) by {
        if l.quantity <= 0 {
            assert(!all_positive(lines@));
        }
    }
    lemma_one_line(lines@, w, true);
    let dr = simple_draft(l.product_id, w, l.quantity);
    assert(document_drafts(d, st) == seq![dr]);
    let o = engine.document_entries(id);
    let k0 = st.first_entry as int;
    assert(o.len() == 1);
    assert(o[0] == es[k0]);
    assert(entry_follows(es[k0], document_drafts(d, st)[k0 - st.first_entry]));
    let r = EntryDraft {
        product_id: l.product_id,
        warehouse_id: w,
        quantity_change: (-l.quantity) as i64,
        reversal_of: Some(o[0].id),
    };
    assert(reversal_drafts(o) =~= seq![r]);
    lemma_one_draft(es, h, None, r);
    let e2 = new_entry(es, h, None, r);
    lemma_sum_push(es, e2, l.product_id, w);
    assert(es.push(e2).take(n) =~= es);
    assert(0 <= ledger_sum(es, l.product_id, w) <= i64::MAX);
}

/// Whether no two lines name the same product.
pub open spec fn distinct_products(lines: Seq<MovementLine>) -> bool {
    forall|i: int, j: int|
        0 <= i < j < lines.len() ==> lines[i].product_id != lines[j].product_id
}

/// Whether line `i` asks for more than warehouse `w` holds of its product.
pub open spec fn short_line(entries: Seq<LedgerEntry>, lines: Seq<MovementLine>, w: u128, i: int) -> bool {
    ledger_sum(entries, lines[i].product_id, w) < lines[i].quantity
}

/// Whether line `i` is the first that asks for more than `w` holds.
pub open spec fn first_short_line(
    entries: Seq<LedgerEntry>,
    lines: Seq<MovementLine>,
    w: u128,
    i: int,
) -> bool {
    &&& 0 <= i < lines.len()
    &&& short_line(entries, lines, w, i)
    &&& forall|j: int| 0 <= j < i ==> !short_line(entries, lines, w, j)
}

proof fn lemma_prefix_lines(lines: Seq<MovementLine>)
    requires
        lines.len() > 0,
        all_positive(lines),
        distinct_products(lines),
    ensures
        all_positive(lines.drop_last()),
        distinct_products(lines.drop_last()),
        forall|i: int|
            0 <= i < lines.len() - 1 ==> (#[trigger] lines.drop_last()[i]) == lines[i]
                && lines[i].product_id != lines.last().product_id,
{
    assert(lines.last() == lines[lines.len() - 1]);
}

proof fn lemma_line_drafts_absent(lines: Seq<MovementLine>, w: u128, inbound: bool, p: u128, v: u128)
    requires
        forall|i: int| 0 <= i < lines.len() ==> (#[trigger] lines[i]).product_id != p,
    ensures
        draft_sum(line_drafts(lines, w, inbound), p, v) == 0,
    decreases lines.len(),
{
    if lines.len() > 0 {
        let t = lines.drop_last();
        assert forall|i: int| 0 <= i < t.len() implies (#[trigger] t[i]).product_id != p by {
            assert(t[i] == lines[i]);
        }
        lemma_line_drafts_absent(t, w, inbound, p, v);
        assert(lines.last() == lines[lines.len() - 1]);
        let ds = line_drafts(lines, w, inbound);
        assert(ds.drop_last() =~= line_drafts(t, w, inbound));
    }
}

proof fn lemma_transfer_drafts_absent(lines: Seq<MovementLine>, from: u128, to: u128, p: u128, v: u128)
    requires
        forall|i: int| 0 <= i < lines.len() ==> (#[trigger] lines[i]).product_id != p,
    ensures
        draft_sum(transfer_drafts(lines, from, to), p, v) == 0,
    decreases lines.len(),
{
    if lines.len() > 0 {
        let t = lines.drop_last();
        assert forall|i: int| 0 <= i < t.len() implies (#[trigger] t[i]).product_id != p by {
            assert(t[i] == lines[i]);
        }
        lemma_transfer_drafts_absent(t, from, to, p, v);
        assert(lines.last() == lines[lines.len() - 1]);
        let l = lines.last();
        let base = transfer_drafts(t, from, to);
        let a = simple_draft(l.product_id, from, (-l.quantity) as i64);
        let b = simple_draft(l.product_id, to, l.quantity);
        assert(transfer_drafts(lines, from, to) == base.push(a).push(b));
        lemma_draft_sum_push_local(base.push(a), b, p, v);
        lemma_draft_sum_push_local(base, a, p, v);
    }
}

proof fn lemma_delivery_batch(entries: Seq<LedgerEntry>, lines: Seq<MovementLine>, w: u128)
    requires
        ledger_wf(entries),
        all_positive(lines),
        distinct_products(lines),
    ensures
        (forall|j: int| 0 <= j < lines.len() ==> !short_line(entries, lines, w, j))
            ==> batch_problem(entries, line_drafts(lines, w, false)) is None,
        forall|i: int|
            first_short_line(entries, lines, w, i) ==> batch_problem(
                entries,
                line_drafts(lines, w, false),
            ) == Some(
                LedgerError::InsufficientStock {
                    have: ledger_sum(entries, lines[i].product_id, w) as i64,
                    requested: lines[i].quantity,
                },
            ),
    decreases lines.len(),
{
    if lines.len() > 0 {
        let t = lines.drop_last();
        let n = lines.len() - 1;
        let l = lines.last();
        lemma_prefix_lines(lines);
        lemma_delivery_batch(entries, t, w);
        lemma_line_drafts_absent(t, w, false, l.product_id, w);
        let ds = line_drafts(lines, w, false);
        let d = simple_draft(l.product_id, w, (-l.quantity) as i64);
        assert(ds.drop_last() =~= line_drafts(t, w, false));
        assert(ds.last() == d);
        assert(l == lines[n]);
        assert(0 <= ledger_sum(entries, l.product_id, w) <= i64::MAX);
        assert forall|j: int| 0 <= j < t.len() implies short_line(entries, t, w, j) == short_line(
            entries,
            lines,
            w,
            j,
        ) by {
            assert(t[j] == lines[j]);
        }
        let have = ledger_sum(entries, l.product_id, w);
        assert(batch_problem(entries, ds) == match batch_problem(entries, line_drafts(t, w, false)) {
            Some(e) => Some(e),
            None => draft_problem(have + draft_sum(line_drafts(t, w, false), l.product_id, w), d),
        });
        if forall|j: int| 0 <= j < lines.len() ==> !short_line(entries, lines, w, j) {
            assert forall|j: int| 0 <= j < t.len() implies !short_line(entries, t, w, j) by {
                assert(!short_line(entries, lines, w, j));
            }
            assert(!short_line(entries, lines, w, n));
        }
        assert forall|i: int| first_short_line(entries, lines, w, i) implies batch_problem(
            entries,
            ds,
        ) == Some(
            LedgerError::InsufficientStock {
                have: ledger_sum(entries, lines[i].product_id, w) as i64,
                requested: lines[i].quantity,
            },
        ) by {
            if i < n {
                assert forall|j: int| 0 <= j < i implies !short_line(entries, t, w, j) by {
                    assert(!short_line(entries, lines, w, j));
                }
                assert(short_line(entries, t, w, i));
                assert(first_short_line(entries, t, w, i));
                assert(t[i] == lines[i]);
            } else {
                assert forall|j: int| 0 <= j < t.len() implies !short_line(entries, t, w, j) by {
                    assert(!short_line(entries, lines, w, j));
                }
            }
        }
    }
}

/// A delivery of distinct products, some line of which asks for more than
/// is on hand, is refused with `InsufficientStock` for the first such line,
/// naming what is on hand and what that line requested.
pub proof fn law_delivery_lines_overdraft_refused(
    entries: Seq<LedgerEntry>,
    warehouse_id: u128,
    lines: Vec<MovementLine>,
    i: int,
    h: EntryHeader,
    notes: Option<String>,
)
    requires
        ledger_wf(entries),
        all_positive(lines@),
        distinct_products(lines@),
        first_short_line(entries, lines@, warehouse_id, i),
    ensures
        movement_outcome(entries, Movement::Delivery { warehouse_id, lines }, h, notes) == Err::<
            Seq<LedgerEntry>,
            LedgerError,
        >(
            LedgerError::InsufficientStock {
                have: ledger_sum(entries, lines@[i].product_id, warehouse_id) as i64,
                requested: lines@[i].quantity,
            },
        ),
{
    lemma_delivery_batch(entries, lines@, warehouse_id);
}

proof fn lemma_transfer_batch(entries: Seq<LedgerEntry>, lines: Seq<MovementLine>, from: u128, to: u128)
    requires
        ledger_wf(entries),
        from != to,
        all_positive(lines),
        distinct_products(lines),
        forall|j: int|
            0 <= j < lines.len() ==> ledger_sum(entries, (#[trigger] lines[j]).product_id, to)
                + lines[j].quantity <= i64::MAX,
    ensures
        (forall|j: int| 0 <= j < lines.len() ==> !short_line(entries, lines, from, j))
            ==> batch_problem(entries, transfer_drafts(lines, from, to)) is None,
        forall|i: int|
            first_short_line(entries, lines, from, i) ==> batch_problem(
                entries,
                transfer_drafts(lines, from, to),
            ) == Some(
                LedgerError::InsufficientStock {
                    have: ledger_sum(entries, lines[i].product_id, from) as i64,
                    requested: lines[i].quantity,
                },
            ),
    decreases lines.len(),
{
    if lines.len() > 0 {
        let t = lines.drop_last();
        let n = lines.len() - 1;
        let l = lines.last();
        lemma_prefix_lines(lines);
        assert forall|j: int| 0 <= j < t.len() implies ledger_sum(entries, (#[trigger] t[j]).product_id, to)
            + t[j].quantity <= i64::MAX by {
            assert(t[j] == lines[j]);
        }
        lemma_transfer_batch(entries, t, from, to);
        lemma_transfer_drafts_absent(t, from, to, l.product_id, from);
        lemma_transfer_drafts_absent(t, from, to, l.product_id, to);
        let base = transfer_drafts(t, from, to);
        let a = simple_draft(l.product_id, from, (-l.quantity) as i64);
        let b = simple_draft(l.product_id, to, l.quantity);
        let ds = base.push(a).push(b);
        assert(transfer_drafts(lines, from, to) == ds);
        assert(ds.drop_last() =~= base.push(a));
        assert(base.push(a).drop_last() =~= base);
        assert(ds.last() == b);
        assert(base.push(a).last() == a);
        lemma_draft_sum_push_local(base, a, l.product_id, to);
        assert(l == lines[n]);
        assert(0 <= ledger_sum(entries, l.product_id, from) <= i64::MAX);
        assert(0 <= ledger_sum(entries, l.product_id, to) <= i64::MAX);
        assert(l.quantity > 0);
        assert forall|j: int| 0 <= j < t.len() implies short_line(entries, t, from, j) == short_line(
            entries,
            lines,
            from,
            j,
        ) by {
            assert(t[j] == lines[j]);
        }
        let hf = ledger_sum(entries, l.product_id, from);
        let ht = ledger_sum(entries, l.product_id, to);
        assert(batch_problem(entries, base.push(a)) == match batch_problem(entries, base) {
            Some(e) => Some(e),
            None => draft_problem(hf + draft_sum(base, l.product_id, from), a),
        });
        assert(batch_problem(entries, ds) == match batch_problem(entries, base.push(a)) {
            Some(e) => Some(e),
            None => draft_problem(ht + draft_sum(base.push(a), l.product_id, to), b),
        });
        assert(ht + l.quantity <= i64::MAX);
        assert(draft_problem(ht + draft_sum(base.push(a), l.product_id, to), b) is None);
        if forall|j: int| 0 <= j < lines.len() ==> !short_line(entries, lines, from, j) {
            assert forall|j: int| 0 <= j < t.len() implies !short_line(entries, t, from, j) by {
                assert(!short_line(entries, lines, from, j));
            }
            assert(!short_line(entries, lines, from, n));
        }
        assert forall|i: int| first_short_line(entries, lines, from, i) implies batch_problem(
            entries,
            ds,
        ) == Some(
            LedgerError::InsufficientStock {
                have: ledger_sum(entries, lines[i].product_id, from) as i64,
                requested: lines[i].quantity,
            },
        ) by {
            if i < n {
                assert forall|j: int| 0 <= j < i implies !short_line(entries, t, from, j) by {
                    assert(!short_line(entries, lines, from, j));
                }
                assert(short_line(entries, t, from, i));
                assert(first_short_line(entries, t, from, i));
                assert(t[i] == lines[i]);
            } else {
                assert forall|j: int| 0 <= j < t.len() implies !short_line(entries, t, from, j) by {
                    assert(!short_line(entries, lines, from, j));
                }
            }
        }
    }
}

proof fn lemma_draft_sum_push_local(ds: Seq<EntryDraft>, d: EntryDraft, p: u128, w: u128)
    ensures
        draft_sum(ds.push(d), p, w) == draft_sum(ds, p, w) + if d.product_id == p && d.warehouse_id
            == w {
            d.quantity_change as int
        } else {
            0
        },
{
    assert(ds.push(d).drop_last() =~= ds);
}

/// A transfer of distinct products, some line of which asks for more than
/// the source holds, is refused with `InsufficientStock` for the first such
/// line; the destination is not charged. (Destination balances are taken to
/// stay within the quantity range, which a machine limit, not a rule, bounds.)
pub proof fn law_transfer_lines_overdraft_refused(
    entries: Seq<LedgerEntry>,
    from_warehouse_id: u128,
    to_warehouse_id: u128,
    lines: Vec<MovementLine>,
    i: int,
    h: EntryHeader,
    notes: Option<String>,
)
    requires
        ledger_wf(entries),
        from_warehouse_id != to_warehouse_id,
        all_positive(lines@),
        distinct_products(lines@),
        forall|j: int|
            0 <= j < lines@.len() ==> ledger_sum(entries, (#[trigger] lines@[j]).product_id, to_warehouse_id)
                + lines@[j].quantity <= i64::MAX,
        first_short_line(entries, lines@, from_warehouse_id, i),
    ensures
        movement_outcome(
            entries,
            Movement::Transfer { from_warehouse_id, to_warehouse_id, lines },
            h,
            notes,
        ) == Err::<Seq<LedgerEntry>, LedgerError>(
            LedgerError::InsufficientStock {
                have: ledger_sum(entries, lines@[i].product_id, from_warehouse_id) as i64,
                requested: lines@[i].quantity,
            },
        ),
{
    lemma_transfer_batch(entries, lines@, from_warehouse_id, to_warehouse_id);
}

proof fn lemma_transfer_sums(lines: Seq<MovementLine>, from: u128, to: u128, i: int)
    requires
        from != to,
        all_positive(lines),
        distinct_products(lines),
        0 <= i < lines.len(),
    ensures
        draft_sum(transfer_drafts(lines, from, to), lines[i].product_id, from) == -lines[i].quantity,
        draft_sum(transfer_drafts(lines, from, to), lines[i].product_id, to) == lines[i].quantity,
    decreases lines.len(),
{
    let t = lines.drop_last();
    let n = lines.len() - 1;
    let l = lines.last();
    lemma_prefix_lines(lines);
    let base = transfer_drafts(t, from, to);
    let a = simple_draft(l.product_id, from, (-l.quantity) as i64);
    let b = simple_draft(l.product_id, to, l.quantity);
    assert(transfer_drafts(lines, from, to) == base.push(a).push(b));
    assert(l == lines[n]);
    assert(l.quantity > 0);
    let p = lines[i].product_id;
    lemma_draft_sum_push_local(base.push(a), b, p, from);
    lemma_draft_sum_push_local(base, a, p, from);
    lemma_draft_sum_push_local(base.push(a), b, p, to);
    lemma_draft_sum_push_local(base, a, p, to);
    if i < n {
        assert(t[i] == lines[i]);
        lemma_transfer_sums(t, from, to, i);
    } else {
        lemma_transfer_drafts_absent(t, from, to, p, from);
        lemma_transfer_drafts_absent(t, from, to, p, to);
    }
}

/// A successful transfer of distinct products lowers the source balance of
/// each line's product by exactly that line's quantity, raises the
/// destination's by the same.
pub proof fn law_transfer_moves_each_line(
    entries: Seq<LedgerEntry>,
    from_warehouse_id: u128,
    to_warehouse_id: u128,
    lines: Vec<MovementLine>,
    h: EntryHeader,
    notes: Option<String>,
)
    requires
        ledger_wf(entries),
        distinct_products(lines@),
    ensures
        movement_outcome(
            entries,
            Movement::Transfer { from_warehouse_id, to_warehouse_id, lines },
            h,
            notes,
        ) matches Ok(after) ==> forall|i: int|
            #![trigger lines@[i]]
            0 <= i < lines@.len() ==> {
                &&& ledger_sum(after, lines@[i].product_id, from_warehouse_id) == ledger_sum(
                    entries,
                    lines@[i].product_id,
                    from_warehouse_id,
                ) - lines@[i].quantity
                &&& ledger_sum(after, lines@[i].product_id, to_warehouse_id) == ledger_sum(
                    entries,
                    lines@[i].product_id,
                    to_warehouse_id,
                ) + lines@[i].quantity
            },
{
    if from_warehouse_id != to_warehouse_id && lines@.len() > 0 && all_positive(lines@) {
        let ds = transfer_drafts(lines@, from_warehouse_id, to_warehouse_id);
        if post_problem(entries, ds) is None {
            let after = posted(entries, h, notes, ds);
            assert forall|i: int| #![trigger lines@[i]] 0 <= i < lines@.len() implies {
                &&& ledger_sum(after, lines@[i].product_id, from_warehouse_id) == ledger_sum(
                    entries,
                    lines@[i].product_id,
                    from_warehouse_id,
                ) - lines@[i].quantity
                &&& ledger_sum(after, lines@[i].product_id, to_warehouse_id) == ledger_sum(
                    entries,
                    lines@[i].product_id,
                    to_warehouse_id,
                ) + lines@[i].quantity
            } by {
                let p = lines@[i].product_id;
                lemma_transfer_sums(lines@, from_warehouse_id, to_warehouse_id, i);
                crate::ledger::lemma_posted_sum(entries, h, notes, ds, p, from_warehouse_id);
                crate::ledger::lemma_posted_sum(entries, h, notes, ds, p, to_warehouse_id);
            }
        }
    }
}

} // verus!
