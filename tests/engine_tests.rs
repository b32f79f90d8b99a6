use inventory_ledger::engine::{DocumentStatus, MovementEngine};
use inventory_ledger::ledger::{LedgerFilter, LedgerStore};
use inventory_ledger::locks::lock_plan;
use inventory_ledger::projection::BalanceProjector;
use inventory_ledger::requests::{
    CreateAdjustmentRequest, CreateDeliveryRequest, CreateReceiptRequest, CreateTransferRequest,
    UpdateAdjustmentRequest, UpdateDeliveryRequest, UpdateReceiptRequest, UpdateTransferRequest,
};
use inventory_ledger::types::{
    AdjustmentReason, BalanceKey, EntryDraft, EntryHeader, LedgerEntry, LedgerError,
    ReferenceType, ValidationError,
};
use inventory_ledger::validate::{AdjustmentAmount, Movement, MovementLine};

const SKU_X: u128 = 0x58;
const SKU_Y: u128 = 0x59;
const W: u128 = 1;
const W2: u128 = 2;
const USER: u128 = 77;

fn line(product_id: u128, quantity: i64) -> MovementLine {
    MovementLine { product_id, quantity, expiry_date: None }
}

fn stocked(quantity: i64) -> MovementEngine {
    let mut e = MovementEngine::new();
    e.execute_receipt(W, None, vec![line(SKU_X, quantity)], USER, 1).unwrap();
    e
}

fn pair_history(e: &MovementEngine, p: u128, w: u128) -> Vec<LedgerEntry> {
    let f = LedgerFilter { product_id: Some(p), warehouse_id: Some(w), ..LedgerFilter::all() };
    e.ledger_history(&f, 0, usize::MAX)
}

#[test]
fn scenario_receipt_transfer_delivery_count() {
    let mut e = MovementEngine::new();
    assert_eq!(e.current_balance(SKU_X, W), 0);

    e.execute_receipt(W, None, vec![line(SKU_X, 100)], USER, 10).unwrap();
    assert_eq!(e.current_balance(SKU_X, W), 100);

    e.execute_transfer(W, W2, vec![line(SKU_X, 30)], USER, 11).unwrap();
    assert_eq!(e.current_balance(SKU_X, W), 70);
    assert_eq!(e.current_balance(SKU_X, W2), 30);

    let r = e.execute_delivery(W, None, vec![line(SKU_X, 80)], USER, 12);
    assert_eq!(r.unwrap_err(), LedgerError::InsufficientStock { have: 70, requested: 80 });
    assert_eq!(e.current_balance(SKU_X, W), 70);

    let r = e
        .execute_adjustment(W, SKU_X, AdjustmentReason::Count, AdjustmentAmount::Counted(65), None, USER, 13)
        .unwrap();
    assert_eq!(r.entries.len(), 1);
    assert_eq!(r.entries[0].quantity_change, -5);
    assert_eq!(r.entries[0].reason, Some(AdjustmentReason::Count));
    assert_eq!(r.entries[0].resulting_balance, 65);
    assert_eq!(e.current_balance(SKU_X, W), 65);

    let last = e.ledger_history(&LedgerFilter::all(), 0, usize::MAX).pop().unwrap();
    assert_eq!(last.quantity_change, -5);
    assert_eq!(last.reason, Some(AdjustmentReason::Count));
    assert_eq!(last.reference_type, ReferenceType::Adjustment);
}

#[test]
fn balance_equals_sum_of_changes_and_rebuild() {
    let mut e = stocked(500);
    e.execute_delivery(W, None, vec![line(SKU_X, 120)], USER, 2).unwrap();
    e.execute_transfer(W, W2, vec![line(SKU_X, 80)], USER, 3).unwrap();
    e.execute_adjustment(W, SKU_X, AdjustmentReason::Damage, AdjustmentAmount::Change(-7), None, USER, 4)
        .unwrap();
    let id = e.execute_receipt(W, None, vec![line(SKU_X, 40)], USER, 5).unwrap().document_id;
    e.cancel(id, USER, 6).unwrap();

    for w in [W, W2] {
        let history = pair_history(&e, SKU_X, w);
        let sum: i64 = history.iter().map(|x| x.quantity_change).sum();
        assert_eq!(e.current_balance(SKU_X, w), sum);
        assert_eq!(history.last().unwrap().resulting_balance, sum);
        assert_eq!(e.rebuild_balance(SKU_X, w), Ok(sum));
    }
    assert_eq!(e.current_balance(SKU_X, W), 293);
    assert_eq!(e.current_balance(SKU_X, W2), 80);
    let before = e.current_stock(None, None);
    let rebuilt = e.rebuild(Some(SKU_X), None);
    assert_eq!(rebuilt, e.current_stock(Some(SKU_X), None));
    assert_eq!(e.current_stock(None, None), before);
    let quantities: Vec<i64> = rebuilt.iter().map(|b| b.quantity).collect();
    assert_eq!(quantities, vec![293, 80]);
}

#[test]
fn entries_are_numbered_in_order_with_running_balances() {
    let mut e = stocked(10);
    e.execute_receipt(W, None, vec![line(SKU_X, 5), line(SKU_Y, 3)], USER, 2).unwrap();
    let all = e.ledger_history(&LedgerFilter::all(), 0, usize::MAX);
    let ids: Vec<u64> = all.iter().map(|x| x.id).collect();
    assert_eq!(ids, vec![1, 2, 3]);
    let balances: Vec<i64> = all.iter().map(|x| x.resulting_balance).collect();
    assert_eq!(balances, vec![10, 15, 3]);
    assert_eq!(e.ledger_len(), 3);
}

#[test]
fn delivery_overdraft_is_refused_and_changes_nothing() {
    let mut e = stocked(50);
    let before = e.ledger_len();
    let r = e.execute_delivery(W, None, vec![line(SKU_X, 51)], USER, 2);
    assert_eq!(r.unwrap_err(), LedgerError::InsufficientStock { have: 50, requested: 51 });
    assert_eq!(e.current_balance(SKU_X, W), 50);
    assert_eq!(e.ledger_len(), before);
    assert_eq!(e.document_status(2), Some(DocumentStatus::Draft));
}

#[test]
fn transfer_overdraft_is_refused_on_the_source_side() {
    let mut e = stocked(20);
    let r = e.execute_transfer(W, W2, vec![line(SKU_X, 21)], USER, 2);
    assert_eq!(r.unwrap_err(), LedgerError::InsufficientStock { have: 20, requested: 21 });
    assert_eq!(e.current_balance(SKU_X, W), 20);
    assert_eq!(e.current_balance(SKU_X, W2), 0);
    assert_eq!(e.ledger_len(), 1);
}

#[test]
fn negative_adjustment_overdraft_is_refused() {
    let mut e = stocked(5);
    let r = e.execute_adjustment(W, SKU_X, AdjustmentReason::Theft, AdjustmentAmount::Change(-6), None, USER, 2);
    assert_eq!(r.unwrap_err(), LedgerError::InsufficientStock { have: 5, requested: 6 });
    assert_eq!(e.current_balance(SKU_X, W), 5);
}

#[test]
fn repeated_product_lines_are_checked_together() {
    let mut e = stocked(100);
    let r = e.execute_delivery(W, None, vec![line(SKU_X, 60), line(SKU_X, 60)], USER, 2);
    assert_eq!(r.unwrap_err(), LedgerError::InsufficientStock { have: 40, requested: 60 });
    assert_eq!(e.current_balance(SKU_X, W), 100);
    let ok = e.execute_delivery(W, None, vec![line(SKU_X, 60), line(SKU_X, 40)], USER, 3).unwrap();
    assert_eq!(ok.entries[1].resulting_balance, 0);
    assert_eq!(e.current_balance(SKU_X, W), 0);
}

#[test]
fn multi_line_overdraft_names_the_first_short_line() {
    let mut e = MovementEngine::new();
    e.execute_receipt(W, None, vec![line(SKU_X, 10), line(SKU_Y, 3)], USER, 1).unwrap();
    let r = e.execute_delivery(W, None, vec![line(SKU_X, 4), line(SKU_Y, 5)], USER, 2);
    assert_eq!(r.unwrap_err(), LedgerError::InsufficientStock { have: 3, requested: 5 });
    let t = e.execute_transfer(W, W2, vec![line(SKU_X, 11), line(SKU_Y, 9)], USER, 3);
    assert_eq!(t.unwrap_err(), LedgerError::InsufficientStock { have: 10, requested: 11 });
    assert_eq!(e.current_balance(SKU_X, W), 10);
    assert_eq!(e.current_balance(SKU_Y, W), 3);
    assert_eq!(e.current_balance(SKU_X, W2), 0);
    assert_eq!(e.ledger_len(), 2);
}

#[test]
fn transfer_writes_a_symmetric_pair() {
    let mut e = stocked(100);
    let before = e.ledger_len();
    let r = e.execute_transfer(W, W2, vec![line(SKU_X, 30)], USER, 2).unwrap();
    assert_eq!(r.entries.len(), 2);
    assert_eq!((r.entries[0].warehouse_id, r.entries[0].quantity_change), (W, -30));
    assert_eq!((r.entries[1].warehouse_id, r.entries[1].quantity_change), (W2, 30));
    assert_eq!(r.entries[0].reference_id, r.document_id);
    assert_eq!(e.ledger_len(), before + 2);
    let total: i64 = e.current_stock(Some(SKU_X), None).iter().map(|b| b.quantity).sum();
    assert_eq!(total, 100);
}

#[test]
fn multi_line_transfer_conserves_each_product() {
    let mut e = MovementEngine::new();
    e.execute_receipt(W, None, vec![line(SKU_X, 40), line(SKU_Y, 9)], USER, 1).unwrap();
    let before = e.ledger_len();
    let r = e.execute_transfer(W, W2, vec![line(SKU_X, 15), line(SKU_Y, 9)], USER, 2).unwrap();
    assert_eq!(r.entries.len(), 4);
    assert_eq!(e.ledger_len(), before + 4);
    for (p, total) in [(SKU_X, 40), (SKU_Y, 9)] {
        let sum: i64 = e.current_stock(Some(p), None).iter().map(|b| b.quantity).sum();
        assert_eq!(sum, total);
    }
    assert_eq!(e.current_balance(SKU_Y, W), 0);
    assert_eq!(e.current_balance(SKU_Y, W2), 9);
}

#[test]
fn cancelling_a_receipt_restores_the_balance() {
    let mut e = stocked(10);
    let r = e.execute_receipt(W, None, vec![line(SKU_X, 25)], USER, 2).unwrap();
    assert_eq!(e.current_balance(SKU_X, W), 35);
    let rev = e.cancel(r.document_id, USER, 3).unwrap();
    assert_eq!(rev.len(), 1);
    assert_eq!(rev[0].quantity_change, -25);
    assert_eq!(rev[0].reversal_of, Some(r.entries[0].id));
    assert_eq!(rev[0].reference_type, ReferenceType::Receipt);
    assert_eq!(e.current_balance(SKU_X, W), 10);
    assert_eq!(e.document_status(r.document_id), Some(DocumentStatus::CancelledAfterExecution));
    // history is kept: the receipt entry is still there
    assert_eq!(e.ledger_len(), 3);
}

#[test]
fn cancelling_twice_is_a_validation_error() {
    let mut e = MovementEngine::new();
    let r = e.execute_receipt(W, None, vec![line(SKU_X, 8)], USER, 1).unwrap();
    e.cancel(r.document_id, USER, 2).unwrap();
    let again = e.cancel(r.document_id, USER, 3);
    assert_eq!(again.unwrap_err(), LedgerError::Validation(ValidationError::AlreadyCancelled));
    assert_eq!(e.current_balance(SKU_X, W), 0);
    assert_eq!(e.ledger_len(), 2);
}

#[test]
fn cancelling_a_consumed_receipt_is_refused() {
    let mut e = MovementEngine::new();
    let r = e.execute_receipt(W, None, vec![line(SKU_X, 100)], USER, 1).unwrap();
    e.execute_delivery(W, None, vec![line(SKU_X, 80)], USER, 2).unwrap();
    let c = e.cancel(r.document_id, USER, 3);
    assert_eq!(c.unwrap_err(), LedgerError::InsufficientStock { have: 20, requested: 100 });
    assert_eq!(e.document_status(r.document_id), Some(DocumentStatus::Executed));
    assert_eq!(e.current_balance(SKU_X, W), 20);
}

#[test]
fn cancelling_a_transfer_reverses_both_sides() {
    let mut e = stocked(50);
    let t = e.execute_transfer(W, W2, vec![line(SKU_X, 20)], USER, 2).unwrap();
    let rev = e.cancel(t.document_id, USER, 3).unwrap();
    assert_eq!(rev.len(), 2);
    assert_eq!((rev[0].warehouse_id, rev[0].quantity_change), (W, 20));
    assert_eq!((rev[1].warehouse_id, rev[1].quantity_change), (W2, -20));
    assert_eq!(e.current_balance(SKU_X, W), 50);
    assert_eq!(e.current_balance(SKU_X, W2), 0);
}

#[test]
fn equal_deliveries_drain_the_balance_in_any_order() {
    let n: i64 = 8;
    let q: i64 = 125;
    let mut e = stocked(n * q);
    for i in 0..n {
        let r = e.execute_delivery(W, None, vec![line(SKU_X, q)], USER, 10 + i).unwrap();
        assert_eq!(r.entries[0].resulting_balance, (n - 1 - i) * q);
    }
    assert_eq!(e.current_balance(SKU_X, W), 0);
    let next = e.execute_delivery(W, None, vec![line(SKU_X, q)], USER, 99);
    assert_eq!(next.unwrap_err(), LedgerError::InsufficientStock { have: 0, requested: q });
}

#[test]
fn deliveries_within_stock_succeed_whatever_the_order() {
    let orders: [[i64; 4]; 3] = [[10, 20, 30, 40], [40, 30, 20, 10], [20, 40, 10, 30]];
    for order in orders {
        let mut e = stocked(100);
        let mut left = 100;
        for q in order {
            let r = e.execute_delivery(W, None, vec![line(SKU_X, q)], USER, 5).unwrap();
            left -= q;
            assert_eq!(r.entries[0].resulting_balance, left);
        }
        assert_eq!(e.current_balance(SKU_X, W), 0);
    }
}

#[test]
fn receipt_lines_keep_their_expiry_date() {
    let mut e = MovementEngine::new();
    let dated = MovementLine { product_id: SKU_X, quantity: 12, expiry_date: Some(20_000) };
    let r = e.execute_receipt(W, None, vec![dated], USER, 1).unwrap();
    assert_eq!(r.entries[0].quantity_change, 12);
    assert_eq!(e.current_balance(SKU_X, W), 12);
}

#[test]
fn documents_keep_their_party() {
    let mut e = MovementEngine::new();
    let r = e.execute_receipt(W, Some("Acme Supply".to_string()), vec![line(SKU_X, 5)], USER, 1).unwrap();
    assert_eq!(e.get_document(r.document_id).unwrap().party.as_deref(), Some("Acme Supply"));
    let d = e.execute_delivery(W, Some("Corner Shop".to_string()), vec![line(SKU_X, 2)], USER, 2).unwrap();
    let doc = e.get_document(d.document_id).unwrap();
    assert_eq!(doc.party.as_deref(), Some("Corner Shop"));
    assert_eq!(doc.created_by, USER);
}

#[test]
fn draft_lifecycle_and_discard() {
    let mut e = MovementEngine::new();
    let id = e
        .create_draft(Movement::Receipt { warehouse_id: W, lines: vec![line(SKU_X, 3)] }, None, USER, None)
        .unwrap();
    assert_eq!(e.document_status(id), Some(DocumentStatus::Draft));
    assert_eq!(e.ledger_len(), 0);
    assert_eq!(e.discard_draft(id), Ok(()));
    assert_eq!(e.document_status(id), Some(DocumentStatus::CancelledAsDraft));
    assert_eq!(e.execute(id, USER, 2).unwrap_err(), LedgerError::Validation(ValidationError::NotDraft));
    assert_eq!(e.cancel(id, USER, 2).unwrap_err(), LedgerError::Validation(ValidationError::AlreadyCancelled));
    assert_eq!(e.ledger_len(), 0);
    assert_eq!(e.document_status(id + 1), None);
}

#[test]
fn executing_a_draft_later_reads_the_balance_then() {
    let mut e = stocked(10);
    let id = e
        .create_draft(Movement::Delivery { warehouse_id: W, lines: vec![line(SKU_X, 15)] }, None, USER, None)
        .unwrap();
    assert!(e.execute(id, USER, 2).is_err());
    assert_eq!(e.document_status(id), Some(DocumentStatus::Draft));
    e.execute_receipt(W, None, vec![line(SKU_X, 5)], USER, 3).unwrap();
    let out = e.execute(id, USER, 4).unwrap();
    assert_eq!(out[0].resulting_balance, 0);
    assert_eq!(e.document_status(id), Some(DocumentStatus::Executed));
}

#[test]
fn each_validation_error_has_its_input() {
    let mut e = stocked(10);
    let v = |x| LedgerError::Validation(x);
    assert_eq!(e.execute_receipt(W, None, vec![], USER, 1).unwrap_err(), v(ValidationError::NoLines));
    assert_eq!(
        e.execute_receipt(W, None, vec![line(SKU_X, 0)], USER, 1).unwrap_err(),
        v(ValidationError::NonPositiveQuantity)
    );
    assert_eq!(
        e.execute_delivery(W, None, vec![line(SKU_X, -3)], USER, 1).unwrap_err(),
        v(ValidationError::NonPositiveQuantity)
    );
    assert_eq!(
        e.execute_transfer(W, W, vec![line(SKU_X, 1)], USER, 1).unwrap_err(),
        v(ValidationError::SameWarehouse)
    );
    assert_eq!(
        e.execute_adjustment(W, SKU_X, AdjustmentReason::Damage, AdjustmentAmount::Counted(3), None, USER, 1)
            .unwrap_err(),
        v(ValidationError::CountedWithoutCountReason)
    );
    assert_eq!(
        e.execute_adjustment(W, SKU_X, AdjustmentReason::Count, AdjustmentAmount::Counted(-1), None, USER, 1)
            .unwrap_err(),
        v(ValidationError::NegativeCount)
    );
    assert_eq!(
        e.execute_receipt(W, None, vec![line(SKU_X, i64::MAX)], USER, 1).unwrap_err(),
        v(ValidationError::QuantityOutOfRange)
    );
    assert_eq!(
        e.execute_adjustment(W, SKU_X, AdjustmentReason::Correction, AdjustmentAmount::Change(i64::MIN), None, USER, 1)
            .unwrap_err(),
        v(ValidationError::QuantityOutOfRange)
    );
    assert_eq!(e.execute(0, USER, 1).unwrap_err(), v(ValidationError::UnknownDocument));
    assert_eq!(e.cancel(999, USER, 1).unwrap_err(), v(ValidationError::UnknownDocument));
    assert_eq!(e.discard_draft(999).unwrap_err(), v(ValidationError::UnknownDocument));
    assert_eq!(e.execute(1, USER, 1).unwrap_err(), v(ValidationError::NotDraft));
    let id = e
        .create_draft(Movement::Receipt { warehouse_id: W, lines: vec![line(SKU_X, 1)] }, None, USER, None)
        .unwrap();
    assert_eq!(e.cancel(id, USER, 1).unwrap_err(), v(ValidationError::NotExecuted));
    assert_eq!(e.discard_draft(1).unwrap_err(), v(ValidationError::NotDraft));
    assert_eq!(e.current_balance(SKU_X, W), 10);
    assert_eq!(e.ledger_len(), 1);
}

#[test]
fn adjustment_reasons_parse_by_name() {
    assert_eq!(AdjustmentReason::parse("damage"), Ok(AdjustmentReason::Damage));
    assert_eq!(AdjustmentReason::parse("expiry"), Ok(AdjustmentReason::Expiry));
    assert_eq!(AdjustmentReason::parse("theft"), Ok(AdjustmentReason::Theft));
    assert_eq!(AdjustmentReason::parse("correction"), Ok(AdjustmentReason::Correction));
    assert_eq!(AdjustmentReason::parse("count"), Ok(AdjustmentReason::Count));
    assert_eq!(
        AdjustmentReason::parse("Count"),
        Err(LedgerError::Validation(ValidationError::UnknownReason))
    );
    assert_eq!(
        AdjustmentReason::parse(""),
        Err(LedgerError::Validation(ValidationError::UnknownReason))
    );
}

#[test]
fn adjustment_keeps_its_notes() {
    let mut e = stocked(10);
    let r = e
        .execute_adjustment(W, SKU_X, AdjustmentReason::Expiry, AdjustmentAmount::Change(-2), Some("batch 7".to_string()), USER, 2)
        .unwrap();
    assert_eq!(r.entries[0].notes.as_deref(), Some("batch 7"));
    assert_eq!(r.entries[0].performed_by, USER);
    assert_eq!(r.entries[0].created_at, 2);
    assert_eq!(e.current_balance(SKU_X, W), 8);
}

#[test]
fn history_filters_and_pages() {
    let mut e = MovementEngine::new();
    e.execute_receipt(W, None, vec![line(SKU_X, 10), line(SKU_Y, 10)], USER, 100).unwrap();
    e.execute_delivery(W, None, vec![line(SKU_X, 1)], USER, 200).unwrap();
    e.execute_delivery(W, None, vec![line(SKU_X, 2)], USER, 300).unwrap();
    e.execute_transfer(W, W2, vec![line(SKU_Y, 4)], USER, 400).unwrap();

    let only_x = LedgerFilter { product_id: Some(SKU_X), ..LedgerFilter::all() };
    let ids: Vec<u64> = e.ledger_history(&only_x, 0, usize::MAX).iter().map(|x| x.id).collect();
    assert_eq!(ids, vec![1, 3, 4]);

    let page1: Vec<u64> = e.ledger_history(&only_x, 0, 2).iter().map(|x| x.id).collect();
    assert_eq!(page1, vec![1, 3]);
    let page2: Vec<u64> = e.ledger_history(&only_x, 3, 2).iter().map(|x| x.id).collect();
    assert_eq!(page2, vec![4]);

    let deliveries = LedgerFilter { reference_type: Some(ReferenceType::Delivery), ..LedgerFilter::all() };
    assert_eq!(e.ledger_history(&deliveries, 0, 10).len(), 2);

    let window = LedgerFilter { from_time: Some(200), to_time: Some(300), ..LedgerFilter::all() };
    let ids: Vec<u64> = e.ledger_history(&window, 0, 10).iter().map(|x| x.id).collect();
    assert_eq!(ids, vec![3, 4]);

    let at_w2 = LedgerFilter { warehouse_id: Some(W2), ..LedgerFilter::all() };
    let ids: Vec<u64> = e.ledger_history(&at_w2, 0, 10).iter().map(|x| x.id).collect();
    assert_eq!(ids, vec![6]);
    assert_eq!(e.ledger_history(&LedgerFilter::all(), 0, 0).len(), 0);
}

#[test]
fn current_stock_by_product_and_warehouse() {
    let mut e = MovementEngine::new();
    e.execute_receipt(W, None, vec![line(SKU_X, 10), line(SKU_Y, 20)], USER, 1).unwrap();
    e.execute_receipt(W2, None, vec![line(SKU_X, 5)], USER, 2).unwrap();
    assert_eq!(e.current_stock(None, None).len(), 3);
    let by_w: Vec<(u128, i64)> = e.current_stock(None, Some(W)).iter().map(|b| (b.product_id, b.quantity)).collect();
    assert_eq!(by_w, vec![(SKU_X, 10), (SKU_Y, 20)]);
    let by_p: Vec<(u128, i64)> = e.current_stock(Some(SKU_X), None).iter().map(|b| (b.warehouse_id, b.quantity)).collect();
    assert_eq!(by_p, vec![(W, 10), (W2, 5)]);
    let one = e.current_stock(Some(SKU_Y), Some(W));
    assert_eq!(one.len(), 1);
    assert_eq!(one[0].last_entry_id, 2);
    assert!(!one[0].stale);
}

fn entry(id: u64, change: i64, resulting: i64) -> LedgerEntry {
    LedgerEntry {
        id,
        product_id: SKU_X,
        warehouse_id: W,
        reference_type: ReferenceType::Adjustment,
        reference_id: 1,
        quantity_change: change,
        resulting_balance: resulting,
        performed_by: USER,
        reason: Some(AdjustmentReason::Correction),
        reversal_of: None,
        notes: None,
        created_at: 0,
    }
}

#[test]
fn projector_flags_a_mismatch_until_rebuilt() {
    let mut p = BalanceProjector::new();
    assert_eq!(p.apply_entry(&entry(1, 10, 10)), Ok(10));
    assert_eq!(p.current_balance(SKU_X, W), 10);
    let fault = LedgerError::ConsistencyFault { product_id: SKU_X, warehouse_id: W };
    assert_eq!(p.apply_entry(&entry(2, 5, 99)), Err(fault));
    assert!(p.is_stale(SKU_X, W));
    assert_eq!(p.current_balance(SKU_X, W), 10);
    // refuses further updates while stale, even consistent ones
    assert_eq!(p.apply_entry(&entry(2, 5, 15)), Err(fault));
    assert_eq!(p.current_balance(SKU_X, W), 10);

    let mut ledger = LedgerStore::new();
    let h = EntryHeader {
        reference_type: ReferenceType::Receipt,
        reference_id: 1,
        performed_by: USER,
        reason: None,
        created_at: 0,
    };
    let d = |q| EntryDraft { product_id: SKU_X, warehouse_id: W, quantity_change: q, reversal_of: None };
    ledger.append(h, &None, d(10)).unwrap();
    ledger.append(h, &None, d(5)).unwrap();
    assert_eq!(p.rebuild_key(&ledger, SKU_X, W), Ok(15));
    assert!(!p.is_stale(SKU_X, W));
    assert_eq!(p.balance(SKU_X, W).last_entry_id, 2);
    assert_eq!(p.apply_entry(&entry(3, -15, 0)), Ok(0));
}

#[test]
fn projector_scoped_rebuild_replays_only_its_scope() {
    let mut ledger = LedgerStore::new();
    let h = EntryHeader {
        reference_type: ReferenceType::Receipt,
        reference_id: 1,
        performed_by: USER,
        reason: None,
        created_at: 0,
    };
    let d = |p, w, q| EntryDraft { product_id: p, warehouse_id: w, quantity_change: q, reversal_of: None };
    ledger.append(h, &None, d(SKU_X, W, 10)).unwrap();
    ledger.append(h, &None, d(SKU_Y, W, 4)).unwrap();
    ledger.append(h, &None, d(SKU_X, W2, 6)).unwrap();
    ledger.append(h, &None, d(SKU_X, W, -3)).unwrap();
    assert_eq!(
        ledger.append(h, &None, d(SKU_X, W, -8)).unwrap_err(),
        LedgerError::InsufficientStock { have: 7, requested: 8 }
    );
    assert_eq!(ledger.len(), 4);
    assert_eq!(ledger.replay(SKU_X, W), (7, 4));

    let mut p = BalanceProjector::new();
    assert!(p.rebuild(&ledger, None, Some(W)));
    assert_eq!(p.current_balance(SKU_X, W), 7);
    assert_eq!(p.balance(SKU_X, W).last_entry_id, 4);
    assert_eq!(p.current_balance(SKU_Y, W), 4);
    // out of scope: not rebuilt
    assert_eq!(p.current_balance(SKU_X, W2), 0);
    assert!(p.rebuild(&ledger, Some(SKU_X), None));
    assert_eq!(p.current_balance(SKU_X, W2), 6);
    assert_eq!(p.stock(None, None).len(), 3);
}

#[test]
fn projector_refuses_a_negative_result() {
    let mut p = BalanceProjector::new();
    let fault = LedgerError::ConsistencyFault { product_id: SKU_X, warehouse_id: W };
    assert_eq!(p.apply_entry(&entry(1, -1, -1)), Err(fault));
    assert!(p.is_stale(SKU_X, W));
    assert_eq!(p.current_balance(SKU_X, W), 0);
}

#[test]
fn lock_plan_orders_by_warehouse_then_product() {
    let m = Movement::Transfer { from_warehouse_id: 9, to_warehouse_id: 3, lines: vec![line(5, 1), line(2, 1), line(5, 4)] };
    let keys = lock_plan(&m);
    let expect = vec![
        BalanceKey { product_id: 2, warehouse_id: 3 },
        BalanceKey { product_id: 5, warehouse_id: 3 },
        BalanceKey { product_id: 2, warehouse_id: 9 },
        BalanceKey { product_id: 5, warehouse_id: 9 },
    ];
    assert_eq!(keys, expect);
    let reverse = Movement::Transfer { from_warehouse_id: 3, to_warehouse_id: 9, lines: vec![line(2, 1), line(5, 1)] };
    assert_eq!(lock_plan(&reverse), expect);
    let adj = Movement::Adjustment {
        warehouse_id: 4,
        product_id: 6,
        reason: AdjustmentReason::Count,
        amount: AdjustmentAmount::Counted(0),
    };
    assert_eq!(lock_plan(&adj), vec![BalanceKey { product_id: 6, warehouse_id: 4 }]);
}

fn receipt_req(warehouse_id: i32) -> CreateReceiptRequest {
    CreateReceiptRequest {
        supplier_name: "Acme Supply".to_string(),
        warehouse_id,
        user_id: 9,
        status: Some("draft".to_string()),
    }
}

fn adjustment_req(reason: &str, quantity_change: i32, counted_quantity: Option<i32>) -> CreateAdjustmentRequest {
    CreateAdjustmentRequest {
        product_id: SKU_X as i32,
        warehouse_id: W as i32,
        user_id: 3,
        reason: reason.to_string(),
        quantity_change,
        counted_quantity,
        notes: None,
    }
}

#[test]
fn receipt_request_is_recorded_and_executed() {
    let mut e = MovementEngine::new();
    let r = e.create_receipt(receipt_req(4), vec![line(SKU_X, 100)], 1).unwrap();
    assert_eq!(r.entries.len(), 1);
    assert_eq!(r.entries[0].quantity_change, 100);
    assert_eq!(r.entries[0].resulting_balance, 100);
    assert_eq!(e.current_balance(SKU_X, 4), 100);
    let doc = e.get_document(r.document_id).unwrap();
    assert_eq!(doc.party.as_deref(), Some("Acme Supply"));
    assert_eq!(doc.created_by, 9);
    assert_eq!(e.document_status(r.document_id), Some(DocumentStatus::Executed));
    let bad = CreateReceiptRequest { supplier_name: String::new(), warehouse_id: -1, user_id: 9, status: None };
    assert_eq!(e.create_receipt(bad, vec![line(SKU_X, 1)], 2).unwrap_err(), LedgerError::Validation(ValidationError::InvalidId));
    assert_eq!(
        e.create_receipt(receipt_req(4), vec![line(SKU_X, 0)], 3).unwrap_err(),
        LedgerError::Validation(ValidationError::NonPositiveQuantity)
    );
    assert_eq!(e.current_balance(SKU_X, 4), 100);
}

#[test]
fn scenario_through_requests() {
    let w = W as i32;
    let w2 = W2 as i32;
    let mut e = MovementEngine::new();
    e.create_receipt(receipt_req(w), vec![line(SKU_X, 100)], 10).unwrap();
    assert_eq!(e.current_balance(SKU_X, W), 100);
    let t = CreateTransferRequest { from_warehouse_id: w, to_warehouse_id: w2, user_id: 3, status: None };
    let tr = e.create_transfer(t, vec![line(SKU_X, 30)], 11).unwrap();
    assert_eq!((tr.entries[0].quantity_change, tr.entries[1].quantity_change), (-30, 30));
    assert_eq!(e.current_balance(SKU_X, W), 70);
    assert_eq!(e.current_balance(SKU_X, W2), 30);
    let d = CreateDeliveryRequest { customer_name: "Corner Shop".to_string(), warehouse_id: w, user_id: 3, status: None };
    let before = e.ledger_len();
    assert_eq!(
        e.create_delivery(d, vec![line(SKU_X, 80)], 12).unwrap_err(),
        LedgerError::InsufficientStock { have: 70, requested: 80 }
    );
    assert_eq!(e.current_balance(SKU_X, W), 70);
    assert_eq!(e.ledger_len(), before);
    let a = e.create_adjustment(adjustment_req("count", 0, Some(65)), 13).unwrap();
    assert_eq!(a.entries[0].quantity_change, -5);
    assert_eq!(a.entries[0].reason, Some(AdjustmentReason::Count));
    assert_eq!(e.current_balance(SKU_X, W), 65);
}

#[test]
fn delivery_and_adjustment_requests_check_stock() {
    let mut e = stocked(50);
    let d = CreateDeliveryRequest { customer_name: "Corner Shop".to_string(), warehouse_id: 1, user_id: 3, status: None };
    let r = e.create_delivery(d, vec![line(SKU_X, 50)], 2).unwrap();
    assert_eq!(r.entries[0].resulting_balance, 0);
    assert_eq!(e.get_document(r.document_id).unwrap().party.as_deref(), Some("Corner Shop"));
    assert_eq!(
        e.create_adjustment(adjustment_req("damage", -1, None), 3).unwrap_err(),
        LedgerError::InsufficientStock { have: 0, requested: 1 }
    );
    let ok = e.create_adjustment(adjustment_req("correction", 4, None), 4).unwrap();
    assert_eq!(ok.entries[0].quantity_change, 4);
    assert_eq!(e.current_balance(SKU_X, W), 4);
    assert_eq!(
        e.create_adjustment(adjustment_req("lost", -1, None), 5).unwrap_err(),
        LedgerError::Validation(ValidationError::UnknownReason)
    );
    assert_eq!(
        e.create_adjustment(adjustment_req("damage", 2, Some(1)), 6).unwrap_err(),
        LedgerError::Validation(ValidationError::CountedWithoutCountReason)
    );
    let t = CreateTransferRequest { from_warehouse_id: 1, to_warehouse_id: 1, user_id: 3, status: None };
    assert_eq!(
        e.create_transfer(t, vec![line(SKU_X, 1)], 7).unwrap_err(),
        LedgerError::Validation(ValidationError::SameWarehouse)
    );
}

#[test]
fn draft_headers_can_be_updated() {
    let mut e = MovementEngine::new();
    let id = e
        .create_draft(Movement::Receipt { warehouse_id: W, lines: vec![line(SKU_X, 3)] }, None, USER, None)
        .unwrap();
    let u = UpdateReceiptRequest { supplier_name: Some("Beta".to_string()), warehouse_id: Some(2), user_id: None, status: None };
    assert_eq!(e.update_receipt(id, u), Ok(()));
    let doc = e.get_document(id).unwrap();
    assert_eq!(doc.party.as_deref(), Some("Beta"));
    assert_eq!(doc.created_by, USER);
    assert!(matches!(doc.movement, Movement::Receipt { warehouse_id: 2, .. }));
    let wrong = UpdateDeliveryRequest { customer_name: None, warehouse_id: None, user_id: None, status: None };
    assert_eq!(e.update_delivery(id, wrong), Err(LedgerError::Validation(ValidationError::WrongDocumentKind)));
    e.execute(id, USER, 1).unwrap();
    assert_eq!(e.current_balance(SKU_X, 2), 3);
    let late = UpdateReceiptRequest { supplier_name: None, warehouse_id: None, user_id: None, status: None };
    assert_eq!(e.update_receipt(id, late), Err(LedgerError::Validation(ValidationError::NotDraft)));

    let tid = e
        .create_draft(Movement::Transfer { from_warehouse_id: 2, to_warehouse_id: 5, lines: vec![line(SKU_X, 1)] }, None, USER, None)
        .unwrap();
    let tu = UpdateTransferRequest { from_warehouse_id: None, to_warehouse_id: Some(-3), user_id: None, status: None };
    assert_eq!(e.update_transfer(tid, tu), Err(LedgerError::Validation(ValidationError::InvalidId)));
    let tu = UpdateTransferRequest { from_warehouse_id: None, to_warehouse_id: Some(6), user_id: Some(8), status: None };
    assert_eq!(e.update_transfer(tid, tu), Ok(()));
    e.execute(tid, USER, 2).unwrap();
    assert_eq!(e.current_balance(SKU_X, 6), 1);

    let aid = e
        .create_draft(
            Movement::Adjustment { warehouse_id: 2, product_id: SKU_X, reason: AdjustmentReason::Count, amount: AdjustmentAmount::Counted(0) },
            None,
            USER,
            None,
        )
        .unwrap();
    let bad = UpdateAdjustmentRequest { reason: Some("x".to_string()), quantity_change: None, notes: None };
    assert_eq!(e.update_adjustment(aid, bad), Err(LedgerError::Validation(ValidationError::UnknownReason)));
    let au = UpdateAdjustmentRequest { reason: Some("theft".to_string()), quantity_change: Some(-1), notes: Some("n".to_string()) };
    assert_eq!(e.update_adjustment(aid, au), Ok(()));
    let out = e.execute(aid, USER, 3).unwrap();
    assert_eq!(out[0].quantity_change, -1);
    assert_eq!(out[0].reason, Some(AdjustmentReason::Theft));
    assert_eq!(out[0].notes.as_deref(), Some("n"));

    let did = e
        .create_draft(Movement::Delivery { warehouse_id: 2, lines: vec![line(SKU_X, 1)] }, None, USER, None)
        .unwrap();
    let du = UpdateDeliveryRequest { customer_name: Some("C".to_string()), warehouse_id: None, user_id: Some(4), status: None };
    assert_eq!(e.update_delivery(did, du), Ok(()));
    assert_eq!(e.get_document(did).unwrap().party.as_deref(), Some("C"));
    assert_eq!(e.get_document(did).unwrap().created_by, 4);
}

#[test]
fn deleting_a_document_keeps_its_entries() {
    let mut e = MovementEngine::new();
    let r = e.execute_receipt(W, None, vec![line(SKU_X, 12)], USER, 1).unwrap();
    assert_eq!(e.delete_document(r.document_id), Ok(()));
    assert_eq!(e.document_status(r.document_id), None);
    assert!(e.get_document(r.document_id).is_none());
    assert_eq!(e.ledger_len(), 1);
    assert_eq!(e.current_balance(SKU_X, W), 12);
    assert_eq!(e.delete_document(r.document_id), Err(LedgerError::Validation(ValidationError::UnknownDocument)));
    assert_eq!(
        e.cancel(r.document_id, USER, 2).unwrap_err(),
        LedgerError::Validation(ValidationError::UnknownDocument)
    );
}
