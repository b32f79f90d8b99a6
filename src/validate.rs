//! Movement documents and the validators that turn them into entry drafts.
//!
//! A validator is pure: it reads a movement (and, for a stock count, the
//! balance it reconciles) and yields either the drafts of the entries that
//! the movement asks for or the validation error that rules it out.
use vstd::prelude::*;
use crate::ledger::draft_problem;
use crate::types::{AdjustmentReason, EntryDraft, LedgerError, ReferenceType, ValidationError};

verus! {

/// One line item of a document: a product and a positive quantity.
#[derive(Clone, Copy, Debug, PartialEq, Eq, Structural)]
pub struct MovementLine {
    pub product_id: u128,
    pub quantity: i64,
    /// For received goods that perish: the expiry date, as days since
    /// 1970-01-01. Kept with the document; it does not affect balances.
    pub expiry_date: Option<i32>,
}

/// What an adjustment states: a signed change, or a counted quantity that
/// the balance is reconciled to.
#[derive(Clone, Copy, Debug, PartialEq, Eq, Structural)]
pub enum AdjustmentAmount {
    Change(i64),
    Counted(i64),
}

/// A stock movement document's content.
#[derive(Clone, Debug)]
pub enum Movement {
    /// Goods come into a warehouse.
    Receipt { warehouse_id: u128, lines: Vec<MovementLine> },
    /// Goods leave a warehouse.
    Delivery { warehouse_id: u128, lines: Vec<MovementLine> },
    /// Goods move from one warehouse to another.
    Transfer { from_warehouse_id: u128, to_warehouse_id: u128, lines: Vec<MovementLine> },
    /// A manual correction of one balance.
    Adjustment {
        warehouse_id: u128,
        product_id: u128,
        reason: AdjustmentReason,
        amount: AdjustmentAmount,
    },
}

impl Movement {
    pub open spec fn kind(&self) -> ReferenceType {
        match self {
            Movement::Receipt { .. } => ReferenceType::Receipt,
            Movement::Delivery { .. } => ReferenceType::Delivery,
            Movement::Transfer { .. } => ReferenceType::Transfer,
            Movement::Adjustment { .. } => ReferenceType::Adjustment,
        }
    }

    pub open spec fn reason(&self) -> Option<AdjustmentReason> {
        match self {
            Movement::Adjustment { reason, .. } => Some(*reason),
            _ => None,
        }
    }

    /// The pair whose current balance a stock count reconciles.
    pub open spec fn counted_pair(&self) -> (u128, u128) {
        match self {
            Movement::Adjustment { warehouse_id, product_id, .. } => (*product_id, *warehouse_id),
            _ => (0, 0),
        }
    }

    /// The reference type of the entries the movement produces.
    pub fn reference_type(&self) -> (r: ReferenceType)
        ensures
            r == self.kind(),
    {
        match self {
            Movement::Receipt { .. } => ReferenceType::Receipt,
            Movement::Delivery { .. } => ReferenceType::Delivery,
            Movement::Transfer { .. } => ReferenceType::Transfer,
            Movement::Adjustment { .. } => ReferenceType::Adjustment,
        }
    }

    /// The adjustment reason, for an adjustment.
    pub fn adjustment_reason(&self) -> (r: Option<AdjustmentReason>)
        ensures
            r == self.reason(),
    {
        match self {
            Movement::Adjustment { reason, .. } => Some(*reason),
            _ => None,
        }
    }

    /// The (product, warehouse) pair that a stock count reconciles.
    pub fn counted_key(&self) -> (r: (u128, u128))
        ensures
            r == self.counted_pair(),
    {
        match self {
            Movement::Adjustment { warehouse_id, product_id, .. } => (*product_id, *warehouse_id),
            _ => (0, 0),
        }
    }
}

pub open spec fn all_positive(lines: Seq<MovementLine>) -> bool {
    forall|i: int| 0 <= i < lines.len() ==> lines[i].quantity > 0
}

pub open spec fn simple_draft(p: u128, w: u128, change: i64) -> EntryDraft {
    EntryDraft { product_id: p, warehouse_id: w, quantity_change: change, reversal_of: None }
}

/// One draft per line at warehouse `w`: `+quantity` when `inbound`, else
/// `-quantity`.
pub open spec fn line_drafts(lines: Seq<MovementLine>, w: u128, inbound: bool) -> Seq<EntryDraft>
    decreases lines.len(),
{
    if lines.len() == 0 {
        Seq::empty()
    } else {
        let l = lines.last();
        line_drafts(lines.drop_last(), w, inbound).push(
            simple_draft(
                l.product_id,
                w,
                if inbound {
                    l.quantity
                } else {
                    (-l.quantity) as i64
                },
            ),
        )
    }
}

/// Two drafts per line: `-quantity` at the source, then `+quantity` at the
/// destination.
pub open spec fn transfer_drafts(lines: Seq<MovementLine>, from: u128, to: u128) -> Seq<EntryDraft>
    decreases lines.len(),
{
    if lines.len() == 0 {
        Seq::empty()
    } else {
        let l = lines.last();
        transfer_drafts(lines.drop_last(), from, to).push(
            simple_draft(l.product_id, from, (-l.quantity) as i64),
        ).push(simple_draft(l.product_id, to, l.quantity))
    }
}

/// What validation makes of a movement, given `counted_have`, the current
/// balance of the pair that a stock count reconciles.
pub open spec fn movement_plan(m: Movement, counted_have: int) -> Result<
    Seq<EntryDraft>,
    LedgerError,
> {
    match m {
        Movement::Receipt { warehouse_id, lines } => if lines@.len() == 0 {
            Err(LedgerError::Validation(ValidationError::NoLines))
        } else if !all_positive(lines@) {
            Err(LedgerError::Validation(ValidationError::NonPositiveQuantity))
        } else {
            Ok(line_drafts(lines@, warehouse_id, true))
        },
        Movement::Delivery { warehouse_id, lines } => if lines@.len() == 0 {
            Err(LedgerError::Validation(ValidationError::NoLines))
        } else if !all_positive(lines@) {
            Err(LedgerError::Validation(ValidationError::NonPositiveQuantity))
        } else {
            Ok(line_drafts(lines@, warehouse_id, false))
        },
        Movement::Transfer { from_warehouse_id, to_warehouse_id, lines } => if from_warehouse_id
            == to_warehouse_id {
            Err(LedgerError::Validation(ValidationError::SameWarehouse))
        } else if lines@.len() == 0 {
            Err(LedgerError::Validation(ValidationError::NoLines))
        } else if !all_positive(lines@) {
            Err(LedgerError::Validation(ValidationError::NonPositiveQuantity))
        } else {
            Ok(transfer_drafts(lines@, from_warehouse_id, to_warehouse_id))
        },
        Movement::Adjustment { warehouse_id, product_id, reason, amount } => match amount {
            AdjustmentAmount::Change(c) => Ok(seq![simple_draft(product_id, warehouse_id, c)]),
            AdjustmentAmount::Counted(n) => if reason != AdjustmentReason::Count {
                Err(LedgerError::Validation(ValidationError::CountedWithoutCountReason))
            } else if n < 0 {
                Err(LedgerError::Validation(ValidationError::NegativeCount))
            } else {
                Ok(seq![simple_draft(product_id, warehouse_id, (n - counted_have) as i64)])
            },
        },
    }
}

/// Checks that every line has a positive quantity.
pub fn check_lines(lines: &Vec<MovementLine>) -> (r: Result<(), LedgerError>)
    ensures
        r is Ok <==> lines@.len() > 0 && all_positive(lines@),
        r is Err ==> r == Err::<(), LedgerError>(
            LedgerError::Validation(
                if lines@.len() == 0 {
                    ValidationError::NoLines
                } else {
                    ValidationError::NonPositiveQuantity
                },
            ),
        ),
{
    if lines.len() == 0 {
        return Err(LedgerError::Validation(ValidationError::NoLines));
    }
    let mut i: usize = 0;
    while i < lines.len()
        invariant
            0 <= i <= lines@.len(),
            forall|j: int| 0 <= j < i ==> lines@[j].quantity > 0,
        decreases lines@.len() - i,
    {
        if lines[i].quantity <= 0 {
            return Err(LedgerError::Validation(ValidationError::NonPositiveQuantity));
        }
        i = i + 1;
    }
    Ok(())
}

/// The drafts of a receipt (`inbound`) or a delivery at warehouse `w`.
pub fn build_line_drafts(lines: &Vec<MovementLine>, w: u128, inbound: bool) -> (r: Vec<EntryDraft>)
    requires
        all_positive(lines@),
    ensures
        r@ == line_drafts(lines@, w, inbound),
{
    let mut out: Vec<EntryDraft> = Vec::new();
    let mut i: usize = 0;
    while i < lines.len()
        invariant
            0 <= i <= lines@.len(),
            all_positive(lines@),
            out@ == line_drafts(lines@.take(i as int), w, inbound),
        decreases lines@.len() - i,
    {
        let l = lines[i];
        proof {
            assert(lines@.take(i as int + 1).drop_last() =~= lines@.take(i as int));
            assert(l.quantity > 0);
        }
        let change = if inbound {
            l.quantity
        } else {
            -l.quantity
        };
        out.push(
            EntryDraft {
                product_id: l.product_id,
                warehouse_id: w,
                quantity_change: change,
                reversal_of: None,
            },
        );
        i = i + 1;
    }
    proof {
        assert(lines@.take(lines@.len() as int) =~= lines@);
    }
    out
}

/// The drafts of a transfer: for each line, source then destination.
pub fn build_transfer_drafts(lines: &Vec<MovementLine>, from: u128, to: u128) -> (r: Vec<
    EntryDraft,
>)
    requires
        all_positive(lines@),
    ensures
        r@ == transfer_drafts(lines@, from, to),
{
    let mut out: Vec<EntryDraft> = Vec::new();
    let mut i: usize = 0;
    while i < lines.len()
        invariant
            0 <= i <= lines@.len(),
            all_positive(lines@),
            out@ == transfer_drafts(lines@.take(i as int), from, to),
        decreases lines@.len() - i,
    {
        let l = lines[i];
        proof {
            assert(lines@.take(i as int + 1).drop_last() =~= lines@.take(i as int));
            assert(l.quantity > 0);
        }
        out.push(
            EntryDraft {
                product_id: l.product_id,
                warehouse_id: from,
                quantity_change: -l.quantity,
                reversal_of: None,
            },
        );
        out.push(
            EntryDraft {
                product_id: l.product_id,
                warehouse_id: to,
                quantity_change: l.quantity,
                reversal_of: None,
            },
        );
        i = i + 1;
    }
    proof {
        assert(lines@.take(lines@.len() as int) =~= lines@);
    }
    out
}

/// Validates a movement and yields its drafts; `counted_have` is the
/// current balance of the pair that a stock count reconciles.
pub fn plan_movement(m: &Movement, counted_have: i64) -> (r: Result<Vec<EntryDraft>, LedgerError>)
    requires
        counted_have >= 0,
    ensures
        match movement_plan(*m, counted_have as int) {
            Ok(ds) => r is Ok && r->Ok_0@ == ds,
            Err(e) => r == Err::<Vec<EntryDraft>, LedgerError>(e),
        },
{
    match m {
        Movement::Receipt { warehouse_id, lines } => {
            check_lines(lines)?;
            Ok(build_line_drafts(lines, *warehouse_id, true))
        },
        Movement::Delivery { warehouse_id, lines } => {
            check_lines(lines)?;
            Ok(build_line_drafts(lines, *warehouse_id, false))
        },
        Movement::Transfer { from_warehouse_id, to_warehouse_id, lines } => {
            if *from_warehouse_id == *to_warehouse_id {
                return Err(LedgerError::Validation(ValidationError::SameWarehouse));
            }
            check_lines(lines)?;
            Ok(build_transfer_drafts(lines, *from_warehouse_id, *to_warehouse_id))
        },
        Movement::Adjustment { warehouse_id, product_id, reason, amount } => {
            let change = match amount {
                AdjustmentAmount::Change(c) => *c,
                AdjustmentAmount::Counted(n) => {
                    match reason {
                        AdjustmentReason::Count => {},
                        _ => {
                            return Err(
                                LedgerError::Validation(ValidationError::CountedWithoutCountReason),
                            );
                        },
                    }
                    if *n < 0 {
                        return Err(LedgerError::Validation(ValidationError::NegativeCount));
                    }
                    *n - counted_have
                },
            };
            let mut v: Vec<EntryDraft> = Vec::new();
            v.push(
                EntryDraft {
                    product_id: *product_id,
                    warehouse_id: *warehouse_id,
                    quantity_change: change,
                    reversal_of: None,
                },
            );
            proof {
                assert(v@ =~= seq![simple_draft(*product_id, *warehouse_id, change)]);
            }
            Ok(v)
        },
    }
}

/// Why a draft cannot be applied to a balance of `have`, if it cannot:
/// a change that cannot be negated, a result below zero, or one out of range.
pub fn check_draft(have: i64, d: &EntryDraft) -> (r: Option<LedgerError>)
    requires
        have >= 0,
    ensures
        r == draft_problem(have as int, *d),
{
    if d.quantity_change == i64::MIN {
        Some(LedgerError::Validation(ValidationError::QuantityOutOfRange))
    } else if d.quantity_change < 0 && have < -d.quantity_change {
        Some(LedgerError::InsufficientStock { have, requested: -d.quantity_change })
    } else if d.quantity_change > 0 && have > i64::MAX - d.quantity_change {
        Some(LedgerError::Validation(ValidationError::QuantityOutOfRange))
    } else {
        None
    }
}

} // verus!
