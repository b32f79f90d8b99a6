//! Plain data types shared by the ledger, the projector and the engine.
//!
//! Quantities are exact: an `i64` counts thousandths of the product's unit of
//! measure (so `1` is 0.001 kg for a product kept in kilograms).
use vstd::prelude::*;

verus! {

/// Number of decimal places that a quantity carries.
pub const QUANTITY_SCALE: u32 = 3;

/// Identifies a (product, warehouse) balance.
#[derive(Clone, Copy, Debug, PartialEq, Eq, Structural)]
pub struct BalanceKey {
    pub product_id: u128,
    pub warehouse_id: u128,
}

/// The kind of document that produced a ledger entry.
#[derive(Clone, Copy, Debug, PartialEq, Eq, Structural)]
pub enum ReferenceType {
    Receipt,
    Delivery,
    Transfer,
    Adjustment,
}

/// Why a manual adjustment was made.
#[derive(Clone, Copy, Debug, PartialEq, Eq, Structural)]
pub enum AdjustmentReason {
    Damage,
    Expiry,
    Theft,
    Correction,
    Count,
}

/// Ways an input can be malformed or a lifecycle transition illegal.
#[derive(Clone, Copy, Debug, PartialEq, Eq, Structural)]
pub enum ValidationError {
    /// A document without line items.
    NoLines,
    /// A receipt, delivery or transfer line whose quantity is not positive.
    NonPositiveQuantity,
    /// A transfer whose source and destination are the same warehouse.
    SameWarehouse,
    /// An adjustment reason outside the known set.
    UnknownReason,
    /// A counted quantity given for an adjustment whose reason is not `count`.
    CountedWithoutCountReason,
    /// A negative counted quantity.
    NegativeCount,
    /// A balance or change that does not fit the quantity range.
    QuantityOutOfRange,
    /// No document has the given id.
    UnknownDocument,
    /// The document is not a draft, so it cannot be executed or discarded.
    NotDraft,
    /// The document has not been executed, so there is nothing to reverse.
    NotExecuted,
    /// The document was cancelled already.
    AlreadyCancelled,
    /// A negative id in a request.
    InvalidId,
    /// An update names a document of another kind.
    WrongDocumentKind,
}

/// Errors of the ledger and of the movement engine.
#[derive(Clone, Copy, Debug, PartialEq, Eq, Structural)]
pub enum LedgerError {
    /// Bad input shape or an illegal transition; never retried automatically.
    Validation(ValidationError),
    /// The movement would take a balance below zero.
    InsufficientStock { have: i64, requested: i64 },
    /// The projected balance disagrees with the ledger for this key.
    ConsistencyFault { product_id: u128, warehouse_id: u128 },
    /// The ledger has numbered as many entries as an id can tell apart.
    CapacityExhausted,
}

/// One immutable fact: a change of stock at a (product, warehouse) pair.
#[derive(Clone, Debug)]
pub struct LedgerEntry {
    /// Position in the ledger, counting from 1.
    pub id: u64,
    pub product_id: u128,
    pub warehouse_id: u128,
    pub reference_type: ReferenceType,
    /// The document that produced the entry.
    pub reference_id: u64,
    pub quantity_change: i64,
    /// The balance of the pair right after this entry.
    pub resulting_balance: i64,
    pub performed_by: u128,
    /// Set on entries of an adjustment.
    pub reason: Option<AdjustmentReason>,
    /// Set on a compensating entry: the id of the entry it negates.
    pub reversal_of: Option<u64>,
    pub notes: Option<String>,
    /// Milliseconds since the Unix epoch.
    pub created_at: i64,
}

/// What a movement asks of one balance, before the ledger numbers it.
#[derive(Clone, Copy, Debug, PartialEq, Eq, Structural)]
pub struct EntryDraft {
    pub product_id: u128,
    pub warehouse_id: u128,
    pub quantity_change: i64,
    pub reversal_of: Option<u64>,
}

/// Fields shared by all entries that one movement appends.
#[derive(Clone, Copy, Debug, PartialEq, Eq, Structural)]
pub struct EntryHeader {
    pub reference_type: ReferenceType,
    pub reference_id: u64,
    pub performed_by: u128,
    pub reason: Option<AdjustmentReason>,
    pub created_at: i64,
}

/// The projected quantity of one (product, warehouse) pair.
#[derive(Clone, Copy, Debug, PartialEq, Eq, Structural)]
pub struct StockBalance {
    pub product_id: u128,
    pub warehouse_id: u128,
    pub quantity: i64,
    /// Id of the last ledger entry folded into `quantity` (0 before any).
    pub last_entry_id: u64,
    /// Set when a consistency fault was found for this key; cleared by a rebuild.
    pub stale: bool,
}

/// Copies optional notes; the copy equals the original.
pub fn copy_notes(notes: &Option<String>) -> (r: Option<String>)
    ensures
        r == *notes,
{
    match notes {
        Some(s) => Some(s.clone()),
        None => None,
    }
}

impl LedgerEntry {
    /// A field-for-field copy of the entry.
    pub fn duplicate(&self) -> (r: LedgerEntry)
        ensures
            r == *self,
    {
        LedgerEntry {
            id: self.id,
            product_id: self.product_id,
            warehouse_id: self.warehouse_id,
            reference_type: self.reference_type,
            reference_id: self.reference_id,
            quantity_change: self.quantity_change,
            resulting_balance: self.resulting_balance,
            performed_by: self.performed_by,
            reason: self.reason,
            reversal_of: self.reversal_of,
            notes: copy_notes(&self.notes),
            created_at: self.created_at,
        }
    }
}

impl AdjustmentReason {
    /// Reads a reason from its lower-case name.
    pub fn parse(s: &str) -> (r: Result<AdjustmentReason, LedgerError>)
        ensures
            r == (match AdjustmentReason::parse_spec(s@) {
                Some(reason) => Ok::<AdjustmentReason, LedgerError>(reason),
                None => Err(LedgerError::Validation(ValidationError::UnknownReason)),
            }),
    {
        proof {
            reveal_strlit("damage");
            reveal_strlit("expiry");
            reveal_strlit("theft");
            reveal_strlit("correction");
            reveal_strlit("count");
        }
        if str_eq(s, "damage") {
            Ok(AdjustmentReason::Damage)
        } else if str_eq(s, "expiry") {
            Ok(AdjustmentReason::Expiry)
        } else if str_eq(s, "theft") {
            Ok(AdjustmentReason::Theft)
        } else if str_eq(s, "correction") {
            Ok(AdjustmentReason::Correction)
        } else if str_eq(s, "count") {
            Ok(AdjustmentReason::Count)
        } else {
            Err(LedgerError::Validation(ValidationError::UnknownReason))
        }
    }

    /// The reason that `s` names, if any.
    pub open spec fn parse_spec(s: Seq<char>) -> Option<AdjustmentReason> {
        if s == "damage"@ {
            Some(AdjustmentReason::Damage)
        } else if s == "expiry"@ {
            Some(AdjustmentReason::Expiry)
        } else if s == "theft"@ {
            Some(AdjustmentReason::Theft)
        } else if s == "correction"@ {
            Some(AdjustmentReason::Correction)
        } else if s == "count"@ {
            Some(AdjustmentReason::Count)
        } else {
            None
        }
    }
}

/// Character-wise equality of two strings.
pub fn str_eq(a: &str, b: &str) -> (r: bool)
    ensures
        r == (a@ == b@),
{
    let n = a.unicode_len();
    if n != b.unicode_len() {
        return false;
    }
    let mut i: usize = 0;
    while i < n
        invariant
            n == a@.len(),
            n == b@.len(),
            0 <= i <= n,
            forall|j: int| 0 <= j < i ==> a@[j] == b@[j],
        decreases n - i,
    {
        if a.get_char(i) != b.get_char(i) {
            return false;
        }
        i = i + 1;
    }
    proof {
        assert(a@ =~= b@);
    }
    true
}

} // verus!
