//! Request bodies of the surrounding API, and what the movement requests do:
//! a create request records its document and executes it at once; an
//! update request edits the header of a draft. The category, product, user
//! and warehouse requests belong to the catalog around the ledger and are
//! carried here as data only.
use vstd::prelude::*;
use crate::engine::{
    Document, DocumentStatus, MovementEngine, MovementResult, recorded_and_executed,
};
use crate::types::{AdjustmentReason, LedgerError, ReferenceType, ValidationError};
use crate::validate::{AdjustmentAmount, Movement, MovementLine};

verus! {

#[derive(Clone, Debug)]
pub struct CreateAdjustmentRequest {
    pub product_id: i32,
    pub warehouse_id: i32,
    pub user_id: i32,
    /// One of damage, expiry, theft, correction, count.
    pub reason: String,
    pub quantity_change: i32,
    /// For a stock count: the quantity counted on the shelf. When set, the
    /// change is what reconciles the balance to it, and `quantity_change`
    /// is not used.
    pub counted_quantity: Option<i32>,
    pub notes: Option<String>,
}

#[derive(Clone, Debug)]
pub struct UpdateAdjustmentRequest {
    pub reason: Option<String>,
    pub quantity_change: Option<i32>,
    pub notes: Option<String>,
}

#[derive(Clone, Debug)]
pub struct CreateCategoryRequest {
    pub name: String,
}

#[derive(Clone, Debug)]
pub struct UpdateCategoryRequest {
    pub name: Option<String>,
}

#[derive(Clone, Debug)]
pub struct CreateDeliveryRequest {
    pub customer_name: String,
    pub warehouse_id: i32,
    pub user_id: i32,
    pub status: Option<String>,
}

#[derive(Clone, Debug)]
pub struct UpdateDeliveryRequest {
    pub customer_name: Option<String>,
    pub warehouse_id: Option<i32>,
    pub user_id: Option<i32>,
    pub status: Option<String>,
}

#[derive(Clone, Debug)]
pub struct CreateProductRequest {
    pub sku: String,
    pub name: String,
    pub category_id: Option<i32>,
    pub unit_of_measure: String,
    pub reorder_threshold: i32,
}

#[derive(Clone, Debug)]
pub struct UpdateProductRequest {
    pub name: Option<String>,
    pub category_id: Option<i32>,
    pub unit_of_measure: Option<String>,
    pub reorder_threshold: Option<i32>,
}

#[derive(Clone, Debug)]
pub struct CreateReceiptRequest {
    pub supplier_name: String,
    pub warehouse_id: i32,
    pub user_id: i32,
    pub status: Option<String>,
}

#[derive(Clone, Debug)]
pub struct UpdateReceiptRequest {
    pub supplier_name: Option<String>,
    pub warehouse_id: Option<i32>,
    pub user_id: Option<i32>,
    pub status: Option<String>,
}

#[derive(Clone, Debug)]
pub struct CreateTransferRequest {
    pub from_warehouse_id: i32,
    pub to_warehouse_id: i32,
    pub user_id: i32,
    pub status: Option<String>,
}

#[derive(Clone, Debug)]
pub struct UpdateTransferRequest {
    pub from_warehouse_id: Option<i32>,
    pub to_warehouse_id: Option<i32>,
    pub user_id: Option<i32>,
    pub status: Option<String>,
}

#[derive(Clone, Debug)]
pub struct CreateUserRequest {
    pub name: String,
    pub email: String,
    pub password: String,
}

#[derive(Clone, Debug)]
pub struct UpdateUserRequest {
    pub name: Option<String>,
    pub email: Option<String>,
    pub password: Option<String>,
}

#[derive(Clone, Debug)]
pub struct CreateWarehouseRequest {
    pub name: String,
    pub location: Option<String>,
}

#[derive(Clone, Debug)]
pub struct UpdateWarehouseRequest {
    pub name: Option<String>,
    pub location: Option<String>,
}

/// The id that a request's integer names.
pub fn id_from(x: i32) -> (r: Result<u128, LedgerError>)
    ensures
        x >= 0 ==> r == Ok::<u128, LedgerError>(x as u128),
        x < 0 ==> r == Err::<u128, LedgerError>(LedgerError::Validation(ValidationError::InvalidId)),
{
    if x < 0 {
        Err(LedgerError::Validation(ValidationError::InvalidId))
    } else {
        Ok(x as u128)
    }
}

impl CreateAdjustmentRequest {
    /// The adjustment that the request asks for: a counted quantity when one
    /// is given, else the change. Quantities count thousandths of the unit,
    /// as every quantity here does.
    pub open spec fn requested(&self) -> Result<Movement, LedgerError> {
        if self.product_id < 0 || self.warehouse_id < 0 {
            Err(LedgerError::Validation(ValidationError::InvalidId))
        } else {
            match AdjustmentReason::parse_spec(self.reason@) {
                Some(reason) => Ok(
                    Movement::Adjustment {
                        warehouse_id: self.warehouse_id as u128,
                        product_id: self.product_id as u128,
                        reason,
                        amount: match self.counted_quantity {
                            Some(n) => AdjustmentAmount::Counted(n as i64),
                            None => AdjustmentAmount::Change(self.quantity_change as i64),
                        },
                    },
                ),
                None => Err(LedgerError::Validation(ValidationError::UnknownReason)),
            }
        }
    }

    /// The adjustment that the request asks for: see [`Self::requested`].
    pub fn movement(&self) -> (r: Result<Movement, LedgerError>)
        ensures
            r == self.requested(),
    {
        let product_id = id_from(self.product_id)?;
        let warehouse_id = id_from(self.warehouse_id)?;
        let reason = AdjustmentReason::parse(self.reason.as_str())?;
        let amount = match self.counted_quantity {
            Some(n) => AdjustmentAmount::Counted(n as i64),
            None => AdjustmentAmount::Change(self.quantity_change as i64),
        };
        Ok(Movement::Adjustment { warehouse_id, product_id, reason, amount })
    }
}

impl MovementEngine {
    /// Records the receipt that the request describes (its supplier,
    /// warehouse and author, with the given lines) and executes it at once:
    /// see [`recorded_and_executed`]. A new document starts as a draft
    /// whatever status the request carries; it stays one if it is rejected.
    pub fn create_receipt(
        &mut self,
        req: CreateReceiptRequest,
        lines: Vec<MovementLine>,
        now: i64,
    ) -> (r: Result<MovementResult, LedgerError>)
        requires
            old(self).wf(),
        ensures
            final(self).wf(),
            req.warehouse_id < 0 || req.user_id < 0 ==> r == Err::<MovementResult, LedgerError>(
                LedgerError::Validation(ValidationError::InvalidId),
            ) && *final(self) == *old(self),
            req.warehouse_id >= 0 && req.user_id >= 0 ==> recorded_and_executed(
                *old(self),
                *final(self),
                Movement::Receipt { warehouse_id: req.warehouse_id as u128, lines },
                Some(req.supplier_name),
                req.user_id as u128,
                None,
                now,
                r,
            ),
    {
        let warehouse_id = id_from(req.warehouse_id)?;
        let user_id = id_from(req.user_id)?;
        self.execute_movement(
            Movement::Receipt { warehouse_id, lines },
            Some(req.supplier_name),
            user_id,
            None,
            now,
        )
    }

    /// Records the delivery that the request describes (its customer,
    /// warehouse and author, with the given lines) and executes it at once.
    pub fn create_delivery(
        &mut self,
        req: CreateDeliveryRequest,
        lines: Vec<MovementLine>,
        now: i64,
    ) -> (r: Result<MovementResult, LedgerError>)
        requires
            old(self).wf(),
        ensures
            final(self).wf(),
            req.warehouse_id < 0 || req.user_id < 0 ==> r == Err::<MovementResult, LedgerError>(
                LedgerError::Validation(ValidationError::InvalidId),
            ) && *final(self) == *old(self),
            req.warehouse_id >= 0 && req.user_id >= 0 ==> recorded_and_executed(
                *old(self),
                *final(self),
                Movement::Delivery { warehouse_id: req.warehouse_id as u128, lines },
                Some(req.customer_name),
                req.user_id as u128,
                None,
                now,
                r,
            ),
    {
        let warehouse_id = id_from(req.warehouse_id)?;
        let user_id = id_from(req.user_id)?;
        self.execute_movement(
            Movement::Delivery { warehouse_id, lines },
            Some(req.customer_name),
            user_id,
            None,
            now,
        )
    }

    /// Records the transfer that the request describes, with the given
    /// lines, and executes it at once.
    pub fn create_transfer(
        &mut self,
        req: CreateTransferRequest,
        lines: Vec<MovementLine>,
        now: i64,
    ) -> (r: Result<MovementResult, LedgerError>)
        requires
            old(self).wf(),
        ensures
            final(self).wf(),
            req.from_warehouse_id < 0 || req.to_warehouse_id < 0 || req.user_id < 0 ==> r == Err::<
                MovementResult,
                LedgerError,
            >(LedgerError::Validation(ValidationError::InvalidId)) && *final(self) == *old(self),
            req.from_warehouse_id >= 0 && req.to_warehouse_id >= 0 && req.user_id >= 0
                ==> recorded_and_executed(
                *old(self),
                *final(self),
                Movement::Transfer {
                    from_warehouse_id: req.from_warehouse_id as u128,
                    to_warehouse_id: req.to_warehouse_id as u128,
                    lines,
                },
                None,
                req.user_id as u128,
                None,
                now,
                r,
            ),
    {
        let from_warehouse_id = id_from(req.from_warehouse_id)?;
        let to_warehouse_id = id_from(req.to_warehouse_id)?;
        let user_id = id_from(req.user_id)?;
        self.execute_movement(
            Movement::Transfer { from_warehouse_id, to_warehouse_id, lines },
            None,
            user_id,
            None,
            now,
        )
    }

    /// Records the adjustment that the request describes, a change or a
    /// stock count, with its notes, and executes it at once.
    pub fn create_adjustment(&mut self, req: CreateAdjustmentRequest, now: i64) -> (r: Result<
        MovementResult,
        LedgerError,
    >)
        requires
            old(self).wf(),
        ensures
            final(self).wf(),
            req.user_id < 0 ==> r == Err::<MovementResult, LedgerError>(
                LedgerError::Validation(ValidationError::InvalidId),
            ) && *final(self) == *old(self),
            req.user_id >= 0 ==> match req.requested() {
                Err(e) => r == Err::<MovementResult, LedgerError>(e) && *final(self) == *old(self),
                Ok(m) => recorded_and_executed(
                    *old(self),
                    *final(self),
                    m,
                    None,
                    req.user_id as u128,
                    req.notes,
                    now,
                    r,
                ),
            },
    {
        let user_id = id_from(req.user_id)?;
        let m = req.movement()?;
        self.execute_movement(m, None, user_id, req.notes, now)
    }
}

/// The value an optional field of an update gives: the new one, else the old.
pub open spec fn coalesce_id(new: Option<i32>, old: u128) -> u128 {
    match new {
        Some(x) => x as u128,
        None => old,
    }
}

/// Whether an optional id of an update is absent or non-negative.
pub open spec fn id_ok(x: Option<i32>) -> bool {
    x matches Some(v) ==> v >= 0
}

pub open spec fn coalesce_text(new: Option<String>, old: Option<String>) -> Option<String> {
    match new {
        Some(t) => Some(t),
        None => old,
    }
}

fn pick_id(new: Option<i32>, old: u128) -> (r: Result<u128, LedgerError>)
    ensures
        id_ok(new) ==> r == Ok::<u128, LedgerError>(coalesce_id(new, old)),
        !id_ok(new) ==> r == Err::<u128, LedgerError>(LedgerError::Validation(ValidationError::InvalidId)),
{
    match new {
        Some(x) => id_from(x),
        None => Ok(old),
    }
}

fn pick_text(new: Option<String>, old: Option<String>) -> (r: Option<String>)
    ensures
        r == coalesce_text(new, old),
{
    match new {
        Some(t) => Some(t),
        None => old,
    }
}

/// A placeholder put in a draft's place while its header is rebuilt.
fn placeholder(id: u64) -> (r: Document)
    ensures
        r.id == id,
{
    Document {
        id,
        movement: Movement::Receipt { warehouse_id: 0, lines: Vec::new() },
        party: None,
        created_by: 0,
        notes: None,
    }
}

/// What editing a draft's header can be refused for, before any field is read.
pub open spec fn edit_refusal(engine: MovementEngine, id: u64, kind: ReferenceType) -> Option<LedgerError> {
    if !engine.has_document(id) {
        Some(LedgerError::Validation(ValidationError::UnknownDocument))
    } else if engine.state(id).status != DocumentStatus::Draft {
        Some(LedgerError::Validation(ValidationError::NotDraft))
    } else if engine.document(id).movement.kind() != kind {
        Some(LedgerError::Validation(ValidationError::WrongDocumentKind))
    } else {
        None
    }
}

/// `after` is `before` with draft `id` replaced by `d`; nothing else moves.
pub open spec fn draft_replaced(before: MovementEngine, after: MovementEngine, id: u64, d: Document) -> bool {
    &&& after.documents() == before.documents().update(id - 1, d)
    &&& after.states() == before.states()
    &&& after.entries() == before.entries()
    &&& after.balances() == before.balances()
}

/// A receipt draft after an update of its header.
pub open spec fn updated_receipt(d: Document, req: UpdateReceiptRequest) -> Document {
    match d.movement {
        Movement::Receipt { warehouse_id, lines } => Document {
            movement: Movement::Receipt {
                warehouse_id: coalesce_id(req.warehouse_id, warehouse_id),
                lines,
            },
            party: coalesce_text(req.supplier_name, d.party),
            created_by: coalesce_id(req.user_id, d.created_by),
            ..d
        },
        _ => d,
    }
}

/// A delivery draft after an update of its header.
pub open spec fn updated_delivery(d: Document, req: UpdateDeliveryRequest) -> Document {
    match d.movement {
        Movement::Delivery { warehouse_id, lines } => Document {
            movement: Movement::Delivery {
                warehouse_id: coalesce_id(req.warehouse_id, warehouse_id),
                lines,
            },
            party: coalesce_text(req.customer_name, d.party),
            created_by: coalesce_id(req.user_id, d.created_by),
            ..d
        },
        _ => d,
    }
}

/// A transfer draft after an update of its header.
pub open spec fn updated_transfer(d: Document, req: UpdateTransferRequest) -> Document {
    match d.movement {
        Movement::Transfer { from_warehouse_id, to_warehouse_id, lines } => Document {
            movement: Movement::Transfer {
                from_warehouse_id: coalesce_id(req.from_warehouse_id, from_warehouse_id),
                to_warehouse_id: coalesce_id(req.to_warehouse_id, to_warehouse_id),
                lines,
            },
            created_by: coalesce_id(req.user_id, d.created_by),
            ..d
        },
        _ => d,
    }
}

/// An adjustment draft after an update: a new reason, a new change (which
/// replaces a counted quantity), new notes.
pub open spec fn updated_adjustment(d: Document, reason: Option<AdjustmentReason>, req: UpdateAdjustmentRequest) -> Document {
    match d.movement {
        Movement::Adjustment { warehouse_id, product_id, reason: r0, amount } => Document {
            movement: Movement::Adjustment {
                warehouse_id,
                product_id,
                reason: match reason {
                    Some(x) => x,
                    None => r0,
                },
                amount: match req.quantity_change {
                    Some(q) => AdjustmentAmount::Change(q as i64),
                    None => amount,
                },
            },
            notes: coalesce_text(req.notes, d.notes),
            ..d
        },
        _ => d,
    }
}

impl MovementEngine {
    fn check_editable(&self, id: u64, kind: ReferenceType) -> (r: Result<usize, LedgerError>)
        requires
            self.wf(),
        ensures
            match edit_refusal(*self, id, kind) {
                Some(e) => r == Err::<usize, LedgerError>(e),
                None => r == Ok::<usize, LedgerError>((id - 1) as usize) && id - 1 < self.documents().len(),
            },
            r matches Ok(i) ==> i + 1 == id,
    {
        proof {
            self.lemma_wf();
        }
        let n = self.document_count();
        if id == 0 || id > n as u64 {
            return Err(LedgerError::Validation(ValidationError::UnknownDocument));
        }
        match self.document_status(id) {
            None => Err(LedgerError::Validation(ValidationError::UnknownDocument)),
            Some(DocumentStatus::Draft) => {
                let d = self.get_document(id);
                match d {
                    Some(doc) => {
                        if doc.movement.reference_type() == kind {
                            Ok((id - 1) as usize)
                        } else {
                            Err(LedgerError::Validation(ValidationError::WrongDocumentKind))
                        }
                    },
                    None => Err(LedgerError::Validation(ValidationError::UnknownDocument)),
                }
            },
            Some(_) => Err(LedgerError::Validation(ValidationError::NotDraft)),
        }
    }

    /// Edits the header of a draft receipt: each field the request sets
    /// replaces the old one (supplier, warehouse, author); lines stay. The
    /// lifecycle moves only through execute, cancel and discard, so the
    /// request's status is not read.
    pub fn update_receipt(&mut self, id: u64, req: UpdateReceiptRequest) -> (r: Result<(), LedgerError>)
        requires
            old(self).wf(),
        ensures
            final(self).wf(),
            edit_refusal(*old(self), id, ReferenceType::Receipt) matches Some(e) ==> r == Err::<(), LedgerError>(e)
                && *final(self) == *old(self),
            edit_refusal(*old(self), id, ReferenceType::Receipt) is None ==> if id_ok(req.warehouse_id) && id_ok(req.user_id) {
                r == Ok::<(), LedgerError>(()) && draft_replaced(*old(self), *final(self), id, updated_receipt(old(self).document(id), req))
            } else {
                r == Err::<(), LedgerError>(LedgerError::Validation(ValidationError::InvalidId)) && *final(self) == *old(self)
            },
    {
        let idx = self.check_editable(id, ReferenceType::Receipt)?;
        if let Some(x) = req.warehouse_id {
            id_from(x)?;
        }
        if let Some(x) = req.user_id {
            id_from(x)?;
        }
        let ghost before = *self;
        proof {
            self.lemma_wf();
            assert(self.documents()[idx as int].id == idx + 1);
        }
        let prev = self.replace_draft(idx, placeholder(id));
        let Document { id: pid, movement, party, created_by, notes } = prev;
        match movement {
            Movement::Receipt { warehouse_id, lines } => {
                let w = pick_id(req.warehouse_id, warehouse_id)?;
                let by = pick_id(req.user_id, created_by)?;
                let d = Document {
                    id: pid,
                    movement: Movement::Receipt { warehouse_id: w, lines },
                    party: pick_text(req.supplier_name, party),
                    created_by: by,
                    notes,
                };
                self.replace_draft(idx, d);
                proof {
                    assert(self.documents() =~= before.documents().update(id - 1, updated_receipt(before.document(id), req)));
                }
                Ok(())
            },
            _ => {
                proof {
                    assert(false);
                }
                Ok(())
            },
        }
    }

    /// Edits the header of a draft delivery: customer, warehouse, author.
    /// Lines stay; the request's status is not read.
    pub fn update_delivery(&mut self, id: u64, req: UpdateDeliveryRequest) -> (r: Result<(), LedgerError>)
        requires
            old(self).wf(),
        ensures
            final(self).wf(),
            edit_refusal(*old(self), id, ReferenceType::Delivery) matches Some(e) ==> r == Err::<(), LedgerError>(e)
                && *final(self) == *old(self),
            edit_refusal(*old(self), id, ReferenceType::Delivery) is None ==> if id_ok(req.warehouse_id) && id_ok(req.user_id) {
                r == Ok::<(), LedgerError>(()) && draft_replaced(*old(self), *final(self), id, updated_delivery(old(self).document(id), req))
            } else {
                r == Err::<(), LedgerError>(LedgerError::Validation(ValidationError::InvalidId)) && *final(self) == *old(self)
            },
    {
        let idx = self.check_editable(id, ReferenceType::Delivery)?;
        if let Some(x) = req.warehouse_id {
            id_from(x)?;
        }
        if let Some(x) = req.user_id {
            id_from(x)?;
        }
        let ghost before = *self;
        proof {
            self.lemma_wf();
            assert(self.documents()[idx as int].id == idx + 1);
        }
        let prev = self.replace_draft(idx, placeholder(id));
        let Document { id: pid, movement, party, created_by, notes } = prev;
        match movement {
            Movement::Delivery { warehouse_id, lines } => {
                let w = pick_id(req.warehouse_id, warehouse_id)?;
                let by = pick_id(req.user_id, created_by)?;
                let d = Document {
                    id: pid,
                    movement: Movement::Delivery { warehouse_id: w, lines },
                    party: pick_text(req.customer_name, party),
                    created_by: by,
                    notes,
                };
                self.replace_draft(idx, d);
                proof {
                    assert(self.documents() =~= before.documents().update(id - 1, updated_delivery(before.document(id), req)));
                }
                Ok(())
            },
            _ => {
                proof {
                    assert(false);
                }
                Ok(())
            },
        }
    }

    /// Edits the header of a draft transfer: its warehouses and author.
    /// Lines stay; the request's status is not read.
    pub fn update_transfer(&mut self, id: u64, req: UpdateTransferRequest) -> (r: Result<(), LedgerError>)
        requires
            old(self).wf(),
        ensures
            final(self).wf(),
            edit_refusal(*old(self), id, ReferenceType::Transfer) matches Some(e) ==> r == Err::<(), LedgerError>(e)
                && *final(self) == *old(self),
            edit_refusal(*old(self), id, ReferenceType::Transfer) is None ==> if id_ok(req.from_warehouse_id)
                && id_ok(req.to_warehouse_id) && id_ok(req.user_id) {
                r == Ok::<(), LedgerError>(()) && draft_replaced(*old(self), *final(self), id, updated_transfer(old(self).document(id), req))
            } else {
                r == Err::<(), LedgerError>(LedgerError::Validation(ValidationError::InvalidId)) && *final(self) == *old(self)
            },
    {
        let idx = self.check_editable(id, ReferenceType::Transfer)?;
        if let Some(x) = req.from_warehouse_id {
            id_from(x)?;
        }
        if let Some(x) = req.to_warehouse_id {
            id_from(x)?;
        }
        if let Some(x) = req.user_id {
            id_from(x)?;
        }
        let ghost before = *self;
        proof {
            self.lemma_wf();
            assert(self.documents()[idx as int].id == idx + 1);
        }
        let prev = self.replace_draft(idx, placeholder(id));
        let Document { id: pid, movement, party, created_by, notes } = prev;
        match movement {
            Movement::Transfer { from_warehouse_id, to_warehouse_id, lines } => {
                let from = pick_id(req.from_warehouse_id, from_warehouse_id)?;
                let to = pick_id(req.to_warehouse_id, to_warehouse_id)?;
                let by = pick_id(req.user_id, created_by)?;
                let d = Document {
                    id: pid,
                    movement: Movement::Transfer { from_warehouse_id: from, to_warehouse_id: to, lines },
                    party,
                    created_by: by,
                    notes,
                };
                self.replace_draft(idx, d);
                proof {
                    assert(self.documents() =~= before.documents().update(id - 1, updated_transfer(before.document(id), req)));
                }
                Ok(())
            },
            _ => {
                proof {
                    assert(false);
                }
                Ok(())
            },
        }
    }

    /// Edits a draft adjustment: a new reason, a new change (which replaces
    /// a counted quantity), new notes; each only where the request sets it.
    pub fn update_adjustment(&mut self, id: u64, req: UpdateAdjustmentRequest) -> (r: Result<(), LedgerError>)
        requires
            old(self).wf(),
        ensures
            final(self).wf(),
            edit_refusal(*old(self), id, ReferenceType::Adjustment) matches Some(e) ==> r == Err::<(), LedgerError>(e)
                && *final(self) == *old(self),
            edit_refusal(*old(self), id, ReferenceType::Adjustment) is None ==> match req.reason {
                Some(t) if AdjustmentReason::parse_spec(t@) is None => r == Err::<(), LedgerError>(
                    LedgerError::Validation(ValidationError::UnknownReason),
                ) && *final(self) == *old(self),
                _ => r == Ok::<(), LedgerError>(()) && draft_replaced(
                    *old(self),
                    *final(self),
                    id,
                    updated_adjustment(
                        old(self).document(id),
                        match req.reason {
                            Some(t) => AdjustmentReason::parse_spec(t@),
                            None => None,
                        },
                        req,
                    ),
                ),
            },
    {
        let idx = self.check_editable(id, ReferenceType::Adjustment)?;
        let new_reason = match &req.reason {
            Some(t) => Some(AdjustmentReason::parse(t.as_str())?),
            None => None,
        };
        let ghost before = *self;
        proof {
            self.lemma_wf();
            assert(self.documents()[idx as int].id == idx + 1);
        }
        let prev = self.replace_draft(idx, placeholder(id));
        let Document { id: pid, movement, party, created_by, notes } = prev;
        match movement {
            Movement::Adjustment { warehouse_id, product_id, reason, amount } => {
                let reason = match new_reason {
                    Some(x) => x,
                    None => reason,
                };
                let amount = match req.quantity_change {
                    Some(q) => AdjustmentAmount::Change(q as i64),
                    None => amount,
                };
                let d = Document {
                    id: pid,
                    movement: Movement::Adjustment { warehouse_id, product_id, reason, amount },
                    party,
                    created_by,
                    notes: pick_text(req.notes, notes),
                };
                self.replace_draft(idx, d);
                proof {
                    assert(self.documents() =~= before.documents().update(
                        id - 1,
                        updated_adjustment(
                            before.document(id),
                            match req.reason {
                                Some(t) => AdjustmentReason::parse_spec(t@),
                                None => None,
                            },
                            req,
                        ),
                    ));
                }
                Ok(())
            },
            _ => {
                proof {
                    assert(false);
                }
                Ok(())
            },
        }
    }
}

} // verus!
