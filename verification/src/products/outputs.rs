//! Production outputs: completing a production batch creates one storage lot.
//! Events are checked before they are applied (a poison event goes to the
//! dead-letter queue); applying follows the batch's event sequence.
use crate::dates::{iso_date, parse_iso_date};
use crate::events::{field_uuid, is_text, is_true, known_operation, read_uuid, IntegrationEvent, JsonField};
use crate::numbers::Number;
use crate::products::model::CreateProductRequest;
use crate::products::policy::{PolicyError, ProductPolicy, ProductPolicyFactory};
use crate::text::{blank, is_blank, str_eq};
use vstd::prelude::*;

verus! {

/// Why an output event is refused.
#[derive(Clone, Copy, PartialEq, Eq, Structural, Debug)]
pub enum OutputError {
    /// Not a production-batch change this consumer understands.
    InvalidEnvelope,
    /// The data's id is not a UUID.
    BadId,
    /// The data's id is not the event's entity.
    IdentityMismatch,
    /// The data's farm is not a UUID.
    BadFarm,
    /// The batch status is not one of the four known states.
    InvalidStatus,
    /// The output quantity is not a number.
    InvalidQuantity,
    /// The output expiry date is not a date.
    BadExpiry,
    /// The output quantity is not positive.
    NotPositive,
    /// The output names no unit of measure.
    MissingUnit,
    /// The output fails its product family's policy.
    Policy(PolicyError),
    /// The output name, type or unit is missing.
    MissingField,
}

/// The status is one of the batch states.
pub open spec fn known_status(f: JsonField) -> bool {
    ||| is_text(f, "PLANNED"@)
    ||| is_text(f, "IN_PROGRESS"@)
    ||| is_text(f, "COMPLETED"@)
    ||| is_text(f, "CANCELLED"@)
}

/// A string field's text, or the empty text.
pub open spec fn text_or_empty(f: JsonField) -> Seq<char> {
    match f {
        JsonField::Text(s) => s@,
        _ => Seq::empty(),
    }
}

/// The date a JSON field holds: `null` is no date; a string must read as one.
pub open spec fn field_date(f: JsonField) -> Result<Option<i32>, ()> {
    match f {
        JsonField::Null => Ok(None),
        JsonField::Text(s) => match iso_date(s@) {
            Some(d) => Ok(Some(d)),
            None => Err(()),
        },
        _ => Err(()),
    }
}

fn read_date(f: &JsonField) -> (r: Result<Option<i32>, ()>)
    ensures
        r == field_date(*f),
{
    match f {
        JsonField::Null => Ok(None),
        JsonField::Text(s) => match parse_iso_date(s.as_str()) {
            Some(d) => Ok(Some(d)),
            None => Err(()),
        },
        _ => Err(()),
    }
}

fn text_field(f: &JsonField) -> (r: String)
    ensures
        r@ == text_or_empty(*f),
{
    match f {
        JsonField::Text(s) => s.clone(),
        _ => String::new(),
    }
}

/// The event announces a measured output: a completed, live batch with a quantity.
pub open spec fn announces_output(event: &IntegrationEvent) -> bool {
    &&& is_text(event.data.status, "COMPLETED"@)
    &&& !(event.data.output_quantity is Null)
    &&& event.operation@ != "DELETE"@
    &&& !is_true(event.data.is_deleted)
}

/// The policy outcome of the product an output would create.
pub open spec fn output_policy(event: &IntegrationEvent, q: Number) -> Result<(), PolicyError> {
    let name = text_or_empty(event.data.output_name);
    let ty = text_or_empty(event.data.output_type);
    let unit = text_or_empty(event.data.output_unit);
    if is_blank(name) {
        Err(PolicyError::NameEmpty)
    } else if is_blank(ty) {
        Err(PolicyError::TypeEmpty)
    } else if q.negative {
        Err(PolicyError::QuantityNegative)
    } else if crate::products::policy::is_food_type(ty) && is_blank(unit) {
        Err(PolicyError::UnitRequired)
    } else {
        Ok(())
    }
}

/// The refusal of an output event, if any.
pub open spec fn output_refusal(event: &IntegrationEvent) -> Option<OutputError> {
    let d = event.data;
    if !(event.schema_version == 1 && event.sequence > 0 && event.source@ == "productions"@
        && event.entity_type@ == "production_batches"@ && known_operation(event.operation@)) {
        Some(OutputError::InvalidEnvelope)
    } else if field_uuid(d.id) is None {
        Some(OutputError::BadId)
    } else if field_uuid(d.id) != Some(event.entity_id) {
        Some(OutputError::IdentityMismatch)
    } else if field_uuid(d.farm_id) is None {
        Some(OutputError::BadFarm)
    } else if !known_status(d.status) {
        Some(OutputError::InvalidStatus)
    } else if !announces_output(event) {
        None
    } else if !(d.output_quantity is Number) {
        Some(OutputError::InvalidQuantity)
    } else if field_date(d.output_expiry_date) is Err {
        Some(OutputError::BadExpiry)
    } else if !d.output_quantity->Number_0.positive {
        Some(OutputError::NotPositive)
    } else if is_blank(text_or_empty(d.output_unit)) {
        Some(OutputError::MissingUnit)
    } else if output_policy(event, d.output_quantity->Number_0) is Err {
        Some(OutputError::Policy(output_policy(event, d.output_quantity->Number_0)->Err_0))
    } else {
        None
    }
}

/// Checks an output event before it is applied; a refused event is dead-lettered.
pub fn validate(event: &IntegrationEvent) -> (r: Result<(), OutputError>)
    ensures
        match output_refusal(event) {
            Some(e) => r == Err::<(), OutputError>(e),
            None => r is Ok,
        },
{
    let op = event.operation.as_str();
    if !(event.schema_version == 1 && event.sequence > 0 && str_eq(event.source.as_str(), "productions")
        && str_eq(event.entity_type.as_str(), "production_batches") && (str_eq(op, "INSERT")
        || str_eq(op, "UPDATE") || str_eq(op, "DELETE"))) {
        return Err(OutputError::InvalidEnvelope);
    }
    let d = &event.data;
    match read_uuid(&d.id) {
        None => {
            return Err(OutputError::BadId);
        },
        Some(id) => if id != event.entity_id {
            return Err(OutputError::IdentityMismatch);
        },
    }
    if read_uuid(&d.farm_id).is_none() {
        return Err(OutputError::BadFarm);
    }
    let completed = match &d.status {
        JsonField::Text(s) => str_eq(s.as_str(), "COMPLETED"),
        _ => false,
    };
    let known = match &d.status {
        JsonField::Text(s) => str_eq(s.as_str(), "PLANNED") || str_eq(s.as_str(), "IN_PROGRESS")
            || completed || str_eq(s.as_str(), "CANCELLED"),
        _ => false,
    };
    if !known {
        return Err(OutputError::InvalidStatus);
    }
    let quantity_null = match &d.output_quantity {
        JsonField::Null => true,
        _ => false,
    };
    let deleted = match &d.is_deleted {
        JsonField::Bool(b) => *b,
        _ => false,
    };
    if !completed || quantity_null || str_eq(op, "DELETE") || deleted {
        return Ok(());
    }
    let q = match &d.output_quantity {
        JsonField::Number(n) => *n,
        _ => {
            return Err(OutputError::InvalidQuantity);
        },
    };
    let expiry = match read_date(&d.output_expiry_date) {
        Ok(e) => e,
        Err(()) => {
            return Err(OutputError::BadExpiry);
        },
    };
    if !q.positive {
        return Err(OutputError::NotPositive);
    }
    let unit = text_field(&d.output_unit);
    if blank(unit.as_str()) {
        return Err(OutputError::MissingUnit);
    }
    let product_type = text_field(&d.output_type);
    let request = CreateProductRequest {
        name: text_field(&d.output_name),
        product_type: product_type.clone(),
        description: None,
        quantity: q,
        unit,
        price: Number::from_milli(0),
        expiry_date: expiry,
        batch_id: Some(event.entity_id),
    };
    match ProductPolicyFactory::for_type(product_type.as_str()).validate(&request) {
        Err(e) => Err(OutputError::Policy(e)),
        Ok(()) => Ok(()),
    }
}

/// The state row of a production batch.
pub struct BatchState {
    pub batch_id: u128,
    pub farm_id: u128,
    pub status: String,
    pub sequence: i64,
    pub deleted: bool,
}

/// The storage lot a completed batch creates.
pub struct OutputProduct {
    pub farm_id: u128,
    pub name: String,
    pub product_type: String,
    pub quantity: Number,
    pub unit: String,
    pub batch_id: u128,
    pub expiry_date: Option<i32>,
    /// The price in thousandths: a new lot has none yet.
    pub price: i64,
    /// A new lot is in storage, not on sale.
    pub is_active: bool,
}

/// What applying an output event writes.
pub struct OutputPlan {
    pub state: Option<BatchState>,
    pub product: Option<OutputProduct>,
}

/// The batch status an event records.
pub open spec fn status_text(f: JsonField) -> Seq<char> {
    match f {
        JsonField::Text(s) => s@,
        _ => "UNKNOWN"@,
    }
}

/// Why applying an output event fails, if it does: a farm that is not a UUID,
/// or, for a newer event announcing a measured output, an amount that is not a
/// finite positive number, a missing name, type or unit, or an unreadable expiry.
pub open spec fn plan_refusal(event: &IntegrationEvent, previous: Option<i64>) -> Option<OutputError> {
    let d = event.data;
    let settled = event.operation@ == "DELETE"@ || !is_text(d.status, "COMPLETED"@) || is_true(
        d.is_deleted,
    ) || !(d.output_quantity is Number);
    let q = d.output_quantity->Number_0;
    if !(event.source@ == "productions"@ && event.entity_type@ == "production_batches"@
        && event.schema_version == 1) {
        None
    } else if field_uuid(d.farm_id) is None {
        Some(OutputError::BadFarm)
    } else if previous is Some && previous->0 >= event.sequence {
        None
    } else if !settled && !(q.finite && q.positive) {
        Some(OutputError::NotPositive)
    } else if !settled && (!(d.output_name is Text) || !(d.output_type is Text)
        || !(d.output_unit is Text)) {
        Some(OutputError::MissingField)
    } else if !settled && field_date(d.output_expiry_date) is Err {
        Some(OutputError::BadExpiry)
    } else {
        None
    }
}

/// Applies a (validated) output event, given the sequence last recorded for the
/// batch and whether the batch already has its output. Events of other streams
/// and stale events write nothing; a newer event records the batch state, and a
/// completed batch with a positive measured output creates its product once.
pub fn plan_output(event: &IntegrationEvent, previous: Option<i64>, output_exists: bool) -> (r:
    Result<OutputPlan, OutputError>)
    ensures
        match plan_refusal(event, previous) {
            Some(e) => r == Err::<OutputPlan, OutputError>(e),
            None => r is Ok,
        },
        !(event.source@ == "productions"@ && event.entity_type@ == "production_batches"@
            && event.schema_version == 1) ==> (r matches Ok(p) && p.state is None && p.product is None),
        (event.source@ == "productions"@ && event.entity_type@ == "production_batches"@
            && event.schema_version == 1) ==> {
            let d = event.data;
            if field_uuid(d.farm_id) is None {
                r == Err::<OutputPlan, OutputError>(OutputError::BadFarm)
            } else if previous is Some && previous->0 >= event.sequence {
                (r matches Ok(p) && p.state is None && p.product is None)
            } else {
                let settled = event.operation@ == "DELETE"@ || !is_text(d.status, "COMPLETED"@)
                    || is_true(d.is_deleted) || !(d.output_quantity is Number);
                let q = d.output_quantity->Number_0;
                if !settled && !(q.finite && q.positive) {
                    r == Err::<OutputPlan, OutputError>(OutputError::NotPositive)
                } else if !settled && (!(d.output_name is Text) || !(d.output_type is Text)
                    || !(d.output_unit is Text)) {
                    r == Err::<OutputPlan, OutputError>(OutputError::MissingField)
                } else if !settled && field_date(d.output_expiry_date) is Err {
                    r == Err::<OutputPlan, OutputError>(OutputError::BadExpiry)
                } else {
                    (r matches Ok(p) && p.state matches Some(st) && st.batch_id == event.entity_id
                        && Some(st.farm_id) == field_uuid(d.farm_id) && st.status@ == status_text(
                        d.status,
                    ) && st.sequence == event.sequence && st.deleted == (event.operation@
                        == "DELETE"@ || is_true(d.is_deleted)) && (p.product is Some <==> (
                    !settled && !output_exists)) && (p.product matches Some(o) ==> (
                    Some(o.farm_id) == field_uuid(d.farm_id) && o.name@ == text_or_empty(
                        d.output_name,
                    ) && o.product_type@ == text_or_empty(d.output_type) && o.unit@
                        == text_or_empty(d.output_unit) && o.quantity == q && o.batch_id
                        == event.entity_id && o.price == 0 && !o.is_active
                        && Ok::<Option<i32>, ()>(o.expiry_date) == field_date(
                        d.output_expiry_date,
                    ))))
                }
            }
        },
{
    if !(str_eq(event.source.as_str(), "productions") && str_eq(
        event.entity_type.as_str(),
        "production_batches",
    ) && event.schema_version == 1) {
        return Ok(OutputPlan { state: None, product: None });
    }
    let d = &event.data;
    let farm = match read_uuid(&d.farm_id) {
        Some(f) => f,
        None => {
            return Err(OutputError::BadFarm);
        },
    };
    if let Some(n) = previous {
        if n >= event.sequence {
            return Ok(OutputPlan { state: None, product: None });
        }
    }
    let is_delete = str_eq(event.operation.as_str(), "DELETE");
    let flagged = match &d.is_deleted {
        JsonField::Bool(b) => *b,
        _ => false,
    };
    let completed = match &d.status {
        JsonField::Text(s) => str_eq(s.as_str(), "COMPLETED"),
        _ => false,
    };
    let state = BatchState {
        batch_id: event.entity_id,
        farm_id: farm,
        status: match &d.status {
            JsonField::Text(s) => s.clone(),
            _ => String::from_str("UNKNOWN"),
        },
        sequence: event.sequence,
        deleted: is_delete || flagged,
    };
    let q = match &d.output_quantity {
        JsonField::Number(n) => *n,
        _ => {
            return Ok(OutputPlan { state: Some(state), product: None });
        },
    };
    if is_delete || !completed || flagged {
        return Ok(OutputPlan { state: Some(state), product: None });
    }
    if !(q.finite && q.positive) {
        return Err(OutputError::NotPositive);
    }
    let (name, kind, unit) = match (&d.output_name, &d.output_type, &d.output_unit) {
        (JsonField::Text(n), JsonField::Text(k), JsonField::Text(u)) => (n.clone(), k.clone(), u.clone()),
        _ => {
            return Err(OutputError::MissingField);
        },
    };
    let expiry = match read_date(&d.output_expiry_date) {
        Ok(e) => e,
        Err(()) => {
            return Err(OutputError::BadExpiry);
        },
    };
    if output_exists {
        return Ok(OutputPlan { state: Some(state), product: None });
    }
    Ok(
        OutputPlan {
            state: Some(state),
            product: Some(
                OutputProduct {
                    price: 0,
                    is_active: false,
                    farm_id: farm,
                    name,
                    product_type: kind,
                    quantity: q,
                    unit,
                    batch_id: event.entity_id,
                    expiry_date: expiry,
                },
            ),
        },
    )
}

/// An event that passes validation, with a finite amount, is never refused when
/// it is applied: poison events are caught before they reach the store.
pub proof fn law_validated_events_apply(event: &IntegrationEvent, previous: Option<i64>)
    requires
        output_refusal(event) is None,
        event.data.output_quantity matches JsonField::Number(q) ==> q.finite,
    ensures
        plan_refusal(event, previous) is None,
{
    let d = event.data;
    if d.output_name is Text && d.output_type is Text && d.output_unit is Text {
    } else if announces_output(event) && d.output_quantity is Number {
        let q = d.output_quantity->Number_0;
        assert(output_policy(event, q) is Err);
    }
}

} // verus!
