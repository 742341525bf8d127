//! The rules of the raw-material service: date order, required fields, merged
//! updates and the answers to store outcomes.
use crate::materials::models::{
    CreateRawMaterialRequest, PaginatedResponse, RawMaterial, UpdateRawMaterialRequest,
};
use crate::materials::query::ListQuery;
use crate::numbers::{DecimalReading, Number};
use crate::pagination::page_limit;
use crate::text::{blank, is_blank, trim, trimmed};
use std::sync::Arc;
use vstd::prelude::*;

verus! {

/// Why the raw-material service refuses a request.
#[derive(Clone, Copy, PartialEq, Eq, Structural, Debug)]
pub enum MaterialError {
    /// Expiry before harvest or receipt (400).
    DatesOutOfOrder,
    NameEmpty,
    QuantityNegative,
    UnitEmpty,
    /// No such material for the business (404).
    NotFound,
    /// The adjustment found no material or would leave negative stock (400).
    AdjustmentRefused,
}

impl MaterialError {
    /// The HTTP status the service answers with.
    pub fn status(&self) -> (s: u16)
        ensures
            s == (if *self == MaterialError::NotFound {
                404u16
            } else {
                400u16
            }),
    {
        match self {
            MaterialError::NotFound => 404,
            _ => 400,
        }
    }

    /// The message the service answers with.
    #[verifier::allow_in_spec]
    pub fn message(&self) -> &'static str
        returns
            (match self {
                MaterialError::DatesOutOfOrder => "Expiry cannot be before harvest or receipt",
                MaterialError::NameEmpty => "Name cannot be empty",
                MaterialError::QuantityNegative => "Quantity cannot be negative",
                MaterialError::UnitEmpty => "Unit cannot be empty",
                MaterialError::NotFound => "Raw material not found",
                MaterialError::AdjustmentRefused => "Material not found, not owned by your business, or adjustment would result in negative stock",
            }),
    {
        match self {
            MaterialError::DatesOutOfOrder => "Expiry cannot be before harvest or receipt",
            MaterialError::NameEmpty => "Name cannot be empty",
            MaterialError::QuantityNegative => "Quantity cannot be negative",
            MaterialError::UnitEmpty => "Unit cannot be empty",
            MaterialError::NotFound => "Raw material not found",
            MaterialError::AdjustmentRefused => "Material not found, not owned by your business, or adjustment would result in negative stock",
        }
    }
}

/// Expiry, when known, is not before harvest or receipt.
pub open spec fn dates_in_order(
    harvest: Option<i32>,
    received: Option<i32>,
    expiry: Option<i32>,
) -> bool {
    match expiry {
        Some(end) => !(harvest is Some && harvest->0 > end) && !(received is Some && received->0
            > end),
        None => true,
    }
}

/// Refuses an expiry before harvest or receipt.
pub fn validate_dates(harvest: Option<i32>, received: Option<i32>, expiry: Option<i32>) -> (r:
    Result<(), MaterialError>)
    ensures
        r is Ok <==> dates_in_order(harvest, received, expiry),
        r is Err ==> r == Err::<(), MaterialError>(MaterialError::DatesOutOfOrder),
{
    if let Some(end) = expiry {
        let h = match harvest {
            Some(s) => s > end,
            None => false,
        };
        let rc = match received {
            Some(s) => s > end,
            None => false,
        };
        if h || rc {
            return Err(MaterialError::DatesOutOfOrder);
        }
    }
    Ok(())
}

/// The values a new raw material is stored with.
pub struct NewMaterial {
    pub business_id: u128,
    pub name: String,
    pub material_type: String,
    pub quantity: Number,
    pub unit: String,
    pub supplier: Option<String>,
    pub origin: Option<String>,
    pub harvest_date: Option<i32>,
    pub received_date: Option<i32>,
    pub expiry_date: Option<i32>,
    pub notes: Option<String>,
    pub low_stock_threshold: Option<Number>,
}

/// The values an update stores; absent fields keep the stored ones.
pub struct MaterialChanges {
    pub name: String,
    pub material_type: String,
    pub quantity: Number,
    pub unit: String,
    pub supplier: Option<String>,
    pub origin: Option<String>,
    pub harvest_date: Option<i32>,
    pub received_date: Option<i32>,
    pub expiry_date: Option<i32>,
    pub notes: Option<String>,
    pub low_stock_threshold: Option<Number>,
}

/// The stores a raw-material service reads and writes.
pub struct RawMaterialRepository;

/// The raw-material service.
pub struct RawMaterialService {
    pub raw_material_repository: Arc<RawMaterialRepository>,
}

/// The requested value, or the stored one.
pub open spec fn pick(requested: Option<String>, stored: String) -> Seq<char> {
    match requested {
        Some(s) => s@,
        None => stored@,
    }
}

/// The requested optional value, or the stored one.
pub open spec fn pick_opt(requested: Option<String>, stored: Option<String>) -> Option<Seq<char>> {
    match requested {
        Some(s) => Some(s@),
        None => match stored {
            Some(s) => Some(s@),
            None => None,
        },
    }
}

pub open spec fn opt_view(o: Option<String>) -> Option<Seq<char>> {
    match o {
        Some(s) => Some(s@),
        None => None,
    }
}

pub open spec fn or_date(requested: Option<i32>, stored: Option<i32>) -> Option<i32> {
    match requested {
        Some(d) => Some(d),
        None => stored,
    }
}

fn pick_string(requested: &Option<String>, stored: &String) -> (r: String)
    ensures
        r@ == pick(*requested, *stored),
{
    match requested {
        Some(s) => s.clone(),
        None => stored.clone(),
    }
}

fn pick_optional(requested: &Option<String>, stored: &Option<String>) -> (r: Option<String>)
    ensures
        opt_view(r) == pick_opt(*requested, *stored),
{
    match requested {
        Some(s) => Some(s.clone()),
        None => match stored {
            Some(s) => Some(s.clone()),
            None => None,
        },
    }
}

impl RawMaterialService {
    /// A service over the given repository.
    pub fn new(raw_material_repository: Arc<RawMaterialRepository>) -> (r: RawMaterialService)
        ensures
            r.raw_material_repository == raw_material_repository,
    {
        RawMaterialService { raw_material_repository }
    }

    /// Checks a new raw material and gives the values it is stored with: name,
    /// type and unit trimmed.
    pub fn create(&self, business_id: u128, req: CreateRawMaterialRequest) -> (r: Result<
        NewMaterial,
        MaterialError,
    >)
        ensures
            !dates_in_order(req.harvest_date, req.received_date, req.expiry_date) ==> r == Err::<
                NewMaterial,
                MaterialError,
            >(MaterialError::DatesOutOfOrder),
            dates_in_order(req.harvest_date, req.received_date, req.expiry_date) && is_blank(
                req.name@,
            ) ==> r == Err::<NewMaterial, MaterialError>(MaterialError::NameEmpty),
            dates_in_order(req.harvest_date, req.received_date, req.expiry_date) && !is_blank(
                req.name@,
            ) && req.quantity.negative ==> r == Err::<NewMaterial, MaterialError>(
                MaterialError::QuantityNegative,
            ),
            dates_in_order(req.harvest_date, req.received_date, req.expiry_date) && !is_blank(
                req.name@,
            ) && !req.quantity.negative && is_blank(req.unit@) ==> r == Err::<
                NewMaterial,
                MaterialError,
            >(MaterialError::UnitEmpty),
            r is Ok <==> dates_in_order(req.harvest_date, req.received_date, req.expiry_date)
                && !is_blank(req.name@) && !req.quantity.negative && !is_blank(req.unit@),
            r matches Ok(m) ==> {
                &&& m.business_id == business_id
                &&& m.name@ == trimmed(req.name@)
                &&& m.material_type@ == trimmed(req.material_type@)
                &&& m.quantity == req.quantity
                &&& m.unit@ == trimmed(req.unit@)
                &&& m.supplier == req.supplier
                &&& m.origin == req.origin
                &&& m.harvest_date == req.harvest_date
                &&& m.received_date == req.received_date
                &&& m.expiry_date == req.expiry_date
                &&& m.notes == req.notes
                &&& m.low_stock_threshold == req.low_stock_threshold
            },
    {
        validate_dates(req.harvest_date, req.received_date, req.expiry_date)?;
        if blank(req.name.as_str()) {
            return Err(MaterialError::NameEmpty);
        }
        if req.quantity.negative {
            return Err(MaterialError::QuantityNegative);
        }
        if blank(req.unit.as_str()) {
            return Err(MaterialError::UnitEmpty);
        }
        Ok(
            NewMaterial {
                business_id,
                name: String::from_str(trim(req.name.as_str())),
                material_type: String::from_str(trim(req.material_type.as_str())),
                quantity: req.quantity,
                unit: String::from_str(trim(req.unit.as_str())),
                supplier: req.supplier,
                origin: req.origin,
                harvest_date: req.harvest_date,
                received_date: req.received_date,
                expiry_date: req.expiry_date,
                notes: req.notes,
                low_stock_threshold: req.low_stock_threshold,
            },
        )
    }

    /// Checks the merged dates of an update of `existing` and merges it.
    pub fn update(&self, existing: &RawMaterial, req: UpdateRawMaterialRequest) -> (r: Result<
        MaterialChanges,
        MaterialError,
    >)
        ensures
            r is Err <==> !dates_in_order(
                or_date(req.harvest_date, existing.harvest_date),
                or_date(req.received_date, existing.received_date),
                or_date(req.expiry_date, existing.expiry_date),
            ),
            r is Err ==> r == Err::<MaterialChanges, MaterialError>(MaterialError::DatesOutOfOrder),
            r matches Ok(c) ==> {
                &&& c.name@ == pick(req.name, existing.name)
                &&& c.material_type@ == pick(req.material_type, existing.material_type)
                &&& c.quantity == (match req.quantity {
                    Some(n) => n,
                    None => Number {
                        finite: true,
                        negative: existing.quantity < 0,
                        positive: existing.quantity > 0,
                        stored: crate::numbers::DecimalReading::Milli(existing.quantity),
                    },
                })
                &&& c.unit@ == pick(req.unit, existing.unit)
                &&& opt_view(c.supplier) == pick_opt(req.supplier, existing.supplier)
                &&& opt_view(c.origin) == pick_opt(req.origin, existing.origin)
                &&& c.harvest_date == or_date(req.harvest_date, existing.harvest_date)
                &&& c.received_date == or_date(req.received_date, existing.received_date)
                &&& c.expiry_date == or_date(req.expiry_date, existing.expiry_date)
                &&& opt_view(c.notes) == pick_opt(req.notes, existing.notes)
                &&& c.low_stock_threshold == (match req.low_stock_threshold {
                    Some(t) => Some(t),
                    None => match existing.low_stock_threshold {
                        Some(m) => Some(
                            Number {
                                finite: true,
                                negative: m < 0,
                                positive: m > 0,
                                stored: crate::numbers::DecimalReading::Milli(m),
                            },
                        ),
                        None => None,
                    },
                })
            },
    {
        let harvest = match req.harvest_date {
            Some(d) => Some(d),
            None => existing.harvest_date,
        };
        let received = match req.received_date {
            Some(d) => Some(d),
            None => existing.received_date,
        };
        let expiry = match req.expiry_date {
            Some(d) => Some(d),
            None => existing.expiry_date,
        };
        validate_dates(harvest, received, expiry)?;
        Ok(
            MaterialChanges {
                name: pick_string(&req.name, &existing.name),
                material_type: pick_string(&req.material_type, &existing.material_type),
                quantity: match req.quantity {
                    Some(n) => n,
                    None => Number::from_milli(existing.quantity),
                },
                unit: pick_string(&req.unit, &existing.unit),
                supplier: pick_optional(&req.supplier, &existing.supplier),
                origin: pick_optional(&req.origin, &existing.origin),
                harvest_date: harvest,
                received_date: received,
                expiry_date: expiry,
                notes: pick_optional(&req.notes, &existing.notes),
                low_stock_threshold: match req.low_stock_threshold {
                    Some(t) => Some(t),
                    None => match existing.low_stock_threshold {
                        Some(m) => Some(Number::from_milli(m)),
                        None => None,
                    },
                },
            },
        )
    }

    /// The answer to a soft delete that changed `rows` rows.
    pub fn delete(&self, rows: u64) -> (r: Result<(), MaterialError>)
        ensures
            r is Ok <==> rows > 0,
            r is Err ==> r == Err::<(), MaterialError>(MaterialError::NotFound),
    {
        if rows == 0 {
            Err(MaterialError::NotFound)
        } else {
            Ok(())
        }
    }

    /// Adjusts the stock of `existing` (the row read for `id`, if any) by
    /// `delta`: a positive delta restocks, a negative one deducts. The material
    /// must exist, belong to `business_id` and not be deleted, and the stock
    /// must not become negative; otherwise nothing changes and the adjustment
    /// is refused. Only the quantity changes.
    pub fn adjust_quantity(
        &self,
        existing: Option<RawMaterial>,
        id: u128,
        business_id: u128,
        delta: Number,
    ) -> (r: Result<RawMaterial, MaterialError>)
        ensures
            match existing {
                Some(m) => if m.id == id && m.business_id == business_id && !m.is_deleted {
                    match adjusted_quantity(m.quantity, delta.stored) {
                        Some(n) => r == Ok::<RawMaterial, MaterialError>(
                            RawMaterial { quantity: n, ..m },
                        ),
                        None => r == Err::<RawMaterial, MaterialError>(
                            MaterialError::AdjustmentRefused,
                        ),
                    }
                } else {
                    r == Err::<RawMaterial, MaterialError>(MaterialError::AdjustmentRefused)
                },
                None => r == Err::<RawMaterial, MaterialError>(MaterialError::AdjustmentRefused),
            },
            r matches Ok(m) ==> m.quantity >= 0,
    {
        let mut m = match existing {
            Some(m) => m,
            None => {
                return Err(MaterialError::AdjustmentRefused);
            },
        };
        if m.id != id || m.business_id != business_id || m.is_deleted {
            return Err(MaterialError::AdjustmentRefused);
        }
        match adjust_stock(m.quantity, delta.stored) {
            Some(n) => {
                m.quantity = n;
                Ok(m)
            },
            None => Err(MaterialError::AdjustmentRefused),
        }
    }

    /// One page of raw materials with the total count.
    pub fn list(&self, data: Vec<RawMaterial>, total: i64, q: &ListQuery) -> (r: PaginatedResponse<
        RawMaterial,
    >)
        ensures
            r.data == data,
            r.total == total,
            r.page == (match q.page {
                Some(p) => p,
                None => 1i64,
            }),
            r.limit == page_limit(q.limit),
    {
        PaginatedResponse {
            data,
            total,
            page: match q.page {
                Some(p) => p,
                None => 1,
            },
            limit: q.limit(),
        }
    }
}

/// The stock, in thousandths, after adjusting `quantity` by `delta`: the sum,
/// when it is not negative. A delta that does not read as a decimal counts as
/// zero. A delta finer than a thousandth, or too large for the stored range,
/// is not applied.
pub open spec fn adjusted_quantity(quantity: i64, delta: DecimalReading) -> Option<i64> {
    let d: int = match delta {
        DecimalReading::Milli(d) => d as int,
        _ => 0,
    };
    if !(delta is Milli || delta is Malformed) {
        None
    } else if quantity + d < 0 || quantity + d > i64::MAX {
        None
    } else {
        Some((quantity + d) as i64)
    }
}

/// Computes `adjusted_quantity`.
pub fn adjust_stock(quantity: i64, delta: DecimalReading) -> (r: Option<i64>)
    ensures
        r == adjusted_quantity(quantity, delta),
{
    let d: i64 = match delta {
        DecimalReading::Milli(d) => d,
        DecimalReading::Malformed => 0,
        _ => {
            return None;
        },
    };
    match quantity.checked_add(d) {
        Some(n) => if n < 0 {
            None
        } else {
            Some(n)
        },
        None => None,
    }
}

} // verus!

