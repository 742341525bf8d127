//! The rules of the product service: who may read a product, when it is on
//! sale, how an update is checked and merged, and when a delete is allowed.
use crate::auth::Claims;
use crate::dates::{parse_ymd_date, ymd_date};
use crate::numbers::{DecimalReading, Number};
use crate::products::model::{
    CreateProductRequest, PriceUpdate, Product, UpdateParams, UpdateProductRequest,
};
use crate::products::policy::{
    is_food_type, PolicyError, ProductPolicy, ProductPolicyFactory,
};
use crate::text::{is_blank, str_eq};
use vstd::prelude::*;

verus! {

/// Why the product service refuses a request.
#[derive(Clone, Copy, PartialEq, Eq, Structural, Debug)]
pub enum ProductError {
    /// Planned products change through their production batch (400).
    PlannedProduct,
    /// The requested state is neither `STORAGE` nor `ON_SALE` (400).
    InvalidState,
    /// The merged product fails its family's policy (400).
    Policy(PolicyError),
    /// The requested quantity is not a finite, non-negative number (400).
    InvalidQuantity,
    /// A product on sale needs a production batch (400).
    BatchRequired,
    /// The batch could not be fetched for the business (400).
    BatchUnavailable,
    /// The batch is not completed (400).
    BatchNotCompleted,
    /// The product would expire before its production ends (400).
    ExpiryBeforeProduction,
    /// A product on sale needs a positive price (400).
    PriceRequired,
    /// Quantity, unit and batch of a measured production output are fixed (400).
    MeasuredLocked,
    /// The requested price is not a finite, non-negative number (400).
    InvalidPrice,
    /// Planned products are removed through their production batch (400).
    PlannedDelete,
    /// No such product (404).
    NotFound,
    /// Products are created by completing a production batch (400).
    CreateDisabled,
    /// The caller may not see the product (404).
    NotReadable,
    /// The product is in storage, not on sale (404).
    NotOnSale,
    /// The traceability projection lags behind (409).
    Synchronizing,
}

impl ProductError {
    /// The HTTP status the service answers with.
    pub fn status(&self) -> (s: u16)
        ensures
            s == match self {
                ProductError::NotFound | ProductError::NotReadable | ProductError::NotOnSale => 404u16,
                ProductError::Synchronizing => 409u16,
                _ => 400u16,
            },
    {
        match self {
            ProductError::NotFound | ProductError::NotReadable | ProductError::NotOnSale => 404,
            ProductError::Synchronizing => 409,
            _ => 400,
        }
    }

    /// The message the service answers with (a missing product's message names its id).
    #[verifier::allow_in_spec]
    pub fn message(&self) -> &'static str
        returns
            (match self {
                ProductError::PlannedProduct => "Edit planned products through their production batch",
                ProductError::InvalidState => "Invalid product state",
                ProductError::Policy(e) => e.message(),
                ProductError::InvalidQuantity => "Invalid quantity",
                ProductError::BatchRequired => "Link a completed production batch before placing the product on sale",
                ProductError::BatchUnavailable => "Select an available production batch from your farm",
                ProductError::BatchNotCompleted => "Production must be completed before the product can be active",
                ProductError::ExpiryBeforeProduction => "Product expiry cannot be before production ends",
                ProductError::PriceRequired => "Set a positive price before placing a product on sale",
                ProductError::MeasuredLocked => "Measured production quantity, unit and batch cannot be changed on a product",
                ProductError::InvalidPrice => "Price must be a non-negative number",
                ProductError::PlannedDelete => "Remove planned products through their production batch",
                ProductError::NotFound => "Product not found",
                ProductError::CreateDisabled => "Complete a production batch to create its output in Storage",
                ProductError::NotReadable => "Product not found",
                ProductError::NotOnSale => "Product is in Storage and is not on sale",
                ProductError::Synchronizing => "Traceability is synchronizing; please retry shortly",
            }),
    {
        match self {
            ProductError::PlannedProduct => "Edit planned products through their production batch",
            ProductError::InvalidState => "Invalid product state",
            ProductError::Policy(e) => e.message(),
            ProductError::InvalidQuantity => "Invalid quantity",
            ProductError::BatchRequired => "Link a completed production batch before placing the product on sale",
            ProductError::BatchUnavailable => "Select an available production batch from your farm",
            ProductError::BatchNotCompleted => "Production must be completed before the product can be active",
            ProductError::ExpiryBeforeProduction => "Product expiry cannot be before production ends",
            ProductError::PriceRequired => "Set a positive price before placing a product on sale",
            ProductError::MeasuredLocked => "Measured production quantity, unit and batch cannot be changed on a product",
            ProductError::InvalidPrice => "Price must be a non-negative number",
            ProductError::PlannedDelete => "Remove planned products through their production batch",
            ProductError::NotFound => "Product not found",
            ProductError::CreateDisabled => "Complete a production batch to create its output in Storage",
            ProductError::NotReadable => "Product not found",
            ProductError::NotOnSale => "Product is in Storage and is not on sale",
            ProductError::Synchronizing => "Traceability is synchronizing; please retry shortly",
        }
    }
}

/// A production batch as the sale rules read it.
pub struct BatchSummary {
    pub status: String,
    pub end_date: Option<String>,
}

/// The outcome of fetching a product's batch from the production service.
pub enum BatchOutcome {
    Fetched(BatchSummary),
    Unreachable,
}

/// The requested value, or the stored one.
pub open spec fn pick(requested: Option<String>, stored: String) -> Seq<char> {
    match requested {
        Some(s) => s@,
        None => stored@,
    }
}

/// The activity a state change asks for; other requests keep or set `is_active`.
pub open spec fn requested_activity(existing: &Product, req: &UpdateProductRequest) -> bool {
    match req.status {
        Some(st) => st@ == "ON_SALE"@,
        None => match req.is_active {
            Some(a) => a,
            None => existing.is_active,
        },
    }
}

/// The merged product's policy outcome.
pub open spec fn update_policy_outcome(existing: &Product, req: &UpdateProductRequest) -> Result<
    (),
    PolicyError,
> {
    let name = pick(req.name, existing.name);
    let ty = pick(req.product_type, existing.product_type);
    let unit = pick(req.unit, existing.unit);
    let quantity_negative = match req.quantity {
        Some(n) => n.negative,
        None => existing.quantity < 0,
    };
    let price_negative = match req.price {
        Some(n) => n.negative,
        None => existing.price < 0,
    };
    if is_blank(name) {
        Err(PolicyError::NameEmpty)
    } else if is_blank(ty) {
        Err(PolicyError::TypeEmpty)
    } else if price_negative {
        Err(PolicyError::PriceNegative)
    } else if quantity_negative {
        Err(PolicyError::QuantityNegative)
    } else if is_food_type(ty) && is_blank(unit) {
        Err(PolicyError::UnitRequired)
    } else {
        Ok(())
    }
}

/// The batch check for a product going on sale.
pub open spec fn batch_outcome(
    batch_id: Option<u128>,
    fetched: BatchOutcome,
    expiry: Option<i32>,
) -> Result<(), ProductError> {
    if batch_id is None {
        Err(ProductError::BatchRequired)
    } else {
        match fetched {
            BatchOutcome::Unreachable => Err(ProductError::BatchUnavailable),
            BatchOutcome::Fetched(b) => if b.status@ != "COMPLETED"@ {
                Err(ProductError::BatchNotCompleted)
            } else {
                match (expiry, b.end_date) {
                    (Some(e), Some(end)) => match ymd_date(end@) {
                        Some(d) => if e < d {
                            Err(ProductError::ExpiryBeforeProduction)
                        } else {
                            Ok(())
                        },
                        None => Ok(()),
                    },
                    _ => Ok(()),
                }
            },
        }
    }
}

/// The refusal an update meets, if any.
pub open spec fn update_refusal(
    existing: &Product,
    req: &UpdateProductRequest,
    batch: BatchOutcome,
    measured: bool,
) -> Option<ProductError> {
    let active = requested_activity(existing, req);
    let batch_id = match req.batch_id {
        Some(b) => Some(b),
        None => existing.batch_id,
    };
    let expiry = match req.expiry_date {
        Some(e) => Some(e),
        None => existing.expiry_date,
    };
    if existing.status@ == "PRODUCTION"@ {
        Some(ProductError::PlannedProduct)
    } else if req.status is Some && req.status->0@ != "STORAGE"@ && req.status->0@
        != "ON_SALE"@ {
        Some(ProductError::InvalidState)
    } else if update_policy_outcome(existing, req) is Err {
        Some(ProductError::Policy(update_policy_outcome(existing, req)->Err_0))
    } else if req.quantity is Some && (!req.quantity->0.finite || req.quantity->0.negative) {
        Some(ProductError::InvalidQuantity)
    } else if active && batch_outcome(batch_id, batch, expiry) is Err {
        Some(batch_outcome(batch_id, batch, expiry)->Err_0)
    } else if active && !(match req.price {
        Some(p) => p.finite && p.positive,
        None => existing.price > 0,
    }) {
        Some(ProductError::PriceRequired)
    } else if measured && ((req.batch_id is Some && Some(req.batch_id->0) != existing.batch_id)
        || (req.unit is Some && req.unit->0@ != existing.unit@) || (req.quantity is Some
        && req.quantity->0.stored != DecimalReading::Milli(existing.quantity))) {
        Some(ProductError::MeasuredLocked)
    } else if req.price is Some && (!req.price->0.finite || req.price->0.negative) {
        Some(ProductError::InvalidPrice)
    } else {
        None
    }
}

/// What an accepted update writes.
pub open spec fn update_writes(
    existing: &Product,
    req: &UpdateProductRequest,
    p: &UpdateParams,
) -> bool {
    let active = requested_activity(existing, req);
    &&& p.name@ == pick(req.name, existing.name)
    &&& p.product_type@ == pick(req.product_type, existing.product_type)
    &&& match req.description {
        Some(d) => p.description is Some && p.description->0@ == d@,
        None => match existing.description {
            Some(d) => p.description is Some && p.description->0@ == d@,
            None => p.description is None,
        },
    }
    &&& p.quantity == req.quantity
    &&& p.unit@ == pick(req.unit, existing.unit)
    &&& match req.price {
        Some(n) => p.price == PriceUpdate::Requested(n),
        None => p.price == PriceUpdate::Keep(existing.price),
    }
    &&& p.expiry_date == (match req.expiry_date {
        Some(e) => Some(e),
        None => existing.expiry_date,
    })
    &&& p.batch_id == (match req.batch_id {
        Some(b) => Some(b),
        None => existing.batch_id,
    })
    &&& p.status@ == (if active {
        "ON_SALE"@
    } else {
        "STORAGE"@
    })
    &&& p.is_active == active
}

fn pick_string(requested: &Option<String>, stored: &String) -> (r: String)
    ensures
        r@ == pick(*requested, *stored),
{
    match requested {
        Some(s) => s.clone(),
        None => stored.clone(),
    }
}

/// Whether a product is still fresh on `today`.
pub open spec fn fresh_on(expiry: Option<i32>, today: i32) -> bool {
    match expiry {
        Some(d) => d >= today,
        None => true,
    }
}

fn fresh(expiry: Option<i32>, today: i32) -> (r: bool)
    ensures
        r == fresh_on(expiry, today),
{
    match expiry {
        Some(d) => d >= today,
        None => true,
    }
}

/// Whether `claims` may read `product` on `today`.
pub open spec fn may_read(product: &Product, claims: &Claims, today: i32) -> bool {
    if claims.role@ == "SYSTEM_ADMIN"@ {
        true
    } else if claims.role@ == "CUSTOMER"@ {
        product.is_active && fresh_on(product.expiry_date, today)
    } else if claims.role@ == "FARM_OWNER"@ || claims.role@ == "WORKER"@ {
        claims.business_id == Some(product.business_id)
    } else {
        false
    }
}

/// Admins read every product, customers what is on sale and fresh on `today`,
/// owners and workers their own business's products; everyone else is told
/// the product does not exist.
pub fn authorize_read(product: &Product, claims: &Claims, today: i32) -> (r: Result<(), ProductError>)
    ensures
        r is Ok <==> may_read(product, claims, today),
        r is Err ==> r == Err::<(), ProductError>(ProductError::NotReadable),
{
    let role = claims.role.as_str();
    let allowed = if str_eq(role, "SYSTEM_ADMIN") {
        true
    } else if str_eq(role, "CUSTOMER") {
        product.is_active && fresh(product.expiry_date, today)
    } else if str_eq(role, "FARM_OWNER") || str_eq(role, "WORKER") {
        claims.business_id == Some(product.business_id)
    } else {
        false
    };
    if allowed {
        Ok(())
    } else {
        Err(ProductError::NotReadable)
    }
}

/// The product service's rules.
pub struct ProductService;

impl ProductService {
    /// Whether an update puts the product on sale, so that its batch must be checked.
    pub fn sale_requested(existing: &Product, req: &UpdateProductRequest) -> (r: bool)
        ensures
            r == requested_activity(existing, req),
            req.status is None && req.is_active is None ==> r == existing.is_active,
    {
        match &req.status {
            Some(st) => str_eq(st.as_str(), "ON_SALE"),
            None => match req.is_active {
                Some(a) => a,
                None => existing.is_active,
            },
        }
    }

    /// Checks the production batch of a product going on sale.
    pub fn validate_batch(batch_id: Option<u128>, fetched: &BatchOutcome, expiry: Option<i32>) -> (r:
        Result<(), ProductError>)
        ensures
            r == batch_outcome(batch_id, *fetched, expiry),
    {
        if batch_id.is_none() {
            return Err(ProductError::BatchRequired);
        }
        match fetched {
            BatchOutcome::Unreachable => Err(ProductError::BatchUnavailable),
            BatchOutcome::Fetched(b) => {
                if !str_eq(b.status.as_str(), "COMPLETED") {
                    return Err(ProductError::BatchNotCompleted);
                }
                match (expiry, &b.end_date) {
                    (Some(e), Some(end)) => match parse_ymd_date(end.as_str()) {
                        Some(d) => if e < d {
                            Err(ProductError::ExpiryBeforeProduction)
                        } else {
                            Ok(())
                        },
                        None => Ok(()),
                    },
                    _ => Ok(()),
                }
            },
        }
    }

    /// Checks an update of `existing` and merges it: `batch` is what fetching the
    /// product's batch gave (read only when the product goes on sale) and
    /// `measured` whether the product is a measured production output.
    pub fn update(
        existing: &Product,
        req: UpdateProductRequest,
        batch: &BatchOutcome,
        measured: bool,
    ) -> (r: Result<UpdateParams, ProductError>)
        ensures
            match update_refusal(existing, &req, *batch, measured) {
                Some(e) => r == Err::<UpdateParams, ProductError>(e),
                None => r is Ok && update_writes(existing, &req, &r->Ok_0),
            },
    {
        if str_eq(existing.status.as_str(), "PRODUCTION") {
            return Err(ProductError::PlannedProduct);
        }
        if let Some(st) = &req.status {
            if !str_eq(st.as_str(), "STORAGE") && !str_eq(st.as_str(), "ON_SALE") {
                return Err(ProductError::InvalidState);
            }
        }
        let active = ProductService::sale_requested(existing, &req);
        let product_type = pick_string(&req.product_type, &existing.product_type);
        let merged = CreateProductRequest {
            name: pick_string(&req.name, &existing.name),
            product_type: product_type.clone(),
            description: req.description.clone(),
            quantity: match req.quantity {
                Some(n) => n,
                None => Number::from_milli(existing.quantity),
            },
            unit: pick_string(&req.unit, &existing.unit),
            price: match req.price {
                Some(n) => n,
                None => Number::from_milli(existing.price),
            },
            expiry_date: match req.expiry_date {
                Some(e) => Some(e),
                None => existing.expiry_date,
            },
            batch_id: match req.batch_id {
                Some(b) => Some(b),
                None => existing.batch_id,
            },
        };
        let policy = ProductPolicyFactory::for_type(product_type.as_str());
        match policy.validate(&merged) {
            Err(e) => {
                return Err(ProductError::Policy(e));
            },
            Ok(()) => {},
        }
        if let Some(q) = req.quantity {
            if !q.finite || q.negative {
                return Err(ProductError::InvalidQuantity);
            }
        }
        let batch_id = match req.batch_id {
            Some(b) => Some(b),
            None => existing.batch_id,
        };
        let expiry = match req.expiry_date {
            Some(e) => Some(e),
            None => existing.expiry_date,
        };
        if active {
            match ProductService::validate_batch(batch_id, batch, expiry) {
                Err(e) => {
                    return Err(e);
                },
                Ok(()) => {},
            }
            let priced = match req.price {
                Some(p) => p.finite && p.positive,
                None => existing.price > 0,
            };
            if !priced {
                return Err(ProductError::PriceRequired);
            }
        }
        if measured {
            let batch_changed = match req.batch_id {
                Some(b) => Some(b) != existing.batch_id,
                None => false,
            };
            let unit_changed = match &req.unit {
                Some(u) => !str_eq(u.as_str(), existing.unit.as_str()),
                None => false,
            };
            let quantity_changed = match req.quantity {
                Some(q) => q.stored != DecimalReading::Milli(existing.quantity),
                None => false,
            };
            if batch_changed || unit_changed || quantity_changed {
                return Err(ProductError::MeasuredLocked);
            }
        }
        if let Some(p) = req.price {
            if !p.finite || p.negative {
                return Err(ProductError::InvalidPrice);
            }
        }
        let description = match &req.description {
            Some(d) => Some(d.clone()),
            None => match &existing.description {
                Some(d) => Some(d.clone()),
                None => None,
            },
        };
        let status = if active {
            String::from_str("ON_SALE")
        } else {
            String::from_str("STORAGE")
        };
        let params = UpdateParams {
            name: pick_string(&req.name, &existing.name),
            product_type,
            description,
            quantity: req.quantity,
            unit: pick_string(&req.unit, &existing.unit),
            price: match req.price {
                Some(n) => PriceUpdate::Requested(n),
                None => PriceUpdate::Keep(existing.price),
            },
            expiry_date: expiry,
            batch_id,
            status,
            is_active: active,
        };
        Ok(params)
    }

    /// Whether a product may be deleted; planned products go through their batch.
    pub fn check_delete(product: &Product) -> (r: Result<(), ProductError>)
        ensures
            r is Err <==> product.status@ == "PRODUCTION"@,
            r is Err ==> r == Err::<(), ProductError>(ProductError::PlannedDelete),
    {
        if str_eq(product.status.as_str(), "PRODUCTION") {
            Err(ProductError::PlannedDelete)
        } else {
            Ok(())
        }
    }

    /// The answer to a soft delete that changed `rows` rows.
    pub fn delete_outcome(rows: u64) -> (r: Result<(), ProductError>)
        ensures
            r is Ok <==> rows > 0,
            r is Err ==> r == Err::<(), ProductError>(ProductError::NotFound),
    {
        if rows == 0 {
            Err(ProductError::NotFound)
        } else {
            Ok(())
        }
    }

    /// A product as readers see it: active only while its batch is completed
    /// and it has not expired on `today`.
    pub fn get_one(product: Product, batch_completed: bool, today: i32) -> (r: Product)
        ensures
            r.is_active == (product.is_active && batch_completed && fresh_on(
                product.expiry_date,
                today,
            )),
            r == (Product { is_active: r.is_active, ..product }),
    {
        let active = product.is_active && batch_completed && fresh(product.expiry_date, today);
        Product { is_active: active, ..product }
    }

    /// Products are only created by completing a production batch.
    pub fn create(business_id: u128, req: CreateProductRequest) -> (r: Result<
        Product,
        ProductError,
    >)
        ensures
            r == Err::<Product, ProductError>(ProductError::CreateDisabled),
    {
        Err(ProductError::CreateDisabled)
    }
}

/// How an accepted update sets the product's activity: a requested state puts
/// it on sale exactly when that state is "ON_SALE"; otherwise a requested
/// `is_active` decides; a request that names neither keeps the stored
/// activity, so renaming a product on sale leaves it on sale. The written
/// status is "ON_SALE" exactly when the product is active, "STORAGE" otherwise.
pub proof fn law_update_activity(existing: Product, req: UpdateProductRequest, p: UpdateParams)
    requires
        update_writes(&existing, &req, &p),
    ensures
        req.status is None && req.is_active is None ==> p.is_active == existing.is_active,
        req.status is None && req.is_active is Some ==> p.is_active == req.is_active->0,
        req.status is Some ==> (p.is_active <==> req.status->0@ == "ON_SALE"@),
        p.status@ == "ON_SALE"@ <==> p.is_active,
        !p.is_active ==> p.status@ == "STORAGE"@,
{
    reveal_strlit("ON_SALE");
    reveal_strlit("STORAGE");
    assert("ON_SALE"@ != "STORAGE"@) by {
        assert("ON_SALE"@[1] != "STORAGE"@[1]);
    }
}

/// An accepted update writes each field the request gives and keeps the
/// stored one otherwise: name, type, description, unit, price, expiry and
/// batch; a requested quantity is passed on as asked.
pub proof fn law_update_merges(existing: Product, req: UpdateProductRequest, p: UpdateParams)
    requires
        update_writes(&existing, &req, &p),
    ensures
        req.name matches Some(n) ==> p.name@ == n@,
        req.name is None ==> p.name@ == existing.name@,
        req.product_type matches Some(t) ==> p.product_type@ == t@,
        req.product_type is None ==> p.product_type@ == existing.product_type@,
        req.unit matches Some(u) ==> p.unit@ == u@,
        req.unit is None ==> p.unit@ == existing.unit@,
        req.description matches Some(d) ==> (p.description matches Some(w) && w@ == d@),
        req.description is None && existing.description is None ==> p.description is None,
        req.description is None && existing.description is Some ==> (p.description matches Some(w)
            && w@ == existing.description->0@),
        req.price matches Some(n) ==> p.price == PriceUpdate::Requested(n),
        req.price is None ==> p.price == PriceUpdate::Keep(existing.price),
        req.expiry_date is Some ==> p.expiry_date == req.expiry_date,
        req.expiry_date is None ==> p.expiry_date == existing.expiry_date,
        req.batch_id is Some ==> p.batch_id == req.batch_id,
        req.batch_id is None ==> p.batch_id == existing.batch_id,
        p.quantity == req.quantity,
{
}

/// What an accepted update has passed: the product is not a planned one; a
/// requested state is "STORAGE" or "ON_SALE"; the merged name and type are not
/// blank; a requested quantity is finite and not negative, a requested price
/// too; a product put on sale has a batch, which the production service
/// reports as completed, and a positive price; a measured output keeps its
/// batch, unit and quantity.
pub proof fn law_update_accepts(
    existing: Product,
    req: UpdateProductRequest,
    batch: BatchOutcome,
    measured: bool,
    p: UpdateParams,
)
    requires
        update_refusal(&existing, &req, batch, measured) is None,
        update_writes(&existing, &req, &p),
    ensures
        existing.status@ != "PRODUCTION"@,
        req.status matches Some(st) ==> (st@ == "STORAGE"@ || st@ == "ON_SALE"@),
        !is_blank(p.name@) && !is_blank(p.product_type@),
        req.quantity matches Some(q) ==> q.finite && !q.negative,
        req.price matches Some(n) ==> n.finite && !n.negative,
        p.is_active ==> p.batch_id is Some,
        p.is_active ==> (batch matches BatchOutcome::Fetched(b) && b.status@ == "COMPLETED"@),
        p.is_active ==> match req.price {
            Some(n) => n.finite && n.positive,
            None => existing.price > 0,
        },
        measured ==> p.unit@ == existing.unit@ && p.batch_id == existing.batch_id && (
        req.quantity matches Some(q) ==> q.stored == DecimalReading::Milli(existing.quantity)),
{
}

} // verus!
