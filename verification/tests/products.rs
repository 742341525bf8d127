use local_bite::auth::Claims;
use local_bite::numbers::Number;
use local_bite::products::model::{CreateProductRequest, PriceUpdate, Product, UpdateProductRequest};
use local_bite::products::policy::{PolicyError, ProductPolicy, ProductPolicyFactory, SelectedPolicy};
use local_bite::products::service::{authorize_read, BatchOutcome, BatchSummary, ProductError, ProductService};
use uuid::Uuid;

fn milli(m: i64) -> Number {
    Number::from_milli(m)
}

fn product(business: u128) -> Product {
    Product {
        id: Uuid::new_v4().as_u128(),
        business_id: business,
        name: "Kulen".to_string(),
        product_type: "meat".to_string(),
        description: Some("Smoked".to_string()),
        quantity: 5000,
        unit: "kg".to_string(),
        price: 12_000,
        expiry_date: Some(1000),
        batch_id: Some(7),
        image_path: None,
        qr_token: 9,
        qr_path: None,
        status: "STORAGE".to_string(),
        is_active: false,
        is_deleted: false,
        created_at: 0,
        updated_at: 0,
    }
}

fn no_change() -> UpdateProductRequest {
    UpdateProductRequest {
        name: None,
        product_type: None,
        description: None,
        quantity: None,
        unit: None,
        price: None,
        batch_id: None,
        is_active: None,
        status: None,
        expiry_date: None,
    }
}

fn completed(end: Option<&str>) -> BatchOutcome {
    BatchOutcome::Fetched(BatchSummary { status: "COMPLETED".to_string(), end_date: end.map(|s| s.to_string()) })
}

fn request(name: &str, ty: &str, unit: &str, quantity: i64, price: i64) -> CreateProductRequest {
    CreateProductRequest {
        name: name.to_string(),
        product_type: ty.to_string(),
        description: None,
        quantity: milli(quantity),
        unit: unit.to_string(),
        price: milli(price),
        expiry_date: None,
        batch_id: None,
    }
}

#[test]
fn policies_by_product_type() {
    assert!(matches!(ProductPolicyFactory::for_type(" Meat "), SelectedPolicy::Food(_)));
    assert!(matches!(ProductPolicyFactory::for_type("HONEY"), SelectedPolicy::Food(_)));
    assert!(matches!(ProductPolicyFactory::for_type("soap"), SelectedPolicy::Generic(_)));
    let food = ProductPolicyFactory::for_type("dairy");
    let generic = ProductPolicyFactory::for_type("candles");
    assert_eq!(food.validate(&request("Cheese", "dairy", "", 1, 1)), Err(PolicyError::UnitRequired));
    assert_eq!(generic.validate(&request("Candle", "candles", "", 1, 1)), Ok(()));
    assert_eq!(generic.validate(&request(" ", "candles", "", 1, 1)), Err(PolicyError::NameEmpty));
    assert_eq!(generic.validate(&request("C", "", "", 1, 1)), Err(PolicyError::TypeEmpty));
    assert_eq!(generic.validate(&request("C", "x", "", 1, -1)), Err(PolicyError::PriceNegative));
    assert_eq!(generic.validate(&request("C", "x", "", -1, 1)), Err(PolicyError::QuantityNegative));
    assert_eq!(PolicyError::UnitRequired.message(), "Food products require a unit of measure");
}

#[test]
fn update_merges_and_checks_the_batch() {
    let business = Uuid::new_v4().as_u128();
    let existing = product(business);
    let mut req = no_change();
    req.status = Some("ON_SALE".to_string());
    req.name = Some("Kulen extra".to_string());
    let params = ProductService::update(&existing, req, &completed(Some("0002-01-01")), false).unwrap();
    assert_eq!(params.name, "Kulen extra");
    assert_eq!(params.status, "ON_SALE");
    assert!(params.is_active);
    assert!(matches!(params.price, PriceUpdate::Keep(12_000)));
    assert_eq!(params.description.as_deref(), Some("Smoked"));
    assert_eq!(params.batch_id, Some(7));

    let mut req = no_change();
    req.status = Some("SOLD".to_string());
    assert!(matches!(ProductService::update(&existing, req, &completed(None), false), Err(ProductError::InvalidState)));

    let mut req = no_change();
    req.status = Some("ON_SALE".to_string());
    assert!(matches!(
        ProductService::update(&existing, req, &BatchOutcome::Unreachable, false),
        Err(ProductError::BatchUnavailable)
    ));

    // The product would expire before its batch ends.
    let mut req = no_change();
    req.status = Some("ON_SALE".to_string());
    req.expiry_date = Some(700_000);
    let end_after = ProductService::update(&existing, req, &completed(Some("9999-01-01")), false);
    assert!(matches!(end_after, Err(ProductError::ExpiryBeforeProduction)));

    let mut req = no_change();
    req.is_active = Some(true);
    req.price = Some(milli(0));
    assert!(matches!(
        ProductService::update(&existing, req, &completed(None), false),
        Err(ProductError::PriceRequired)
    ));

    let mut req = no_change();
    req.quantity = Some(milli(4000));
    assert!(matches!(
        ProductService::update(&existing, req, &completed(None), true),
        Err(ProductError::MeasuredLocked)
    ));
    let mut req = no_change();
    req.quantity = Some(milli(5000));
    assert!(ProductService::update(&existing, req, &completed(None), true).is_ok());

    let mut req = no_change();
    req.unit = Some(String::new());
    assert!(matches!(
        ProductService::update(&existing, req, &completed(None), false),
        Err(ProductError::Policy(PolicyError::UnitRequired))
    ));

    let mut req = no_change();
    req.price = Some(milli(-5));
    assert!(matches!(
        ProductService::update(&existing, req, &completed(None), false),
        Err(ProductError::Policy(PolicyError::PriceNegative))
    ));

    let mut planned = product(business);
    planned.status = "PRODUCTION".to_string();
    assert!(matches!(
        ProductService::update(&planned, no_change(), &completed(None), false),
        Err(ProductError::PlannedProduct)
    ));
    assert_eq!(ProductService::check_delete(&planned), Err(ProductError::PlannedDelete));
    assert_eq!(ProductService::check_delete(&existing), Ok(()));
    assert_eq!(ProductService::delete_outcome(0), Err(ProductError::NotFound));
    assert_eq!(ProductService::delete_outcome(1), Ok(()));
}

#[test]
fn batch_checks() {
    assert_eq!(ProductService::validate_batch(None, &completed(None), None), Err(ProductError::BatchRequired));
    let planned = BatchOutcome::Fetched(BatchSummary { status: "IN_PROGRESS".to_string(), end_date: None });
    assert_eq!(ProductService::validate_batch(Some(1), &planned, None), Err(ProductError::BatchNotCompleted));
    // An unreadable end date is not held against the product.
    assert_eq!(ProductService::validate_batch(Some(1), &completed(Some("01/02/2024")), Some(1)), Ok(()));
}

fn claims(role: &str, business: Option<u128>) -> Claims {
    Claims { sub: 1, email: String::new(), role: role.to_string(), business_id: business, iat: 0, exp: 1 }
}

#[test]
fn who_reads_a_product() {
    let business = Uuid::new_v4().as_u128();
    let mut p = product(business);
    assert_eq!(authorize_read(&p, &claims("SYSTEM_ADMIN", None), 5), Ok(()));
    assert_eq!(authorize_read(&p, &claims("FARM_OWNER", Some(business)), 5), Ok(()));
    assert_eq!(authorize_read(&p, &claims("WORKER", Some(business + 1)), 5), Err(ProductError::NotReadable));
    assert_eq!(authorize_read(&p, &claims("CUSTOMER", None), 5), Err(ProductError::NotReadable));
    p.is_active = true;
    assert_eq!(authorize_read(&p, &claims("CUSTOMER", None), 1000), Ok(()));
    assert_eq!(authorize_read(&p, &claims("CUSTOMER", None), 1001), Err(ProductError::NotReadable));
    assert_eq!(authorize_read(&p, &claims("AUDITOR", None), 5), Err(ProductError::NotReadable));
    assert_eq!(ProductError::NotReadable.status(), 404);

    let shown = ProductService::get_one(product(business), true, 5);
    assert!(!shown.is_active);
    let mut on_sale = product(business);
    on_sale.is_active = true;
    assert!(ProductService::get_one(on_sale, true, 5).is_active);
    let mut on_sale = product(business);
    on_sale.is_active = true;
    assert!(!ProductService::get_one(on_sale, false, 5).is_active);
    assert!(matches!(
        ProductService::create(business, request("A", "b", "kg", 1, 1)),
        Err(ProductError::CreateDisabled)
    ));
}
