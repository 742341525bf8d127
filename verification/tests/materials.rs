use local_bite::materials::models::{CreateRawMaterialRequest, RawMaterial, UpdateRawMaterialRequest};
use local_bite::materials::query::ListQuery;
use local_bite::materials::service::{validate_dates, MaterialError, RawMaterialRepository, RawMaterialService};
use local_bite::numbers::Number;
use std::sync::Arc;

fn service() -> RawMaterialService {
    RawMaterialService::new(Arc::new(RawMaterialRepository))
}

fn create_request(name: &str, unit: &str, quantity: i64) -> CreateRawMaterialRequest {
    CreateRawMaterialRequest {
        name: name.to_string(),
        material_type: " meat ".to_string(),
        quantity: Number::from_milli(quantity),
        unit: unit.to_string(),
        supplier: None,
        origin: Some("Srem".to_string()),
        harvest_date: Some(10),
        received_date: Some(12),
        expiry_date: Some(40),
        notes: None,
        low_stock_threshold: None,
    }
}

fn material() -> RawMaterial {
    RawMaterial {
        id: 1,
        business_id: 2,
        name: "Pork".to_string(),
        material_type: "meat".to_string(),
        quantity: 3000,
        unit: "kg".to_string(),
        supplier: Some("Farm".to_string()),
        origin: None,
        harvest_date: Some(10),
        received_date: Some(11),
        expiry_date: Some(30),
        notes: None,
        low_stock_threshold: Some(500),
        is_deleted: false,
        created_at: 0,
        updated_at: 0,
    }
}

fn no_change() -> UpdateRawMaterialRequest {
    UpdateRawMaterialRequest {
        name: None,
        material_type: None,
        quantity: None,
        unit: None,
        supplier: None,
        origin: None,
        harvest_date: None,
        received_date: None,
        expiry_date: None,
        notes: None,
        low_stock_threshold: None,
    }
}

#[test]
fn expiry_is_not_before_harvest_or_receipt() {
    assert_eq!(validate_dates(Some(1), Some(2), Some(2)), Ok(()));
    assert_eq!(validate_dates(Some(3), None, Some(2)), Err(MaterialError::DatesOutOfOrder));
    assert_eq!(validate_dates(None, Some(3), Some(2)), Err(MaterialError::DatesOutOfOrder));
    assert_eq!(validate_dates(Some(9), Some(9), None), Ok(()));
}

#[test]
fn creating_trims_and_checks() {
    let s = service();
    let m = s.create(2, create_request("  Pork shoulder ", " kg ", 1500)).ok().unwrap();
    assert_eq!(m.name, "Pork shoulder");
    assert_eq!(m.unit, "kg");
    assert_eq!(m.material_type, "meat");
    assert_eq!(m.business_id, 2);
    assert!(matches!(s.create(2, create_request(" ", "kg", 1)), Err(MaterialError::NameEmpty)));
    assert!(matches!(s.create(2, create_request("A", "kg", -1)), Err(MaterialError::QuantityNegative)));
    assert!(matches!(s.create(2, create_request("A", "", 1)), Err(MaterialError::UnitEmpty)));
    let mut late = create_request("A", "kg", 1);
    late.expiry_date = Some(5);
    assert!(matches!(s.create(2, late), Err(MaterialError::DatesOutOfOrder)));
}

#[test]
fn updating_merges_with_the_stored_material() {
    let s = service();
    let mut req = no_change();
    req.name = Some("Pork belly".to_string());
    req.expiry_date = Some(31);
    let c = s.update(&material(), req).ok().unwrap();
    assert_eq!(c.name, "Pork belly");
    assert_eq!(c.unit, "kg");
    assert_eq!(c.supplier.as_deref(), Some("Farm"));
    assert_eq!(c.expiry_date, Some(31));
    assert_eq!(c.low_stock_threshold, Some(Number::from_milli(500)));
    assert_eq!(c.quantity, Number::from_milli(3000));
    let mut req = no_change();
    req.quantity = Some(Number::from_milli(4500));
    assert_eq!(s.update(&material(), req).ok().unwrap().quantity, Number::from_milli(4500));
    let mut req = no_change();
    req.harvest_date = Some(31);
    assert!(matches!(s.update(&material(), req), Err(MaterialError::DatesOutOfOrder)));
    assert_eq!(s.delete(0), Err(MaterialError::NotFound));
    assert_eq!(s.delete(1), Ok(()));
    assert!(matches!(s.adjust_quantity(None, 1, 2, Number::from_milli(500)), Err(MaterialError::AdjustmentRefused)));
    let q = ListQuery { page: Some(2), limit: Some(10), material_type: None, search: None };
    let page = s.list(vec![material()], 11, &q);
    assert_eq!((page.total, page.page, page.limit, page.data.len()), (11, 2, 10, 1));
    assert_eq!(MaterialError::NotFound.status(), 404);
    assert_eq!(MaterialError::UnitEmpty.status(), 400);
}

#[test]
fn adjustment_adds_the_delta_and_never_goes_negative() {
    let s = service();
    let adjust = |delta: Number| s.adjust_quantity(Some(material()), 1, 2, delta);
    // 2.5 restocked, 1.0 and 3.0 deducted.
    let m = adjust(Number::from_float(true, false, true, "2.5")).ok().unwrap();
    assert_eq!(m.quantity, 5500);
    assert_eq!(m.name, "Pork");
    assert_eq!(adjust(Number::from_float(true, true, false, "-1")).ok().unwrap().quantity, 2000);
    assert_eq!(adjust(Number::from_milli(-3000)).ok().unwrap().quantity, 0);
    assert!(matches!(adjust(Number::from_milli(-3001)), Err(MaterialError::AdjustmentRefused)));
    // A delta finer than the stored precision, or too large, is not applied.
    assert!(matches!(adjust(Number::from_float(true, false, true, "0.0001")), Err(MaterialError::AdjustmentRefused)));
    assert!(matches!(adjust(Number::from_float(true, false, true, "1e30")), Err(MaterialError::AdjustmentRefused)));
    // A non-finite delta reads as zero.
    assert_eq!(adjust(Number::from_float(false, false, false, "NaN")).ok().unwrap().quantity, 3000);
    // Another business, another id or a deleted row is refused.
    assert!(matches!(s.adjust_quantity(Some(material()), 1, 9, Number::from_milli(1)), Err(MaterialError::AdjustmentRefused)));
    assert!(matches!(s.adjust_quantity(Some(material()), 7, 2, Number::from_milli(1)), Err(MaterialError::AdjustmentRefused)));
    let mut gone = material();
    gone.is_deleted = true;
    assert!(matches!(s.adjust_quantity(Some(gone), 1, 2, Number::from_milli(1)), Err(MaterialError::AdjustmentRefused)));
}
