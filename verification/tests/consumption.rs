use local_bite::auth::{AuthError, Claims};
use local_bite::materials::consumption::{
    consumption_scope, Consumption, ConsumptionError, Material, MaterialLedger,
};
use uuid::Uuid;

fn ledger(business: u128, ids: &[u128]) -> MaterialLedger {
    let mut l = MaterialLedger::new();
    for id in ids {
        l.materials.push(Material {
            id: *id,
            business_id: business,
            quantity: 10_000,
            unit: "kg".to_string(),
            is_deleted: false,
        });
    }
    l
}

fn item(op: u128, material: u128, milli: Option<i64>) -> Consumption {
    Consumption { operation_id: op, raw_material_id: material, quantity: milli, unit: "kg".to_string() }
}

fn stock(l: &MaterialLedger, id: u128) -> i64 {
    l.materials.iter().find(|m| m.id == id).unwrap().quantity
}

fn new_id() -> u128 {
    Uuid::new_v4().as_u128()
}

#[test]
fn consumption_is_atomic_scoped_and_idempotent() {
    let business = new_id();
    let material = new_id();
    let second = new_id();
    let op = new_id();
    let mut l = ledger(business, &[material, second]);

    l.consume(business, vec![item(op, material, Some(3000))]).unwrap();
    l.consume(business, vec![item(op, material, Some(3000))]).unwrap();
    assert_eq!(stock(&l, material), 7000);

    assert!(l
        .consume(business, vec![item(new_id(), material, Some(2000)), item(new_id(), second, Some(11_000))])
        .is_err());
    assert_eq!(stock(&l, material), 7000);
    assert_eq!(stock(&l, second), 10_000);

    assert!(l.consume(new_id(), vec![item(new_id(), material, Some(1000))]).is_err());

    let mut wrong_unit = item(new_id(), material, Some(1000));
    wrong_unit.unit = "L".to_string();
    assert_eq!(l.consume(business, vec![wrong_unit]), Err(ConsumptionError::Unavailable));

    // -1.0, 0.0, 0.0009 and 1.2345 as the service reads them.
    for invalid in [Some(-1000), Some(0), None, None] {
        assert_eq!(
            l.consume(business, vec![item(new_id(), material, invalid)]),
            Err(ConsumptionError::InvalidItem)
        );
    }

    l.release(business, vec![op]).unwrap();
    l.release(business, vec![op]).unwrap();
    assert_eq!(stock(&l, material), 10_000);

    // A released operation can never be consumed again.
    assert_eq!(
        l.consume(business, vec![item(op, material, Some(3000))]),
        Err(ConsumptionError::Released)
    );
}

#[test]
fn reused_operation_with_other_amount_is_refused() {
    let business = new_id();
    let material = new_id();
    let op = new_id();
    let mut l = ledger(business, &[material]);
    l.consume(business, vec![item(op, material, Some(1500))]).unwrap();
    assert_eq!(
        l.consume(business, vec![item(op, material, Some(2500))]),
        Err(ConsumptionError::AlreadyUsed)
    );
    assert_eq!(stock(&l, material), 8500);
    let mut blank = item(new_id(), material, Some(1000));
    blank.unit = "   ".to_string();
    assert_eq!(l.consume(business, vec![blank]), Err(ConsumptionError::InvalidItem));
    // A padded unit is read trimmed.
    let mut padded = item(new_id(), material, Some(500));
    padded.unit = " kg ".to_string();
    l.consume(business, vec![padded]).unwrap();
    assert_eq!(stock(&l, material), 8000);
}

#[test]
fn release_by_another_business_gives_nothing_back() {
    let business = new_id();
    let material = new_id();
    let op = new_id();
    let mut l = ledger(business, &[material]);
    l.consume(business, vec![item(op, material, Some(4000))]).unwrap();
    l.release(new_id(), vec![op]).unwrap();
    assert_eq!(stock(&l, material), 6000);
    // The tombstone still blocks the operation.
    assert_eq!(
        l.consume(business, vec![item(op, material, Some(4000))]),
        Err(ConsumptionError::Released)
    );
}

#[test]
fn consumption_error_statuses() {
    assert_eq!(ConsumptionError::Released.status(), 409);
    assert_eq!(ConsumptionError::AlreadyUsed.status(), 409);
    assert_eq!(ConsumptionError::InvalidItem.status(), 400);
    assert_eq!(ConsumptionError::Unavailable.status(), 400);
    assert_eq!(ConsumptionError::OutOfRange.status(), 500);
    assert_eq!(ConsumptionError::Released.message(), "Consumption has been released");
}

fn claims(business: Option<u128>, role: &str, sub: u128) -> Claims {
    Claims {
        sub,
        email: "test@example.com".to_string(),
        role: role.to_string(),
        business_id: business,
        iat: 0,
        exp: u64::MAX,
    }
}

#[test]
fn only_the_stock_service_consumes() {
    let business = new_id();
    assert_eq!(consumption_scope(&claims(Some(business), "MATERIAL_STOCK", 0)), Ok(business));
    assert_eq!(
        consumption_scope(&claims(Some(business), "CUSTOMER", 0)),
        Err(ConsumptionError::Auth(AuthError::ServiceScope))
    );
    assert_eq!(
        consumption_scope(&claims(Some(business), "MATERIAL_STOCK", 7)),
        Err(ConsumptionError::Auth(AuthError::ServiceScope))
    );
    assert_eq!(
        consumption_scope(&claims(None, "MATERIAL_STOCK", 0)),
        Err(ConsumptionError::Auth(AuthError::NoBusiness))
    );
}

#[test]
fn releasing_unbooked_operations_adds_no_stock() {
    let business = new_id();
    let material = new_id();
    let mut l = ledger(business, &[material]);
    let never_booked = new_id();
    l.release(business, vec![never_booked, new_id()]).unwrap();
    assert_eq!(stock(&l, material), 10_000);
    assert_eq!(l.tombstones.len(), 2);
    assert_eq!(
        l.consume(business, vec![item(never_booked, material, Some(1000))]),
        Err(ConsumptionError::Released)
    );
    assert_eq!(stock(&l, material), 10_000);
}

#[test]
fn a_batch_takes_the_sum_of_its_items_per_material() {
    let business = new_id();
    let (m1, m2, m3) = (new_id(), new_id(), new_id());
    let mut l = ledger(business, &[m1, m2, m3]);
    l.consume(
        business,
        vec![
            item(new_id(), m1, Some(2500)),
            item(new_id(), m2, Some(1000)),
            item(new_id(), m1, Some(4000)),
            item(new_id(), m1, Some(3500)),
        ],
    )
    .unwrap();
    assert_eq!(stock(&l, m1), 0);
    assert_eq!(stock(&l, m2), 9000);
    assert_eq!(stock(&l, m3), 10_000);
    assert_eq!(l.records.len(), 4);
}
