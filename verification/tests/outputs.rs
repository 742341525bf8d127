use local_bite::events::{EventData, IntegrationEvent, JsonField};
use local_bite::numbers::Number;
use local_bite::products::outputs::{plan_output, validate, OutputError};
use local_bite::products::policy::PolicyError;
use uuid::Uuid;

fn text(s: &str) -> JsonField {
    JsonField::Text(s.to_string())
}

fn whole(n: i64) -> JsonField {
    JsonField::Number(Number::from_milli(n * 1000))
}

fn completed_batch(id: Uuid, farm: Uuid) -> IntegrationEvent {
    IntegrationEvent {
        schema_version: 1,
        source: "productions".to_string(),
        sequence: 1,
        entity_type: "production_batches".to_string(),
        entity_id: id.as_u128(),
        operation: "UPDATE".to_string(),
        data: EventData {
            id: text(&id.to_string()),
            farm_id: text(&farm.to_string()),
            status: text("COMPLETED"),
            is_deleted: JsonField::Null,
            output_name: text("Cheese"),
            output_type: text("cheese"),
            output_unit: text("kg"),
            output_quantity: whole(2),
            output_expiry_date: JsonField::Null,
        },
        payload: format!(
            "{{\"id\":\"{id}\",\"farm_id\":\"{farm}\",\"status\":\"COMPLETED\",\"output_name\":\"Cheese\",\"output_type\":\"cheese\",\"output_unit\":\"kg\",\"output_quantity\":2}}"
        ),
    }
}

#[test]
fn poison_output_is_rejected() {
    let id = Uuid::new_v4();
    let mut event = completed_batch(id, Uuid::new_v4());
    assert!(validate(&event).is_ok());
    event.data.output_unit = text("");
    assert!(validate(&event).is_err());
}

#[test]
fn output_event_refusals() {
    let id = Uuid::new_v4();
    let farm = Uuid::new_v4();
    let mut e = completed_batch(id, farm);
    e.source = "orders".to_string();
    assert_eq!(validate(&e), Err(OutputError::InvalidEnvelope));

    let mut e = completed_batch(id, farm);
    e.data.id = text("not-a-uuid");
    assert_eq!(validate(&e), Err(OutputError::BadId));

    let mut e = completed_batch(id, farm);
    e.data.id = text(&Uuid::new_v4().to_string());
    assert_eq!(validate(&e), Err(OutputError::IdentityMismatch));

    let mut e = completed_batch(id, farm);
    e.data.farm_id = JsonField::Null;
    assert_eq!(validate(&e), Err(OutputError::BadFarm));

    let mut e = completed_batch(id, farm);
    e.data.status = text("DONE");
    assert_eq!(validate(&e), Err(OutputError::InvalidStatus));

    let mut e = completed_batch(id, farm);
    e.data.output_quantity = text("2");
    assert_eq!(validate(&e), Err(OutputError::InvalidQuantity));

    let mut e = completed_batch(id, farm);
    e.data.output_expiry_date = text("31.12.2030");
    assert_eq!(validate(&e), Err(OutputError::BadExpiry));

    let mut e = completed_batch(id, farm);
    e.data.output_quantity = whole(0);
    assert_eq!(validate(&e), Err(OutputError::NotPositive));

    let mut e = completed_batch(id, farm);
    e.data.output_name = text("  ");
    assert_eq!(validate(&e), Err(OutputError::Policy(PolicyError::NameEmpty)));

    // A planned batch announces no output yet.
    let mut e = completed_batch(id, farm);
    e.data.status = text("PLANNED");
    e.data.output_unit = text("");
    assert_eq!(validate(&e), Ok(()));

    let mut e = completed_batch(id, farm);
    e.data.output_expiry_date = text("2030-12-31");
    assert_eq!(validate(&e), Ok(()));
}

#[test]
fn completed_batch_creates_its_output_once() {
    let id = Uuid::new_v4();
    let farm = Uuid::new_v4();
    let e = completed_batch(id, farm);
    let plan = plan_output(&e, None, false).unwrap();
    let state = plan.state.unwrap();
    assert_eq!(state.batch_id, id.as_u128());
    assert_eq!(state.farm_id, farm.as_u128());
    assert_eq!(state.status, "COMPLETED");
    assert_eq!(state.sequence, 1);
    assert!(!state.deleted);
    let product = plan.product.unwrap();
    assert_eq!(product.name, "Cheese");
    assert_eq!(product.product_type, "cheese");
    assert_eq!(product.unit, "kg");
    assert_eq!(product.batch_id, id.as_u128());
    assert_eq!(product.quantity, Number::from_milli(2000));
    assert_eq!(product.expiry_date, None);
    assert_eq!(product.price, 0);
    assert!(!product.is_active);

    // The output already exists: only the state is recorded.
    let again = plan_output(&e, None, true).unwrap();
    assert!(again.state.is_some());
    assert!(again.product.is_none());

    // A stale event writes nothing.
    let stale = plan_output(&e, Some(1), false).unwrap();
    assert!(stale.state.is_none() && stale.product.is_none());

    // Another stream is ignored.
    let mut other = completed_batch(id, farm);
    other.entity_type = "orders".to_string();
    let ignored = plan_output(&other, None, false).unwrap();
    assert!(ignored.state.is_none() && ignored.product.is_none());

    // A deletion records the state without an output.
    let mut deleted = completed_batch(id, farm);
    deleted.operation = "DELETE".to_string();
    deleted.sequence = 2;
    let plan = plan_output(&deleted, Some(1), false).unwrap();
    assert!(plan.state.unwrap().deleted);
    assert!(plan.product.is_none());

    let mut bad = completed_batch(id, farm);
    bad.data.output_quantity = whole(-1);
    assert!(matches!(plan_output(&bad, None, false), Err(OutputError::NotPositive)));
    let mut bad = completed_batch(id, farm);
    bad.data.output_name = JsonField::Null;
    assert!(matches!(plan_output(&bad, None, false), Err(OutputError::MissingField)));
}

#[test]
fn validated_events_are_applied() {
    let id = Uuid::new_v4();
    let farm = Uuid::new_v4();
    let mut events = vec![completed_batch(id, farm)];
    let mut planned = completed_batch(id, farm);
    planned.data.status = text("PLANNED");
    planned.data.output_name = JsonField::Null;
    events.push(planned);
    let mut dated = completed_batch(id, farm);
    dated.data.output_expiry_date = text("2031-01-15");
    events.push(dated);
    let mut deleted = completed_batch(id, farm);
    deleted.operation = "DELETE".to_string();
    deleted.data.output_unit = JsonField::Null;
    events.push(deleted);
    for e in &events {
        assert_eq!(validate(e), Ok(()));
        assert!(plan_output(e, None, false).is_ok());
        assert!(plan_output(e, Some(0), true).is_ok());
    }
}
