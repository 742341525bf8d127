use local_bite::events::{EventData, IntegrationEvent, JsonField};
use local_bite::read_models::projector::{valid, Applied, ProjectionStore};
use uuid::Uuid;

fn event(source: &str, entity_type: &str, id: Uuid, sequence: i64, operation: &str) -> IntegrationEvent {
    IntegrationEvent {
        schema_version: 1,
        source: source.to_string(),
        sequence,
        entity_type: entity_type.to_string(),
        entity_id: id.as_u128(),
        operation: operation.to_string(),
        data: EventData {
            id: JsonField::Text(id.to_string()),
            farm_id: JsonField::Null,
            status: JsonField::Null,
            is_deleted: JsonField::Null,
            output_name: JsonField::Null,
            output_type: JsonField::Null,
            output_unit: JsonField::Null,
            output_quantity: JsonField::Null,
            output_expiry_date: JsonField::Null,
        },
        payload: format!("{{\"id\":\"{id}\",\"sequence\":{sequence}}}"),
    }
}

fn store() -> ProjectionStore {
    ProjectionStore { receipts: Vec::new(), entities: Vec::new() }
}

#[test]
fn events_are_checked_before_projection() {
    let id = Uuid::new_v4();
    assert!(valid(&event("products", "products", id, 1, "INSERT")));
    assert!(valid(&event("productions", "batch_raw_materials", id, 3, "DELETE")));
    assert!(valid(&event("auth", "businesses", id, 3, "UPDATE")));
    assert!(!valid(&event("products", "orders", id, 1, "INSERT")));
    assert!(!valid(&event("billing", "invoices", id, 1, "INSERT")));
    assert!(!valid(&event("products", "products", id, 0, "INSERT")));
    assert!(!valid(&event("products", "products", id, 1, "UPSERT")));
    let mut other_id = event("products", "products", id, 1, "INSERT");
    other_id.entity_id = Uuid::new_v4().as_u128();
    assert!(!valid(&other_id));
    let mut v2 = event("products", "products", id, 1, "INSERT");
    v2.schema_version = 2;
    assert!(!valid(&v2));
}

#[test]
fn projection_is_idempotent_and_keeps_the_newest() {
    let id = Uuid::new_v4();
    let mut s = store();
    assert_eq!(s.apply(&event("products", "products", id, 2, "UPDATE")), Applied::Recorded { entity_written: true });
    // Redelivery of the same event is a duplicate.
    assert_eq!(s.apply(&event("products", "products", id, 2, "UPDATE")), Applied::Duplicate);
    assert_eq!(s.receipts.len(), 1);
    // An older event arriving late is recorded but does not overwrite.
    assert_eq!(s.apply(&event("products", "products", id, 1, "INSERT")), Applied::Recorded { entity_written: false });
    assert_eq!(s.entities.len(), 1);
    assert_eq!(s.entities[0].sequence, 2);
    // A newer deletion marks the entity deleted.
    assert_eq!(s.apply(&event("products", "products", id, 3, "DELETE")), Applied::Recorded { entity_written: true });
    assert_eq!(s.entities[0].sequence, 3);
    assert!(s.entities[0].deleted);
    assert_eq!(s.receipts.len(), 3);
}

#[test]
fn projection_order_does_not_matter() {
    let id = Uuid::new_v4();
    let a = event("products", "products", id, 1, "INSERT");
    let mut b = event("products", "products", id, 2, "UPDATE");
    b.data.is_deleted = JsonField::Bool(true);
    let mut s1 = store();
    s1.apply(&a);
    s1.apply(&b);
    let mut s2 = store();
    s2.apply(&b);
    s2.apply(&a);
    assert_eq!(s1.entities.len(), 1);
    assert_eq!(s2.entities.len(), 1);
    assert_eq!(s1.entities[0].sequence, s2.entities[0].sequence);
    assert_eq!(s1.entities[0].deleted, s2.entities[0].deleted);
    assert!(s1.entities[0].deleted);
}

#[test]
fn newest_change_wins_over_any_order_of_many() {
    let id = Uuid::new_v4();
    let other = Uuid::new_v4();
    let mut newest = event("products", "products", id, 5, "UPDATE");
    newest.data.is_deleted = JsonField::Bool(true);
    let events = vec![
        event("products", "products", id, 2, "INSERT"),
        newest,
        event("products", "products", id, 4, "UPDATE"),
        event("products", "products", other, 3, "INSERT"),
    ];
    for order in [[0, 1, 2, 3], [3, 2, 1, 0], [2, 0, 3, 1], [1, 3, 0, 2]] {
        let mut s = store();
        for k in order {
            assert!(matches!(s.apply(&events[k]), Applied::Recorded { .. }));
        }
        let e = s.entities.iter().find(|e| e.entity_id == id.as_u128()).unwrap();
        assert_eq!(e.sequence, 5);
        assert!(e.deleted);
        assert_eq!(e.payload, events[1].payload);
        let o = s.entities.iter().find(|e| e.entity_id == other.as_u128()).unwrap();
        assert_eq!(o.sequence, 3);
        assert!(!o.deleted);
        assert_eq!(s.receipts.len(), 4);
        // Every event delivered again is a duplicate and changes nothing.
        for ev in &events {
            assert_eq!(s.apply(ev), Applied::Duplicate);
        }
        assert_eq!(s.receipts.len(), 4);
        assert_eq!(s.entities.len(), 2);
    }
}
