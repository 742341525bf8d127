use local_bite::products::model::Product;
use local_bite::products::provenance::{
    trace_claims, BatchRef, ProcessStepRef, ProvenanceResponse, ProvenanceService, PublicProvenance,
    RawMaterialRef, StepVariableRef,
};
use local_bite::products::service::ProductError;

fn product(batch: Option<u128>) -> Product {
    Product {
        id: 1,
        business_id: 2,
        name: "Ajvar".to_string(),
        product_type: "preserve".to_string(),
        description: None,
        quantity: 40_000,
        unit: "jar".to_string(),
        price: 5_500,
        expiry_date: Some(800_000),
        batch_id: batch,
        image_path: None,
        qr_token: 77,
        qr_path: None,
        status: "ON_SALE".to_string(),
        is_active: true,
        is_deleted: false,
        created_at: 0,
        updated_at: 0,
    }
}

fn batch() -> BatchRef {
    BatchRef {
        id: 3,
        name: "Autumn ajvar".to_string(),
        process_type: "cooking".to_string(),
        start_date: Some("2025-09-01".to_string()),
        end_date: Some("2025-09-03".to_string()),
        status: "COMPLETED".to_string(),
        steps: vec![ProcessStepRef {
            id: 10,
            step_order: 1,
            status: "DONE".to_string(),
            name: "Roasting".to_string(),
            description: None,
            variables: vec![StepVariableRef { name: "temperature".to_string(), value: "220".to_string() }],
        }],
        raw_materials: vec![RawMaterialRef {
            id: 11,
            name: "Peppers".to_string(),
            material_type: "vegetable".to_string(),
            quantity_used: "12.5".to_string(),
            unit: "kg".to_string(),
            origin: Some("Leskovac".to_string()),
            harvest_date: Some(739_000),
            received_date: None,
            expiry_date: None,
            supplier: Some("Secret supplier".to_string()),
        }],
    }
}

#[test]
fn public_provenance_keeps_only_the_allowlist() {
    let p = PublicProvenance::from(ProvenanceResponse {
        product: product(Some(3)),
        business_name: Some("Family farm".to_string()),
        batch: Some(batch()),
    });
    assert_eq!(p.product.name, "Ajvar");
    assert_eq!(p.product.qr_token, 77);
    assert_eq!(p.farm_name.as_deref(), Some("Family farm"));
    let b = p.batch.unwrap();
    assert_eq!(b.name, "Autumn ajvar");
    assert_eq!(b.steps.len(), 1);
    assert_eq!(b.steps[0].name, "Roasting");
    assert_eq!(b.steps[0].variables[0].value, "220");
    assert_eq!(b.raw_materials.len(), 1);
    assert_eq!(b.raw_materials[0].name, "Peppers");
    assert_eq!(b.raw_materials[0].origin.as_deref(), Some("Leskovac"));
}

#[test]
fn provenance_rules() {
    assert!(ProvenanceService::check_on_sale(&product(Some(3)), true, 10).is_ok());
    assert!(matches!(ProvenanceService::check_on_sale(&product(Some(3)), false, 10), Err(ProductError::NotOnSale)));
    assert!(matches!(ProvenanceService::check_on_sale(&product(Some(3)), true, 800_001), Err(ProductError::NotOnSale)));
    let projected = ProvenanceResponse { product: product(Some(4)), business_name: None, batch: None };
    assert!(matches!(ProvenanceService::merge(product(Some(3)), projected), Err(ProductError::Synchronizing)));
    let projected = ProvenanceResponse { product: product(Some(3)), business_name: Some("F".to_string()), batch: None };
    let mut owner = product(Some(3));
    owner.name = "Ajvar (hot)".to_string();
    let merged = ProvenanceService::merge(owner, projected).ok().unwrap();
    assert_eq!(merged.product.name, "Ajvar (hot)");
    assert_eq!(merged.business_name.as_deref(), Some("F"));
    assert_eq!(ProvenanceService::projection_status(409), Err(ProductError::Synchronizing));
    assert_eq!(ProvenanceService::projection_status(200), Ok(()));
}

#[test]
fn traceability_tokens_last_a_minute() {
    let c = trace_claims(5, Some(6), 1_000);
    assert_eq!(c.role, "TRACEABILITY");
    assert_eq!((c.sub, c.business_id, c.iat, c.exp), (6, Some(5), 1_000, 1_060));
    assert_eq!(c.email, "");
    assert_eq!(trace_claims(5, None, 0).sub, 0);
}
