use local_bite::auth::{AuthError, Claims};
use local_bite::events::JsonField;
use local_bite::read_models::queries::{
    batch_scope, dashboard_scope, order_count, product_scope, provenance_scope, select_status,
    DashboardScope, QueryError,
};
use uuid::Uuid;

fn claims(role: &str, sub: u128, business: Option<u128>) -> Claims {
    Claims { sub, email: String::new(), role: role.to_string(), business_id: business, iat: 0, exp: 60 }
}

#[test]
fn traceability_tokens_are_scoped() {
    let product = Uuid::new_v4().as_u128();
    let business = Uuid::new_v4();
    let token = claims("TRACEABILITY", product, Some(business.as_u128()));
    assert_eq!(provenance_scope(&token, product), Ok(()));
    assert_eq!(provenance_scope(&token, product + 1), Err(QueryError::ScopeMismatch));
    assert_eq!(
        provenance_scope(&claims("CUSTOMER", product, None), product),
        Err(QueryError::Auth(AuthError::RoleNotAllowed))
    );
    let field = JsonField::Text(business.to_string());
    assert_eq!(product_scope(&token, Some(&field)), Ok(business.as_u128()));
    assert_eq!(product_scope(&token, None), Err(QueryError::Synchronizing));
    assert_eq!(product_scope(&token, Some(&JsonField::Text("x".to_string()))), Err(QueryError::InvalidBusiness));
    let elsewhere = JsonField::Text(Uuid::new_v4().to_string());
    assert_eq!(product_scope(&token, Some(&elsewhere)), Err(QueryError::ScopeMismatch));
    let text = business.to_string();
    assert_eq!(batch_scope(&JsonField::Text(text.clone()), &text), Ok(()));
    assert_eq!(batch_scope(&JsonField::Null, &text), Err(QueryError::OtherBusiness));
    assert_eq!(QueryError::Synchronizing.status(), 409);
    assert_eq!(QueryError::InvalidBusiness.status(), 500);
    assert_eq!(QueryError::OtherBusiness.status(), 403);
}

#[test]
fn dashboard_scope_by_role() {
    let b = Uuid::new_v4().as_u128();
    assert_eq!(dashboard_scope(&claims("CUSTOMER", 5, None)), Ok(DashboardScope::Customer(5)));
    assert_eq!(dashboard_scope(&claims("SYSTEM_ADMIN", 5, None)), Ok(DashboardScope::Everything));
    assert_eq!(dashboard_scope(&claims("WORKER", 5, Some(b))), Ok(DashboardScope::Business(b)));
    assert_eq!(dashboard_scope(&claims("BUSINESS_OWNER", 5, Some(b))), Ok(DashboardScope::Business(b)));
    assert_eq!(
        dashboard_scope(&claims("WORKER", 5, None)),
        Err(QueryError::Auth(AuthError::NoBusiness))
    );
    assert_eq!(
        dashboard_scope(&claims("TRACEABILITY", 5, Some(b))),
        Err(QueryError::Auth(AuthError::RoleNotAllowed))
    );
    assert_eq!(order_count("WORKER", 12), 0);
    assert_eq!(order_count("BUSINESS_OWNER", 12), 12);
}

#[test]
fn dashboard_selects_batches_by_status() {
    let t = |s: &str| JsonField::Text(s.to_string());
    let statuses = vec![
        t("PLANNED"), t("IN_PROGRESS"), t("PLANNED"), JsonField::Null, t("PLANNED"),
        t("PLANNED"), t("PLANNED"), t("PLANNED"), t("COMPLETED"),
    ];
    let (planned, count) = select_status(&statuses, "PLANNED", 5);
    assert_eq!(planned, vec![0, 2, 4, 5, 6]);
    assert_eq!(count, 6);
    let (active, count) = select_status(&statuses, "IN_PROGRESS", 5);
    assert_eq!(active, vec![1]);
    assert_eq!(count, 1);
    let (none, count) = select_status(&statuses, "CANCELLED", 5);
    assert!(none.is_empty());
    assert_eq!(count, 0);
}
