use local_bite::materials::models::ListQuery as MaterialModelsQuery;
use local_bite::materials::query::ListQuery as MaterialQuery;
use local_bite::pagination::{limit_of, offset_in_range, offset_of};
use local_bite::products::query::ListQuery as ProductQuery;

fn products(page: Option<i64>, limit: Option<i64>) -> ProductQuery {
    ProductQuery {
        page,
        limit,
        product_type: None,
        search: None,
        active_only: None,
        is_active: None,
        status: None,
        farm_id: None,
    }
}

#[test]
fn pages_and_limits() {
    assert_eq!(limit_of(None), 20);
    assert_eq!(limit_of(Some(5)), 5);
    assert_eq!(limit_of(Some(500)), 100);
    assert_eq!(offset_of(None, None), 0);
    assert_eq!(offset_of(Some(3), Some(10)), 20);
    assert_eq!(offset_of(Some(0), Some(10)), 0);
    assert_eq!(offset_of(Some(-4), None), 0);
    assert_eq!(offset_of(Some(2), Some(1000)), 100);
    assert!(offset_in_range(Some(3), Some(10)));
    assert!(!offset_in_range(Some(i64::MAX), Some(100)));

    let q = products(Some(2), Some(50));
    assert_eq!(q.offset(), 50);
    assert_eq!(q.limit(), 50);
    let q = MaterialQuery { page: Some(4), limit: None, material_type: None, search: None };
    assert_eq!(q.offset(), 60);
    assert_eq!(q.limit(), 20);
    let q = MaterialModelsQuery { page: None, limit: Some(101), material_type: None, search: None };
    assert_eq!(q.offset(), 0);
    assert_eq!(q.limit(), 100);
}

#[test]
fn product_listing_filters() {
    let mut q = products(None, None);
    assert_eq!(q.availability(), None);
    q.active_only = Some(true);
    assert_eq!(q.availability(), Some(true));
    q.is_active = Some(false);
    assert_eq!(q.availability(), Some(false));
    let page = q.page_of(Vec::new(), 7);
    assert_eq!(page.total, 7);
    assert_eq!(page.page, 1);
    assert_eq!(page.limit, 20);
    assert!(page.data.is_empty());
}

#[test]
fn customers_only_list_available_products() {
    let q = products(Some(1), None).for_role("CUSTOMER");
    assert_eq!(q.is_active, Some(true));
    assert_eq!(q.availability(), Some(true));
    let mut q = products(Some(1), None);
    q.is_active = Some(false);
    let q = q.for_role("SYSTEM_ADMIN");
    assert_eq!(q.is_active, Some(false));
}
