use local_bite::auth::{AuthError, Claims};
use local_bite::products::reservations::{
    release_scope, reserve_scope, Item, ReservationError, ReservationLine, StockBook, StockProduct,
};
use uuid::Uuid;

fn new_id() -> u128 {
    Uuid::new_v4().as_u128()
}

fn product(id: u128, business: u128, quantity: i64, price: i64) -> StockProduct {
    StockProduct {
        id,
        business_id: business,
        quantity,
        price,
        is_active: true,
        is_deleted: false,
        expiry_date: None,
        batch_completed: true,
    }
}

fn item(product: u128, quantity: &str, price: &str) -> Item {
    Item { product_id: product, quantity: quantity.to_string(), unit_price: price.to_string() }
}

fn book(products: Vec<StockProduct>) -> StockBook {
    StockBook { products, headers: Vec::new(), lines: Vec::new() }
}

fn stock(b: &StockBook, id: u128) -> i64 {
    b.products.iter().find(|p| p.id == id).unwrap().quantity
}

#[test]
fn reservation_books_all_or_nothing_and_replays() {
    let business = new_id();
    let (a, c) = (new_id(), new_id());
    let mut b = book(vec![product(a, business, 5000, 2500), product(c, business, 1000, 400)]);
    let key = new_id();
    b.reserve(key, vec![item(c, "0.5", "0.4"), item(a, "2", "2.50")], 100).unwrap();
    assert_eq!(stock(&b, a), 3000);
    assert_eq!(stock(&b, c), 500);
    // The same key with the same items is a no-op.
    b.reserve(key, vec![item(a, "2", "2.50"), item(c, "0.5", "0.4")], 100).unwrap();
    assert_eq!(stock(&b, a), 3000);
    // The same key with other items is a conflict.
    assert_eq!(
        b.reserve(key, vec![item(a, "1", "2.50")], 100),
        Err(ReservationError::KeyReused)
    );
    // One unavailable item books nothing.
    let other = new_id();
    assert_eq!(
        b.reserve(other, vec![item(a, "1", "2.50"), item(c, "1", "0.4")], 100),
        Err(ReservationError::Unavailable)
    );
    assert_eq!(stock(&b, a), 3000);
    assert_eq!(stock(&b, c), 500);
    // Releasing gives the stock back, once.
    b.release(key, business).unwrap();
    assert_eq!(stock(&b, a), 5000);
    assert_eq!(stock(&b, c), 1000);
    b.release(key, business).unwrap();
    assert_eq!(stock(&b, a), 5000);
}

#[test]
fn reservation_refusals() {
    let business = new_id();
    let a = new_id();
    let mut b = book(vec![product(a, business, 5000, 2500)]);
    assert_eq!(b.reserve(new_id(), vec![], 1), Err(ReservationError::NotUnique));
    assert_eq!(
        b.reserve(new_id(), vec![item(a, "1", "2.5"), item(a, "1", "2.5")], 1),
        Err(ReservationError::NotUnique)
    );
    assert_eq!(b.reserve(new_id(), vec![item(a, "one", "2.5")], 1), Err(ReservationError::InvalidQuantity));
    assert_eq!(b.reserve(new_id(), vec![item(a, "1", "x")], 1), Err(ReservationError::InvalidPrice));
    assert_eq!(b.reserve(new_id(), vec![item(a, "0", "2.5")], 1), Err(ReservationError::BadQuantity));
    assert_eq!(b.reserve(new_id(), vec![item(a, "0.0001", "2.5")], 1), Err(ReservationError::BadQuantity));
    assert_eq!(b.reserve(new_id(), vec![item(a, "-1", "2.5")], 1), Err(ReservationError::BadQuantity));
    // The price changed.
    assert_eq!(b.reserve(new_id(), vec![item(a, "1", "3")], 1), Err(ReservationError::Unavailable));
    // Not enough stock.
    assert_eq!(b.reserve(new_id(), vec![item(a, "6", "2.5")], 1), Err(ReservationError::Unavailable));
    // Unknown product.
    assert_eq!(b.reserve(new_id(), vec![item(new_id(), "1", "2.5")], 1), Err(ReservationError::Unavailable));
    assert_eq!(stock(&b, a), 5000);
    assert!(b.headers.is_empty());

    let mut expired = book(vec![StockProduct { expiry_date: Some(9), ..product(a, business, 5000, 2500) }]);
    assert_eq!(expired.reserve(new_id(), vec![item(a, "1", "2.5")], 10), Err(ReservationError::Unavailable));
    expired.reserve(new_id(), vec![item(a, "1", "2.5")], 9).unwrap();
    assert_eq!(stock(&expired, a), 4000);
}

#[test]
fn release_for_another_business_gives_nothing_back() {
    let business = new_id();
    let a = new_id();
    let mut b = book(vec![product(a, business, 5000, 2500)]);
    let key = new_id();
    b.reserve(key, vec![item(a, "1.5", "2.5")], 1).unwrap();
    b.release(key, new_id()).unwrap();
    assert_eq!(stock(&b, a), 3500);
    b.release(key, business).unwrap();
    assert_eq!(stock(&b, a), 5000);
}

fn claims(role: &str, sub: u128, business: Option<u128>) -> Claims {
    Claims { sub, email: String::new(), role: role.to_string(), business_id: business, iat: 0, exp: 60 }
}

#[test]
fn reservation_scopes() {
    let key = new_id();
    let business = new_id();
    assert_eq!(reserve_scope(&claims("ORDER_STOCK", key, None), key), Ok(()));
    assert_eq!(
        reserve_scope(&claims("ORDER_STOCK", new_id(), None), key),
        Err(ReservationError::Auth(AuthError::ServiceScope))
    );
    assert_eq!(
        reserve_scope(&claims("CUSTOMER", key, None), key),
        Err(ReservationError::Auth(AuthError::ServiceScope))
    );
    assert_eq!(release_scope(&claims("ORDER_STOCK", key, Some(business)), key, business), Ok(()));
    assert_eq!(
        release_scope(&claims("ORDER_STOCK", key, Some(new_id())), key, business),
        Err(ReservationError::BusinessMismatch)
    );
    assert_eq!(ReservationError::BusinessMismatch.status(), 403);
    assert_eq!(ReservationError::KeyReused.status(), 409);
    assert_eq!(ReservationError::NotUnique.status(), 400);
}

#[test]
fn replay_in_any_item_order_changes_nothing() {
    let business = new_id();
    let (a, c, d) = (new_id(), new_id(), new_id());
    let mut b = book(vec![
        product(a, business, 5000, 2500),
        product(c, business, 1000, 400),
        product(d, business, 3000, 100),
    ]);
    let key = new_id();
    let spec = [(a, "1", "2.5"), (c, "0.25", "0.4"), (d, "3", "0.1")];
    let items = |order: &[usize]| -> Vec<Item> {
        order.iter().map(|k| item(spec[*k].0, spec[*k].1, spec[*k].2)).collect()
    };
    b.reserve(key, items(&[0, 1, 2]), 100).unwrap();
    assert_eq!((stock(&b, a), stock(&b, c), stock(&b, d)), (4000, 750, 0));
    for order in [[2, 1, 0], [1, 0, 2], [0, 2, 1], [1, 2, 0], [2, 0, 1]] {
        assert_eq!(b.reserve(key, items(&order), 100), Ok(()));
        assert_eq!((stock(&b, a), stock(&b, c), stock(&b, d)), (4000, 750, 0));
    }
    assert_eq!(b.reserve(key, items(&[0, 1]), 100), Err(ReservationError::KeyReused));
}

#[test]
fn release_gives_back_every_open_line_of_the_business_once() {
    let (mine, theirs) = (new_id(), new_id());
    let (a, c) = (new_id(), new_id());
    let key = new_id();
    let line = |product: u128, business: u128, quantity: i64, released: bool| ReservationLine {
        reservation_id: key,
        product_id: product,
        business_id: business,
        quantity,
        released,
    };
    let mut b = book(vec![product(a, mine, 1000, 100), product(c, theirs, 2000, 100)]);
    b.lines = vec![
        line(a, mine, 250, false),
        line(c, theirs, 700, false),
        line(a, mine, 500, true),
    ];
    b.lines.push(ReservationLine { reservation_id: new_id(), ..line(a, mine, 40, false) });
    b.release(key, mine).unwrap();
    // Only the open line of this business and key comes back.
    assert_eq!(stock(&b, a), 1250);
    assert_eq!(stock(&b, c), 2000);
    assert!(b.lines[0].released && b.lines[2].released);
    assert!(!b.lines[1].released && !b.lines[3].released);
    b.release(key, mine).unwrap();
    assert_eq!(stock(&b, a), 1250);
    b.release(key, theirs).unwrap();
    assert_eq!(stock(&b, c), 2700);
}

#[test]
fn reused_key_with_other_items_changes_nothing() {
    let business = new_id();
    let (a, c) = (new_id(), new_id());
    let mut b = book(vec![product(a, business, 5000, 2500), product(c, business, 1000, 400)]);
    let key = new_id();
    b.reserve(key, vec![item(a, "1", "2.5"), item(c, "0.5", "0.4")], 1).unwrap();
    for other in [
        vec![item(a, "2", "2.5"), item(c, "0.5", "0.4")],
        vec![item(a, "1", "2.5")],
        vec![item(c, "0.5", "0.4"), item(a, "1", "2.5"), item(new_id(), "1", "1")],
    ] {
        assert_eq!(b.reserve(key, other, 1), Err(ReservationError::KeyReused));
        assert_eq!((stock(&b, a), stock(&b, c)), (4000, 500));
        assert_eq!(b.lines.len(), 2);
    }
}
