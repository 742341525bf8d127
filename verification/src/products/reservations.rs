//! Stock reservations for orders. A reservation key books every item or none;
//! repeating a key with the same items is a no-op and with other items a
//! conflict; releasing gives the booked stock back once.
//!
//! The book holds the rows that one request touches; the service loads them
//! inside its transaction, runs the operation here and writes the result back.
use crate::auth::{require_service, AuthError, Claims};
use crate::numbers::{decimal_reading, read_decimal, DecimalReading};
use crate::sorting::{
    last_index, lemma_last_index_push_any, lemma_last_index_range, lemma_last_index_take,
    lemma_last_index_update, lemma_sorted_from, sorted_by_key, stable_sort, SortKey,
    distinct_by, lemma_sorted_contains, lemma_sorted_len, lemma_sorted_sum, sum_by, lemma_sorted_distinct, lemma_sorted_keys, lemma_strict_same_elements,
};
use crate::text::str_eq;
use vstd::prelude::*;

verus! {

/// One requested item: a product, an amount and the unit price the buyer saw.
pub struct Item {
    pub product_id: u128,
    pub quantity: String,
    pub unit_price: String,
}

pub struct ItemView {
    pub product_id: u128,
    pub quantity: Seq<char>,
    pub unit_price: Seq<char>,
}

impl View for Item {
    type V = ItemView;

    open spec fn view(&self) -> ItemView {
        ItemView { product_id: self.product_id, quantity: self.quantity@, unit_price: self.unit_price@ }
    }
}

impl SortKey for Item {
    open spec fn spec_key(&self) -> u128 {
        self.product_id
    }

    fn key(&self) -> (k: u128) {
        self.product_id
    }
}

/// A product row as the reservation rules read it.
#[derive(Clone, Copy, PartialEq, Eq, Structural, Debug)]
pub struct StockProduct {
    pub id: u128,
    pub business_id: u128,
    /// Stock in thousandths.
    pub quantity: i64,
    /// Price in thousandths.
    pub price: i64,
    pub is_active: bool,
    pub is_deleted: bool,
    /// Days since the Common Era.
    pub expiry_date: Option<i32>,
    /// The product's production batch is completed and not deleted.
    pub batch_completed: bool,
}

/// A stored reservation key and the items it was made with.
pub struct ReservationHeader {
    pub id: u128,
    pub payload: Vec<Item>,
}

/// Stock booked by a reservation on one product.
#[derive(Clone, Copy, PartialEq, Eq, Structural, Debug)]
pub struct ReservationLine {
    pub reservation_id: u128,
    pub product_id: u128,
    pub business_id: u128,
    pub quantity: i64,
    pub released: bool,
}

/// The rows a reservation request reads and writes.
pub struct StockBook {
    pub products: Vec<StockProduct>,
    pub headers: Vec<ReservationHeader>,
    pub lines: Vec<ReservationLine>,
}

pub struct HeaderView {
    pub id: u128,
    pub payload: Seq<ItemView>,
}

pub struct BookState {
    pub products: Seq<StockProduct>,
    pub headers: Seq<HeaderView>,
    pub lines: Seq<ReservationLine>,
}

pub open spec fn items_view(items: Seq<Item>) -> Seq<ItemView> {
    items.map_values(|i: Item| i@)
}

impl View for ReservationHeader {
    type V = HeaderView;

    open spec fn view(&self) -> HeaderView {
        HeaderView { id: self.id, payload: items_view(self.payload@) }
    }
}

impl View for StockBook {
    type V = BookState;

    open spec fn view(&self) -> BookState {
        BookState {
            products: self.products@,
            headers: self.headers@.map_values(|h: ReservationHeader| h@),
            lines: self.lines@,
        }
    }
}

/// Why a reservation request is refused.
#[derive(Clone, Copy, PartialEq, Eq, Structural, Debug)]
pub enum ReservationError {
    /// No items, or one product twice (400).
    NotUnique,
    /// The key was used with other items (409).
    KeyReused,
    /// A quantity is not a decimal number (400).
    InvalidQuantity,
    /// A unit price is not a decimal number (400).
    InvalidPrice,
    /// A quantity is not positive or has more than three decimals (400).
    BadQuantity,
    /// A product is unavailable, its price changed or its stock is short (409).
    Unavailable,
    /// The releasing business is not the one the caller acts for (403).
    BusinessMismatch,
    /// A stock amount would leave the range of its column.
    OutOfRange,
    /// The caller is not the order service for this reservation key (403).
    Auth(AuthError),
}

impl ReservationError {
    /// The HTTP status the service answers with.
    pub fn status(&self) -> (s: u16)
        ensures
            s == match self {
                ReservationError::NotUnique | ReservationError::InvalidQuantity
                | ReservationError::InvalidPrice | ReservationError::BadQuantity => 400u16,
                ReservationError::KeyReused | ReservationError::Unavailable => 409u16,
                ReservationError::BusinessMismatch | ReservationError::Auth(_) => 403u16,
                ReservationError::OutOfRange => 500u16,
            },
    {
        match self {
            ReservationError::NotUnique | ReservationError::InvalidQuantity
            | ReservationError::InvalidPrice | ReservationError::BadQuantity => 400,
            ReservationError::KeyReused | ReservationError::Unavailable => 409,
            ReservationError::BusinessMismatch | ReservationError::Auth(_) => 403,
            ReservationError::OutOfRange => 500,
        }
    }

    /// The message the service answers with.
    #[verifier::allow_in_spec]
    pub fn message(&self) -> &'static str
        returns
            (match self {
                ReservationError::NotUnique => "Unique reservation items are required",
                ReservationError::KeyReused => "Reservation key has different items",
                ReservationError::InvalidQuantity => "Invalid quantity",
                ReservationError::InvalidPrice => "Invalid price",
                ReservationError::BadQuantity => "Quantity must be positive with at most three decimals",
                ReservationError::Unavailable => "Product unavailable, price changed or insufficient stock",
                ReservationError::BusinessMismatch => "Reservation business mismatch",
                ReservationError::OutOfRange => "Stored quantity out of range",
                ReservationError::Auth(e) => e.message(),
            }),
    {
        match self {
            ReservationError::NotUnique => "Unique reservation items are required",
            ReservationError::KeyReused => "Reservation key has different items",
            ReservationError::InvalidQuantity => "Invalid quantity",
            ReservationError::InvalidPrice => "Invalid price",
            ReservationError::BadQuantity => "Quantity must be positive with at most three decimals",
            ReservationError::Unavailable => "Product unavailable, price changed or insufficient stock",
            ReservationError::BusinessMismatch => "Reservation business mismatch",
            ReservationError::OutOfRange => "Stored quantity out of range",
            ReservationError::Auth(e) => e.message(),
        }
    }
}

/// Only the order service may reserve, and only under the key its token names.
pub fn reserve_scope(claims: &Claims, id: u128) -> (r: Result<(), ReservationError>)
    ensures
        r is Ok <==> (claims.role@ == "ORDER_STOCK"@ && claims.sub == id),
        r is Err ==> r == Err::<(), ReservationError>(ReservationError::Auth(AuthError::ServiceScope)),
{
    match require_service(claims, "ORDER_STOCK", id) {
        Ok(()) => Ok(()),
        Err(e) => Err(ReservationError::Auth(e)),
    }
}

/// A release must also act for the business whose lines it gives back.
pub fn release_scope(claims: &Claims, id: u128, business_id: u128) -> (r: Result<
    (),
    ReservationError,
>)
    ensures
        !(claims.role@ == "ORDER_STOCK"@ && claims.sub == id) ==> r == Err::<(), ReservationError>(
            ReservationError::Auth(AuthError::ServiceScope),
        ),
        claims.role@ == "ORDER_STOCK"@ && claims.sub == id && claims.business_id != Some(business_id)
            ==> r == Err::<(), ReservationError>(ReservationError::BusinessMismatch),
        claims.role@ == "ORDER_STOCK"@ && claims.sub == id && claims.business_id == Some(business_id)
            ==> r is Ok,
{
    reserve_scope(claims, id)?;
    if claims.business_id != Some(business_id) {
        return Err(ReservationError::BusinessMismatch);
    }
    Ok(())
}

/// The items are non-empty and name no product twice (for items sorted by product).
pub open spec fn unique_sorted(items: Seq<Item>) -> bool {
    &&& items.len() > 0
    &&& forall|i: int| 0 <= i < items.len() - 1 ==> #[trigger] items[i].product_id != items[i
        + 1].product_id
}

pub open spec fn product_index(ps: Seq<StockProduct>, id: u128) -> int {
    last_index(ps, |p: StockProduct| p.id == id)
}

pub open spec fn header_index(hs: Seq<HeaderView>, id: u128) -> int {
    last_index(hs, |h: HeaderView| h.id == id)
}

/// A product can be sold `quantity` thousandths at `price`.
pub open spec fn sellable(p: StockProduct, quantity: int, price: DecimalReading, today: i32) -> bool {
    &&& !p.is_deleted
    &&& p.is_active
    &&& p.quantity >= quantity
    &&& price == DecimalReading::Milli(p.price)
    &&& p.price > 0
    &&& (p.expiry_date is None || p.expiry_date->0 >= today)
    &&& p.batch_completed
}

/// The effect of booking one item under reservation `id`.
pub open spec fn reserve_item(s: BookState, id: u128, item: ItemView, today: i32) -> Result<
    BookState,
    ReservationError,
> {
    let q = decimal_reading(item.quantity);
    let p = decimal_reading(item.unit_price);
    if q == DecimalReading::Malformed {
        Err(ReservationError::InvalidQuantity)
    } else if p == DecimalReading::Malformed {
        Err(ReservationError::InvalidPrice)
    } else {
        match q {
            DecimalReading::Milli(m) if m > 0 => {
                let pi = product_index(s.products, item.product_id);
                if pi >= 0 && sellable(s.products[pi], m as int, p, today) {
                    let prod = s.products[pi];
                    Ok(
                        BookState {
                            products: s.products.update(
                                pi,
                                StockProduct { quantity: (prod.quantity - m) as i64, ..prod },
                            ),
                            lines: s.lines.push(
                                ReservationLine {
                                    reservation_id: id,
                                    product_id: item.product_id,
                                    business_id: prod.business_id,
                                    quantity: m,
                                    released: false,
                                },
                            ),
                            ..s
                        },
                    )
                } else {
                    Err(ReservationError::Unavailable)
                }
            },
            DecimalReading::Huge { negative: false } => Err(ReservationError::Unavailable),
            _ => Err(ReservationError::BadQuantity),
        }
    }
}

pub open spec fn reserve_prefix(
    s: BookState,
    id: u128,
    items: Seq<ItemView>,
    today: i32,
    n: int,
) -> Result<BookState, ReservationError>
    decreases n,
{
    if n <= 0 {
        Ok(s)
    } else {
        match reserve_prefix(s, id, items, today, n - 1) {
            Ok(t) => reserve_item(t, id, items[n - 1], today),
            Err(e) => Err(e),
        }
    }
}

/// The whole reservation request under key `id`, on `today`.
pub open spec fn reserve_all(s: BookState, id: u128, items: Seq<Item>, today: i32) -> Result<
    BookState,
    ReservationError,
> {
    let sorted = sorted_by_key(items);
    let payload = items_view(sorted);
    if !unique_sorted(sorted) {
        Err(ReservationError::NotUnique)
    } else if header_index(s.headers, id) >= 0 {
        if s.headers[header_index(s.headers, id)].payload == payload {
            Ok(s)
        } else {
            Err(ReservationError::KeyReused)
        }
    } else {
        let s1 = BookState { headers: s.headers.push(HeaderView { id, payload }), ..s };
        reserve_prefix(s1, id, payload, today, payload.len() as int)
    }
}

/// The lines a release gives back: those of reservation `id` and `business_id`
/// that are not released, in the order they are stored.
pub open spec fn open_line(l: ReservationLine, id: u128, business_id: u128) -> bool {
    l.reservation_id == id && l.business_id == business_id && !l.released
}

/// Gives line `l` of the book back to its product and marks every line
/// of that reservation and product released.
pub open spec fn release_line(s: BookState, id: u128, l: ReservationLine) -> Result<
    BookState,
    ReservationError,
> {
    let pi = product_index(s.products, l.product_id);
    let lines = s.lines.map_values(
        |x: ReservationLine|
            if x.reservation_id == id && x.product_id == l.product_id {
                ReservationLine { released: true, ..x }
            } else {
                x
            },
    );
    if pi >= 0 {
        let p = s.products[pi];
        if p.quantity + l.quantity > crate::materials::consumption::MAX_STOCK_MILLI {
            Err(ReservationError::OutOfRange)
        } else {
            Ok(
                BookState {
                    products: s.products.update(
                        pi,
                        StockProduct { quantity: (p.quantity + l.quantity) as i64, ..p },
                    ),
                    lines,
                    ..s
                },
            )
        }
    } else {
        Ok(BookState { lines, ..s })
    }
}

/// The open lines of a book, in order.
pub open spec fn open_lines(lines: Seq<ReservationLine>, id: u128, business_id: u128) -> Seq<
    ReservationLine,
> {
    lines.filter(|l: ReservationLine| open_line(l, id, business_id))
}

pub open spec fn release_prefix(s: BookState, id: u128, ls: Seq<ReservationLine>, n: int) -> Result<
    BookState,
    ReservationError,
>
    decreases n,
{
    if n <= 0 {
        Ok(s)
    } else {
        match release_prefix(s, id, ls, n - 1) {
            Ok(t) => release_line(t, id, ls[n - 1]),
            Err(e) => Err(e),
        }
    }
}

/// Releasing reservation `id` for `business_id`.
pub open spec fn release_all(s: BookState, id: u128, business_id: u128) -> Result<
    BookState,
    ReservationError,
> {
    let ls = open_lines(s.lines, id, business_id);
    release_prefix(s, id, ls, ls.len() as int)
}

fn item_eq(a: &Item, b: &Item) -> (r: bool)
    ensures
        r == (a@ == b@),
{
    a.product_id == b.product_id && str_eq(a.quantity.as_str(), b.quantity.as_str()) && str_eq(
        a.unit_price.as_str(),
        b.unit_price.as_str(),
    )
}

fn items_eq(a: &Vec<Item>, b: &Vec<Item>) -> (r: bool)
    ensures
        r == (items_view(a@) == items_view(b@)),
{
    if a.len() != b.len() {
        proof {
            assert(items_view(a@).len() != items_view(b@).len());
        }
        return false;
    }
    let mut i: usize = 0;
    while i < a.len()
        invariant
            a.len() == b.len(),
            i <= a.len(),
            forall|k: int| 0 <= k < i ==> a@[k]@ == b@[k]@,
        decreases a.len() - i,
    {
        if !item_eq(&a[i], &b[i]) {
            proof {
                assert(items_view(a@)[i as int] != items_view(b@)[i as int]);
            }
            return false;
        }
        i = i + 1;
    }
    assert(items_view(a@) =~= items_view(b@));
    true
}

impl Item {
    /// A copy of this item.
    pub fn duplicate(&self) -> (r: Item)
        ensures
            r@ == self@,
    {
        Item {
            product_id: self.product_id,
            quantity: self.quantity.clone(),
            unit_price: self.unit_price.clone(),
        }
    }
}

fn copy_items(v: &Vec<Item>) -> (r: Vec<Item>)
    ensures
        items_view(r@) == items_view(v@),
{
    let mut out: Vec<Item> = Vec::new();
    let mut i: usize = 0;
    while i < v.len()
        invariant
            i <= v.len(),
            out.len() == i,
            forall|k: int| 0 <= k < i ==> out@[k]@ == v@[k]@,
        decreases v.len() - i,
    {
        out.push(v[i].duplicate());
        i = i + 1;
    }
    assert(items_view(out@) =~= items_view(v@));
    out
}

fn find_product(ps: &Vec<StockProduct>, id: u128) -> (r: Option<usize>)
    ensures
        match r {
            Some(i) => i < ps.len() && product_index(ps@, id) == i,
            None => product_index(ps@, id) == -1,
        },
{
    let ghost f = |p: StockProduct| p.id == id;
    let mut j = ps.len();
    while j > 0
        invariant
            j <= ps.len(),
            f == (|p: StockProduct| p.id == id),
            forall|k: int| j <= k < ps.len() ==> !f(#[trigger] ps@[k]),
        decreases j,
    {
        if ps[j - 1].id == id {
            proof {
                lemma_last_index_take(ps@, f, j as int);
                assert(ps@.take(j as int).last() == ps@[j - 1]);
            }
            return Some(j - 1);
        }
        j = j - 1;
    }
    proof {
        lemma_last_index_take(ps@, f, 0);
    }
    None
}

fn find_header(hs: &Vec<ReservationHeader>, id: u128) -> (r: Option<usize>)
    ensures
        match r {
            Some(i) => i < hs.len() && header_index(hs@.map_values(|h: ReservationHeader| h@), id)
                == i,
            None => header_index(hs@.map_values(|h: ReservationHeader| h@), id) == -1,
        },
{
    let ghost s = hs@.map_values(|h: ReservationHeader| h@);
    let ghost f = |h: HeaderView| h.id == id;
    let mut j = hs.len();
    while j > 0
        invariant
            j <= hs.len(),
            s == hs@.map_values(|h: ReservationHeader| h@),
            f == (|h: HeaderView| h.id == id),
            forall|k: int| j <= k < hs.len() ==> !f(#[trigger] s[k]),
        decreases j,
    {
        if hs[j - 1].id == id {
            proof {
                lemma_last_index_take(s, f, j as int);
                assert(s.take(j as int).last() == s[j - 1]);
            }
            return Some(j - 1);
        }
        j = j - 1;
    }
    proof {
        lemma_last_index_take(s, f, 0);
    }
    None
}

impl StockBook {
    /// A copy of the book.
    pub fn duplicate(&self) -> (r: StockBook)
        ensures
            r@ == self@,
    {
        let mut headers: Vec<ReservationHeader> = Vec::new();
        let mut i: usize = 0;
        while i < self.headers.len()
            invariant
                i <= self.headers.len(),
                headers.len() == i,
                forall|k: int| 0 <= k < i ==> #[trigger] headers@[k]@ == self.headers@[k]@,
            decreases self.headers.len() - i,
        {
            let h = &self.headers[i];
            headers.push(ReservationHeader { id: h.id, payload: copy_items(&h.payload) });
            i = i + 1;
        }
        let r = StockBook { products: self.products.clone(), headers, lines: self.lines.clone() };
        proof {
            assert(r@.headers =~= self@.headers);
            assert(r@.products =~= self@.products);
            assert(r@.lines =~= self@.lines);
        }
        r
    }

    fn reserve_one(&mut self, id: u128, item: &Item, today: i32) -> (r: Result<
        (),
        ReservationError,
    >)
        ensures
            match r {
                Ok(()) => reserve_item(old(self)@, id, item@, today) == Ok::<
                    BookState,
                    ReservationError,
                >(final(self)@),
                Err(e) => reserve_item(old(self)@, id, item@, today) == Err::<
                    BookState,
                    ReservationError,
                >(e),
            },
    {
        let q = read_decimal(item.quantity.as_str());
        let p = read_decimal(item.unit_price.as_str());
        if q == DecimalReading::Malformed {
            return Err(ReservationError::InvalidQuantity);
        }
        if p == DecimalReading::Malformed {
            return Err(ReservationError::InvalidPrice);
        }
        let m = match q {
            DecimalReading::Milli(m) => {
                if m <= 0 {
                    return Err(ReservationError::BadQuantity);
                }
                m
            },
            DecimalReading::Huge { negative: false } => {
                return Err(ReservationError::Unavailable);
            },
            _ => {
                return Err(ReservationError::BadQuantity);
            },
        };
        let pi = match find_product(&self.products, item.product_id) {
            Some(pi) => pi,
            None => {
                return Err(ReservationError::Unavailable);
            },
        };
        let prod = self.products[pi];
        let fresh = match prod.expiry_date {
            None => true,
            Some(d) => d >= today,
        };
        if prod.is_deleted || !prod.is_active || prod.quantity < m || p != DecimalReading::Milli(
            prod.price,
        ) || prod.price <= 0 || !fresh || !prod.batch_completed {
            return Err(ReservationError::Unavailable);
        }
        self.products.set(pi, StockProduct { quantity: prod.quantity - m, ..prod });
        self.lines.push(
            ReservationLine {
                reservation_id: id,
                product_id: item.product_id,
                business_id: prod.business_id,
                quantity: m,
                released: false,
            },
        );
        Ok(())
    }

    /// Books every item under reservation key `id` on `today`, or nothing: on a
    /// refusal the book is left as it was.
    pub fn reserve(&mut self, id: u128, items: Vec<Item>, today: i32) -> (r: Result<
        (),
        ReservationError,
    >)
        ensures
            match r {
                Ok(()) => reserve_all(old(self)@, id, items@, today) == Ok::<
                    BookState,
                    ReservationError,
                >(final(self)@),
                Err(e) => reserve_all(old(self)@, id, items@, today) == Err::<
                    BookState,
                    ReservationError,
                >(e) && final(self)@ == old(self)@,
            },
    {
        let ghost start = self@;
        let sorted = stable_sort(items);
        if sorted.len() == 0 {
            return Err(ReservationError::NotUnique);
        }
        let mut k: usize = 0;
        while k + 1 < sorted.len()
            invariant
                sorted.len() > 0,
                k + 1 <= sorted.len(),
                sorted@ == sorted_by_key(items@),
                self@ == start,
                forall|i: int| 0 <= i < k ==> #[trigger] sorted@[i].product_id != sorted@[i
                    + 1].product_id,
            decreases sorted.len() - k,
        {
            if sorted[k].product_id == sorted[k + 1].product_id {
                proof {
                    assert(sorted@[k as int].product_id == sorted@[k + 1].product_id);
                    assert(!unique_sorted(sorted@));
                }
                return Err(ReservationError::NotUnique);
            }
            k = k + 1;
        }
        match find_header(&self.headers, id) {
            Some(hi) => {
                proof {
                    assert(self@.headers[hi as int] == self.headers@[hi as int]@);
                }
                if items_eq(&self.headers[hi].payload, &sorted) {
                    return Ok(());
                } else {
                    return Err(ReservationError::KeyReused);
                }
            },
            None => {},
        }
        let mut work = self.duplicate();
        let payload = copy_items(&sorted);
        work.headers.push(ReservationHeader { id, payload });
        let ghost s1 = work@;
        proof {
            assert(s1.headers =~= start.headers.push(HeaderView { id, payload: items_view(sorted@) }));
        }
        assert(unique_sorted(sorted@));
        let mut i: usize = 0;
        while i < sorted.len()
            invariant
                i <= sorted.len(),
                sorted@ == sorted_by_key(items@),
                unique_sorted(sorted@),
                header_index(start.headers, id) == -1,
                s1 == (BookState { headers: start.headers.push(HeaderView { id, payload: items_view(sorted@) }), ..start }),
                reserve_prefix(s1, id, items_view(sorted@), today, i as int) == Ok::<
                    BookState,
                    ReservationError,
                >(work@),
                self@ == start,
            decreases sorted.len() - i,
        {
            match work.reserve_one(id, &sorted[i], today) {
                Ok(()) => {},
                Err(e) => {
                    proof {
                        lemma_reserve_err_sticks(s1, id, items_view(sorted@), today, i + 1);
                    }
                    return Err(e);
                },
            }
            i = i + 1;
        }
        *self = work;
        Ok(())
    }

    /// Gives back the open lines of reservation `id` that belong to `business_id`,
    /// in stored order, or nothing.
    pub fn release(&mut self, id: u128, business_id: u128) -> (r: Result<(), ReservationError>)
        ensures
            match r {
                Ok(()) => release_all(old(self)@, id, business_id) == Ok::<
                    BookState,
                    ReservationError,
                >(final(self)@),
                Err(e) => release_all(old(self)@, id, business_id) == Err::<
                    BookState,
                    ReservationError,
                >(e) && final(self)@ == old(self)@,
            },
    {
        let ghost start = self@;
        let mut open: Vec<ReservationLine> = Vec::new();
        let mut j: usize = 0;
        while j < self.lines.len()
            invariant
                j <= self.lines.len(),
                self@ == start,
                open@ == open_lines(start.lines.take(j as int), id, business_id),
            decreases self.lines.len() - j,
        {
            let l = self.lines[j];
            proof {
                let t = start.lines.take(j + 1);
                assert(t.drop_last() =~= start.lines.take(j as int));
                reveal_with_fuel(Seq::filter, 1);
            }
            if l.reservation_id == id && l.business_id == business_id && !l.released {
                open.push(l);
            }
            j = j + 1;
        }
        proof {
            assert(start.lines.take(j as int) =~= start.lines);
        }
        let mut work = self.duplicate();
        let mut i: usize = 0;
        while i < open.len()
            invariant
                i <= open.len(),
                open@ == open_lines(start.lines, id, business_id),
                release_prefix(start, id, open@, i as int) == Ok::<BookState, ReservationError>(
                    work@,
                ),
                self@ == start,
            decreases open.len() - i,
        {
            let l = open[i];
            let ghost before = work@;
            let pi = find_product(&work.products, l.product_id);
            let mut lines: Vec<ReservationLine> = Vec::new();
            let mut k: usize = 0;
            while k < work.lines.len()
                invariant
                    k <= work.lines.len(),
                    work@ == before,
                    lines.len() == k,
                    forall|x: int| 0 <= x < k ==> #[trigger] lines@[x] == (if work.lines@[x].reservation_id == id
                        && work.lines@[x].product_id == l.product_id {
                        ReservationLine { released: true, ..work.lines@[x] }
                    } else {
                        work.lines@[x]
                    }),
                decreases work.lines.len() - k,
            {
                let x = work.lines[k];
                if x.reservation_id == id && x.product_id == l.product_id {
                    lines.push(ReservationLine { released: true, ..x });
                } else {
                    lines.push(x);
                }
                k = k + 1;
            }
            match pi {
                Some(pi) => {
                    let p = work.products[pi];
                    let total: i128 = (p.quantity as i128) + (l.quantity as i128);
                    if total > crate::materials::consumption::MAX_STOCK_MILLI as i128 {
                        proof {
                            lemma_release_err_sticks(start, id, open@, i + 1);
                        }
                        return Err(ReservationError::OutOfRange);
                    }
                    work.products.set(pi, StockProduct { quantity: total as i64, ..p });
                },
                None => {},
            }
            work.lines = lines;
            proof {
                let want = release_line(before, id, l);
                assert(work@.lines =~= want->Ok_0.lines);
                assert(work@.products =~= want->Ok_0.products);
            }
            i = i + 1;
        }
        *self = work;
        Ok(())
    }
}

pub proof fn lemma_reserve_err_sticks(
    s: BookState,
    id: u128,
    items: Seq<ItemView>,
    today: i32,
    n: int,
)
    requires
        0 < n <= items.len(),
        reserve_prefix(s, id, items, today, n) is Err,
    ensures
        reserve_prefix(s, id, items, today, items.len() as int) == reserve_prefix(
            s,
            id,
            items,
            today,
            n,
        ),
    decreases items.len() - n,
{
    if n < items.len() {
        lemma_reserve_err_sticks(s, id, items, today, n + 1);
    }
}

pub proof fn lemma_release_err_sticks(s: BookState, id: u128, ls: Seq<ReservationLine>, n: int)
    requires
        0 < n <= ls.len(),
        release_prefix(s, id, ls, n) is Err,
    ensures
        release_prefix(s, id, ls, ls.len() as int) == release_prefix(s, id, ls, n),
    decreases ls.len() - n,
{
    if n < ls.len() {
        lemma_release_err_sticks(s, id, ls, n + 1);
    }
}

proof fn lemma_prefix_keeps_headers(
    s: BookState,
    id: u128,
    items: Seq<ItemView>,
    today: i32,
    n: int,
)
    requires
        0 <= n <= items.len(),
        reserve_prefix(s, id, items, today, n) is Ok,
    ensures
        reserve_prefix(s, id, items, today, n)->Ok_0.headers == s.headers,
    decreases n,
{
    if n > 0 {
        lemma_prefix_keeps_headers(s, id, items, today, n - 1);
    }
}

/// Repeating a reservation request that succeeded changes nothing and succeeds again.
pub proof fn law_reserve_idempotent(s: BookState, id: u128, items: Seq<Item>, today: i32)
    requires
        reserve_all(s, id, items, today) is Ok,
    ensures
        reserve_all(reserve_all(s, id, items, today)->Ok_0, id, items, today) == reserve_all(
            s,
            id,
            items,
            today,
        ),
{
    let sorted = sorted_by_key(items);
    let payload = items_view(sorted);
    let f = |h: HeaderView| h.id == id;
    lemma_last_index_range(s.headers, f);
    if header_index(s.headers, id) < 0 {
        let s1 = BookState { headers: s.headers.push(HeaderView { id, payload }), ..s };
        lemma_prefix_keeps_headers(s1, id, payload, today, payload.len() as int);
        lemma_last_index_push_any(s.headers, f, HeaderView { id, payload });
    }
}

/// What a successful booking step keeps of the products.
pub open spec fn products_framed(s: BookState, t: BookState) -> bool {
    &&& t.products.len() == s.products.len()
    &&& forall|i: int|
        0 <= i < s.products.len() ==> {
            let a = #[trigger] s.products[i];
            let b = t.products[i];
            &&& b == StockProduct { quantity: b.quantity, ..a }
            &&& b.quantity <= a.quantity
            &&& (a.quantity >= 0 ==> b.quantity >= 0)
        }
}

proof fn lemma_reserve_prefix_framed(
    s: BookState,
    id: u128,
    items: Seq<ItemView>,
    today: i32,
    n: int,
)
    requires
        0 <= n <= items.len(),
        reserve_prefix(s, id, items, today, n) is Ok,
    ensures
        products_framed(s, reserve_prefix(s, id, items, today, n)->Ok_0),
    decreases n,
{
    if n > 0 {
        lemma_reserve_prefix_framed(s, id, items, today, n - 1);
        let t0 = reserve_prefix(s, id, items, today, n - 1)->Ok_0;
        lemma_last_index_range(t0.products, |p: StockProduct| p.id == items[n - 1].product_id);
    }
}

/// A reservation only takes stock, never more than a product holds, and changes
/// nothing else of a product.
pub proof fn law_reserve_takes_available_stock(s: BookState, id: u128, items: Seq<Item>, today: i32)
    requires
        reserve_all(s, id, items, today) is Ok,
    ensures
        products_framed(s, reserve_all(s, id, items, today)->Ok_0),
{
    let sorted = sorted_by_key(items);
    let payload = items_view(sorted);
    if header_index(s.headers, id) < 0 {
        let s1 = BookState { headers: s.headers.push(HeaderView { id, payload }), ..s };
        lemma_reserve_prefix_framed(s1, id, payload, today, payload.len() as int);
    }
}

/// Line `x` was marked released, and stays so.
proof fn lemma_release_prefix_marks(s: BookState, id: u128, ls: Seq<ReservationLine>, n: int)
    requires
        0 <= n <= ls.len(),
        release_prefix(s, id, ls, n) is Ok,
    ensures
        ({
            let t = release_prefix(s, id, ls, n)->Ok_0;
            &&& t.lines.len() == s.lines.len()
            &&& forall|x: int|
                0 <= x < s.lines.len() ==> {
                    &&& (#[trigger] t.lines[x]).reservation_id == s.lines[x].reservation_id
                    &&& t.lines[x].product_id == s.lines[x].product_id
                    &&& t.lines[x].business_id == s.lines[x].business_id
                    &&& (s.lines[x].released ==> t.lines[x].released)
                    &&& (forall|k: int|
                        0 <= k < n && s.lines[x].reservation_id == id && ls[k].product_id
                            == s.lines[x].product_id ==> t.lines[x].released)
                }
        }),
    decreases n,
{
    if n > 0 {
        lemma_release_prefix_marks(s, id, ls, n - 1);
    }
}

/// Releasing a reservation again changes nothing and succeeds again.
pub proof fn law_release_idempotent(s: BookState, id: u128, business_id: u128)
    requires
        release_all(s, id, business_id) is Ok,
    ensures
        release_all(release_all(s, id, business_id)->Ok_0, id, business_id) == release_all(
            s,
            id,
            business_id,
        ),
{
    let pred = |l: ReservationLine| open_line(l, id, business_id);
    let ls = open_lines(s.lines, id, business_id);
    lemma_release_prefix_marks(s, id, ls, ls.len() as int);
    let t = release_all(s, id, business_id)->Ok_0;
    assert forall|x: int| 0 <= x < t.lines.len() implies !pred(#[trigger] t.lines[x]) by {
        if pred(s.lines[x]) {
            s.lines.lemma_filter_contains(pred, x);
            let k = choose|k: int| 0 <= k < ls.len() && ls[k] == s.lines[x];
            assert(ls[k].product_id == s.lines[x].product_id);
        }
    }
    assert(t.lines.all(|l: ReservationLine| !pred(l)));
    t.lines.lemma_all_neg_filter_empty(pred);
    assert(open_lines(t.lines, id, business_id).len() == 0);
}

/// The stock `l` holds of product `i` of `ps`.
pub open spec fn holds(l: ReservationLine, ps: Seq<StockProduct>, i: int) -> int {
    if product_index(ps, l.product_id) == i {
        l.quantity as int
    } else {
        0
    }
}

/// The stock the lines `ls` hold of product `i` of `ps`.
pub open spec fn held(ls: Seq<ReservationLine>, ps: Seq<StockProduct>, i: int) -> int
    decreases ls.len(),
{
    if ls.len() == 0 {
        0
    } else {
        holds(ls[0], ps, i) + held(ls.skip(1), ps, i)
    }
}

proof fn lemma_held_push(ls: Seq<ReservationLine>, ps: Seq<StockProduct>, i: int, x: ReservationLine)
    ensures
        held(ls.push(x), ps, i) == held(ls, ps, i) + holds(x, ps, i),
    decreases ls.len(),
{
    if ls.len() == 0 {
        assert(ls.push(x).skip(1) =~= Seq::<ReservationLine>::empty());
        assert(held(Seq::<ReservationLine>::empty(), ps, i) == 0);
        assert(ls.push(x)[0] == x);
    } else {
        assert(ls.push(x).skip(1) =~= ls.skip(1).push(x));
        assert(ls.push(x)[0] == ls[0]);
        lemma_held_push(ls.skip(1), ps, i, x);
    }
}

proof fn lemma_held_nonneg(ls: Seq<ReservationLine>, ps: Seq<StockProduct>, i: int)
    requires
        forall|k: int| 0 <= k < ls.len() ==> (#[trigger] ls[k]).quantity >= 0,
    ensures
        held(ls, ps, i) >= 0,
    decreases ls.len(),
{
    if ls.len() > 0 {
        assert forall|k: int| 0 <= k < ls.skip(1).len() implies (#[trigger] ls.skip(1)[k]).quantity
            >= 0 by {
            assert(ls.skip(1)[k] == ls[k + 1]);
        }
        lemma_held_nonneg(ls.skip(1), ps, i);
    }
}

/// `u` is `s` with lines booked under `id` from `s.lines.len()` on, each on a
/// product of `s` for that product's business, and every product short of
/// exactly what they hold.
pub open spec fn reserved_against(s: BookState, u: BookState, id: u128) -> bool {
    let lo = s.lines.len() as int;
    let fresh = u.lines.subrange(lo, u.lines.len() as int);
    &&& u.products.len() == s.products.len()
    &&& forall|i: int|
        0 <= i < s.products.len() ==> #[trigger] u.products[i] == StockProduct {
            quantity: u.products[i].quantity,
            ..s.products[i]
        }
    &&& forall|i: int|
        0 <= i < s.products.len() ==> (#[trigger] u.products[i]).quantity == s.products[i].quantity
            - held(fresh, s.products, i)
    &&& forall|i: int|
        0 <= i < s.products.len() && held(fresh, s.products, i) > 0 ==> (
        #[trigger] u.products[i]).quantity >= 0
    &&& u.lines.len() >= lo
    &&& forall|j: int| 0 <= j < lo ==> #[trigger] u.lines[j] == s.lines[j]
    &&& forall|j: int|
        lo <= j < u.lines.len() ==> {
            let l = #[trigger] u.lines[j];
            &&& l.reservation_id == id
            &&& !l.released
            &&& l.quantity >= 1
            &&& 0 <= product_index(s.products, l.product_id)
            &&& l.business_id == s.products[product_index(s.products, l.product_id)].business_id
        }
    &&& forall|pid: u128| #[trigger] product_index(u.products, pid) == product_index(s.products, pid)
}

proof fn lemma_reserve_books(s: BookState, id: u128, items: Seq<ItemView>, today: i32, n: int)
    requires
        0 <= n <= items.len(),
        reserve_prefix(s, id, items, today, n) is Ok,
    ensures
        ({
            let u = reserve_prefix(s, id, items, today, n)->Ok_0;
            &&& reserved_against(s, u, id)
            &&& forall|j: int|
                s.lines.len() <= j < u.lines.len() ==> exists|k: int|
                    0 <= k < n && #[trigger] items[k].product_id == (
                    #[trigger] u.lines[j]).product_id
        }),
    decreases n,
{
    let lo = s.lines.len() as int;
    if n == 0 {
        assert(s.lines.subrange(lo, lo) =~= Seq::<ReservationLine>::empty());
        return;
    }
    if reserve_prefix(s, id, items, today, n - 1) is Err {
        assert(reserve_prefix(s, id, items, today, n) is Err);
    }
    lemma_reserve_books(s, id, items, today, n - 1);
    let u = reserve_prefix(s, id, items, today, n - 1)->Ok_0;
    let v = reserve_prefix(s, id, items, today, n)->Ok_0;
    let item = items[n - 1];
    assert(reserve_item(u, id, item, today) == Ok::<BookState, ReservationError>(v));
    let m = decimal_reading(item.quantity)->Milli_0;
    let f = |p: StockProduct| p.id == item.product_id;
    lemma_last_index_range(u.products, f);
    let pi = product_index(u.products, item.product_id);
    let prod = u.products[pi];
    let np = StockProduct { quantity: (prod.quantity - m) as i64, ..prod };
    let nl = ReservationLine {
        reservation_id: id,
        product_id: item.product_id,
        business_id: prod.business_id,
        quantity: m,
        released: false,
    };
    assert(v.products == u.products.update(pi, np));
    assert(v.lines == u.lines.push(nl));
    assert(pi == product_index(s.products, item.product_id));
    let fu = u.lines.subrange(lo, u.lines.len() as int);
    let fv = v.lines.subrange(lo, v.lines.len() as int);
    assert(fv =~= fu.push(nl));
    assert forall|i: int| 0 <= i < s.products.len() implies held(fv, s.products, i) == held(
        fu,
        s.products,
        i,
    ) + holds(nl, s.products, i) by {
        lemma_held_push(fu, s.products, i, nl);
    }
    assert forall|i: int| 0 <= i < s.products.len() implies (#[trigger] v.products[i]).quantity
        == s.products[i].quantity - held(fv, s.products, i) by {
        if i != pi {
            assert(v.products[i] == u.products[i]);
        }
    }
    assert forall|i: int|
        0 <= i < s.products.len() && held(fv, s.products, i) > 0 implies (
        #[trigger] v.products[i]).quantity >= 0 by {
        if i != pi {
            assert(v.products[i] == u.products[i]);
        }
    }
    assert forall|i: int| 0 <= i < s.products.len() implies #[trigger] v.products[i]
        == StockProduct { quantity: v.products[i].quantity, ..s.products[i] } by {
        if i != pi {
            assert(v.products[i] == u.products[i]);
        }
    }
    assert forall|j: int| 0 <= j < lo implies #[trigger] v.lines[j] == s.lines[j] by {
        assert(v.lines[j] == u.lines[j]);
    }
    assert forall|j: int| lo <= j < v.lines.len() implies {
        let l = #[trigger] v.lines[j];
        &&& l.reservation_id == id
        &&& !l.released
        &&& l.quantity >= 1
        &&& 0 <= product_index(s.products, l.product_id)
        &&& l.business_id == s.products[product_index(s.products, l.product_id)].business_id
    } by {
        if j < u.lines.len() {
            assert(v.lines[j] == u.lines[j]);
        }
    }
    assert forall|pid: u128| #[trigger] product_index(v.products, pid) == product_index(
        s.products,
        pid,
    ) by {
        lemma_last_index_update(u.products, |x: StockProduct| x.id == pid, pi, np);
        assert(product_index(u.products, pid) == product_index(s.products, pid));
    }
    assert forall|j: int| s.lines.len() <= j < v.lines.len() implies exists|k: int|
        0 <= k < n && #[trigger] items[k].product_id == (#[trigger] v.lines[j]).product_id by {
        if j == u.lines.len() {
            assert(items[n - 1].product_id == v.lines[j].product_id);
        } else {
            assert(v.lines[j] == u.lines[j]);
            let k = choose|k: int|
                0 <= k < n - 1 && #[trigger] items[k].product_id == (
                #[trigger] u.lines[j]).product_id;
            assert(items[k].product_id == v.lines[j].product_id);
        }
    }
    assert(reserved_against(s, v, id));
}

/// Filtering keeps a sequence whose every element passes.
proof fn lemma_filter_keeps_all(ls: Seq<ReservationLine>, pred: spec_fn(ReservationLine) -> bool)
    requires
        forall|k: int| 0 <= k < ls.len() ==> pred(#[trigger] ls[k]),
    ensures
        ls.filter(pred) == ls,
    decreases ls.len(),
{
    reveal(Seq::filter);
    if ls.len() > 0 {
        lemma_filter_keeps_all(ls.drop_last(), pred);
        assert(ls.drop_last().push(ls.last()) =~= ls);
    }
}

/// Giving back the first `k` of lines `ls` that each hold stock of a product of
/// `s` returns that stock.
proof fn lemma_release_books(
    s: BookState,
    t: BookState,
    id: u128,
    ls: Seq<ReservationLine>,
    k: int,
)
    requires
        0 <= k <= ls.len(),
        t.products.len() == s.products.len(),
        forall|i: int|
            0 <= i < s.products.len() ==> #[trigger] t.products[i] == (StockProduct {
                quantity: t.products[i].quantity,
                ..s.products[i]
            }),
        forall|i: int|
            0 <= i < s.products.len() ==> (#[trigger] t.products[i]).quantity
                == s.products[i].quantity - held(ls, s.products, i),
        forall|i: int|
            0 <= i < s.products.len() && held(ls, s.products, i) > 0 ==> (
            #[trigger] t.products[i]).quantity >= 0,
        forall|i: int|
            0 <= i < s.products.len() ==> (#[trigger] s.products[i]).quantity
                <= crate::materials::consumption::MAX_STOCK_MILLI,
        forall|j: int|
            0 <= j < ls.len() ==> (#[trigger] ls[j]).quantity >= 1 && 0 <= product_index(
                s.products,
                ls[j].product_id,
            ),
        forall|pid: u128| #[trigger] product_index(t.products, pid) == product_index(s.products, pid),
    ensures
        release_prefix(t, id, ls, k) is Ok,
        ({
            let v = release_prefix(t, id, ls, k)->Ok_0;
            let rest = ls.skip(k);
            &&& v.products.len() == s.products.len()
            &&& forall|i: int|
                0 <= i < s.products.len() ==> #[trigger] v.products[i] == (StockProduct {
                    quantity: v.products[i].quantity,
                    ..s.products[i]
                })
            &&& forall|i: int|
                0 <= i < s.products.len() ==> (#[trigger] v.products[i]).quantity
                    == s.products[i].quantity - held(rest, s.products, i)
            &&& forall|i: int|
                0 <= i < s.products.len() && held(rest, s.products, i) > 0 ==> (
                #[trigger] v.products[i]).quantity >= 0
            &&& forall|pid: u128| #[trigger] product_index(v.products, pid) == product_index(s.products, pid)
        }),
    decreases k,
{
    if k == 0 {
        assert(ls.skip(0) =~= ls);
        return;
    }
    lemma_release_books(s, t, id, ls, k - 1);
    let u = release_prefix(t, id, ls, k - 1)->Ok_0;
    let l = ls[k - 1];
    let before = ls.skip(k - 1);
    let rest = ls.skip(k);
    assert(before[0] == l);
    assert(before.skip(1) =~= rest);
    assert forall|j: int| 0 <= j < rest.len() implies (#[trigger] rest[j]).quantity >= 0 by {
        assert(rest[j] == ls[j + k]);
    }
    let pi = product_index(u.products, l.product_id);
    let f = |p: StockProduct| p.id == l.product_id;
    lemma_last_index_range(s.products, f);
    assert(pi == product_index(s.products, l.product_id));
    assert(0 <= pi < s.products.len());
    let p = u.products[pi];
    lemma_held_nonneg(rest, s.products, pi);
    assert(held(before, s.products, pi) == l.quantity + held(rest, s.products, pi));
    assert(p.quantity >= 0);
    let np = StockProduct { quantity: (p.quantity + l.quantity) as i64, ..p };
    let v = release_line(u, id, l)->Ok_0;
    assert(v.products == u.products.update(pi, np));
    assert forall|i: int| 0 <= i < s.products.len() implies (#[trigger] v.products[i]).quantity
        == s.products[i].quantity - held(rest, s.products, i) by {
        assert(held(before, s.products, i) == holds(l, s.products, i) + held(rest, s.products, i));
        if i != pi {
            assert(v.products[i] == u.products[i]);
        }
    }
    assert forall|i: int|
        0 <= i < s.products.len() && held(rest, s.products, i) > 0 implies (
        #[trigger] v.products[i]).quantity >= 0 by {
        assert(held(before, s.products, i) == holds(l, s.products, i) + held(rest, s.products, i));
        if i != pi {
            assert(v.products[i] == u.products[i]);
        }
    }
    assert forall|i: int| 0 <= i < s.products.len() implies #[trigger] v.products[i]
        == StockProduct { quantity: v.products[i].quantity, ..s.products[i] } by {
        if i != pi {
            assert(v.products[i] == u.products[i]);
        }
    }
    assert forall|pid: u128| #[trigger] product_index(v.products, pid) == product_index(
        s.products,
        pid,
    ) by {
        lemma_last_index_update(u.products, |x: StockProduct| x.id == pid, pi, np);
        assert(product_index(u.products, pid) == product_index(s.products, pid));
    }
}

/// The open lines of a reservation just made under a fresh key are its new lines.
proof fn lemma_open_lines_fresh(s: BookState, t: BookState, id: u128, business_id: u128)
    requires
        reserved_against(s, t, id),
        forall|k: int| 0 <= k < s.lines.len() ==> (#[trigger] s.lines[k]).reservation_id != id,
        forall|j: int|
            s.lines.len() <= j < t.lines.len() ==> (#[trigger] t.lines[j]).business_id
                == business_id,
    ensures
        open_lines(t.lines, id, business_id) == t.lines.subrange(
            s.lines.len() as int,
            t.lines.len() as int,
        ),
{
    let lo = s.lines.len() as int;
    let fresh = t.lines.subrange(lo, t.lines.len() as int);
    let pred = |l: ReservationLine| open_line(l, id, business_id);
    let old = t.lines.take(lo);
    assert(t.lines =~= old + fresh);
    assert(old.all(|l: ReservationLine| !pred(l))) by {
        assert forall|k: int| 0 <= k < old.len() implies !pred(#[trigger] old[k]) by {
            assert(old[k] == s.lines[k]);
        }
    }
    old.lemma_all_neg_filter_empty(pred);
    assert forall|k: int| 0 <= k < fresh.len() implies pred(#[trigger] fresh[k]) by {
        assert(fresh[k] == t.lines[k + lo]);
    }
    lemma_filter_keeps_all(fresh, pred);
    Seq::filter_distributes_over_add(old, fresh, pred);
    assert(old.filter(pred) =~= Seq::<ReservationLine>::empty());
    assert(open_lines(t.lines, id, business_id) =~= fresh);
}

/// Every line of a reservation is on a product that one of its items names.
proof fn lemma_lines_of_items(
    s: BookState,
    t: BookState,
    items: Seq<Item>,
    business_id: u128,
)
    requires
        forall|k: int|
            0 <= k < items.len() ==> s.products[product_index(
                s.products,
                #[trigger] items[k].product_id,
            )].business_id == business_id,
        forall|j: int|
            s.lines.len() <= j < t.lines.len() ==> exists|k: int|
                0 <= k < items_view(sorted_by_key(items)).len() && #[trigger] items_view(
                    sorted_by_key(items),
                )[k].product_id == (#[trigger] t.lines[j]).product_id,
        forall|j: int|
            s.lines.len() <= j < t.lines.len() ==> (#[trigger] t.lines[j]).business_id
                == s.products[product_index(s.products, t.lines[j].product_id)].business_id,
    ensures
        forall|j: int|
            s.lines.len() <= j < t.lines.len() ==> (#[trigger] t.lines[j]).business_id
                == business_id,
{
    let sorted = sorted_by_key(items);
    let payload = items_view(sorted);
    assert forall|j: int| s.lines.len() <= j < t.lines.len() implies (#[trigger] t.lines[j]).business_id
        == business_id by {
        let k = choose|k: int|
            0 <= k < payload.len() && #[trigger] payload[k].product_id == (
            #[trigger] t.lines[j]).product_id;
        assert(payload[k].product_id == sorted[k].product_id);
        assert(sorted.contains(sorted[k]));
        lemma_sorted_from(items, sorted[k]);
        let k2 = choose|k2: int| 0 <= k2 < items.len() && items[k2] == sorted[k];
        assert(s.products[product_index(s.products, items[k2].product_id)].business_id
            == business_id);
    }
}

/// Releasing a reservation made under a fresh key, for the business that owns
/// every reserved product, gives all the stock back: the products are as they
/// were before.
pub proof fn law_release_gives_back(
    s: BookState,
    id: u128,
    items: Seq<Item>,
    today: i32,
    business_id: u128,
)
    requires
        header_index(s.headers, id) < 0,
        forall|k: int| 0 <= k < s.lines.len() ==> (#[trigger] s.lines[k]).reservation_id != id,
        forall|i: int|
            0 <= i < s.products.len() ==> (#[trigger] s.products[i]).quantity
                <= crate::materials::consumption::MAX_STOCK_MILLI,
        forall|k: int|
            0 <= k < items.len() ==> s.products[product_index(
                s.products,
                #[trigger] items[k].product_id,
            )].business_id == business_id,
        reserve_all(s, id, items, today) is Ok,
    ensures
        release_all(reserve_all(s, id, items, today)->Ok_0, id, business_id) is Ok,
        release_all(reserve_all(s, id, items, today)->Ok_0, id, business_id)->Ok_0.products
            == s.products,
{
    let lo = s.lines.len() as int;
    let sorted = sorted_by_key(items);
    let payload = items_view(sorted);
    let s1 = BookState { headers: s.headers.push(HeaderView { id, payload }), ..s };
    lemma_reserve_books(s1, id, payload, today, payload.len() as int);
    let t = reserve_all(s, id, items, today)->Ok_0;
    lemma_lines_of_items(s1, t, items, business_id);
    lemma_open_lines_fresh(s1, t, id, business_id);
    let ls = open_lines(t.lines, id, business_id);
    assert forall|j: int| 0 <= j < ls.len() implies (#[trigger] ls[j]).quantity >= 1 && 0
        <= product_index(s.products, ls[j].product_id) by {
        assert(ls[j] == t.lines[j + lo]);
    }
    lemma_release_books(s1, t, id, ls, ls.len() as int);
    let v = release_all(t, id, business_id)->Ok_0;
    assert(ls.skip(ls.len() as int) =~= Seq::<ReservationLine>::empty());
    assert(v.products =~= s.products);
}

/// Repeating a reservation that succeeded, with the same items in any order
/// and no product twice, changes nothing and succeeds again: the key stores
/// the items sorted by product.
pub proof fn law_reserve_replays_in_any_order(
    s: BookState,
    id: u128,
    items: Seq<Item>,
    reordered: Seq<Item>,
    today: i32,
)
    requires
        reserve_all(s, id, items, today) is Ok,
        distinct_by(reordered, |i: Item| i.product_id),
        forall|x: Item| items.contains(x) <==> reordered.contains(x),
    ensures
        reserve_all(reserve_all(s, id, items, today)->Ok_0, id, reordered, today) == reserve_all(
            s,
            id,
            items,
            today,
        ),
{
    let a = sorted_by_key(items);
    let b = sorted_by_key(reordered);
    lemma_sorted_keys(items);
    lemma_sorted_keys(reordered);
    assert(unique_sorted(a));
    assert forall|i: int, j: int| 0 <= i < j < a.len() implies a[i].spec_key() < a[j].spec_key() by {
        assert(a[j - 1].product_id != a[j].product_id);
        assert(a[i].spec_key() <= a[j - 1].spec_key());
        assert(a[j - 1].spec_key() <= a[j].spec_key());
    }
    lemma_sorted_distinct(reordered, |i: Item| i.product_id);
    assert forall|i: int, j: int| 0 <= i < j < b.len() implies b[i].spec_key() < b[j].spec_key() by {
        assert(b[i].spec_key() <= b[j].spec_key());
        assert(b[i].product_id != b[j].product_id);
    }
    assert forall|x: Item| a.contains(x) <==> b.contains(x) by {
        if a.contains(x) {
            lemma_sorted_from(items, x);
            lemma_sorted_contains(reordered, x);
        }
        if b.contains(x) {
            lemma_sorted_from(reordered, x);
            lemma_sorted_contains(items, x);
        }
    }
    lemma_strict_same_elements(a, b);
    law_reserve_idempotent(s, id, items, today);
}

/// After a successful reservation the key holds the items, sorted by product.
proof fn lemma_key_payload(s: BookState, id: u128, items: Seq<Item>, today: i32)
    requires
        reserve_all(s, id, items, today) is Ok,
    ensures
        ({
            let t = reserve_all(s, id, items, today)->Ok_0;
            &&& header_index(t.headers, id) >= 0
            &&& t.headers[header_index(t.headers, id)].payload == items_view(sorted_by_key(items))
        }),
{
    let sorted = sorted_by_key(items);
    let payload = items_view(sorted);
    let f = |h: HeaderView| h.id == id;
    lemma_last_index_range(s.headers, f);
    if header_index(s.headers, id) < 0 {
        let h = HeaderView { id, payload };
        let s1 = BookState { headers: s.headers.push(h), ..s };
        lemma_prefix_keeps_headers(s1, id, payload, today, payload.len() as int);
        lemma_last_index_push_any(s.headers, f, h);
        assert(s1.headers[s.headers.len() as int] == h);
    }
}

/// Items whose sorted payloads agree agree as sets of items.
proof fn lemma_same_payload_same_items(items: Seq<Item>, other: Seq<Item>, x: ItemView)
    requires
        items_view(sorted_by_key(items)) == items_view(sorted_by_key(other)),
        items_view(items).contains(x),
    ensures
        items_view(other).contains(x),
{
    let a = sorted_by_key(items);
    let b = sorted_by_key(other);
    let k = choose|k: int| 0 <= k < items_view(items).len() && items_view(items)[k] == x;
    assert(items[k]@ == x);
    assert(items.contains(items[k]));
    lemma_sorted_contains(items, items[k]);
    let j = choose|j: int| 0 <= j < a.len() && a[j] == items[k];
    assert(items_view(a)[j] == x);
    assert(items_view(a).len() == a.len());
    assert(items_view(b).len() == b.len());
    assert(j < b.len());
    assert(items_view(b)[j] == b[j]@);
    assert(b.contains(b[j]));
    lemma_sorted_from(other, b[j]);
    let k2 = choose|k2: int| 0 <= k2 < other.len() && other[k2] == b[j];
    assert(items_view(other)[k2] == x);
}

/// A reservation key already used with other items (an item, amount or price
/// that one request has and the other has not) is refused as reused; the book
/// is then left as it is.
pub proof fn law_reserve_key_reused(
    s: BookState,
    id: u128,
    items: Seq<Item>,
    other: Seq<Item>,
    today: i32,
)
    requires
        reserve_all(s, id, items, today) is Ok,
        other.len() > 0,
        distinct_by(other, |i: Item| i.product_id),
        exists|x: ItemView| items_view(items).contains(x) != items_view(other).contains(x),
    ensures
        reserve_all(reserve_all(s, id, items, today)->Ok_0, id, other, today) == Err::<
            BookState,
            ReservationError,
        >(ReservationError::KeyReused),
{
    let b = sorted_by_key(other);
    lemma_sorted_len(other);
    lemma_sorted_distinct(other, |i: Item| i.product_id);
    assert(unique_sorted(b)) by {
        assert forall|i: int| 0 <= i < b.len() - 1 implies #[trigger] b[i].product_id != b[i
            + 1].product_id by {
            assert((|i: Item| i.product_id)(b[i]) != (|i: Item| i.product_id)(b[i + 1]));
        }
    }
    lemma_key_payload(s, id, items, today);
    let x = choose|x: ItemView| items_view(items).contains(x) != items_view(other).contains(x);
    if items_view(sorted_by_key(items)) == items_view(b) {
        if items_view(items).contains(x) {
            lemma_same_payload_same_items(items, other, x);
        } else {
            lemma_same_payload_same_items(other, items, x);
        }
    }
}

/// What line `l` gives back to the product stored at index `i`.
pub open spec fn line_share(ps: Seq<StockProduct>, i: int) -> spec_fn(ReservationLine) -> int {
    |l: ReservationLine|
        if product_index(ps, l.product_id) == i {
            l.quantity as int
        } else {
            0
        }
}

/// The stock a release of reservation `id` for `business_id` gives back to
/// the product stored at index `i`: the amounts of its open lines on it.
pub open spec fn given_back(s: BookState, id: u128, business_id: u128, i: int) -> int {
    sum_by(open_lines(s.lines, id, business_id), line_share(s.products, i))
}

proof fn lemma_release_prefix_sums(s: BookState, id: u128, ls: Seq<ReservationLine>, n: int)
    requires
        0 <= n <= ls.len(),
        release_prefix(s, id, ls, n) is Ok,
        forall|j: int| 0 <= j < ls.len() ==> (#[trigger] ls[j]).quantity >= 0,
    ensures
        ({
            let t = release_prefix(s, id, ls, n)->Ok_0;
            &&& t.products.len() == s.products.len()
            &&& forall|x: u128| product_index(t.products, x) == product_index(s.products, x)
            &&& forall|i: int|
                0 <= i < s.products.len() ==> {
                    &&& (#[trigger] t.products[i]) == StockProduct {
                        quantity: t.products[i].quantity,
                        ..s.products[i]
                    }
                    &&& t.products[i].quantity == s.products[i].quantity + sum_by(
                        ls.take(n),
                        line_share(s.products, i),
                    )
                }
        }),
    decreases n,
{
    if n == 0 {
        assert(ls.take(0) =~= Seq::<ReservationLine>::empty());
        return;
    }
    lemma_release_prefix_sums(s, id, ls, n - 1);
    let t0 = release_prefix(s, id, ls, n - 1)->Ok_0;
    let t = release_prefix(s, id, ls, n)->Ok_0;
    let l = ls[n - 1];
    assert(ls.take(n).drop_last() =~= ls.take(n - 1));
    assert(ls.take(n).last() == l);
    let pi = product_index(t0.products, l.product_id);
    lemma_last_index_range(t0.products, |p: StockProduct| p.id == l.product_id);
    if pi >= 0 {
        let p = t0.products[pi];
        let np = StockProduct { quantity: (p.quantity + l.quantity) as i64, ..p };
        assert(t.products == t0.products.update(pi, np));
        assert forall|x: u128| product_index(t.products, x) == product_index(s.products, x) by {
            lemma_last_index_update(t0.products, |p: StockProduct| p.id == x, pi, np);
        }
        assert forall|i: int| 0 <= i < s.products.len() implies {
            &&& (#[trigger] t.products[i]) == StockProduct {
                quantity: t.products[i].quantity,
                ..s.products[i]
            }
            &&& t.products[i].quantity == s.products[i].quantity + sum_by(
                ls.take(n),
                line_share(s.products, i),
            )
        } by {
            assert(sum_by(ls.take(n), line_share(s.products, i)) == sum_by(
                ls.take(n - 1),
                line_share(s.products, i),
            ) + line_share(s.products, i)(l));
            if i != pi {
                assert(t.products[i] == t0.products[i]);
            }
        }
    } else {
        assert forall|i: int| 0 <= i < s.products.len() implies {
            &&& (#[trigger] t.products[i]) == StockProduct {
                quantity: t.products[i].quantity,
                ..s.products[i]
            }
            &&& t.products[i].quantity == s.products[i].quantity + sum_by(
                ls.take(n),
                line_share(s.products, i),
            )
        } by {
            assert(sum_by(ls.take(n), line_share(s.products, i)) == sum_by(
                ls.take(n - 1),
                line_share(s.products, i),
            ) + line_share(s.products, i)(l));
        }
    }
}

/// Releasing reservation `id` for `business_id` gives every open line of that
/// business back to its product exactly once: each product gains the amounts
/// of its open lines and nothing else of it changes, and no open line remains
/// (so a second release gives nothing). Reserved amounts are not negative.
pub proof fn law_release_gives_back_open_lines(s: BookState, id: u128, business_id: u128)
    requires
        release_all(s, id, business_id) is Ok,
        forall|k: int| 0 <= k < s.lines.len() ==> (#[trigger] s.lines[k]).quantity >= 0,
    ensures
        ({
            let t = release_all(s, id, business_id)->Ok_0;
            &&& t.products.len() == s.products.len()
            &&& forall|i: int|
                0 <= i < s.products.len() ==> {
                    &&& (#[trigger] t.products[i]) == StockProduct {
                        quantity: t.products[i].quantity,
                        ..s.products[i]
                    }
                    &&& t.products[i].quantity == s.products[i].quantity + given_back(
                        s,
                        id,
                        business_id,
                        i,
                    )
                }
            &&& open_lines(t.lines, id, business_id).len() == 0
        }),
{
    let pred = |l: ReservationLine| open_line(l, id, business_id);
    let ls = open_lines(s.lines, id, business_id);
    assert forall|j: int| 0 <= j < ls.len() implies (#[trigger] ls[j]).quantity >= 0 by {
        assert(s.lines.filter(pred).contains(ls[j]));
        s.lines.lemma_filter_contains_rev(pred, ls[j]);
        let k = choose|k: int| 0 <= k < s.lines.len() && s.lines[k] == ls[j];
        assert(s.lines[k].quantity >= 0);
    }
    lemma_release_prefix_sums(s, id, ls, ls.len() as int);
    assert(ls.take(ls.len() as int) =~= ls);
    law_release_idempotent(s, id, business_id);
    lemma_release_prefix_marks(s, id, ls, ls.len() as int);
    let t = release_all(s, id, business_id)->Ok_0;
    assert forall|x: int| 0 <= x < t.lines.len() implies !pred(#[trigger] t.lines[x]) by {
        if pred(s.lines[x]) {
            s.lines.lemma_filter_contains(pred, x);
            let k = choose|k: int| 0 <= k < ls.len() && ls[k] == s.lines[x];
            assert(ls[k].product_id == s.lines[x].product_id);
        }
    }
    assert(t.lines.all(|l: ReservationLine| !pred(l)));
    t.lines.lemma_all_neg_filter_empty(pred);
}

/// The booking steps so far took stock only from products that could be sold.
proof fn lemma_reserve_prefix_sellable(
    s: BookState,
    id: u128,
    items: Seq<ItemView>,
    today: i32,
    n: int,
)
    requires
        0 <= n <= items.len(),
        reserve_prefix(s, id, items, today, n) is Ok,
    ensures
        ({
            let t = reserve_prefix(s, id, items, today, n)->Ok_0;
            forall|i: int|
                0 <= i < s.products.len() && (#[trigger] t.products[i]).quantity
                    != s.products[i].quantity ==> {
                    let a = s.products[i];
                    &&& a.is_active
                    &&& !a.is_deleted
                    &&& a.batch_completed
                    &&& a.price > 0
                    &&& (a.expiry_date matches Some(d) ==> d >= today)
                }
        }),
    decreases n,
{
    if n > 0 {
        lemma_reserve_prefix_sellable(s, id, items, today, n - 1);
        lemma_reserve_prefix_framed(s, id, items, today, n - 1);
        let t0 = reserve_prefix(s, id, items, today, n - 1)->Ok_0;
        lemma_last_index_range(t0.products, |p: StockProduct| p.id == items[n - 1].product_id);
        let t = reserve_prefix(s, id, items, today, n)->Ok_0;
        assert forall|i: int|
            0 <= i < s.products.len() && (#[trigger] t.products[i]).quantity
                != s.products[i].quantity implies {
            let a = s.products[i];
            &&& a.is_active
            &&& !a.is_deleted
            &&& a.batch_completed
            &&& a.price > 0
            &&& (a.expiry_date matches Some(d) ==> d >= today)
        } by {
            let a = s.products[i];
            assert(t0.products[i] == StockProduct { quantity: t0.products[i].quantity, ..a });
        }
    }
}

/// A reservation only takes stock from products on sale: active, not deleted,
/// priced, from a completed batch and not expired on the day of the request.
/// An inactive, deleted or expired product's stock is never reduced.
pub proof fn law_reserve_only_sellable(s: BookState, id: u128, items: Seq<Item>, today: i32)
    requires
        reserve_all(s, id, items, today) is Ok,
    ensures
        ({
            let t = reserve_all(s, id, items, today)->Ok_0;
            &&& t.products.len() == s.products.len()
            &&& forall|i: int|
                0 <= i < s.products.len() && (#[trigger] t.products[i]).quantity
                    != s.products[i].quantity ==> {
                    let a = s.products[i];
                    &&& a.is_active
                    &&& !a.is_deleted
                    &&& a.batch_completed
                    &&& a.price > 0
                    &&& (a.expiry_date matches Some(d) ==> d >= today)
                }
        }),
{
    law_reserve_takes_available_stock(s, id, items, today);
    let sorted = sorted_by_key(items);
    let payload = items_view(sorted);
    if header_index(s.headers, id) < 0 && unique_sorted(sorted) {
        let s1 = BookState { headers: s.headers.push(HeaderView { id, payload }), ..s };
        lemma_reserve_prefix_sellable(s1, id, payload, today, payload.len() as int);
    }
}

/// The stock item `v` asks of the product stored at index `i` of `ps`, in
/// thousandths (what its quantity text reads as).
pub open spec fn asked_of(ps: Seq<StockProduct>, i: int) -> spec_fn(ItemView) -> int {
    |v: ItemView|
        if product_index(ps, v.product_id) == i {
            match decimal_reading(v.quantity) {
                DecimalReading::Milli(m) => m as int,
                _ => 0,
            }
        } else {
            0
        }
}

proof fn lemma_reserve_prefix_takes(
    s: BookState,
    id: u128,
    items: Seq<ItemView>,
    today: i32,
    n: int,
)
    requires
        0 <= n <= items.len(),
        reserve_prefix(s, id, items, today, n) is Ok,
    ensures
        ({
            let t = reserve_prefix(s, id, items, today, n)->Ok_0;
            &&& t.products.len() == s.products.len()
            &&& t.lines.len() == s.lines.len() + n
            &&& forall|x: u128| product_index(t.products, x) == product_index(s.products, x)
            &&& forall|i: int|
                0 <= i < s.products.len() ==> (#[trigger] t.products[i]).quantity
                    == s.products[i].quantity - sum_by(items.take(n), asked_of(s.products, i))
        }),
    decreases n,
{
    if n == 0 {
        assert(items.take(0) =~= Seq::<ItemView>::empty());
        return;
    }
    lemma_reserve_prefix_takes(s, id, items, today, n - 1);
    let t0 = reserve_prefix(s, id, items, today, n - 1)->Ok_0;
    let t = reserve_prefix(s, id, items, today, n)->Ok_0;
    let v = items[n - 1];
    assert(items.take(n).drop_last() =~= items.take(n - 1));
    assert(items.take(n).last() == v);
    let pi = product_index(t0.products, v.product_id);
    lemma_last_index_range(t0.products, |p: StockProduct| p.id == v.product_id);
    let m = decimal_reading(v.quantity)->Milli_0;
    let prod = t0.products[pi];
    let np = StockProduct { quantity: (prod.quantity - m) as i64, ..prod };
    assert(t.products == t0.products.update(pi, np));
    assert forall|x: u128| product_index(t.products, x) == product_index(s.products, x) by {
        lemma_last_index_update(t0.products, |p: StockProduct| p.id == x, pi, np);
    }
    assert forall|i: int| 0 <= i < s.products.len() implies (#[trigger] t.products[i]).quantity
        == s.products[i].quantity - sum_by(items.take(n), asked_of(s.products, i)) by {
        assert(sum_by(items.take(n), asked_of(s.products, i)) == sum_by(
            items.take(n - 1),
            asked_of(s.products, i),
        ) + asked_of(s.products, i)(v));
        if i != pi {
            assert(t.products[i] == t0.products[i]);
        }
    }
}

proof fn lemma_sum_views(items: Seq<Item>, w: spec_fn(ItemView) -> int)
    ensures
        sum_by(items_view(items), w) == sum_by(items, |it: Item| w(it@)),
    decreases items.len(),
{
    if items.len() > 0 {
        lemma_sum_views(items.drop_last(), w);
        assert(items_view(items).drop_last() =~= items_view(items.drop_last()));
        assert(items_view(items).last() == items.last()@);
    }
}

/// A reservation under a new key takes from each product exactly what its
/// items ask of it, the sum of their quantities, and books one line per item.
pub proof fn law_reserve_takes_requested(s: BookState, id: u128, items: Seq<Item>, today: i32)
    requires
        header_index(s.headers, id) < 0,
        reserve_all(s, id, items, today) is Ok,
    ensures
        ({
            let t = reserve_all(s, id, items, today)->Ok_0;
            &&& t.products.len() == s.products.len()
            &&& t.lines.len() == s.lines.len() + items.len()
            &&& forall|i: int|
                0 <= i < s.products.len() ==> (#[trigger] t.products[i]).quantity
                    == s.products[i].quantity - sum_by(
                    items,
                    |it: Item| asked_of(s.products, i)(it@),
                )
        }),
{
    let sorted = sorted_by_key(items);
    let payload = items_view(sorted);
    let s1 = BookState { headers: s.headers.push(HeaderView { id, payload }), ..s };
    lemma_sorted_len(items);
    lemma_reserve_prefix_takes(s1, id, payload, today, payload.len() as int);
    assert(payload.take(payload.len() as int) =~= payload);
    let t = reserve_all(s, id, items, today)->Ok_0;
    assert forall|i: int| 0 <= i < s.products.len() implies (#[trigger] t.products[i]).quantity
        == s.products[i].quantity - sum_by(items, |it: Item| asked_of(s.products, i)(it@)) by {
        lemma_sum_views(sorted, asked_of(s.products, i));
        lemma_sorted_sum(items, |it: Item| asked_of(s.products, i)(it@));
    }
}

} // verus!
