//! The raw-material consumption ledger. A production request consumes stock in
//! one all-or-nothing step; operation ids make retries safe, and a release
//! (tombstone) compensates a failed production write and blocks later reuse.
//!
//! The ledger holds the rows that one request touches; the service loads them
//! inside its transaction, runs the operation here and writes the result back.
use crate::auth::{require_business, require_service, AuthError, Claims};
use crate::sorting::{
    last_index, lemma_last_index_push_any, lemma_last_index_range, lemma_last_index_take,
    lemma_last_index_update, lemma_sorted_contains, lemma_sorted_from, lemma_sorted_len, sorted_by_key, stable_sort,
    distinct_by, lemma_sorted_distinct, lemma_sorted_sum, sum_by,
    SortKey,
};
use crate::text::{is_blank, owned, str_eq, trim, trimmed};
use vstd::prelude::*;

verus! {

/// The largest magnitude, in thousandths, of a `NUMERIC(12, 3)` column.
pub const MAX_STOCK_MILLI: i64 = 999_999_999_999;

/// A raw material's stock row.
pub struct Material {
    pub id: u128,
    pub business_id: u128,
    /// Stock in thousandths of `unit`.
    pub quantity: i64,
    pub unit: String,
    pub is_deleted: bool,
}

/// A consumption already booked under an operation id.
pub struct ConsumptionRecord {
    pub operation_id: u128,
    pub business_id: u128,
    pub raw_material_id: u128,
    pub quantity: i64,
    pub unit: String,
    pub released: bool,
}

/// A released operation id; it can never be consumed again.
#[derive(Clone, Copy, PartialEq, Eq, Structural, Debug)]
pub struct Tombstone {
    pub operation_id: u128,
    pub business_id: u128,
}

/// One requested consumption.
pub struct Consumption {
    pub operation_id: u128,
    pub raw_material_id: u128,
    /// The requested amount in thousandths; `None` when the request's number is
    /// not finite or has more than three decimal places.
    pub quantity: Option<i64>,
    pub unit: String,
}

/// The rows a consumption or release request reads and writes.
pub struct MaterialLedger {
    pub materials: Vec<Material>,
    pub records: Vec<ConsumptionRecord>,
    pub tombstones: Vec<Tombstone>,
}

pub struct MaterialState {
    pub id: u128,
    pub business_id: u128,
    pub quantity: int,
    pub unit: Seq<char>,
    pub is_deleted: bool,
}

pub struct RecordState {
    pub operation_id: u128,
    pub business_id: u128,
    pub raw_material_id: u128,
    pub quantity: int,
    pub unit: Seq<char>,
    pub released: bool,
}

pub struct LedgerState {
    pub materials: Seq<MaterialState>,
    pub records: Seq<RecordState>,
    pub tombstones: Seq<Tombstone>,
}

impl View for Material {
    type V = MaterialState;

    open spec fn view(&self) -> MaterialState {
        MaterialState {
            id: self.id,
            business_id: self.business_id,
            quantity: self.quantity as int,
            unit: self.unit@,
            is_deleted: self.is_deleted,
        }
    }
}

impl View for ConsumptionRecord {
    type V = RecordState;

    open spec fn view(&self) -> RecordState {
        RecordState {
            operation_id: self.operation_id,
            business_id: self.business_id,
            raw_material_id: self.raw_material_id,
            quantity: self.quantity as int,
            unit: self.unit@,
            released: self.released,
        }
    }
}

impl View for MaterialLedger {
    type V = LedgerState;

    open spec fn view(&self) -> LedgerState {
        LedgerState {
            materials: self.materials@.map_values(|m: Material| m@),
            records: self.records@.map_values(|r: ConsumptionRecord| r@),
            tombstones: self.tombstones@,
        }
    }
}

impl SortKey for Consumption {
    open spec fn spec_key(&self) -> u128 {
        self.raw_material_id
    }

    fn key(&self) -> (k: u128) {
        self.raw_material_id
    }
}

impl SortKey for u128 {
    open spec fn spec_key(&self) -> u128 {
        *self
    }

    fn key(&self) -> (k: u128) {
        *self
    }
}

/// Why a consumption or release request is refused.
#[derive(Clone, Copy, PartialEq, Eq, Structural, Debug)]
pub enum ConsumptionError {
    /// The operation id was released (409).
    Released,
    /// The amount is below 0.001, not a number with at most three decimals, or the unit is blank (400).
    InvalidItem,
    /// The operation id was already used for a different consumption, or released (409).
    AlreadyUsed,
    /// Not enough stock, another unit, or a material this business cannot use (400).
    Unavailable,
    /// A stored amount would leave the range of its column.
    OutOfRange,
    /// The caller is not the stock service acting for a business (403).
    Auth(AuthError),
}

impl ConsumptionError {
    /// The HTTP status the service answers with.
    pub fn status(&self) -> (s: u16)
        ensures
            s == match self {
                ConsumptionError::Released | ConsumptionError::AlreadyUsed => 409u16,
                ConsumptionError::InvalidItem | ConsumptionError::Unavailable => 400u16,
                ConsumptionError::OutOfRange => 500u16,
                ConsumptionError::Auth(_) => 403u16,
            },
    {
        match self {
            ConsumptionError::Released | ConsumptionError::AlreadyUsed => 409,
            ConsumptionError::InvalidItem | ConsumptionError::Unavailable => 400,
            ConsumptionError::OutOfRange => 500,
            ConsumptionError::Auth(_) => 403,
        }
    }

    /// The message the service answers with.
    #[verifier::allow_in_spec]
    pub fn message(&self) -> &'static str
        returns
            (match self {
                ConsumptionError::Released => "Consumption has been released",
                ConsumptionError::InvalidItem => "Quantity must be at least 0.001, have at most 3 decimal places, and a unit is required",
                ConsumptionError::AlreadyUsed => "Consumption operation already used",
                ConsumptionError::Unavailable => "Not enough stock, mismatched unit, or material unavailable for this business",
                ConsumptionError::OutOfRange => "Stored quantity out of range",
                ConsumptionError::Auth(e) => e.message(),
            }),
    {
        match self {
            ConsumptionError::Released => "Consumption has been released",
            ConsumptionError::InvalidItem => "Quantity must be at least 0.001, have at most 3 decimal places, and a unit is required",
            ConsumptionError::AlreadyUsed => "Consumption operation already used",
            ConsumptionError::Unavailable => "Not enough stock, mismatched unit, or material unavailable for this business",
            ConsumptionError::OutOfRange => "Stored quantity out of range",
            ConsumptionError::Auth(e) => e.message(),
        }
    }
}

/// Only the stock service (its token's subject is the nil id) may consume or
/// release, and always for the business it acts for, which is returned.
pub fn consumption_scope(claims: &Claims) -> (r: Result<u128, ConsumptionError>)
    ensures
        !(claims.role@ == "MATERIAL_STOCK"@ && claims.sub == 0) ==> r == Err::<u128, ConsumptionError>(
            ConsumptionError::Auth(AuthError::ServiceScope),
        ),
        claims.role@ == "MATERIAL_STOCK"@ && claims.sub == 0 ==> r == match claims.business_id {
            Some(b) => Ok::<u128, ConsumptionError>(b),
            None => Err::<u128, ConsumptionError>(ConsumptionError::Auth(AuthError::NoBusiness)),
        },
{
    match require_service(claims, "MATERIAL_STOCK", 0) {
        Ok(()) => {},
        Err(e) => {
            return Err(ConsumptionError::Auth(e));
        },
    }
    match require_business(claims) {
        Ok(b) => Ok(b),
        Err(e) => Err(ConsumptionError::Auth(e)),
    }
}

pub open spec fn material_index(ms: Seq<MaterialState>, id: u128) -> int {
    last_index(ms, |m: MaterialState| m.id == id)
}

pub open spec fn record_index(rs: Seq<RecordState>, op: u128) -> int {
    last_index(rs, |r: RecordState| r.operation_id == op)
}

pub open spec fn tombstone_index(ts: Seq<Tombstone>, op: u128) -> int {
    last_index(ts, |t: Tombstone| t.operation_id == op)
}

/// The request's amount and unit are acceptable.
pub open spec fn valid_item(item: Consumption) -> bool {
    &&& item.quantity is Some
    &&& item.quantity->0 >= 1
    &&& !is_blank(item.unit@)
}

/// The effect of one consumption on the ledger.
pub open spec fn consume_item(s: LedgerState, business_id: u128, item: Consumption) -> Result<
    LedgerState,
    ConsumptionError,
> {
    if tombstone_index(s.tombstones, item.operation_id) >= 0 {
        Err(ConsumptionError::Released)
    } else if !valid_item(item) {
        Err(ConsumptionError::InvalidItem)
    } else {
        let q = item.quantity->0 as int;
        let unit = trimmed(item.unit@);
        let ri = record_index(s.records, item.operation_id);
        if ri >= 0 {
            let r = s.records[ri];
            if r.business_id != business_id || r.raw_material_id != item.raw_material_id
                || r.quantity != q || r.unit != unit || r.released {
                Err(ConsumptionError::AlreadyUsed)
            } else {
                Ok(s)
            }
        } else if q > MAX_STOCK_MILLI {
            Err(ConsumptionError::OutOfRange)
        } else {
            let mi = material_index(s.materials, item.raw_material_id);
            if mi >= 0 && s.materials[mi].business_id == business_id
                && !s.materials[mi].is_deleted && s.materials[mi].unit == unit
                && s.materials[mi].quantity >= q {
                let m = s.materials[mi];
                Ok(
                    LedgerState {
                        materials: s.materials.update(
                            mi,
                            MaterialState { quantity: m.quantity - q, ..m },
                        ),
                        records: s.records.push(
                            RecordState {
                                operation_id: item.operation_id,
                                business_id,
                                raw_material_id: item.raw_material_id,
                                quantity: q,
                                unit,
                                released: false,
                            },
                        ),
                        tombstones: s.tombstones,
                    },
                )
            } else {
                Err(ConsumptionError::Unavailable)
            }
        }
    }
}

/// The first `n` items applied in order; the first refusal ends the run.
pub open spec fn consume_prefix(
    s: LedgerState,
    business_id: u128,
    items: Seq<Consumption>,
    n: int,
) -> Result<LedgerState, ConsumptionError>
    decreases n,
{
    if n <= 0 {
        Ok(s)
    } else {
        match consume_prefix(s, business_id, items, n - 1) {
            Ok(t) => consume_item(t, business_id, items[n - 1]),
            Err(e) => Err(e),
        }
    }
}

/// The whole request: the items in order of raw material, all or nothing.
pub open spec fn consume_all(s: LedgerState, business_id: u128, items: Seq<Consumption>) -> Result<
    LedgerState,
    ConsumptionError,
> {
    let sorted = sorted_by_key(items);
    consume_prefix(s, business_id, sorted, sorted.len() as int)
}

/// The effect of releasing one operation id.
pub open spec fn release_one(s: LedgerState, business_id: u128, op: u128) -> Result<
    LedgerState,
    ConsumptionError,
> {
    let s1 = if tombstone_index(s.tombstones, op) >= 0 {
        s
    } else {
        LedgerState {
            tombstones: s.tombstones.push(Tombstone { operation_id: op, business_id }),
            ..s
        }
    };
    let ri = record_index(s1.records, op);
    if ri >= 0 && s1.records[ri].business_id == business_id && !s1.records[ri].released {
        let r = s1.records[ri];
        let s2 = LedgerState {
            records: s1.records.update(ri, RecordState { released: true, ..r }),
            ..s1
        };
        let mi = material_index(s2.materials, r.raw_material_id);
        if mi >= 0 && s2.materials[mi].business_id == business_id {
            let m = s2.materials[mi];
            if m.quantity + r.quantity > MAX_STOCK_MILLI || m.quantity + r.quantity
                < -MAX_STOCK_MILLI {
                Err(ConsumptionError::OutOfRange)
            } else {
                Ok(
                    LedgerState {
                        materials: s2.materials.update(
                            mi,
                            MaterialState { quantity: m.quantity + r.quantity, ..m },
                        ),
                        ..s2
                    },
                )
            }
        } else {
            Ok(s2)
        }
    } else {
        Ok(s1)
    }
}

pub open spec fn release_prefix(s: LedgerState, business_id: u128, ops: Seq<u128>, n: int) -> Result<
    LedgerState,
    ConsumptionError,
>
    decreases n,
{
    if n <= 0 {
        Ok(s)
    } else {
        match release_prefix(s, business_id, ops, n - 1) {
            Ok(t) => release_one(t, business_id, ops[n - 1]),
            Err(e) => Err(e),
        }
    }
}

/// The whole release request: the ids in ascending order, all or nothing.
pub open spec fn release_all(s: LedgerState, business_id: u128, ops: Seq<u128>) -> Result<
    LedgerState,
    ConsumptionError,
> {
    let sorted = sorted_by_key(ops);
    release_prefix(s, business_id, sorted, sorted.len() as int)
}

fn find_material(ms: &Vec<Material>, id: u128) -> (r: Option<usize>)
    ensures
        match r {
            Some(i) => i < ms.len() && material_index(ms@.map_values(|m: Material| m@), id)
                == i,
            None => material_index(ms@.map_values(|m: Material| m@), id) == -1,
        },
{
    let ghost s = ms@.map_values(|m: Material| m@);
    let ghost f = |m: MaterialState| m.id == id;
    let mut j = ms.len();
    while j > 0
        invariant
            j <= ms.len(),
            s == ms@.map_values(|m: Material| m@),
            f == (|m: MaterialState| m.id == id),
            forall|k: int| j <= k < ms.len() ==> !f(#[trigger] s[k]),
        decreases j,
    {
        if ms[j - 1].id == id {
            proof {
                lemma_last_index_take(s, f, j as int);
                assert(s.take(j as int).last() == s[j - 1]);
            }
            return Some(j - 1);
        }
        j = j - 1;
    }
    proof {
        lemma_last_index_take(s, f, 0);
    }
    None
}

fn find_record(rs: &Vec<ConsumptionRecord>, op: u128) -> (r: Option<usize>)
    ensures
        match r {
            Some(i) => i < rs.len() && record_index(rs@.map_values(|r: ConsumptionRecord| r@), op)
                == i,
            None => record_index(rs@.map_values(|r: ConsumptionRecord| r@), op) == -1,
        },
{
    let ghost s = rs@.map_values(|r: ConsumptionRecord| r@);
    let ghost f = |r: RecordState| r.operation_id == op;
    let mut j = rs.len();
    while j > 0
        invariant
            j <= rs.len(),
            s == rs@.map_values(|r: ConsumptionRecord| r@),
            f == (|r: RecordState| r.operation_id == op),
            forall|k: int| j <= k < rs.len() ==> !f(#[trigger] s[k]),
        decreases j,
    {
        if rs[j - 1].operation_id == op {
            proof {
                lemma_last_index_take(s, f, j as int);
                assert(s.take(j as int).last() == s[j - 1]);
            }
            return Some(j - 1);
        }
        j = j - 1;
    }
    proof {
        lemma_last_index_take(s, f, 0);
    }
    None
}

fn find_tombstone(ts: &Vec<Tombstone>, op: u128) -> (r: bool)
    ensures
        r == (tombstone_index(ts@, op) >= 0),
{
    let ghost f = |t: Tombstone| t.operation_id == op;
    let mut j = ts.len();
    while j > 0
        invariant
            j <= ts.len(),
            f == (|t: Tombstone| t.operation_id == op),
            forall|k: int| j <= k < ts.len() ==> !f(#[trigger] ts@[k]),
        decreases j,
    {
        if ts[j - 1].operation_id == op {
            proof {
                lemma_last_index_take(ts@, f, j as int);
                assert(ts@.take(j as int).last() == ts@[j - 1]);
            }
            return true;
        }
        j = j - 1;
    }
    proof {
        lemma_last_index_take(ts@, f, 0);
    }
    false
}

impl Material {
    /// A copy of this row.
    pub fn duplicate(&self) -> (r: Material)
        ensures
            r@ == self@,
    {
        Material {
            id: self.id,
            business_id: self.business_id,
            quantity: self.quantity,
            unit: self.unit.clone(),
            is_deleted: self.is_deleted,
        }
    }
}

impl ConsumptionRecord {
    /// A copy of this row.
    pub fn duplicate(&self) -> (r: ConsumptionRecord)
        ensures
            r@ == self@,
    {
        ConsumptionRecord {
            operation_id: self.operation_id,
            business_id: self.business_id,
            raw_material_id: self.raw_material_id,
            quantity: self.quantity,
            unit: self.unit.clone(),
            released: self.released,
        }
    }
}

impl MaterialLedger {
    /// A ledger with no rows.
    pub fn new() -> (r: MaterialLedger)
        ensures
            r@.materials.len() == 0,
            r@.records.len() == 0,
            r@.tombstones.len() == 0,
    {
        MaterialLedger { materials: Vec::new(), records: Vec::new(), tombstones: Vec::new() }
    }

    /// A copy of the ledger.
    pub fn duplicate(&self) -> (r: MaterialLedger)
        ensures
            r@ == self@,
    {
        let mut materials: Vec<Material> = Vec::new();
        let mut i: usize = 0;
        while i < self.materials.len()
            invariant
                i <= self.materials.len(),
                materials.len() == i,
                materials@.map_values(|m: Material| m@) =~= self.materials@.take(
                    i as int,
                ).map_values(|m: Material| m@),
            decreases self.materials.len() - i,
        {
            let d = self.materials[i].duplicate();
            let ghost prev = materials@;
            materials.push(d);
            proof {
                let t = self.materials@.take(i + 1);
                assert forall|k: int| 0 <= k < i implies #[trigger] materials@[k]@ == t[k]@ by {
                    assert(materials@[k] == prev[k]);
                    assert(prev.map_values(|m: Material| m@)[k] == self.materials@.take(i as int).map_values(|m: Material| m@)[k]);
                }
                assert(t.map_values(|m: Material| m@).last() == d@);
                assert(materials@.map_values(|m: Material| m@) =~= t.map_values(|m: Material| m@));
            }
            i = i + 1;
        }
        let mut records: Vec<ConsumptionRecord> = Vec::new();
        let mut j: usize = 0;
        while j < self.records.len()
            invariant
                j <= self.records.len(),
                records.len() == j,
                records@.map_values(|r: ConsumptionRecord| r@) =~= self.records@.take(
                    j as int,
                ).map_values(|r: ConsumptionRecord| r@),
            decreases self.records.len() - j,
        {
            let d = self.records[j].duplicate();
            let ghost prev = records@;
            records.push(d);
            proof {
                let t = self.records@.take(j + 1);
                assert forall|k: int| 0 <= k < j implies #[trigger] records@[k]@ == t[k]@ by {
                    assert(records@[k] == prev[k]);
                    assert(prev.map_values(|r: ConsumptionRecord| r@)[k] == self.records@.take(j as int).map_values(|r: ConsumptionRecord| r@)[k]);
                }
                assert(t.map_values(|r: ConsumptionRecord| r@).last() == d@);
                assert(records@.map_values(|r: ConsumptionRecord| r@) =~= t.map_values(
                    |r: ConsumptionRecord| r@,
                ));
            }
            j = j + 1;
        }
        let mut tombstones: Vec<Tombstone> = Vec::new();
        let mut k: usize = 0;
        while k < self.tombstones.len()
            invariant
                k <= self.tombstones.len(),
                tombstones@ =~= self.tombstones@.take(k as int),
            decreases self.tombstones.len() - k,
        {
            tombstones.push(self.tombstones[k]);
            k = k + 1;
        }
        proof {
            assert(self.materials@.take(i as int) =~= self.materials@);
            assert(self.records@.take(j as int) =~= self.records@);
            assert(self.tombstones@.take(k as int) =~= self.tombstones@);
        }
        MaterialLedger { materials, records, tombstones }
    }

    fn consume_one(&mut self, business_id: u128, item: &Consumption) -> (r: Result<
        (),
        ConsumptionError,
    >)
        ensures
            match r {
                Ok(()) => consume_item(old(self)@, business_id, *item) == Ok::<LedgerState, ConsumptionError>(final(self)@),
                Err(e) => consume_item(old(self)@, business_id, *item) == Err::<LedgerState, ConsumptionError>(e),
            },
    {
        if find_tombstone(&self.tombstones, item.operation_id) {
            return Err(ConsumptionError::Released);
        }
        let unit = trim(item.unit.as_str());
        let q = match item.quantity {
            Some(q) => q,
            None => {
                return Err(ConsumptionError::InvalidItem);
            },
        };
        if q < 1 || unit.unicode_len() == 0 {
            return Err(ConsumptionError::InvalidItem);
        }
        match find_record(&self.records, item.operation_id) {
            Some(ri) => {
                let r = &self.records[ri];
                proof {
                    assert(self@.records[ri as int] == r@);
                }
                if r.business_id != business_id || r.raw_material_id != item.raw_material_id
                    || r.quantity != q || !str_eq(r.unit.as_str(), unit) || r.released {
                    return Err(ConsumptionError::AlreadyUsed);
                }
                return Ok(());
            },
            None => {},
        }
        if q > MAX_STOCK_MILLI {
            return Err(ConsumptionError::OutOfRange);
        }
        let mi = match find_material(&self.materials, item.raw_material_id) {
            Some(mi) => mi,
            None => {
                return Err(ConsumptionError::Unavailable);
            },
        };
        let m = &self.materials[mi];
        proof {
            assert(self@.materials[mi as int] == m@);
        }
        if m.business_id != business_id || m.is_deleted || !str_eq(m.unit.as_str(), unit)
            || m.quantity < q {
            return Err(ConsumptionError::Unavailable);
        }
        let updated = Material {
            id: m.id,
            business_id: m.business_id,
            quantity: m.quantity - q,
            unit: m.unit.clone(),
            is_deleted: m.is_deleted,
        };
        let ghost before = self@;
        self.materials.set(mi, updated);
        self.records.push(
            ConsumptionRecord {
                operation_id: item.operation_id,
                business_id,
                raw_material_id: item.raw_material_id,
                quantity: q,
                unit: owned(unit),
                released: false,
            },
        );
        proof {
            let want = consume_item(before, business_id, *item);
            assert(self@.materials =~= before.materials.update(
                mi as int,
                MaterialState { quantity: before.materials[mi as int].quantity - q, ..before.materials[mi as int] },
            ));
            assert(self@.records =~= before.records.push(
                RecordState {
                    operation_id: item.operation_id,
                    business_id,
                    raw_material_id: item.raw_material_id,
                    quantity: q as int,
                    unit: trimmed(item.unit@),
                    released: false,
                },
            ));
        }
        Ok(())
    }

    /// Consumes every item of a production request for `business_id`, in order of
    /// raw material, or nothing: on a refusal the ledger is left as it was.
    pub fn consume(&mut self, business_id: u128, items: Vec<Consumption>) -> (r: Result<
        (),
        ConsumptionError,
    >)
        ensures
            match r {
                Ok(()) => consume_all(old(self)@, business_id, items@) == Ok::<LedgerState, ConsumptionError>(final(self)@),
                Err(e) => consume_all(old(self)@, business_id, items@) == Err::<LedgerState, ConsumptionError>(e) && final(self)@
                    == old(self)@,
            },
    {
        let ghost start = self@;
        let sorted = stable_sort(items);
        let mut work = self.duplicate();
        let mut i: usize = 0;
        while i < sorted.len()
            invariant
                i <= sorted.len(),
                sorted@ == sorted_by_key(items@),
                consume_prefix(start, business_id, sorted@, i as int) == Ok::<LedgerState, ConsumptionError>(work@),
                self@ == start,
            decreases sorted.len() - i,
        {
            match work.consume_one(business_id, &sorted[i]) {
                Ok(()) => {},
                Err(e) => {
                    proof {
                        lemma_prefix_err_sticks(start, business_id, sorted@, i + 1);
                    }
                    return Err(e);
                },
            }
            i = i + 1;
        }
        *self = work;
        Ok(())
    }

    fn release_op(&mut self, business_id: u128, op: u128) -> (r: Result<(), ConsumptionError>)
        ensures
            match r {
                Ok(()) => release_one(old(self)@, business_id, op) == Ok::<LedgerState, ConsumptionError>(final(self)@),
                Err(e) => release_one(old(self)@, business_id, op) == Err::<LedgerState, ConsumptionError>(e),
            },
    {
        if !find_tombstone(&self.tombstones, op) {
            self.tombstones.push(Tombstone { operation_id: op, business_id });
        }
        let ghost s1 = self@;
        let ri = match find_record(&self.records, op) {
            Some(ri) => ri,
            None => {
                return Ok(());
            },
        };
        let r = &self.records[ri];
        proof {
            assert(self@.records[ri as int] == r@);
        }
        if r.business_id != business_id || r.released {
            return Ok(());
        }
        let material_id = r.raw_material_id;
        let amount = r.quantity;
        let released = ConsumptionRecord {
            operation_id: r.operation_id,
            business_id: r.business_id,
            raw_material_id: r.raw_material_id,
            quantity: r.quantity,
            unit: r.unit.clone(),
            released: true,
        };
        self.records.set(ri, released);
        let ghost s2 = self@;
        proof {
            assert(s2.records =~= s1.records.update(
                ri as int,
                RecordState { released: true, ..s1.records[ri as int] },
            ));
        }
        let mi = match find_material(&self.materials, material_id) {
            Some(mi) => mi,
            None => {
                return Ok(());
            },
        };
        let m = &self.materials[mi];
        proof {
            assert(self@.materials[mi as int] == m@);
        }
        if m.business_id != business_id {
            return Ok(());
        }
        let total: i128 = (m.quantity as i128) + (amount as i128);
        if total > MAX_STOCK_MILLI as i128 || total < -(MAX_STOCK_MILLI as i128) {
            return Err(ConsumptionError::OutOfRange);
        }
        let restored = Material {
            id: m.id,
            business_id: m.business_id,
            quantity: total as i64,
            unit: m.unit.clone(),
            is_deleted: m.is_deleted,
        };
        self.materials.set(mi, restored);
        proof {
            assert(self@.materials =~= s2.materials.update(
                mi as int,
                MaterialState { quantity: s2.materials[mi as int].quantity + amount, ..s2.materials[mi as int] },
            ));
        }
        Ok(())
    }

    /// Releases the given operation ids for `business_id`, in ascending order, or
    /// nothing: each id is tombstoned, and a booked, unreleased consumption of this
    /// business gives its amount back to its material.
    pub fn release(&mut self, business_id: u128, ops: Vec<u128>) -> (r: Result<
        (),
        ConsumptionError,
    >)
        ensures
            match r {
                Ok(()) => release_all(old(self)@, business_id, ops@) == Ok::<LedgerState, ConsumptionError>(final(self)@),
                Err(e) => release_all(old(self)@, business_id, ops@) == Err::<LedgerState, ConsumptionError>(e) && final(self)@
                    == old(self)@,
            },
    {
        let ghost start = self@;
        let sorted = stable_sort(ops);
        let mut work = self.duplicate();
        let mut i: usize = 0;
        while i < sorted.len()
            invariant
                i <= sorted.len(),
                sorted@ == sorted_by_key(ops@),
                release_prefix(start, business_id, sorted@, i as int) == Ok::<LedgerState, ConsumptionError>(work@),
                self@ == start,
            decreases sorted.len() - i,
        {
            match work.release_op(business_id, sorted[i]) {
                Ok(()) => {},
                Err(e) => {
                    proof {
                        lemma_release_err_sticks(start, business_id, sorted@, i + 1);
                    }
                    return Err(e);
                },
            }
            i = i + 1;
        }
        *self = work;
        Ok(())
    }
}

/// A refusal in the first `n` items is the answer of the whole run.
pub proof fn lemma_prefix_err_sticks(
    s: LedgerState,
    business_id: u128,
    items: Seq<Consumption>,
    n: int,
)
    requires
        0 < n <= items.len(),
        consume_prefix(s, business_id, items, n) is Err,
    ensures
        consume_prefix(s, business_id, items, items.len() as int) == consume_prefix(
            s,
            business_id,
            items,
            n,
        ),
    decreases items.len() - n,
{
    if n < items.len() {
        lemma_prefix_err_sticks(s, business_id, items, n + 1);
    }
}

pub proof fn lemma_release_err_sticks(s: LedgerState, business_id: u128, ops: Seq<u128>, n: int)
    requires
        0 < n <= ops.len(),
        release_prefix(s, business_id, ops, n) is Err,
    ensures
        release_prefix(s, business_id, ops, ops.len() as int) == release_prefix(
            s,
            business_id,
            ops,
            n,
        ),
    decreases ops.len() - n,
{
    if n < ops.len() {
        lemma_release_err_sticks(s, business_id, ops, n + 1);
    }
}

/// Every stock amount lies within the range of its column.
pub open spec fn stock_in_range(s: LedgerState) -> bool {
    forall|i: int|
        0 <= i < s.materials.len() ==> -MAX_STOCK_MILLI <= #[trigger] s.materials[i].quantity
            <= MAX_STOCK_MILLI
}

/// `item` is booked in `s` under `business_id` exactly as requested, and its
/// operation id is not released.
pub open spec fn booked(s: LedgerState, business_id: u128, item: Consumption) -> bool {
    let ri = record_index(s.records, item.operation_id);
    &&& tombstone_index(s.tombstones, item.operation_id) == -1
    &&& valid_item(item)
    &&& ri >= 0
    &&& s.records[ri].business_id == business_id
    &&& s.records[ri].raw_material_id == item.raw_material_id
    &&& s.records[ri].quantity == item.quantity->0
    &&& s.records[ri].unit == trimmed(item.unit@)
    &&& !s.records[ri].released
}

proof fn lemma_step_books(s: LedgerState, t: LedgerState, business_id: u128, item: Consumption)
    requires
        consume_item(s, business_id, item) == Ok::<LedgerState, ConsumptionError>(t),
    ensures
        booked(t, business_id, item),
        t.tombstones == s.tombstones,
        forall|other: Consumption| booked(s, business_id, other) ==> booked(t, business_id, other),
{
    let f = |r: RecordState| r.operation_id == item.operation_id;
    lemma_last_index_range(s.records, f);
    lemma_last_index_range(s.tombstones, |x: Tombstone| x.operation_id == item.operation_id);
    if record_index(s.records, item.operation_id) < 0 {
        let pushed = t.records.last();
        lemma_last_index_push_any(s.records, f, pushed);
        assert(t.records == s.records.push(pushed));
        assert(t.records[s.records.len() as int] == pushed);
        assert forall|other: Consumption| booked(s, business_id, other) implies booked(
            t,
            business_id,
            other,
        ) by {
            let g = |r: RecordState| r.operation_id == other.operation_id;
            lemma_last_index_push_any(s.records, g, pushed);
            lemma_last_index_range(s.records, g);
            let oi = record_index(s.records, other.operation_id);
            assert(t.records[oi] == s.records[oi]);
        }
    }
}

proof fn lemma_prefix_books(s: LedgerState, business_id: u128, items: Seq<Consumption>, n: int)
    requires
        0 <= n <= items.len(),
        consume_prefix(s, business_id, items, n) is Ok,
    ensures
        ({
            let t = consume_prefix(s, business_id, items, n)->Ok_0;
            &&& t.tombstones == s.tombstones
            &&& forall|k: int| 0 <= k < n ==> booked(t, business_id, #[trigger] items[k])
        }),
    decreases n,
{
    if n > 0 {
        lemma_prefix_books(s, business_id, items, n - 1);
        let t0 = consume_prefix(s, business_id, items, n - 1)->Ok_0;
        let t = consume_prefix(s, business_id, items, n)->Ok_0;
        lemma_step_books(t0, t, business_id, items[n - 1]);
    }
}

proof fn lemma_prefix_replays(s: LedgerState, business_id: u128, items: Seq<Consumption>, n: int)
    requires
        0 <= n <= items.len(),
        forall|k: int| 0 <= k < items.len() ==> booked(s, business_id, #[trigger] items[k]),
    ensures
        consume_prefix(s, business_id, items, n) == Ok::<LedgerState, ConsumptionError>(s),
    decreases n,
{
    if n > 0 {
        lemma_prefix_replays(s, business_id, items, n - 1);
        assert(booked(s, business_id, items[n - 1]));
    }
}

/// Retrying a production request that succeeded changes nothing and succeeds again.
pub proof fn law_consume_idempotent(s: LedgerState, business_id: u128, items: Seq<Consumption>)
    requires
        consume_all(s, business_id, items) is Ok,
    ensures
        consume_all(consume_all(s, business_id, items)->Ok_0, business_id, items) == consume_all(
            s,
            business_id,
            items,
        ),
{
    let sorted = sorted_by_key(items);
    let n = sorted.len() as int;
    lemma_prefix_books(s, business_id, sorted, n);
    let t = consume_all(s, business_id, items)->Ok_0;
    lemma_prefix_replays(t, business_id, sorted, n);
}

/// What a successful consumption step keeps of the materials.
pub open spec fn materials_framed(s: LedgerState, t: LedgerState, business_id: u128) -> bool {
    &&& t.materials.len() == s.materials.len()
    &&& forall|i: int|
        0 <= i < s.materials.len() ==> {
            let a = #[trigger] s.materials[i];
            let b = t.materials[i];
            &&& b.id == a.id
            &&& b.business_id == a.business_id
            &&& b.unit == a.unit
            &&& b.is_deleted == a.is_deleted
            &&& b.quantity <= a.quantity
            &&& (a.quantity >= 0 ==> b.quantity >= 0)
            &&& (a.business_id != business_id ==> b.quantity == a.quantity)
        }
}

proof fn lemma_prefix_framed(s: LedgerState, business_id: u128, items: Seq<Consumption>, n: int)
    requires
        0 <= n <= items.len(),
        consume_prefix(s, business_id, items, n) is Ok,
    ensures
        materials_framed(s, consume_prefix(s, business_id, items, n)->Ok_0, business_id),
    decreases n,
{
    if n > 0 {
        lemma_prefix_framed(s, business_id, items, n - 1);
        let t0 = consume_prefix(s, business_id, items, n - 1)->Ok_0;
        let t = consume_prefix(s, business_id, items, n)->Ok_0;
        let f = |m: MaterialState| m.id == items[n - 1].raw_material_id;
        lemma_last_index_range(t0.materials, f);
        assert forall|i: int| 0 <= i < s.materials.len() implies {
            let a = #[trigger] s.materials[i];
            let b = t.materials[i];
            &&& b.id == a.id
            &&& b.business_id == a.business_id
            &&& b.unit == a.unit
            &&& b.is_deleted == a.is_deleted
            &&& b.quantity <= a.quantity
            &&& (a.quantity >= 0 ==> b.quantity >= 0)
            &&& (a.business_id != business_id ==> b.quantity == a.quantity)
        } by {
            assert(t0.materials[i].id == s.materials[i].id);
        }
    } else {
        assert(materials_framed(s, s, business_id));
    }
}

/// A production request only takes stock from its own business's materials,
/// never drives a non-negative stock below zero, and changes nothing but amounts.
pub proof fn law_consume_scoped(s: LedgerState, business_id: u128, items: Seq<Consumption>)
    requires
        consume_all(s, business_id, items) is Ok,
    ensures
        materials_framed(s, consume_all(s, business_id, items)->Ok_0, business_id),
{
    let sorted = sorted_by_key(items);
    lemma_sorted_len(items);
    lemma_prefix_framed(s, business_id, sorted, sorted.len() as int);
}

/// `op` is released in `s` for `business_id`: tombstoned, and any booking under
/// it belongs elsewhere or was given back.
pub open spec fn released_in(s: LedgerState, business_id: u128, op: u128) -> bool {
    let ri = record_index(s.records, op);
    &&& tombstone_index(s.tombstones, op) >= 0
    &&& (ri >= 0 ==> (s.records[ri].business_id != business_id || s.records[ri].released))
}

proof fn lemma_release_step(s: LedgerState, t: LedgerState, business_id: u128, op: u128)
    requires
        release_one(s, business_id, op) == Ok::<LedgerState, ConsumptionError>(t),
    ensures
        released_in(t, business_id, op),
        forall|other: u128| released_in(s, business_id, other) ==> released_in(t, business_id, other),
        forall|other: u128| tombstone_index(s.tombstones, other) >= 0 ==> tombstone_index(t.tombstones, other) >= 0,
{
    let ft = |x: Tombstone| x.operation_id == op;
    lemma_last_index_range(s.tombstones, ft);
    lemma_last_index_push_any(s.tombstones, ft, Tombstone { operation_id: op, business_id });
    let s1 = if tombstone_index(s.tombstones, op) >= 0 {
        s
    } else {
        LedgerState {
            tombstones: s.tombstones.push(Tombstone { operation_id: op, business_id }),
            ..s
        }
    };
    assert forall|other: u128| tombstone_index(s.tombstones, other) >= 0 implies tombstone_index(t.tombstones, other) >= 0 by {
        let g = |x: Tombstone| x.operation_id == other;
        lemma_last_index_push_any(s.tombstones, g, Tombstone { operation_id: op, business_id });
    }
    let fr = |r: RecordState| r.operation_id == op;
    lemma_last_index_range(s1.records, fr);
    let ri = record_index(s1.records, op);
    if ri >= 0 && s1.records[ri].business_id == business_id && !s1.records[ri].released {
        let r = s1.records[ri];
        let nr = RecordState { released: true, ..r };
        lemma_last_index_update(s1.records, fr, ri, nr);
        assert(t.records == s1.records.update(ri, nr));
        assert forall|other: u128| released_in(s, business_id, other) implies released_in(
            t,
            business_id,
            other,
        ) by {
            let g = |x: RecordState| x.operation_id == other;
            lemma_last_index_update(s1.records, g, ri, nr);
            lemma_last_index_range(s1.records, g);
            let gt = |x: Tombstone| x.operation_id == other;
            lemma_last_index_push_any(s.tombstones, gt, Tombstone { operation_id: op, business_id });
        }
    } else {
        assert forall|other: u128| released_in(s, business_id, other) implies released_in(
            t,
            business_id,
            other,
        ) by {
            let gt = |x: Tombstone| x.operation_id == other;
            lemma_last_index_push_any(s.tombstones, gt, Tombstone { operation_id: op, business_id });
        }
    }
}

proof fn lemma_release_prefix_done(s: LedgerState, business_id: u128, ops: Seq<u128>, n: int)
    requires
        0 <= n <= ops.len(),
        release_prefix(s, business_id, ops, n) is Ok,
    ensures
        forall|k: int| 0 <= k < n ==> released_in(release_prefix(s, business_id, ops, n)->Ok_0, business_id, #[trigger] ops[k]),
    decreases n,
{
    if n > 0 {
        lemma_release_prefix_done(s, business_id, ops, n - 1);
        let t0 = release_prefix(s, business_id, ops, n - 1)->Ok_0;
        let t = release_prefix(s, business_id, ops, n)->Ok_0;
        lemma_release_step(t0, t, business_id, ops[n - 1]);
    }
}

proof fn lemma_release_prefix_replays(s: LedgerState, business_id: u128, ops: Seq<u128>, n: int)
    requires
        0 <= n <= ops.len(),
        forall|k: int| 0 <= k < ops.len() ==> released_in(s, business_id, #[trigger] ops[k]),
    ensures
        release_prefix(s, business_id, ops, n) == Ok::<LedgerState, ConsumptionError>(s),
    decreases n,
{
    if n > 0 {
        lemma_release_prefix_replays(s, business_id, ops, n - 1);
        assert(released_in(s, business_id, ops[n - 1]));
    }
}

/// Releasing the same operations again changes nothing and succeeds again.
pub proof fn law_release_idempotent(s: LedgerState, business_id: u128, ops: Seq<u128>)
    requires
        release_all(s, business_id, ops) is Ok,
    ensures
        release_all(release_all(s, business_id, ops)->Ok_0, business_id, ops) == release_all(
            s,
            business_id,
            ops,
        ),
{
    let sorted = sorted_by_key(ops);
    let n = sorted.len() as int;
    lemma_release_prefix_done(s, business_id, sorted, n);
    let t = release_all(s, business_id, ops)->Ok_0;
    lemma_release_prefix_replays(t, business_id, sorted, n);
}

proof fn lemma_prefix_keeps_tombstones(s: LedgerState, business_id: u128, items: Seq<Consumption>, n: int)
    requires
        0 <= n <= items.len(),
        consume_prefix(s, business_id, items, n) is Ok,
    ensures
        consume_prefix(s, business_id, items, n)->Ok_0.tombstones == s.tombstones,
    decreases n,
{
    if n > 0 {
        lemma_prefix_keeps_tombstones(s, business_id, items, n - 1);
    }
}

/// Once an operation id is released, no production request that names it can
/// succeed, for any business.
pub proof fn law_released_never_consumed(
    s: LedgerState,
    business_id: u128,
    ops: Seq<u128>,
    other_business: u128,
    items: Seq<Consumption>,
    item: Consumption,
)
    requires
        release_all(s, business_id, ops) is Ok,
        ops.contains(item.operation_id),
        items.contains(item),
    ensures
        consume_all(release_all(s, business_id, ops)->Ok_0, other_business, items) is Err,
{
    let sorted_ops = sorted_by_key(ops);
    lemma_sorted_contains(ops, item.operation_id);
    lemma_release_prefix_done(s, business_id, sorted_ops, sorted_ops.len() as int);
    let t = release_all(s, business_id, ops)->Ok_0;
    let j = choose|j: int| 0 <= j < sorted_ops.len() && sorted_ops[j] == item.operation_id;
    assert(released_in(t, business_id, sorted_ops[j]));
    let sorted = sorted_by_key(items);
    lemma_sorted_contains(items, item);
    let k = choose|k: int| 0 <= k < sorted.len() && sorted[k] == item;
    if consume_prefix(t, other_business, sorted, k) is Ok {
        lemma_prefix_keeps_tombstones(t, other_business, sorted, k);
        assert(consume_prefix(t, other_business, sorted, k + 1) is Err);
        lemma_prefix_err_sticks(t, other_business, sorted, k + 1);
    } else {
        if k > 0 {
            lemma_prefix_err_sticks(t, other_business, sorted, k);
        } else {
            assert(consume_prefix(t, other_business, sorted, 0) is Ok);
        }
    }
}

/// The stock record `r` still holds of material `i` of `ms`.
pub open spec fn owes(r: RecordState, ms: Seq<MaterialState>, i: int) -> int {
    if !r.released && material_index(ms, r.raw_material_id) == i {
        r.quantity
    } else {
        0
    }
}

/// The stock the records from position `lo` on still hold of material `i` of `ms`.
pub open spec fn owed(rs: Seq<RecordState>, lo: int, ms: Seq<MaterialState>, i: int) -> int
    decreases rs.len(),
{
    if rs.len() == 0 || rs.len() <= lo {
        0
    } else {
        owed(rs.drop_last(), lo, ms, i) + owes(rs.last(), ms, i)
    }
}

proof fn lemma_owed_push(rs: Seq<RecordState>, lo: int, ms: Seq<MaterialState>, i: int, r: RecordState)
    requires
        0 <= lo <= rs.len(),
    ensures
        owed(rs.push(r), lo, ms, i) == owed(rs, lo, ms, i) + owes(r, ms, i),
{
    assert(rs.push(r).drop_last() =~= rs);
}

proof fn lemma_owed_update(
    rs: Seq<RecordState>,
    lo: int,
    ms: Seq<MaterialState>,
    i: int,
    j: int,
    x: RecordState,
)
    requires
        0 <= lo <= j < rs.len(),
    ensures
        owed(rs.update(j, x), lo, ms, i) == owed(rs, lo, ms, i) - owes(rs[j], ms, i) + owes(x, ms, i),
    decreases rs.len(),
{
    let u = rs.update(j, x);
    if j == rs.len() - 1 {
        assert(u.drop_last() =~= rs.drop_last());
    } else {
        assert(u.drop_last() =~= rs.drop_last().update(j, x));
        lemma_owed_update(rs.drop_last(), lo, ms, i, j, x);
    }
}

/// With no negative amounts, the records hold at least what any one of them holds.
proof fn lemma_owed_covers(rs: Seq<RecordState>, lo: int, ms: Seq<MaterialState>, i: int, j: int)
    requires
        0 <= lo <= j < rs.len(),
        forall|k: int| lo <= k < rs.len() ==> (#[trigger] rs[k]).quantity >= 0,
    ensures
        owed(rs, lo, ms, i) >= owes(rs[j], ms, i),
        owed(rs, lo, ms, i) >= 0,
    decreases rs.len(),
{
    lemma_owed_nonneg(rs.drop_last(), lo, ms, i);
    if j < rs.len() - 1 {
        lemma_owed_covers(rs.drop_last(), lo, ms, i, j);
    }
}

proof fn lemma_owed_nonneg(rs: Seq<RecordState>, lo: int, ms: Seq<MaterialState>, i: int)
    requires
        0 <= lo,
        forall|k: int| lo <= k < rs.len() ==> (#[trigger] rs[k]).quantity >= 0,
    ensures
        owed(rs, lo, ms, i) >= 0,
    decreases rs.len(),
{
    if rs.len() > 0 && rs.len() > lo {
        lemma_owed_nonneg(rs.drop_last(), lo, ms, i);
    }
}

/// Released records hold nothing.
proof fn lemma_owed_released(rs: Seq<RecordState>, lo: int, ms: Seq<MaterialState>, i: int)
    requires
        0 <= lo,
        forall|k: int| lo <= k < rs.len() ==> (#[trigger] rs[k]).released,
    ensures
        owed(rs, lo, ms, i) == 0,
    decreases rs.len(),
{
    if rs.len() > 0 && rs.len() > lo {
        lemma_owed_released(rs.drop_last(), lo, ms, i);
    }
}

/// `u` is `s` with records booked from `s.records.len()` on for `business_id`,
/// each unique by operation id, on a material of that business, and every
/// material short of exactly what the unreleased ones hold.
pub open spec fn books_against(s: LedgerState, u: LedgerState, business_id: u128) -> bool {
    let lo = s.records.len() as int;
    &&& u.materials.len() == s.materials.len()
    &&& forall|i: int|
        0 <= i < s.materials.len() ==> #[trigger] u.materials[i] == MaterialState {
            quantity: u.materials[i].quantity,
            ..s.materials[i]
        }
    &&& forall|i: int|
        0 <= i < s.materials.len() ==> (#[trigger] u.materials[i]).quantity == s.materials[i].quantity
            - owed(u.records, lo, s.materials, i)
    &&& forall|i: int|
        0 <= i < s.materials.len() && owed(u.records, lo, s.materials, i) > 0 ==> (
        #[trigger] u.materials[i]).quantity >= 0
    &&& u.records.len() >= lo
    &&& forall|j: int| 0 <= j < lo ==> #[trigger] u.records[j] == s.records[j]
    &&& forall|j: int|
        lo <= j < u.records.len() ==> {
            let r = #[trigger] u.records[j];
            &&& r.business_id == business_id
            &&& r.quantity >= 1
            &&& 0 <= material_index(s.materials, r.raw_material_id)
            &&& s.materials[material_index(s.materials, r.raw_material_id)].business_id
                == business_id
            &&& record_index(u.records, r.operation_id) == j
        }
    &&& forall|id: u128| #[trigger] material_index(u.materials, id) == material_index(s.materials, id)
}

proof fn lemma_books_start(s: LedgerState, business_id: u128)
    ensures
        books_against(s, s, business_id),
{
    assert forall|i: int| 0 <= i < s.materials.len() implies owed(
        s.records,
        s.records.len() as int,
        s.materials,
        i,
    ) == 0 by {}
}

/// Booking a production request from `s` keeps `books_against`: every new record
/// is unreleased, comes from an item, and every item has one.
proof fn lemma_consume_books(s: LedgerState, business_id: u128, items: Seq<Consumption>, n: int)
    requires
        0 <= n <= items.len(),
        consume_prefix(s, business_id, items, n) is Ok,
        forall|k: int|
            0 <= k < items.len() ==> record_index(s.records, #[trigger] items[k].operation_id)
                == -1,
    ensures
        ({
            let u = consume_prefix(s, business_id, items, n)->Ok_0;
            let lo = s.records.len() as int;
            &&& books_against(s, u, business_id)
            &&& forall|j: int| lo <= j < u.records.len() ==> !(#[trigger] u.records[j]).released
            &&& forall|j: int|
                lo <= j < u.records.len() ==> exists|k: int|
                    0 <= k < n && #[trigger] items[k].operation_id == (
                    #[trigger] u.records[j]).operation_id
            &&& forall|k: int|
                0 <= k < n ==> exists|j: int|
                    lo <= j < u.records.len() && (#[trigger] u.records[j]).operation_id == (
                    #[trigger] items[k]).operation_id
        }),
    decreases n,
{
    let lo = s.records.len() as int;
    if n == 0 {
        lemma_books_start(s, business_id);
        return;
    }
    if consume_prefix(s, business_id, items, n - 1) is Err {
        assert(consume_prefix(s, business_id, items, n) is Err);
    }
    lemma_consume_books(s, business_id, items, n - 1);
    let u = consume_prefix(s, business_id, items, n - 1)->Ok_0;
    let v = consume_prefix(s, business_id, items, n)->Ok_0;
    let item = items[n - 1];
    assert(consume_item(u, business_id, item) == Ok::<LedgerState, ConsumptionError>(v));
    let op = item.operation_id;
    let f = |r: RecordState| r.operation_id == op;
    lemma_last_index_range(u.records, f);
    lemma_last_index_range(s.records, f);
    let ri = record_index(u.records, op);
    if ri >= 0 {
        assert(v == u);
        if ri < lo {
            assert(u.records[ri] == s.records[ri]);
            assert(false);
        }
        assert forall|j: int| lo <= j < v.records.len() implies exists|k: int|
            0 <= k < n && #[trigger] items[k].operation_id == (
            #[trigger] v.records[j]).operation_id by {
            let k = choose|k: int|
                0 <= k < n - 1 && #[trigger] items[k].operation_id == (
                #[trigger] u.records[j]).operation_id;
            assert(items[k].operation_id == v.records[j].operation_id);
        }
        assert forall|k: int| 0 <= k < n implies exists|j: int|
            lo <= j < v.records.len() && (#[trigger] v.records[j]).operation_id == (
            #[trigger] items[k]).operation_id by {
            if k == n - 1 {
                assert(v.records[ri].operation_id == items[k].operation_id);
            } else {
                let j = choose|j: int|
                    lo <= j < u.records.len() && (#[trigger] u.records[j]).operation_id == (
                    #[trigger] items[k]).operation_id;
                assert(v.records[j].operation_id == items[k].operation_id);
            }
        }
        return;
    }
    let q = item.quantity->0 as int;
    let unit = trimmed(item.unit@);
    let mi = material_index(u.materials, item.raw_material_id);
    let fm = |m: MaterialState| m.id == item.raw_material_id;
    lemma_last_index_range(u.materials, fm);
    let m = u.materials[mi];
    let nm = MaterialState { quantity: m.quantity - q, ..m };
    let nr = RecordState {
        operation_id: op,
        business_id,
        raw_material_id: item.raw_material_id,
        quantity: q,
        unit,
        released: false,
    };
    assert(v.materials == u.materials.update(mi, nm));
    assert(v.records == u.records.push(nr));
    assert(mi == material_index(s.materials, item.raw_material_id));
    assert forall|i: int| 0 <= i < s.materials.len() implies owed(v.records, lo, s.materials, i)
        == owed(u.records, lo, s.materials, i) + owes(nr, s.materials, i) by {
        lemma_owed_push(u.records, lo, s.materials, i, nr);
    }
    assert forall|i: int| 0 <= i < s.materials.len() implies (#[trigger] v.materials[i]).quantity
        == s.materials[i].quantity - owed(v.records, lo, s.materials, i) by {
        if i != mi {
            assert(v.materials[i] == u.materials[i]);
        }
    }
    assert forall|i: int|
        0 <= i < s.materials.len() && owed(v.records, lo, s.materials, i) > 0 implies (
        #[trigger] v.materials[i]).quantity >= 0 by {
        if i != mi {
            assert(v.materials[i] == u.materials[i]);
        }
    }
    assert forall|j: int| 0 <= j < lo implies #[trigger] v.records[j] == s.records[j] by {
        assert(v.records[j] == u.records[j]);
    }
    assert forall|j: int| lo <= j < v.records.len() implies record_index(
        v.records,
        (#[trigger] v.records[j]).operation_id,
    ) == j by {
        let g = |r: RecordState| r.operation_id == v.records[j].operation_id;
        lemma_last_index_push_any(u.records, g, nr);
        if j < u.records.len() {
            assert(v.records[j] == u.records[j]);
            assert(!f(u.records[j]));
        }
    }
    assert forall|id: u128| #[trigger] material_index(v.materials, id) == material_index(
        s.materials,
        id,
    ) by {
        lemma_last_index_update(u.materials, |x: MaterialState| x.id == id, mi, nm);
        assert(material_index(u.materials, id) == material_index(s.materials, id));
    }
    assert forall|j: int| lo <= j < v.records.len() implies exists|k: int|
        0 <= k < n && #[trigger] items[k].operation_id == (#[trigger] v.records[j]).operation_id by {
        if j == u.records.len() {
            assert(items[n - 1].operation_id == v.records[j].operation_id);
        } else {
            assert(v.records[j] == u.records[j]);
            let k = choose|k: int|
                0 <= k < n - 1 && #[trigger] items[k].operation_id == (
                #[trigger] u.records[j]).operation_id;
            assert(items[k].operation_id == v.records[j].operation_id);
        }
    }
    assert forall|k: int| 0 <= k < n implies exists|j: int|
        lo <= j < v.records.len() && (#[trigger] v.records[j]).operation_id == (
        #[trigger] items[k]).operation_id by {
        if k == n - 1 {
            assert(v.records[u.records.len() as int].operation_id == items[k].operation_id);
        } else {
            let j = choose|j: int|
                lo <= j < u.records.len() && (#[trigger] u.records[j]).operation_id == (
                #[trigger] items[k]).operation_id;
            assert(v.records[j] == u.records[j]);
        }
    }
    assert forall|j: int| lo <= j < v.records.len() implies !(#[trigger] v.records[j]).released by {
        if j < u.records.len() {
            assert(v.records[j] == u.records[j]);
        }
    }
    assert(books_against(s, v, business_id));
}

/// Releasing operation ids that each name a booked record gives every record
/// released so far its stock back.
proof fn lemma_release_returns(s: LedgerState, business_id: u128, t: LedgerState, ops: Seq<u128>, k: int)
    requires
        stock_in_range(s),
        books_against(s, t, business_id),
        forall|j: int|
            s.records.len() <= j < t.records.len() ==> !(#[trigger] t.records[j]).released,
        forall|x: int|
            0 <= x < ops.len() ==> exists|j: int|
                s.records.len() <= j < t.records.len() && (#[trigger] t.records[j]).operation_id
                    == #[trigger] ops[x],
        0 <= k <= ops.len(),
    ensures
        release_prefix(t, business_id, ops, k) is Ok,
        ({
            let u = release_prefix(t, business_id, ops, k)->Ok_0;
            let lo = s.records.len() as int;
            &&& books_against(s, u, business_id)
            &&& u.records.len() == t.records.len()
            &&& forall|j: int|
                lo <= j < u.records.len() ==> (#[trigger] u.records[j]).operation_id
                    == t.records[j].operation_id
            &&& forall|j: int|
                lo <= j < u.records.len() ==> ((#[trigger] u.records[j]).released <==> exists|m: int|
                    0 <= m < k && #[trigger] ops[m] == u.records[j].operation_id)
        }),
    decreases k,
{
    let lo = s.records.len() as int;
    if k == 0 {
        return;
    }
    lemma_release_returns(s, business_id, t, ops, k - 1);
    let u = release_prefix(t, business_id, ops, k - 1)->Ok_0;
    let op = ops[k - 1];
    let j0 = choose|j: int|
        s.records.len() <= j < t.records.len() && (#[trigger] t.records[j]).operation_id == op;
    assert(u.records[j0].operation_id == op);
    assert(record_index(u.records, op) == j0);
    let s1 = if tombstone_index(u.tombstones, op) >= 0 {
        u
    } else {
        LedgerState { tombstones: u.tombstones.push(Tombstone { operation_id: op, business_id }), ..u }
    };
    let r = u.records[j0];
    let v = release_one(u, business_id, op)->Ok_0;
    if r.released {
        assert(release_one(u, business_id, op) == Ok::<LedgerState, ConsumptionError>(s1));
        assert forall|j: int| lo <= j < v.records.len() implies ((#[trigger] v.records[j]).released
            <==> exists|m: int| 0 <= m < k && #[trigger] ops[m] == v.records[j].operation_id) by {
            if v.records[j].released {
                let m = choose|m: int| 0 <= m < k - 1 && #[trigger] ops[m] == u.records[j].operation_id;
                assert(ops[m] == v.records[j].operation_id);
            } else {
                if exists|m: int| 0 <= m < k && #[trigger] ops[m] == v.records[j].operation_id {
                    let m = choose|m: int| 0 <= m < k && #[trigger] ops[m] == v.records[j].operation_id;
                    if m == k - 1 {
                        assert(record_index(u.records, u.records[j].operation_id) == j);
                    } else {
                        assert(ops[m] == u.records[j].operation_id);
                    }
                }
            }
        }
        return;
    }
    let ri = j0;
    let nr = RecordState { released: true, ..r };
    let mi = material_index(u.materials, r.raw_material_id);
    let fm = |m: MaterialState| m.id == r.raw_material_id;
    lemma_last_index_range(s.materials, fm);
    assert(mi == material_index(s.materials, r.raw_material_id));
    let m = u.materials[mi];
    lemma_owed_covers(u.records, lo, s.materials, mi, j0);
    assert(owes(r, s.materials, mi) == r.quantity);
    assert(m.quantity == s.materials[mi].quantity - owed(u.records, lo, s.materials, mi));
    assert(m.quantity >= 0);
    let nm = MaterialState { quantity: m.quantity + r.quantity, ..m };
    assert(v.materials == u.materials.update(mi, nm));
    assert(v.records == u.records.update(ri, nr));
    assert forall|i: int| 0 <= i < s.materials.len() implies owed(v.records, lo, s.materials, i)
        == owed(u.records, lo, s.materials, i) - owes(r, s.materials, i) by {
        lemma_owed_update(u.records, lo, s.materials, i, ri, nr);
    }
    assert forall|i: int| 0 <= i < s.materials.len() implies (#[trigger] v.materials[i]).quantity
        == s.materials[i].quantity - owed(v.records, lo, s.materials, i) by {
        if i != mi {
            assert(v.materials[i] == u.materials[i]);
        }
    }
    assert forall|i: int|
        0 <= i < s.materials.len() && owed(v.records, lo, s.materials, i) > 0 implies (
        #[trigger] v.materials[i]).quantity >= 0 by {
        if i != mi {
            assert(v.materials[i] == u.materials[i]);
        }
    }
    assert forall|j: int| 0 <= j < lo implies #[trigger] v.records[j] == s.records[j] by {
        assert(v.records[j] == u.records[j]);
    }
    assert forall|j: int| lo <= j < v.records.len() implies record_index(
        v.records,
        (#[trigger] v.records[j]).operation_id,
    ) == j by {
        let g = |x: RecordState| x.operation_id == v.records[j].operation_id;
        lemma_last_index_update(u.records, g, ri, nr);
        if j != ri {
            assert(v.records[j] == u.records[j]);
        }
    }
    assert forall|id: u128| #[trigger] material_index(v.materials, id) == material_index(
        s.materials,
        id,
    ) by {
        lemma_last_index_update(u.materials, |x: MaterialState| x.id == id, mi, nm);
        assert(material_index(u.materials, id) == material_index(s.materials, id));
    }
    assert(books_against(s, v, business_id));
    assert forall|j: int| lo <= j < v.records.len() implies (#[trigger] v.records[j]).operation_id
        == t.records[j].operation_id by {
        assert(u.records[j].operation_id == t.records[j].operation_id);
    }
    assert forall|j: int| lo <= j < v.records.len() implies ((#[trigger] v.records[j]).released
        <==> exists|m: int| 0 <= m < k && #[trigger] ops[m] == v.records[j].operation_id) by {
        if j == ri {
            assert(ops[k - 1] == v.records[j].operation_id);
        } else {
            assert(v.records[j] == u.records[j]);
            if u.records[j].released {
                let m = choose|m: int| 0 <= m < k - 1 && #[trigger] ops[m] == u.records[j].operation_id;
                assert(ops[m] == v.records[j].operation_id);
            } else if exists|m: int| 0 <= m < k && #[trigger] ops[m] == v.records[j].operation_id {
                let m = choose|m: int| 0 <= m < k && #[trigger] ops[m] == v.records[j].operation_id;
                if m == k - 1 {
                    assert(record_index(u.records, u.records[j].operation_id) == j);
                } else {
                    assert(ops[m] == u.records[j].operation_id);
                }
            }
        }
    }
}

/// Releasing the operation ids of a production request that was just booked
/// with fresh ids gives every material back exactly the stock it gave.
pub proof fn law_release_restores(s: LedgerState, business_id: u128, items: Seq<Consumption>)
    requires
        stock_in_range(s),
        forall|k: int|
            0 <= k < items.len() ==> record_index(s.records, #[trigger] items[k].operation_id)
                == -1,
        consume_all(s, business_id, items) is Ok,
    ensures
        release_all(
            consume_all(s, business_id, items)->Ok_0,
            business_id,
            items.map_values(|c: Consumption| c.operation_id),
        ) is Ok,
        release_all(
            consume_all(s, business_id, items)->Ok_0,
            business_id,
            items.map_values(|c: Consumption| c.operation_id),
        )->Ok_0.materials == s.materials,
{
    let lo = s.records.len() as int;
    let sorted = sorted_by_key(items);
    lemma_sorted_len(items);
    assert forall|k: int| 0 <= k < sorted.len() implies record_index(
        s.records,
        #[trigger] sorted[k].operation_id,
    ) == -1 by {
        assert(sorted.contains(sorted[k]));
        lemma_sorted_from(items, sorted[k]);
        let k2 = choose|k2: int| 0 <= k2 < items.len() && items[k2] == sorted[k];
        assert(record_index(s.records, items[k2].operation_id) == -1);
    }
    lemma_consume_books(s, business_id, sorted, sorted.len() as int);
    let t = consume_all(s, business_id, items)->Ok_0;
    let ops = items.map_values(|c: Consumption| c.operation_id);
    let sops = sorted_by_key(ops);
    lemma_sorted_len(ops);
    assert forall|x: int| 0 <= x < sops.len() implies exists|j: int|
        lo <= j < t.records.len() && (#[trigger] t.records[j]).operation_id == #[trigger] sops[x] by {
        assert(sops.contains(sops[x]));
        lemma_sorted_from(ops, sops[x]);
        let k2 = choose|k2: int| 0 <= k2 < ops.len() && ops[k2] == sops[x];
        assert(items.contains(items[k2]));
        lemma_sorted_contains(items, items[k2]);
        let k = choose|k: int| 0 <= k < sorted.len() && sorted[k] == items[k2];
        let j = choose|j: int|
            lo <= j < t.records.len() && (#[trigger] t.records[j]).operation_id == (
            #[trigger] sorted[k]).operation_id;
        assert(t.records[j].operation_id == sops[x]);
    }
    lemma_release_returns(s, business_id, t, sops, sops.len() as int);
    let u = release_all(t, business_id, ops)->Ok_0;
    assert forall|j: int| lo <= j < u.records.len() implies (#[trigger] u.records[j]).released by {
        let k = choose|k: int|
            0 <= k < sorted.len() && #[trigger] sorted[k].operation_id == (
            #[trigger] t.records[j]).operation_id;
        assert(sorted.contains(sorted[k]));
        lemma_sorted_from(items, sorted[k]);
        let k2 = choose|k2: int| 0 <= k2 < items.len() && items[k2] == sorted[k];
        assert(ops[k2] == t.records[j].operation_id);
        assert(ops.contains(ops[k2]));
        lemma_sorted_contains(ops, ops[k2]);
        let m = choose|m: int| 0 <= m < sops.len() && sops[m] == ops[k2];
        assert(sops[m] == u.records[j].operation_id);
    }
    assert forall|i: int| 0 <= i < s.materials.len() implies #[trigger] u.materials[i] == s.materials[i] by {
        lemma_owed_released(u.records, lo, s.materials, i);
    }
    assert(u.materials =~= s.materials);
}

proof fn lemma_release_unbooked(s: LedgerState, business_id: u128, ops: Seq<u128>, n: int)
    requires
        0 <= n <= ops.len(),
        forall|k: int| 0 <= k < ops.len() ==> record_index(s.records, #[trigger] ops[k]) == -1,
    ensures
        release_prefix(s, business_id, ops, n) is Ok,
        release_prefix(s, business_id, ops, n)->Ok_0.materials == s.materials,
        release_prefix(s, business_id, ops, n)->Ok_0.records == s.records,
    decreases n,
{
    if n > 0 {
        lemma_release_unbooked(s, business_id, ops, n - 1);
        assert(record_index(s.records, ops[n - 1]) == -1);
    }
}

/// Releasing operation ids that have no ledger entry gives no stock back: the
/// materials are unchanged (the ids are only blocked from later use).
pub proof fn law_release_without_entry_adds_nothing(s: LedgerState, business_id: u128, ops: Seq<u128>)
    requires
        forall|k: int| 0 <= k < ops.len() ==> record_index(s.records, #[trigger] ops[k]) == -1,
    ensures
        release_all(s, business_id, ops) is Ok,
        release_all(s, business_id, ops)->Ok_0.materials == s.materials,
{
    let sorted = sorted_by_key(ops);
    lemma_sorted_len(ops);
    assert forall|k: int| 0 <= k < sorted.len() implies record_index(s.records, #[trigger] sorted[k])
        == -1 by {
        assert(sorted.contains(sorted[k]));
        lemma_sorted_from(ops, sorted[k]);
        let j = choose|j: int| 0 <= j < ops.len() && ops[j] == sorted[k];
        assert(record_index(s.records, ops[j]) == -1);
    }
    lemma_release_unbooked(s, business_id, sorted, sorted.len() as int);
}

/// What `items` ask of material `i` of `ms`, in thousandths.
pub open spec fn requested_of(items: Seq<Consumption>, ms: Seq<MaterialState>, i: int) -> int {
    sum_by(
        items,
        |c: Consumption|
            if material_index(ms, c.raw_material_id) == i {
                c.quantity->0 as int
            } else {
                0
            },
    )
}

/// A run of items with fresh, distinct operation ids books one unreleased
/// record per item, in order.
proof fn lemma_consume_fresh(s: LedgerState, business_id: u128, items: Seq<Consumption>, n: int)
    requires
        0 <= n <= items.len(),
        consume_prefix(s, business_id, items, n) is Ok,
        forall|k: int|
            0 <= k < items.len() ==> record_index(s.records, #[trigger] items[k].operation_id)
                == -1,
        distinct_by(items, |c: Consumption| c.operation_id),
    ensures
        ({
            let u = consume_prefix(s, business_id, items, n)->Ok_0;
            let lo = s.records.len() as int;
            &&& u.records.len() == lo + n
            &&& forall|j: int| 0 <= j < lo ==> #[trigger] u.records[j] == s.records[j]
            &&& forall|k: int|
                0 <= k < n ==> {
                    let r = u.records[lo + k];
                    &&& r.operation_id == (#[trigger] items[k]).operation_id
                    &&& r.raw_material_id == items[k].raw_material_id
                    &&& r.quantity == items[k].quantity->0 as int
                    &&& !r.released
                }
        }),
    decreases n,
{
    if n == 0 {
        return;
    }
    if consume_prefix(s, business_id, items, n - 1) is Err {
        assert(consume_prefix(s, business_id, items, n) is Err);
    }
    lemma_consume_fresh(s, business_id, items, n - 1);
    let lo = s.records.len() as int;
    let u = consume_prefix(s, business_id, items, n - 1)->Ok_0;
    let v = consume_prefix(s, business_id, items, n)->Ok_0;
    let item = items[n - 1];
    assert(consume_item(u, business_id, item) == Ok::<LedgerState, ConsumptionError>(v));
    let f = |r: RecordState| r.operation_id == item.operation_id;
    lemma_last_index_range(u.records, f);
    lemma_last_index_range(s.records, f);
    let ri = record_index(u.records, item.operation_id);
    if ri >= 0 {
        if ri < lo {
            assert(u.records[ri] == s.records[ri]);
        } else {
            let k = ri - lo;
            assert(u.records[lo + k].operation_id == items[k].operation_id);
            assert(items[k].operation_id != items[n - 1].operation_id);
        }
        assert(false);
    }
    assert(v.records == u.records.push(v.records.last()));
    assert forall|j: int| 0 <= j < lo implies #[trigger] v.records[j] == s.records[j] by {
        assert(v.records[j] == u.records[j]);
    }
    assert forall|k: int| 0 <= k < n implies {
        let r = v.records[lo + k];
        &&& r.operation_id == (#[trigger] items[k]).operation_id
        &&& r.raw_material_id == items[k].raw_material_id
        &&& r.quantity == items[k].quantity->0 as int
        &&& !r.released
    } by {
        if k < n - 1 {
            assert(v.records[lo + k] == u.records[lo + k]);
        }
    }
}

proof fn lemma_owed_requested(
    rs: Seq<RecordState>,
    lo: int,
    ms: Seq<MaterialState>,
    i: int,
    its: Seq<Consumption>,
)
    requires
        0 <= lo,
        rs.len() == lo + its.len(),
        forall|k: int|
            0 <= k < its.len() ==> {
                let r = rs[lo + k];
                &&& r.raw_material_id == (#[trigger] its[k]).raw_material_id
                &&& r.quantity == its[k].quantity->0 as int
                &&& !r.released
            },
    ensures
        owed(rs, lo, ms, i) == requested_of(its, ms, i),
    decreases its.len(),
{
    if its.len() > 0 {
        let k = its.len() - 1;
        assert(its[k] == its.last());
        assert forall|m: int| 0 <= m < its.drop_last().len() implies {
            let r = rs.drop_last()[lo + m];
            &&& r.raw_material_id == (#[trigger] its.drop_last()[m]).raw_material_id
            &&& r.quantity == its.drop_last()[m].quantity->0 as int
            &&& !r.released
        } by {
            assert(its.drop_last()[m] == its[m]);
            assert(rs.drop_last()[lo + m] == rs[lo + m]);
        }
        lemma_owed_requested(rs.drop_last(), lo, ms, i, its.drop_last());
        assert(rs.last() == rs[lo + k]);
    }
}

/// A production request with fresh, distinct operation ids books one record
/// per item and takes from every material exactly the sum of what its items
/// ask of it, never leaving a material it draws on below zero.
pub proof fn law_consume_takes_requested(s: LedgerState, business_id: u128, items: Seq<Consumption>)
    requires
        forall|k: int|
            0 <= k < items.len() ==> record_index(s.records, #[trigger] items[k].operation_id)
                == -1,
        distinct_by(items, |c: Consumption| c.operation_id),
        consume_all(s, business_id, items) is Ok,
    ensures
        ({
            let t = consume_all(s, business_id, items)->Ok_0;
            &&& t.records.len() == s.records.len() + items.len()
            &&& t.materials.len() == s.materials.len()
            &&& forall|i: int|
                0 <= i < s.materials.len() ==> (#[trigger] t.materials[i]).quantity
                    == s.materials[i].quantity - requested_of(items, s.materials, i)
            &&& forall|i: int|
                0 <= i < s.materials.len() && requested_of(items, s.materials, i) > 0 ==> (
                #[trigger] t.materials[i]).quantity >= 0
        }),
{
    let lo = s.records.len() as int;
    let sorted = sorted_by_key(items);
    lemma_sorted_len(items);
    assert forall|k: int| 0 <= k < sorted.len() implies record_index(
        s.records,
        #[trigger] sorted[k].operation_id,
    ) == -1 by {
        assert(sorted.contains(sorted[k]));
        lemma_sorted_from(items, sorted[k]);
        let j = choose|j: int| 0 <= j < items.len() && items[j] == sorted[k];
        assert(record_index(s.records, items[j].operation_id) == -1);
    }
    lemma_sorted_distinct(items, |c: Consumption| c.operation_id);
    let n = sorted.len() as int;
    lemma_consume_books(s, business_id, sorted, n);
    lemma_consume_fresh(s, business_id, sorted, n);
    let t = consume_all(s, business_id, items)->Ok_0;
    assert forall|i: int| 0 <= i < s.materials.len() implies owed(t.records, lo, s.materials, i)
        == requested_of(items, s.materials, i) by {
        lemma_owed_requested(t.records, lo, s.materials, i, sorted);
        lemma_sorted_sum(
            items,
            |c: Consumption|
                if material_index(s.materials, c.raw_material_id) == i {
                    c.quantity->0 as int
                } else {
                    0
                },
        );
    }
}

proof fn lemma_prefix_spares_deleted(
    s: LedgerState,
    business_id: u128,
    items: Seq<Consumption>,
    n: int,
)
    requires
        0 <= n <= items.len(),
        consume_prefix(s, business_id, items, n) is Ok,
    ensures
        ({
            let t = consume_prefix(s, business_id, items, n)->Ok_0;
            &&& forall|x: u128| material_index(t.materials, x) == material_index(s.materials, x)
            &&& forall|i: int|
                0 <= i < s.materials.len() && (#[trigger] t.materials[i]).quantity
                    != s.materials[i].quantity ==> {
                    &&& !s.materials[i].is_deleted
                    &&& s.materials[i].business_id == business_id
                    &&& exists|k: int|
                        0 <= k < n && material_index(s.materials, (#[trigger] items[k]).raw_material_id)
                            == i && s.materials[i].unit == trimmed(items[k].unit@)
                }
        }),
    decreases n,
{
    if n > 0 {
        lemma_prefix_spares_deleted(s, business_id, items, n - 1);
        lemma_prefix_framed(s, business_id, items, n - 1);
        let t0 = consume_prefix(s, business_id, items, n - 1)->Ok_0;
        let t = consume_prefix(s, business_id, items, n)->Ok_0;
        let item = items[n - 1];
        let mi = material_index(t0.materials, item.raw_material_id);
        lemma_last_index_range(t0.materials, |m: MaterialState| m.id == item.raw_material_id);
        if t.materials != t0.materials {
            let m = t0.materials[mi];
            let nm = MaterialState { quantity: m.quantity - item.quantity->0, ..m };
            assert(t.materials == t0.materials.update(mi, nm));
            assert forall|x: u128| material_index(t.materials, x) == material_index(s.materials, x) by {
                lemma_last_index_update(t0.materials, |m: MaterialState| m.id == x, mi, nm);
            }
        }
        assert forall|i: int|
            0 <= i < s.materials.len() && (#[trigger] t.materials[i]).quantity
                != s.materials[i].quantity implies {
            &&& !s.materials[i].is_deleted
            &&& s.materials[i].business_id == business_id
            &&& exists|k: int|
                0 <= k < n && material_index(s.materials, (#[trigger] items[k]).raw_material_id) == i
                    && s.materials[i].unit == trimmed(items[k].unit@)
        } by {
            assert(t0.materials[i].is_deleted == s.materials[i].is_deleted);
            assert(t0.materials[i].business_id == s.materials[i].business_id);
            assert(t0.materials[i].unit == s.materials[i].unit);
            if t0.materials[i].quantity != s.materials[i].quantity {
                let k = choose|k: int|
                    0 <= k < n - 1 && material_index(s.materials, (#[trigger] items[k]).raw_material_id)
                        == i && s.materials[i].unit == trimmed(items[k].unit@);
                assert(items[k] == items[k]);
            } else {
                assert(items[n - 1] == item);
            }
        }
    }
}

/// Consumption takes stock only from live materials of the requesting
/// business, in the unit an item names for it: a deleted material, or another
/// business's, keeps its quantity.
pub proof fn law_consume_spares_deleted(s: LedgerState, business_id: u128, items: Seq<Consumption>)
    requires
        consume_all(s, business_id, items) is Ok,
    ensures
        ({
            let t = consume_all(s, business_id, items)->Ok_0;
            &&& t.materials.len() == s.materials.len()
            &&& forall|i: int|
                0 <= i < s.materials.len() && (s.materials[i].is_deleted
                    || s.materials[i].business_id != business_id) ==> (#[trigger] t.materials[i]).quantity
                    == s.materials[i].quantity
            &&& forall|i: int|
                0 <= i < s.materials.len() && (#[trigger] t.materials[i]).quantity
                    != s.materials[i].quantity ==> exists|k: int|
                    0 <= k < items.len() && material_index(
                        s.materials,
                        (#[trigger] items[k]).raw_material_id,
                    ) == i && s.materials[i].unit == trimmed(items[k].unit@)
        }),
{
    let sorted = sorted_by_key(items);
    lemma_sorted_len(items);
    lemma_prefix_framed(s, business_id, sorted, sorted.len() as int);
    lemma_prefix_spares_deleted(s, business_id, sorted, sorted.len() as int);
    let t = consume_all(s, business_id, items)->Ok_0;
    assert forall|i: int|
        0 <= i < s.materials.len() && (#[trigger] t.materials[i]).quantity
            != s.materials[i].quantity implies exists|k: int|
        0 <= k < items.len() && material_index(s.materials, (#[trigger] items[k]).raw_material_id)
            == i && s.materials[i].unit == trimmed(items[k].unit@) by {
        let k = choose|k: int|
            0 <= k < sorted.len() && material_index(s.materials, (#[trigger] sorted[k]).raw_material_id)
                == i && s.materials[i].unit == trimmed(sorted[k].unit@);
        assert(sorted.contains(sorted[k]));
        lemma_sorted_from(items, sorted[k]);
        let k2 = choose|k2: int| 0 <= k2 < items.len() && items[k2] == sorted[k];
        assert(items[k2] == sorted[k]);
    }
}

} // verus!
