//! The read-model projector: which integration events it accepts, and how it
//! records them. Each (source, sequence) is applied once, and an entity keeps
//! the change with the highest sequence, whatever order changes arrive in.
use crate::events::{field_uuid, is_true, known_operation, read_uuid, IntegrationEvent};
use crate::sorting::{last_index, lemma_last_index_push_any, lemma_last_index_range,
    lemma_last_index_take, lemma_last_index_update};
use crate::text::str_eq;
use vstd::prelude::*;

verus! {

/// The entity types each source publishes.
pub open spec fn known_entity(source: Seq<char>, entity_type: Seq<char>) -> bool {
    if source == "auth"@ {
        entity_type == "users"@ || entity_type == "businesses"@
    } else if source == "products"@ {
        entity_type == "products"@
    } else if source == "raw-materials"@ {
        entity_type == "raw_materials"@
    } else if source == "productions"@ {
        entity_type == "production_batches"@ || entity_type == "process_steps"@ || entity_type
            == "batch_raw_materials"@
    } else if source == "orders"@ {
        entity_type == "orders"@ || entity_type == "order_items"@
    } else {
        false
    }
}

/// An event the projector accepts.
pub open spec fn valid_event(event: &IntegrationEvent) -> bool {
    &&& known_entity(event.source@, event.entity_type@)
    &&& event.schema_version == 1
    &&& event.sequence > 0
    &&& known_operation(event.operation@)
    &&& field_uuid(event.data.id) == Some(event.entity_id)
}

/// Whether the projector accepts `event`; others go to the dead-letter queue.
pub fn valid(event: &IntegrationEvent) -> (r: bool)
    ensures
        r == valid_event(event),
{
    let s = event.source.as_str();
    let t = event.entity_type.as_str();
    let known = if str_eq(s, "auth") {
        str_eq(t, "users") || str_eq(t, "businesses")
    } else if str_eq(s, "products") {
        str_eq(t, "products")
    } else if str_eq(s, "raw-materials") {
        str_eq(t, "raw_materials")
    } else if str_eq(s, "productions") {
        str_eq(t, "production_batches") || str_eq(t, "process_steps") || str_eq(
            t,
            "batch_raw_materials",
        )
    } else if str_eq(s, "orders") {
        str_eq(t, "orders") || str_eq(t, "order_items")
    } else {
        false
    };
    let op = event.operation.as_str();
    known && event.schema_version == 1 && event.sequence > 0 && (str_eq(op, "INSERT") || str_eq(
        op,
        "UPDATE",
    ) || str_eq(op, "DELETE")) && read_uuid(&event.data.id) == Some(event.entity_id)
}

/// A processed (source, sequence) pair.
pub struct Receipt {
    pub source: String,
    pub sequence: i64,
}

/// The projected state of one entity.
pub struct ProjectedEntity {
    pub source: String,
    pub entity_type: String,
    pub entity_id: u128,
    pub sequence: i64,
    pub deleted: bool,
    /// The data of the change it holds, as JSON text.
    pub payload: String,
}

/// The receipts and entities an event touches.
pub struct ProjectionStore {
    pub receipts: Vec<Receipt>,
    pub entities: Vec<ProjectedEntity>,
}

pub struct ReceiptView {
    pub source: Seq<char>,
    pub sequence: i64,
}

pub struct EntityView {
    pub source: Seq<char>,
    pub entity_type: Seq<char>,
    pub entity_id: u128,
    pub sequence: i64,
    pub deleted: bool,
    pub payload: Seq<char>,
}

pub struct StoreView {
    pub receipts: Seq<ReceiptView>,
    pub entities: Seq<EntityView>,
}

impl View for Receipt {
    type V = ReceiptView;

    open spec fn view(&self) -> ReceiptView {
        ReceiptView { source: self.source@, sequence: self.sequence }
    }
}

impl View for ProjectedEntity {
    type V = EntityView;

    open spec fn view(&self) -> EntityView {
        EntityView {
            source: self.source@,
            entity_type: self.entity_type@,
            entity_id: self.entity_id,
            sequence: self.sequence,
            deleted: self.deleted,
            payload: self.payload@,
        }
    }
}

impl View for ProjectionStore {
    type V = StoreView;

    open spec fn view(&self) -> StoreView {
        StoreView {
            receipts: self.receipts@.map_values(|r: Receipt| r@),
            entities: self.entities@.map_values(|e: ProjectedEntity| e@),
        }
    }
}

/// What the projector records of an event.
pub struct Change {
    pub source: Seq<char>,
    pub entity_type: Seq<char>,
    pub entity_id: u128,
    pub sequence: i64,
    pub deleted: bool,
    pub payload: Seq<char>,
}

/// The change an event records: a delete, or data marked deleted, hides the entity.
pub open spec fn change_of(event: &IntegrationEvent) -> Change {
    Change {
        source: event.source@,
        entity_type: event.entity_type@,
        entity_id: event.entity_id,
        sequence: event.sequence,
        deleted: event.operation@ == "DELETE"@ || is_true(event.data.is_deleted),
        payload: event.payload@,
    }
}

pub open spec fn receipt_index(rs: Seq<ReceiptView>, source: Seq<char>, sequence: i64) -> int {
    last_index(rs, |r: ReceiptView| r.source == source && r.sequence == sequence)
}

pub open spec fn entity_index(
    es: Seq<EntityView>,
    source: Seq<char>,
    entity_type: Seq<char>,
    id: u128,
) -> int {
    last_index(
        es,
        |e: EntityView| e.source == source && e.entity_type == entity_type && e.entity_id == id,
    )
}

/// Recording a change: once per (source, sequence); a new entity is added, and
/// an existing one takes the change only if it is newer.
pub open spec fn project(s: StoreView, c: Change) -> StoreView {
    if receipt_index(s.receipts, c.source, c.sequence) >= 0 {
        s
    } else {
        let receipts = s.receipts.push(ReceiptView { source: c.source, sequence: c.sequence });
        let ei = entity_index(s.entities, c.source, c.entity_type, c.entity_id);
        let e = EntityView {
            source: c.source,
            entity_type: c.entity_type,
            entity_id: c.entity_id,
            sequence: c.sequence,
            deleted: c.deleted,
            payload: c.payload,
        };
        if ei < 0 {
            StoreView { receipts, entities: s.entities.push(e) }
        } else if s.entities[ei].sequence < c.sequence {
            StoreView { receipts, entities: s.entities.update(ei, e) }
        } else {
            StoreView { receipts, entities: s.entities }
        }
    }
}

/// The projected (sequence, deleted, data) of an entity, if any.
pub open spec fn entity_state(s: StoreView, source: Seq<char>, entity_type: Seq<char>, id: u128) -> Option<
    (i64, bool, Seq<char>),
> {
    let i = entity_index(s.entities, source, entity_type, id);
    if i >= 0 {
        Some((s.entities[i].sequence, s.entities[i].deleted, s.entities[i].payload))
    } else {
        None
    }
}

/// What applying an event wrote.
#[derive(Clone, Copy, PartialEq, Eq, Structural, Debug)]
pub enum Applied {
    /// The (source, sequence) was processed before; nothing was written.
    Duplicate,
    /// The receipt was recorded; `entity_written` tells whether the entity took the change.
    Recorded { entity_written: bool },
}

/// What applying a change reports: a duplicate when its receipt is already
/// held, otherwise whether the entity row was written.
pub open spec fn applied_outcome(s: StoreView, c: Change) -> Applied {
    if receipt_index(s.receipts, c.source, c.sequence) >= 0 {
        Applied::Duplicate
    } else {
        let ei = entity_index(s.entities, c.source, c.entity_type, c.entity_id);
        Applied::Recorded { entity_written: ei < 0 || s.entities[ei].sequence < c.sequence }
    }
}

impl ProjectionStore {
    /// Records `event` (already checked with `valid`).
    #[verifier::loop_isolation(false)]
    pub fn apply(&mut self, event: &IntegrationEvent) -> (r: Applied)
        ensures
            final(self)@ == project(old(self)@, change_of(event)),
            r == applied_outcome(old(self)@, change_of(event)),
    {
        let ghost s0 = self@;
        let ghost rs = s0.receipts;
        let ghost fr = |r: ReceiptView| r.source == event.source@ && r.sequence == event.sequence;
        let mut j = self.receipts.len();
        while j > 0
            invariant
                j <= self.receipts.len(),
                self@ == s0,
                rs == s0.receipts,
                rs == self.receipts@.map_values(|r: Receipt| r@),
                fr == (|r: ReceiptView| r.source == event.source@ && r.sequence == event.sequence),
                forall|k: int| j <= k < rs.len() ==> !fr(#[trigger] rs[k]),
            decreases j,
        {
            let r = &self.receipts[j - 1];
            if r.sequence == event.sequence && str_eq(r.source.as_str(), event.source.as_str()) {
                proof {
                    assert(rs[j - 1] == r@);
                    lemma_last_index_take(rs, fr, j as int);
                    assert(rs.take(j as int).last() == rs[j - 1]);
                }
                return Applied::Duplicate;
            }
            j = j - 1;
        }
        proof {
            lemma_last_index_take(rs, fr, 0);
        }
        let deleted = str_eq(event.operation.as_str(), "DELETE") || match event.data.is_deleted {
            crate::events::JsonField::Bool(b) => b,
            _ => false,
        };
        self.receipts.push(Receipt { source: event.source.clone(), sequence: event.sequence });
        let ghost pushed = rs.push(ReceiptView { source: event.source@, sequence: event.sequence });
        proof {
            assert(self@.receipts =~= pushed);
        }
        let ghost es = s0.entities;
        let ghost fe = |e: EntityView|
            e.source == event.source@ && e.entity_type == event.entity_type@ && e.entity_id
                == event.entity_id;
        let fresh = ProjectedEntity {
            source: event.source.clone(),
            entity_type: event.entity_type.clone(),
            entity_id: event.entity_id,
            sequence: event.sequence,
            deleted,
            payload: event.payload.clone(),
        };
        let mut i = self.entities.len();
        while i > 0
            invariant
                i <= self.entities.len(),
                es == s0.entities,
                es == self.entities@.map_values(|e: ProjectedEntity| e@),
                self@.receipts == pushed,
                pushed == rs.push(ReceiptView { source: event.source@, sequence: event.sequence }),
                deleted == (event.operation@ == "DELETE"@ || is_true(event.data.is_deleted)),
                fresh@ == (EntityView {
                    source: event.source@,
                    entity_type: event.entity_type@,
                    entity_id: event.entity_id,
                    sequence: event.sequence,
                    deleted,
                    payload: event.payload@,
                }),
                fe == (|e: EntityView|
                    e.source == event.source@ && e.entity_type == event.entity_type@
                        && e.entity_id == event.entity_id),
                forall|k: int| i <= k < es.len() ==> !fe(#[trigger] es[k]),
            decreases i,
        {
            let e = &self.entities[i - 1];
            if e.entity_id == event.entity_id && str_eq(e.source.as_str(), event.source.as_str())
                && str_eq(e.entity_type.as_str(), event.entity_type.as_str()) {
                proof {
                    assert(es[i - 1] == e@);
                    lemma_last_index_take(es, fe, i as int);
                    assert(es.take(i as int).last() == es[i - 1]);
                }
                if e.sequence < event.sequence {
                    self.entities.set(i - 1, fresh);
                    proof {
                        assert(self@.entities =~= es.update(i - 1, fresh@));
                        assert(self@.receipts =~= rs.push(ReceiptView { source: event.source@, sequence: event.sequence }));
                    }
                    return Applied::Recorded { entity_written: true };
                }
                proof {
                    assert(self@.entities =~= es);
                    assert(self@.receipts =~= rs.push(ReceiptView { source: event.source@, sequence: event.sequence }));
                }
                return Applied::Recorded { entity_written: false };
            }
            i = i - 1;
        }
        proof {
            lemma_last_index_take(es, fe, 0);
        }
        self.entities.push(fresh);
        proof {
            assert(self@.entities =~= es.push(fresh@));
            assert(self@.receipts =~= rs.push(ReceiptView { source: event.source@, sequence: event.sequence }));
        }
        Applied::Recorded { entity_written: true }
    }
}

/// Applying the same change twice is applying it once.
pub proof fn law_projection_idempotent(s: StoreView, c: Change)
    ensures
        project(project(s, c), c) == project(s, c),
{
    let fr = |r: ReceiptView| r.source == c.source && r.sequence == c.sequence;
    lemma_last_index_range(s.receipts, fr);
    if receipt_index(s.receipts, c.source, c.sequence) < 0 {
        let t = project(s, c);
        lemma_last_index_push_any(s.receipts, fr, ReceiptView { source: c.source, sequence: c.sequence });
        assert(receipt_index(t.receipts, c.source, c.sequence) >= 0);
    }
}

/// How one change moves the state of entity `k`.
proof fn lemma_project_entity(
    s: StoreView,
    c: Change,
    source: Seq<char>,
    entity_type: Seq<char>,
    id: u128,
)
    ensures
        entity_state(project(s, c), source, entity_type, id) == (
        if receipt_index(s.receipts, c.source, c.sequence) >= 0 || !(c.source == source
            && c.entity_type == entity_type && c.entity_id == id) {
            entity_state(s, source, entity_type, id)
        } else {
            taken(entity_state(s, source, entity_type, id), c)
        }),
{
    let f = |e: EntityView| e.source == source && e.entity_type == entity_type && e.entity_id == id;
    let fc = |e: EntityView|
        e.source == c.source && e.entity_type == c.entity_type && e.entity_id == c.entity_id;
    lemma_last_index_range(s.entities, f);
    lemma_last_index_range(s.entities, fc);
    if receipt_index(s.receipts, c.source, c.sequence) < 0 {
        let e = EntityView {
            source: c.source,
            entity_type: c.entity_type,
            entity_id: c.entity_id,
            sequence: c.sequence,
            deleted: c.deleted,
            payload: c.payload,
        };
        let ei = entity_index(s.entities, c.source, c.entity_type, c.entity_id);
        if ei < 0 {
            lemma_last_index_push_any(s.entities, f, e);
        } else if s.entities[ei].sequence < c.sequence {
            if f(s.entities[ei]) {
                assert(fc(s.entities[ei]));
            }
            lemma_last_index_update(s.entities, f, ei, e);
            let k = entity_index(s.entities, source, entity_type, id);
            if k >= 0 && k != ei {
                assert(s.entities.update(ei, e)[k] == s.entities[k]);
            }
        }
    }
}

proof fn lemma_receipt_after(s: StoreView, c: Change, source: Seq<char>, sequence: i64)
    ensures
        receipt_index(project(s, c).receipts, source, sequence) >= 0 <==> (receipt_index(
            s.receipts,
            source,
            sequence,
        ) >= 0 || (c.source == source && c.sequence == sequence)),
{
    let f = |r: ReceiptView| r.source == source && r.sequence == sequence;
    lemma_last_index_range(s.receipts, f);
    lemma_last_index_range(s.receipts, |r: ReceiptView| r.source == c.source && r.sequence == c.sequence);
    if receipt_index(s.receipts, c.source, c.sequence) < 0 {
        lemma_last_index_push_any(s.receipts, f, ReceiptView { source: c.source, sequence: c.sequence });
    } else if c.source == source && c.sequence == sequence {
    }
}

/// Two changes with different (source, sequence) leave every entity in the same
/// state whichever arrives first: the higher sequence wins.
pub proof fn law_projection_order_independent(
    s: StoreView,
    c1: Change,
    c2: Change,
    source: Seq<char>,
    entity_type: Seq<char>,
    id: u128,
)
    requires
        !(c1.source == c2.source && c1.sequence == c2.sequence),
    ensures
        entity_state(project(project(s, c1), c2), source, entity_type, id) == entity_state(
            project(project(s, c2), c1),
            source,
            entity_type,
            id,
        ),
{
    lemma_project_entity(s, c1, source, entity_type, id);
    lemma_project_entity(s, c2, source, entity_type, id);
    lemma_project_entity(project(s, c1), c2, source, entity_type, id);
    lemma_project_entity(project(s, c2), c1, source, entity_type, id);
    lemma_receipt_after(s, c1, c2.source, c2.sequence);
    lemma_receipt_after(s, c2, c1.source, c1.sequence);
}

/// An entity's projected sequence never goes down.
pub proof fn law_projection_monotone(
    s: StoreView,
    c: Change,
    source: Seq<char>,
    entity_type: Seq<char>,
    id: u128,
)
    requires
        entity_state(s, source, entity_type, id) is Some,
    ensures
        match (entity_state(project(s, c), source, entity_type, id), entity_state(
            s,
            source,
            entity_type,
            id,
        )) {
            (Some((after, _, _)), Some((before, _, _))) => after >= before,
            _ => false,
        },
{
    lemma_project_entity(s, c, source, entity_type, id);
}

/// The changes applied one after another, in order.
pub open spec fn project_all(s: StoreView, cs: Seq<Change>) -> StoreView
    decreases cs.len(),
{
    if cs.len() == 0 {
        s
    } else {
        project(project_all(s, cs.drop_last()), cs.last())
    }
}

/// `c` is a change of entity (`source`, `entity_type`, `id`).
pub open spec fn changes(c: Change, source: Seq<char>, entity_type: Seq<char>, id: u128) -> bool {
    c.source == source && c.entity_type == entity_type && c.entity_id == id
}

/// `r` is the state of an entity that started as `start` after the changes
/// `cs`: the state of its change with the highest sequence, when that is newer
/// than `start`, and `start` otherwise.
pub open spec fn newest_state(
    start: Option<(i64, bool, Seq<char>)>,
    cs: Seq<Change>,
    source: Seq<char>,
    entity_type: Seq<char>,
    id: u128,
    r: Option<(i64, bool, Seq<char>)>,
) -> bool {
    ||| (r == start && forall|j: int|
        0 <= j < cs.len() && changes(#[trigger] cs[j], source, entity_type, id) ==> (
        start matches Some((q, _, _)) && cs[j].sequence <= q))
    ||| exists|m: int|
        0 <= m < cs.len() && changes(#[trigger] cs[m], source, entity_type, id) && r == Some(
            (cs[m].sequence, cs[m].deleted, cs[m].payload),
        ) && (forall|j: int|
            0 <= j < cs.len() && changes(#[trigger] cs[j], source, entity_type, id) ==> cs[j].sequence
                <= cs[m].sequence) && (start matches Some((q, _, _)) ==> q < cs[m].sequence)
}

proof fn lemma_receipts_all(s: StoreView, cs: Seq<Change>, source: Seq<char>, sequence: i64)
    ensures
        receipt_index(project_all(s, cs).receipts, source, sequence) >= 0 <==> (receipt_index(
            s.receipts,
            source,
            sequence,
        ) >= 0 || exists|j: int|
            0 <= j < cs.len() && (#[trigger] cs[j]).source == source && cs[j].sequence == sequence),
    decreases cs.len(),
{
    if cs.len() > 0 {
        let dl = cs.drop_last();
        lemma_receipts_all(s, dl, source, sequence);
        lemma_receipt_after(project_all(s, dl), cs.last(), source, sequence);
        if exists|j: int|
            0 <= j < dl.len() && (#[trigger] dl[j]).source == source && dl[j].sequence == sequence {
            let j = choose|j: int|
                0 <= j < dl.len() && (#[trigger] dl[j]).source == source && dl[j].sequence
                    == sequence;
            assert(cs[j] == dl[j]);
        }
        if exists|j: int|
            0 <= j < cs.len() && (#[trigger] cs[j]).source == source && cs[j].sequence == sequence {
            let j = choose|j: int|
                0 <= j < cs.len() && (#[trigger] cs[j]).source == source && cs[j].sequence
                    == sequence;
            if j < dl.len() {
                assert(dl[j] == cs[j]);
            }
        }
    }
}

/// The state an entity takes from one more change of it.
pub open spec fn taken(prev: Option<(i64, bool, Seq<char>)>, c: Change) -> Option<(i64, bool, Seq<char>)> {
    match prev {
        None => Some((c.sequence, c.deleted, c.payload)),
        Some((q, d, p)) => if q < c.sequence {
            Some((c.sequence, c.deleted, c.payload))
        } else {
            Some((q, d, p))
        },
    }
}

proof fn lemma_newest_other(
    start: Option<(i64, bool, Seq<char>)>,
    dl: Seq<Change>,
    c: Change,
    source: Seq<char>,
    entity_type: Seq<char>,
    id: u128,
    prev: Option<(i64, bool, Seq<char>)>,
)
    requires
        newest_state(start, dl, source, entity_type, id, prev),
        !changes(c, source, entity_type, id),
    ensures
        newest_state(start, dl.push(c), source, entity_type, id, prev),
{
    let cs = dl.push(c);
    assert forall|j: int| 0 <= j < dl.len() implies #[trigger] cs[j] == dl[j] by {}
    if prev == start && forall|j: int|
        0 <= j < dl.len() && changes(#[trigger] dl[j], source, entity_type, id) ==> (
        start matches Some((q, _, _)) && dl[j].sequence <= q) {
        assert forall|j: int|
            0 <= j < cs.len() && changes(#[trigger] cs[j], source, entity_type, id) implies (
        start matches Some((q, _, _)) && cs[j].sequence <= q) by {
            assert(j < dl.len());
            assert(dl[j] == cs[j]);
        }
    } else {
        let m = choose|m: int|
            0 <= m < dl.len() && changes(#[trigger] dl[m], source, entity_type, id) && prev == Some(
                (dl[m].sequence, dl[m].deleted, dl[m].payload),
            ) && (forall|j: int|
                0 <= j < dl.len() && changes(#[trigger] dl[j], source, entity_type, id)
                    ==> dl[j].sequence <= dl[m].sequence) && (start matches Some((q, _, _)) ==> q
                < dl[m].sequence);
        assert(cs[m] == dl[m]);
        assert forall|j: int|
            0 <= j < cs.len() && changes(#[trigger] cs[j], source, entity_type, id) implies cs[j].sequence
            <= cs[m].sequence by {
            assert(j < dl.len());
            assert(dl[j] == cs[j]);
        }
    }
}

proof fn lemma_newest_same(
    start: Option<(i64, bool, Seq<char>)>,
    dl: Seq<Change>,
    c: Change,
    source: Seq<char>,
    entity_type: Seq<char>,
    id: u128,
    prev: Option<(i64, bool, Seq<char>)>,
)
    requires
        newest_state(start, dl, source, entity_type, id, prev),
        changes(c, source, entity_type, id),
        forall|j: int|
            0 <= j < dl.len() ==> !((#[trigger] dl[j]).source == c.source && dl[j].sequence
                == c.sequence),
    ensures
        newest_state(start, dl.push(c), source, entity_type, id, taken(prev, c)),
{
    let cs = dl.push(c);
    let last = dl.len() as int;
    assert(cs[last] == c);
    assert forall|j: int| 0 <= j < dl.len() implies #[trigger] cs[j] == dl[j] by {}
    if prev == start && forall|j: int|
        0 <= j < dl.len() && changes(#[trigger] dl[j], source, entity_type, id) ==> (
        start matches Some((q, _, _)) && dl[j].sequence <= q) {
        if start matches Some((q, _, _)) && c.sequence <= q {
            assert forall|j: int|
                0 <= j < cs.len() && changes(#[trigger] cs[j], source, entity_type, id) implies (
            start matches Some((q2, _, _)) && cs[j].sequence <= q2) by {
                if j < dl.len() {
                    assert(dl[j] == cs[j]);
                }
            }
        } else {
            assert forall|j: int|
                0 <= j < cs.len() && changes(#[trigger] cs[j], source, entity_type, id) implies cs[j].sequence
                <= cs[last].sequence by {
                if j < dl.len() {
                    assert(dl[j] == cs[j]);
                }
            }
        }
    } else {
        let m = choose|m: int|
            0 <= m < dl.len() && changes(#[trigger] dl[m], source, entity_type, id) && prev == Some(
                (dl[m].sequence, dl[m].deleted, dl[m].payload),
            ) && (forall|j: int|
                0 <= j < dl.len() && changes(#[trigger] dl[j], source, entity_type, id)
                    ==> dl[j].sequence <= dl[m].sequence) && (start matches Some((q, _, _)) ==> q
                < dl[m].sequence);
        assert(cs[m] == dl[m]);
        assert(dl[m].sequence != c.sequence);
        if dl[m].sequence < c.sequence {
            assert forall|j: int|
                0 <= j < cs.len() && changes(#[trigger] cs[j], source, entity_type, id) implies cs[j].sequence
                <= cs[last].sequence by {
                if j < dl.len() {
                    assert(dl[j] == cs[j]);
                }
            }
        } else {
            assert forall|j: int|
                0 <= j < cs.len() && changes(#[trigger] cs[j], source, entity_type, id) implies cs[j].sequence
                <= cs[m].sequence by {
                if j < dl.len() {
                    assert(dl[j] == cs[j]);
                }
            }
        }
    }
}

proof fn lemma_reapply_all(s: StoreView, cs: Seq<Change>)
    ensures
        forall|j: int|
            0 <= j < cs.len() ==> project(project_all(s, cs), #[trigger] cs[j]) == project_all(s, cs),
{
    assert forall|j: int| 0 <= j < cs.len() implies project(project_all(s, cs), #[trigger] cs[j])
        == project_all(s, cs) by {
        lemma_receipts_all(s, cs, cs[j].source, cs[j].sequence);
    }
}

/// Events distinct in (source, sequence), none applied before, applied once
/// each in any order: every entity ends with the sequence, deleted flag and
/// data of its change with the highest sequence (when newer than what it
/// held), and applying any of the events again changes nothing.
pub proof fn law_projection_newest_wins(
    s: StoreView,
    cs: Seq<Change>,
    source: Seq<char>,
    entity_type: Seq<char>,
    id: u128,
)
    requires
        forall|j: int|
            0 <= j < cs.len() ==> receipt_index(s.receipts, (#[trigger] cs[j]).source, cs[j].sequence)
                < 0,
        forall|i: int, j: int|
            0 <= i < j < cs.len() ==> !((#[trigger] cs[i]).source == (#[trigger] cs[j]).source
                && cs[i].sequence == cs[j].sequence),
    ensures
        newest_state(
            entity_state(s, source, entity_type, id),
            cs,
            source,
            entity_type,
            id,
            entity_state(project_all(s, cs), source, entity_type, id),
        ),
        forall|j: int|
            0 <= j < cs.len() ==> project(project_all(s, cs), #[trigger] cs[j]) == project_all(s, cs),
    decreases cs.len(),
{
    lemma_reapply_all(s, cs);
    if cs.len() == 0 {
        return;
    }
    let dl = cs.drop_last();
    let c = cs.last();
    assert(cs =~= dl.push(c));
    assert forall|j: int| 0 <= j < dl.len() implies #[trigger] dl[j] == cs[j] by {}
    assert forall|j: int| 0 <= j < dl.len() implies receipt_index(
        s.receipts,
        (#[trigger] dl[j]).source,
        dl[j].sequence,
    ) < 0 by {
        assert(dl[j] == cs[j]);
    }
    assert forall|i: int, j: int| 0 <= i < j < dl.len() implies !((#[trigger] dl[i]).source == (
    #[trigger] dl[j]).source && dl[i].sequence == dl[j].sequence) by {
        assert(dl[i] == cs[i] && dl[j] == cs[j]);
    }
    assert forall|j: int| 0 <= j < dl.len() implies !((#[trigger] dl[j]).source == c.source
        && dl[j].sequence == c.sequence) by {
        assert(dl[j] == cs[j]);
        assert(cs[cs.len() - 1] == c);
    }
    law_projection_newest_wins(s, dl, source, entity_type, id);
    let p = project_all(s, dl);
    lemma_receipts_all(s, dl, c.source, c.sequence);
    assert(receipt_index(s.receipts, c.source, c.sequence) < 0) by {
        assert(cs[cs.len() - 1] == c);
    }
    lemma_project_entity(p, c, source, entity_type, id);
    let start = entity_state(s, source, entity_type, id);
    let prev = entity_state(p, source, entity_type, id);
    if changes(c, source, entity_type, id) {
        lemma_newest_same(start, dl, c, source, entity_type, id, prev);
    } else {
        lemma_newest_other(start, dl, c, source, entity_type, id, prev);
    }
}

/// The projector accepts exactly the events the services publish: the pairs
/// auth/users, auth/businesses, products/products, raw-materials/raw_materials,
/// productions/{production_batches, process_steps, batch_raw_materials} and
/// orders/{orders, order_items}, with schema 1, a positive sequence, an INSERT,
/// UPDATE or DELETE, and data whose id is the entity's id.
pub proof fn law_projector_accepts_published(event: IntegrationEvent)
    ensures
        valid_event(&event) <==> ({
            let (src, ty) = (event.source@, event.entity_type@);
            &&& ((src == "auth"@ && (ty == "users"@ || ty == "businesses"@)) || (src == "products"@
                && ty == "products"@) || (src == "raw-materials"@ && ty == "raw_materials"@) || (src
                == "productions"@ && (ty == "production_batches"@ || ty == "process_steps"@ || ty
                == "batch_raw_materials"@)) || (src == "orders"@ && (ty == "orders"@ || ty
                == "order_items"@)))
            &&& event.schema_version == 1
            &&& event.sequence > 0
            &&& (event.operation@ == "INSERT"@ || event.operation@ == "UPDATE"@ || event.operation@
                == "DELETE"@)
            &&& field_uuid(event.data.id) == Some(event.entity_id)
        }),
{
    reveal_strlit("auth");
    reveal_strlit("users");
    reveal_strlit("businesses");
    reveal_strlit("products");
    reveal_strlit("raw-materials");
    reveal_strlit("raw_materials");
    reveal_strlit("productions");
    reveal_strlit("production_batches");
    reveal_strlit("process_steps");
    reveal_strlit("batch_raw_materials");
    reveal_strlit("orders");
    reveal_strlit("order_items");
    assert("auth"@.len() == 4);
    assert("products"@.len() == 8);
    assert("raw-materials"@.len() == 13);
    assert("productions"@.len() == 11);
    assert("orders"@.len() == 6);
}

} // verus!
