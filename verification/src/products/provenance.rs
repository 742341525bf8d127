//! Provenance of a product: what the traceability projection returns, the rules
//! that decide when it may be shown, and the public allowlist a QR scan sees.
use crate::auth::Claims;
use crate::products::model::Product;
use crate::products::service::{fresh_on, ProductError};
use vstd::prelude::*;

verus! {

/// A recorded process variable of a step.
pub struct StepVariableRef {
    pub name: String,
    pub value: String,
}

/// A process step of a production batch.
pub struct ProcessStepRef {
    pub id: u128,
    pub step_order: i32,
    pub status: String,
    pub name: String,
    pub description: Option<String>,
    pub variables: Vec<StepVariableRef>,
}

/// A raw material used by a production batch.
pub struct RawMaterialRef {
    pub id: u128,
    pub name: String,
    pub material_type: String,
    /// The amount used, as the decimal text it was recorded with.
    pub quantity_used: String,
    pub unit: String,
    pub origin: Option<String>,
    /// Days since the Common Era.
    pub harvest_date: Option<i32>,
    pub received_date: Option<String>,
    pub expiry_date: Option<String>,
    pub supplier: Option<String>,
}

/// A production batch with its steps and materials.
pub struct BatchRef {
    pub id: u128,
    pub name: String,
    pub process_type: String,
    pub start_date: Option<String>,
    pub end_date: Option<String>,
    pub status: String,
    pub steps: Vec<ProcessStepRef>,
    pub raw_materials: Vec<RawMaterialRef>,
}

/// A product with its producer and batch.
pub struct ProvenanceResponse {
    pub product: Product,
    pub business_name: Option<String>,
    pub batch: Option<BatchRef>,
}

/// The public fields of a product.
pub struct PublicProduct {
    pub name: String,
    pub product_type: String,
    pub description: Option<String>,
    pub expiry_date: Option<i32>,
    pub qr_token: u128,
}

/// The public fields of a raw material.
pub struct PublicMaterial {
    pub name: String,
    pub material_type: String,
    pub origin: Option<String>,
    pub harvest_date: Option<i32>,
}

/// The public fields of a process step.
pub struct PublicStep {
    pub status: String,
    pub step_order: i32,
    pub name: String,
    pub description: Option<String>,
    pub variables: Vec<StepVariableRef>,
}

/// The public fields of a production batch.
pub struct PublicBatch {
    pub name: String,
    pub start_date: Option<String>,
    pub end_date: Option<String>,
    pub status: String,
    pub steps: Vec<PublicStep>,
    pub raw_materials: Vec<PublicMaterial>,
}

/// The provenance a QR scan shows: internal identifiers, suppliers, prices and
/// stock never cross into it.
pub struct PublicProvenance {
    pub product: PublicProduct,
    pub farm_name: Option<String>,
    pub batch: Option<PublicBatch>,
}

pub open spec fn public_step_of(s: ProcessStepRef, p: PublicStep) -> bool {
    &&& p.status == s.status
    &&& p.step_order == s.step_order
    &&& p.name == s.name
    &&& p.description == s.description
    &&& p.variables == s.variables
}

pub open spec fn public_material_of(m: RawMaterialRef, p: PublicMaterial) -> bool {
    &&& p.name == m.name
    &&& p.material_type == m.material_type
    &&& p.origin == m.origin
    &&& p.harvest_date == m.harvest_date
}

pub open spec fn public_batch_of(b: BatchRef, p: PublicBatch) -> bool {
    &&& p.name == b.name
    &&& p.start_date == b.start_date
    &&& p.end_date == b.end_date
    &&& p.status == b.status
    &&& p.steps.len() == b.steps.len()
    &&& forall|i: int| 0 <= i < b.steps.len() ==> public_step_of(b.steps[i], #[trigger] p.steps[i])
    &&& p.raw_materials.len() == b.raw_materials.len()
    &&& forall|i: int|
        0 <= i < b.raw_materials.len() ==> public_material_of(
            b.raw_materials[i],
            #[trigger] p.raw_materials[i],
        )
}

fn public_steps(steps: Vec<ProcessStepRef>) -> (r: Vec<PublicStep>)
    ensures
        r.len() == steps.len(),
        forall|i: int| 0 <= i < steps.len() ==> public_step_of(steps[i], #[trigger] r[i]),
{
    let ghost orig = steps@;
    let mut rest = steps;
    let mut out: Vec<PublicStep> = Vec::new();
    while rest.len() > 0
        invariant
            out.len() + rest.len() == orig.len(),
            rest@ == orig.skip(out.len() as int),
            forall|i: int| 0 <= i < out.len() ==> public_step_of(orig[i], #[trigger] out[i]),
        decreases rest.len(),
    {
        let s = rest.remove(0);
        proof {
            assert(s == orig[out.len() as int]);
            assert(rest@ =~= orig.skip(out.len() + 1));
        }
        out.push(
            PublicStep {
                status: s.status,
                step_order: s.step_order,
                name: s.name,
                description: s.description,
                variables: s.variables,
            },
        );
    }
    out
}

fn public_materials(materials: Vec<RawMaterialRef>) -> (r: Vec<PublicMaterial>)
    ensures
        r.len() == materials.len(),
        forall|i: int| 0 <= i < materials.len() ==> public_material_of(materials[i], #[trigger] r[i]),
{
    let ghost orig = materials@;
    let mut rest = materials;
    let mut out: Vec<PublicMaterial> = Vec::new();
    while rest.len() > 0
        invariant
            out.len() + rest.len() == orig.len(),
            rest@ == orig.skip(out.len() as int),
            forall|i: int| 0 <= i < out.len() ==> public_material_of(orig[i], #[trigger] out[i]),
        decreases rest.len(),
    {
        let m = rest.remove(0);
        proof {
            assert(m == orig[out.len() as int]);
            assert(rest@ =~= orig.skip(out.len() + 1));
        }
        out.push(
            PublicMaterial {
                name: m.name,
                material_type: m.material_type,
                origin: m.origin,
                harvest_date: m.harvest_date,
            },
        );
    }
    out
}

/// `r` holds exactly the allowlisted fields of `p`.
pub open spec fn public_of(p: ProvenanceResponse, r: PublicProvenance) -> bool {
    &&& r.product.name == p.product.name
    &&& r.product.product_type == p.product.product_type
    &&& r.product.description == p.product.description
    &&& r.product.expiry_date == p.product.expiry_date
    &&& r.product.qr_token == p.product.qr_token
    &&& r.farm_name == p.business_name
    &&& (r.batch is Some <==> p.batch is Some)
    &&& (p.batch is Some ==> public_batch_of(p.batch->0, r.batch->0))
}

/// Two provenances agree on every allowlisted field; they may differ in
/// anything else (identifiers, stock, prices, suppliers, dates of receipt).
pub open spec fn same_public_fields(p1: ProvenanceResponse, p2: ProvenanceResponse) -> bool {
    &&& p1.product.name == p2.product.name
    &&& p1.product.product_type == p2.product.product_type
    &&& p1.product.description == p2.product.description
    &&& p1.product.expiry_date == p2.product.expiry_date
    &&& p1.product.qr_token == p2.product.qr_token
    &&& p1.business_name == p2.business_name
    &&& (p1.batch is Some <==> p2.batch is Some)
    &&& (p1.batch matches Some(b1) ==> {
        let b2 = p2.batch->0;
        &&& b1.name == b2.name
        &&& b1.start_date == b2.start_date
        &&& b1.end_date == b2.end_date
        &&& b1.status == b2.status
        &&& b1.steps.len() == b2.steps.len()
        &&& (forall|i: int|
            0 <= i < b1.steps.len() ==> {
                let s1 = #[trigger] b1.steps[i];
                let s2 = b2.steps[i];
                &&& s1.status == s2.status
                &&& s1.step_order == s2.step_order
                &&& s1.name == s2.name
                &&& s1.description == s2.description
                &&& s1.variables == s2.variables
            })
        &&& b1.raw_materials.len() == b2.raw_materials.len()
        &&& (forall|i: int|
            0 <= i < b1.raw_materials.len() ==> {
                let m1 = #[trigger] b1.raw_materials[i];
                let m2 = b2.raw_materials[i];
                &&& m1.name == m2.name
                &&& m1.material_type == m2.material_type
                &&& m1.origin == m2.origin
                &&& m1.harvest_date == m2.harvest_date
            })
    })
}

/// Only the allowlist crosses into the public view: two provenances that
/// agree on the allowlisted fields give the same public provenance, whatever
/// their identifiers, stock, prices, suppliers or receipt dates.
pub proof fn law_public_view_hides_the_rest(
    p1: ProvenanceResponse,
    p2: ProvenanceResponse,
    r1: PublicProvenance,
    r2: PublicProvenance,
)
    requires
        public_of(p1, r1),
        public_of(p2, r2),
        same_public_fields(p1, p2),
    ensures
        r1.product == r2.product,
        r1.farm_name == r2.farm_name,
        r1.batch is Some <==> r2.batch is Some,
        r1.batch matches Some(b1) ==> {
            let b2 = r2.batch->0;
            &&& b1.name == b2.name
            &&& b1.start_date == b2.start_date
            &&& b1.end_date == b2.end_date
            &&& b1.status == b2.status
            &&& b1.steps@ == b2.steps@
            &&& b1.raw_materials@ == b2.raw_materials@
        },
{
    if r1.batch is Some {
        let (b1, b2) = (r1.batch->0, r2.batch->0);
        let (q1, q2) = (p1.batch->0, p2.batch->0);
        assert forall|i: int| 0 <= i < b1.steps.len() implies b1.steps[i] == b2.steps[i] by {
            assert(public_step_of(q1.steps[i], b1.steps[i]));
            assert(public_step_of(q2.steps[i], b2.steps[i]));
        }
        assert(b1.steps@ =~= b2.steps@);
        assert forall|i: int| 0 <= i < b1.raw_materials.len() implies b1.raw_materials[i]
            == b2.raw_materials[i] by {
            assert(public_material_of(q1.raw_materials[i], b1.raw_materials[i]));
            assert(public_material_of(q2.raw_materials[i], b2.raw_materials[i]));
        }
        assert(b1.raw_materials@ =~= b2.raw_materials@);
    }
}

/// Each field of the public view is the source field of the same name: the
/// product's name, type, description, expiry and QR token, the producer's
/// name, and the batch's name, start and end of production, status, steps and
/// materials, in order.
pub proof fn law_public_fields_copied(p: ProvenanceResponse, r: PublicProvenance)
    requires
        public_of(p, r),
    ensures
        r.product.name == p.product.name && r.product.product_type == p.product.product_type
            && r.product.description == p.product.description && r.product.expiry_date
            == p.product.expiry_date && r.product.qr_token == p.product.qr_token,
        r.farm_name == p.business_name,
        r.batch is Some <==> p.batch is Some,
        p.batch matches Some(b) ==> {
            let pb = r.batch->0;
            &&& pb.name == b.name
            &&& pb.start_date == b.start_date
            &&& pb.end_date == b.end_date
            &&& pb.status == b.status
            &&& pb.steps.len() == b.steps.len()
            &&& forall|i: int|
                0 <= i < b.steps.len() ==> {
                    let (x, y) = (#[trigger] pb.steps[i], b.steps[i]);
                    &&& x.status == y.status
                    &&& x.step_order == y.step_order
                    &&& x.name == y.name
                    &&& x.description == y.description
                    &&& x.variables == y.variables
                }
            &&& pb.raw_materials.len() == b.raw_materials.len()
            &&& forall|i: int|
                0 <= i < b.raw_materials.len() ==> {
                    let (x, y) = (#[trigger] pb.raw_materials[i], b.raw_materials[i]);
                    &&& x.name == y.name
                    &&& x.material_type == y.material_type
                    &&& x.origin == y.origin
                    &&& x.harvest_date == y.harvest_date
                }
        },
{
    if p.batch is Some {
        let (b, pb) = (p.batch->0, r.batch->0);
        assert forall|i: int| 0 <= i < b.steps.len() implies {
            let (x, y) = (#[trigger] pb.steps[i], b.steps[i]);
            &&& x.status == y.status
            &&& x.step_order == y.step_order
            &&& x.name == y.name
            &&& x.description == y.description
            &&& x.variables == y.variables
        } by {
            assert(public_step_of(b.steps[i], pb.steps[i]));
        }
        assert forall|i: int| 0 <= i < b.raw_materials.len() implies {
            let (x, y) = (#[trigger] pb.raw_materials[i], b.raw_materials[i]);
            &&& x.name == y.name
            &&& x.material_type == y.material_type
            &&& x.origin == y.origin
            &&& x.harvest_date == y.harvest_date
        } by {
            assert(public_material_of(b.raw_materials[i], pb.raw_materials[i]));
        }
    }
}

impl PublicProvenance {
    /// Keeps only the allowlisted fields of a provenance.
    pub fn from(p: ProvenanceResponse) -> (r: PublicProvenance)
        ensures
            public_of(p, r),
    {
        let batch = match p.batch {
            Some(b) => Some(
                PublicBatch {
                    name: b.name,
                    start_date: b.start_date,
                    end_date: b.end_date,
                    status: b.status,
                    steps: public_steps(b.steps),
                    raw_materials: public_materials(b.raw_materials),
                },
            ),
            None => None,
        };
        PublicProvenance {
            product: PublicProduct {
                name: p.product.name,
                product_type: p.product.product_type,
                description: p.product.description,
                expiry_date: p.product.expiry_date,
                qr_token: p.product.qr_token,
            },
            farm_name: p.business_name,
            batch,
        }
    }
}

/// The provenance rules.
pub struct ProvenanceService;

impl ProvenanceService {
    /// A scanned product is shown only while its batch is completed and it has
    /// not expired on `today`.
    pub fn check_on_sale(product: &Product, batch_completed: bool, today: i32) -> (r: Result<
        (),
        ProductError,
    >)
        ensures
            r is Ok <==> batch_completed && fresh_on(product.expiry_date, today),
            r is Err ==> r == Err::<(), ProductError>(ProductError::NotOnSale),
    {
        let fresh = match product.expiry_date {
            Some(d) => d >= today,
            None => true,
        };
        if !batch_completed || !fresh {
            Err(ProductError::NotOnSale)
        } else {
            Ok(())
        }
    }

    /// Joins the owning service's product with the projection: a projection of
    /// another batch means it lags behind; otherwise the product is the owner's.
    pub fn merge(product: Product, projected: ProvenanceResponse) -> (r: Result<
        ProvenanceResponse,
        ProductError,
    >)
        ensures
            projected.product.batch_id != product.batch_id ==> r == Err::<
                ProvenanceResponse,
                ProductError,
            >(ProductError::Synchronizing),
            projected.product.batch_id == product.batch_id ==> r is Ok && r->Ok_0 == (
            ProvenanceResponse { product, ..projected }),
    {
        if projected.product.batch_id != product.batch_id {
            return Err(ProductError::Synchronizing);
        }
        Ok(ProvenanceResponse { product, ..projected })
    }

    /// The answer to a projection request that came back with `status`.
    pub fn projection_status(status: u16) -> (r: Result<(), ProductError>)
        ensures
            r is Err <==> status == 409,
            r is Err ==> r == Err::<(), ProductError>(ProductError::Synchronizing),
    {
        if status == 409 {
            Err(ProductError::Synchronizing)
        } else {
            Ok(())
        }
    }
}

/// The claims of a short-lived traceability token: read-only, for one business
/// and one subject, issued at `now` and valid for a minute.
pub fn trace_claims(business_id: u128, subject: Option<u128>, now: u64) -> (r: Claims)
    requires
        now <= u64::MAX - 60,
    ensures
        r.sub == (match subject {
            Some(s) => s,
            None => 0u128,
        }),
        r.email@ == Seq::<char>::empty(),
        r.role@ == "TRACEABILITY"@,
        r.business_id == Some(business_id),
        r.iat == now,
        r.exp == now + 60,
{
    Claims {
        sub: match subject {
            Some(s) => s,
            None => 0,
        },
        email: String::new(),
        role: String::from_str("TRACEABILITY"),
        business_id: Some(business_id),
        iat: now,
        exp: now + 60,
    }
}

} // verus!
