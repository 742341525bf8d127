//! Integration events between services, as their consumers read them.
use crate::numbers::Number;
use std::str::FromStr;
use uuid::Uuid;
use vstd::prelude::*;

verus! {

/// What a consumer reads of one field of an event's JSON data.
pub enum JsonField {
    /// Absent, or `null`.
    Null,
    Text(String),
    Bool(bool),
    Number(Number),
    /// An array or an object.
    Other,
}

/// The fields of an event's data that the consumers read.
pub struct EventData {
    pub id: JsonField,
    pub farm_id: JsonField,
    pub status: JsonField,
    pub is_deleted: JsonField,
    pub output_name: JsonField,
    pub output_type: JsonField,
    pub output_unit: JsonField,
    pub output_quantity: JsonField,
    pub output_expiry_date: JsonField,
}

/// A change of one entity, published by the service that owns it.
pub struct IntegrationEvent {
    pub schema_version: i32,
    pub source: String,
    pub sequence: i64,
    pub entity_type: String,
    pub entity_id: u128,
    pub operation: String,
    /// The fields of the data that the rules read.
    pub data: EventData,
    /// The whole data, as the JSON text it was published with.
    pub payload: String,
}

/// The UUID `Uuid::from_str` reads from `text`.
pub uninterp spec fn uuid_parse(text: Seq<char>) -> Option<u128>;

/// Reads a UUID with `Uuid::from_str`.
#[verifier::external_body]
pub(crate) fn parse_uuid(text: &str) -> (r: Option<u128>)
    ensures
        r == uuid_parse(text@),
{
    Uuid::from_str(text).ok().map(|u| u.as_u128())
}

/// The UUID a JSON field deserializes to: only a string can hold one.
pub open spec fn field_uuid(f: JsonField) -> Option<u128> {
    match f {
        JsonField::Text(s) => uuid_parse(s@),
        _ => None,
    }
}

/// Deserializes a UUID from a JSON field.
pub fn read_uuid(f: &JsonField) -> (r: Option<u128>)
    ensures
        r == field_uuid(*f),
{
    match f {
        JsonField::Text(s) => parse_uuid(s.as_str()),
        _ => None,
    }
}

/// The operation is an insert, an update or a delete.
pub open spec fn known_operation(op: Seq<char>) -> bool {
    op == "INSERT"@ || op == "UPDATE"@ || op == "DELETE"@
}

/// The field is the JSON value `true`.
pub open spec fn is_true(f: JsonField) -> bool {
    f matches JsonField::Bool(true)
}

/// The field is the string `s`.
pub open spec fn is_text(f: JsonField, s: Seq<char>) -> bool {
    f matches JsonField::Text(t) && t@ == s
}

} // verus!
