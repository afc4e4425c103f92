//! Log records and the JSON text of their structured fields.
use crate::json::{distinct_keys, is_json_value, json_object};
use crate::level::LogLevel;
use vstd::prelude::*;

verus! {

/// `serde_json::Map`, an ordered collection of keys and JSON values.
#[verifier::external_type_specification]
#[verifier::external_body]
#[verifier::reject_recursive_types(K)]
#[verifier::reject_recursive_types(V)]
pub struct ExJsonMap<K, V>(serde_json::Map<K, V>);

/// `serde_json::Value`, a JSON value.
#[verifier::external_type_specification]
#[verifier::external_body]
pub struct ExJsonValue(serde_json::Value);

/// `serde_json::Error`, why JSON could not be written.
#[verifier::external_type_specification]
#[verifier::external_body]
pub struct ExJsonError(serde_json::Error);

/// What a map of fields holds, in the order in which it hands its entries out: each key, with the
/// compact JSON text of its value.
pub uninterp spec fn field_entries(
    fields: serde_json::Map<String, serde_json::Value>,
) -> Seq<(Seq<char>, Seq<char>)>;

/// `Map::new` of serde_json: a map without entries.
pub assume_specification[ serde_json::Map::<String, serde_json::Value>::new ]() -> (r:
    serde_json::Map<String, serde_json::Value>)
    ensures
        field_entries(r) == Seq::<(Seq<char>, Seq<char>)>::empty(),
;

/// `Map::is_empty` of serde_json: whether the map has no entry.
pub assume_specification[ serde_json::Map::<String, serde_json::Value>::is_empty ](
    fields: &serde_json::Map<String, serde_json::Value>,
) -> (r: bool)
    ensures
        r == (field_entries(*fields).len() == 0),
;

/// Whether `text` is the compact JSON object of these entries, whose keys are distinct and whose
/// values are JSON values.
pub open spec fn is_object_of(text: Seq<char>, entries: Seq<(Seq<char>, Seq<char>)>) -> bool {
    &&& text == json_object(entries)
    &&& distinct_keys(entries)
    &&& forall|i: int| 0 <= i < entries.len() ==> is_json_value(#[trigger] entries[i].1)
}

/// `serde_json::to_string` on a map of fields: the compact JSON object of its entries. Keys are
/// strings and the text goes to memory, so it does not fail. A map holds each key once, and what it
/// holds for a key is a JSON value.
#[verifier::external_body]
pub(crate) fn fields_to_string(fields: &serde_json::Map<String, serde_json::Value>) -> (r: Result<
    String,
    serde_json::Error,
>)
    ensures
        r is Ok,
        is_object_of(r->Ok_0@, field_entries(*fields)),
{
    serde_json::to_string(fields)
}

/// A log record of the gateway or of a plugin.
#[derive(Debug)]
pub struct LogRecord {
    pub timestamp_ns: u64,
    pub level: LogLevel,
    pub target: String,
    pub message: String,
    pub fields: serde_json::Map<String, serde_json::Value>,
}

/// A record with its texts as characters and its fields as entries.
pub struct RecordView {
    pub timestamp_ns: int,
    pub level: LogLevel,
    pub target: Seq<char>,
    pub message: Seq<char>,
    pub fields: Seq<(Seq<char>, Seq<char>)>,
}

impl View for LogRecord {
    type V = RecordView;

    open spec fn view(&self) -> RecordView {
        RecordView {
            timestamp_ns: self.timestamp_ns as int,
            level: self.level,
            target: self.target@,
            message: self.message@,
            fields: field_entries(self.fields),
        }
    }
}

impl LogRecord {
    /// A record without structured fields.
    pub fn new(timestamp_ns: u64, level: LogLevel, target: String, message: String) -> (r: LogRecord)
        ensures
            r@ == (RecordView {
                timestamp_ns: timestamp_ns as int,
                level,
                target: target@,
                message: message@,
                fields: Seq::empty(),
            }),
    {
        LogRecord { timestamp_ns, level, target, message, fields: serde_json::Map::new() }
    }
}

/// The contracts speak of a record as it is: each part of its view is that part of the record.
pub proof fn law_record_is_seen_as_it_is(record: LogRecord)
    ensures
        record@.timestamp_ns == record.timestamp_ns,
        record@.level == record.level,
        record@.target == record.target@,
        record@.message == record.message@,
        record@.fields == field_entries(record.fields),
{
}

} // verus!
