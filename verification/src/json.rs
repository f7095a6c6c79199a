use vstd::prelude::*;

verus! {

/// One JSON field value as the decoder sees it.  Nested arrays and objects
/// and numbers without an exact 64-bit integer value cannot be stored in any
/// column, so they are kept only as markers for error reporting.
#[derive(Debug)]
pub enum JsonScalar {
    Null,
    Boolean(bool),
    Integer(i64),
    Text(String),
    NonIntegral,
    Nested,
}

/// Model of a scalar: text as a character sequence.
pub enum ScalarV {
    Null,
    Boolean(bool),
    Integer(i64),
    Text(Seq<char>),
    NonIntegral,
    Nested,
}

impl View for JsonScalar {
    type V = ScalarV;

    open spec fn view(&self) -> ScalarV {
        match self {
            JsonScalar::Null => ScalarV::Null,
            JsonScalar::Boolean(b) => ScalarV::Boolean(*b),
            JsonScalar::Integer(x) => ScalarV::Integer(*x),
            JsonScalar::Text(s) => ScalarV::Text(s@),
            JsonScalar::NonIntegral => ScalarV::NonIntegral,
            JsonScalar::Nested => ScalarV::Nested,
        }
    }
}

/// One named field of a JSON record.
#[derive(Debug)]
pub struct JsonField {
    pub name: String,
    pub value: JsonScalar,
}

/// Model of a field.
pub struct FieldV {
    pub name: Seq<char>,
    pub value: ScalarV,
}

impl View for JsonField {
    type V = FieldV;

    open spec fn view(&self) -> FieldV {
        FieldV { name: self.name@, value: self.value@ }
    }
}

/// One JSON record: the fields of one JSON object.
#[derive(Debug)]
pub struct JsonRecord {
    pub fields: Vec<JsonField>,
}

impl View for JsonRecord {
    type V = Seq<FieldV>;

    open spec fn view(&self) -> Seq<FieldV> {
        self.fields@.map_values(|f: JsonField| f@)
    }
}

/// The shape of one inbound payload: a single record object, an array of
/// record objects, or anything else (not valid JSON, a scalar document, or an
/// array with a non-object element).
#[derive(Debug)]
pub enum JsonPayload {
    Single(JsonRecord),
    Batch(Vec<JsonRecord>),
    Malformed,
}

/// Model of a payload.
pub enum PayloadV {
    Single(Seq<FieldV>),
    Batch(Seq<Seq<FieldV>>),
    Malformed,
}

/// The models of a sequence of records.
pub open spec fn records_view(rs: Seq<JsonRecord>) -> Seq<Seq<FieldV>> {
    rs.map_values(|r: JsonRecord| r@)
}

impl View for JsonPayload {
    type V = PayloadV;

    open spec fn view(&self) -> PayloadV {
        match self {
            JsonPayload::Single(r) => PayloadV::Single(r@),
            JsonPayload::Batch(rs) => PayloadV::Batch(records_view(rs@)),
            JsonPayload::Malformed => PayloadV::Malformed,
        }
    }
}

#[verifier::external_type_specification]
#[verifier::external_body]
pub struct ExValue(serde_json::Value);

#[verifier::external_type_specification]
#[verifier::external_body]
#[verifier::reject_recursive_types(K)]
#[verifier::reject_recursive_types(V)]
pub struct ExMap<K, V>(serde_json::Map<K, V>);

/// The payload that `parse_payload` yields for a given byte sequence.  JSON
/// parsing is deterministic, so the result is a function of the bytes alone.
pub uninterp spec fn parsed_payload(bytes: Seq<u8>) -> PayloadV;

/// Relies on `serde_json::Number::as_i64`: the exact 64-bit integer value of
/// a JSON number, where it has one.
#[verifier::external_body]
fn scalar_of(v: serde_json::Value) -> JsonScalar {
    match v {
        serde_json::Value::Null => JsonScalar::Null,
        serde_json::Value::Bool(b) => JsonScalar::Boolean(b),
        serde_json::Value::Number(n) => match n.as_i64() {
            Some(x) => JsonScalar::Integer(x),
            None => JsonScalar::NonIntegral,
        },
        serde_json::Value::String(s) => JsonScalar::Text(s),
        serde_json::Value::Array(_) => JsonScalar::Nested,
        serde_json::Value::Object(_) => JsonScalar::Nested,
    }
}

/// Relies on iteration over `serde_json::Map`: each field of the object is
/// handed over exactly once, as a name and a value.
#[verifier::external_body]
fn record_of(m: serde_json::Map<String, serde_json::Value>) -> JsonRecord {
    let mut fields = Vec::new();
    for (name, v) in m {
        fields.push(JsonField { name, value: scalar_of(v) });
    }
    JsonRecord { fields }
}

/// Relies on `serde_json::from_slice::<serde_json::Value>`: parses the
/// payload bytes as one JSON document, whose top-level shape is told apart
/// variant by variant.  The result depends on the bytes alone.
#[verifier::external_body]
pub(crate) fn parse_payload(bytes: &[u8]) -> (r: JsonPayload)
    ensures
        r@ == parsed_payload(bytes@),
{
    match serde_json::from_slice::<serde_json::Value>(bytes) {
        Ok(serde_json::Value::Object(m)) => JsonPayload::Single(record_of(m)),
        Ok(serde_json::Value::Array(items)) => {
            let mut records = Vec::new();
            for item in items {
                match item {
                    serde_json::Value::Object(m) => records.push(record_of(m)),
                    _ => return JsonPayload::Malformed,
                }
            }
            JsonPayload::Batch(records)
        },
        _ => JsonPayload::Malformed,
    }
}

} // verus!
