//! The byte format in which rows are kept in a store, with its reader and the
//! proof that reading gives back what was written.
//!
//! A row is written as its schema identifier (a presence byte, then four bytes
//! of id and two of version), its version (a presence byte, then four bytes),
//! the number of its values in eight bytes, and the values. A value is its type
//! mark followed by its data; text and byte strings carry their length in
//! eight bytes before the data. All numbers are big-endian.

use crate::encoding::{
    be_bytes, be_value, from_twos_complement, from_twos_complement_64, lemma_be_bytes_len,
    lemma_be_bytes_of_value, lemma_be_round_trip, lemma_pow256_values, pow256, push_be, read_be,
    twos_complement_64,
};
use crate::types::{
    field_data, field_views, type_prefix, Field, FieldValue, Record, RecordView, SchemaIdentifier,
};
use vstd::prelude::*;
use vstd::utf8::{decode_utf8, encode_utf8, encode_utf8_decode_utf8, encode_utf8_valid_utf8, valid_utf8};

verus! {

/// A byte string behind its length in eight bytes.
pub open spec fn length_prefixed(bytes: Seq<u8>) -> Seq<u8> {
    be_bytes(bytes.len(), 8) + bytes
}

/// What follows the type mark of a stored value.
pub open spec fn field_payload(value: FieldValue) -> Seq<u8> {
    match value {
        FieldValue::String(v) => length_prefixed(encode_utf8(v)),
        FieldValue::Text(v) => length_prefixed(encode_utf8(v)),
        FieldValue::Binary(v) => length_prefixed(v),
        FieldValue::Bson(v) => length_prefixed(v),
        _ => field_data(value),
    }
}

/// The stored form of one value.
pub open spec fn serialized_field(value: FieldValue) -> Seq<u8> {
    seq![type_prefix(value)] + field_payload(value)
}

/// The stored forms of a list of values, one after the other.
pub open spec fn serialized_fields(values: Seq<FieldValue>) -> Seq<u8>
    decreases values.len(),
{
    if values.len() == 0 {
        Seq::empty()
    } else {
        serialized_fields(values.drop_last()) + serialized_field(values.last())
    }
}

/// The stored form of an optional schema identifier.
pub open spec fn serialized_schema_id(id: Option<SchemaIdentifier>) -> Seq<u8> {
    match id {
        None => seq![0u8],
        Some(s) => seq![1u8] + be_bytes(s.id as nat, 4) + be_bytes(s.version as nat, 2),
    }
}

/// The stored form of an optional row version.
pub open spec fn serialized_version(version: Option<u32>) -> Seq<u8> {
    match version {
        None => seq![0u8],
        Some(v) => seq![1u8] + be_bytes(v as nat, 4),
    }
}

/// The stored form of a row.
pub open spec fn serialized_record(record: RecordView) -> Seq<u8> {
    serialized_schema_id(record.schema_id) + serialized_version(record.version) + be_bytes(
        record.values.len(),
        8,
    ) + serialized_fields(record.values)
}

/// The number in the `width` bytes at `pos`, and the position behind them.
pub open spec fn parse_be_at(bytes: Seq<u8>, pos: int, width: nat) -> Option<(nat, int)> {
    if 0 <= pos && pos + width <= bytes.len() {
        Some((be_value(bytes.subrange(pos, pos + width)), pos + width))
    } else {
        None
    }
}

/// The length-prefixed byte string at `pos`, and the position behind it.
pub open spec fn parse_bytes_at(bytes: Seq<u8>, pos: int) -> Option<(Seq<u8>, int)> {
    match parse_be_at(bytes, pos, 8) {
        None => None,
        Some((len, start)) => if start + len <= bytes.len() {
            Some((bytes.subrange(start, start + len), start + len))
        } else {
            None
        },
    }
}

/// The length-prefixed UTF-8 text at `pos`, and the position behind it.
pub open spec fn parse_text_at(bytes: Seq<u8>, pos: int) -> Option<(Seq<char>, int)> {
    match parse_bytes_at(bytes, pos) {
        None => None,
        Some((raw, next)) => if valid_utf8(raw) {
            Some((decode_utf8(raw), next))
        } else {
            None
        },
    }
}

/// The signed 64-bit number in the eight bytes at `pos`, and the position behind it.
pub open spec fn parse_signed_at(bytes: Seq<u8>, pos: int) -> Option<(int, int)> {
    match parse_be_at(bytes, pos, 8) {
        None => None,
        Some((bits, next)) => Some((from_twos_complement_64(bits), next)),
    }
}

/// The stored value at `pos`, and the position behind it. `None` where the
/// bytes at `pos` are not the stored form of a value.
pub open spec fn parse_field_at(bytes: Seq<u8>, pos: int) -> Option<(FieldValue, int)> {
    if !(0 <= pos < bytes.len()) {
        None
    } else {
        let tag = bytes[pos];
        let body = pos + 1;
        if tag == 0 {
            match parse_be_at(bytes, body, 8) {
                Some((v, next)) => Some((FieldValue::UInt(v as u64), next)),
                None => None,
            }
        } else if tag == 1 {
            match parse_signed_at(bytes, body) {
                Some((v, next)) => Some((FieldValue::Int(v as i64), next)),
                None => None,
            }
        } else if tag == 2 {
            match parse_be_at(bytes, body, 8) {
                Some((v, next)) => Some((FieldValue::Float(v as u64), next)),
                None => None,
            }
        } else if tag == 3 {
            if body < bytes.len() && bytes[body] <= 1 {
                Some((FieldValue::Boolean(bytes[body] == 1), body + 1))
            } else {
                None
            }
        } else if tag == 4 {
            match parse_text_at(bytes, body) {
                Some((v, next)) => Some((FieldValue::String(v), next)),
                None => None,
            }
        } else if tag == 5 {
            match parse_text_at(bytes, body) {
                Some((v, next)) => Some((FieldValue::Text(v), next)),
                None => None,
            }
        } else if tag == 6 {
            match parse_bytes_at(bytes, body) {
                Some((v, next)) => Some((FieldValue::Binary(v), next)),
                None => None,
            }
        } else if tag == 7 {
            match parse_be_at(bytes, body, 16) {
                Some((v, next)) => Some((FieldValue::Decimal(v as u128), next)),
                None => None,
            }
        } else if tag == 8 {
            match parse_signed_at(bytes, body) {
                Some((v, next)) => Some((FieldValue::Timestamp(v as i64), next)),
                None => None,
            }
        } else if tag == 9 {
            match parse_signed_at(bytes, body) {
                Some((v, next)) => if i32::MIN <= v <= i32::MAX {
                    Some((FieldValue::Date(v as i32), next))
                } else {
                    None
                },
                None => None,
            }
        } else if tag == 10 {
            match parse_bytes_at(bytes, body) {
                Some((v, next)) => Some((FieldValue::Bson(v), next)),
                None => None,
            }
        } else if tag == 11 {
            Some((FieldValue::Null, body))
        } else {
            None
        }
    }
}

/// The `count` stored values from `pos` on, and the position behind them.
pub open spec fn parse_fields_at(bytes: Seq<u8>, pos: int, count: nat) -> Option<(Seq<FieldValue>, int)>
    decreases count,
{
    if count == 0 {
        Some((Seq::empty(), pos))
    } else {
        match parse_fields_at(bytes, pos, (count - 1) as nat) {
            None => None,
            Some((front, mid)) => match parse_field_at(bytes, mid) {
                None => None,
                Some((value, next)) => Some((front.push(value), next)),
            },
        }
    }
}

/// The optional schema identifier at `pos`, and the position behind it.
pub open spec fn parse_schema_id_at(bytes: Seq<u8>, pos: int) -> Option<(Option<SchemaIdentifier>, int)> {
    if !(0 <= pos < bytes.len()) {
        None
    } else if bytes[pos] == 0 {
        Some((None, pos + 1))
    } else if bytes[pos] == 1 {
        match parse_be_at(bytes, pos + 1, 4) {
            None => None,
            Some((id, mid)) => match parse_be_at(bytes, mid, 2) {
                None => None,
                Some((version, next)) => Some(
                    (Some(SchemaIdentifier { id: id as u32, version: version as u16 }), next),
                ),
            },
        }
    } else {
        None
    }
}

/// The optional row version at `pos`, and the position behind it.
pub open spec fn parse_version_at(bytes: Seq<u8>, pos: int) -> Option<(Option<u32>, int)> {
    if !(0 <= pos < bytes.len()) {
        None
    } else if bytes[pos] == 0 {
        Some((None, pos + 1))
    } else if bytes[pos] == 1 {
        match parse_be_at(bytes, pos + 1, 4) {
            None => None,
            Some((v, next)) => Some((Some(v as u32), next)),
        }
    } else {
        None
    }
}

/// The row that `bytes` is the stored form of, if it is one.
pub open spec fn parse_record(bytes: Seq<u8>) -> Option<RecordView> {
    match parse_schema_id_at(bytes, 0) {
        None => None,
        Some((schema_id, at_version)) => match parse_version_at(bytes, at_version) {
            None => None,
            Some((version, at_count)) => match parse_be_at(bytes, at_count, 8) {
                None => None,
                Some((count, at_values)) => match parse_fields_at(bytes, at_values, count) {
                    None => None,
                    Some((values, end)) => if end == bytes.len() {
                        Some(RecordView { schema_id, values, version })
                    } else {
                        None
                    },
                },
            },
        },
    }
}

/// `part` stands in `bytes` from `pos` on.
pub open spec fn holds_at(bytes: Seq<u8>, pos: int, part: Seq<u8>) -> bool {
    &&& 0 <= pos
    &&& pos + part.len() <= bytes.len()
    &&& bytes.subrange(pos, pos + part.len()) == part
}

/// What stands in the bytes stands there part by part.
pub proof fn lemma_holds_at_split(bytes: Seq<u8>, pos: int, a: Seq<u8>, b: Seq<u8>)
    requires
        holds_at(bytes, pos, a + b),
    ensures
        holds_at(bytes, pos, a),
        holds_at(bytes, pos + a.len(), b),
{
    let whole = bytes.subrange(pos, pos + (a + b).len());
    assert(bytes.subrange(pos, pos + a.len()) =~= whole.subrange(0, a.len() as int));
    assert((a + b).subrange(0, a.len() as int) =~= a);
    assert(bytes.subrange(pos + a.len(), pos + a.len() + b.len()) =~= whole.subrange(
        a.len() as int,
        (a + b).len() as int,
    ));
    assert((a + b).subrange(a.len() as int, (a + b).len() as int) =~= b);
}

/// Reading an encoded number where it stands gives the number back.
pub proof fn lemma_parse_be_of_encoding(bytes: Seq<u8>, pos: int, value: nat, width: nat)
    requires
        value < pow256(width),
        holds_at(bytes, pos, be_bytes(value, width)),
    ensures
        parse_be_at(bytes, pos, width) == Some((value, pos + width)),
{
    lemma_be_bytes_len(value, width);
    lemma_be_round_trip(value, width);
}

/// Reading a length-prefixed byte string where it stands gives the bytes back.
pub proof fn lemma_parse_bytes_of_encoding(bytes: Seq<u8>, pos: int, raw: Seq<u8>)
    requires
        raw.len() < pow256(8),
        holds_at(bytes, pos, length_prefixed(raw)),
    ensures
        parse_bytes_at(bytes, pos) == Some((raw, pos + 8 + raw.len())),
{
    lemma_be_bytes_len(raw.len(), 8);
    lemma_holds_at_split(bytes, pos, be_bytes(raw.len(), 8), raw);
    lemma_parse_be_of_encoding(bytes, pos, raw.len(), 8);
}

/// Reading a length-prefixed text where it stands gives the text back.
pub proof fn lemma_parse_text_of_encoding(bytes: Seq<u8>, pos: int, text: Seq<char>)
    requires
        encode_utf8(text).len() < pow256(8),
        holds_at(bytes, pos, length_prefixed(encode_utf8(text))),
    ensures
        parse_text_at(bytes, pos) == Some((text, pos + 8 + encode_utf8(text).len())),
{
    lemma_parse_bytes_of_encoding(bytes, pos, encode_utf8(text));
    encode_utf8_valid_utf8(text);
    encode_utf8_decode_utf8(text);
}

proof fn lemma_parse_signed_of_encoding(bytes: Seq<u8>, pos: int, value: int)
    requires
        i64::MIN <= value <= i64::MAX,
        holds_at(bytes, pos, be_bytes(twos_complement_64(value), 8)),
    ensures
        parse_signed_at(bytes, pos) == Some((value, pos + 8)),
{
    lemma_pow256_values();
    lemma_parse_be_of_encoding(bytes, pos, twos_complement_64(value), 8);
}

/// The lengths in a value fit the eight bytes that the stored form gives them.
pub open spec fn field_storable(value: FieldValue) -> bool {
    match value {
        FieldValue::String(v) => encode_utf8(v).len() < pow256(8),
        FieldValue::Text(v) => encode_utf8(v).len() < pow256(8),
        FieldValue::Binary(v) => v.len() < pow256(8),
        FieldValue::Bson(v) => v.len() < pow256(8),
        _ => true,
    }
}

/// The lengths in a row fit the eight bytes that the stored form gives them.
pub open spec fn record_storable(record: RecordView) -> bool {
    &&& record.values.len() < pow256(8)
    &&& forall|i: int| 0 <= i < record.values.len() ==> field_storable(#[trigger] record.values[i])
}

/// Reading the stored form of a value where it stands gives the value back.
pub proof fn lemma_parse_field_of_encoding(bytes: Seq<u8>, pos: int, value: FieldValue)
    requires
        field_storable(value),
        holds_at(bytes, pos, serialized_field(value)),
    ensures
        parse_field_at(bytes, pos) == Some((value, pos + serialized_field(value).len())),
{
    let payload = field_payload(value);
    lemma_holds_at_split(bytes, pos, seq![type_prefix(value)], payload);
    assert(bytes[pos] == bytes.subrange(pos, pos + 1)[0]);
    assert(bytes[pos] == type_prefix(value));
    lemma_pow256_values();
    match value {
        FieldValue::UInt(v) => {
            lemma_be_bytes_len(v as nat, 8);
            lemma_parse_be_of_encoding(bytes, pos + 1, v as nat, 8);
        },
        FieldValue::Int(v) => {
            lemma_be_bytes_len(twos_complement_64(v as int), 8);
            lemma_parse_signed_of_encoding(bytes, pos + 1, v as int);
        },
        FieldValue::Float(v) => {
            lemma_be_bytes_len(v as nat, 8);
            lemma_parse_be_of_encoding(bytes, pos + 1, v as nat, 8);
        },
        FieldValue::Boolean(v) => {
            assert(bytes[pos + 1] == bytes.subrange(pos + 1, pos + 2)[0]);
        },
        FieldValue::String(v) => {
            lemma_be_bytes_len(encode_utf8(v).len(), 8);
            lemma_parse_text_of_encoding(bytes, pos + 1, v);
        },
        FieldValue::Text(v) => {
            lemma_be_bytes_len(encode_utf8(v).len(), 8);
            lemma_parse_text_of_encoding(bytes, pos + 1, v);
        },
        FieldValue::Binary(v) => {
            lemma_be_bytes_len(v.len(), 8);
            lemma_parse_bytes_of_encoding(bytes, pos + 1, v);
        },
        FieldValue::Decimal(v) => {
            lemma_be_bytes_len(v as nat, 16);
            lemma_parse_be_of_encoding(bytes, pos + 1, v as nat, 16);
        },
        FieldValue::Timestamp(v) => {
            lemma_be_bytes_len(twos_complement_64(v as int), 8);
            lemma_parse_signed_of_encoding(bytes, pos + 1, v as int);
        },
        FieldValue::Date(v) => {
            lemma_be_bytes_len(twos_complement_64(v as int), 8);
            lemma_parse_signed_of_encoding(bytes, pos + 1, v as int);
        },
        FieldValue::Bson(v) => {
            lemma_be_bytes_len(v.len(), 8);
            lemma_parse_bytes_of_encoding(bytes, pos + 1, v);
        },
        FieldValue::Null => {},
    }
}

/// Reading the stored forms of a list of values where they stand gives the list back.
pub proof fn lemma_parse_fields_of_encoding(bytes: Seq<u8>, pos: int, values: Seq<FieldValue>)
    requires
        forall|i: int| 0 <= i < values.len() ==> field_storable(#[trigger] values[i]),
        holds_at(bytes, pos, serialized_fields(values)),
    ensures
        parse_fields_at(bytes, pos, values.len()) == Some((values, pos + serialized_fields(values).len())),
    decreases values.len(),
{
    if values.len() == 0 {
        assert(values =~= Seq::empty());
    } else {
        let front = values.drop_last();
        lemma_holds_at_split(bytes, pos, serialized_fields(front), serialized_field(values.last()));
        assert forall|i: int| 0 <= i < front.len() implies field_storable(#[trigger] front[i]) by {
            assert(front[i] == values[i]);
        }
        lemma_parse_fields_of_encoding(bytes, pos, front);
        lemma_parse_field_of_encoding(bytes, pos + serialized_fields(front).len(), values.last());
        assert(front.push(values.last()) =~= values);
    }
}

/// Round trip: reading the stored form of a row gives the row back.
pub proof fn lemma_parse_serialized_record(record: RecordView)
    requires
        record_storable(record),
    ensures
        parse_record(serialized_record(record)) == Some(record),
{
    let bytes = serialized_record(record);
    let a = serialized_schema_id(record.schema_id);
    let b = serialized_version(record.version);
    let c = be_bytes(record.values.len(), 8);
    let d = serialized_fields(record.values);
    lemma_pow256_values();
    assert(bytes.subrange(0, bytes.len() as int) =~= bytes);
    assert(holds_at(bytes, 0, ((a + b) + c) + d));
    lemma_holds_at_split(bytes, 0, (a + b) + c, d);
    lemma_holds_at_split(bytes, 0, a + b, c);
    lemma_holds_at_split(bytes, 0, a, b);
    // schema identifier
    match record.schema_id {
        None => {
            assert(bytes[0] == bytes.subrange(0, 1)[0]);
        },
        Some(s) => {
            let id_bytes = be_bytes(s.id as nat, 4);
            let version_bytes = be_bytes(s.version as nat, 2);
            lemma_be_bytes_len(s.id as nat, 4);
            lemma_be_bytes_len(s.version as nat, 2);
            lemma_holds_at_split(bytes, 0, seq![1u8] + id_bytes, version_bytes);
            lemma_holds_at_split(bytes, 0, seq![1u8], id_bytes);
            assert(bytes[0] == bytes.subrange(0, 1)[0]);
            lemma_parse_be_of_encoding(bytes, 1, s.id as nat, 4);
            lemma_parse_be_of_encoding(bytes, 5, s.version as nat, 2);
        },
    }
    assert(parse_schema_id_at(bytes, 0) == Some((record.schema_id, a.len() as int)));
    // version
    let at_version = a.len() as int;
    match record.version {
        None => {
            assert(bytes[at_version] == bytes.subrange(at_version, at_version + 1)[0]);
        },
        Some(v) => {
            lemma_be_bytes_len(v as nat, 4);
            lemma_holds_at_split(bytes, at_version, seq![1u8], be_bytes(v as nat, 4));
            assert(bytes[at_version] == bytes.subrange(at_version, at_version + 1)[0]);
            lemma_parse_be_of_encoding(bytes, at_version + 1, v as nat, 4);
        },
    }
    assert(parse_version_at(bytes, at_version) == Some((record.version, at_version + b.len())));
    let at_count = at_version + b.len();
    lemma_be_bytes_len(record.values.len(), 8);
    lemma_parse_be_of_encoding(bytes, at_count, record.values.len(), 8);
    lemma_parse_fields_of_encoding(bytes, at_count + 8, record.values);
}

/// Appends `bytes` behind its length to `out`.
pub(crate) fn push_length_prefixed(out: &mut Vec<u8>, bytes: &[u8])
    ensures
        final(out)@ == old(out)@ + length_prefixed(bytes@),
        bytes@.len() < pow256(8),
{
    let ghost start = out@;
    proof {
        lemma_pow256_values();
    }
    push_be(out, bytes.len() as u128, 8);
    out.extend_from_slice(bytes);
    assert(out@ =~= start + length_prefixed(bytes@));
}

/// Appends the stored form of `field` to `out`.
pub fn serialize_field(field: &Field, out: &mut Vec<u8>)
    ensures
        final(out)@ == old(out)@ + serialized_field(field@),
        field_storable(field@),
{
    let ghost start = out@;
    match field {
        Field::String(v) => {
            out.push(field.get_type_prefix());
            push_length_prefixed(out, v.as_str().as_bytes());
        },
        Field::Text(v) => {
            out.push(field.get_type_prefix());
            push_length_prefixed(out, v.as_str().as_bytes());
        },
        Field::Binary(v) => {
            out.push(field.get_type_prefix());
            push_length_prefixed(out, v.as_slice());
        },
        Field::Bson(v) => {
            out.push(field.get_type_prefix());
            push_length_prefixed(out, v.as_slice());
        },
        _ => {
            field.encode_buf(out);
        },
    }
    assert(out@ =~= start + serialized_field(field@));
}

/// The stored form of `record`.
pub fn serialize_record(record: &Record) -> (bytes: Vec<u8>)
    ensures
        bytes@ == serialized_record(record@),
        record_storable(record@),
        parse_record(bytes@) == Some(record@),
{
    let mut bytes: Vec<u8> = Vec::new();
    match record.schema_id {
        None => bytes.push(0u8),
        Some(s) => {
            bytes.push(1u8);
            push_be(&mut bytes, s.id as u128, 4);
            push_be(&mut bytes, s.version as u128, 2);
        },
    }
    assert(bytes@ =~= serialized_schema_id(record@.schema_id));
    match record.version {
        None => bytes.push(0u8),
        Some(v) => {
            bytes.push(1u8);
            push_be(&mut bytes, v as u128, 4);
        },
    }
    assert(bytes@ =~= serialized_schema_id(record@.schema_id) + serialized_version(record@.version));
    push_be(&mut bytes, record.values.len() as u128, 8);
    let ghost head = bytes@;
    let mut i: usize = 0;
    while i < record.values.len()
        invariant
            i <= record.values.len(),
            bytes@ == head + serialized_fields(record@.values.subrange(0, i as int)),
            forall|k: int| 0 <= k < i ==> field_storable(#[trigger] record@.values[k]),
        decreases record.values.len() - i,
    {
        serialize_field(&record.values[i], &mut bytes);
        proof {
            let next = record@.values.subrange(0, i + 1);
            assert(next.drop_last() =~= record@.values.subrange(0, i as int));
            assert(next.last() == record.values@[i as int]@);
            assert(bytes@ =~= head + serialized_fields(next));
        }
        i = i + 1;
    }
    assert(record@.values.subrange(0, i as int) =~= record@.values);
    assert(bytes@ =~= serialized_record(record@));
    proof {
        lemma_pow256_values();
        lemma_parse_serialized_record(record@);
    }
    bytes
}

/// `String::from_utf8` of std: the text that `bytes` spells in UTF-8, or
/// `None` where `bytes` is not valid UTF-8.
#[verifier::external_body]
pub(crate) fn string_from_utf8(bytes: Vec<u8>) -> (text: Option<String>)
    ensures
        text is Some <==> valid_utf8(bytes@),
        text matches Some(s) ==> s@ == decode_utf8(bytes@),
{
    match String::from_utf8(bytes) {
        Ok(s) => Some(s),
        Err(_) => None,
    }
}

/// Reads the length-prefixed byte string at `pos`.
pub(crate) fn read_bytes(bytes: &[u8], pos: usize) -> (found: Option<(Vec<u8>, usize)>)
    ensures
        match parse_bytes_at(bytes@, pos as int) {
            Some((raw, next)) => found matches Some((v, n)) && v@ == raw && n == next && n <= bytes@.len(),
            None => found is None,
        },
{
    match read_be(bytes, pos, 8) {
        None => None,
        Some(len) => {
            let total = bytes.len();
            let start = pos + 8;
            if len > (total - start) as u128 {
                return None;
            }
            let end = start + len as usize;
            let mut raw: Vec<u8> = Vec::new();
            let mut i: usize = start;
            while i < end
                invariant
                    start <= i <= end <= bytes@.len(),
                    raw@ == bytes@.subrange(start as int, i as int),
                decreases end - i,
            {
                raw.push(bytes[i]);
                assert(bytes@.subrange(start as int, i + 1) =~= bytes@.subrange(
                    start as int,
                    i as int,
                ).push(bytes@[i as int]));
                i = i + 1;
            }
            Some((raw, end))
        },
    }
}

/// Reads the length-prefixed UTF-8 text at `pos`.
pub(crate) fn read_text(bytes: &[u8], pos: usize) -> (found: Option<(String, usize)>)
    ensures
        match parse_text_at(bytes@, pos as int) {
            Some((text, next)) => found matches Some((v, n)) && v@ == text && n == next && n <= bytes@.len(),
            None => found is None,
        },
{
    match read_bytes(bytes, pos) {
        None => None,
        Some((raw, next)) => match string_from_utf8(raw) {
            None => None,
            Some(text) => Some((text, next)),
        },
    }
}

/// Reads the signed 64-bit number at `pos`.
fn read_signed(bytes: &[u8], pos: usize) -> (found: Option<i64>)
    ensures
        match parse_signed_at(bytes@, pos as int) {
            Some((v, next)) => found == Some(v as i64) && i64::MIN <= v <= i64::MAX && next == pos + 8
                && next <= bytes@.len(),
            None => found is None,
        },
{
    match read_be(bytes, pos, 8) {
        None => None,
        Some(bits) => {
            proof {
                lemma_be_bytes_of_value(bytes@.subrange(pos as int, pos + 8));
                lemma_pow256_values();
            }
            Some(from_twos_complement(bits as u64))
        },
    }
}

/// Reads the stored value at `pos`.
pub fn deserialize_field(bytes: &[u8], pos: usize) -> (found: Option<(Field, usize)>)
    ensures
        match parse_field_at(bytes@, pos as int) {
            Some((value, next)) => found matches Some((f, n)) && f@ == value && n == next && n <= bytes@.len(),
            None => found is None,
        },
{
    if pos >= bytes.len() {
        return None;
    }
    let tag = bytes[pos];
    let body = pos + 1;
    proof {
        lemma_pow256_values();
        if body + 8 <= bytes@.len() {
            lemma_be_bytes_of_value(bytes@.subrange(body as int, body + 8));
        }
        if body + 16 <= bytes@.len() {
            lemma_be_bytes_of_value(bytes@.subrange(body as int, body + 16));
        }
    }
    if tag == 0 {
        match read_be(bytes, body, 8) {
            Some(v) => Some((Field::UInt(v as u64), body + 8)),
            None => None,
        }
    } else if tag == 1 {
        match read_signed(bytes, body) {
            Some(v) => Some((Field::Int(v), body + 8)),
            None => None,
        }
    } else if tag == 2 {
        match read_be(bytes, body, 8) {
            Some(v) => Some((Field::Float(v as u64), body + 8)),
            None => None,
        }
    } else if tag == 3 {
        if body < bytes.len() && bytes[body] <= 1 {
            Some((Field::Boolean(bytes[body] == 1), body + 1))
        } else {
            None
        }
    } else if tag == 4 {
        match read_text(bytes, body) {
            Some((v, next)) => Some((Field::String(v), next)),
            None => None,
        }
    } else if tag == 5 {
        match read_text(bytes, body) {
            Some((v, next)) => Some((Field::Text(v), next)),
            None => None,
        }
    } else if tag == 6 {
        match read_bytes(bytes, body) {
            Some((v, next)) => Some((Field::Binary(v), next)),
            None => None,
        }
    } else if tag == 7 {
        match read_be(bytes, body, 16) {
            Some(v) => Some((Field::Decimal(v), body + 16)),
            None => None,
        }
    } else if tag == 8 {
        match read_signed(bytes, body) {
            Some(v) => Some((Field::Timestamp(v), body + 8)),
            None => None,
        }
    } else if tag == 9 {
        match read_signed(bytes, body) {
            Some(v) => if -0x8000_0000i64 <= v && v <= 0x7fff_ffffi64 {
                Some((Field::Date(v as i32), body + 8))
            } else {
                None
            },
            None => None,
        }
    } else if tag == 10 {
        match read_bytes(bytes, body) {
            Some((v, next)) => Some((Field::Bson(v), next)),
            None => None,
        }
    } else if tag == 11 {
        Some((Field::Null, body))
    } else {
        None
    }
}

proof fn lemma_parse_fields_fails(bytes: Seq<u8>, pos: int, failing: nat, count: nat)
    requires
        failing <= count,
        parse_fields_at(bytes, pos, failing) is None,
    ensures
        parse_fields_at(bytes, pos, count) is None,
    decreases count,
{
    if failing < count {
        lemma_parse_fields_fails(bytes, pos, failing, (count - 1) as nat);
    }
}

/// Reads an optional schema identifier at `pos`.
pub(crate) fn read_schema_id(bytes: &[u8], pos: usize) -> (found: Option<(Option<SchemaIdentifier>, usize)>)
    ensures
        match parse_schema_id_at(bytes@, pos as int) {
            Some((id, next)) => found == Some((id, next as usize)) && next <= bytes@.len(),
            None => found is None,
        },
{
    if pos >= bytes.len() {
        return None;
    }
    if bytes[pos] == 0 {
        Some((None, pos + 1))
    } else if bytes[pos] == 1 {
        match read_be(bytes, pos + 1, 4) {
            None => None,
            Some(id) => match read_be(bytes, pos + 5, 2) {
                None => None,
                Some(version) => {
                    proof {
                        lemma_pow256_values();
                        lemma_be_bytes_of_value(bytes@.subrange(pos + 1, pos + 5));
                        lemma_be_bytes_of_value(bytes@.subrange(pos + 5, pos + 7));
                    }
                    Some((Some(SchemaIdentifier { id: id as u32, version: version as u16 }), pos + 7))
                },
            },
        }
    } else {
        None
    }
}

/// Reads an optional row version at `pos`.
fn read_version(bytes: &[u8], pos: usize) -> (found: Option<(Option<u32>, usize)>)
    ensures
        match parse_version_at(bytes@, pos as int) {
            Some((version, next)) => found == Some((version, next as usize)) && next <= bytes@.len(),
            None => found is None,
        },
{
    if pos >= bytes.len() {
        return None;
    }
    if bytes[pos] == 0 {
        Some((None, pos + 1))
    } else if bytes[pos] == 1 {
        match read_be(bytes, pos + 1, 4) {
            None => None,
            Some(v) => {
                proof {
                    lemma_pow256_values();
                    lemma_be_bytes_of_value(bytes@.subrange(pos + 1, pos + 5));
                }
                Some((Some(v as u32), pos + 5))
            },
        }
    } else {
        None
    }
}

/// The row that `bytes` is the stored form of, or `None` where it is none.
pub fn deserialize_record(bytes: &[u8]) -> (found: Option<Record>)
    ensures
        match parse_record(bytes@) {
            Some(record) => found matches Some(r) && r@ == record,
            None => found is None,
        },
{
    let (schema_id, at_version) = match read_schema_id(bytes, 0) {
        None => {
            return None;
        },
        Some(found) => found,
    };
    let (version, at_count) = match read_version(bytes, at_version) {
        None => {
            return None;
        },
        Some(found) => found,
    };
    let count = match read_be(bytes, at_count, 8) {
        None => {
            return None;
        },
        Some(count) => count,
    };
    let start = at_count + 8;
    let mut values: Vec<Field> = Vec::new();
    let mut pos: usize = start;
    let mut i: u128 = 0;
    while i < count
        invariant
            i <= count,
            start <= bytes@.len(),
            pos <= bytes@.len(),
            parse_schema_id_at(bytes@, 0) == Some((schema_id, at_version as int)),
            parse_version_at(bytes@, at_version as int) == Some((version, at_count as int)),
            parse_be_at(bytes@, at_count as int, 8) == Some((count as nat, start as int)),
            parse_fields_at(bytes@, start as int, i as nat) == Some((field_views(values@), pos as int)),
        decreases count - i,
    {
        match deserialize_field(bytes, pos) {
            None => {
                proof {
                    assert(parse_fields_at(bytes@, start as int, (i + 1) as nat) is None);
                    lemma_parse_fields_fails(bytes@, start as int, (i + 1) as nat, count as nat);
                }
                return None;
            },
            Some((field, next)) => {
                proof {
                    assert(field_views(values@.push(field)) =~= field_views(values@).push(field@));
                }
                values.push(field);
                pos = next;
                i = i + 1;
            },
        }
    }
    if pos != bytes.len() {
        return None;
    }
    Some(Record { schema_id, values, version })
}

} // verus!
