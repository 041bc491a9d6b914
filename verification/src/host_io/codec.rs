//! Encoding and decoding of single message fields.

use crate::host_io::enums::{low_i32, low_u32, to_i32, to_u32, EnumTable, EnumTableView,
    WrappedField, WrappedView};
use crate::host_io::format::FieldType;
use crate::host_io::parse_error::{ErrorView, ParseError};
use crate::host_io::vlq::{
    decode_vlq, encode_vlq, law_vlq_round_trip, vlq_bytes, vlq_decoded, vlq_fits, vlq_range_error,
};
use crate::ordered_map::OrderedMap;
use crate::text::{copy_text, parse_i64, parsed_int};
use crate::transport::{MessageValue, ValueView};
use vstd::prelude::*;
use vstd::utf8::encode_utf8;

verus! {

/// A value for one field of an outgoing message.
#[derive(Debug)]
pub enum FieldValue<'a> {
    U32(u32),
    I32(i32),
    U16(u16),
    I16(i16),
    Byte(u8),
    String(&'a str),
    Buffer(&'a [u8]),
    EnumName(&'a str),
    EnumIntOverride(i32),
}

/// Model of [`FieldValue`].
pub enum FieldValueView {
    U32(u32),
    I32(i32),
    U16(u16),
    I16(i16),
    Byte(u8),
    String(Seq<char>),
    Buffer(Seq<u8>),
    EnumName(Seq<char>),
    EnumIntOverride(i32),
}

impl<'a> View for FieldValue<'a> {
    type V = FieldValueView;

    open spec fn view(&self) -> FieldValueView {
        match self {
            FieldValue::U32(v) => FieldValueView::U32(*v),
            FieldValue::I32(v) => FieldValueView::I32(*v),
            FieldValue::U16(v) => FieldValueView::U16(*v),
            FieldValue::I16(v) => FieldValueView::I16(*v),
            FieldValue::Byte(v) => FieldValueView::Byte(*v),
            FieldValue::String(s) => FieldValueView::String(s@),
            FieldValue::Buffer(b) => FieldValueView::Buffer(b@),
            FieldValue::EnumName(s) => FieldValueView::EnumName(s@),
            FieldValue::EnumIntOverride(v) => FieldValueView::EnumIntOverride(*v),
        }
    }
}

/// Whether a type is one of the integer types.
pub open spec fn is_int_type(ty: FieldType) -> bool {
    ty == FieldType::U32 || ty == FieldType::I32 || ty == FieldType::U16 || ty == FieldType::I16
        || ty == FieldType::Byte
}

/// The bytes of a number, or the error for one that cannot be written.
pub open spec fn number_bytes(v: int) -> Result<Seq<u8>, ErrorView> {
    if vlq_fits(v) {
        Ok(vlq_bytes(v))
    } else {
        Err(vlq_range_error(v as i64))
    }
}

/// The bytes of an enumerator's number in a field of type `ty`.
pub open spec fn int_field_bytes(ty: FieldType, v: int) -> Result<Seq<u8>, ErrorView> {
    if is_int_type(ty) {
        number_bytes(v)
    } else {
        Err(ErrorView::MalformedField)
    }
}

/// Bytes behind their length, where it fits a byte.
pub open spec fn counted(b: Seq<u8>, range: Seq<char>) -> Result<Seq<u8>, ErrorView> {
    if b.len() > 255 {
        Err(ErrorView::OutOfRange { value: b.len() as i64, range })
    } else {
        Ok(seq![b.len() as u8] + b)
    }
}

/// The bytes of a typed value in a field of type `ty`.
pub open spec fn field_value_bytes(ty: FieldType, v: FieldValueView) -> Result<
    Seq<u8>,
    ErrorView,
> {
    match (ty, v) {
        (FieldType::U32, FieldValueView::U32(n)) => number_bytes(n as int),
        (FieldType::I32, FieldValueView::I32(n)) => number_bytes(n as int),
        (FieldType::U16, FieldValueView::U16(n)) => number_bytes(n as int),
        (FieldType::I16, FieldValueView::I16(n)) => number_bytes(n as int),
        (FieldType::Byte, FieldValueView::Byte(n)) => number_bytes(n as int),
        (FieldType::String, FieldValueView::String(s)) => counted(
            encode_utf8(s),
            "string len 0..=255"@,
        ),
        (FieldType::Buffer, FieldValueView::Buffer(b)) => counted(b, "buffer len 0..=255"@),
        (FieldType::ProgmemBuffer, FieldValueView::Buffer(b)) => counted(b, "buffer len 0..=255"@),
        _ => Err(ErrorView::MalformedField),
    }
}

/// What an encoder did: it appended the bytes, or left the output as it was.
pub open spec fn appended(
    before: Seq<u8>,
    after: Seq<u8>,
    r: Result<(), ParseError>,
    want: Result<Seq<u8>, ErrorView>,
) -> bool {
    match r {
        Ok(_) => want is Ok && after == before + want->Ok_0,
        Err(e) => want is Err && after == before && want->Err_0 == e@,
    }
}

/// Appends a number to a field of type `ty`.
pub fn encode_field_int(out: &mut Vec<u8>, ty: FieldType, value: i64) -> (r: Result<
    (),
    ParseError,
>)
    ensures
        appended(old(out)@, final(out)@, r, int_field_bytes(ty, value as int)),
{
    match ty {
        FieldType::U32
        | FieldType::I32
        | FieldType::U16
        | FieldType::I16
        | FieldType::Byte => encode_vlq(out, value),
        _ => Err(ParseError::MalformedField),
    }
}

/// Appends bytes behind their length.
fn push_counted(out: &mut Vec<u8>, b: &[u8], range: &'static str) -> (r: Result<(), ParseError>)
    ensures
        appended(old(out)@, final(out)@, r, counted(b@, range@)),
{
    if b.len() > 255 {
        return Err(ParseError::OutOfRange { value: b.len() as i64, range });
    }
    out.push(b.len() as u8);
    out.extend_from_slice(b);
    proof {
        assert(out@ =~= old(out)@ + (seq![b@.len() as u8] + b@));
    }
    Ok(())
}

/// Appends a typed value.
pub fn encode_field_value<'a>(
    out: &mut Vec<u8>,
    ty: FieldType,
    value: &FieldValue<'a>,
) -> (r: Result<(), ParseError>)
    ensures
        appended(old(out)@, final(out)@, r, field_value_bytes(ty, value@)),
{
    match (ty, value) {
        (FieldType::U32, FieldValue::U32(v)) => encode_vlq(out, *v as i64),
        (FieldType::I32, FieldValue::I32(v)) => encode_vlq(out, *v as i64),
        (FieldType::U16, FieldValue::U16(v)) => encode_vlq(out, *v as i64),
        (FieldType::I16, FieldValue::I16(v)) => encode_vlq(out, *v as i64),
        (FieldType::Byte, FieldValue::Byte(v)) => encode_vlq(out, *v as i64),
        (FieldType::String, FieldValue::String(s)) => push_counted(
            out,
            s.as_bytes(),
            "string len 0..=255",
        ),
        (FieldType::Buffer, FieldValue::Buffer(b)) => push_counted(out, b, "buffer len 0..=255"),
        (FieldType::ProgmemBuffer, FieldValue::Buffer(b)) => push_counted(
            out,
            b,
            "buffer len 0..=255",
        ),
        _ => Err(ParseError::MalformedField),
    }
}

/// The value of a hexadecimal digit.
pub open spec fn hex_value(b: u8) -> Option<int> {
    if 48 <= b <= 57 {
        Some(b - 48)
    } else if 97 <= b <= 102 {
        Some(b - 87)
    } else if 65 <= b <= 70 {
        Some(b - 55)
    } else {
        None
    }
}

/// The byte that two characters denote in hexadecimal; a plus sign may stand
/// for the first digit.
pub open spec fn hex_pair(hi: u8, lo: u8) -> Option<u8> {
    match hex_value(lo) {
        None => None,
        Some(l) => if hi == 43 {
            Some(l as u8)
        } else {
            match hex_value(hi) {
                None => None,
                Some(h) => Some((h * 16 + l) as u8),
            }
        },
    }
}

/// Whether bytes are a run of hexadecimal pairs.
pub open spec fn is_hex(b: Seq<u8>) -> bool {
    b.len() % 2 == 0 && forall|i: int|
        0 <= i < b.len() / 2 ==> #[trigger] hex_pair(b[2 * i], b[2 * i + 1]) is Some
}

/// The bytes that a run of hexadecimal pairs denotes.
pub open spec fn hex_decoded(b: Seq<u8>) -> Seq<u8> {
    Seq::new((b.len() / 2) as nat, |i: int| hex_pair(b[2 * i], b[2 * i + 1])->0)
}

/// A hexadecimal text, or the error for one that is none.
pub open spec fn hex_text(s: Seq<char>) -> Result<Seq<u8>, ErrorView> {
    let b = encode_utf8(s);
    if is_hex(b) {
        Ok(hex_decoded(b))
    } else {
        Err(ErrorView::BadHex(s))
    }
}

fn hex_digit_value(b: u8) -> (r: Option<u8>)
    ensures
        match r {
            Some(v) => hex_value(b) == Some(v as int) && v < 16,
            None => hex_value(b) is None,
        },
{
    if b >= 48 && b <= 57 {
        Some(b - 48)
    } else if b >= 97 && b <= 102 {
        Some(b - 87)
    } else if b >= 65 && b <= 70 {
        Some(b - 55)
    } else {
        None
    }
}

fn hex_pair_value(hi: u8, lo: u8) -> (r: Option<u8>)
    ensures
        r == hex_pair(hi, lo),
{
    match hex_digit_value(lo) {
        None => None,
        Some(l) => {
            if hi == 43 {
                Some(l)
            } else {
                match hex_digit_value(hi) {
                    None => None,
                    Some(h) => Some(h * 16 + l),
                }
            }
        },
    }
}

/// Reads a hexadecimal text.
pub fn parse_hex_buffer(s: &str) -> (r: Result<Vec<u8>, ParseError>)
    ensures
        match r {
            Ok(v) => hex_text(s@) == Ok::<_, ErrorView>(v@),
            Err(e) => hex_text(s@) == Err::<Seq<u8>, _>(e@),
        },
{
    let b: &[u8] = s.as_bytes();
    if b.len() % 2 != 0 {
        return Err(ParseError::BadHex(copy_text(s)));
    }
    let n: usize = b.len() / 2;
    let mut out: Vec<u8> = Vec::new();
    let mut i: usize = 0;
    while i < n
        invariant
            b@ == encode_utf8(s@),
            b@.len() == 2 * n,
            b@.len() <= usize::MAX,
            i <= n,
            out@.len() == i,
            forall|j: int|
                0 <= j < i ==> #[trigger] hex_pair(b@[2 * j], b@[2 * j + 1]) == Some(out@[j]),
        decreases n - i,
    {
        match hex_pair_value(b[2 * i], b[2 * i + 1]) {
            Some(v) => out.push(v),
            None => {
                proof {
                    assert(hex_pair(b@[2 * i], b@[2 * i + 1]) is None);
                }
                return Err(ParseError::BadHex(copy_text(s)));
            },
        }
        i += 1;
    }
    proof {
        assert(out@ =~= hex_decoded(b@)) by {
            assert forall|j: int| 0 <= j < n implies out@[j] == hex_decoded(b@)[j] by {
                assert(hex_pair(b@[2 * j], b@[2 * j + 1]) == Some(out@[j]));
            }
        }
    }
    Ok(out)
}

/// Whether a number may stand in a field of type `ty`. Four-byte fields take
/// any number and keep its low 32 bits.
pub open spec fn in_type_range(ty: FieldType, v: int) -> bool {
    match ty {
        FieldType::Byte => -128 <= v <= 255,
        FieldType::U16 => 0 <= v <= 65535,
        FieldType::I16 => -32768 <= v <= 32767,
        _ => true,
    }
}

/// Refuses a number that may not stand in a field of type `ty`.
pub fn range_check(ty: FieldType, v: i64) -> (r: Result<(), ParseError>)
    ensures
        match r {
            Ok(_) => in_type_range(ty, v as int),
            Err(e) => !in_type_range(ty, v as int) && e@ == (ErrorView::OutOfRange {
                value: v,
                range: "FieldType range"@,
            }),
        },
{
    let in_range: bool = match ty {
        FieldType::Byte => v >= -128 && v <= 255,
        FieldType::U16 => v >= 0 && v <= 65535,
        FieldType::I16 => v >= -32768 && v <= 32767,
        _ => true,
    };
    if !in_range {
        return Err(ParseError::OutOfRange { value: v, range: "FieldType range" });
    }
    Ok(())
}

/// The number that is written for `v` in a field of type `ty`.
pub open spec fn cut_to_type(ty: FieldType, v: int) -> int {
    match ty {
        FieldType::U32 => low_u32(v),
        FieldType::I32 => low_i32(v),
        _ => v,
    }
}

/// The bytes of a textual value in a plain field of type `ty`.
pub open spec fn plain_text_bytes(ty: FieldType, s: Seq<char>) -> Result<Seq<u8>, ErrorView> {
    if is_int_type(ty) {
        match parsed_int(s) {
            Some(v) => if v < i64::MIN || v > i64::MAX {
                Err(ErrorView::MalformedField)
            } else if !in_type_range(ty, v) {
                Err(ErrorView::OutOfRange { value: v as i64, range: "FieldType range"@ })
            } else {
                number_bytes(cut_to_type(ty, v))
            },
            None => Err(ErrorView::MalformedField),
        }
    } else if ty == FieldType::String {
        counted(encode_utf8(s), "string len 0..=255"@)
    } else {
        match hex_text(s) {
            Ok(b) => counted(b, "buffer len 0..=255"@),
            Err(e) => Err(e),
        }
    }
}

/// The tables of enumerations, as models.
pub open spec fn enum_views(m: Map<Seq<char>, EnumTable>) -> Map<Seq<char>, EnumTableView> {
    m.map_values(|t: EnumTable| t@)
}

/// The bytes of an enumerator's name.
pub open spec fn enum_name_bytes(
    inner: FieldType,
    enum_name: Seq<char>,
    name: Seq<char>,
    enums: Map<Seq<char>, EnumTableView>,
) -> Result<Seq<u8>, ErrorView> {
    if !enums.contains_key(enum_name) {
        Err(ErrorView::UnknownEnumName(enum_name))
    } else if !enums[enum_name].by_name.contains_key(name) {
        Err(ErrorView::UnknownEnumValue { enum_name, value: name })
    } else {
        int_field_bytes(inner, enums[enum_name].by_name[name] as int)
    }
}

/// The bytes of a textual value in a field.
pub open spec fn text_bytes(
    w: WrappedView,
    s: Seq<char>,
    enums: Map<Seq<char>, EnumTableView>,
) -> Result<Seq<u8>, ErrorView> {
    match w {
        WrappedView::Plain(ty) => plain_text_bytes(ty, s),
        WrappedView::Enumerated { inner, enum_name } => enum_name_bytes(
            inner,
            enum_name,
            s,
            enums,
        ),
    }
}

/// Appends an enumerator by its name.
fn encode_enum_name(
    out: &mut Vec<u8>,
    inner: FieldType,
    enum_name: &String,
    name: &str,
    enums: &OrderedMap<EnumTable>,
) -> (r: Result<(), ParseError>)
    ensures
        appended(
            old(out)@,
            final(out)@,
            r,
            enum_name_bytes(inner, enum_name@, name@, enum_views(enums@)),
        ),
{
    match enums.get(enum_name.as_str()) {
        None => Err(ParseError::UnknownEnumName(enum_name.clone())),
        Some(table) => match table.by_name.get(name) {
            None => Err(
                ParseError::UnknownEnumValue {
                    enum_name: enum_name.clone(),
                    value: copy_text(name),
                },
            ),
            Some(n) => encode_field_int(out, inner, *n as i64),
        },
    }
}

/// Appends a textual value.
pub fn encode_field_str(
    out: &mut Vec<u8>,
    wrapped: &WrappedField,
    value_str: &str,
    enums: &OrderedMap<EnumTable>,
) -> (r: Result<(), ParseError>)
    ensures
        appended(
            old(out)@,
            final(out)@,
            r,
            text_bytes(wrapped@, value_str@, enum_views(enums@)),
        ),
{
    match wrapped {
        WrappedField::Plain(ty) => match ty {
            FieldType::Byte
            | FieldType::U16
            | FieldType::U32
            | FieldType::I16
            | FieldType::I32 => match parse_i64(value_str) {
                None => Err(ParseError::MalformedField),
                Some(v) => match range_check(*ty, v) {
                    Err(e) => Err(e),
                    Ok(_) => {
                        let w: i64 = match ty {
                            FieldType::U32 => to_u32(v) as i64,
                            FieldType::I32 => to_i32(v) as i64,
                            _ => v,
                        };
                        encode_vlq(out, w)
                    },
                },
            },
            FieldType::String => push_counted(out, value_str.as_bytes(), "string len 0..=255"),
            FieldType::Buffer | FieldType::ProgmemBuffer => match parse_hex_buffer(value_str) {
                Err(e) => Err(e),
                Ok(b) => push_counted(out, b.as_slice(), "buffer len 0..=255"),
            },
        },
        WrappedField::Enumerated { inner, enum_name } => encode_enum_name(
            out,
            *inner,
            enum_name,
            value_str,
            enums,
        ),
    }
}

/// The bytes of a typed value in a field.
pub open spec fn typed_bytes(
    w: WrappedView,
    v: FieldValueView,
    enums: Map<Seq<char>, EnumTableView>,
) -> Result<Seq<u8>, ErrorView> {
    match w {
        WrappedView::Plain(ty) => field_value_bytes(ty, v),
        WrappedView::Enumerated { inner, enum_name } => match v {
            FieldValueView::EnumName(name) => enum_name_bytes(inner, enum_name, name, enums),
            FieldValueView::EnumIntOverride(i) => int_field_bytes(inner, i as int),
            _ => Err(ErrorView::MalformedField),
        },
    }
}

/// Appends a typed value.
pub fn encode_wrapped_field_typed<'a>(
    out: &mut Vec<u8>,
    wrapped: &WrappedField,
    value: &FieldValue<'a>,
    enums: &OrderedMap<EnumTable>,
) -> (r: Result<(), ParseError>)
    ensures
        appended(old(out)@, final(out)@, r, typed_bytes(wrapped@, value@, enum_views(enums@))),
{
    match wrapped {
        WrappedField::Plain(ty) => encode_field_value(out, *ty, value),
        WrappedField::Enumerated { inner, enum_name } => match value {
            FieldValue::EnumName(name) => encode_enum_name(out, *inner, enum_name, name, enums),
            FieldValue::EnumIntOverride(i) => encode_field_int(out, *inner, *i as i64),
            _ => Err(ParseError::MalformedField),
        },
    }
}

/// The value of a plain field at the start of `body`, and the count of bytes
/// it takes.
pub open spec fn plain_decoded(body: Seq<u8>, ty: FieldType) -> Result<
    (ValueView, int),
    ErrorView,
> {
    match ty {
        FieldType::U32 | FieldType::U16 | FieldType::Byte => match vlq_decoded(body) {
            Some(p) => Ok((ValueView::U32(low_u32(p.0) as u32), p.1)),
            None => Err(ErrorView::BadVlq),
        },
        FieldType::I32 | FieldType::I16 => match vlq_decoded(body) {
            Some(p) => Ok((ValueView::I32(low_i32(p.0) as i32), p.1)),
            None => Err(ErrorView::BadVlq),
        },
        FieldType::String | FieldType::Buffer | FieldType::ProgmemBuffer => if body.len() == 0
            || body.len() < 1 + body[0] {
            Err(ErrorView::Truncated)
        } else {
            Ok((ValueView::Bytes(body.subrange(1, 1 + body[0])), 1 + body[0]))
        },
    }
}

/// Reads a plain field: numbers as variable-length integers cut to 32 bits,
/// texts and buffers behind their length.
pub fn decode_field_plain(body: &[u8], ty: FieldType) -> (r: Result<
    (MessageValue, usize),
    ParseError,
>)
    ensures
        match r {
            Ok(p) => plain_decoded(body@, ty) == Ok::<_, ErrorView>((p.0@, p.1 as int)) && p.1
                <= body@.len(),
            Err(e) => plain_decoded(body@, ty) == Err::<(ValueView, int), _>(e@),
        },
{
    match ty {
        FieldType::U32 | FieldType::U16 | FieldType::Byte => match decode_vlq(body) {
            Ok(p) => Ok((MessageValue::U32(to_u32(p.0)), p.1)),
            Err(e) => Err(e),
        },
        FieldType::I32 | FieldType::I16 => match decode_vlq(body) {
            Ok(p) => Ok((MessageValue::I32(to_i32(p.0)), p.1)),
            Err(e) => Err(e),
        },
        FieldType::String | FieldType::Buffer | FieldType::ProgmemBuffer => {
            if body.len() == 0 {
                return Err(ParseError::Truncated);
            }
            let n: usize = body[0] as usize;
            if body.len() < 1 + n {
                return Err(ParseError::Truncated);
            }
            let data: &[u8] = vstd::slice::slice_subrange(body, 1, 1 + n);
            Ok((MessageValue::Bytes(vstd::slice::slice_to_vec(data)), 1 + n))
        },
    }
}

/// The value that a field of type `ty` gives back for a typed value.
pub open spec fn value_back(v: FieldValueView) -> ValueView {
    match v {
        FieldValueView::U32(n) => ValueView::U32(n),
        FieldValueView::U16(n) => ValueView::U32(n as u32),
        FieldValueView::Byte(n) => ValueView::U32(n as u32),
        FieldValueView::I32(n) => ValueView::I32(n),
        FieldValueView::I16(n) => ValueView::I32(n as i32),
        FieldValueView::String(s) => ValueView::Bytes(encode_utf8(s)),
        FieldValueView::Buffer(b) => ValueView::Bytes(b),
        FieldValueView::EnumName(s) => ValueView::String(s),
        FieldValueView::EnumIntOverride(n) => ValueView::I32(n),
    }
}

/// A number reads back as it was written.
proof fn lemma_number_back(n: int, rest: Seq<u8>)
    requires
        vlq_fits(n),
    ensures
        vlq_decoded(vlq_bytes(n) + rest) == Some((n, vlq_bytes(n).len() as int)),
        n >= 0 ==> low_u32(n) == n,
        n <= i32::MAX ==> low_i32(n) == n,
{
    law_vlq_round_trip(n, rest);
}

/// Counted bytes read back as they were written.
proof fn lemma_counted_back(t: Seq<u8>, rest: Seq<u8>)
    requires
        t.len() <= 255,
    ensures
        ({
            let b = seq![t.len() as u8] + t;
            &&& (b + rest).len() >= 1 + t.len()
            &&& (b + rest)[0] == t.len()
            &&& (b + rest).subrange(1, t.len() + 1int) == t
            &&& b.len() == t.len() + 1
        }),
{
    let b = seq![t.len() as u8] + t;
    assert((b + rest).subrange(1, t.len() + 1int) =~= t);
}

/// A plain field reads back as it was written, whatever follows, and takes
/// exactly the bytes that were written for it.
pub proof fn law_plain_field_round_trip(ty: FieldType, v: FieldValueView, rest: Seq<u8>)
    requires
        field_value_bytes(ty, v) is Ok,
    ensures
        plain_decoded(field_value_bytes(ty, v)->Ok_0 + rest, ty) == Ok::<_, ErrorView>(
            (value_back(v), field_value_bytes(ty, v)->Ok_0.len() as int),
        ),
{
    match v {
        FieldValueView::U32(n) => lemma_number_back(n as int, rest),
        FieldValueView::I32(n) => lemma_number_back(n as int, rest),
        FieldValueView::U16(n) => lemma_number_back(n as int, rest),
        FieldValueView::I16(n) => lemma_number_back(n as int, rest),
        FieldValueView::Byte(n) => lemma_number_back(n as int, rest),
        FieldValueView::String(s) => lemma_counted_back(encode_utf8(s), rest),
        FieldValueView::Buffer(t) => lemma_counted_back(t, rest),
        _ => {},
    }
}

} // verus!
