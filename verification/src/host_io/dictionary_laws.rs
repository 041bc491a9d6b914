//! What a dictionary promises, and which values a field takes.

use crate::host_io::codec::{hex_pair, plain_text_bytes, typed_bytes, FieldValueView};
use crate::host_io::decode::field_decoded;
use crate::host_io::enums::{first_enum, refers_to, wrapped, EnumTableView, WrappedView};
use crate::host_io::format::{hex_char, FieldType};
use crate::host_io::parse_error::ErrorView;
use crate::host_io::parser::{
    first_clash, first_name_clash, message_name, parser_of, tables_of, DictionaryView,
    DispatchView, FormatEntryView, Section,
};
use crate::host_io::vlq::{law_vlq_round_trip, vlq_bytes};
use crate::text::decimal_int;
use crate::text_laws::law_decimal_round_trip;
use crate::transport::ValueView;
use vstd::prelude::*;

verus! {

proof fn lemma_apart(es: Seq<FormatEntryView>, i: int, j: int)
    requires
        0 <= i < j < es.len(),
    ensures
        first_clash(es) is None ==> es[i].msgid != es[j].msgid && es[i].format != es[j].format,
        first_name_clash(es) is None && es[i].section != Section::Output && es[j].section
            != Section::Output ==> message_name(es[i].format) != message_name(es[j].format),
    decreases es.len(),
{
    let before = es.drop_last();
    if j < es.len() - 1 {
        lemma_apart(before, i, j);
    } else {
        assert(before[i] == es[i]);
    }
}

proof fn lemma_no_clash_at_all(es: Seq<FormatEntryView>)
    requires
        forall|i: int, j: int|
            0 <= i < j < es.len() ==> (#[trigger] es[i]).msgid != (#[trigger] es[j]).msgid
                && es[i].format != es[j].format && (es[i].section == Section::Output
                || es[j].section == Section::Output || message_name(es[i].format)
                != message_name(es[j].format)),
    ensures
        first_clash(es) is None,
        first_name_clash(es) is None,
    decreases es.len(),
{
    if es.len() > 0 {
        let before = es.drop_last();
        let last = es.len() - 1;
        assert forall|i: int, j: int| 0 <= i < j < before.len() implies (
        #[trigger] before[i]).msgid != (#[trigger] before[j]).msgid && before[i].format
            != before[j].format && (before[i].section == Section::Output || before[j].section
            == Section::Output || message_name(before[i].format) != message_name(
            before[j].format,
        )) by {
            assert(before[i] == es[i] && before[j] == es[j]);
        }
        lemma_no_clash_at_all(before);
        assert forall|i: int| 0 <= i < before.len() implies (#[trigger] before[i]).msgid
            != es.last().msgid && before[i].format != es.last().format && (before[i].section
            == Section::Output || es.last().section == Section::Output || message_name(
            before[i].format,
        ) != message_name(es.last().format)) by {
            assert(before[i] == es[i] && es[last] == es.last());
        }
    }
}

/// A dictionary is taken only if no two messages share a number or a format, and
/// no two commands or responses a name; and it is not refused for a clash
/// otherwise.
pub proof fn law_messages_are_told_apart(d: DictionaryView, i: int, j: int)
    requires
        0 <= i < j < d.formats.len(),
    ensures
        parser_of(d) is Ok ==> {
            &&& d.formats[i].msgid != d.formats[j].msgid
            &&& d.formats[i].format != d.formats[j].format
            &&& d.formats[i].section == Section::Output || d.formats[j].section == Section::Output
                || message_name(d.formats[i].format) != message_name(d.formats[j].format)
        },
        (forall|a: int, b: int|
            0 <= a < b < d.formats.len() ==> (#[trigger] d.formats[a]).msgid != (
            #[trigger] d.formats[b]).msgid && d.formats[a].format != d.formats[b].format && (
            d.formats[a].section == Section::Output || d.formats[b].section == Section::Output
                || message_name(d.formats[a].format) != message_name(d.formats[b].format)))
            ==> (parser_of(d) matches Err(e) ==> !(e is DuplicateMsgid) && !(
        e is DuplicateFormatString) && !(e is DuplicateMessageName) || tables_of(
            d.formats,
            d.enum_names,
        ) is Err),
{
    lemma_apart(d.formats, i, j);
    if forall|a: int, b: int|
        0 <= a < b < d.formats.len() ==> (#[trigger] d.formats[a]).msgid != (
        #[trigger] d.formats[b]).msgid && d.formats[a].format != d.formats[b].format && (
        d.formats[a].section == Section::Output || d.formats[b].section == Section::Output
            || message_name(d.formats[a].format) != message_name(d.formats[b].format)) {
        lemma_no_clash_at_all(d.formats);
    }
}

proof fn lemma_entered(es: Seq<FormatEntryView>, names: Seq<Seq<char>>, i: int)
    requires
        first_clash(es) is None,
        first_name_clash(es) is None,
        tables_of(es, names) is Ok,
        0 <= i < es.len(),
    ensures
        ({
            let t = tables_of(es, names)->Ok_0;
            &&& t.by_msgid.contains_key(es[i].msgid)
            &&& es[i].section == Section::Output <==> t.by_msgid[es[i].msgid] is Output
            &&& es[i].section != Section::Output ==> (t.by_msgid[es[i].msgid] matches
                DispatchView::Response { name, .. } && name == message_name(es[i].format))
            &&& es[i].section == Section::Command ==> t.by_command_name.contains_key(
                message_name(es[i].format),
            ) && t.by_command_name[message_name(es[i].format)].msgid == es[i].msgid
        }),
    decreases es.len(),
{
    let before = es.drop_last();
    if i < es.len() - 1 {
        lemma_entered(before, names, i);
        lemma_apart(es, i, es.len() - 1);
        assert(es[es.len() - 1] == es.last());
        assert(before[i] == es[i]);
    }
}

/// Every message of a dictionary is found under its number, as what it is:
/// commands and responses under their name, which is the first word of their
/// format. A command is found under its name with its number.
pub proof fn law_messages_are_found(d: DictionaryView, i: int)
    requires
        parser_of(d) is Ok,
        0 <= i < d.formats.len(),
    ensures
        ({
            let p = parser_of(d)->Ok_0;
            let e = d.formats[i];
            &&& p.by_msgid.contains_key(e.msgid)
            &&& e.section == Section::Output <==> p.by_msgid[e.msgid] is Output
            &&& e.section != Section::Output ==> (p.by_msgid[e.msgid] matches
                DispatchView::Response { name, .. } && name == message_name(e.format))
            &&& e.section == Section::Command ==> p.by_command_name.contains_key(
                message_name(e.format),
            ) && p.by_command_name[message_name(e.format)].msgid == e.msgid
            &&& p.config == d.config && p.version == d.version
        }),
{
    lemma_entered(d.formats, d.enum_names, i);
}

/// A field takes the enumeration whose name it has, whole or behind an
/// underscore; a field with another name takes none.
pub proof fn law_field_takes_enumeration(head: Seq<char>, name: Seq<char>, ty: FieldType)
    ensures
        wrapped(name, ty, seq![name]) == (WrappedView::Enumerated { inner: ty, enum_name: name }),
        wrapped(head + (seq!['_'] + name), ty, seq![name]) == (WrappedView::Enumerated {
            inner: ty,
            enum_name: name,
        }),
        wrapped(name, ty, Seq::empty()) == WrappedView::Plain(ty),
        head.len() > 0 && head.last() != '_' ==> wrapped(head + name, ty, seq![name])
            == WrappedView::Plain(ty),
{
    let names = seq![name];
    let tail = seq!['_'] + name;
    assert(names.drop_last() =~= Seq::<Seq<char>>::empty());
    assert(names.last() == name);
    let s = head + tail;
    assert(s.skip(s.len() - tail.len()) =~= tail);
    assert(first_enum(name, names.drop_last()) is None);
    assert(first_enum(s, names.drop_last()) is None);
    assert(refers_to(s, name));
    if head.len() > 0 && head.last() != '_' {
        let t = head + name;
        assert(t.len() != name.len());
        let end = t.skip(t.len() - tail.len());
        assert(end[0] == head.last());
        assert(tail[0] == '_');
        assert(!refers_to(t, name));
        assert(first_enum(t, names.drop_last()) is None);
    }
}

/// An enumerator goes over the wire as its number and comes back as its name; a
/// number without a name comes back behind a question mark.
pub proof fn law_enumerator_by_number(
    enums: Map<Seq<char>, EnumTableView>,
    e: Seq<char>,
    name: Seq<char>,
    n: i32,
    rest: Seq<u8>,
)
    requires
        enums.contains_key(e),
    ensures
        ({
            let w = WrappedView::Enumerated { inner: FieldType::I32, enum_name: e };
            let t = enums[e];
            &&& t.by_name.contains_key(name) && t.by_name[name] == n ==> typed_bytes(
                w,
                FieldValueView::EnumName(name),
                enums,
            ) == Ok::<_, ErrorView>(vlq_bytes(n as int))
            &&& typed_bytes(w, FieldValueView::EnumIntOverride(n), enums) == Ok::<_, ErrorView>(
                vlq_bytes(n as int),
            )
            &&& field_decoded(vlq_bytes(n as int) + rest, w, enums) == Ok::<_, ErrorView>(
                (
                    ValueView::String(
                        if t.by_int.contains_key(n) {
                            t.by_int[n]
                        } else {
                            seq!['?'] + decimal_int(n as int)
                        },
                    ),
                    vlq_bytes(n as int).len() as int,
                ),
            )
        }),
{
    law_vlq_round_trip(n as int, rest);
}

/// A number in words is taken by a field if it is within the field's type, where
/// the type has 8 or 16 bits; a byte may also be written as a signed one. Wider
/// fields take the low 32 bits of any number of 64.
pub proof fn law_fields_take_their_range(v: i64)
    ensures
        plain_text_bytes(FieldType::Byte, decimal_int(v as int)) is Ok <==> -128 <= v <= 255,
        plain_text_bytes(FieldType::U16, decimal_int(v as int)) is Ok <==> 0 <= v <= 65535,
        plain_text_bytes(FieldType::I16, decimal_int(v as int)) is Ok <==> -32768 <= v <= 32767,
        plain_text_bytes(FieldType::U32, decimal_int(v as int)) == Ok::<_, ErrorView>(
            vlq_bytes(v as int % 0x1_0000_0000),
        ),
        i32::MIN <= v <= i32::MAX ==> plain_text_bytes(FieldType::I32, decimal_int(v as int))
            == Ok::<_, ErrorView>(vlq_bytes(v as int)),
        -128 <= v <= 255 ==> plain_text_bytes(FieldType::Byte, decimal_int(v as int)) == Ok::<
            _,
            ErrorView,
        >(vlq_bytes(v as int)),
{
    law_decimal_round_trip(v as int);
}

/// Two digits to the base sixteen, large or small, are a byte: the first counts
/// sixteen times as much.
pub proof fn law_hex_digits(h: u8, l: u8)
    requires
        h < 16,
        l < 16,
    ensures
        hex_pair(hex_char(h as int) as u8, hex_char(l as int) as u8) == Some((16 * h + l) as u8),
        10 <= h && 10 <= l ==> hex_pair((55 + h) as u8, (55 + l) as u8) == Some(
            (16 * h + l) as u8,
        ),
        h < 10 ==> hex_char(h as int) == (0x30 + h) as char,
        h >= 10 ==> hex_char(h as int) == (0x57 + h) as char,
{
}

/// A number in words that does not fit 64 bits is no number for any field.
pub proof fn law_numbers_beyond_64_bits(v: int, ty: FieldType)
    requires
        v < i64::MIN || v > i64::MAX,
        ty == FieldType::U32 || ty == FieldType::I32 || ty == FieldType::U16 || ty == FieldType::I16
            || ty == FieldType::Byte,
    ensures
        plain_text_bytes(ty, decimal_int(v)) == Err::<Seq<u8>, _>(ErrorView::MalformedField),
{
    law_decimal_round_trip(v);
}

} // verus!
