//! What encoding and decoding promise of each other.

use crate::host_io::codec::{
    cut_to_type, hex_text, in_type_range, int_field_bytes, is_int_type, law_plain_field_round_trip,
    plain_decoded, text_bytes, typed_bytes, value_back, FieldValueView,
};
use crate::host_io::decode::{
    enumerator_text, field_decoded, message_decoded, params_of, response_decoded, value_number,
    values_decoded, DecodedView,
};
use crate::host_io::encode::{command_bytes, fields_bytes, input_bytes, named_bytes, InputView};
use crate::host_io::enums::{
    first_enum, low_i32, low_u32, wrapped_fields, EnumTableView, WrappedView,
};
use crate::host_io::format::{parsed_format, FieldType};
use crate::host_io::parse_error::ErrorView;
use crate::host_io::parser::{
    first, first_clash, parser_of, second, tables_of, DictionaryView, DispatchView, FormatEntryView,
    OutboundView, ParserView, Section, TablesView,
};
use crate::host_io::vlq::{law_vlq_round_trip, vlq_bytes, vlq_decoded, vlq_fits};
use crate::text::parsed_int;
use crate::transport::{ParamsView, ValueView};
use vstd::prelude::*;
use vstd::utf8::encode_utf8;

verus! {

/// The value that reading a number field gives for the number written.
pub open spec fn number_back(ty: FieldType, n: int) -> ValueView {
    match ty {
        FieldType::I32 | FieldType::I16 => ValueView::I32(low_i32(n) as i32),
        _ => ValueView::U32(low_u32(n) as u32),
    }
}

/// The number of the enumerator that is given for an enumerated field.
pub open spec fn enumerator_number(
    enum_name: Seq<char>,
    v: InputView,
    enums: Map<Seq<char>, EnumTableView>,
) -> i32 {
    match v {
        InputView::Text(s) => enums[enum_name].by_name[s],
        InputView::Typed(FieldValueView::EnumName(s)) => enums[enum_name].by_name[s],
        InputView::Typed(FieldValueView::EnumIntOverride(i)) => i,
        _ => arbitrary(),
    }
}

/// The value that reading gives back for the value that was given.
pub open spec fn input_back(
    w: WrappedView,
    v: InputView,
    enums: Map<Seq<char>, EnumTableView>,
) -> ValueView {
    match w {
        WrappedView::Plain(ty) => match v {
            InputView::Typed(t) => value_back(t),
            InputView::Text(s) => if is_int_type(ty) {
                number_back(ty, cut_to_type(ty, parsed_int(s)->0))
            } else if ty == FieldType::String {
                ValueView::Bytes(encode_utf8(s))
            } else {
                ValueView::Bytes(hex_text(s)->Ok_0)
            },
        },
        WrappedView::Enumerated { inner, enum_name } => ValueView::String(
            enumerator_text(enums[enum_name], enumerator_number(enum_name, v, enums)),
        ),
    }
}

/// Whether a field's enumeration, if it has one, is known.
pub open spec fn known(w: WrappedView, enums: Map<Seq<char>, EnumTableView>) -> bool {
    match w {
        WrappedView::Plain(_) => true,
        WrappedView::Enumerated { enum_name, .. } => enums.contains_key(enum_name),
    }
}

proof fn lemma_number_read(ty: FieldType, n: int, rest: Seq<u8>)
    requires
        is_int_type(ty),
        vlq_fits(n),
    ensures
        plain_decoded(vlq_bytes(n) + rest, ty) == Ok::<_, ErrorView>(
            (number_back(ty, n), vlq_bytes(n).len() as int),
        ),
        i32::MIN <= n <= i32::MAX ==> value_number(number_back(ty, n)) == Some(n as i32),
{
    law_vlq_round_trip(n, rest);
}

/// A field reads back the value that was given for it, whatever follows, and
/// takes exactly the bytes that were written. An enumerator reads back as the
/// name that its number has.
pub proof fn law_field_round_trip(
    w: WrappedView,
    v: InputView,
    enums: Map<Seq<char>, EnumTableView>,
    rest: Seq<u8>,
)
    requires
        known(w, enums),
        input_bytes(w, v, enums) is Ok,
    ensures
        field_decoded(input_bytes(w, v, enums)->Ok_0 + rest, w, enums) == Ok::<_, ErrorView>(
            (input_back(w, v, enums), input_bytes(w, v, enums)->Ok_0.len() as int),
        ),
{
    match w {
        WrappedView::Plain(ty) => match v {
            InputView::Typed(t) => law_plain_field_round_trip(ty, t, rest),
            InputView::Text(s) => if is_int_type(ty) {
                lemma_number_read(ty, cut_to_type(ty, parsed_int(s)->0), rest);
            } else if ty == FieldType::String {
                law_plain_field_round_trip(ty, FieldValueView::String(s), rest);
            } else {
                law_plain_field_round_trip(ty, FieldValueView::Buffer(hex_text(s)->Ok_0), rest);
            },
        },
        WrappedView::Enumerated { inner, enum_name } => {
            let n = enumerator_number(enum_name, v, enums) as int;
            assert(input_bytes(w, v, enums) == int_field_bytes(inner, n));
            lemma_number_read(inner, n, rest);
        },
    }
}

/// The values that reading gives back for the values that were given.
pub open spec fn inputs_back(
    fields: Seq<(Seq<char>, WrappedView)>,
    inputs: Map<Seq<char>, InputView>,
    enums: Map<Seq<char>, EnumTableView>,
) -> Seq<ValueView> {
    Seq::new(fields.len(), |i: int| input_back(fields[i].1, inputs[fields[i].0], enums))
}

/// Fields read back the values that were given for them, whatever follows.
pub proof fn law_fields_round_trip(
    fields: Seq<(Seq<char>, WrappedView)>,
    inputs: Map<Seq<char>, InputView>,
    enums: Map<Seq<char>, EnumTableView>,
    rest: Seq<u8>,
)
    requires
        forall|i: int| 0 <= i < fields.len() ==> known((#[trigger] fields[i]).1, enums),
        fields_bytes(fields, inputs, enums) is Ok,
    ensures
        values_decoded(fields_bytes(fields, inputs, enums)->Ok_0 + rest, second(fields), enums)
            == Ok::<_, ErrorView>(
            (
                inputs_back(fields, inputs, enums),
                fields_bytes(fields, inputs, enums)->Ok_0.len() as int,
            ),
        ),
    decreases fields.len(),
{
    if fields.len() == 0 {
        assert(inputs_back(fields, inputs, enums) =~= Seq::<ValueView>::empty());
    } else {
        let before = fields.drop_last();
        let b = fields_bytes(before, inputs, enums)->Ok_0;
        let (name, w) = fields.last();
        let c = input_bytes(w, inputs[name], enums)->Ok_0;
        assert forall|i: int| 0 <= i < before.len() implies known(
            (#[trigger] before[i]).1,
            enums,
        ) by {
            assert(fields[i] == before[i]);
        }
        law_fields_round_trip(before, inputs, enums, c + rest);
        assert(known(fields[fields.len() - 1].1, enums));
        law_field_round_trip(w, inputs[name], enums, rest);
        let body = b + c + rest;
        assert(b + (c + rest) =~= body);
        assert(body.skip(b.len() as int) =~= c + rest);
        assert(second(fields).drop_last() =~= second(before));
        assert(inputs_back(fields, inputs, enums) =~= inputs_back(before, inputs, enums).push(
            input_back(w, inputs[name], enums),
        ));
    }
}

/// Numbers and formats of a dictionary without a clash are distinct.
proof fn lemma_no_clash(es: Seq<FormatEntryView>, i: int, j: int)
    requires
        first_clash(es) is None,
        0 <= i < j < es.len(),
    ensures
        es[i].msgid != es[j].msgid,
    decreases es.len(),
{
    let before = es.drop_last();
    if j < es.len() - 1 {
        lemma_no_clash(before, i, j);
    } else {
        assert(before[i] == es[i]);
    }
}

proof fn lemma_no_clash_prefix(es: Seq<FormatEntryView>)
    requires
        first_clash(es) is None,
        es.len() > 0,
    ensures
        first_clash(es.drop_last()) is None,
{
}

/// An enumeration that a field refers to is one of the dictionary's.
proof fn lemma_first_enum_listed(field: Seq<char>, names: Seq<Seq<char>>)
    ensures
        match first_enum(field, names) {
            Some(n) => names.contains(n),
            None => true,
        },
    decreases names.len(),
{
    if names.len() > 0 {
        lemma_first_enum_listed(field, names.drop_last());
        match first_enum(field, names) {
            Some(n) => {
                if names.drop_last().contains(n) {
                    let i = names.drop_last().index_of(n);
                    assert(names[i] == n);
                } else {
                    assert(names[names.len() - 1] == n);
                }
            },
            None => {},
        }
    }
}

/// Whether a command can be read back through its number.
pub open spec fn readable(t: TablesView, name: Seq<char>, names: Seq<Seq<char>>) -> bool {
    let c = t.by_command_name[name];
    &&& t.by_msgid.contains_key(c.msgid)
    &&& t.by_msgid[c.msgid] == DispatchView::Response { name, fields: c.fields }
    &&& forall|i: int|
        0 <= i < c.fields.len() ==> match (#[trigger] c.fields[i]).1 {
            WrappedView::Plain(_) => true,
            WrappedView::Enumerated { enum_name, .. } => names.contains(enum_name),
        }
}

proof fn lemma_tables_listed(es: Seq<FormatEntryView>, names: Seq<Seq<char>>, k: i32)
    requires
        tables_of(es, names) is Ok,
    ensures
        tables_of(es, names)->Ok_0.by_msgid.contains_key(k) ==> exists|i: int|
            0 <= i < es.len() && (#[trigger] es[i]).msgid == k,
    decreases es.len(),
{
    if es.len() > 0 {
        lemma_tables_listed(es.drop_last(), names, k);
        if tables_of(es, names)->Ok_0.by_msgid.contains_key(k) {
            if es.last().msgid == k {
                assert(es[es.len() - 1].msgid == k);
            } else {
                let i = choose|i: int|
                    0 <= i < es.drop_last().len() && (#[trigger] es.drop_last()[i]).msgid == k;
                assert(es[i].msgid == k);
            }
        }
    }
}

proof fn lemma_tables_readable(es: Seq<FormatEntryView>, names: Seq<Seq<char>>, name: Seq<char>)
    requires
        first_clash(es) is None,
        tables_of(es, names) is Ok,
        tables_of(es, names)->Ok_0.by_command_name.contains_key(name),
    ensures
        readable(tables_of(es, names)->Ok_0, name, names),
    decreases es.len(),
{
    if es.len() > 0 {
        let before = es.drop_last();
        let e = es.last();
        let t = tables_of(before, names)->Ok_0;
        let u = tables_of(es, names)->Ok_0;
        lemma_no_clash_prefix(es);
        if e.section == Section::Command && parsed_format(e.format)->Ok_0.0 == name {
            let fields = parsed_format(e.format)->Ok_0.1;
            let c = u.by_command_name[name];
            assert(c.fields == wrapped_fields(fields, names));
            assert forall|i: int| 0 <= i < c.fields.len() implies match (#[trigger] c.fields[i]).1 {
                WrappedView::Plain(_) => true,
                WrappedView::Enumerated { enum_name, .. } => names.contains(enum_name),
            } by {
                lemma_first_enum_listed(fields[i].0, names);
            }
        } else {
            assert(t.by_command_name.contains_key(name));
            assert(u.by_command_name[name] == t.by_command_name[name]);
            lemma_tables_readable(before, names, name);
            let k = t.by_command_name[name].msgid;
            lemma_tables_listed(before, names, k);
            let i = choose|i: int| 0 <= i < before.len() && (#[trigger] before[i]).msgid == k;
            assert(es[i].msgid == k);
            lemma_no_clash(es, i, es.len() - 1);
        }
    }
}

/// A message is read through its number.
pub(crate) proof fn lemma_message_read(
    p: ParserView,
    name: Seq<char>,
    fields: Seq<(Seq<char>, WrappedView)>,
    msgid: i32,
    body: Seq<u8>,
    n: int,
    params: ParamsView,
)
    requires
        p.by_msgid.contains_key(msgid),
        p.by_msgid[msgid] == (DispatchView::Response { name, fields }),
        vlq_decoded(body) == Some((msgid as int, n)),
        response_decoded(body.skip(n), fields, p.enumerations) == Ok::<_, ErrorView>(params),
    ensures
        message_decoded(p, body) == Ok::<_, ErrorView>(DecodedView::Response { name, params }),
{
    assert(low_i32(msgid as int) == msgid);
}

/// A command reads back where its number leads to its own fields.
#[verifier::spinoff_prover]
proof fn lemma_command_read(
    p: ParserView,
    name: Seq<char>,
    c: OutboundView,
    inputs: Map<Seq<char>, InputView>,
)
    requires
        p.by_msgid.contains_key(c.msgid),
        p.by_msgid[c.msgid] == (DispatchView::Response { name, fields: c.fields }),
        forall|i: int|
            0 <= i < c.fields.len() ==> known((#[trigger] c.fields[i]).1, p.enumerations),
        command_bytes(c, inputs, p.enumerations) is Ok,
    ensures
        message_decoded(p, command_bytes(c, inputs, p.enumerations)->Ok_0) == Ok::<_, ErrorView>(
            DecodedView::Response {
                name,
                params: params_of(
                    first(c.fields),
                    inputs_back(c.fields, inputs, p.enumerations),
                ),
            },
        ),
{
    let b = fields_bytes(c.fields, inputs, p.enumerations)->Ok_0;
    let head = vlq_bytes(c.msgid as int);
    let params = params_of(first(c.fields), inputs_back(c.fields, inputs, p.enumerations));
    assert(response_decoded(b, c.fields, p.enumerations) == Ok::<_, ErrorView>(params)) by {
        law_fields_round_trip(c.fields, inputs, p.enumerations, Seq::empty());
        assert(b + Seq::<u8>::empty() =~= b);
    }
    law_vlq_round_trip(c.msgid as int, b);
    assert((head + b).skip(head.len() as int) =~= b);
    lemma_message_read(p, name, c.fields, c.msgid, head + b, head.len() as int, params);
}

/// A command that a parser encodes, the same parser decodes: to the command's
/// name, and under each field's name to the value that was given for it.
#[verifier::spinoff_prover]
pub proof fn law_command_round_trip(
    d: DictionaryView,
    name: Seq<char>,
    inputs: Map<Seq<char>, InputView>,
)
    requires
        parser_of(d) is Ok,
        forall|i: int|
            0 <= i < d.enum_names.len() ==> d.enum_tables.contains_key(
                #[trigger] d.enum_names[i],
            ),
        named_bytes(parser_of(d)->Ok_0, name, inputs) is Ok,
    ensures
        ({
            let p = parser_of(d)->Ok_0;
            let fields = p.by_command_name[name].fields;
            message_decoded(p, named_bytes(p, name, inputs)->Ok_0) == Ok::<_, ErrorView>(
                DecodedView::Response {
                    name,
                    params: params_of(
                        first(fields),
                        inputs_back(fields, inputs, p.enumerations),
                    ),
                },
            )
        }),
{
    let p = parser_of(d)->Ok_0;
    let t = tables_of(d.formats, d.enum_names)->Ok_0;
    let c = p.by_command_name[name];
    lemma_tables_readable(d.formats, d.enum_names, name);
    assert(readable(t, name, d.enum_names));
    assert forall|i: int| 0 <= i < c.fields.len() implies known(
        (#[trigger] c.fields[i]).1,
        p.enumerations,
    ) by {
        match c.fields[i].1 {
            WrappedView::Plain(_) => {},
            WrappedView::Enumerated { enum_name, .. } => {
                let j = d.enum_names.index_of(enum_name);
                assert(d.enum_names[j] == enum_name);
            },
        }
    }
    lemma_command_read(p, name, c, inputs);
}

/// Whether a text spells a typed value.
pub open spec fn spells(s: Seq<char>, v: FieldValueView) -> bool {
    match v {
        FieldValueView::U32(n) => parsed_int(s) == Some(n as int),
        FieldValueView::I32(n) => parsed_int(s) == Some(n as int),
        FieldValueView::U16(n) => parsed_int(s) == Some(n as int),
        FieldValueView::I16(n) => parsed_int(s) == Some(n as int),
        FieldValueView::Byte(n) => parsed_int(s) == Some(n as int),
        FieldValueView::String(t) => s == t,
        FieldValueView::Buffer(b) => hex_text(s) == Ok::<_, ErrorView>(b),
        FieldValueView::EnumName(t) => s == t,
        FieldValueView::EnumIntOverride(_) => false,
    }
}

/// A text and the typed value that it spells are encoded alike, wherever the
/// value has the field's type.
pub proof fn law_text_and_typed_agree(
    w: WrappedView,
    s: Seq<char>,
    v: FieldValueView,
    enums: Map<Seq<char>, EnumTableView>,
)
    requires
        spells(s, v),
        typed_bytes(w, v, enums) is Ok,
    ensures
        text_bytes(w, s, enums) == typed_bytes(w, v, enums),
{
    match w {
        WrappedView::Plain(ty) => {
            if is_int_type(ty) {
                assert(in_type_range(ty, parsed_int(s)->0));
                assert(cut_to_type(ty, parsed_int(s)->0) == parsed_int(s)->0);
            }
        },
        _ => {},
    }
}

} // verus!
