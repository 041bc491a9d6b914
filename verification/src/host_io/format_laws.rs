//! What the formats of a dictionary say of the messages that go over the wire.

use crate::host_io::codec::{field_value_bytes, plain_decoded, FieldValueView};
use crate::host_io::decode::{
    message_decoded, params_of, response_decoded, values_decoded, DecodedView,
};
use crate::host_io::encode::{fields_bytes, line_args, line_bytes, InputView};
use crate::host_io::enums::{
    first_enum, low_i32, table_of, with_range, wrapped_fields, EnumTableView, EnumValue,
    WrappedView,
};
use crate::host_io::format::{fields_of, format_code, parsed_format, FieldType};
use crate::host_io::laws::lemma_message_read;
use crate::host_io::parse_error::ErrorView;
use crate::host_io::parser::{
    first, first_clash, parser_of, second, tables_of, DictionaryView, DispatchView, FormatEntryView,
    OutboundView, ParserView, Section,
};
use crate::host_io::vlq::{law_vlq_round_trip, vlq_bytes, vlq_decoded, vlq_end, vlq_fits, vlq_value};
use crate::text::{decimal_int, parted, words};
use crate::text_laws::{
    is_word, law_decimal_round_trip, law_numbered_name, law_parted, law_words,
};
use crate::transport::ValueView;
use vstd::prelude::*;

verus! {

/// A power of 128.
pub open spec fn power_128(n: nat) -> int
    decreases n,
{
    if n == 0 {
        1
    } else {
        128 * power_128((n - 1) as nat)
    }
}

/// The number whose digits to the base 128 are the low seven bits of some
/// bytes, the highest first.
pub open spec fn base_128(s: Seq<u8>) -> int
    decreases s.len(),
{
    if s.len() == 0 {
        0
    } else {
        (s[0] % 128) * power_128((s.len() - 1) as nat) + base_128(s.skip(1))
    }
}

proof fn lemma_base_128_push(s: Seq<u8>, b: u8)
    ensures
        base_128(s.push(b)) == 128 * base_128(s) + b % 128,
    decreases s.len(),
{
    let t = s.push(b);
    if s.len() == 0 {
        assert(t.skip(1) =~= Seq::<u8>::empty());
        assert(base_128(t.skip(1)) == 0);
        assert(power_128(0) == 1);
        assert((b % 128) * 1 == b % 128) by (nonlinear_arith);
    } else {
        assert(t.skip(1) =~= s.skip(1).push(b));
        lemma_base_128_push(s.skip(1), b);
        let d = (s[0] % 128) as int;
        let p = power_128((s.len() - 1) as nat);
        assert(power_128(s.len()) == 128 * p);
        assert(d * (128 * p) == 128 * (d * p)) by (nonlinear_arith);
    }
}

proof fn lemma_vlq_is_base_128(s: Seq<u8>)
    requires
        s.len() > 0,
    ensures
        vlq_value(s) == base_128(s) - if s[0] % 128 >= 96 {
            power_128(s.len())
        } else {
            0
        },
        1 <= power_128(s.len()),
    decreases s.len(),
{
    if s.len() == 1 {
        assert(s =~= Seq::<u8>::empty().push(s[0]));
        lemma_base_128_push(Seq::empty(), s[0]);
        reveal_with_fuel(power_128, 2);
    } else {
        let t = s.drop_last();
        lemma_vlq_is_base_128(t);
        assert(s =~= t.push(s.last()));
        lemma_base_128_push(t, s.last());
        assert(t[0] == s[0]);
    }
}

/// What bytes of a number say: seven bits each, the highest first; the number
/// ends with the first byte below 128; and it is negative where the first byte
/// holds 96 or more in its seven bits.
pub proof fn law_number_is_base_128(s: Seq<u8>, n: int)
    requires
        1 <= n <= 5,
        n <= s.len(),
        forall|i: int| 0 <= i < n - 1 ==> #[trigger] s[i] >= 128,
        s[n - 1] < 128,
    ensures
        vlq_decoded(s) == Some(
            (
                base_128(s.take(n)) - if s[0] % 128 >= 96 {
                    power_128(n as nat)
                } else {
                    0
                },
                n,
            ),
        ),
{
    reveal_with_fuel(vlq_end, 6);
    assert(vlq_end(s, 0) == Some(n));
    lemma_vlq_is_base_128(s.take(n));
}

proof fn lemma_vlq_range(s: Seq<u8>)
    requires
        1 <= s.len() <= 4,
    ensures
        s.len() == 1 ==> -0x20 <= vlq_value(s) < 0x60,
        s.len() == 2 ==> -0x1000 <= vlq_value(s) < 0x3000,
        s.len() == 3 ==> -0x8_0000 <= vlq_value(s) < 0x18_0000,
        s.len() == 4 ==> -0x400_0000 <= vlq_value(s) < 0xC00_0000,
    decreases s.len(),
{
    if s.len() > 1 {
        lemma_vlq_range(s.drop_last());
    }
}

/// A number is written in as few bytes as any that read back as it.
pub proof fn law_number_is_shortest(v: int, s: Seq<u8>)
    requires
        vlq_fits(v),
        vlq_decoded(s) matches Some(p) && p.0 == v,
    ensures
        vlq_bytes(v).len() <= (vlq_decoded(s)->0).1,
        1 <= vlq_bytes(v).len() <= 5,
{
    reveal_with_fuel(vlq_end, 6);
    let n = (vlq_decoded(s)->0).1;
    if n <= 4 {
        lemma_vlq_range(s.take(n));
    }
}

/// The format of a message with one field.
pub open spec fn one_field(m: Seq<char>, a: Seq<char>, code: Seq<char>) -> Seq<char> {
    m.push(' ') + (a.push('=') + code)
}

pub(crate) proof fn lemma_one_field(m: Seq<char>, a: Seq<char>, code: Seq<char>)
    requires
        is_word(m),
        is_word(a),
        is_word(code),
        !a.contains('='),
    ensures
        words(one_field(m, a, code)) == seq![m, a.push('=') + code],
        parted(a.push('=') + code, '=') == Some((a, code)),
{
    let w = a.push('=') + code;
    assert forall|i: int| 0 <= i < w.len() implies !crate::text::is_white(#[trigger] w[i]) by {
        if i < a.len() {
            assert(w[i] == a[i]);
        } else if i > a.len() {
            assert(w[i] == code[i - a.len() - 1]);
        }
    }
    law_words(m, ' ', w);
    law_words(Seq::empty(), ' ', m);
    assert(seq![m].push(w) =~= seq![m, w]);
    law_parted(a, '=', code);
}

pub(crate) proof fn lemma_codes()
    ensures
        format_code("%u"@) == Some(FieldType::U32),
        format_code("%i"@) == Some(FieldType::I32),
        format_code("%hu"@) == Some(FieldType::U16),
        format_code("%hi"@) == Some(FieldType::I16),
        format_code("%c"@) == Some(FieldType::Byte),
        format_code("%s"@) == Some(FieldType::String),
        format_code("%*s"@) == Some(FieldType::Buffer),
        format_code("%.*s"@) == Some(FieldType::ProgmemBuffer),
        is_word("%u"@),
        is_word("%i"@),
        is_word("%hu"@),
        is_word("%hi"@),
        is_word("%c"@),
        is_word("%s"@),
        is_word("%*s"@),
        is_word("%.*s"@),
{
    reveal_strlit("%u");
    reveal_strlit("%i");
    reveal_strlit("%hu");
    reveal_strlit("%hi");
    reveal_strlit("%c");
    reveal_strlit("%s");
    reveal_strlit("%*s");
    reveal_strlit("%.*s");
    assert("%u"@ =~= seq!['%', 'u']);
    assert("%i"@ =~= seq!['%', 'i']);
    assert("%hu"@ =~= seq!['%', 'h', 'u']);
    assert("%hi"@ =~= seq!['%', 'h', 'i']);
    assert("%c"@ =~= seq!['%', 'c']);
    assert("%s"@ =~= seq!['%', 's']);
    assert("%*s"@ =~= seq!['%', '*', 's']);
    assert("%.*s"@ =~= seq!['%', '.', '*', 's']);
    let u = seq!['%', 'u'];
    let i = seq!['%', 'i'];
    let c = seq!['%', 'c'];
    let s = seq!['%', 's'];
    let hu = seq!['%', 'h', 'u'];
    let hi = seq!['%', 'h', 'i'];
    let b = seq!['%', '*', 's'];
    let p = seq!['%', '.', '*', 's'];
    assert(u[1] == 'u' && i[1] == 'i' && c[1] == 'c' && s[1] == 's');
    assert(hu[1] == 'h' && hu[2] == 'u' && hi[1] == 'h' && hi[2] == 'i' && b[1] == '*');
    assert(u.len() == 2 && i.len() == 2 && c.len() == 2 && s.len() == 2);
    assert(hu.len() == 3 && hi.len() == 3 && b.len() == 3 && p.len() == 4);
}

/// The format of a message with one field, under any names, is read as the
/// message's name and the field's name with the type of its code.
pub proof fn law_codes_name_types(m: Seq<char>, a: Seq<char>)
    requires
        is_word(m),
        is_word(a),
        !a.contains('='),
    ensures
        parsed_format(one_field(m, a, "%u"@)) == Ok::<_, ErrorView>((m, seq![(a, FieldType::U32)])),
        parsed_format(one_field(m, a, "%i"@)) == Ok::<_, ErrorView>((m, seq![(a, FieldType::I32)])),
        parsed_format(one_field(m, a, "%hu"@)) == Ok::<_, ErrorView>((m, seq![(a, FieldType::U16)])),
        parsed_format(one_field(m, a, "%hi"@)) == Ok::<_, ErrorView>((m, seq![(a, FieldType::I16)])),
        parsed_format(one_field(m, a, "%c"@)) == Ok::<_, ErrorView>((m, seq![(a, FieldType::Byte)])),
        parsed_format(one_field(m, a, "%s"@)) == Ok::<_, ErrorView>(
            (m, seq![(a, FieldType::String)]),
        ),
        parsed_format(one_field(m, a, "%*s"@)) == Ok::<_, ErrorView>(
            (m, seq![(a, FieldType::Buffer)]),
        ),
        parsed_format(one_field(m, a, "%.*s"@)) == Ok::<_, ErrorView>(
            (m, seq![(a, FieldType::ProgmemBuffer)]),
        ),
{
    lemma_codes();
    lemma_field_type(m, a, "%u"@, FieldType::U32);
    lemma_field_type(m, a, "%i"@, FieldType::I32);
    lemma_field_type(m, a, "%hu"@, FieldType::U16);
    lemma_field_type(m, a, "%hi"@, FieldType::I16);
    lemma_field_type(m, a, "%c"@, FieldType::Byte);
    lemma_field_type(m, a, "%s"@, FieldType::String);
    lemma_field_type(m, a, "%*s"@, FieldType::Buffer);
    lemma_field_type(m, a, "%.*s"@, FieldType::ProgmemBuffer);
}

#[verifier::spinoff_prover]
pub(crate) proof fn lemma_field_type(m: Seq<char>, a: Seq<char>, code: Seq<char>, ty: FieldType)
    requires
        is_word(m),
        is_word(a),
        is_word(code),
        !a.contains('='),
        format_code(code) == Some(ty),
    ensures
        parsed_format(one_field(m, a, code)) == Ok::<_, ErrorView>((m, seq![(a, ty)])),
{
    lemma_one_field(m, a, code);
    let w = a.push('=') + code;
    let ws = seq![m, w];
    assert(ws.skip(1) =~= seq![w]);
    assert(seq![w].drop_last() =~= Seq::<Seq<char>>::empty());
    assert(fields_of(Seq::<Seq<char>>::empty()) == Ok::<Seq<(Seq<char>, FieldType)>, ErrorView>(
        Seq::empty(),
    ));
    assert(Seq::<(Seq<char>, FieldType)>::empty().push((a, ty)) =~= seq![(a, ty)]);
}

/// A signed field gives the number that was sent, with its sign; an unsigned
/// one gives it without; each takes just the bytes of the number.
pub proof fn law_number_fields(n: int, rest: Seq<u8>)
    ensures
        i32::MIN <= n <= i32::MAX ==> plain_decoded(
            vlq_bytes(n) + rest,
            format_code("%i"@)->0,
        ) == Ok::<_, ErrorView>((ValueView::I32(n as i32), vlq_bytes(n).len() as int)),
        i16::MIN <= n <= i16::MAX ==> plain_decoded(
            vlq_bytes(n) + rest,
            format_code("%hi"@)->0,
        ) == Ok::<_, ErrorView>((ValueView::I32(n as i32), vlq_bytes(n).len() as int)),
        0 <= n <= u32::MAX ==> plain_decoded(
            vlq_bytes(n) + rest,
            format_code("%u"@)->0,
        ) == Ok::<_, ErrorView>((ValueView::U32(n as u32), vlq_bytes(n).len() as int)),
        0 <= n <= u16::MAX ==> plain_decoded(
            vlq_bytes(n) + rest,
            format_code("%hu"@)->0,
        ) == Ok::<_, ErrorView>((ValueView::U32(n as u32), vlq_bytes(n).len() as int)),
        0 <= n <= u8::MAX ==> plain_decoded(
            vlq_bytes(n) + rest,
            format_code("%c"@)->0,
        ) == Ok::<_, ErrorView>((ValueView::U32(n as u32), vlq_bytes(n).len() as int)),
{
    lemma_codes();
    if vlq_fits(n) {
        law_vlq_round_trip(n, rest);
    }
}

/// A field of bytes gives the bytes behind their count, and takes one byte more
/// than there are.
pub proof fn law_byte_fields(t: Seq<u8>, rest: Seq<u8>, code: Seq<char>)
    requires
        t.len() <= 255,
        code == "%s"@ || code == "%*s"@ || code == "%.*s"@,
    ensures
        plain_decoded(seq![t.len() as u8] + t + rest, format_code(code)->0) == Ok::<_, ErrorView>(
            (ValueView::Bytes(t), t.len() + 1int),
        ),
{
    lemma_codes();
    let b = seq![t.len() as u8] + t + rest;
    assert(b.subrange(1, 1 + b[0]) =~= t);
}

/// A typed value of a field's own type is taken, whatever it is, and goes out
/// as its number.
pub proof fn law_own_type_is_taken(a: u32, b: i32, c: u16, d: i16, e: u8)
    ensures
        field_value_bytes(format_code("%u"@)->0, FieldValueView::U32(a)) == Ok::<_, ErrorView>(
            vlq_bytes(a as int),
        ),
        field_value_bytes(format_code("%i"@)->0, FieldValueView::I32(b)) == Ok::<_, ErrorView>(
            vlq_bytes(b as int),
        ),
        field_value_bytes(format_code("%hu"@)->0, FieldValueView::U16(c)) == Ok::<_, ErrorView>(
            vlq_bytes(c as int),
        ),
        field_value_bytes(format_code("%hi"@)->0, FieldValueView::I16(d)) == Ok::<_, ErrorView>(
            vlq_bytes(d as int),
        ),
        field_value_bytes(format_code("%c"@)->0, FieldValueView::Byte(e)) == Ok::<_, ErrorView>(
            vlq_bytes(e as int),
        ),
{
    lemma_codes();
}

proof fn lemma_entry_kept(es: Seq<FormatEntryView>, names: Seq<Seq<char>>, k: int)
    requires
        first_clash(es) is None,
        tables_of(es, names) is Ok,
        0 <= k < es.len(),
        es[k].section != Section::Output,
    ensures
        ({
            let t = tables_of(es, names)->Ok_0;
            let p = parsed_format(es[k].format)->Ok_0;
            &&& parsed_format(es[k].format) is Ok
            &&& t.by_msgid.contains_key(es[k].msgid)
            &&& t.by_msgid[es[k].msgid] == (DispatchView::Response {
                name: p.0,
                fields: wrapped_fields(p.1, names),
            })
        }),
    decreases es.len(),
{
    let before = es.drop_last();
    if k < es.len() - 1 {
        assert(before[k] == es[k]);
        lemma_entry_kept(before, names, k);
        assert(es.last().msgid != es[k].msgid);
    }
}

/// A message that the controller sends is read by its number: where the
/// dictionary gives the number the format of a message with one signed field,
/// the number and a value behind it are read as that message with that value
/// under the field's name. A field that names an enumeration is read as a name
/// instead.
pub proof fn law_signed_message(d: DictionaryView, k: int, m: Seq<char>, a: Seq<char>, n: i32)
    requires
        parser_of(d) is Ok,
        0 <= k < d.formats.len(),
        d.formats[k].section == Section::Response,
        d.formats[k].format == one_field(m, a, "%i"@),
        is_word(m),
        is_word(a),
        !a.contains('='),
        first_enum(a, d.enum_names) is None,
    ensures
        message_decoded(
            parser_of(d)->Ok_0,
            vlq_bytes(d.formats[k].msgid as int) + vlq_bytes(n as int),
        ) == Ok::<_, ErrorView>(
            DecodedView::Response { name: m, params: map![a => ValueView::I32(n)] },
        ),
{
    law_codes_name_types(m, a);
    lemma_codes();
    lemma_entry_kept(d.formats, d.enum_names, k);
    law_number_fields(n as int, Seq::empty());
    lemma_one_value(d, k, m, a, FieldType::I32, vlq_bytes(n as int), ValueView::I32(n));
}

/// The same for a message with one unsigned field.
pub proof fn law_unsigned_message(d: DictionaryView, k: int, m: Seq<char>, a: Seq<char>, n: u32)
    requires
        parser_of(d) is Ok,
        0 <= k < d.formats.len(),
        d.formats[k].section == Section::Response,
        d.formats[k].format == one_field(m, a, "%u"@),
        is_word(m),
        is_word(a),
        !a.contains('='),
        first_enum(a, d.enum_names) is None,
    ensures
        message_decoded(
            parser_of(d)->Ok_0,
            vlq_bytes(d.formats[k].msgid as int) + vlq_bytes(n as int),
        ) == Ok::<_, ErrorView>(
            DecodedView::Response { name: m, params: map![a => ValueView::U32(n)] },
        ),
{
    law_codes_name_types(m, a);
    lemma_codes();
    lemma_entry_kept(d.formats, d.enum_names, k);
    law_number_fields(n as int, Seq::empty());
    lemma_one_value(d, k, m, a, FieldType::U32, vlq_bytes(n as int), ValueView::U32(n));
}

proof fn lemma_one_value(
    d: DictionaryView,
    k: int,
    m: Seq<char>,
    a: Seq<char>,
    ty: FieldType,
    b: Seq<u8>,
    v: ValueView,
)
    requires
        parser_of(d) is Ok,
        0 <= k < d.formats.len(),
        d.formats[k].section == Section::Response,
        parsed_format(d.formats[k].format) == Ok::<_, ErrorView>((m, seq![(a, ty)])),
        first_enum(a, d.enum_names) is None,
        plain_decoded(b + Seq::<u8>::empty(), ty) == Ok::<_, ErrorView>((v, b.len() as int)),
    ensures
        message_decoded(parser_of(d)->Ok_0, vlq_bytes(d.formats[k].msgid as int) + b) == Ok::<
            _,
            ErrorView,
        >(DecodedView::Response { name: m, params: map![a => v] }),
{
    let p = parser_of(d)->Ok_0;
    let msgid = d.formats[k].msgid;
    lemma_entry_kept(d.formats, d.enum_names, k);
    let fields = wrapped_fields(seq![(a, ty)], d.enum_names);
    assert(p.by_msgid[msgid] == (DispatchView::Response { name: m, fields }));
    let head = vlq_bytes(msgid as int);
    law_vlq_round_trip(msgid as int, b);
    assert((head + b).skip(head.len() as int) =~= b);
    assert(b + Seq::<u8>::empty() =~= b);
    assert(b.skip(0) =~= b);
    lemma_one_response(b, a, ty, v, d.enum_names, p.enumerations);
    lemma_message_read(p, m, fields, msgid, head + b, head.len() as int, map![a => v]);
}

pub(crate) proof fn lemma_one_response(
    b: Seq<u8>,
    a: Seq<char>,
    ty: FieldType,
    v: ValueView,
    enum_names: Seq<Seq<char>>,
    enums: Map<Seq<char>, EnumTableView>,
)
    requires
        first_enum(a, enum_names) is None,
        plain_decoded(b, ty) == Ok::<_, ErrorView>((v, b.len() as int)),
    ensures
        response_decoded(b, wrapped_fields(seq![(a, ty)], enum_names), enums) == Ok::<_, ErrorView>(
            map![a => v],
        ),
{
    let fields = wrapped_fields(seq![(a, ty)], enum_names);
    let ws = second(fields);
    let names = first(fields);
    assert(ws =~= seq![WrappedView::Plain(ty)]);
    assert(names =~= seq![a]);
    assert(ws.drop_last() =~= Seq::<WrappedView>::empty());
    assert(b.skip(0) =~= b);
    assert(values_decoded(b, Seq::empty(), enums) == Ok::<_, ErrorView>(
        (Seq::<ValueView>::empty(), 0int),
    ));
    let vals = Seq::<ValueView>::empty().push(v);
    assert(values_decoded(b, ws, enums) == Ok::<_, ErrorView>((vals, b.len() as int)));
    assert(names.drop_last() =~= Seq::<Seq<char>>::empty());
    assert(vals.drop_last() =~= Seq::<ValueView>::empty());
    assert(params_of(Seq::<Seq<char>>::empty(), Seq::<ValueView>::empty()) =~= Map::empty());
    assert(params_of(names, vals) =~= map![a => v]);
}

/// The names of a range are numbered on from the first, and so are their
/// values: the name with the number `number + k` has the value `start + k`, and
/// that value is given back as that name.
pub proof fn law_range_is_numbered(
    root: Seq<char>,
    number: nat,
    start: i32,
    count: i32,
    k: int,
)
    requires
        root.len() == 0 || !crate::text::is_digit(root.last()),
        0 <= k < count,
        number + count <= i32::MAX,
        start + count <= i32::MAX,
    ensures
        ({
            let t = table_of(
                seq![root + crate::text::decimal(number)],
                seq![EnumValue::Range { start, count }],
            );
            let name = root + decimal_int(number + k);
            &&& t.by_name.contains_key(name)
            &&& t.by_name[name] == start + k
            &&& t.by_int.contains_key((start + k) as i32)
            &&& t.by_int[(start + k) as i32] == name
        }),
{
    let name = root + crate::text::decimal(number);
    law_numbered_name(root, number);
    assert(name.take(root.len() as int) =~= root);
    let empty = EnumTableView { by_name: Map::empty(), by_int: Map::empty() };
    assert(seq![name].drop_last() =~= Seq::<Seq<char>>::empty());
    assert(seq![EnumValue::Range { start, count }].drop_last() =~= Seq::<EnumValue>::empty());
    assert(table_of(Seq::empty(), Seq::empty()) == empty);
    lemma_range(empty, root, number as int, start as int, count as int, k);
}

proof fn lemma_range(
    t: EnumTableView,
    root: Seq<char>,
    number: int,
    start: int,
    n: int,
    k: int,
)
    requires
        0 <= k < n,
        0 <= number,
        i32::MIN <= start,
        start + n <= i32::MAX,
    ensures
        ({
            let w = with_range(t, root, number, start, n);
            let name = root + decimal_int(number + k);
            &&& w.by_name.contains_key(name)
            &&& w.by_name[name] == start + k
            &&& w.by_int.contains_key((start + k) as i32)
            &&& w.by_int[(start + k) as i32] == name
        }),
    decreases n,
{
    if k < n - 1 {
        lemma_range(t, root, number, start, n - 1, k);
        let a = root + decimal_int(number + k);
        let b = root + decimal_int(number + n - 1);
        law_decimal_round_trip(number + k);
        law_decimal_round_trip(number + n - 1);
        assert(a.skip(root.len() as int) =~= decimal_int(number + k));
        assert(b.skip(root.len() as int) =~= decimal_int(number + n - 1));
        assert(a != b);
    }
}

/// A command line is sent as the command's number and then its value: where a
/// command has one signed field, the line with the field set to any number of
/// 32 bits in decimal goes out as the two numbers.
pub proof fn law_command_line(p: ParserView, m: Seq<char>, a: Seq<char>, msgid: i32, n: i32)
    requires
        is_word(m),
        is_word(a),
        !a.contains('='),
        p.by_command_name.contains_key(m),
        p.by_command_name[m] == (OutboundView {
            msgid,
            fields: seq![(a, WrappedView::Plain(format_code("%i"@)->0))],
        }),
    ensures
        line_bytes(p, one_field(m, a, decimal_int(n as int))) == Ok::<_, ErrorView>(
            vlq_bytes(msgid as int) + vlq_bytes(n as int),
        ),
{
    assert(format_code("%i"@) == Some(FieldType::I32)) by {
        lemma_codes();
    }
    let digits = decimal_int(n as int);
    lemma_decimal_is_word(n as int);
    lemma_one_field(m, a, digits);
    let inputs = Map::<Seq<char>, InputView>::empty().insert(a, InputView::Text(digits));
    lemma_one_arg(a, digits);
    lemma_one_input(a, n, inputs, p.enumerations);
    lemma_line(p, one_field(m, a, digits), m, a.push('=') + digits, inputs, vlq_bytes(n as int));
}

proof fn lemma_line(
    p: ParserView,
    cmd: Seq<char>,
    m: Seq<char>,
    w: Seq<char>,
    inputs: Map<Seq<char>, InputView>,
    b: Seq<u8>,
)
    requires
        words(cmd) == seq![m, w],
        p.by_command_name.contains_key(m),
        line_args(seq![w]) == Ok::<_, ErrorView>(inputs),
        fields_bytes(p.by_command_name[m].fields, inputs, p.enumerations) == Ok::<_, ErrorView>(b),
    ensures
        line_bytes(p, cmd) == Ok::<_, ErrorView>(
            vlq_bytes(p.by_command_name[m].msgid as int) + b,
        ),
{
    assert(seq![m, w].skip(1) =~= seq![w]);
}

proof fn lemma_one_arg(a: Seq<char>, t: Seq<char>)
    requires
        parted(a.push('=') + t, '=') == Some((a, t)),
    ensures
        line_args(seq![a.push('=') + t]) == Ok::<_, ErrorView>(
            Map::<Seq<char>, InputView>::empty().insert(a, InputView::Text(t)),
        ),
{
    let w = a.push('=') + t;
    assert(seq![w].drop_last() =~= Seq::<Seq<char>>::empty());
    assert(line_args(Seq::empty()) == Ok::<_, ErrorView>(Map::<Seq<char>, InputView>::empty()));
}

proof fn lemma_one_input(
    a: Seq<char>,
    n: i32,
    inputs: Map<Seq<char>, InputView>,
    enums: Map<Seq<char>, EnumTableView>,
)
    requires
        inputs.contains_key(a),
        inputs[a] == InputView::Text(decimal_int(n as int)),
    ensures
        fields_bytes(seq![(a, WrappedView::Plain(FieldType::I32))], inputs, enums) == Ok::<
            _,
            ErrorView,
        >(vlq_bytes(n as int)),
{
    let fields = seq![(a, WrappedView::Plain(FieldType::I32))];
    law_decimal_round_trip(n as int);
    assert(fields.drop_last() =~= Seq::<(Seq<char>, WrappedView)>::empty());
    assert(fields_bytes(fields.drop_last(), inputs, enums) == Ok::<_, ErrorView>(
        Seq::<u8>::empty(),
    ));
    assert(low_i32(n as int) == n);
    assert(Seq::<u8>::empty() + vlq_bytes(n as int) =~= vlq_bytes(n as int));
}

proof fn lemma_decimal_is_word(i: int)
    ensures
        is_word(decimal_int(i)),
{
    law_decimal_round_trip(i);
    let s = decimal_int(i);
    let signed = s.len() > 0 && (s[0] == '-' || s[0] == '+');
    let body = if signed {
        s.skip(1)
    } else {
        s
    };
    assert forall|j: int| 0 <= j < s.len() implies !crate::text::is_white(#[trigger] s[j]) by {
        if signed {
            if j > 0 {
                assert(body[j - 1] == s[j]);
                assert(crate::text::is_digit(body[j - 1]));
            }
        } else {
            assert(crate::text::is_digit(body[j]));
        }
    }
}

} // verus!
