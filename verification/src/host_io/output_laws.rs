//! What decoded messages are in words.

use crate::host_io::codec::plain_decoded;
use crate::host_io::decode::{output_decoded, output_fields, params_of, values_decoded};
use crate::host_io::enums::{
    first_enum, low_i32, low_u32, wrapped_fields, EnumTableView, WrappedView,
};
use crate::host_io::format::{
    code_at, code_end, format_code, free_form_types, rendered, repr_byte, value_text, FieldType,
};
use crate::host_io::format_laws::{
    lemma_codes, lemma_field_type, lemma_one_field, lemma_one_response, one_field,
};
use crate::host_io::parse_error::ErrorView;
use crate::host_io::parser::{output_of, OutputView};
use crate::host_io::vlq::{law_vlq_round_trip, vlq_bytes};
use crate::text::{decimal, words};
use crate::text_laws::is_word;
use crate::transport::ValueView;
use vstd::prelude::*;

verus! {

proof fn lemma_code_end(a: Seq<char>, s: Seq<char>, i: int)
    requires
        0 <= i <= s.len(),
    ensures
        code_end(a + s, a.len() + i) == a.len() + code_end(s, i),
        i <= code_end(s, i) <= s.len(),
        i < s.len() ==> i < code_end(s, i),
    decreases s.len() - i,
{
    if i < s.len() {
        assert((a + s)[a.len() + i] == s[i]);
        if !(s[i] == 'u' || s[i] == 'i' || s[i] == 'c' || s[i] == 's') {
            lemma_code_end(a, s, i + 1);
        }
    }
}

proof fn lemma_rendered_behind(
    a: Seq<char>,
    s: Seq<char>,
    i: int,
    w: Seq<ValueView>,
    vals: Seq<ValueView>,
    k: int,
)
    requires
        0 <= i <= s.len(),
        0 <= k <= vals.len(),
    ensures
        rendered(a + s, a.len() + i, w + vals, w.len() + k) == rendered(s, i, vals, k),
    decreases s.len() - i,
{
    let t = a + s;
    if i < s.len() {
        assert(t[a.len() + i] == s[i]);
        if s[i] != '%' {
            lemma_rendered_behind(a, s, i + 1, w, vals, k);
        } else if i + 1 < s.len() && s[i + 1] == '%' {
            assert(t[a.len() + i + 1] == s[i + 1]);
            lemma_rendered_behind(a, s, i + 2, w, vals, k);
        } else {
            if i + 1 < s.len() {
                assert(t[a.len() + i + 1] == s[i + 1]);
            }
            let j = code_end(s, i + 1);
            lemma_code_end(a, s, i + 1);
            assert(t.subrange(a.len() + i, a.len() + j) =~= s.subrange(i, j));
            if k < vals.len() {
                assert((w + vals)[w.len() + k] == vals[k]);
                lemma_rendered_behind(a, s, j, w, vals, k + 1);
            } else {
                lemma_rendered_behind(a, s, j, w, vals, k);
            }
        }
    }
}

proof fn lemma_text_kept(text: Seq<char>, s: Seq<char>, i: int, vals: Seq<ValueView>)
    requires
        0 <= i <= text.len(),
        !text.contains('%'),
    ensures
        rendered(text + s, i, vals, 0) == text.skip(i) + rendered(s, 0, vals, 0),
    decreases text.len() - i,
{
    let t = text + s;
    if i < text.len() {
        assert(t[i] == text[i]);
        assert(text.contains(text[i]));
        lemma_text_kept(text, s, i + 1, vals);
        assert(text.skip(i) =~= seq![text[i]] + text.skip(i + 1));
        assert(seq![text[i]] + (text.skip(i + 1) + rendered(s, 0, vals, 0)) =~= text.skip(i)
            + rendered(s, 0, vals, 0));
    } else {
        let none = Seq::<ValueView>::empty();
        assert(none + vals =~= vals);
        lemma_rendered_behind(text, s, 0, none, vals, 0);
        assert(text.skip(i) + rendered(s, 0, vals, 0) =~= rendered(s, 0, vals, 0));
    }
}

proof fn lemma_code(code: Seq<char>, rest: Seq<char>)
    requires
        format_code(code) is Some,
    ensures
        2 <= code.len() <= 4,
        code[0] == '%',
        code[1] != '%',
        code_end(code + rest, 1) == code.len(),
{
    reveal_with_fuel(code_end, 5);
    let s = code + rest;
    assert forall|i: int| 0 <= i < code.len() implies s[i] == code[i] by {}
}

/// In the text of an output everything stays as it is but the codes: each of the
/// eight codes takes the next value, two percent signs are one, and a code
/// without a value stays.
pub proof fn law_codes_take_values(
    text: Seq<char>,
    code: Seq<char>,
    rest: Seq<char>,
    v: ValueView,
    vals: Seq<ValueView>,
)
    requires
        !text.contains('%'),
        format_code(code) is Some,
    ensures
        rendered(text, 0, vals, 0) == text,
        rendered(text + (code + rest), 0, seq![v] + vals, 0) == text + value_text(v) + rendered(
            rest,
            0,
            vals,
            0,
        ),
        rendered(text + (code + rest), 0, Seq::empty(), 0) == text + code + rendered(
            rest,
            0,
            Seq::empty(),
            0,
        ),
        rendered(text + (seq!['%', '%'] + rest), 0, vals, 0) == text + seq!['%'] + rendered(
            rest,
            0,
            vals,
            0,
        ),
{
    let none = Seq::<ValueView>::empty();
    lemma_text_kept(text, Seq::empty(), 0, vals);
    assert(text + Seq::<char>::empty() =~= text);
    assert(text.skip(0) =~= text);
    assert(rendered(Seq::empty(), 0, vals, 0) =~= Seq::<char>::empty());

    let s = code + rest;
    lemma_code(code, rest);
    assert(s[0] == '%' && s[1] == code[1]);
    assert(s.subrange(0, code.len() as int) =~= code);

    lemma_text_kept(text, s, 0, seq![v] + vals);
    lemma_rendered_behind(code, rest, 0, seq![v], vals, 0);
    assert((seq![v] + vals)[0] == v);
    assert(rendered(s, 0, seq![v] + vals, 0) == value_text(v) + rendered(rest, 0, vals, 0));
    assert(text + (value_text(v) + rendered(rest, 0, vals, 0)) =~= text + value_text(v)
        + rendered(rest, 0, vals, 0));

    lemma_text_kept(text, s, 0, none);
    assert(none + none =~= none);
    lemma_rendered_behind(code, rest, 0, none, none, 0);
    assert(rendered(s, 0, none, 0) == code + rendered(rest, 0, none, 0));
    assert(text + (code + rendered(rest, 0, none, 0)) =~= text + code + rendered(rest, 0, none, 0));

    let p = seq!['%', '%'];
    lemma_text_kept(text, p + rest, 0, vals);
    assert(none + vals =~= vals);
    lemma_rendered_behind(p, rest, 0, none, vals, 0);
    assert((p + rest)[0] == '%' && (p + rest)[1] == '%');
    assert(text + (seq!['%'] + rendered(rest, 0, vals, 0)) =~= text + seq!['%'] + rendered(
        rest,
        0,
        vals,
        0,
    ));
}

/// The beginning of a longer code is no code.
proof fn lemma_no_code(s: Seq<char>)
    requires
        s.len() == 2 && (s[1] == 'h' || s[1] == '.' || s[1] == '*') || s.len() == 3 && s[1] == '.',
    ensures
        format_code(s) is None,
{
    let c = s[1];
    assert(seq!['%', 'u'][1] == 'u' && seq!['%', 'i'][1] == 'i');
    assert(seq!['%', 'c'][1] == 'c' && seq!['%', 's'][1] == 's');
    assert(seq!['%', 'h', 'u'][1] == 'h' && seq!['%', 'h', 'i'][1] == 'h');
    assert(seq!['%', '*', 's'][1] == '*');
    assert(seq!['%', '.', '*', 's'].len() == 4);
}

proof fn lemma_code_at(a: Seq<char>, s: Seq<char>, i: int)
    requires
        0 <= i <= s.len(),
    ensures
        code_at(a + s, a.len() + i) == code_at(s, i),
{
    let t = a + s;
    let n = a.len() as int;
    if i + 2 <= s.len() {
        assert(t.subrange(n + i, n + i + 2) =~= s.subrange(i, i + 2));
    }
    if i + 3 <= s.len() {
        assert(t.subrange(n + i, n + i + 3) =~= s.subrange(i, i + 3));
    }
    if i + 4 <= s.len() {
        assert(t.subrange(n + i, n + i + 4) =~= s.subrange(i, i + 4));
    }
}

proof fn lemma_types_behind(a: Seq<char>, s: Seq<char>, i: int)
    requires
        0 <= i <= s.len(),
    ensures
        free_form_types(a + s, a.len() + i) == free_form_types(s, i),
    decreases s.len() - i,
{
    let t = a + s;
    if i < s.len() {
        assert(t[a.len() + i] == s[i]);
        if i + 1 < s.len() {
            assert(t[a.len() + i + 1] == s[i + 1]);
        }
        if s[i] != '%' {
            lemma_types_behind(a, s, i + 1);
        } else if i + 1 < s.len() && s[i + 1] == '%' {
            lemma_types_behind(a, s, i + 2);
        } else {
            lemma_code_at(a, s, i);
            match code_at(s, i) {
                Some(c) => lemma_types_behind(a, s, i + c.1),
                None => {},
            }
        }
    }
}

proof fn lemma_types_of_text(text: Seq<char>, s: Seq<char>, i: int)
    requires
        0 <= i <= text.len(),
        !text.contains('%'),
    ensures
        free_form_types(text + s, i) == free_form_types(s, 0),
    decreases text.len() - i,
{
    if i < text.len() {
        assert((text + s)[i] == text[i]);
        assert(text.contains(text[i]));
        lemma_types_of_text(text, s, i + 1);
    } else {
        lemma_types_behind(text, s, 0);
    }
}

/// The values of a free-form output are those of its codes, in order; text and
/// doubled percent signs have none.
pub proof fn law_codes_have_types(
    text: Seq<char>,
    code: Seq<char>,
    rest: Seq<char>,
    types: Seq<FieldType>,
)
    requires
        !text.contains('%'),
        format_code(code) is Some,
        free_form_types(rest, 0) == Ok::<_, ErrorView>(types),
    ensures
        free_form_types(text, 0) == Ok::<_, ErrorView>(Seq::<FieldType>::empty()),
        free_form_types(text + (code + rest), 0) == Ok::<_, ErrorView>(
            seq![format_code(code)->0] + types,
        ),
        free_form_types(text + (seq!['%', '%'] + rest), 0) == Ok::<_, ErrorView>(types),
{
    lemma_types_of_text(text, Seq::empty(), 0);
    assert(text + Seq::<char>::empty() =~= text);
    let s = code + rest;
    lemma_code(code, rest);
    assert(s[0] == '%' && s[1] == code[1]);
    lemma_types_of_text(text, s, 0);
    lemma_types_behind(code, rest, 0);
    assert(s.subrange(0, code.len() as int) =~= code);
    if code.len() > 2 {
        let two = s.subrange(0, 2);
        assert(two[1] == code[1]);
        lemma_no_code(two);
    }
    if code.len() > 3 {
        let three = s.subrange(0, 3);
        assert(three[1] == code[1]);
        lemma_no_code(three);
    }
    assert(code_at(s, 0) == Some((format_code(code)->0, code.len() as int)));
    let p = seq!['%', '%'];
    lemma_types_of_text(text, p + rest, 0);
    lemma_types_behind(p, rest, 0);
    assert((p + rest)[0] == '%' && (p + rest)[1] == '%');
}

/// In words a byte is the character that it stands for in printable ASCII,
/// behind a backslash if it is a quote or a backslash, and otherwise two digits
/// to the base sixteen; so that bytes are told apart.
pub proof fn law_bytes_in_words(a: u8, b: u8)
    ensures
        repr_byte(a) == repr_byte(b) <==> a == b,
        0x20 <= a <= 0x7E && a != 0x27 && a != 0x5C ==> repr_byte(a) == seq![a as char],
        a == 0x27 || a == 0x5C ==> repr_byte(a) == seq!['\\', a as char],
        a < 0x20 || a > 0x7E ==> {
            let s = repr_byte(a);
            &&& s.len() == 4 && s[0] == '\\' && s[1] == 'x'
            &&& forall|i: int| 2 <= i < 4 ==> '0' <= #[trigger] s[i] <= '9' || 'a' <= s[i] <= 'f'
        },
{
    let s = repr_byte(a);
    let t = repr_byte(b);
    if s == t && a != b {
        assert(s.len() == t.len());
        if s.len() == 4 {
            assert(s[2] == t[2] && s[3] == t[3]);
            assert(a / 16 == b / 16 && a % 16 == b % 16);
        } else {
            assert(s.last() == t.last());
        }
    }
}

/// A number that is cut to 32 bits differs from it by a multiple of 2^32.
pub proof fn law_cut_numbers(v: int)
    ensures
        -0x8000_0000 <= low_i32(v) < 0x8000_0000,
        0 <= low_u32(v) < 0x1_0000_0000,
        (v - low_i32(v)) % 0x1_0000_0000 == 0,
        (v - low_u32(v)) % 0x1_0000_0000 == 0,
{
}

/// Each value stands under the name beside it; of two under one name the later.
pub proof fn law_values_under_names(names: Seq<Seq<char>>, values: Seq<ValueView>, i: int)
    requires
        names.len() == values.len(),
        0 <= i < names.len(),
        forall|j: int| i < j < names.len() ==> #[trigger] names[j] != names[i],
    ensures
        params_of(names, values).contains_key(names[i]),
        params_of(names, values)[names[i]] == values[i],
    decreases names.len(),
{
    if i < names.len() - 1 {
        let n = names.drop_last();
        assert(names[names.len() - 1] != names[i]);
        assert forall|j: int| i < j < n.len() implies #[trigger] n[j] != n[i] by {
            assert(names[j] != names[i]);
        }
        law_values_under_names(n, values.drop_last(), i);
    }
}

/// An output whose format names its fields is told under the first word of the
/// format, with its fields under their names, like a response.
pub proof fn law_named_output(
    m: Seq<char>,
    a: Seq<char>,
    names: Seq<Seq<char>>,
    enums: Map<Seq<char>, EnumTableView>,
    n: u32,
)
    requires
        is_word(m),
        is_word(a),
        !a.contains('='),
        first_enum(a, names) is None,
    ensures
        output_of(one_field(m, a, "%u"@), names) matches Ok(o) && !o.is_free_form && o.format
            == one_field(m, a, "%u"@) && output_decoded(vlq_bytes(n as int), o, enums) == Ok::<
            _,
            ErrorView,
        >((m, map![a => ValueView::U32(n)])),
{
    let format = one_field(m, a, "%u"@);
    let ty = FieldType::U32;
    assert(format_code("%u"@) == Some(ty) && is_word("%u"@)) by {
        lemma_codes();
    }
    lemma_field_type(m, a, "%u"@, ty);
    assert(words(format).len() > 0 && words(format)[0] == m) by {
        lemma_one_field(m, a, "%u"@);
    }
    let fields = wrapped_fields(seq![(a, ty)], names);
    let o = output_of(format, names)->Ok_0;
    assert(output_fields(o) =~= fields);
    let b = vlq_bytes(n as int);
    assert(plain_decoded(b, ty) == Ok::<_, ErrorView>((ValueView::U32(n), b.len() as int))) by {
        law_vlq_round_trip(n as int, Seq::empty());
        assert(b + Seq::<u8>::empty() =~= b);
    }
    lemma_one_response(b, a, ty, ValueView::U32(n), names, enums);
}

/// A free-form output is told as one text, in which its values stand in the
/// place of the codes, beside the format itself.
pub proof fn law_free_form_output(
    text: Seq<char>,
    enums: Map<Seq<char>, EnumTableView>,
    n: u32,
)
    requires
        !text.contains('%'),
    ensures
        ({
            let o = OutputView {
                format: text + "%u"@,
                fields: seq![WrappedView::Plain(FieldType::U32)],
                field_names: Seq::empty(),
                is_free_form: true,
            };
            output_decoded(vlq_bytes(n as int), o, enums) == Ok::<_, ErrorView>(
                (
                    "#output"@,
                    map![
                        "#msg"@ => ValueView::String(text + decimal(n as nat)),
                        "#format"@ => ValueView::String(text + "%u"@),
                    ],
                ),
            )
        }),
{
    let code = "%u"@;
    let none = Seq::<ValueView>::empty();
    let v = ValueView::U32(n);
    assert(format_code(code) is Some) by {
        lemma_codes();
    }
    law_codes_take_values(text, code, Seq::empty(), v, none);
    assert(code + Seq::<char>::empty() =~= code);
    assert(seq![v] + none =~= seq![v]);
    assert(rendered(Seq::empty(), 0, none, 0) =~= Seq::<char>::empty());
    assert(text + decimal(n as nat) + Seq::<char>::empty() =~= text + decimal(n as nat));
    let b = vlq_bytes(n as int);
    let ws = seq![WrappedView::Plain(FieldType::U32)];
    assert(values_decoded(b, ws, enums) == Ok::<_, ErrorView>((seq![v], b.len() as int))) by {
        law_vlq_round_trip(n as int, Seq::empty());
        assert(b + Seq::<u8>::empty() =~= b);
        assert(ws.drop_last() =~= Seq::<WrappedView>::empty());
        assert(b.skip(0) =~= b);
        assert(values_decoded(b, Seq::empty(), enums) == Ok::<_, ErrorView>((none, 0int)));
        assert(none.push(v) =~= seq![v]);
    }
    assert("#msg"@ != "#format"@) by {
        reveal_strlit("#msg");
        reveal_strlit("#format");
        assert("#msg"@.len() == 4);
        assert("#format"@.len() == 7);
    }
}

} // verus!
