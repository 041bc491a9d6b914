//! Message format strings: field types, named fields, free-form fields and
//! the rendering of decoded values.

use crate::host_io::parse_error::{ErrorView, ParseError};
use crate::text::{
    chars_of, copy_text, debug_text, decimal, decimal_int, parted, push_decimal, push_decimal_int,
    split_first, split_words, str_debug, string_of, texts, words,
};
use crate::transport::{MessageValue, ValueView};
use vstd::prelude::*;

verus! {

/// The type of one message field.
#[derive(Debug, Clone, Copy, PartialEq, Eq, Structural)]
pub enum FieldType {
    U32,
    I32,
    U16,
    I16,
    Byte,
    String,
    ProgmemBuffer,
    Buffer,
}

/// The field type that a format code names.
pub open spec fn format_code(s: Seq<char>) -> Option<FieldType> {
    if s == seq!['%', 'u'] {
        Some(FieldType::U32)
    } else if s == seq!['%', 'i'] {
        Some(FieldType::I32)
    } else if s == seq!['%', 'h', 'u'] {
        Some(FieldType::U16)
    } else if s == seq!['%', 'h', 'i'] {
        Some(FieldType::I16)
    } else if s == seq!['%', 'c'] {
        Some(FieldType::Byte)
    } else if s == seq!['%', 's'] {
        Some(FieldType::String)
    } else if s == seq!['%', '.', '*', 's'] {
        Some(FieldType::ProgmemBuffer)
    } else if s == seq!['%', '*', 's'] {
        Some(FieldType::Buffer)
    } else {
        None
    }
}

/// The format code at place `i` of a text, if one stands there, and its
/// length. No code begins another.
pub open spec fn code_at(s: Seq<char>, i: int) -> Option<(FieldType, int)> {
    if i + 2 <= s.len() && format_code(s.subrange(i, i + 2)) is Some {
        Some((format_code(s.subrange(i, i + 2))->0, 2))
    } else if i + 3 <= s.len() && format_code(s.subrange(i, i + 3)) is Some {
        Some((format_code(s.subrange(i, i + 3))->0, 3))
    } else if i + 4 <= s.len() && format_code(s.subrange(i, i + 4)) is Some {
        Some((format_code(s.subrange(i, i + 4))->0, 4))
    } else {
        None
    }
}

/// The field type of the code `cs[from..to]`.
fn code_of(cs: &Vec<char>, from: usize, to: usize) -> (r: Option<FieldType>)
    requires
        from <= to <= cs.len(),
    ensures
        r == format_code(cs@.subrange(from as int, to as int)),
{
    let n: usize = to - from;
    let ghost s = cs@.subrange(from as int, to as int);
    proof {
        assert(n >= 1 ==> s[0] == cs@[from as int]);
        assert(n >= 2 ==> s[1] == cs@[from + 1]);
        assert(n >= 3 ==> s[2] == cs@[from + 2]);
        assert(n >= 4 ==> s[3] == cs@[from + 3]);
        assert(n == 2 ==> s =~= seq![s[0], s[1]]);
        assert(n == 3 ==> s =~= seq![s[0], s[1], s[2]]);
        assert(n == 4 ==> s =~= seq![s[0], s[1], s[2], s[3]]);
        let u = seq!['%', 'u'];
        let i = seq!['%', 'i'];
        let hu = seq!['%', 'h', 'u'];
        let hi = seq!['%', 'h', 'i'];
        let c = seq!['%', 'c'];
        let t = seq!['%', 's'];
        let p = seq!['%', '.', '*', 's'];
        let b = seq!['%', '*', 's'];
        assert(u.len() == 2 && u[0] == '%' && u[1] == 'u');
        assert(i.len() == 2 && i[0] == '%' && i[1] == 'i');
        assert(c.len() == 2 && c[0] == '%' && c[1] == 'c');
        assert(t.len() == 2 && t[0] == '%' && t[1] == 's');
        assert(hu.len() == 3 && hu[0] == '%' && hu[1] == 'h' && hu[2] == 'u');
        assert(hi.len() == 3 && hi[0] == '%' && hi[1] == 'h' && hi[2] == 'i');
        assert(b.len() == 3 && b[0] == '%' && b[1] == '*' && b[2] == 's');
        assert(p.len() == 4 && p[0] == '%' && p[1] == '.' && p[2] == '*' && p[3] == 's');
    }
    if n < 2 || cs[from] != '%' {
        return None;
    }
    let c1: char = cs[from + 1];
    if n == 2 {
        if c1 == 'u' {
            Some(FieldType::U32)
        } else if c1 == 'i' {
            Some(FieldType::I32)
        } else if c1 == 'c' {
            Some(FieldType::Byte)
        } else if c1 == 's' {
            Some(FieldType::String)
        } else {
            None
        }
    } else if n == 3 {
        let c2: char = cs[from + 2];
        if c1 == 'h' && c2 == 'u' {
            Some(FieldType::U16)
        } else if c1 == 'h' && c2 == 'i' {
            Some(FieldType::I16)
        } else if c1 == '*' && c2 == 's' {
            Some(FieldType::Buffer)
        } else {
            None
        }
    } else if n == 4 {
        if c1 == '.' && cs[from + 2] == '*' && cs[from + 3] == 's' {
            Some(FieldType::ProgmemBuffer)
        } else {
            None
        }
    } else {
        None
    }
}

impl FieldType {
    /// The type that a format code names.
    pub fn from_format_code(code: &str) -> (r: Result<Self, ParseError>)
        ensures
            match r {
                Ok(t) => format_code(code@) == Some(t),
                Err(e) => format_code(code@) is None && e@ == ErrorView::UnknownFormatCode(code@),
            },
    {
        let cs: Vec<char> = chars_of(code);
        proof {
            assert(cs@.subrange(0, cs@.len() as int) =~= cs@);
        }
        match code_of(&cs, 0, cs.len()) {
            Some(t) => Ok(t),
            None => Err(ParseError::UnknownFormatCode(copy_text(code))),
        }
    }
}

/// Names with field types, as texts.
pub open spec fn named_types(v: Seq<(String, FieldType)>) -> Seq<(Seq<char>, FieldType)> {
    Seq::new(v.len(), |i: int| (v[i].0@, v[i].1))
}

/// One `name=%code` word.
pub open spec fn field_of(w: Seq<char>) -> Result<(Seq<char>, FieldType), ErrorView> {
    match parted(w, '=') {
        None => Err(ErrorView::MalformedField),
        Some(p) => match format_code(p.1) {
            None => Err(ErrorView::UnknownFormatCode(p.1)),
            Some(t) => Ok((p.0, t)),
        },
    }
}

/// The fields of `name=%code` words; the first word that is none gives the
/// error.
pub open spec fn fields_of(ws: Seq<Seq<char>>) -> Result<Seq<(Seq<char>, FieldType)>, ErrorView>
    decreases ws.len(),
{
    if ws.len() == 0 {
        Ok(Seq::empty())
    } else {
        match fields_of(ws.drop_last()) {
            Err(e) => Err(e),
            Ok(fs) => match field_of(ws.last()) {
                Err(e) => Err(e),
                Ok(f) => Ok(fs.push(f)),
            },
        }
    }
}

/// An error among the first words is the error of them all.
proof fn lemma_fields_of_error(ws: Seq<Seq<char>>, n: int)
    requires
        0 <= n <= ws.len(),
        fields_of(ws.take(n)) is Err,
    ensures
        fields_of(ws) == fields_of(ws.take(n)),
    decreases ws.len(),
{
    if n == ws.len() {
        assert(ws.take(n) =~= ws);
    } else {
        assert(ws.drop_last().take(n) =~= ws.take(n));
        lemma_fields_of_error(ws.drop_last(), n);
    }
}

/// A message name with its named fields.
pub open spec fn parsed_format(s: Seq<char>) -> Result<
    (Seq<char>, Seq<(Seq<char>, FieldType)>),
    ErrorView,
> {
    let ws = words(s);
    if ws.len() == 0 {
        Err(ErrorView::EmptyFormat)
    } else {
        match fields_of(ws.skip(1)) {
            Err(e) => Err(e),
            Ok(fs) => Ok((ws[0], fs)),
        }
    }
}

/// Reads a format string: the message name, then `name=%code` fields.
pub fn parse_format_string(s: &str) -> (r: Result<(String, Vec<(String, FieldType)>), ParseError>)
    ensures
        match r {
            Ok(p) => parsed_format(s@) == Ok::<_, ErrorView>((p.0@, named_types(p.1@))),
            Err(e) => parsed_format(s@) == Err::<
                (Seq<char>, Seq<(Seq<char>, FieldType)>),
                _,
            >(e@),
        },
{
    let ws: Vec<String> = split_words(s);
    let ghost w = words(s@);
    if ws.len() == 0 {
        return Err(ParseError::EmptyFormat);
    }
    let name: String = ws[0].clone();
    let mut fields: Vec<(String, FieldType)> = Vec::new();
    let mut i: usize = 1;
    proof {
        assert(w.skip(1).take(0) =~= Seq::<Seq<char>>::empty());
        assert(named_types(fields@) =~= Seq::<(Seq<char>, FieldType)>::empty());
        assert(name@ == texts(ws@)[0]);
    }
    while i < ws.len()
        invariant
            1 <= i <= ws.len(),
            w == words(s@),
            texts(ws@) == w,
            fields_of(w.skip(1).take(i - 1)) == Ok::<_, ErrorView>(named_types(fields@)),
        decreases ws.len() - i,
    {
        let ghost done = w.skip(1).take(i - 1);
        let ghost next = w.skip(1).take(i as int);
        let ghost before = named_types(fields@);
        proof {
            assert(next.drop_last() =~= done);
            assert(next.last() == texts(ws@)[i as int]);
            assert(next.last() == ws@[i as int]@);
        }
        match split_first(ws[i].as_str(), '=') {
            None => {
                proof {
                    lemma_fields_of_error(w.skip(1), i as int);
                }
                return Err(ParseError::MalformedField);
            },
            Some(p) => match FieldType::from_format_code(p.1.as_str()) {
                Err(e) => {
                    proof {
                        lemma_fields_of_error(w.skip(1), i as int);
                    }
                    return Err(e);
                },
                Ok(t) => {
                    let ghost grown = before.push((p.0@, t));
                    fields.push((p.0, t));
                    proof {
                        assert(named_types(fields@) =~= grown);
                    }
                },
            },
        }
        i += 1;
    }
    proof {
        assert(w.skip(1).take(w.len() - 1) =~= w.skip(1));
    }
    Ok((name, fields))
}

/// The field types of the codes from place `i` on; `%%` is a literal percent
/// sign.
pub open spec fn free_form_types(s: Seq<char>, i: int) -> Result<Seq<FieldType>, ErrorView>
    decreases s.len() - i,
{
    if i >= s.len() {
        Ok(Seq::empty())
    } else if s[i] != '%' {
        free_form_types(s, i + 1)
    } else if i + 1 < s.len() && s[i + 1] == '%' {
        free_form_types(s, i + 2)
    } else {
        match code_at(s, i) {
            Some(c) => prefixed(seq![c.0], free_form_types(s, i + c.1)),
            None => Err(
                ErrorView::UnknownFormatCode(
                    if i + 1 < s.len() {
                        seq!['%', s[i + 1]]
                    } else {
                        seq!['%']
                    },
                ),
            ),
        }
    }
}

/// Types in front of types that are still to come.
pub open spec fn prefixed(
    a: Seq<FieldType>,
    r: Result<Seq<FieldType>, ErrorView>,
) -> Result<Seq<FieldType>, ErrorView> {
    match r {
        Ok(b) => Ok(a + b),
        Err(e) => Err(e),
    }
}

/// The code at place `i`, and its length.
fn read_code(cs: &Vec<char>, i: usize) -> (r: Option<(FieldType, usize)>)
    requires
        i < cs.len(),
    ensures
        match r {
            Some(c) => code_at(cs@, i as int) == Some((c.0, c.1 as int)) && 2 <= c.1 && i + c.1
                <= cs.len(),
            None => code_at(cs@, i as int) is None,
        },
{
    if cs.len() - i >= 2 {
        match code_of(cs, i, i + 2) {
            Some(t) => return Some((t, 2)),
            None => {},
        }
    }
    if cs.len() - i >= 3 {
        match code_of(cs, i, i + 3) {
            Some(t) => return Some((t, 3)),
            None => {},
        }
    }
    if cs.len() - i >= 4 {
        match code_of(cs, i, i + 4) {
            Some(t) => return Some((t, 4)),
            None => {},
        }
    }
    None
}

/// Scans a free-form format string for its codes, in order.
pub fn extract_free_form_field_types(s: &str) -> (r: Result<Vec<FieldType>, ParseError>)
    ensures
        match r {
            Ok(v) => free_form_types(s@, 0) == Ok::<_, ErrorView>(v@),
            Err(e) => free_form_types(s@, 0) == Err::<Seq<FieldType>, _>(e@),
        },
{
    let cs: Vec<char> = chars_of(s);
    let mut codes: Vec<FieldType> = Vec::new();
    let mut i: usize = 0;
    proof {
        let all = free_form_types(s@, 0);
        if all is Ok {
            assert(codes@ + all->Ok_0 =~= all->Ok_0);
        }
    }
    while i < cs.len()
        invariant
            i <= cs.len(),
            cs@ == s@,
            free_form_types(s@, 0) == prefixed(codes@, free_form_types(s@, i as int)),
        decreases cs.len() - i,
    {
        if cs[i] != '%' {
            i += 1;
        } else if cs.len() - i >= 2 && cs[i + 1] == '%' {
            i += 2;
        } else {
            match read_code(&cs, i) {
                Some(c) => {
                    let ghost before = codes@;
                    codes.push(c.0);
                    proof {
                        let rest = free_form_types(s@, i + c.1);
                        if rest is Ok {
                            assert(before + (seq![c.0] + rest->Ok_0) =~= codes@ + rest->Ok_0);
                        }
                    }
                    i += c.1;
                },
                None => {
                    let to: usize = if cs.len() - i >= 2 {
                        i + 2
                    } else {
                        i + 1
                    };
                    let code: String = string_of(&cs, i, to);
                    proof {
                        if i + 1 < s@.len() {
                            assert(code@ =~= seq!['%', s@[i + 1]]);
                        } else {
                            assert(code@ =~= seq!['%']);
                        }
                    }
                    return Err(ParseError::UnknownFormatCode(code));
                },
            }
        }
    }
    proof {
        assert(codes@ + Seq::<FieldType>::empty() =~= codes@);
    }
    Ok(codes)
}

/// The character of a hexadecimal digit, in lower case.
pub open spec fn hex_char(d: int) -> char {
    if d < 10 {
        (48 + d) as char
    } else {
        (87 + d) as char
    }
}

/// One byte in the notation of a Python bytes literal.
pub open spec fn repr_byte(b: u8) -> Seq<char> {
    if b == 92 || b == 39 {
        seq!['\\', b as char]
    } else if 0x20 <= b <= 0x7E {
        seq![b as char]
    } else {
        seq!['\\', 'x', hex_char((b / 16) as int), hex_char((b % 16) as int)]
    }
}

/// Bytes in the notation of a Python bytes literal, without the quotes.
pub open spec fn repr_inner(s: Seq<u8>) -> Seq<char>
    decreases s.len(),
{
    if s.len() == 0 {
        Seq::empty()
    } else {
        repr_inner(s.drop_last()) + repr_byte(s.last())
    }
}

/// Bytes as a Python bytes literal.
pub open spec fn repr_bytes(s: Seq<u8>) -> Seq<char> {
    seq!['b', '\''] + repr_inner(s) + seq!['\'']
}

/// The character of a hexadecimal digit.
pub fn hex_digit(d: u8) -> (c: char)
    requires
        d < 16,
    ensures
        c == hex_char(d as int),
{
    if d < 10 {
        (48u8 + d) as char
    } else {
        (87u8 + d) as char
    }
}

/// Bytes as a Python bytes literal.
pub fn python_repr_bytes(bytes: &Vec<u8>) -> (r: String)
    ensures
        r@ == repr_bytes(bytes@),
{
    let mut out: String = String::new();
    out.push('b');
    out.push('\'');
    let ghost head = seq!['b', '\''];
    proof {
        assert(out@ =~= head + repr_inner(bytes@.take(0)));
    }
    let mut i: usize = 0;
    while i < bytes.len()
        invariant
            i <= bytes.len(),
            out@ == head + repr_inner(bytes@.take(i as int)),
        decreases bytes.len() - i,
    {
        let b: u8 = bytes[i];
        let ghost before = out@;
        if b == 92 || b == 39 {
            out.push('\\');
            out.push(b as char);
        } else if b >= 0x20 && b <= 0x7E {
            out.push(b as char);
        } else {
            out.push('\\');
            out.push('x');
            out.push(hex_digit(b / 16));
            out.push(hex_digit(b % 16));
        }
        proof {
            assert(bytes@.take(i + 1).drop_last() =~= bytes@.take(i as int));
            assert(bytes@.take(i + 1).last() == b);
            assert(out@ =~= before + repr_byte(b));
            assert(out@ =~= head + repr_inner(bytes@.take(i + 1)));
        }
        i += 1;
    }
    proof {
        assert(bytes@.take(bytes@.len() as int) =~= bytes@);
    }
    out.push('\'');
    proof {
        assert(out@ =~= repr_bytes(bytes@));
    }
    out
}

/// The end of a format code whose percent sign stands before `i`: behind the
/// first of `u`, `i`, `c` and `s`, or the end of the text.
pub open spec fn code_end(s: Seq<char>, i: int) -> int
    decreases s.len() - i,
{
    if i >= s.len() {
        s.len() as int
    } else if s[i] == 'u' || s[i] == 'i' || s[i] == 'c' || s[i] == 's' {
        i + 1
    } else {
        code_end(s, i + 1)
    }
}

/// A decoded value as text.
pub open spec fn value_text(v: ValueView) -> Seq<char> {
    match v {
        ValueView::U32(n) => decimal(n as nat),
        ValueView::I32(n) => decimal_int(n as int),
        ValueView::Bytes(b) => repr_bytes(b),
        ValueView::String(s) => str_debug(s),
    }
}

/// The rendering of a format from place `i` on, with the values from `k` on:
/// each code takes the next value, `%%` is a percent sign, and a code without
/// a value stays as it is.
pub open spec fn rendered(s: Seq<char>, i: int, vals: Seq<ValueView>, k: int) -> Seq<char>
    decreases s.len() - i,
{
    if i < 0 || i >= s.len() {
        Seq::empty()
    } else if s[i] != '%' {
        seq![s[i]] + rendered(s, i + 1, vals, k)
    } else if i + 1 < s.len() && s[i + 1] == '%' {
        seq!['%'] + rendered(s, i + 2, vals, k)
    } else {
        let j = code_end(s, i + 1);
        if j <= i || j > s.len() {
            Seq::empty()
        } else if k >= vals.len() {
            s.subrange(i, j) + rendered(s, j, vals, k)
        } else {
            value_text(vals[k]) + rendered(s, j, vals, k + 1)
        }
    }
}

/// The values of a sequence of message values.
pub open spec fn value_views(v: Seq<MessageValue>) -> Seq<ValueView> {
    Seq::new(v.len(), |i: int| v[i]@)
}

/// Appends the text of a decoded value.
fn push_value(out: &mut String, v: &MessageValue)
    ensures
        final(out)@ == old(out)@ + value_text(v@),
{
    match v {
        MessageValue::U32(n) => push_decimal(out, *n as u64),
        MessageValue::I32(n) => push_decimal_int(out, *n as i64),
        MessageValue::Bytes(b) => {
            let t: String = python_repr_bytes(b);
            out.append(t.as_str());
        },
        MessageValue::String(s) => {
            let t: String = debug_text(s.as_str());
            out.append(t.as_str());
        },
    }
}

/// Renders a format string with decoded values.
pub fn format_output_message(format: &str, values: &Vec<MessageValue>) -> (r: String)
    ensures
        r@ == rendered(format@, 0, value_views(values@), 0),
{
    let cs: Vec<char> = chars_of(format);
    let ghost s = format@;
    let ghost vals = value_views(values@);
    let mut out: String = String::new();
    let mut i: usize = 0;
    let mut k: usize = 0;
    proof {
        assert(out@ + rendered(s, 0, vals, 0) =~= rendered(s, 0, vals, 0));
    }
    while i < cs.len()
        invariant
            i <= cs.len(),
            cs@ == s,
            s == format@,
            vals == value_views(values@),
            k <= values.len(),
            rendered(s, 0, vals, 0) == out@ + rendered(s, i as int, vals, k as int),
        decreases cs.len() - i,
    {
        let ghost before = out@;
        if cs[i] != '%' {
            out.push(cs[i]);
            proof {
                let rest = rendered(s, i + 1, vals, k as int);
                assert(before + (seq![s[i as int]] + rest) =~= out@ + rest);
            }
            i += 1;
        } else if cs.len() - i >= 2 && cs[i + 1] == '%' {
            out.push('%');
            proof {
                let rest = rendered(s, i + 2, vals, k as int);
                assert(before + (seq!['%'] + rest) =~= out@ + rest);
            }
            i += 2;
        } else {
            let mut j: usize = i + 1;
            let mut stop: bool = false;
            while j < cs.len() && !stop
                invariant
                    i < j <= cs.len(),
                    cs@ == s,
                    !stop ==> code_end(s, i + 1) == code_end(s, j as int),
                    stop ==> code_end(s, i + 1) == j,
                decreases cs.len() - j,
            {
                let c: char = cs[j];
                if c == 'u' || c == 'i' || c == 'c' || c == 's' {
                    stop = true;
                }
                j += 1;
            }
            if k >= values.len() {
                let code: String = string_of(&cs, i, j);
                out.append(code.as_str());
                proof {
                    let rest = rendered(s, j as int, vals, k as int);
                    assert(before + (s.subrange(i as int, j as int) + rest) =~= out@ + rest);
                }
            } else {
                push_value(&mut out, &values[k]);
                proof {
                    let rest = rendered(s, j as int, vals, k + 1);
                    assert(vals[k as int] == values@[k as int]@);
                    assert(before + (value_text(vals[k as int]) + rest) =~= out@ + rest);
                }
                k += 1;
            }
            i = j;
        }
    }
    proof {
        assert(out@ + Seq::<char>::empty() =~= out@);
    }
    out
}

} // verus!
