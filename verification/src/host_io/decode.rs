//! Decoding of messages into named values.

use crate::host_io::codec::{decode_field_plain, plain_decoded};
use crate::host_io::enums::{
    low_i32, named_wrapped, to_i32, EnumTableView, WrappedField, WrappedView,
};
use crate::host_io::format::{format_output_message, rendered, value_views};
use crate::host_io::parse_error::{ErrorView, ParseError};
use crate::host_io::parser::{
    first, second, wrapped_views, DispatchSpec, DispatchView, MsgProtoParser, OutputSpec,
    OutputView, ParserView,
};
use crate::host_io::vlq::{decode_vlq, lemma_vlq_decoded_bounds, vlq_decoded};
use crate::host_io::wire::{MESSAGE_HEADER_SIZE, MESSAGE_MIN, MESSAGE_TRAILER_SIZE};
use crate::text::{copy_text, decimal_int, push_decimal_int, split_words, texts, words};
use crate::transport::{MessageParams, MessageValue, ParamsView, ValueView};
use vstd::prelude::*;

verus! {

broadcast use vstd::std_specs::hash::group_hash_axioms;


/// A decoded message.
#[derive(Debug)]
pub enum DecodedFrame {
    Response { name: String, params: MessageParams },
    Output { name: String, params: MessageParams },
}

/// Model of [`DecodedFrame`].
#[verifier::ext_equal]
#[allow(inconsistent_fields)]
pub enum DecodedView {
    Response { name: Seq<char>, params: ParamsView },
    Output { name: Seq<char>, params: ParamsView },
}

impl View for DecodedFrame {
    type V = DecodedView;

    open spec fn view(&self) -> DecodedView {
        match self {
            DecodedFrame::Response { name, params } => DecodedView::Response {
                name: name@,
                params: params@,
            },
            DecodedFrame::Output { name, params } => DecodedView::Output {
                name: name@,
                params: params@,
            },
        }
    }
}

/// The name of an enumerator, or its number behind a question mark.
pub open spec fn enumerator_text(t: EnumTableView, n: i32) -> Seq<char> {
    if t.by_int.contains_key(n) {
        t.by_int[n]
    } else {
        seq!['?'] + decimal_int(n as int)
    }
}

/// The number in a decoded value.
pub open spec fn value_number(v: ValueView) -> Option<i32> {
    match v {
        ValueView::U32(n) => Some(low_i32(n as int) as i32),
        ValueView::I32(n) => Some(n),
        _ => None,
    }
}

/// The value of a field at the start of `body`, and the count of its bytes.
pub open spec fn field_decoded(
    body: Seq<u8>,
    w: WrappedView,
    enums: Map<Seq<char>, EnumTableView>,
) -> Result<(ValueView, int), ErrorView> {
    match w {
        WrappedView::Plain(ty) => plain_decoded(body, ty),
        WrappedView::Enumerated { inner, enum_name } => match plain_decoded(body, inner) {
            Err(e) => Err(e),
            Ok(p) => match value_number(p.0) {
                None => Err(ErrorView::MalformedField),
                Some(n) => if !enums.contains_key(enum_name) {
                    Err(ErrorView::UnknownEnumName(enum_name))
                } else {
                    Ok((ValueView::String(enumerator_text(enums[enum_name], n)), p.1))
                },
            },
        },
    }
}

/// The values of fields that stand one behind the other, and the count of
/// their bytes.
pub open spec fn values_decoded(
    body: Seq<u8>,
    ws: Seq<WrappedView>,
    enums: Map<Seq<char>, EnumTableView>,
) -> Result<(Seq<ValueView>, int), ErrorView>
    decreases ws.len(),
{
    if ws.len() == 0 {
        Ok((Seq::empty(), 0))
    } else {
        match values_decoded(body, ws.drop_last(), enums) {
            Err(e) => Err(e),
            Ok(p) => match field_decoded(body.skip(p.1), ws.last(), enums) {
                Err(e) => Err(e),
                Ok(q) => Ok((p.0.push(q.0), p.1 + q.1)),
            },
        }
    }
}

/// Values under names; of two under one name the later holds.
pub open spec fn params_of(names: Seq<Seq<char>>, values: Seq<ValueView>) -> ParamsView
    decreases names.len(),
{
    if names.len() == 0 {
        Map::empty()
    } else {
        params_of(names.drop_last(), values.drop_last()).insert(names.last(), values.last())
    }
}

/// The named values of a response.
pub open spec fn response_decoded(
    body: Seq<u8>,
    fields: Seq<(Seq<char>, WrappedView)>,
    enums: Map<Seq<char>, EnumTableView>,
) -> Result<ParamsView, ErrorView> {
    match values_decoded(body, second(fields), enums) {
        Ok(p) => Ok(params_of(first(fields), p.0)),
        Err(e) => Err(e),
    }
}

/// The names and the types of an output's fields, side by side.
pub open spec fn output_fields(o: OutputView) -> Seq<(Seq<char>, WrappedView)> {
    Seq::new(
        if o.field_names.len() <= o.fields.len() {
            o.field_names.len()
        } else {
            o.fields.len()
        },
        |i: int| (o.field_names[i], o.fields[i]),
    )
}

/// The name and the values of an output. A free-form output is rendered.
pub open spec fn output_decoded(
    body: Seq<u8>,
    o: OutputView,
    enums: Map<Seq<char>, EnumTableView>,
) -> Result<(Seq<char>, ParamsView), ErrorView> {
    if o.is_free_form {
        match values_decoded(body, o.fields, enums) {
            Err(e) => Err(e),
            Ok(p) => Ok(
                (
                    "#output"@,
                    Map::<Seq<char>, ValueView>::empty().insert(
                        "#msg"@,
                        ValueView::String(rendered(o.format, 0, p.0, 0)),
                    ).insert("#format"@, ValueView::String(o.format)),
                ),
            ),
        }
    } else {
        match response_decoded(body, output_fields(o), enums) {
            Err(e) => Err(e),
            Ok(p) => Ok(
                (
                    if words(o.format).len() > 0 {
                        words(o.format)[0]
                    } else {
                        "#output"@
                    },
                    p,
                ),
            ),
        }
    }
}

/// The message that a body holds: a number, then the fields.
pub open spec fn message_decoded(p: ParserView, body: Seq<u8>) -> Result<DecodedView, ErrorView> {
    match vlq_decoded(body) {
        None => Err(ErrorView::BadVlq),
        Some(v) => {
            let msgid = low_i32(v.0) as i32;
            let rest = body.skip(v.1);
            if !p.by_msgid.contains_key(msgid) {
                Err(ErrorView::UnknownMsgid(msgid))
            } else {
                match p.by_msgid[msgid] {
                    DispatchView::Response { name, fields } => match response_decoded(
                        rest,
                        fields,
                        p.enumerations,
                    ) {
                        Ok(params) => Ok(DecodedView::Response { name, params }),
                        Err(e) => Err(e),
                    },
                    DispatchView::Output(o) => match output_decoded(rest, o, p.enumerations) {
                        Ok(n) => Ok(DecodedView::Output { name: n.0, params: n.1 }),
                        Err(e) => Err(e),
                    },
                }
            }
        },
    }
}

/// The name and the values of a decoded message.
pub open spec fn name_and_params(d: DecodedView) -> (Seq<char>, ParamsView) {
    match d {
        DecodedView::Response { name, params } => (name, params),
        DecodedView::Output { name, params } => (name, params),
    }
}

/// The body of a frame.
pub open spec fn frame_body(packet: Seq<u8>) -> Seq<u8> {
    packet.subrange(2, packet.len() - 3)
}

/// The message that a frame holds.
pub open spec fn frame_decoded(p: ParserView, packet: Seq<u8>) -> Result<DecodedView, ErrorView> {
    if packet.len() < 5 {
        Err(ErrorView::ShortFrame)
    } else if packet.len() == 5 {
        Err(ErrorView::EmptyBody)
    } else {
        message_decoded(p, frame_body(packet))
    }
}

/// The rendering of the output that a frame holds.
pub open spec fn canonical_decoded(p: ParserView, packet: Seq<u8>) -> Result<
    Seq<char>,
    ErrorView,
> {
    let body = frame_body(packet);
    if packet.len() < 5 {
        Err(ErrorView::ShortFrame)
    } else {
        match vlq_decoded(body) {
            None => Err(ErrorView::BadVlq),
            Some(v) => {
                let msgid = low_i32(v.0) as i32;
                if !p.by_msgid.contains_key(msgid) {
                    Err(ErrorView::UnknownMsgid(msgid))
                } else {
                    match p.by_msgid[msgid] {
                        DispatchView::Response { .. } => Err(ErrorView::MalformedField),
                        DispatchView::Output(o) => match values_decoded(
                            body.skip(v.1),
                            o.fields,
                            p.enumerations,
                        ) {
                            Err(e) => Err(e),
                            Ok(vals) => Ok(rendered(o.format, 0, vals.0, 0)),
                        },
                    }
                }
            },
        }
    }
}

proof fn lemma_values_decoded_error(
    body: Seq<u8>,
    ws: Seq<WrappedView>,
    enums: Map<Seq<char>, EnumTableView>,
    n: int,
)
    requires
        0 <= n <= ws.len(),
        values_decoded(body, ws.take(n), enums) is Err,
    ensures
        values_decoded(body, ws, enums) == values_decoded(body, ws.take(n), enums),
    decreases ws.len(),
{
    if n == ws.len() {
        assert(ws.take(n) =~= ws);
    } else {
        assert(ws.drop_last().take(n) =~= ws.take(n));
        lemma_values_decoded_error(body, ws.drop_last(), enums, n);
    }
}

impl MsgProtoParser {
    /// Reads one field. An enumerated field gives the enumerator's name.
    pub fn decode_wrapped_field(&self, body: &[u8], wrapped: &WrappedField) -> (r: Result<
        (MessageValue, usize),
        ParseError,
    >)
        ensures
            match r {
                Ok(p) => field_decoded(body@, wrapped@, self@.enumerations) == Ok::<_, ErrorView>(
                    (p.0@, p.1 as int),
                ) && p.1 <= body@.len(),
                Err(e) => field_decoded(body@, wrapped@, self@.enumerations) == Err::<
                    (ValueView, int),
                    _,
                >(e@),
            },
    {
        match wrapped {
            WrappedField::Plain(ty) => decode_field_plain(body, *ty),
            WrappedField::Enumerated { inner, enum_name } => match decode_field_plain(
                body,
                *inner,
            ) {
                Err(e) => Err(e),
                Ok(p) => {
                    let n: i32 = match &p.0 {
                        MessageValue::U32(v) => to_i32(*v as i64),
                        MessageValue::I32(v) => *v,
                        _ => return Err(ParseError::MalformedField),
                    };
                    match self.enumerations.get(enum_name.as_str()) {
                        None => Err(ParseError::UnknownEnumName(enum_name.clone())),
                        Some(table) => {
                            let text: String = match table.by_int.get(&n) {
                                Some(s) => s.clone(),
                                None => {
                                    let mut t: String = copy_text("?");
                                    proof {
                                        reveal_strlit("?");
                                        assert(t@ =~= seq!['?']);
                                    }
                                    push_decimal_int(&mut t, n as i64);
                                    t
                                },
                            };
                            Ok((MessageValue::String(text), p.1))
                        },
                    }
                },
            },
        }
    }

    /// Reads fields that stand one behind the other.
    pub fn decode_values(&self, body: &[u8], fields: &Vec<WrappedField>) -> (r: Result<
        Vec<MessageValue>,
        ParseError,
    >)
        ensures
            match r {
                Ok(v) => values_decoded(
                    body@,
                    wrapped_views(fields@),
                    self@.enumerations,
                ) matches Ok(p) && p.0 == value_views(v@),
                Err(e) => values_decoded(body@, wrapped_views(fields@), self@.enumerations)
                    == Err::<(Seq<ValueView>, int), _>(e@),
            },
    {
        let ghost ws = wrapped_views(fields@);
        let ghost enums = self@.enumerations;
        let mut values: Vec<MessageValue> = Vec::new();
        let mut at: usize = 0;
        let mut i: usize = 0;
        proof {
            assert(value_views(values@) =~= Seq::<ValueView>::empty());
        }
        while i < fields.len()
            invariant
                i <= fields@.len(),
                at <= body@.len(),
                ws == wrapped_views(fields@),
                enums == self@.enumerations,
                values_decoded(body@, ws.take(i as int), enums) == Ok::<_, ErrorView>(
                    (value_views(values@), at as int),
                ),
            decreases fields@.len() - i,
        {
            let cur: &[u8] = vstd::slice::slice_subrange(body, at, body.len());
            proof {
                assert(cur@ =~= body@.skip(at as int));
                assert(ws.take(i + 1).drop_last() =~= ws.take(i as int));
                assert(ws.take(i + 1).last() == fields@[i as int]@);
            }
            match self.decode_wrapped_field(cur, &fields[i]) {
                Err(e) => {
                    proof {
                        lemma_values_decoded_error(body@, ws, enums, i + 1);
                    }
                    return Err(e);
                },
                Ok(p) => {
                    let ghost was = value_views(values@);
                    let ghost v = p.0@;
                    values.push(p.0);
                    proof {
                        assert(value_views(values@) =~= was.push(v));
                    }
                    at += p.1;
                },
            }
            i += 1;
        }
        proof {
            assert(ws.take(ws.len() as int) =~= ws);
        }
        Ok(values)
    }

    /// Reads the named fields of a response.
    pub fn decode_response(&self, body: &[u8], fields: &Vec<(String, WrappedField)>) -> (r: Result<
        MessageParams,
        ParseError,
    >)
        ensures
            match r {
                Ok(p) => response_decoded(body@, named_wrapped(fields@), self@.enumerations)
                    == Ok::<_, ErrorView>(p@),
                Err(e) => response_decoded(body@, named_wrapped(fields@), self@.enumerations)
                    == Err::<ParamsView, _>(e@),
            },
    {
        let ghost all = named_wrapped(fields@);
        let ghost ws = second(all);
        let ghost names = first(all);
        let ghost enums = self@.enumerations;
        let ghost mut got = Seq::<ValueView>::empty();
        let mut params: MessageParams = MessageParams::new();
        let mut at: usize = 0;
        let mut i: usize = 0;
        while i < fields.len()
            invariant
                i <= fields@.len(),
                at <= body@.len(),
                all == named_wrapped(fields@),
                ws == second(all),
                names == first(all),
                enums == self@.enumerations,
                got.len() == i,
                values_decoded(body@, ws.take(i as int), enums) == Ok::<_, ErrorView>(
                    (got, at as int),
                ),
                params@ == params_of(names.take(i as int), got),
            decreases fields@.len() - i,
        {
            let cur: &[u8] = vstd::slice::slice_subrange(body, at, body.len());
            proof {
                assert(cur@ =~= body@.skip(at as int));
                assert(ws.take(i + 1).drop_last() =~= ws.take(i as int));
                assert(ws.take(i + 1).last() == fields@[i as int].1@);
                assert(names.take(i + 1).drop_last() =~= names.take(i as int));
                assert(names.take(i + 1).last() == fields@[i as int].0@);
            }
            match self.decode_wrapped_field(cur, &fields[i].1) {
                Err(e) => {
                    proof {
                        lemma_values_decoded_error(body@, ws, enums, i + 1);
                    }
                    return Err(e);
                },
                Ok(p) => {
                    proof {
                        let next = got.push(p.0@);
                        assert(next.drop_last() =~= got);
                        got = next;
                    }
                    params.insert(fields[i].0.as_str(), p.0);
                    at += p.1;
                },
            }
            i += 1;
        }
        proof {
            assert(ws.take(ws.len() as int) =~= ws);
            assert(names.take(names.len() as int) =~= names);
        }
        Ok(params)
    }

    /// Reads an output. A free-form output is rendered into `#msg`, beside its
    /// format in `#format`.
    pub fn decode_output(&self, body: &[u8], spec: &OutputSpec) -> (r: Result<
        (String, MessageParams),
        ParseError,
    >)
        ensures
            match r {
                Ok(p) => output_decoded(body@, spec@, self@.enumerations) == Ok::<_, ErrorView>(
                    (p.0@, p.1@),
                ),
                Err(e) => output_decoded(body@, spec@, self@.enumerations) == Err::<
                    (Seq<char>, ParamsView),
                    _,
                >(e@),
            },
    {
        if spec.is_free_form {
            return match self.decode_values(body, &spec.fields) {
                Err(e) => Err(e),
                Ok(values) => {
                    let text: String = format_output_message(spec.format.as_str(), &values);
                    let mut params: MessageParams = MessageParams::new();
                    params.insert("#msg", MessageValue::String(text));
                    params.insert("#format", MessageValue::String(spec.format.clone()));
                    Ok((copy_text("#output"), params))
                },
            };
        }
        let n: usize = if spec.field_names.len() <= spec.fields.len() {
            spec.field_names.len()
        } else {
            spec.fields.len()
        };
        let mut fields: Vec<(String, WrappedField)> = Vec::new();
        let mut i: usize = 0;
        while i < n
            invariant
                i <= n,
                n <= spec.field_names@.len(),
                n <= spec.fields@.len(),
                i == fields@.len(),
                forall|j: int|
                    0 <= j < i ==> (#[trigger] fields@[j]).0@ == spec.field_names@[j]@
                        && fields@[j].1@ == spec.fields@[j]@,
            decreases n - i,
        {
            fields.push((spec.field_names[i].clone(), spec.fields[i].copied()));
            i += 1;
        }
        proof {
            assert(named_wrapped(fields@) =~= output_fields(spec@));
        }
        match self.decode_response(body, &fields) {
            Err(e) => Err(e),
            Ok(params) => {
                let ws: Vec<String> = split_words(spec.format.as_str());
                let name: String = if ws.len() > 0 {
                    proof {
                        assert(texts(ws@)[0] == ws@[0]@);
                    }
                    ws[0].clone()
                } else {
                    copy_text("#output")
                };
                Ok((name, params))
            },
        }
    }

    /// Reads a message without its frame.
    fn decode_message(&self, body: &[u8]) -> (r: Result<DecodedFrame, ParseError>)
        ensures
            match r {
                Ok(d) => message_decoded(self@, body@) == Ok::<_, ErrorView>(d@),
                Err(e) => message_decoded(self@, body@) == Err::<DecodedView, _>(e@),
            },
    {
        match decode_vlq(body) {
            Err(e) => Err(e),
            Ok(v) => {
                proof {
                    lemma_vlq_decoded_bounds(body@);
                }
                let msgid: i32 = to_i32(v.0);
                let rest: &[u8] = vstd::slice::slice_subrange(body, v.1, body.len());
                proof {
                    assert(rest@ =~= body@.skip(v.1 as int));
                }
                match self.by_msgid.get(&msgid) {
                    None => Err(ParseError::UnknownMsgid(msgid)),
                    Some(d) => match d {
                        DispatchSpec::Response(spec) => match self.decode_response(
                            rest,
                            &spec.fields,
                        ) {
                            Ok(params) => Ok(
                                DecodedFrame::Response { name: spec.name.clone(), params },
                            ),
                            Err(e) => Err(e),
                        },
                        DispatchSpec::Output(spec) => match self.decode_output(rest, spec) {
                            Ok(p) => Ok(DecodedFrame::Output { name: p.0, params: p.1 }),
                            Err(e) => Err(e),
                        },
                    },
                }
            },
        }
    }

    /// Reads a message without its frame into its name and its values.
    pub fn decode_body(&self, body: &[u8]) -> (r: Result<(String, MessageParams), ParseError>)
        ensures
            match r {
                Ok(p) => message_decoded(self@, body@) matches Ok(d) && name_and_params(d) == (
                    p.0@,
                    p.1@,
                ),
                Err(e) => message_decoded(self@, body@) == Err::<DecodedView, _>(e@),
            },
    {
        match self.decode_message(body) {
            Err(e) => Err(e),
            Ok(d) => match d {
                DecodedFrame::Response { name, params } => Ok((name, params)),
                DecodedFrame::Output { name, params } => Ok((name, params)),
            },
        }
    }

    /// Reads a frame.
    pub fn decode(&self, packet: &[u8]) -> (r: Result<DecodedFrame, ParseError>)
        ensures
            match r {
                Ok(d) => frame_decoded(self@, packet@) == Ok::<_, ErrorView>(d@),
                Err(e) => frame_decoded(self@, packet@) == Err::<DecodedView, _>(e@),
            },
    {
        if packet.len() < MESSAGE_MIN {
            return Err(ParseError::ShortFrame);
        }
        let body: &[u8] = vstd::slice::slice_subrange(
            packet,
            MESSAGE_HEADER_SIZE,
            packet.len() - MESSAGE_TRAILER_SIZE,
        );
        if body.len() == 0 {
            return Err(ParseError::EmptyBody);
        }
        self.decode_message(body)
    }

    /// Reads a frame that holds an output into `#output` with the rendered
    /// text in `#msg`, for diagnostics.
    pub fn decode_output_canonical(&self, packet: &[u8]) -> (r: Result<
        (String, MessageParams),
        ParseError,
    >)
        ensures
            match r {
                Ok(p) => canonical_decoded(self@, packet@) matches Ok(t) && p.0@ == "#output"@
                    && p.1@ == Map::<Seq<char>, ValueView>::empty().insert(
                    "#msg"@,
                    ValueView::String(t),
                ),
                Err(e) => canonical_decoded(self@, packet@) == Err::<Seq<char>, _>(e@),
            },
    {
        if packet.len() < MESSAGE_MIN {
            return Err(ParseError::ShortFrame);
        }
        let body: &[u8] = vstd::slice::slice_subrange(
            packet,
            MESSAGE_HEADER_SIZE,
            packet.len() - MESSAGE_TRAILER_SIZE,
        );
        match decode_vlq(body) {
            Err(e) => Err(e),
            Ok(v) => {
                proof {
                    lemma_vlq_decoded_bounds(body@);
                }
                let msgid: i32 = to_i32(v.0);
                let rest: &[u8] = vstd::slice::slice_subrange(body, v.1, body.len());
                proof {
                    assert(rest@ =~= body@.skip(v.1 as int));
                }
                match self.by_msgid.get(&msgid) {
                    None => Err(ParseError::UnknownMsgid(msgid)),
                    Some(d) => match d {
                        DispatchSpec::Response(_) => Err(ParseError::MalformedField),
                        DispatchSpec::Output(spec) => match self.decode_values(
                            rest,
                            &spec.fields,
                        ) {
                            Err(e) => Err(e),
                            Ok(values) => {
                                let text: String = format_output_message(
                                    spec.format.as_str(),
                                    &values,
                                );
                                let mut params: MessageParams = MessageParams::new();
                                params.insert("#msg", MessageValue::String(text));
                                Ok((copy_text("#output"), params))
                            },
                        },
                    },
                }
            },
        }
    }
}

} // verus!
