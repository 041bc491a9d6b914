//! Encoding of commands, from a textual line or from typed values.

use crate::host_io::codec::{
    encode_field_str, encode_wrapped_field_typed, enum_views, text_bytes, typed_bytes, FieldValue,
    FieldValueView,
};
use crate::host_io::enums::{named_wrapped, EnumTableView, WrappedView};
use crate::host_io::parse_error::{ErrorView, ParseError};
use crate::host_io::parser::{MsgProtoParser, OutboundView, ParserView};
use crate::host_io::vlq::{encode_vlq, vlq_bytes, vlq_fits};
use crate::ordered_map::OrderedMap;
use crate::text::{copy_text, parted, same_text, split_first, split_words, texts, words};
use vstd::prelude::*;

verus! {

/// A value that is given for a field.
pub enum InputView {
    Text(Seq<char>),
    Typed(FieldValueView),
}

/// The bytes of a given value in a field.
pub open spec fn input_bytes(
    w: WrappedView,
    v: InputView,
    enums: Map<Seq<char>, EnumTableView>,
) -> Result<Seq<u8>, ErrorView> {
    match v {
        InputView::Text(s) => text_bytes(w, s, enums),
        InputView::Typed(t) => typed_bytes(w, t, enums),
    }
}

/// The bytes of all fields, one behind the other; the first field that has no
/// value or whose value does not fit gives the error.
pub open spec fn fields_bytes(
    fields: Seq<(Seq<char>, WrappedView)>,
    inputs: Map<Seq<char>, InputView>,
    enums: Map<Seq<char>, EnumTableView>,
) -> Result<Seq<u8>, ErrorView>
    decreases fields.len(),
{
    if fields.len() == 0 {
        Ok(Seq::empty())
    } else {
        match fields_bytes(fields.drop_last(), inputs, enums) {
            Err(e) => Err(e),
            Ok(b) => {
                let (name, w) = fields.last();
                if !inputs.contains_key(name) {
                    Err(ErrorView::MissingField(name))
                } else {
                    match input_bytes(w, inputs[name], enums) {
                        Err(e) => Err(e),
                        Ok(c) => Ok(b + c),
                    }
                }
            },
        }
    }
}

/// The bytes of a command: its number, then its fields.
pub open spec fn command_bytes(
    c: OutboundView,
    inputs: Map<Seq<char>, InputView>,
    enums: Map<Seq<char>, EnumTableView>,
) -> Result<Seq<u8>, ErrorView> {
    match fields_bytes(c.fields, inputs, enums) {
        Ok(b) => Ok(vlq_bytes(c.msgid as int) + b),
        Err(e) => Err(e),
    }
}

/// The arguments of a line, each split at its first `=`; of two with one name
/// the later holds.
pub open spec fn line_args(ws: Seq<Seq<char>>) -> Result<Map<Seq<char>, InputView>, ErrorView>
    decreases ws.len(),
{
    if ws.len() == 0 {
        Ok(Map::empty())
    } else {
        match line_args(ws.drop_last()) {
            Err(e) => Err(e),
            Ok(m) => match parted(ws.last(), '=') {
                None => Err(ErrorView::MalformedArg),
                Some(p) => Ok(m.insert(p.0, InputView::Text(p.1))),
            },
        }
    }
}

/// The bytes of a textual command line.
pub open spec fn line_bytes(p: ParserView, cmd: Seq<char>) -> Result<Seq<u8>, ErrorView> {
    let ws = words(cmd);
    if ws.len() == 0 {
        Err(ErrorView::EmptyCommand)
    } else if !p.by_command_name.contains_key(ws[0]) {
        Err(ErrorView::UnknownCommand(ws[0]))
    } else {
        match line_args(ws.skip(1)) {
            Err(e) => Err(e),
            Ok(m) => command_bytes(p.by_command_name[ws[0]], m, p.enumerations),
        }
    }
}

/// The typed arguments by name; of two with one name the later holds.
pub open spec fn typed_args<'a>(args: Seq<(&'a str, FieldValue<'a>)>) -> Map<
    Seq<char>,
    InputView,
>
    decreases args.len(),
{
    if args.len() == 0 {
        Map::empty()
    } else {
        typed_args(args.drop_last()).insert(args.last().0@, InputView::Typed(args.last().1@))
    }
}

/// The bytes of a command with given values.
pub open spec fn named_bytes(
    p: ParserView,
    name: Seq<char>,
    inputs: Map<Seq<char>, InputView>,
) -> Result<Seq<u8>, ErrorView> {
    if !p.by_command_name.contains_key(name) {
        Err(ErrorView::UnknownCommand(name))
    } else {
        command_bytes(p.by_command_name[name], inputs, p.enumerations)
    }
}

proof fn lemma_line_args_error(ws: Seq<Seq<char>>, n: int)
    requires
        0 <= n <= ws.len(),
        line_args(ws.take(n)) is Err,
    ensures
        line_args(ws) == line_args(ws.take(n)),
    decreases ws.len(),
{
    if n == ws.len() {
        assert(ws.take(n) =~= ws);
    } else {
        assert(ws.drop_last().take(n) =~= ws.take(n));
        lemma_line_args_error(ws.drop_last(), n);
    }
}

proof fn lemma_fields_bytes_error(
    fields: Seq<(Seq<char>, WrappedView)>,
    inputs: Map<Seq<char>, InputView>,
    enums: Map<Seq<char>, EnumTableView>,
    n: int,
)
    requires
        0 <= n <= fields.len(),
        fields_bytes(fields.take(n), inputs, enums) is Err,
    ensures
        fields_bytes(fields, inputs, enums) == fields_bytes(fields.take(n), inputs, enums),
    decreases fields.len(),
{
    if n == fields.len() {
        assert(fields.take(n) =~= fields);
    } else {
        assert(fields.drop_last().take(n) =~= fields.take(n));
        lemma_fields_bytes_error(fields.drop_last(), inputs, enums, n);
    }
}

/// Textual arguments, as models.
pub open spec fn text_inputs(m: Map<Seq<char>, String>) -> Map<Seq<char>, InputView> {
    m.map_values(|s: String| InputView::Text(s@))
}

/// Splits the words behind the first into arguments.
fn split_args(ws: &Vec<String>) -> (r: Result<OrderedMap<String>, ParseError>)
    requires
        ws@.len() > 0,
    ensures
        match r {
            Ok(m) => line_args(texts(ws@).skip(1)) == Ok::<_, ErrorView>(text_inputs(m@)),
            Err(e) => line_args(texts(ws@).skip(1)) == Err::<Map<Seq<char>, InputView>, _>(e@),
        },
{
    let ghost all = texts(ws@).skip(1);
    let mut m: OrderedMap<String> = OrderedMap::new();
    let mut i: usize = 1;
    proof {
        assert(text_inputs(m@) =~= Map::<Seq<char>, InputView>::empty());
    }
    while i < ws.len()
        invariant
            1 <= i <= ws.len(),
            all == texts(ws@).skip(1),
            line_args(all.take(i - 1)) == Ok::<_, ErrorView>(text_inputs(m@)),
        decreases ws.len() - i,
    {
        proof {
            assert(all.take(i as int).drop_last() =~= all.take(i - 1));
            assert(all.take(i as int).last() == ws@[i as int]@);
        }
        match split_first(ws[i].as_str(), '=') {
            None => {
                proof {
                    lemma_line_args_error(all, i as int);
                }
                return Err(ParseError::MalformedArg);
            },
            Some(p) => {
                let ghost was = text_inputs(m@);
                let ghost k = p.0@;
                let ghost v = p.1@;
                m.insert(p.0, p.1);
                proof {
                    assert(text_inputs(m@) =~= was.insert(k, InputView::Text(v)));
                }
            },
        }
        i += 1;
    }
    proof {
        assert(all.take(all.len() as int) =~= all);
    }
    Ok(m)
}

/// Finds the value given for a name.
fn find_arg<'a, 'b>(args: &'b [(&'a str, FieldValue<'a>)], name: &str) -> (r: Option<
    &'b FieldValue<'a>,
>)
    ensures
        match r {
            Some(v) => typed_args(args@).contains_key(name@) && typed_args(args@)[name@]
                == InputView::Typed(v@),
            None => !typed_args(args@).contains_key(name@),
        },
{
    let mut i: usize = args.len();
    proof {
        assert(args@.take(args@.len() as int) =~= args@);
    }
    while i > 0
        invariant
            i <= args@.len(),
            typed_args(args@).contains_key(name@) == typed_args(
                args@.take(i as int),
            ).contains_key(name@),
            typed_args(args@).contains_key(name@) ==> typed_args(args@)[name@] == typed_args(
                args@.take(i as int),
            )[name@],
        decreases i,
    {
        proof {
            assert(args@.take(i as int).drop_last() =~= args@.take(i - 1));
            assert(args@.take(i as int).last() == args@[i - 1]);
        }
        i -= 1;
        if same_text(args[i].0, name) {
            return Some(&args[i].1);
        }
    }
    None
}

impl MsgProtoParser {
    /// Encodes a line of a command's name and `field=value` arguments.
    pub fn encode(&self, cmd: &str) -> (r: Result<Vec<u8>, ParseError>)
        ensures
            match r {
                Ok(b) => line_bytes(self@, cmd@) == Ok::<_, ErrorView>(b@),
                Err(e) => line_bytes(self@, cmd@) == Err::<Seq<u8>, _>(e@),
            },
    {
        let ws: Vec<String> = split_words(cmd);
        if ws.len() == 0 {
            return Err(ParseError::EmptyCommand);
        }
        proof {
            assert(texts(ws@)[0] == ws@[0]@);
        }
        match self.by_command_name.get(ws[0].as_str()) {
            None => Err(ParseError::UnknownCommand(ws[0].clone())),
            Some(spec) => match split_args(&ws) {
                Err(e) => Err(e),
                Ok(provided) => {
                    let ghost fields = named_wrapped(spec.fields@);
                    let ghost inputs = text_inputs(provided@);
                    let ghost enums = enum_views(self.enumerations@);
                    let mut payload: Vec<u8> = Vec::new();
                    match encode_vlq(&mut payload, spec.msgid as i64) {
                        Ok(_) => {},
                        Err(e) => {
                            proof {
                                assert(vlq_fits(spec.msgid as int));
                            }
                            return Err(e);
                        },
                    }
                    let ghost head = vlq_bytes(spec.msgid as int);
                    let mut i: usize = 0;
                    proof {
                        assert(payload@ =~= head + Seq::<u8>::empty());
                    }
                    while i < spec.fields.len()
                        invariant
                            i <= spec.fields@.len(),
                            fields == named_wrapped(spec.fields@),
                            inputs == text_inputs(provided@),
                            enums == enum_views(self.enumerations@),
                            line_bytes(self@, cmd@) == command_bytes(spec@, inputs, enums),
                            fields == spec@.fields,
                            fields_bytes(fields.take(i as int), inputs, enums) is Ok,
                            payload@ == head + fields_bytes(
                                fields.take(i as int),
                                inputs,
                                enums,
                            )->Ok_0,
                        decreases spec.fields@.len() - i,
                    {
                        let ghost before = payload@;
                        let ghost done = fields_bytes(fields.take(i as int), inputs, enums)->Ok_0;
                        proof {
                            assert(fields.take(i + 1).drop_last() =~= fields.take(i as int));
                            assert(fields.take(i + 1).last() == fields[i as int]);
                        }
                        match provided.get(spec.fields[i].0.as_str()) {
                            None => {
                                proof {
                                    lemma_fields_bytes_error(fields, inputs, enums, i + 1);
                                }
                                return Err(ParseError::MissingField(spec.fields[i].0.clone()));
                            },
                            Some(v) => match encode_field_str(
                                &mut payload,
                                &spec.fields[i].1,
                                v.as_str(),
                                &self.enumerations,
                            ) {
                                Err(e) => {
                                    proof {
                                        lemma_fields_bytes_error(fields, inputs, enums, i + 1);
                                    }
                                    return Err(e);
                                },
                                Ok(_) => {
                                    proof {
                                        let c = text_bytes(fields[i as int].1, v@, enums)->Ok_0;
                                        assert(payload@ =~= head + (done + c));
                                    }
                                },
                            },
                        }
                        i += 1;
                    }
                    proof {
                        assert(fields.take(fields.len() as int) =~= fields);
                    }
                    Ok(payload)
                },
            },
        }
    }

    /// Encodes a command with typed values.
    pub fn encode_typed<'a>(&self, name: &str, args: &[(&'a str, FieldValue<'a>)]) -> (r: Result<
        Vec<u8>,
        ParseError,
    >)
        ensures
            match r {
                Ok(b) => named_bytes(self@, name@, typed_args(args@)) == Ok::<_, ErrorView>(b@),
                Err(e) => named_bytes(self@, name@, typed_args(args@)) == Err::<Seq<u8>, _>(e@),
            },
    {
        match self.by_command_name.get(name) {
            None => Err(ParseError::UnknownCommand(copy_text(name))),
            Some(spec) => {
                let ghost fields = named_wrapped(spec.fields@);
                let ghost inputs = typed_args(args@);
                let ghost enums = enum_views(self.enumerations@);
                let mut payload: Vec<u8> = Vec::new();
                match encode_vlq(&mut payload, spec.msgid as i64) {
                    Ok(_) => {},
                    Err(e) => {
                        proof {
                            assert(vlq_fits(spec.msgid as int));
                        }
                        return Err(e);
                    },
                }
                let ghost head = vlq_bytes(spec.msgid as int);
                let mut i: usize = 0;
                proof {
                    assert(payload@ =~= head + Seq::<u8>::empty());
                }
                while i < spec.fields.len()
                    invariant
                        i <= spec.fields@.len(),
                        fields == named_wrapped(spec.fields@),
                        inputs == typed_args(args@),
                        enums == enum_views(self.enumerations@),
                        named_bytes(self@, name@, inputs) == command_bytes(spec@, inputs, enums),
                        fields == spec@.fields,
                        fields_bytes(fields.take(i as int), inputs, enums) is Ok,
                        payload@ == head + fields_bytes(
                            fields.take(i as int),
                            inputs,
                            enums,
                        )->Ok_0,
                    decreases spec.fields@.len() - i,
                {
                    let ghost done = fields_bytes(fields.take(i as int), inputs, enums)->Ok_0;
                    proof {
                        assert(fields.take(i + 1).drop_last() =~= fields.take(i as int));
                        assert(fields.take(i + 1).last() == fields[i as int]);
                    }
                    match find_arg(args, spec.fields[i].0.as_str()) {
                        None => {
                            proof {
                                lemma_fields_bytes_error(fields, inputs, enums, i + 1);
                            }
                            return Err(ParseError::MissingField(spec.fields[i].0.clone()));
                        },
                        Some(v) => match encode_wrapped_field_typed(
                            &mut payload,
                            &spec.fields[i].1,
                            v,
                            &self.enumerations,
                        ) {
                            Err(e) => {
                                proof {
                                    lemma_fields_bytes_error(fields, inputs, enums, i + 1);
                                }
                                return Err(e);
                            },
                            Ok(_) => {
                                proof {
                                    let c = typed_bytes(fields[i as int].1, v@, enums)->Ok_0;
                                    assert(payload@ =~= head + (done + c));
                                }
                            },
                        },
                    }
                    i += 1;
                }
                proof {
                    assert(fields.take(fields.len() as int) =~= fields);
                }
                Ok(payload)
            },
        }
    }
}

} // verus!
