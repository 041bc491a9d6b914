//! The message parser: built from a data dictionary, it encodes commands and
//! decodes responses and outputs.

use crate::host_io::codec::enum_views;
use crate::host_io::enums::{
    apply_enumeration_wrapping, check_values, named_wrapped, table_of, values_fit, wrapped_fields,
    EnumTable, EnumTableView, EnumValue, WrappedField, WrappedView,
};
use crate::host_io::format::{
    extract_free_form_field_types, free_form_types, parse_format_string, parsed_format, FieldType,
};
use crate::host_io::parse_error::{ErrorView, ParseError};
use crate::ordered_map::OrderedMap;
use crate::text::{copy_text, split_words, texts, words};
use std::collections::{HashMap, HashSet};
use vstd::prelude::*;

verus! {

broadcast use vstd::std_specs::hash::group_hash_axioms;

/// The dictionary that the firmware reports about its messages.
#[derive(Debug)]
pub struct DataDictionary {
    pub commands: OrderedMap<i32>,
    pub responses: OrderedMap<i32>,
    pub output: OrderedMap<i32>,
    pub enumerations: OrderedMap<OrderedMap<EnumValue>>,
    /// The text of the firmware's configuration object.
    pub config: String,
    pub version: String,
    pub app: String,
    pub build_versions: Option<String>,
    pub license: Option<String>,
}

/// The section of the dictionary that a format stands in.
#[derive(Debug, Clone, Copy, PartialEq, Eq, Structural)]
pub enum Section {
    Command,
    Response,
    Output,
}

/// One format of the dictionary.
#[derive(Debug)]
pub struct FormatEntry {
    pub section: Section,
    pub format: String,
    pub msgid: i32,
}

/// Model of [`FormatEntry`].
pub struct FormatEntryView {
    pub section: Section,
    pub format: Seq<char>,
    pub msgid: i32,
}

impl View for FormatEntry {
    type V = FormatEntryView;

    open spec fn view(&self) -> FormatEntryView {
        FormatEntryView { section: self.section, format: self.format@, msgid: self.msgid }
    }
}

/// The formats of one section, in order.
pub open spec fn section_formats(section: Section, m: &OrderedMap<i32>) -> Seq<FormatEntryView> {
    Seq::new(
        m.order().len(),
        |i: int| FormatEntryView { section, format: m.order()[i], msgid: m.values()[i] },
    )
}

/// Model of [`DataDictionary`]: what the parser is made of.
pub struct DictionaryView {
    /// The formats of the commands, then of the responses, then of the
    /// outputs.
    pub formats: Seq<FormatEntryView>,
    pub enum_names: Seq<Seq<char>>,
    pub enum_tables: Map<Seq<char>, EnumTableView>,
    pub config: Seq<char>,
    pub version: Seq<char>,
}

impl View for DataDictionary {
    type V = DictionaryView;

    open spec fn view(&self) -> DictionaryView {
        DictionaryView {
            formats: section_formats(Section::Command, &self.commands) + section_formats(
                Section::Response,
                &self.responses,
            ) + section_formats(Section::Output, &self.output),
            enum_names: self.enumerations.order(),
            enum_tables: self.enumerations@.map_values(
                |d: OrderedMap<EnumValue>| table_of(d.order(), d.values()),
            ),
            config: self.config@,
            version: self.version@,
        }
    }
}

impl DataDictionary {
    /// Whether the numbers of all enumerators stay within `i32`.
    pub open spec fn fits(&self) -> bool {
        forall|i: int|
            0 <= i < self.enumerations.order().len() ==> values_fit(
                &#[trigger] self.enumerations.values()[i],
            )
    }

    /// Whether the numbers of all enumerators stay within `i32`.
    pub fn check(&self) -> (r: bool)
        ensures
            r == self.fits(),
    {
        let n: usize = self.enumerations.len();
        let mut i: usize = 0;
        while i < n
            invariant
                n == self.enumerations.order().len(),
                i <= n,
                forall|j: int|
                    0 <= j < i ==> values_fit(&#[trigger] self.enumerations.values()[j]),
            decreases n - i,
        {
            if !check_values(self.enumerations.entry(i).1) {
                return false;
            }
            i += 1;
        }
        true
    }
}

/// How a message that comes in is read.
#[derive(Debug)]
pub enum DispatchSpec {
    Response(ResponseSpec),
    Output(OutputSpec),
}

/// A response, with its named fields.
#[derive(Debug)]
pub struct ResponseSpec {
    pub name: String,
    pub fields: Vec<(String, WrappedField)>,
}

/// An output, with its fields. A free-form output has no field names: its
/// values are rendered into its format.
#[derive(Debug)]
pub struct OutputSpec {
    pub format: String,
    pub fields: Vec<WrappedField>,
    pub field_names: Vec<String>,
    pub is_free_form: bool,
}

/// A command, with its number and its named fields.
#[derive(Debug)]
pub struct OutboundSpec {
    pub msgid: i32,
    pub fields: Vec<(String, WrappedField)>,
}

/// Model of [`OutputSpec`].
#[verifier::ext_equal]
pub struct OutputView {
    pub format: Seq<char>,
    pub fields: Seq<WrappedView>,
    pub field_names: Seq<Seq<char>>,
    pub is_free_form: bool,
}

/// Model of [`DispatchSpec`].
#[verifier::ext_equal]
pub enum DispatchView {
    Response { name: Seq<char>, fields: Seq<(Seq<char>, WrappedView)> },
    Output(OutputView),
}

/// Model of [`OutboundSpec`].
#[verifier::ext_equal]
pub struct OutboundView {
    pub msgid: i32,
    pub fields: Seq<(Seq<char>, WrappedView)>,
}

/// The types of some fields, as models.
pub open spec fn wrapped_views(v: Seq<WrappedField>) -> Seq<WrappedView> {
    Seq::new(v.len(), |i: int| v[i]@)
}

impl View for OutputSpec {
    type V = OutputView;

    open spec fn view(&self) -> OutputView {
        OutputView {
            format: self.format@,
            fields: wrapped_views(self.fields@),
            field_names: texts(self.field_names@),
            is_free_form: self.is_free_form,
        }
    }
}

impl View for DispatchSpec {
    type V = DispatchView;

    open spec fn view(&self) -> DispatchView {
        match self {
            DispatchSpec::Response(r) => DispatchView::Response {
                name: r.name@,
                fields: named_wrapped(r.fields@),
            },
            DispatchSpec::Output(o) => DispatchView::Output(o@),
        }
    }
}

impl View for OutboundSpec {
    type V = OutboundView;

    open spec fn view(&self) -> OutboundView {
        OutboundView { msgid: self.msgid, fields: named_wrapped(self.fields@) }
    }
}

/// Encodes and decodes the messages of one firmware.
#[derive(Debug)]
pub struct MsgProtoParser {
    pub by_msgid: HashMap<i32, DispatchSpec>,
    pub by_command_name: OrderedMap<OutboundSpec>,
    pub enumerations: OrderedMap<EnumTable>,
    pub static_strings: HashMap<i32, String>,
    pub config: String,
    pub version: String,
}

/// Model of [`MsgProtoParser`].
#[verifier::ext_equal]
pub struct ParserView {
    pub by_msgid: Map<i32, DispatchView>,
    pub by_command_name: Map<Seq<char>, OutboundView>,
    pub enumerations: Map<Seq<char>, EnumTableView>,
    pub static_strings: Map<i32, Seq<char>>,
    pub config: Seq<char>,
    pub version: Seq<char>,
}

/// Dispatch entries, as models.
pub open spec fn dispatch_views(m: Map<i32, DispatchSpec>) -> Map<i32, DispatchView> {
    m.map_values(|d: DispatchSpec| d@)
}

/// Commands, as models.
pub open spec fn outbound_views(m: Map<Seq<char>, OutboundSpec>) -> Map<Seq<char>, OutboundView> {
    m.map_values(|d: OutboundSpec| d@)
}

impl View for MsgProtoParser {
    type V = ParserView;

    open spec fn view(&self) -> ParserView {
        ParserView {
            by_msgid: dispatch_views(self.by_msgid@),
            by_command_name: outbound_views(self.by_command_name@),
            enumerations: enum_views(self.enumerations@),
            static_strings: self.static_strings@.map_values(|s: String| s@),
            config: self.config@,
            version: self.version@,
        }
    }
}

/// The first number or format that occurs a second time, as an error.
pub open spec fn first_clash(es: Seq<FormatEntryView>) -> Option<ErrorView>
    decreases es.len(),
{
    if es.len() == 0 {
        None
    } else {
        let before = es.drop_last();
        match first_clash(before) {
            Some(e) => Some(e),
            None => if exists|i: int|
                0 <= i < before.len() && (#[trigger] before[i]).msgid == es.last().msgid {
                Some(ErrorView::DuplicateMsgid(es.last().msgid))
            } else if exists|i: int|
                0 <= i < before.len() && (#[trigger] before[i]).format == es.last().format {
                Some(ErrorView::DuplicateFormatString(es.last().format))
            } else {
                None
            },
        }
    }
}

/// The name of a message: the first word of its format.
pub open spec fn message_name(format: Seq<char>) -> Seq<char> {
    if words(format).len() > 0 {
        words(format)[0]
    } else {
        Seq::empty()
    }
}

/// The first name of a command or a response that occurs a second time, as an
/// error.
pub open spec fn first_name_clash(es: Seq<FormatEntryView>) -> Option<ErrorView>
    decreases es.len(),
{
    if es.len() == 0 {
        None
    } else {
        let before = es.drop_last();
        let name = message_name(es.last().format);
        match first_name_clash(before) {
            Some(e) => Some(e),
            None => if es.last().section != Section::Output && exists|i: int|
                0 <= i < before.len() && (#[trigger] before[i]).section != Section::Output
                    && message_name(before[i].format) == name {
                Some(ErrorView::DuplicateMessageName(name))
            } else {
                None
            },
        }
    }
}

/// The tables that formats are entered into.
#[verifier::ext_equal]
pub struct TablesView {
    pub by_msgid: Map<i32, DispatchView>,
    pub by_command_name: Map<Seq<char>, OutboundView>,
}

/// Types without enumerations.
pub open spec fn plain_views(ts: Seq<FieldType>) -> Seq<WrappedView> {
    Seq::new(ts.len(), |i: int| WrappedView::Plain(ts[i]))
}

/// The types of named fields.
pub open spec fn second<A, B>(s: Seq<(A, B)>) -> Seq<B> {
    Seq::new(s.len(), |i: int| s[i].1)
}

/// The names of named fields.
pub open spec fn first<A, B>(s: Seq<(A, B)>) -> Seq<A> {
    Seq::new(s.len(), |i: int| s[i].0)
}

/// How an output format is read: by its named fields, or free-form where it
/// does not name them all.
pub open spec fn output_of(format: Seq<char>, names: Seq<Seq<char>>) -> Result<
    OutputView,
    ErrorView,
> {
    match parsed_format(format) {
        Ok(p) => Ok(
            OutputView {
                format,
                fields: second(wrapped_fields(p.1, names)),
                field_names: first(wrapped_fields(p.1, names)),
                is_free_form: false,
            },
        ),
        Err(e) => if e is MalformedField || e is UnknownFormatCode {
            match free_form_types(format, 0) {
                Ok(ts) => Ok(
                    OutputView {
                        format,
                        fields: plain_views(ts),
                        field_names: Seq::empty(),
                        is_free_form: true,
                    },
                ),
                Err(f) => Err(f),
            }
        } else {
            Err(e)
        },
    }
}

/// The tables with one more format.
pub open spec fn entered(t: TablesView, e: FormatEntryView, names: Seq<Seq<char>>) -> Result<
    TablesView,
    ErrorView,
> {
    match e.section {
        Section::Output => match output_of(e.format, names) {
            Ok(o) => Ok(
                TablesView {
                    by_msgid: t.by_msgid.insert(e.msgid, DispatchView::Output(o)),
                    by_command_name: t.by_command_name,
                },
            ),
            Err(err) => Err(err),
        },
        _ => match parsed_format(e.format) {
            Ok(p) => {
                let fields = wrapped_fields(p.1, names);
                Ok(
                    TablesView {
                        by_msgid: t.by_msgid.insert(
                            e.msgid,
                            DispatchView::Response { name: p.0, fields },
                        ),
                        by_command_name: if e.section == Section::Command {
                            t.by_command_name.insert(
                                p.0,
                                OutboundView { msgid: e.msgid, fields },
                            )
                        } else {
                            t.by_command_name
                        },
                    },
                )
            },
            Err(err) => Err(err),
        },
    }
}

/// The tables of some formats; the first format that cannot be read gives the
/// error.
pub open spec fn tables_of(es: Seq<FormatEntryView>, names: Seq<Seq<char>>) -> Result<
    TablesView,
    ErrorView,
>
    decreases es.len(),
{
    if es.len() == 0 {
        Ok(TablesView { by_msgid: Map::empty(), by_command_name: Map::empty() })
    } else {
        match tables_of(es.drop_last(), names) {
            Err(e) => Err(e),
            Ok(t) => entered(t, es.last(), names),
        }
    }
}

/// The enumeration of static strings, number by number.
pub open spec fn static_strings_of(tables: Map<Seq<char>, EnumTableView>) -> Map<i32, Seq<char>> {
    if tables.contains_key("static_string_id"@) {
        tables["static_string_id"@].by_int
    } else {
        Map::empty()
    }
}

/// The parser of a dictionary, or what is wrong with the dictionary.
pub open spec fn parser_of(d: DictionaryView) -> Result<ParserView, ErrorView> {
    match first_clash(d.formats) {
        Some(e) => Err(e),
        None => match first_name_clash(d.formats) {
            Some(e) => Err(e),
            None => match tables_of(d.formats, d.enum_names) {
                Err(e) => Err(e),
                Ok(t) => Ok(
                    ParserView {
                        by_msgid: t.by_msgid,
                        by_command_name: t.by_command_name,
                        enumerations: d.enum_tables,
                        static_strings: static_strings_of(d.enum_tables),
                        config: d.config,
                        version: d.version,
                    },
                ),
            },
        },
    }
}

/// Formats, as models.
pub open spec fn entry_views(v: Seq<FormatEntry>) -> Seq<FormatEntryView> {
    Seq::new(v.len(), |i: int| v[i]@)
}

proof fn lemma_first_clash_error(es: Seq<FormatEntryView>, n: int)
    requires
        0 <= n <= es.len(),
        first_clash(es.take(n)) is Some,
    ensures
        first_clash(es) == first_clash(es.take(n)),
    decreases es.len(),
{
    if n == es.len() {
        assert(es.take(n) =~= es);
    } else {
        assert(es.drop_last().take(n) =~= es.take(n));
        lemma_first_clash_error(es.drop_last(), n);
    }
}

proof fn lemma_first_name_clash_error(es: Seq<FormatEntryView>, n: int)
    requires
        0 <= n <= es.len(),
        first_name_clash(es.take(n)) is Some,
    ensures
        first_name_clash(es) == first_name_clash(es.take(n)),
    decreases es.len(),
{
    if n == es.len() {
        assert(es.take(n) =~= es);
    } else {
        assert(es.drop_last().take(n) =~= es.take(n));
        lemma_first_name_clash_error(es.drop_last(), n);
    }
}

proof fn lemma_tables_of_error(es: Seq<FormatEntryView>, names: Seq<Seq<char>>, n: int)
    requires
        0 <= n <= es.len(),
        tables_of(es.take(n), names) is Err,
    ensures
        tables_of(es, names) == tables_of(es.take(n), names),
    decreases es.len(),
{
    if n == es.len() {
        assert(es.take(n) =~= es);
    } else {
        assert(es.drop_last().take(n) =~= es.take(n));
        lemma_tables_of_error(es.drop_last(), names, n);
    }
}

/// Appends the formats of one section.
fn push_section(out: &mut Vec<FormatEntry>, section: Section, m: &OrderedMap<i32>)
    ensures
        entry_views(final(out)@) == entry_views(old(out)@) + section_formats(section, m),
{
    let n: usize = m.len();
    let mut i: usize = 0;
    let ghost before = entry_views(out@);
    proof {
        assert(before + section_formats(section, m).take(0) =~= before);
    }
    while i < n
        invariant
            n == m.order().len(),
            n == m.values().len(),
            i <= n,
            entry_views(out@) == before + section_formats(section, m).take(i as int),
        decreases n - i,
    {
        let e = m.entry(i);
        let ghost was = entry_views(out@);
        let f = FormatEntry { section, format: e.0.clone(), msgid: *e.1 };
        let ghost fv = f@;
        out.push(f);
        proof {
            assert(entry_views(out@) =~= was.push(fv));
            let s = section_formats(section, m);
            assert(s.take(i + 1) =~= s.take(i as int).push(s[i as int]));
            assert(s[i as int] == fv);
            assert(entry_views(out@) =~= before + s.take(i + 1));
        }
        i += 1;
    }
    proof {
        let s = section_formats(section, m);
        assert(s.take(n as int) =~= s);
    }
}

/// Finds the first number or format that occurs a second time.
fn find_clash(es: &Vec<FormatEntry>) -> (r: Option<ParseError>)
    ensures
        match r {
            Some(e) => first_clash(entry_views(es@)) == Some(e@),
            None => first_clash(entry_views(es@)) is None,
        },
{
    let ghost all = entry_views(es@);
    let mut ids: HashSet<i32> = HashSet::new();
    let mut formats: OrderedMap<bool> = OrderedMap::new();
    let mut i: usize = 0;
    while i < es.len()
        invariant
            i <= es.len(),
            all == entry_views(es@),
            first_clash(all.take(i as int)) is None,
            forall|k: i32|
                ids@.contains(k) <==> (exists|j: int|
                    0 <= j < i && (#[trigger] all.take(i as int)[j]).msgid == k),
            forall|f: Seq<char>|
                formats@.contains_key(f) <==> (exists|j: int|
                    0 <= j < i && (#[trigger] all.take(i as int)[j]).format == f),
        decreases es.len() - i,
    {
        let ghost was = all.take(i as int);
        let ghost now = all.take(i + 1);
        proof {
            assert(now.drop_last() =~= was);
            assert(now.last() == es@[i as int]@);
        }
        if ids.contains(&es[i].msgid) {
            proof {
                lemma_first_clash_error(all, i + 1);
            }
            return Some(ParseError::DuplicateMsgid(es[i].msgid));
        }
        match formats.get(es[i].format.as_str()) {
            Some(_) => {
                proof {
                    lemma_first_clash_error(all, i + 1);
                }
                return Some(ParseError::DuplicateFormatString(es[i].format.clone()));
            },
            None => {},
        }
        ids.insert(es[i].msgid);
        let ghost had = formats@;
        formats.insert(es[i].format.clone(), true);
        proof {
            assert(now[i as int] == es@[i as int]@);
            assert forall|j: int| 0 <= j < i implies #[trigger] now[j] == was[j] by {}
            assert forall|k: i32| #[trigger]
                ids@.contains(k) implies (exists|j: int|
                0 <= j < i + 1 && (#[trigger] now[j]).msgid == k) by {
                if k != es@[i as int].msgid {
                    let j = choose|j: int| 0 <= j < i && (#[trigger] was[j]).msgid == k;
                    assert(now[j].msgid == k);
                }
            }
            assert forall|k: i32, j: int|
                0 <= j < i + 1 && (#[trigger] now[j]).msgid == k implies #[trigger] ids@.contains(
                k,
            ) by {
                if j < i {
                    assert(was[j].msgid == k);
                }
            }
            assert forall|f: Seq<char>| #[trigger]
                formats@.contains_key(f) implies (exists|j: int|
                0 <= j < i + 1 && (#[trigger] now[j]).format == f) by {
                if f != es@[i as int].format@ {
                    assert(had.contains_key(f));
                    let j = choose|j: int| 0 <= j < i && (#[trigger] was[j]).format == f;
                    assert(now[j].format == f);
                }
            }
            assert forall|f: Seq<char>, j: int|
                0 <= j < i + 1 && (#[trigger] now[j]).format
                    == f implies #[trigger] formats@.contains_key(f) by {
                if j < i {
                    assert(was[j].format == f);
                    assert(had.contains_key(f));
                }
            }
        }
        i += 1;
    }
    proof {
        assert(all.take(all.len() as int) =~= all);
    }
    None
}

/// The name of a message.
pub fn name_of(format: &str) -> (r: String)
    ensures
        r@ == message_name(format@),
{
    let ws: Vec<String> = split_words(format);
    if ws.len() > 0 {
        proof {
            assert(texts(ws@)[0] == ws@[0]@);
        }
        ws[0].clone()
    } else {
        String::new()
    }
}

/// Finds the first name of a command or a response that occurs a second time.
fn find_name_clash(es: &Vec<FormatEntry>) -> (r: Option<ParseError>)
    ensures
        match r {
            Some(e) => first_name_clash(entry_views(es@)) == Some(e@),
            None => first_name_clash(entry_views(es@)) is None,
        },
{
    let ghost all = entry_views(es@);
    let mut names: OrderedMap<bool> = OrderedMap::new();
    let mut i: usize = 0;
    while i < es.len()
        invariant
            i <= es.len(),
            all == entry_views(es@),
            first_name_clash(all.take(i as int)) is None,
            forall|f: Seq<char>|
                names@.contains_key(f) <==> (exists|j: int|
                    0 <= j < i && (#[trigger] all.take(i as int)[j]).section != Section::Output
                        && message_name(all.take(i as int)[j].format) == f),
        decreases es.len() - i,
    {
        let ghost was = all.take(i as int);
        let ghost now = all.take(i + 1);
        let ghost had = names@;
        proof {
            assert(now.drop_last() =~= was);
            assert(now.last() == es@[i as int]@);
            assert(now[i as int] == es@[i as int]@);
            assert forall|j: int| 0 <= j < i implies #[trigger] now[j] == was[j] by {}
        }
        match es[i].section {
            Section::Output => {},
            _ => {
                let name: String = name_of(es[i].format.as_str());
                match names.get(name.as_str()) {
                    Some(_) => {
                        proof {
                            lemma_first_name_clash_error(all, i + 1);
                        }
                        return Some(ParseError::DuplicateMessageName(name));
                    },
                    None => {},
                }
                names.insert(name, true);
            },
        }
        proof {
            let here = es@[i as int]@;
            assert forall|f: Seq<char>| #[trigger]
                names@.contains_key(f) implies (exists|j: int|
                0 <= j < i + 1 && (#[trigger] now[j]).section != Section::Output && message_name(
                    now[j].format,
                ) == f) by {
                if had.contains_key(f) {
                    let j = choose|j: int|
                        0 <= j < i && (#[trigger] was[j]).section != Section::Output
                            && message_name(was[j].format) == f;
                    assert(now[j].section != Section::Output);
                } else {
                    assert(now[i as int].section != Section::Output);
                }
            }
            assert forall|f: Seq<char>, j: int|
                0 <= j < i + 1 && (#[trigger] now[j]).section != Section::Output && message_name(
                    now[j].format,
                ) == f implies #[trigger] names@.contains_key(f) by {
                if j < i {
                    assert(was[j].section != Section::Output);
                    assert(had.contains_key(f));
                }
            }
        }
        i += 1;
    }
    proof {
        assert(all.take(all.len() as int) =~= all);
    }
    None
}

/// A copy of named fields.
fn copy_fields(v: &Vec<(String, WrappedField)>) -> (r: Vec<(String, WrappedField)>)
    ensures
        named_wrapped(r@) == named_wrapped(v@),
{
    let mut out: Vec<(String, WrappedField)> = Vec::new();
    let mut i: usize = 0;
    while i < v.len()
        invariant
            i <= v.len(),
            i == out.len(),
            forall|j: int|
                0 <= j < i ==> (#[trigger] out@[j]).0@ == v@[j].0@ && out@[j].1@ == v@[j].1@,
        decreases v.len() - i,
    {
        out.push((v[i].0.clone(), v[i].1.copied()));
        i += 1;
    }
    proof {
        assert(named_wrapped(out@) =~= named_wrapped(v@));
    }
    out
}

/// Reads an output format.
fn read_output(format: &String, enums: &OrderedMap<OrderedMap<EnumValue>>) -> (r: Result<
    OutputSpec,
    ParseError,
>)
    ensures
        match r {
            Ok(o) => output_of(format@, enums.order()) == Ok::<_, ErrorView>(o@),
            Err(e) => output_of(format@, enums.order()) == Err::<OutputView, _>(e@),
        },
{
    match parse_format_string(format.as_str()) {
        Ok(p) => {
            let w: Vec<(String, WrappedField)> = apply_enumeration_wrapping(p.1, enums);
            let ghost want = named_wrapped(w@);
            let mut fields: Vec<WrappedField> = Vec::new();
            let mut names: Vec<String> = Vec::new();
            let mut i: usize = 0;
            while i < w.len()
                invariant
                    i <= w.len(),
                    i == fields.len(),
                    i == names.len(),
                    forall|j: int| 0 <= j < i ==> (#[trigger] fields@[j])@ == w@[j].1@,
                    forall|j: int| 0 <= j < i ==> (#[trigger] names@[j])@ == w@[j].0@,
                decreases w.len() - i,
            {
                fields.push(w[i].1.copied());
                names.push(w[i].0.clone());
                i += 1;
            }
            proof {
                assert(wrapped_views(fields@) =~= second(want));
                assert(texts(names@) =~= first(want));
            }
            Ok(
                OutputSpec {
                    format: format.clone(),
                    fields,
                    field_names: names,
                    is_free_form: false,
                },
            )
        },
        Err(e) => match e {
            ParseError::MalformedField | ParseError::UnknownFormatCode(_) => {
                match extract_free_form_field_types(format.as_str()) {
                    Err(f) => Err(f),
                    Ok(ts) => {
                        let mut fields: Vec<WrappedField> = Vec::new();
                        let mut i: usize = 0;
                        while i < ts.len()
                            invariant
                                i <= ts.len(),
                                i == fields.len(),
                                forall|j: int|
                                    0 <= j < i ==> (#[trigger] fields@[j])@ == WrappedView::Plain(
                                        ts@[j],
                                    ),
                            decreases ts.len() - i,
                        {
                            fields.push(WrappedField::Plain(ts[i]));
                            i += 1;
                        }
                        let names: Vec<String> = Vec::new();
                        proof {
                            assert(wrapped_views(fields@) =~= plain_views(ts@));
                            assert(texts(names@) =~= Seq::<Seq<char>>::empty());
                        }
                        Ok(
                            OutputSpec {
                                format: format.clone(),
                                fields,
                                field_names: names,
                                is_free_form: true,
                            },
                        )
                    },
                }
            },
            other => Err(other),
        },
    }
}

/// Builds the tables of all enumerations.
fn build_enumerations(d: &DataDictionary) -> (r: OrderedMap<EnumTable>)
    requires
        d.fits(),
    ensures
        enum_views(r@) == d@.enum_tables,
{
    let n: usize = d.enumerations.len();
    let ghost names = d.enumerations.order();
    let ghost tables = d.enumerations.values();
    let mut out: OrderedMap<EnumTable> = OrderedMap::new();
    let mut i: usize = 0;
    while i < n
        invariant
            n == names.len(),
            n == tables.len(),
            names == d.enumerations.order(),
            tables == d.enumerations.values(),
            d.fits(),
            crate::ordered_map::distinct(names),
            i <= n,
            forall|k: Seq<char>|
                out@.contains_key(k) <==> (exists|j: int| 0 <= j < i && #[trigger] names[j] == k),
            forall|j: int|
                0 <= j < i ==> out@.contains_key(#[trigger] names[j]) && out@[names[j]]@
                    == table_of(tables[j].order(), tables[j].values()),
        decreases n - i,
    {
        let e = d.enumerations.entry(i);
        proof {
            assert(values_fit(&d.enumerations.values()[i as int]));
        }
        let t: EnumTable = EnumTable::from_dict(e.1);
        let ghost had = out@;
        out.insert(e.0.clone(), t);
        proof {
            assert forall|k: Seq<char>| #[trigger]
                out@.contains_key(k) implies (exists|j: int|
                0 <= j < i + 1 && #[trigger] names[j] == k) by {
                if had.contains_key(k) {
                    let j = choose|j: int| 0 <= j < i && #[trigger] names[j] == k;
                    assert(names[j] == k);
                } else {
                    assert(names[i as int] == k);
                }
            }
        }
        i += 1;
    }
    proof {
        let want = d@.enum_tables;
        let got = enum_views(out@);
        assert forall|k: Seq<char>| #[trigger] want.contains_key(k) <==> got.contains_key(k) by {
            if want.contains_key(k) {
                let j = names.index_of(k);
                assert(names[j] == k);
                assert(out@.contains_key(k));
            }
            if got.contains_key(k) {
                let j = choose|j: int| 0 <= j < n && #[trigger] names[j] == k;
                assert(names.contains(k));
            }
        }
        assert forall|k: Seq<char>| want.contains_key(k) implies #[trigger] want[k] == got[k] by {
            let j = names.index_of(k);
            assert(names[j] == k);
            assert(d.enumerations@[names[j]] == tables[j]);
        }
        assert(got =~= want);
    }
    out
}

impl MsgProtoParser {
    /// A parser without messages.
    pub fn new_empty() -> (p: Self)
        ensures
            p@ == (ParserView {
                by_msgid: Map::empty(),
                by_command_name: Map::empty(),
                enumerations: Map::empty(),
                static_strings: Map::empty(),
                config: "{}"@,
                version: "empty"@,
            }),
    {
        let p = MsgProtoParser {
            by_msgid: HashMap::new(),
            by_command_name: OrderedMap::new(),
            enumerations: OrderedMap::new(),
            static_strings: HashMap::new(),
            config: copy_text("{}"),
            version: copy_text("empty"),
        };
        proof {
            assert(p@.by_msgid =~= Map::<i32, DispatchView>::empty());
            assert(p@.by_command_name =~= Map::<Seq<char>, OutboundView>::empty());
            assert(p@.enumerations =~= Map::<Seq<char>, EnumTableView>::empty());
            assert(p@.static_strings =~= Map::<i32, Seq<char>>::empty());
        }
        p
    }

    /// The parser of a dictionary. Numbers and formats must be unique over all
    /// sections, names over commands and responses; every format must be
    /// readable, an output at least free-form.
    pub fn from_dictionary(dict: DataDictionary) -> (r: Result<Self, ParseError>)
        requires
            dict.fits(),
        ensures
            match r {
                Ok(p) => parser_of(dict@) == Ok::<_, ErrorView>(p@),
                Err(e) => parser_of(dict@) == Err::<ParserView, _>(e@),
            },
    {
        let mut es: Vec<FormatEntry> = Vec::new();
        push_section(&mut es, Section::Command, &dict.commands);
        push_section(&mut es, Section::Response, &dict.responses);
        push_section(&mut es, Section::Output, &dict.output);
        let ghost all = dict@.formats;
        let ghost names = dict@.enum_names;
        proof {
            assert(entry_views(es@) =~= all);
        }
        match find_clash(&es) {
            Some(e) => return Err(e),
            None => {},
        }
        match find_name_clash(&es) {
            Some(e) => return Err(e),
            None => {},
        }
        let enumerations: OrderedMap<EnumTable> = build_enumerations(&dict);
        let mut by_msgid: HashMap<i32, DispatchSpec> = HashMap::new();
        let mut by_command_name: OrderedMap<OutboundSpec> = OrderedMap::new();
        let mut i: usize = 0;
        proof {
            assert(dispatch_views(by_msgid@) =~= Map::<i32, DispatchView>::empty());
            assert(outbound_views(by_command_name@) =~= Map::<Seq<char>, OutboundView>::empty());
        }
        while i < es.len()
            invariant
                i <= es.len(),
                entry_views(es@) == all,
                all == dict@.formats,
                names == dict@.enum_names,
                names == dict.enumerations.order(),
                first_clash(all) is None,
                first_name_clash(all) is None,
                tables_of(all.take(i as int), names) == Ok::<_, ErrorView>(
                    TablesView {
                        by_msgid: dispatch_views(by_msgid@),
                        by_command_name: outbound_views(by_command_name@),
                    },
                ),
            decreases es.len() - i,
        {
            let ghost was = TablesView {
                by_msgid: dispatch_views(by_msgid@),
                by_command_name: outbound_views(by_command_name@),
            };
            let msgid: i32 = es[i].msgid;
            proof {
                assert(all.take(i + 1).drop_last() =~= all.take(i as int));
                assert(all.take(i + 1).last() == es@[i as int]@);
            }
            match es[i].section {
                Section::Output => match read_output(&es[i].format, &dict.enumerations) {
                    Err(e) => {
                        proof {
                            lemma_tables_of_error(all, names, i + 1);
                        }
                        return Err(e);
                    },
                    Ok(o) => {
                        let d = DispatchSpec::Output(o);
                        let ghost dv = d@;
                        by_msgid.insert(msgid, d);
                        proof {
                            assert(dispatch_views(by_msgid@) =~= was.by_msgid.insert(msgid, dv));
                        }
                    },
                },
                _ => match parse_format_string(es[i].format.as_str()) {
                    Err(e) => {
                        proof {
                            lemma_tables_of_error(all, names, i + 1);
                        }
                        return Err(e);
                    },
                    Ok(p) => {
                        let name: String = p.0;
                        let fields: Vec<(String, WrappedField)> = apply_enumeration_wrapping(
                            p.1,
                            &dict.enumerations,
                        );
                        let ghost nv = name@;
                        let ghost fv = named_wrapped(fields@);
                        if es[i].section == Section::Command {
                            let o = OutboundSpec { msgid, fields: copy_fields(&fields) };
                            let ghost ov = o@;
                            by_command_name.insert(name.clone(), o);
                            proof {
                                assert(ov =~= (OutboundView { msgid, fields: fv }));
                                assert(outbound_views(by_command_name@)
                                    =~= was.by_command_name.insert(nv, ov));
                            }
                        }
                        let d = DispatchSpec::Response(ResponseSpec { name, fields });
                        let ghost dv = d@;
                        by_msgid.insert(msgid, d);
                        proof {
                            assert(dispatch_views(by_msgid@) =~= was.by_msgid.insert(msgid, dv));
                        }
                    },
                },
            }
            i += 1;
        }
        proof {
            assert(all.take(all.len() as int) =~= all);
        }
        let static_strings: HashMap<i32, String> = match enumerations.get("static_string_id") {
            Some(t) => t.by_int.clone(),
            None => HashMap::new(),
        };
        proof {
            assert(static_strings@.map_values(|s: String| s@) =~= static_strings_of(
                dict@.enum_tables,
            ));
        }
        Ok(
            MsgProtoParser {
                by_msgid,
                by_command_name,
                enumerations,
                static_strings,
                config: dict.config,
                version: dict.version,
            },
        )
    }
}

} // verus!
