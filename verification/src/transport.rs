//! Message parameters and the errors of the transport surface.

use crate::host_io::codec::FieldValue;
use crate::host_io::parse_error::{around, enclose};
use crate::ordered_map::OrderedMap;
use crate::text::{copy_text, debug_text, str_debug};
use vstd::prelude::*;

verus! {

/// The value of one message field.
#[derive(Debug)]
pub enum MessageValue {
    U32(u32),
    I32(i32),
    Bytes(Vec<u8>),
    String(String),
}

/// Model of [`MessageValue`].
pub enum ValueView {
    U32(u32),
    I32(i32),
    Bytes(Seq<u8>),
    String(Seq<char>),
}

impl View for MessageValue {
    type V = ValueView;

    open spec fn view(&self) -> ValueView {
        match self {
            MessageValue::U32(v) => ValueView::U32(*v),
            MessageValue::I32(v) => ValueView::I32(*v),
            MessageValue::Bytes(b) => ValueView::Bytes(b@),
            MessageValue::String(s) => ValueView::String(s@),
        }
    }
}

/// The value as an unsigned number, if it is one. A signed number is taken by
/// its bits.
pub open spec fn value_u32(v: ValueView) -> Option<u32> {
    match v {
        ValueView::U32(n) => Some(n),
        ValueView::I32(n) => Some(n as u32),
        _ => None,
    }
}

/// The decoded fields of one message, by name.
#[derive(Debug)]
pub struct MessageParams {
    pub fields: OrderedMap<MessageValue>,
}

/// Model of message fields.
pub type ParamsView = Map<Seq<char>, ValueView>;

impl View for MessageParams {
    type V = ParamsView;

    open spec fn view(&self) -> ParamsView {
        self.fields@.map_values(|v: MessageValue| v@)
    }
}

/// The unsigned value of a field, where it is there and is a number.
pub open spec fn param_u32(p: ParamsView, name: Seq<char>) -> Option<u32> {
    if p.contains_key(name) {
        value_u32(p[name])
    } else {
        None
    }
}

/// The unsigned value of a field, zero where there is none.
pub open spec fn param_u32_or_zero(p: ParamsView, name: Seq<char>) -> u32 {
    match param_u32(p, name) {
        Some(v) => v,
        None => 0,
    }
}

/// The bytes of a field, where it is there and holds bytes.
pub open spec fn param_bytes(p: ParamsView, name: Seq<char>) -> Option<Seq<u8>> {
    if p.contains_key(name) {
        match p[name] {
            ValueView::Bytes(b) => Some(b),
            _ => None,
        }
    } else {
        None
    }
}

/// The text of a field, where it is there and holds text.
pub open spec fn param_str(p: ParamsView, name: Seq<char>) -> Option<Seq<char>> {
    if p.contains_key(name) {
        match p[name] {
            ValueView::String(s) => Some(s),
            _ => None,
        }
    } else {
        None
    }
}

impl MessageParams {
    /// No fields.
    pub fn new() -> (p: Self)
        ensures
            p@ == ParamsView::empty(),
    {
        let p = MessageParams { fields: OrderedMap::new() };
        proof {
            assert(p@ =~= ParamsView::empty());
        }
        p
    }

    /// Sets a field.
    pub fn insert(&mut self, name: &str, value: MessageValue)
        ensures
            final(self)@ == old(self)@.insert(name@, value@),
    {
        let ghost before = self.fields@;
        self.fields.insert(name.to_owned(), value);
        proof {
            assert(self.fields@ == before.insert(name@, value));
            assert(self@ =~= old(self)@.insert(name@, value@));
        }
    }

    /// Whether a field is there.
    pub fn has(&self, name: &str) -> (r: bool)
        ensures
            r == self@.contains_key(name@),
    {
        self.fields.get(name).is_some()
    }

    /// The unsigned value of a field, if it holds a number.
    pub fn try_get_u32(&self, name: &str) -> (r: Option<u32>)
        ensures
            r == param_u32(self@, name@),
    {
        match self.fields.get(name) {
            Some(v) => match v {
                MessageValue::U32(n) => Some(*n),
                MessageValue::I32(n) => Some(*n as u32),
                MessageValue::Bytes(_) => None,
                MessageValue::String(_) => None,
            },
            None => None,
        }
    }

    /// The unsigned value of a field, zero where it holds no number.
    pub fn get_u32(&self, name: &str) -> (r: u32)
        ensures
            r == param_u32_or_zero(self@, name@),
    {
        match self.try_get_u32(name) {
            Some(v) => v,
            None => 0,
        }
    }

    /// The bytes of a field.
    pub fn get_bytes(&self, name: &str) -> (r: Option<&Vec<u8>>)
        ensures
            match r {
                Some(b) => param_bytes(self@, name@) == Some(b@),
                None => param_bytes(self@, name@) is None,
            },
    {
        match self.fields.get(name) {
            Some(v) => match v {
                MessageValue::Bytes(b) => Some(b),
                _ => None,
            },
            None => None,
        }
    }

    /// The text of a field.
    pub fn try_get_str(&self, name: &str) -> (r: Option<&str>)
        ensures
            match r {
                Some(s) => param_str(self@, name@) == Some(s@),
                None => param_str(self@, name@) is None,
            },
    {
        match self.fields.get(name) {
            Some(v) => match v {
                MessageValue::String(s) => Some(s.as_str()),
                _ => None,
            },
            None => None,
        }
    }
}

/// Why a transport call failed.
#[derive(Debug)]
pub enum TransportError {
    Io(String),
    Parse(String),
    Backpressure,
    Closed,
    Timeout,
    DispatcherTimeout,
}

/// Model of [`TransportError`].
pub enum TransportErrorView {
    Io(Seq<char>),
    Parse(Seq<char>),
    Backpressure,
    Closed,
    Timeout,
    DispatcherTimeout,
}

impl View for TransportError {
    type V = TransportErrorView;

    open spec fn view(&self) -> TransportErrorView {
        match self {
            TransportError::Io(s) => TransportErrorView::Io(s@),
            TransportError::Parse(s) => TransportErrorView::Parse(s@),
            TransportError::Backpressure => TransportErrorView::Backpressure,
            TransportError::Closed => TransportErrorView::Closed,
            TransportError::Timeout => TransportErrorView::Timeout,
            TransportError::DispatcherTimeout => TransportErrorView::DispatcherTimeout,
        }
    }
}

/// Why a subscription was refused.
#[derive(Debug)]
pub enum SubscribeError {
    AlreadySubscribed { channel: &'static str },
    Closed,
}

/// Whether a subscription was refused because the channel has a subscriber.
pub open spec fn refused(e: SubscribeError, name: Seq<char>) -> bool {
    e matches SubscribeError::AlreadySubscribed { channel } && channel@ == name
}

/// A transport error in words.
pub open spec fn transport_error_text(e: TransportErrorView) -> Seq<char> {
    match e {
        TransportErrorView::Io(s) => around("Io("@, str_debug(s), ")"@),
        TransportErrorView::Parse(s) => around("Parse("@, str_debug(s), ")"@),
        TransportErrorView::Backpressure => "Backpressure"@,
        TransportErrorView::Closed => "Closed"@,
        TransportErrorView::Timeout => "Timeout"@,
        TransportErrorView::DispatcherTimeout => "DispatcherTimeout"@,
    }
}

impl TransportError {
    /// The error in words.
    pub fn to_text(&self) -> (r: String)
        ensures
            r@ == transport_error_text(self@),
    {
        match self {
            TransportError::Io(s) => enclose("Io(", debug_text(s.as_str()), ")"),
            TransportError::Parse(s) => enclose("Parse(", debug_text(s.as_str()), ")"),
            TransportError::Backpressure => copy_text("Backpressure"),
            TransportError::Closed => copy_text("Closed"),
            TransportError::Timeout => copy_text("Timeout"),
            TransportError::DispatcherTimeout => copy_text("DispatcherTimeout"),
        }
    }
}

/// Sends commands to a controller and waits for their responses.
pub trait Transport {
    /// Sends a textual command and waits for a response of the given name, at
    /// most `timeout` nanoseconds.
    fn call(
        &self,
        cmd: &str,
        response: &str,
        timeout: u64,
    ) -> Result<MessageParams, TransportError>;

    /// Sends a command with typed values and waits for a response of the
    /// given name, at most `timeout` nanoseconds.
    fn call_typed(
        &self,
        name: &str,
        args: &[(&str, FieldValue<'_>)],
        response: &str,
        timeout: u64,
    ) -> Result<MessageParams, TransportError>;

    /// Sends a command with typed values that has no response.
    fn send_typed(
        &self,
        name: &str,
        args: &[(&str, FieldValue<'_>)],
    ) -> Result<(), TransportError>;
}

/// A field is read as what it holds: a number as an unsigned one, a negative one
/// from the top of the numbers down; what is not there is not read.
pub proof fn law_fields_are_read(
    p: ParamsView,
    name: Seq<char>,
    other: Seq<char>,
    n: u32,
    i: i32,
    b: Seq<u8>,
    s: Seq<char>,
)
    requires
        other != name,
    ensures
        param_u32(p.insert(name, ValueView::U32(n)), name) == Some(n),
        param_u32(p.insert(name, ValueView::I32(i)), name) == Some(
            (if i >= 0 {
                i as int
            } else {
                i + 0x1_0000_0000
            }) as u32,
        ),
        param_u32(p.insert(name, ValueView::Bytes(b)), name) is None,
        param_u32(p.insert(other, ValueView::U32(n)), name) == param_u32(p, name),
        param_u32(p.remove(name), name) is None,
        param_u32_or_zero(p.remove(name), name) == 0,
        param_bytes(p.insert(name, ValueView::Bytes(b)), name) == Some(b),
        param_bytes(p.insert(name, ValueView::U32(n)), name) is None,
        param_str(p.insert(name, ValueView::String(s)), name) == Some(s),
        param_str(p.insert(name, ValueView::Bytes(b)), name) is None,
{
    assert(i < 0 ==> (i as u32) == i + 0x1_0000_0000) by (bit_vector);
}

} // verus!
