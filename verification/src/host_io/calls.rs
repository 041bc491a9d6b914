//! The callers' side of the reactor: what a call hands to it, and what a
//! caller gets back.

use crate::host_io::codec::FieldValue;
use crate::host_io::encode::{named_bytes, typed_args};
use crate::host_io::kalico_native::{KalicoCallOutcome, MessageKind};
use crate::host_io::parse_error::error_text;
use crate::host_io::parser::MsgProtoParser;
use crate::host_io::reactor_types::{call_result, CommandView, ReactorCommand};
use crate::text::copy_text;
use crate::transport::{MessageParams, ParamsView, TransportError, TransportErrorView};
use vstd::prelude::*;

verus! {

/// How a connection is set up. Times are in nanoseconds.
#[derive(Debug, Clone, Copy, PartialEq, Eq, Structural)]
pub struct KalicoHostIoConfig {
    /// How many trace events may wait for their subscriber.
    pub trace_capacity: usize,
    /// How many host events may wait for their subscriber.
    pub host_event_capacity: usize,
    /// How many runtime events may wait for their subscriber.
    pub runtime_event_capacity: usize,
    pub default_call_timeout: u64,
    pub identify_timeout: u64,
    pub default_dispatcher_timeout: u64,
}

impl Default for KalicoHostIoConfig {
    fn default() -> (c: Self)
        ensures
            c == (KalicoHostIoConfig {
                trace_capacity: 256,
                host_event_capacity: 64,
                runtime_event_capacity: 64,
                default_call_timeout: 100_000_000,
                identify_timeout: 15_000_000_000,
                default_dispatcher_timeout: 30_000_000_000,
            }),
    {
        KalicoHostIoConfig {
            trace_capacity: 256,
            host_event_capacity: 64,
            runtime_event_capacity: 64,
            default_call_timeout: 100_000_000,
            identify_timeout: 15_000_000_000,
            default_dispatcher_timeout: 30_000_000_000,
        }
    }
}

/// What waiting for the reactor's answer came to.
#[derive(Debug)]
pub enum Waited<T> {
    Answered(T),
    TimedOut,
    /// The reactor is gone.
    Disconnected,
}

/// What a call gives its caller.
pub open spec fn call_outcome(w: Waited<Result<MessageParams, TransportError>>) -> Result<
    ParamsView,
    TransportErrorView,
> {
    match w {
        Waited::Answered(r) => call_result(r),
        Waited::TimedOut => Err(TransportErrorView::Timeout),
        Waited::Disconnected => Err(TransportErrorView::Closed),
    }
}

/// What a call gives its caller, and whether the reactor is to be told that
/// the caller has stopped waiting: unless it has answered, it is.
pub fn finish_call(w: Waited<Result<MessageParams, TransportError>>) -> (r: (
    Result<MessageParams, TransportError>,
    bool,
))
    ensures
        call_result(r.0) == call_outcome(w),
        r.1 == !(w is Answered),
{
    match w {
        Waited::Answered(r) => (r, false),
        Waited::TimedOut => (Err(TransportError::Timeout), true),
        Waited::Disconnected => (Err(TransportError::Closed), true),
    }
}

/// What a native call gives its caller. A controller that has restarted
/// answers nobody, as if the connection were closed.
pub fn finish_kalico_call(w: Waited<Result<KalicoCallOutcome, TransportError>>) -> (r: Result<
    (MessageKind, Vec<u8>),
    TransportError,
>)
    ensures
        match w {
            Waited::Answered(Ok(KalicoCallOutcome::Response { kind, body })) => r == Ok::<
                _,
                TransportError,
            >((kind, body)),
            Waited::Answered(Ok(KalicoCallOutcome::Reset)) => r matches Err(e) && e@
                == TransportErrorView::Closed,
            Waited::Answered(Err(e)) => r == Err::<(MessageKind, Vec<u8>), _>(e),
            Waited::TimedOut => r matches Err(e) && e@ == TransportErrorView::Timeout,
            Waited::Disconnected => r matches Err(e) && e@ == TransportErrorView::Closed,
        },
{
    match w {
        Waited::Answered(Ok(KalicoCallOutcome::Response { kind, body })) => Ok((kind, body)),
        Waited::Answered(Ok(KalicoCallOutcome::Reset)) => Err(TransportError::Closed),
        Waited::Answered(Err(e)) => Err(e),
        Waited::TimedOut => Err(TransportError::Timeout),
        Waited::Disconnected => Err(TransportError::Closed),
    }
}

/// The request for a textual call.
pub fn call(cmd: &str, expected_response_name: &str, call_id: u64, deadline: u64) -> (r:
    ReactorCommand)
    ensures
        r@ == (CommandView::Submit {
            call_id,
            cmd: cmd@,
            expected_response_name: expected_response_name@,
            deadline,
        }),
{
    ReactorCommand::Submit {
        call_id,
        cmd: copy_text(cmd),
        expected_response_name: copy_text(expected_response_name),
        deadline,
    }
}

/// The request for a typed call, unless its arguments do not fit the message.
pub fn call_typed<'a>(
    parser: &MsgProtoParser,
    name: &str,
    args: &[(&'a str, FieldValue<'a>)],
    expected_response_name: &str,
    call_id: u64,
    deadline: u64,
) -> (r: Result<ReactorCommand, TransportError>)
    ensures
        match r {
            Ok(c) => named_bytes(parser@, name@, typed_args(args@)) matches Ok(b) && c@
                == (CommandView::SubmitTyped {
                call_id,
                payload: b,
                expected_response_name: expected_response_name@,
                deadline,
            }),
            Err(t) => named_bytes(parser@, name@, typed_args(args@)) matches Err(e) && t@
                == TransportErrorView::Parse(error_text(e)),
        },
{
    match parser.encode_typed(name, args) {
        Ok(payload) => Ok(
            ReactorCommand::SubmitTyped {
                call_id,
                payload,
                expected_response_name: copy_text(expected_response_name),
                deadline,
            },
        ),
        Err(e) => Err(e.into_transport()),
    }
}

/// The request to send a typed command without a response, unless its
/// arguments do not fit the message.
pub fn send_typed<'a>(
    parser: &MsgProtoParser,
    name: &str,
    args: &[(&'a str, FieldValue<'a>)],
) -> (r: Result<ReactorCommand, TransportError>)
    ensures
        match r {
            Ok(c) => named_bytes(parser@, name@, typed_args(args@)) matches Ok(b) && c@
                == (CommandView::FireAndForgetTyped { payload: b }),
            Err(t) => named_bytes(parser@, name@, typed_args(args@)) matches Err(e) && t@
                == TransportErrorView::Parse(error_text(e)),
        },
{
    match parser.encode_typed(name, args) {
        Ok(payload) => Ok(ReactorCommand::FireAndForgetTyped { payload }),
        Err(e) => Err(e.into_transport()),
    }
}

/// What the process does when the reactor has ended.
#[derive(Debug, Clone, Copy, PartialEq, Eq, Structural)]
pub enum AfterReactor {
    /// It was to end.
    Nothing,
    /// The connection of a controller that is not critical was lost.
    Warn,
    /// The connection of a critical controller was lost, but the process is to
    /// go on all the same.
    Report,
    /// The connection of a critical controller was lost.
    Abort,
}

/// What the process does when the reactor has ended: it aborts where the
/// connection of a critical controller was lost, unless that is suppressed.
pub fn after_reactor(graceful: bool, critical: bool, no_exit: bool) -> (r: AfterReactor)
    ensures
        r == if graceful {
            AfterReactor::Nothing
        } else if !critical {
            AfterReactor::Warn
        } else if no_exit {
            AfterReactor::Report
        } else {
            AfterReactor::Abort
        },
{
    if graceful {
        AfterReactor::Nothing
    } else if !critical {
        AfterReactor::Warn
    } else if no_exit {
        AfterReactor::Report
    } else {
        AfterReactor::Abort
    }
}

} // verus!
