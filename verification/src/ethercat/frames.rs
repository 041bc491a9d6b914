//! The messages that the endpoint sends: where each goes, which request it
//! answers, and what it says. How a message's header and fields are laid out
//! in bytes is the codec's part.

use crate::ethercat::claim::{ClaimHandshakeReply, SlaveStatus};
use crate::ethercat::endpoint::{Reply, ReplyView};
use crate::host_io::kalico_native::{CHANNEL_CONTROL, CHANNEL_EVENTS};
use vstd::prelude::*;

verus! {

/// What the endpoint says of itself.
#[derive(Debug)]
pub struct IdentifyResponse {
    pub proto_version: u8,
    pub firmware_ver: u32,
    pub build_hash: Vec<u8>,
    pub schema_hash: Vec<u8>,
    pub reset_epoch: u32,
    pub capabilities: u64,
    pub mcu_serial: Vec<u8>,
}

/// Model of [`IdentifyResponse`].
#[verifier::ext_equal]
pub struct IdentifyResponseView {
    pub proto_version: u8,
    pub firmware_ver: u32,
    pub build_hash: Seq<u8>,
    pub schema_hash: Seq<u8>,
    pub reset_epoch: u32,
    pub capabilities: u64,
    pub mcu_serial: Seq<u8>,
}

impl View for IdentifyResponse {
    type V = IdentifyResponseView;

    open spec fn view(&self) -> IdentifyResponseView {
        IdentifyResponseView {
            proto_version: self.proto_version,
            firmware_ver: self.firmware_ver,
            build_hash: self.build_hash@,
            schema_hash: self.schema_hash@,
            reset_epoch: self.reset_epoch,
            capabilities: self.capabilities,
            mcu_serial: self.mcu_serial@,
        }
    }
}

/// The length of the hash of a build.
pub const BUILD_HASH_LEN: usize = 20;

/// The length of the hash of a message schema.
pub const SCHEMA_HASH_LEN: usize = 32;

/// So many zero bytes.
pub open spec fn zero_bytes(n: nat) -> Seq<u8> {
    Seq::new(n, |i: int| 0u8)
}

/// The serial number that the endpoint gives: `ETHERCAT-RT` and a zero byte.
pub open spec fn own_serial() -> Seq<u8> {
    seq![69u8, 84, 72, 69, 82, 67, 65, 84, 45, 82, 84, 0]
}

fn zeros(n: usize) -> (r: Vec<u8>)
    ensures
        r@ == zero_bytes(n as nat),
{
    let mut out: Vec<u8> = Vec::new();
    while out.len() < n
        invariant
            out@.len() <= n,
            forall|i: int| 0 <= i < out@.len() ==> #[trigger] out@[i] == 0,
        decreases n - out@.len(),
    {
        out.push(0);
    }
    proof {
        assert(out@ =~= zero_bytes(n as nat));
    }
    out
}

/// The kind of a message, with its fields.
#[derive(Debug)]
pub enum ReplyBody {
    IdentifyResponse(IdentifyResponse),
    PushPiecesResponse { result: i32, arrival_clock: u64, front_start_time: u64 },
    RuntimeCapsResponse { total_piece_memory: u32 },
    ClaimHandshakeReply(ClaimHandshakeReply),
    SetTorqueResponse(i32),
    StatusHeartbeat { engine_state: u8, fault_code: u32, retired_counts: Vec<u32> },
}

/// Model of [`ReplyBody`].
#[verifier::ext_equal]
pub enum ReplyBodyView {
    IdentifyResponse(IdentifyResponseView),
    PushPiecesResponse { result: i32, arrival_clock: u64, front_start_time: u64 },
    RuntimeCapsResponse { total_piece_memory: u32 },
    ClaimHandshakeReply(Seq<SlaveStatus>),
    SetTorqueResponse(i32),
    StatusHeartbeat { engine_state: u8, fault_code: u32, retired_counts: Seq<u32> },
}

impl View for ReplyBody {
    type V = ReplyBodyView;

    open spec fn view(&self) -> ReplyBodyView {
        match self {
            ReplyBody::IdentifyResponse(r) => ReplyBodyView::IdentifyResponse(r@),
            ReplyBody::PushPiecesResponse { result, arrival_clock, front_start_time } => {
                ReplyBodyView::PushPiecesResponse {
                    result: *result,
                    arrival_clock: *arrival_clock,
                    front_start_time: *front_start_time,
                }
            },
            ReplyBody::RuntimeCapsResponse { total_piece_memory } => {
                ReplyBodyView::RuntimeCapsResponse { total_piece_memory: *total_piece_memory }
            },
            ReplyBody::ClaimHandshakeReply(r) => ReplyBodyView::ClaimHandshakeReply(
                r.slave_statuses@,
            ),
            ReplyBody::SetTorqueResponse(result) => ReplyBodyView::SetTorqueResponse(*result),
            ReplyBody::StatusHeartbeat { engine_state, fault_code, retired_counts } => {
                ReplyBodyView::StatusHeartbeat {
                    engine_state: *engine_state,
                    fault_code: *fault_code,
                    retired_counts: retired_counts@,
                }
            },
        }
    }
}

/// A message to send.
#[derive(Debug)]
pub struct OutMessage {
    pub channel: u8,
    pub correlation_id: u32,
    pub body: ReplyBody,
}

/// Model of [`OutMessage`].
#[verifier::ext_equal]
pub struct OutMessageView {
    pub channel: u8,
    pub correlation_id: u32,
    pub body: ReplyBodyView,
}

impl View for OutMessage {
    type V = OutMessageView;

    open spec fn view(&self) -> OutMessageView {
        OutMessageView {
            channel: self.channel,
            correlation_id: self.correlation_id,
            body: self.body@,
        }
    }
}

/// A message on the control channel.
pub open spec fn controlled(correlation_id: u32, body: ReplyBodyView) -> OutMessageView {
    OutMessageView { channel: CHANNEL_CONTROL, correlation_id, body }
}

/// What the endpoint says of itself in a version of the protocol.
pub open spec fn own_identity(proto_version: u8) -> IdentifyResponseView {
    IdentifyResponseView {
        proto_version,
        firmware_ver: 1,
        build_hash: zero_bytes(BUILD_HASH_LEN as nat),
        schema_hash: zero_bytes(SCHEMA_HASH_LEN as nat),
        reset_epoch: 0,
        capabilities: 0,
        mcu_serial: own_serial(),
    }
}

/// The message that carries a reply; none for the end of the process.
pub open spec fn message_for(r: ReplyView) -> Option<OutMessageView> {
    match r {
        ReplyView::Identify { correlation_id, proto_version } => Some(
            controlled(
                correlation_id,
                ReplyBodyView::IdentifyResponse(own_identity(proto_version)),
            ),
        ),
        ReplyView::PushPieces { correlation_id, result, arrival_clock, front_start_time } => Some(
            controlled(
                correlation_id,
                ReplyBodyView::PushPiecesResponse { result, arrival_clock, front_start_time },
            ),
        ),
        ReplyView::RuntimeCaps { correlation_id, total_piece_memory } => Some(
            controlled(
                correlation_id,
                ReplyBodyView::RuntimeCapsResponse { total_piece_memory },
            ),
        ),
        ReplyView::Claim { correlation_id, statuses } => Some(
            controlled(correlation_id, ReplyBodyView::ClaimHandshakeReply(statuses)),
        ),
        ReplyView::SetTorque { correlation_id, result } => Some(
            controlled(correlation_id, ReplyBodyView::SetTorqueResponse(result)),
        ),
        ReplyView::Heartbeat { engine_state, fault, retired_count } => Some(
            OutMessageView {
                channel: CHANNEL_EVENTS,
                correlation_id: 0,
                body: ReplyBodyView::StatusHeartbeat {
                    engine_state,
                    fault_code: fault,
                    retired_counts: seq![retired_count],
                },
            },
        ),
        ReplyView::Exit => None,
    }
}

/// A message's payload: its header, then its fields.
pub fn frame_payload(header: &[u8], body: &[u8]) -> (r: Vec<u8>)
    ensures
        r@ == header@ + body@,
{
    let mut out: Vec<u8> = vstd::slice::slice_to_vec(header);
    out.extend_from_slice(body);
    proof {
        assert(out@ =~= header@ + body@);
    }
    out
}

/// A message on the control channel.
pub fn control_frame(correlation_id: u32, body: ReplyBody) -> (m: OutMessage)
    ensures
        m@ == controlled(correlation_id, body@),
{
    OutMessage { channel: CHANNEL_CONTROL, correlation_id, body }
}

/// The answer to a torque command.
pub fn set_torque_response_frame(cid: u32, result: i32) -> (m: OutMessage)
    ensures
        m@ == controlled(cid, ReplyBodyView::SetTorqueResponse(result)),
{
    control_frame(cid, ReplyBody::SetTorqueResponse(result))
}

/// The answer to pushed pieces.
pub fn push_pieces_response_frame(
    cid: u32,
    result: i32,
    arrival_clock: u64,
    front_start_time: u64,
) -> (m: OutMessage)
    ensures
        m@ == controlled(
            cid,
            ReplyBodyView::PushPiecesResponse { result, arrival_clock, front_start_time },
        ),
{
    control_frame(cid, ReplyBody::PushPiecesResponse { result, arrival_clock, front_start_time })
}

/// The report of the endpoint's state and of the retired pieces of each axis:
/// an event, which answers nothing. It names no fault.
pub fn status_heartbeat_frame(engine_state: u8, retired_counts: Vec<u32>) -> (m: OutMessage)
    ensures
        m@ == (OutMessageView {
            channel: CHANNEL_EVENTS,
            correlation_id: 0,
            body: ReplyBodyView::StatusHeartbeat {
                engine_state,
                fault_code: 0,
                retired_counts: retired_counts@,
            },
        }),
{
    fault_heartbeat_frame(engine_state, 0, retired_counts)
}

/// The same report with the fault that was latched: the microseconds that a
/// piece was late in the upper half, the code in the lower.
pub fn fault_heartbeat_frame(
    engine_state: u8,
    fault_code: u32,
    retired_counts: Vec<u32>,
) -> (m: OutMessage)
    ensures
        m@ == (OutMessageView {
            channel: CHANNEL_EVENTS,
            correlation_id: 0,
            body: ReplyBodyView::StatusHeartbeat {
                engine_state,
                fault_code,
                retired_counts: retired_counts@,
            },
        }),
{
    OutMessage {
        channel: CHANNEL_EVENTS,
        correlation_id: 0,
        body: ReplyBody::StatusHeartbeat { engine_state, fault_code, retired_counts },
    }
}

/// The answer to a question for the memory that pieces have.
pub fn runtime_caps_response_frame(cid: u32, total_piece_memory: u32) -> (m: OutMessage)
    ensures
        m@ == controlled(cid, ReplyBodyView::RuntimeCapsResponse { total_piece_memory }),
{
    control_frame(cid, ReplyBody::RuntimeCapsResponse { total_piece_memory })
}

/// The answer to a claim.
pub fn claim_handshake_reply_frame(cid: u32, reply: ClaimHandshakeReply) -> (m: OutMessage)
    ensures
        m@ == controlled(cid, ReplyBodyView::ClaimHandshakeReply(reply.slave_statuses@)),
{
    control_frame(cid, ReplyBody::ClaimHandshakeReply(reply))
}

/// The answer to an identify request.
pub fn identify_response_frame(cid: u32, proto_version: u8) -> (m: OutMessage)
    ensures
        m@ == controlled(cid, ReplyBodyView::IdentifyResponse(own_identity(proto_version))),
{
    let mcu_serial: Vec<u8> = vec![69u8, 84, 72, 69, 82, 67, 65, 84, 45, 82, 84, 0];
    proof {
        assert(mcu_serial@ =~= own_serial());
    }
    control_frame(
        cid,
        ReplyBody::IdentifyResponse(
            IdentifyResponse {
                proto_version,
                firmware_ver: 1,
                build_hash: zeros(BUILD_HASH_LEN),
                schema_hash: zeros(SCHEMA_HASH_LEN),
                reset_epoch: 0,
                capabilities: 0,
                mcu_serial,
            },
        ),
    )
}

/// The message that carries a reply; none for the end of the process.
pub fn reply_frame(reply: Reply) -> (r: Option<OutMessage>)
    ensures
        match r {
            Some(m) => message_for(reply@) == Some(m@),
            None => message_for(reply@) is None,
        },
{
    match reply {
        Reply::Identify { correlation_id, proto_version } => Some(
            identify_response_frame(correlation_id, proto_version),
        ),
        Reply::PushPieces { correlation_id, result, arrival_clock, front_start_time } => Some(
            push_pieces_response_frame(correlation_id, result, arrival_clock, front_start_time),
        ),
        Reply::RuntimeCaps { correlation_id, total_piece_memory } => Some(
            runtime_caps_response_frame(correlation_id, total_piece_memory),
        ),
        Reply::Claim { correlation_id, reply } => Some(
            claim_handshake_reply_frame(correlation_id, reply),
        ),
        Reply::SetTorque { correlation_id, result } => Some(
            set_torque_response_frame(correlation_id, result),
        ),
        Reply::Heartbeat { engine_state, fault, retired_count } => {
            let mut counts: Vec<u32> = Vec::new();
            counts.push(retired_count);
            proof {
                assert(counts@ =~= seq![retired_count]);
            }
            Some(fault_heartbeat_frame(engine_state, fault, counts))
        },
        Reply::Exit => None,
    }
}

/// Only heartbeats go out as events, and they answer nothing; everything else
/// that is sent goes to the control channel.
pub proof fn law_events_answer_nothing(r: ReplyView)
    ensures
        message_for(r) matches Some(m) ==> (m.channel == CHANNEL_EVENTS <==> r is Heartbeat)
            && (m.channel == CHANNEL_EVENTS ==> m.correlation_id == 0)
            && (m.channel != CHANNEL_EVENTS ==> m.channel == CHANNEL_CONTROL),
        message_for(r) is None <==> r is Exit,
{
}

} // verus!
