//! Commands of the endpoint.

use vstd::prelude::*;

verus! {

/// Pieces for an axis.
#[derive(Debug)]
pub struct PushPieces {
    pub axis_idx: u8,
    pub piece_count: u8,
    pub start_slot: u32,
    pub new_head: u32,
    pub pieces_bytes: Vec<u8>,
}

/// A torque command.
#[derive(Debug, Clone, Copy, PartialEq, Eq, Structural)]
pub struct SetTorque {
    pub value: u8,
    pub execute_at_ns: u64,
}

/// The kinds of messages that the endpoint knows.
#[derive(Debug, Clone, Copy, PartialEq, Eq, Structural)]
pub enum CommandKind {
    Identify,
    PushPieces,
    QueryRuntimeCaps,
    ClaimHandshake,
    SetTorque,
}

/// The header of a message: its correlation id, the number of its kind, and
/// the kind where the endpoint knows it.
#[derive(Debug, Clone, Copy, PartialEq, Eq, Structural)]
pub struct MessageHeader {
    pub correlation_id: u32,
    pub kind_raw: u16,
    pub kind: Option<CommandKind>,
}

/// A message as the codec reads it: its header, the first byte of its body,
/// and the body read as each kind of message that has one; none where it
/// cannot be read as that.
#[derive(Debug)]
pub struct Received {
    pub on_pieces_channel: bool,
    pub header: Option<MessageHeader>,
    pub first_byte: Option<u8>,
    pub pieces: Option<PushPieces>,
    pub torque: Option<SetTorque>,
}

/// A command and the correlation id to answer it with.
#[allow(inconsistent_fields)]
#[derive(Debug)]
pub enum Command {
    Identify { correlation_id: u32, proto_version: u8 },
    PushPieces { correlation_id: u32, msg: PushPieces },
    QueryRuntimeCaps { correlation_id: u32 },
    ClaimHandshake { correlation_id: u32 },
    SetTorque { correlation_id: u32, msg: SetTorque },
    Unknown { correlation_id: u32, kind_raw: u16 },
}

/// Why a message is no command.
#[derive(Debug, PartialEq, Eq, Structural)]
pub enum DecodeCmdError {
    BadHeader,
    BadBody,
}

/// The command that a message holds. On the channel for pieces every message
/// is read as pieces.
pub open spec fn command_of(m: Received) -> Result<Command, DecodeCmdError> {
    match m.header {
        None => Err(DecodeCmdError::BadHeader),
        Some(h) => {
            let correlation_id = h.correlation_id;
            if m.on_pieces_channel || h.kind == Some(CommandKind::PushPieces) {
                match m.pieces {
                    Some(msg) => Ok(Command::PushPieces { correlation_id, msg }),
                    None => Err(DecodeCmdError::BadBody),
                }
            } else {
                match h.kind {
                    Some(CommandKind::Identify) => Ok(
                        Command::Identify {
                            correlation_id,
                            proto_version: match m.first_byte {
                                Some(b) => b,
                                None => 0,
                            },
                        },
                    ),
                    Some(CommandKind::QueryRuntimeCaps) => Ok(
                        Command::QueryRuntimeCaps { correlation_id },
                    ),
                    Some(CommandKind::ClaimHandshake) => Ok(
                        Command::ClaimHandshake { correlation_id },
                    ),
                    Some(CommandKind::SetTorque) => match m.torque {
                        Some(msg) => Ok(Command::SetTorque { correlation_id, msg }),
                        None => Err(DecodeCmdError::BadBody),
                    },
                    _ => Ok(Command::Unknown { correlation_id, kind_raw: h.kind_raw }),
                }
            }
        },
    }
}

/// Reads the command that a message holds.
pub fn decode_command(m: Received) -> (r: Result<Command, DecodeCmdError>)
    ensures
        r == command_of(m),
{
    let h: MessageHeader = match m.header {
        None => return Err(DecodeCmdError::BadHeader),
        Some(h) => h,
    };
    let correlation_id: u32 = h.correlation_id;
    let pieces_kind: bool = match h.kind {
        Some(CommandKind::PushPieces) => true,
        _ => false,
    };
    if m.on_pieces_channel || pieces_kind {
        return match m.pieces {
            Some(msg) => Ok(Command::PushPieces { correlation_id, msg }),
            None => Err(DecodeCmdError::BadBody),
        };
    }
    match h.kind {
        Some(CommandKind::Identify) => {
            let proto_version: u8 = match m.first_byte {
                Some(b) => b,
                None => 0,
            };
            Ok(Command::Identify { correlation_id, proto_version })
        },
        Some(CommandKind::QueryRuntimeCaps) => Ok(Command::QueryRuntimeCaps { correlation_id }),
        Some(CommandKind::ClaimHandshake) => Ok(Command::ClaimHandshake { correlation_id }),
        Some(CommandKind::SetTorque) => match m.torque {
            Some(msg) => Ok(Command::SetTorque { correlation_id, msg }),
            None => Err(DecodeCmdError::BadBody),
        },
        _ => Ok(Command::Unknown { correlation_id, kind_raw: h.kind_raw }),
    }
}

} // verus!
