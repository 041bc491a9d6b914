//! Tests of the messages that the drive's endpoint sends.

use kalico_host_rt::ethercat::claim::{ClaimHandshakeReply, SlaveState, SlaveStatus};
use kalico_host_rt::ethercat::endpoint::Reply;
use kalico_host_rt::ethercat::frames::{
    claim_handshake_reply_frame, frame_payload, push_pieces_response_frame, reply_frame,
    set_torque_response_frame, status_heartbeat_frame, ReplyBody,
};
use kalico_host_rt::host_io::kalico_native::{CHANNEL_CONTROL, CHANNEL_EVENTS};

#[test]
fn push_pieces_response_decodes_back() {
    let frame = push_pieces_response_frame(42, 0, 0, 1_000_000_000);
    assert_eq!(frame.channel, CHANNEL_CONTROL);
    assert_eq!(frame.correlation_id, 42);
    match frame.body {
        ReplyBody::PushPiecesResponse { result, front_start_time, .. } => {
            assert_eq!(result, 0);
            assert_eq!(front_start_time, 1_000_000_000);
        }
        other => panic!("wrong kind: {other:?}"),
    }
}

#[test]
fn claim_handshake_reply_frame_decodes() {
    let reply = ClaimHandshakeReply {
        slave_statuses: vec![SlaveStatus {
            slave_idx: 1,
            state: SlaveState::Operational,
            fault_code: 0,
        }],
    };
    let frame = claim_handshake_reply_frame(7, reply);
    assert_eq!(frame.channel, CHANNEL_CONTROL);
    assert_eq!(frame.correlation_id, 7);
    match frame.body {
        ReplyBody::ClaimHandshakeReply(decoded) => {
            assert_eq!(decoded.slave_statuses.len(), 1);
            assert_eq!(decoded.slave_statuses[0].slave_idx, 1);
            assert_eq!(decoded.slave_statuses[0].state, SlaveState::Operational);
            assert_eq!(decoded.slave_statuses[0].fault_code, 0);
        }
        other => panic!("wrong kind: {other:?}"),
    }
}

#[test]
fn status_heartbeat_frame_on_events_channel() {
    let frame = status_heartbeat_frame(1, vec![42u32, 0u32]);
    assert_eq!(frame.channel, CHANNEL_EVENTS);
    assert_eq!(frame.correlation_id, 0);
    match frame.body {
        ReplyBody::StatusHeartbeat { engine_state, fault_code, retired_counts } => {
            assert_eq!(engine_state, 1);
            assert_eq!(fault_code, 0);
            assert_eq!(retired_counts, vec![42u32, 0u32]);
        }
        other => panic!("wrong kind: {other:?}"),
    }
}

#[test]
fn set_torque_response_frame_round_trips() {
    let frame = set_torque_response_frame(9, -312);
    assert_eq!(frame.correlation_id, 9);
    match frame.body {
        ReplyBody::SetTorqueResponse(result) => assert_eq!(result, -312),
        other => panic!("wrong kind: {other:?}"),
    }
}

#[test]
fn replies_become_messages() {
    let m = reply_frame(Reply::Identify { correlation_id: 3, proto_version: 2 }).unwrap();
    assert_eq!((m.channel, m.correlation_id), (CHANNEL_CONTROL, 3));
    match m.body {
        ReplyBody::IdentifyResponse(r) => {
            assert_eq!((r.proto_version, r.firmware_ver), (2, 1));
            assert_eq!((r.reset_epoch, r.capabilities), (0, 0));
            assert_eq!(r.build_hash, vec![0u8; 20]);
            assert_eq!(r.schema_hash, vec![0u8; 32]);
            assert_eq!(r.mcu_serial, b"ETHERCAT-RT\0".to_vec());
        }
        other => panic!("wrong kind: {other:?}"),
    }
    let m = reply_frame(Reply::RuntimeCaps { correlation_id: 4, total_piece_memory: 8192 });
    match m.unwrap().body {
        ReplyBody::RuntimeCapsResponse { total_piece_memory } => {
            assert_eq!(total_piece_memory, 8192);
        }
        other => panic!("wrong kind: {other:?}"),
    }
    let m = reply_frame(Reply::Heartbeat {
        engine_state: 3,
        fault: 0x05DC_FECC,
        retired_count: 5,
    })
    .unwrap();
    assert_eq!((m.channel, m.correlation_id), (CHANNEL_EVENTS, 0));
    match m.body {
        ReplyBody::StatusHeartbeat { engine_state, fault_code, retired_counts } => {
            assert_eq!((engine_state, fault_code), (3, 0x05DC_FECC));
            assert_eq!(retired_counts, vec![5]);
        }
        other => panic!("wrong kind: {other:?}"),
    }
    assert!(reply_frame(Reply::Exit).is_none());
    assert_eq!(frame_payload(&[1, 2], &[3]), vec![1, 2, 3]);
}
