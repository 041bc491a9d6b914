//! Tests of the claim of the endpoint.

use kalico_host_rt::ethercat::claim::{
    parse_fail_bringup, single_slave_reply, wait_for_claim, ClaimWait, SlaveState, SlaveStatus,
};
use kalico_host_rt::ethercat::wire::Command;

fn args(v: &[&str]) -> Vec<String> {
    v.iter().map(|s| s.to_string()).collect()
}

#[test]
fn absent_returns_none() {
    assert_eq!(
        parse_fail_bringup(&args(&["--socket", "/tmp/s.sock"])),
        Ok(None)
    );
}

#[test]
fn present_valid() {
    assert_eq!(
        parse_fail_bringup(&args(&["--fail-bringup", "slave=3"])),
        Ok(Some(3))
    );
}

#[test]
fn present_slave_zero() {
    assert_eq!(
        parse_fail_bringup(&args(&["--fail-bringup", "slave=0"])),
        Ok(Some(0))
    );
}

#[test]
fn present_slave_max_u8() {
    assert_eq!(
        parse_fail_bringup(&args(&["--fail-bringup", "slave=255"])),
        Ok(Some(255))
    );
}

#[test]
fn malformed_not_slave_prefix() {
    assert!(parse_fail_bringup(&args(&["--fail-bringup", "banana"])).is_err());
}

#[test]
fn malformed_overflow() {
    assert!(parse_fail_bringup(&args(&["--fail-bringup", "slave=256"])).is_err());
}

#[test]
fn malformed_non_numeric() {
    assert!(parse_fail_bringup(&args(&["--fail-bringup", "slave=abc"])).is_err());
}

#[test]
fn missing_value_after_flag() {
    assert!(parse_fail_bringup(&args(&["--fail-bringup"])).is_err());
}

#[test]
fn flag_not_last_other_args_after() {
    assert_eq!(
        parse_fail_bringup(&args(&["--fail-bringup", "slave=7", "--socket", "/tmp/s"])),
        Ok(Some(7))
    );
}

#[test]
fn bringup_errors_in_words() {
    assert_eq!(
        parse_fail_bringup(&args(&["--fail-bringup"])),
        Err("missing value after --fail-bringup; expected slave=N".to_string())
    );
    assert_eq!(
        parse_fail_bringup(&args(&["--fail-bringup", "ba\"nana"])),
        Err("--fail-bringup value must be slave=N, got \"ba\\\"nana\"".to_string())
    );
    assert_eq!(
        parse_fail_bringup(&args(&["--fail-bringup", "slave=-1"])),
        Err("--fail-bringup slave index must be u8 (0\u{2013}255), got \"-1\"".to_string())
    );
    assert_eq!(parse_fail_bringup(&args(&["--fail-bringup", "slave=+7"])), Ok(Some(7)));
    assert!(parse_fail_bringup(&args(&["--fail-bringup", "slave="])).is_err());
}

#[test]
fn the_first_claim_counts() {
    let cmds = vec![
        Command::Identify { correlation_id: 1, proto_version: 3 },
        Command::ClaimHandshake { correlation_id: 9 },
        Command::ClaimHandshake { correlation_id: 10 },
    ];
    assert_eq!(wait_for_claim(&cmds, 5, 5, true), ClaimWait::Claimed(9));
    let none = vec![Command::QueryRuntimeCaps { correlation_id: 2 }];
    assert_eq!(wait_for_claim(&none, 4, 5, false), ClaimWait::Wait);
    assert_eq!(wait_for_claim(&none, 5, 5, false), ClaimWait::GivenUp);
    assert_eq!(wait_for_claim(&none, 4, 5, true), ClaimWait::GivenUp);
}

#[test]
fn single_slave_reply_has_one_status() {
    let r = single_slave_reply(SlaveState::Faulted, 77);
    assert_eq!(
        r.slave_statuses,
        vec![SlaveStatus { slave_idx: 1, state: SlaveState::Faulted, fault_code: 77 }]
    );
}
