//! Claiming the endpoint.

use crate::ethercat::wire::Command;
use crate::host_io::parse_error::{around, enclose};
use crate::text::{
    chars_of, copy_text, debug_text, parse_u8, parsed_int, same_text, str_debug, string_of, texts,
};
use vstd::prelude::*;

verus! {

/// How a drive stands.
#[derive(Debug, Clone, Copy, PartialEq, Eq, Structural)]
pub enum SlaveState {
    Operational,
    Faulted,
}

/// How one drive stands.
#[derive(Debug, Clone, Copy, PartialEq, Eq, Structural)]
pub struct SlaveStatus {
    pub slave_idx: u8,
    pub state: SlaveState,
    pub fault_code: u16,
}

/// The answer to a claim.
#[derive(Debug)]
pub struct ClaimHandshakeReply {
    pub slave_statuses: Vec<SlaveStatus>,
}

/// The answer for a single drive, which is the first.
pub fn single_slave_reply(state: SlaveState, fault_code: u16) -> (r: ClaimHandshakeReply)
    ensures
        r.slave_statuses@ == seq![SlaveStatus { slave_idx: 1, state, fault_code }],
{
    let mut slave_statuses: Vec<SlaveStatus> = Vec::new();
    slave_statuses.push(SlaveStatus { slave_idx: 1, state, fault_code });
    ClaimHandshakeReply { slave_statuses }
}

/// The correlation id of the first claim among commands.
pub open spec fn first_claim(cmds: Seq<Command>) -> Option<u32>
    decreases cmds.len(),
{
    if cmds.len() == 0 {
        None
    } else {
        match cmds[0] {
            Command::ClaimHandshake { correlation_id } => Some(correlation_id),
            _ => first_claim(cmds.skip(1)),
        }
    }
}

/// What waiting for a claim has come to.
#[derive(Debug, PartialEq, Eq, Structural)]
pub enum ClaimWait {
    Claimed(u32),
    /// The time is over, or the process is to end.
    GivenUp,
    Wait,
}

/// Looks for a claim among the commands that have come; any other command
/// before the claim is dropped. Without one, waiting ends at the deadline or
/// when the process is to end.
pub fn wait_for_claim(cmds: &Vec<Command>, now: u64, deadline: u64, sigterm: bool) -> (r: ClaimWait)
    ensures
        r == match first_claim(cmds@) {
            Some(id) => ClaimWait::Claimed(id),
            None => if now >= deadline || sigterm {
                ClaimWait::GivenUp
            } else {
                ClaimWait::Wait
            },
        },
{
    let mut i: usize = 0;
    proof {
        assert(cmds@.skip(0) =~= cmds@);
    }
    while i < cmds.len()
        invariant
            i <= cmds@.len(),
            first_claim(cmds@.skip(i as int)) == first_claim(cmds@),
        decreases cmds@.len() - i,
    {
        proof {
            assert(cmds@.skip(i as int)[0] == cmds@[i as int]);
            assert(cmds@.skip(i as int).skip(1) =~= cmds@.skip(i + 1));
        }
        match &cmds[i] {
            Command::ClaimHandshake { correlation_id } => {
                return ClaimWait::Claimed(*correlation_id);
            },
            _ => {},
        }
        i += 1;
    }
    if now >= deadline || sigterm {
        ClaimWait::GivenUp
    } else {
        ClaimWait::Wait
    }
}

/// The place of the flag among arguments.
pub open spec fn flag_at(args: Seq<Seq<char>>) -> Option<int>
    decreases args.len(),
{
    if args.len() == 0 {
        None
    } else if args[0] == "--fail-bringup"@ {
        Some(0)
    } else {
        match flag_at(args.skip(1)) {
            Some(i) => Some(i + 1),
            None => None,
        }
    }
}

/// The text behind a head, where the text starts with it.
pub open spec fn without_prefix(s: Seq<char>, head: Seq<char>) -> Option<Seq<char>> {
    if s.len() >= head.len() && s.take(head.len() as int) == head {
        Some(s.skip(head.len() as int))
    } else {
        None
    }
}

/// The `u8` that a text holds: no minus sign, and not too large.
pub open spec fn u8_of(s: Seq<char>) -> Option<u8> {
    match parsed_int(s) {
        Some(v) => if 0 <= v <= 255 && s[0] != '-' {
            Some(v as u8)
        } else {
            None
        },
        None => None,
    }
}

/// The drive whose bring-up is to fail, as the arguments say.
pub open spec fn bringup_failure(args: Seq<Seq<char>>) -> Result<Option<u8>, Seq<char>> {
    match flag_at(args) {
        None => Ok(None),
        Some(i) => if i + 1 >= args.len() {
            Err("missing value after --fail-bringup; expected slave=N"@)
        } else {
            match without_prefix(args[i + 1], "slave="@) {
                None => Err(
                    around("--fail-bringup value must be slave=N, got "@, str_debug(args[i + 1]), ""@),
                ),
                Some(n) => match u8_of(n) {
                    None => Err(
                        around(
                            "--fail-bringup slave index must be u8 (0\u{2013}255), got "@,
                            str_debug(n),
                            ""@,
                        ),
                    ),
                    Some(v) => Ok(Some(v)),
                },
            }
        },
    }
}

/// The text behind a head.
fn strip_prefix(s: &str, head: &str) -> (r: Option<String>)
    ensures
        match r {
            Some(t) => without_prefix(s@, head@) == Some(t@),
            None => without_prefix(s@, head@) is None,
        },
{
    let cs: Vec<char> = chars_of(s);
    let hs: Vec<char> = chars_of(head);
    if cs.len() < hs.len() {
        return None;
    }
    let mut i: usize = 0;
    while i < hs.len()
        invariant
            i <= hs@.len() <= cs@.len(),
            cs@ == s@,
            hs@ == head@,
            forall|j: int| 0 <= j < i ==> cs@[j] == #[trigger] hs@[j],
        decreases hs@.len() - i,
    {
        if cs[i] != hs[i] {
            proof {
                assert(s@.take(head@.len() as int)[i as int] != head@[i as int]);
            }
            return None;
        }
        i += 1;
    }
    proof {
        assert(s@.take(head@.len() as int) =~= head@);
    }
    let t: String = string_of(&cs, hs.len(), cs.len());
    proof {
        assert(t@ =~= s@.skip(head@.len() as int));
    }
    Some(t)
}

/// The flag is where it was found, and nowhere before.
proof fn lemma_flag_at(args: Seq<Seq<char>>, i: int)
    requires
        0 <= i <= args.len(),
        forall|j: int| 0 <= j < i ==> #[trigger] args[j] != "--fail-bringup"@,
        i < args.len() ==> args[i] == "--fail-bringup"@,
    ensures
        flag_at(args) == if i < args.len() {
            Some(i)
        } else {
            None
        },
    decreases args.len(),
{
    if i > 0 {
        assert(args[0] != "--fail-bringup"@);
        assert forall|j: int| 0 <= j < i - 1 implies #[trigger] args.skip(1)[j]
            != "--fail-bringup"@ by {
            assert(args[j + 1] != "--fail-bringup"@);
        }
        lemma_flag_at(args.skip(1), i - 1);
    }
}

/// The drive whose bring-up is to fail: none where the flag is absent, an error
/// where its value is malformed.
pub fn parse_fail_bringup(args: &[String]) -> (r: Result<Option<u8>, String>)
    ensures
        match r {
            Ok(v) => bringup_failure(texts(args@)) == Ok::<_, Seq<char>>(v),
            Err(e) => bringup_failure(texts(args@)) == Err::<Option<u8>, _>(e@),
        },
{
    let ghost all = texts(args@);
    let mut i: usize = 0;
    while i < args.len()
        invariant
            i <= args@.len(),
            all == texts(args@),
            forall|j: int| 0 <= j < i ==> #[trigger] all[j] != "--fail-bringup"@,
        decreases args@.len() - i,
    {
        if same_text(args[i].as_str(), "--fail-bringup") {
            proof {
                lemma_flag_at(all, i as int);
            }
            if i + 1 >= args.len() {
                return Err(copy_text("missing value after --fail-bringup; expected slave=N"));
            }
            let value: &str = args[i + 1].as_str();
            match strip_prefix(value, "slave=") {
                None => {
                    return Err(
                        enclose(
                            "--fail-bringup value must be slave=N, got ",
                            debug_text(value),
                            "",
                        ),
                    );
                },
                Some(n) => match parse_u8(n.as_str()) {
                    Some(v) => {
                        return Ok(Some(v));
                    },
                    None => {
                        return Err(
                            enclose(
                                "--fail-bringup slave index must be u8 (0\u{2013}255), got ",
                                debug_text(n.as_str()),
                                "",
                            ),
                        );
                    },
                },
            }
        }
        i += 1;
    }
    proof {
        lemma_flag_at(all, i as int);
    }
    Ok(None)
}

} // verus!
