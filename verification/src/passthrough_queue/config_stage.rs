//! The commands that configure a controller: collected first, then sent in
//! order.

use crate::text::byte_rows;
use vstd::prelude::*;

verus! {

/// How far the configuration has come.
#[derive(Debug, Clone, Copy, PartialEq, Eq, Structural)]
pub enum ConfigStagePhase {
    Collecting,
    SendingConfig,
    SendingInit,
    Runtime,
}

/// The commands, and how far they have been sent.
#[derive(Debug)]
pub struct ConfigStage {
    config_cmds: Vec<Vec<u8>>,
    init_cmds: Vec<Vec<u8>>,
    restart_cmds: Vec<Vec<u8>>,
    phase: ConfigStagePhase,
    cursor: usize,
}

/// Model of [`ConfigStage`].
#[verifier::ext_equal]
pub struct ConfigStageView {
    pub config_cmds: Seq<Seq<u8>>,
    pub init_cmds: Seq<Seq<u8>>,
    pub restart_cmds: Seq<Seq<u8>>,
    pub phase: ConfigStagePhase,
    pub cursor: int,
}

impl View for ConfigStage {
    type V = ConfigStageView;

    closed spec fn view(&self) -> ConfigStageView {
        ConfigStageView {
            config_cmds: byte_rows(self.config_cmds@),
            init_cmds: byte_rows(self.init_cmds@),
            restart_cmds: byte_rows(self.restart_cmds@),
            phase: self.phase,
            cursor: self.cursor as int,
        }
    }
}

/// Nothing collected yet.
pub open spec fn fresh_stage() -> ConfigStageView {
    ConfigStageView {
        config_cmds: Seq::empty(),
        init_cmds: Seq::empty(),
        restart_cmds: Seq::empty(),
        phase: ConfigStagePhase::Collecting,
        cursor: 0,
    }
}

/// The next init command, and the stage behind it; behind the last one the
/// configuration is done.
pub open spec fn next_init(s: ConfigStageView) -> (Option<Seq<u8>>, ConfigStageView) {
    if s.cursor < s.init_cmds.len() {
        (
            Some(s.init_cmds[s.cursor]),
            ConfigStageView {
                phase: ConfigStagePhase::SendingInit,
                cursor: s.cursor + 1,
                ..s
            },
        )
    } else {
        (None, ConfigStageView { phase: ConfigStagePhase::Runtime, ..s })
    }
}

/// The next command, and the stage behind it: the configuration commands in
/// order, then the init commands in order, then none.
pub open spec fn next_command(s: ConfigStageView) -> (Option<Seq<u8>>, ConfigStageView) {
    match s.phase {
        ConfigStagePhase::Collecting => (None, s),
        ConfigStagePhase::SendingConfig => if s.cursor < s.config_cmds.len() {
            (Some(s.config_cmds[s.cursor]), ConfigStageView { cursor: s.cursor + 1, ..s })
        } else {
            next_init(ConfigStageView { phase: ConfigStagePhase::SendingInit, cursor: 0, ..s })
        },
        ConfigStagePhase::SendingInit => next_init(s),
        ConfigStagePhase::Runtime => (None, s),
    }
}

/// The commands that are still to come.
pub open spec fn to_come(s: ConfigStageView) -> Seq<Seq<u8>> {
    match s.phase {
        ConfigStagePhase::SendingConfig => s.config_cmds.skip(s.cursor) + s.init_cmds,
        ConfigStagePhase::SendingInit => s.init_cmds.skip(s.cursor),
        _ => Seq::empty(),
    }
}

/// While commands are to come, each step gives the first of them and leaves
/// the others; when none is to come, it gives none.
pub proof fn law_commands_in_order(s: ConfigStageView)
    requires
        0 <= s.cursor,
        s.phase == ConfigStagePhase::SendingConfig ==> s.cursor <= s.config_cmds.len(),
        s.phase == ConfigStagePhase::SendingInit ==> s.cursor <= s.init_cmds.len(),
    ensures
        match next_command(s).0 {
            Some(c) => to_come(s).len() > 0 && c == to_come(s)[0] && to_come(next_command(s).1)
                == to_come(s).skip(1),
            None => to_come(s).len() == 0 && to_come(next_command(s).1).len() == 0,
        },
{
    let t = next_command(s).1;
    match next_command(s).0 {
        Some(c) => {
            assert(to_come(t) =~= to_come(s).skip(1));
        },
        None => {},
    }
}

impl ConfigStage {
    /// Nothing collected yet.
    pub fn new() -> (s: Self)
        ensures
            s@ == fresh_stage(),
    {
        let s = ConfigStage {
            config_cmds: Vec::new(),
            init_cmds: Vec::new(),
            restart_cmds: Vec::new(),
            phase: ConfigStagePhase::Collecting,
            cursor: 0,
        };
        proof {
            assert(s@ =~= fresh_stage());
        }
        s
    }

    /// How far the configuration has come.
    pub fn phase(&self) -> (r: ConfigStagePhase)
        ensures
            r == self@.phase,
    {
        self.phase
    }

    /// Adds a configuration command, while commands are collected.
    pub fn add_config_cmd(&mut self, bytes: Vec<u8>) -> (r: bool)
        ensures
            r == (old(self)@.phase == ConfigStagePhase::Collecting),
            final(self)@ == (if r {
                ConfigStageView {
                    config_cmds: old(self)@.config_cmds.push(bytes@),
                    ..old(self)@
                }
            } else {
                old(self)@
            }),
    {
        if self.phase != ConfigStagePhase::Collecting {
            return false;
        }
        let ghost b = bytes@;
        self.config_cmds.push(bytes);
        proof {
            assert(self@.config_cmds =~= old(self)@.config_cmds.push(b));
        }
        true
    }

    /// Adds an init command, while commands are collected.
    pub fn add_init_cmd(&mut self, bytes: Vec<u8>) -> (r: bool)
        ensures
            r == (old(self)@.phase == ConfigStagePhase::Collecting),
            final(self)@ == (if r {
                ConfigStageView { init_cmds: old(self)@.init_cmds.push(bytes@), ..old(self)@ }
            } else {
                old(self)@
            }),
    {
        if self.phase != ConfigStagePhase::Collecting {
            return false;
        }
        let ghost b = bytes@;
        self.init_cmds.push(bytes);
        proof {
            assert(self@.init_cmds =~= old(self)@.init_cmds.push(b));
        }
        true
    }

    /// Adds a restart command, while commands are collected.
    pub fn add_restart_cmd(&mut self, bytes: Vec<u8>) -> (r: bool)
        ensures
            r == (old(self)@.phase == ConfigStagePhase::Collecting),
            final(self)@ == (if r {
                ConfigStageView {
                    restart_cmds: old(self)@.restart_cmds.push(bytes@),
                    ..old(self)@
                }
            } else {
                old(self)@
            }),
    {
        if self.phase != ConfigStagePhase::Collecting {
            return false;
        }
        let ghost b = bytes@;
        self.restart_cmds.push(bytes);
        proof {
            assert(self@.restart_cmds =~= old(self)@.restart_cmds.push(b));
        }
        true
    }

    /// The restart commands.
    pub fn restart_cmds(&self) -> (r: &[Vec<u8>])
        ensures
            byte_rows(r@) == self@.restart_cmds,
    {
        self.restart_cmds.as_slice()
    }

    /// Starts to send.
    pub fn begin_config_send(&mut self)
        ensures
            final(self)@ == (ConfigStageView {
                phase: ConfigStagePhase::SendingConfig,
                cursor: 0,
                ..old(self)@
            }),
    {
        self.phase = ConfigStagePhase::SendingConfig;
        self.cursor = 0;
    }

    /// The next command to send.
    pub fn next_config_entry(&mut self) -> (r: Option<Vec<u8>>)
        ensures
            final(self)@ == next_command(old(self)@).1,
            match r {
                Some(b) => next_command(old(self)@).0 == Some(b@),
                None => next_command(old(self)@).0 is None,
            },
    {
        if self.phase == ConfigStagePhase::SendingConfig {
            if self.cursor < self.config_cmds.len() {
                let entry: Vec<u8> = self.config_cmds[self.cursor].clone();
                proof {
                    assert(self@.config_cmds[self.cursor as int]
                        == self.config_cmds@[self.cursor as int]@);
                    assert(entry@ =~= self@.config_cmds[self.cursor as int]);
                }
                self.cursor += 1;
                return Some(entry);
            }
            self.phase = ConfigStagePhase::SendingInit;
            self.cursor = 0;
        }
        if self.phase == ConfigStagePhase::SendingInit {
            if self.cursor < self.init_cmds.len() {
                let entry: Vec<u8> = self.init_cmds[self.cursor].clone();
                proof {
                    assert(self@.init_cmds[self.cursor as int]
                        == self.init_cmds@[self.cursor as int]@);
                    assert(entry@ =~= self@.init_cmds[self.cursor as int]);
                }
                self.cursor += 1;
                return Some(entry);
            }
            self.phase = ConfigStagePhase::Runtime;
        }
        None
    }
}

impl Default for ConfigStage {
    fn default() -> (s: Self)
        ensures
            s@ == fresh_stage(),
    {
        ConfigStage::new()
    }
}

/// The stage after `n` commands were taken from it.
pub open spec fn after_commands(s: ConfigStageView, n: nat) -> ConfigStageView
    decreases n,
{
    if n == 0 {
        s
    } else {
        next_command(after_commands(s, (n - 1) as nat)).1
    }
}

/// From the start of sending on, the configuration commands come first, each in
/// the order in which it was added, then the init commands, each once; then
/// none, and the configuration is done.
pub proof fn law_config_then_init(s: ConfigStageView, n: nat)
    requires
        s.phase == ConfigStagePhase::SendingConfig,
        s.cursor == 0,
    ensures
        ({
            let all = s.config_cmds + s.init_cmds;
            let t = after_commands(s, n);
            &&& n < all.len() ==> next_command(t).0 == Some(all[n as int])
            &&& n >= all.len() ==> next_command(t).0 is None && next_command(t).1.phase
                == ConfigStagePhase::Runtime
            &&& t.config_cmds == s.config_cmds && t.init_cmds == s.init_cmds && t.restart_cmds
                == s.restart_cmds
        }),
{
    lemma_after_commands(s, n);
}

proof fn lemma_after_commands(s: ConfigStageView, n: nat)
    requires
        s.phase == ConfigStagePhase::SendingConfig,
        s.cursor == 0,
    ensures
        ({
            let a = s.config_cmds.len();
            let b = s.init_cmds.len();
            let t = after_commands(s, n);
            &&& t == ConfigStageView { phase: t.phase, cursor: t.cursor, ..s }
            &&& n <= a ==> t.phase == ConfigStagePhase::SendingConfig && t.cursor == n
            &&& a < n <= a + b ==> t.phase == ConfigStagePhase::SendingInit && t.cursor == n - a
            &&& n > a + b ==> t.phase == ConfigStagePhase::Runtime
        }),
    decreases n,
{
    if n > 0 {
        lemma_after_commands(s, (n - 1) as nat);
    }
}

} // verus!
