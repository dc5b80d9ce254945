//! The analyzer client's protocol state machine and command text.
//!
//! The client owns one long-running analyzer subprocess speaking the
//! line protocol.  Its protocol state is explicit — spawned, announced,
//! configured, ready, searching, quitting — so option changes and
//! timeouts can be reasoned about.  This module decides, in verified
//! code, which command bytes to send and how the state moves; the
//! process plumbing that writes and reads the lines lives outside and
//! hands each received line back in.

use vstd::prelude::*;
use crate::config;
use crate::text::ascii_seq;
use crate::text::spec_dec_digits;
use crate::text::spec_tokens;
use crate::text::push_ascii;
use crate::text::push_dec;
use crate::text::ascii_bytes;
use crate::text::copy_bytes;
use crate::text::tokenize;
use crate::text::token_is;

verus! {

/// Where the client stands in the wire protocol.
#[derive(Debug, Clone, Copy, PartialEq, Eq, Structural)]
pub enum ProtocolState {
    /// Child just spawned, nothing sent.
    Spawned,
    /// Protocol announced; waiting for the first readiness answer.
    Announced,
    /// Options sent; waiting for a readiness answer.
    Configured,
    /// Between requests.
    Ready,
    /// A search is running; consuming update lines.
    Searching,
    /// Shutdown requested.
    Quitting,
}

/// The client's protocol state: the machine position, the cached
/// number-of-lines option, and the pending position command.
pub struct EngineClient {
    pub state: ProtocolState,
    pub current_multipv: u32,
    pub position_cmd: Vec<u8>,
    pub position_synced: bool,
    pub has_moves: bool,
}

/// A readiness answer: the line holds the single token `readyok`.
pub open spec fn spec_is_readyok(line: Seq<u8>) -> bool {
    spec_tokens(line) == seq![ascii_seq("readyok")]
}

pub fn is_readyok_line(line: &Vec<u8>) -> (r: bool)
    ensures
        r == spec_is_readyok(line@),
{
    proof {
        reveal_strlit("readyok");
    }
    let toks = tokenize(line);
    if toks.len() != 1 {
        proof {
            assert(spec_tokens(line@).len() != 1);
        }
        return false;
    }
    proof {
        assert(toks@[0]@ == toks.deep_view()[0]);
    }
    let r = token_is(&toks[0], "readyok");
    proof {
        if r {
            assert(spec_tokens(line@) =~= seq![ascii_seq("readyok")]);
        } else {
            assert(spec_tokens(line@)[0] != ascii_seq("readyok"));
        }
    }
    r
}

/// The initial position command.
pub open spec fn spec_startpos_cmd() -> Seq<u8> {
    ascii_seq("position startpos")
}

impl EngineClient {
    /// A client for a freshly spawned analyzer process.
    pub fn new_client() -> (r: EngineClient)
        ensures
            r.state == ProtocolState::Spawned,
            r.current_multipv == 0,
            r.position_cmd@ == spec_startpos_cmd(),
            !r.position_synced,
            !r.has_moves,
    {
        proof {
            reveal_strlit("position startpos");
        }
        EngineClient {
            state: ProtocolState::Spawned,
            current_multipv: 0,
            position_cmd: ascii_bytes("position startpos"),
            position_synced: false,
            has_moves: false,
        }
    }

    /// Announces the protocol: the commands to send right after spawning,
    /// ending in a readiness probe.
    pub fn begin_init(&mut self) -> (cmds: Vec<Vec<u8>>)
        requires
            old(self).state == ProtocolState::Spawned,
        ensures
            final(self).state == ProtocolState::Announced,
            final(self).current_multipv == old(self).current_multipv,
            final(self).position_cmd == old(self).position_cmd,
            final(self).position_synced == old(self).position_synced,
            final(self).has_moves == old(self).has_moves,
            cmds.deep_view() =~= seq![ascii_seq("uci"), ascii_seq("isready")],
    {
        proof {
            reveal_strlit("uci");
            reveal_strlit("isready");
        }
        self.state = ProtocolState::Announced;
        let mut cmds: Vec<Vec<u8>> = Vec::new();
        cmds.push(ascii_bytes("uci"));
        cmds.push(ascii_bytes("isready"));
        proof {
            assert(cmds@[0]@ == cmds.deep_view()[0]);
            assert(cmds@[1]@ == cmds.deep_view()[1]);
            assert(cmds.deep_view() =~= seq![ascii_seq("uci"), ascii_seq("isready")]);
        }
        cmds
    }

    /// The configuration commands: thread count and hash size, then a
    /// readiness probe.
    pub fn configure(&mut self) -> (cmds: Vec<Vec<u8>>)
        requires
            old(self).state == ProtocolState::Announced,
        ensures
            final(self).state == ProtocolState::Configured,
            final(self).current_multipv == old(self).current_multipv,
            final(self).position_cmd == old(self).position_cmd,
            final(self).position_synced == old(self).position_synced,
            final(self).has_moves == old(self).has_moves,
            cmds.deep_view() =~= seq![
                ascii_seq("setoption name Threads value ") + spec_dec_digits(
                    config::THREADS as nat,
                ),
                ascii_seq("setoption name Hash value ") + spec_dec_digits(config::HASH_MB as nat),
                ascii_seq("isready"),
            ],
    {
        proof {
            reveal_strlit("setoption name Threads value ");
            reveal_strlit("setoption name Hash value ");
            reveal_strlit("isready");
        }
        self.state = ProtocolState::Configured;
        let mut cmds: Vec<Vec<u8>> = Vec::new();
        let mut c1: Vec<u8> = Vec::new();
        push_ascii(&mut c1, "setoption name Threads value ");
        push_dec(&mut c1, config::THREADS as u64);
        cmds.push(c1);
        let mut c2: Vec<u8> = Vec::new();
        push_ascii(&mut c2, "setoption name Hash value ");
        push_dec(&mut c2, config::HASH_MB as u64);
        cmds.push(c2);
        cmds.push(ascii_bytes("isready"));
        proof {
            assert(cmds@[0]@ == cmds.deep_view()[0]);
            assert(cmds@[1]@ == cmds.deep_view()[1]);
            assert(cmds@[2]@ == cmds.deep_view()[2]);
            assert(cmds.deep_view() =~= seq![
                ascii_seq("setoption name Threads value ") + spec_dec_digits(
                    config::THREADS as nat,
                ),
                ascii_seq("setoption name Hash value ") + spec_dec_digits(config::HASH_MB as nat),
                ascii_seq("isready"),
            ]);
        }
        cmds
    }

    /// Consumes one line while waiting for readiness.  A readiness
    /// answer after announcing asks for configuration; one after
    /// configuring makes the client ready.  Everything else — option
    /// listings, the protocol acknowledgement — is ignored.
    pub fn on_wait_line(&mut self, line: &Vec<u8>) -> (became_ready: bool)
        requires
            old(self).state == ProtocolState::Announced || old(self).state
                == ProtocolState::Configured,
        ensures
            final(self).current_multipv == old(self).current_multipv,
            final(self).position_cmd == old(self).position_cmd,
            final(self).position_synced == old(self).position_synced,
            final(self).has_moves == old(self).has_moves,
            !spec_is_readyok(line@) ==> final(self).state == old(self).state && !became_ready,
            spec_is_readyok(line@) && old(self).state == ProtocolState::Configured ==> final(self).state == ProtocolState::Ready && became_ready,
            spec_is_readyok(line@) && old(self).state == ProtocolState::Announced ==> final(self).state == ProtocolState::Announced && became_ready,
    {
        if is_readyok_line(line) {
            match self.state {
                ProtocolState::Configured => {
                    self.state = ProtocolState::Ready;
                },
                _ => {},
            }
            true
        } else {
            false
        }
    }

    /// Starts a new game: resets the position and asks for readiness.
    pub fn new_game(&mut self) -> (cmds: Vec<Vec<u8>>)
        requires
            old(self).state == ProtocolState::Ready,
        ensures
            final(self).state == ProtocolState::Configured,
            final(self).current_multipv == 0,
            final(self).position_cmd@ == spec_startpos_cmd(),
            !final(self).position_synced,
            !final(self).has_moves,
            cmds.deep_view() =~= seq![ascii_seq("ucinewgame"), ascii_seq("isready")],
    {
        proof {
            reveal_strlit("position startpos");
            reveal_strlit("ucinewgame");
            reveal_strlit("isready");
        }
        self.state = ProtocolState::Configured;
        self.current_multipv = 0;
        self.position_cmd = ascii_bytes("position startpos");
        self.position_synced = false;
        self.has_moves = false;
        let mut cmds: Vec<Vec<u8>> = Vec::new();
        cmds.push(ascii_bytes("ucinewgame"));
        cmds.push(ascii_bytes("isready"));
        proof {
            assert(cmds@[0]@ == cmds.deep_view()[0]);
            assert(cmds@[1]@ == cmds.deep_view()[1]);
            assert(cmds.deep_view() =~= seq![ascii_seq("ucinewgame"), ascii_seq("isready")]);
        }
        cmds
    }

    /// Appends a played move to the pending position command and marks
    /// the position out of sync.
    pub fn push_move(&mut self, uci: &Vec<u8>)
        ensures
            final(self).state == old(self).state,
            final(self).current_multipv == old(self).current_multipv,
            !final(self).position_synced,
            final(self).has_moves,
            !old(self).has_moves ==> final(self).position_cmd@ == old(self).position_cmd@
                + ascii_seq(" moves ") + uci@,
            old(self).has_moves ==> final(self).position_cmd@ == old(self).position_cmd@
                + ascii_seq(" ") + uci@,
    {
        proof {
            reveal_strlit(" moves ");
            reveal_strlit(" ");
        }
        if !self.has_moves {
            push_ascii(&mut self.position_cmd, " moves ");
        } else {
            push_ascii(&mut self.position_cmd, " ");
        }
        let ghost mid = self.position_cmd@;
        let mut i: usize = 0;
        while i < uci.len()
            invariant
                i <= uci@.len(),
                self.position_cmd@ == mid + uci@.take(i as int),
                self.state == old(self).state,
                self.current_multipv == old(self).current_multipv,
                self.has_moves == old(self).has_moves,
            decreases uci@.len() - i,
        {
            self.position_cmd.push(uci[i]);
            proof {
                assert(mid + uci@.take(i as int) + seq![uci@[i as int]] =~= mid + uci@.take(
                    i as int + 1,
                ));
            }
            i = i + 1;
        }
        proof {
            assert(mid + uci@.take(uci@.len() as int) =~= mid + uci@);
        }
        self.position_synced = false;
        self.has_moves = true;
    }

    /// Replaces the pending position with a FEN submission, as an
    /// analysis of a foreign position needs.
    pub fn set_position_fen(&mut self, fen: &Vec<u8>)
        ensures
            final(self).state == old(self).state,
            final(self).current_multipv == old(self).current_multipv,
            !final(self).position_synced,
            !final(self).has_moves,
            final(self).position_cmd@ == ascii_seq("position fen ") + fen@,
    {
        proof {
            reveal_strlit("position fen ");
        }
        let mut cmd: Vec<u8> = Vec::new();
        push_ascii(&mut cmd, "position fen ");
        let ghost mid = cmd@;
        let mut i: usize = 0;
        while i < fen.len()
            invariant
                i <= fen@.len(),
                cmd@ == mid + fen@.take(i as int),
                mid == ascii_seq("position fen "),
            decreases fen@.len() - i,
        {
            cmd.push(fen[i]);
            proof {
                assert(mid + fen@.take(i as int) + seq![fen@[i as int]] =~= mid + fen@.take(
                    i as int + 1,
                ));
            }
            i = i + 1;
        }
        proof {
            assert(mid + fen@.take(fen@.len() as int) =~= mid + fen@);
        }
        self.position_cmd = cmd;
        self.position_synced = false;
        self.has_moves = false;
    }

    /// Starts a search: re-sends the number-of-lines option only when it
    /// changed, sends the position only when out of sync, then bounds
    /// the search by depth.  The commands go out in the order of the
    /// triple: option change, position, search.
    pub fn begin_search(&mut self, depth: u8, multipv: u32) -> (cmds: (
        Option<Vec<u8>>,
        Option<Vec<u8>>,
        Vec<u8>,
    ))
        requires
            old(self).state == ProtocolState::Ready,
        ensures
            final(self).state == ProtocolState::Searching,
            final(self).current_multipv == multipv,
            final(self).position_synced,
            final(self).has_moves == old(self).has_moves,
            final(self).position_cmd == old(self).position_cmd,
            cmds.0 is Some <==> multipv != old(self).current_multipv,
            cmds.0 matches Some(c) ==> c@ == ascii_seq("setoption name MultiPV value ")
                + spec_dec_digits(multipv as nat),
            cmds.1 is Some <==> !old(self).position_synced,
            cmds.1 matches Some(c) ==> c@ == old(self).position_cmd@,
            cmds.2@ == ascii_seq("go depth ") + spec_dec_digits(depth as nat) + ascii_seq(
                " multipv ",
            ) + spec_dec_digits(multipv as nat),
    {
        proof {
            reveal_strlit("setoption name MultiPV value ");
            reveal_strlit("go depth ");
            reveal_strlit(" multipv ");
        }
        let opt_cmd: Option<Vec<u8>> = if multipv != self.current_multipv {
            let mut c: Vec<u8> = Vec::new();
            push_ascii(&mut c, "setoption name MultiPV value ");
            push_dec(&mut c, multipv as u64);
            self.current_multipv = multipv;
            Some(c)
        } else {
            None
        };
        let pos_cmd: Option<Vec<u8>> = if !self.position_synced {
            let c = copy_bytes(&self.position_cmd);
            self.position_synced = true;
            Some(c)
        } else {
            None
        };
        let mut go: Vec<u8> = Vec::new();
        push_ascii(&mut go, "go depth ");
        push_dec(&mut go, depth as u64);
        push_ascii(&mut go, " multipv ");
        push_dec(&mut go, multipv as u64);
        self.state = ProtocolState::Searching;
        (opt_cmd, pos_cmd, go)
    }

    /// The search terminator arrived: back to ready.
    pub fn end_search(&mut self)
        requires
            old(self).state == ProtocolState::Searching,
        ensures
            final(self).state == ProtocolState::Ready,
            final(self).current_multipv == old(self).current_multipv,
            final(self).position_cmd == old(self).position_cmd,
            final(self).position_synced == old(self).position_synced,
            final(self).has_moves == old(self).has_moves,
    {
        self.state = ProtocolState::Ready;
    }

    /// A timeout or protocol fault degrades the client: only quitting is
    /// left.
    pub fn degrade(&mut self)
        ensures
            final(self).state == ProtocolState::Quitting,
            final(self).current_multipv == old(self).current_multipv,
            final(self).position_cmd == old(self).position_cmd,
            final(self).position_synced == old(self).position_synced,
            final(self).has_moves == old(self).has_moves,
    {
        self.state = ProtocolState::Quitting;
    }

    /// The shutdown command.
    pub fn quit(&mut self) -> (cmd: Vec<u8>)
        ensures
            final(self).state == ProtocolState::Quitting,
            cmd@ == ascii_seq("quit"),
    {
        proof {
            reveal_strlit("quit");
        }
        self.state = ProtocolState::Quitting;
        ascii_bytes("quit")
    }
}

/// The wait budget of one search: the base round-trip budget scaled by
/// the analysis factor and the depth.
pub fn search_timeout_ms(depth: u8) -> (r: u64)
    ensures
        r == config::BASE_TIMEOUT_MS * config::ANALYSIS_FACTOR * (depth as u64),
{
    config::BASE_TIMEOUT_MS * config::ANALYSIS_FACTOR * (depth as u64)
}

} // verus!
