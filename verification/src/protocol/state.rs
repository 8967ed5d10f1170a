//! The four top-level states of a Java Edition connection.
use vstd::prelude::*;

verus! {

#[derive(Debug, Clone, Copy, PartialEq, Eq, Structural)]
pub enum ProtocolState {
    /// Initial handshake: the client selects the next state (status or login).
    Handshake,
    /// Server list ping and pong.
    Status,
    /// Login sequence: encryption, compression, profile exchange.
    Login,
    /// Configuration phase: registry sync, brand, resource pack prompt.
    Configuration,
    /// Play phase: gameplay packets.
    Play,
}

/// The lowercase name of a state.
pub open spec fn state_name(s: ProtocolState) -> Seq<char> {
    match s {
        ProtocolState::Handshake => seq!['h', 'a', 'n', 'd', 's', 'h', 'a', 'k', 'e'],
        ProtocolState::Status => seq!['s', 't', 'a', 't', 'u', 's'],
        ProtocolState::Login => seq!['l', 'o', 'g', 'i', 'n'],
        ProtocolState::Configuration => seq![
            'c', 'o', 'n', 'f', 'i', 'g', 'u', 'r', 'a', 't', 'i', 'o', 'n',
        ],
        ProtocolState::Play => seq!['p', 'l', 'a', 'y'],
    }
}

impl ProtocolState {
    /// The state's lowercase name.
    pub fn as_str(self) -> (s: &'static str)
        ensures
            s@ == state_name(self),
    {
        match self {
            ProtocolState::Handshake => {
                let s = "handshake";
                proof {
                    reveal_strlit("handshake");
                }
                s
            },
            ProtocolState::Status => {
                let s = "status";
                proof {
                    reveal_strlit("status");
                }
                s
            },
            ProtocolState::Login => {
                let s = "login";
                proof {
                    reveal_strlit("login");
                }
                s
            },
            ProtocolState::Configuration => {
                let s = "configuration";
                proof {
                    reveal_strlit("configuration");
                }
                s
            },
            ProtocolState::Play => {
                let s = "play";
                proof {
                    reveal_strlit("play");
                }
                s
            },
        }
    }
}

impl Default for ProtocolState {
    /// A connection starts in the handshake state.
    fn default() -> (s: Self)
        ensures
            s == ProtocolState::Handshake,
    {
        ProtocolState::Handshake
    }
}

} // verus!
