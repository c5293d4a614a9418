//! The errors of connection attempts, as far as decisions depend on them.
use vstd::prelude::*;

use crate::addr::{IpVersion, PeerId};
use crate::text::{contains_text, has_word};

verus! {

/// Why a tunnel could not be made.
#[derive(Debug)]
pub enum TunnelError {
    /// The local address could not be bound; the interface that it belonged to may be gone.
    LocalBind { stale_interface: bool },
    /// Any other failure of the operating system.
    IOError,
    InvalidAddr(String),
    InvalidProtocol(String),
    NoDnsRecordFound(IpVersion),
    Other(String),
}

/// Why an operation failed.
#[derive(Debug)]
pub enum Error {
    IOError,
    TunError,
    TunnelError(TunnelError),
    PeerNoConnectionError(PeerId),
    RouteError(Option<String>),
    NotFound,
    InvalidUrl(String),
    ShellCommandError(String),
    RpcConnectError(String),
    Timeout,
    UrlInBlacklist,
    ProtocolLoopSuppressed(String),
    Unknown,
    /// The messages of an error and of its causes.
    AnyhowError(Vec<String>),
    WaitRespError(String),
    MessageDecodeError(String),
    SecretKeyError(String),
    NoiseError,
}

/// The message tells that the other side has this node's own id.
pub open spec fn tells_of_conflict(message: Seq<char>) -> bool {
    has_word(message, "peer id conflict"@)
}

fn chain_tells_of_conflict(chain: &Vec<String>) -> (r: bool)
    ensures
        r == exists|i: int| 0 <= i < chain@.len() && tells_of_conflict((#[trigger] chain@[i])@),
{
    let mut i: usize = 0;
    while i < chain.len()
        invariant
            i <= chain@.len(),
            forall|j: int| 0 <= j < i ==> !tells_of_conflict((#[trigger] chain@[j])@),
        decreases chain@.len() - i,
    {
        if contains_text(chain[i].as_str(), "peer id conflict") {
            assert(tells_of_conflict(chain@[i as int]@));
            return true;
        }
        i += 1;
    }
    false
}

impl Error {
    /// The handshake ended in the discovery that the node had connected to itself.
    pub open spec fn self_loop(self) -> bool {
        match self {
            Error::WaitRespError(message) => tells_of_conflict(message@),
            Error::AnyhowError(chain) => exists|i: int|
                0 <= i < chain@.len() && tells_of_conflict((#[trigger] chain@[i])@),
            _ => false,
        }
    }

    pub fn is_self_loop_signal(&self) -> (r: bool)
        ensures
            r == self.self_loop(),
    {
        match self {
            Error::WaitRespError(message) => contains_text(message.as_str(), "peer id conflict"),
            Error::AnyhowError(chain) => chain_tells_of_conflict(chain),
            _ => false,
        }
    }

    /// The error comes from binding an address of an interface that is gone.
    pub open spec fn stale_interface(self) -> bool {
        self matches Error::TunnelError(TunnelError::LocalBind { stale_interface }) && stale_interface
    }
}

/// Tells whether the error comes from binding an address of an interface that is gone.
pub fn stale_interface_tunnel_error(error: &TunnelError) -> (r: bool)
    ensures
        r == (*error matches TunnelError::LocalBind { stale_interface } && stale_interface),
{
    match error {
        TunnelError::LocalBind { stale_interface } => *stale_interface,
        _ => false,
    }
}

/// Tells whether the error comes from binding an address of an interface that is gone.
pub fn stale_interface_error(error: &Error) -> (r: bool)
    ensures
        r == error.stale_interface(),
{
    match error {
        Error::TunnelError(error) => stale_interface_tunnel_error(error),
        _ => false,
    }
}

/// An error tells of a connection of the node to itself just where its message, or one of the messages of
/// its causes, holds the words for a conflict of peer ids.
pub proof fn law_errors_that_tell_of_a_loop(error: Error, front: Seq<char>, back: Seq<char>)
    ensures
        tells_of_conflict(front + "peer id conflict"@ + back),
        error matches Error::WaitRespError(message) ==> (error.self_loop() <==> has_word(
            message@,
            "peer id conflict"@,
        )),
        error matches Error::AnyhowError(chain) ==> (error.self_loop() <==> exists|i: int|
            0 <= i < chain@.len() && has_word((#[trigger] chain@[i])@, "peer id conflict"@)),
        !(error is WaitRespError) && !(error is AnyhowError) ==> !error.self_loop(),
{
    crate::text::law_words_in_texts(front, "peer id conflict"@, back, front);
    if let Error::AnyhowError(chain) = error {
        if error.self_loop() {
            let i = choose|i: int| 0 <= i < chain@.len() && tells_of_conflict((#[trigger] chain@[i])@);
            assert(has_word(chain@[i]@, "peer id conflict"@));
        }
        if exists|i: int| 0 <= i < chain@.len() && has_word((#[trigger] chain@[i])@, "peer id conflict"@) {
            let i = choose|i: int|
                0 <= i < chain@.len() && has_word((#[trigger] chain@[i])@, "peer id conflict"@);
            assert(tells_of_conflict(chain@[i]@));
        }
    }
}

/// Only a failure to bind a local address can tell of an interface that is gone.
pub proof fn law_errors_that_tell_of_a_lost_interface(error: Error)
    ensures
        error.stale_interface() ==> error is TunnelError && error->TunnelError_0 is LocalBind,
        error == Error::TunnelError(TunnelError::LocalBind { stale_interface: true })
            ==> error.stale_interface(),
        error == Error::TunnelError(TunnelError::LocalBind { stale_interface: false })
            ==> !error.stale_interface(),
{
}

} // verus!
