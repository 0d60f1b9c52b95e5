//! The upstream side: the proxy's own authenticated connection to the target
//! server.

use std::path::PathBuf;

use vstd::prelude::*;

use crate::wire;

verus! {

/// `std::path::PathBuf`. Nothing is claimed of it: the library carries paths
/// and does not look into them.
#[verifier::external_type_specification]
#[verifier::external_body]
pub struct ExPathBuf(PathBuf);

/// Where to connect to, and as whom.
pub struct UpstreamConfig {
    pub host: String,
    pub port: u16,
    /// Microsoft account email.
    pub email: String,
    /// Where login tokens are kept, in place of the usual place.
    pub auth_cache: Option<PathBuf>,
}

/// Where login tokens are kept between runs: where the configuration says, or
/// else the environment, or else in the game's own folder, where a bot on this
/// machine keeps them too. `None`: nowhere, and every start asks for a login.
pub open spec fn auth_cache_place(
    configured: Option<PathBuf>,
    environment: Option<PathBuf>,
    game_folder: Option<PathBuf>,
) -> Option<PathBuf> {
    if configured is Some {
        configured
    } else if environment is Some {
        environment
    } else {
        game_folder
    }
}

/// Where login tokens are kept between runs.
pub fn auth_cache_file(
    configured: Option<PathBuf>,
    environment: Option<PathBuf>,
    game_folder: Option<PathBuf>,
) -> (r: Option<PathBuf>)
    ensures
        r == auth_cache_place(configured, environment, game_folder),
{
    if configured.is_some() {
        configured
    } else if environment.is_some() {
        environment
    } else {
        game_folder
    }
}

/// A packet that the server sends during the login.
#[derive(Clone, Copy, Debug, PartialEq, Eq, Structural)]
pub enum UpstreamPacket {
    /// The server asks for encryption.
    EncryptionRequest,
    LoginCompression { threshold: i32 },
    LoginFinished,
    /// Any other packet.
    Other,
}

/// How far the login has come.
#[derive(Clone, Copy, Debug, PartialEq, Eq, Structural)]
pub enum UpstreamLogin {
    /// The server is to ask for encryption.
    Hello,
    /// The connection is encrypted; the server may set a compression
    /// threshold before it ends the login.
    Encrypted { compression_threshold: Option<u32> },
}

/// What a packet leads to.
#[derive(Clone, Copy, Debug, PartialEq, Eq, Structural)]
pub enum UpstreamStep {
    /// Join the session server, answer with the key, encrypt, and read on.
    Encrypt { login: UpstreamLogin },
    /// Compress packets beyond this size, and read on.
    Compress { login: UpstreamLogin, threshold: i32 },
    /// Read on.
    Ignore { login: UpstreamLogin },
    /// Acknowledge the login, which is complete.
    Finish { compression_threshold: Option<u32> },
    /// The server did not ask for encryption.
    ExpectedEncryption,
}

/// What a packet leads to in a login that has come this far.
pub open spec fn stepped(login: UpstreamLogin, packet: UpstreamPacket) -> UpstreamStep {
    match login {
        UpstreamLogin::Hello => if packet == UpstreamPacket::EncryptionRequest {
            UpstreamStep::Encrypt {
                login: UpstreamLogin::Encrypted { compression_threshold: None },
            }
        } else {
            UpstreamStep::ExpectedEncryption
        },
        UpstreamLogin::Encrypted { compression_threshold } => match packet {
            UpstreamPacket::LoginCompression { threshold } => UpstreamStep::Compress {
                login: UpstreamLogin::Encrypted {
                    compression_threshold: Some(wire::unsigned(threshold)),
                },
                threshold,
            },
            UpstreamPacket::LoginFinished => UpstreamStep::Finish { compression_threshold },
            _ => UpstreamStep::Ignore { login },
        },
    }
}

/// The login ends with the last compression threshold that the server set.
pub proof fn last_threshold_counts(before: Option<u32>, threshold: i32)
    ensures
        stepped(
            UpstreamLogin::Encrypted { compression_threshold: before },
            UpstreamPacket::LoginCompression { threshold },
        ) matches UpstreamStep::Compress { login, .. } && stepped(
            login,
            UpstreamPacket::LoginFinished,
        ) == (UpstreamStep::Finish { compression_threshold: Some(wire::unsigned(threshold)) }),
{
}

/// No login ends before the connection is encrypted.
pub proof fn nothing_ends_unencrypted(packet: UpstreamPacket)
    ensures
        !(stepped(UpstreamLogin::Hello, packet) is Finish),
{
}

impl UpstreamLogin {
    /// The proxy has said hello.
    pub fn new() -> (r: UpstreamLogin)
        ensures
            r == UpstreamLogin::Hello,
    {
        UpstreamLogin::Hello
    }

    /// Follows the login by one packet.
    pub fn step(self, packet: UpstreamPacket) -> (r: UpstreamStep)
        ensures
            r == stepped(self, packet),
    {
        match self {
            UpstreamLogin::Hello => match packet {
                UpstreamPacket::EncryptionRequest => UpstreamStep::Encrypt {
                    login: UpstreamLogin::Encrypted { compression_threshold: None },
                },
                _ => UpstreamStep::ExpectedEncryption,
            },
            UpstreamLogin::Encrypted { compression_threshold } => match packet {
                UpstreamPacket::LoginCompression { threshold } => UpstreamStep::Compress {
                    login: UpstreamLogin::Encrypted {
                        compression_threshold: Some(wire::to_unsigned(threshold)),
                    },
                    threshold,
                },
                UpstreamPacket::LoginFinished => UpstreamStep::Finish { compression_threshold },
                _ => UpstreamStep::Ignore {
                    login: UpstreamLogin::Encrypted { compression_threshold },
                },
            },
        }
    }
}

} // verus!
