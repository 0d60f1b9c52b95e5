//! The local-facing side: the proxy as an offline-mode server.
//!
//! The login of a client is a sequence of packets and replies. It is followed
//! here packet by packet; reading and writing them is left to the connection.

use vstd::prelude::*;

verus! {

/// Where the proxy listens.
pub struct LocalServerConfig {
    pub bind: String,
}

/// What a client says it connects for.
#[derive(Clone, Copy, Debug, PartialEq, Eq, Structural)]
pub enum Intention {
    Status,
    Login,
    Transfer,
}

/// A packet of a client that is not yet logged in.
#[derive(Debug, PartialEq)]
pub enum LocalPacket {
    Intention { intention: Intention, protocol_version: i32 },
    StatusRequest,
    PingRequest { time: u64 },
    Hello { name: String, profile_id: u128 },
    LoginAcknowledged,
    /// Any other packet.
    Other,
}

/// How far a login has come.
#[derive(Debug, PartialEq)]
pub enum LocalLogin {
    /// The client is to say what it connects for.
    Handshake,
    /// The client is to ask for the status.
    Status,
    /// The client is to ask for a ping.
    Ping,
    /// The client is to say who it is.
    Hello,
    /// The client is to confirm its login.
    Acknowledge { username: String, uuid: u128 },
}

/// What [`LocalLogin`] holds.
#[verifier::ext_equal]
pub enum LoginView {
    Handshake,
    Status,
    Ping,
    Hello,
    Acknowledge { username: Seq<char>, uuid: u128 },
}

impl View for LocalLogin {
    type V = LoginView;

    open spec fn view(&self) -> LoginView {
        match *self {
            LocalLogin::Handshake => LoginView::Handshake,
            LocalLogin::Status => LoginView::Status,
            LocalLogin::Ping => LoginView::Ping,
            LocalLogin::Hello => LoginView::Hello,
            LocalLogin::Acknowledge { username, uuid } => LoginView::Acknowledge {
                username: username@,
                uuid,
            },
        }
    }
}

/// What is to be written to the client.
#[derive(Clone, Copy, Debug, PartialEq, Eq, Structural)]
pub enum LocalReply {
    Nothing,
    /// The status of the proxy, for the server list.
    Status,
    /// The time of the ping.
    Pong { time: u64 },
    /// The end of the login, with the name and uuid that the client gave.
    LoginFinished,
}

/// Why a connection does not become a client.
#[derive(Clone, Copy, Debug, PartialEq, Eq, Structural)]
pub enum LocalError {
    /// It only asked for the status.
    StatusPing,
    /// It speaks another version of the protocol.
    ProtocolVersion { client: i32 },
    /// It was transferred from another server.
    Transfer,
    /// It did not say who it is.
    ExpectedHello,
    /// It did not confirm its login.
    ExpectedLoginAcknowledged,
    /// It did not say what it connects for.
    ExpectedIntention,
}

/// What a packet leads to.
#[derive(Debug, PartialEq)]
pub enum LocalStep {
    /// Write the reply and read on.
    Next { login: LocalLogin, reply: LocalReply },
    /// Write the reply and give up.
    Failed { error: LocalError, reply: LocalReply },
    /// The client is logged in.
    Done { username: String, uuid: u128 },
}

/// What a [`LocalStep`] holds.
#[verifier::ext_equal]
pub enum StepView {
    Next { login: LoginView, reply: LocalReply },
    Failed { error: LocalError, reply: LocalReply },
    Done { username: Seq<char>, uuid: u128 },
}

impl View for LocalStep {
    type V = StepView;

    open spec fn view(&self) -> StepView {
        match *self {
            LocalStep::Next { login, reply } => StepView::Next { login: login@, reply },
            LocalStep::Failed { error, reply } => StepView::Failed { error, reply },
            LocalStep::Done { username, uuid } => StepView::Done { username: username@, uuid },
        }
    }
}

/// What a packet leads to in a login that has come this far. Status requests
/// of any protocol version are answered, so that a server list can show the
/// mismatch; only logins of another version are turned away.
pub open spec fn stepped(login: LoginView, packet: LocalPacket, protocol_version: i32) -> StepView {
    match login {
        LoginView::Handshake => match packet {
            LocalPacket::Intention { intention, protocol_version: client } => match intention {
                Intention::Status => StepView::Next {
                    login: LoginView::Status,
                    reply: LocalReply::Nothing,
                },
                Intention::Login => if client != protocol_version {
                    StepView::Failed {
                        error: LocalError::ProtocolVersion { client },
                        reply: LocalReply::Nothing,
                    }
                } else {
                    StepView::Next { login: LoginView::Hello, reply: LocalReply::Nothing }
                },
                Intention::Transfer => StepView::Failed {
                    error: LocalError::Transfer,
                    reply: LocalReply::Nothing,
                },
            },
            _ => StepView::Failed {
                error: LocalError::ExpectedIntention,
                reply: LocalReply::Nothing,
            },
        },
        LoginView::Status => StepView::Next {
            login: LoginView::Ping,
            reply: if packet is StatusRequest {
                LocalReply::Status
            } else {
                LocalReply::Nothing
            },
        },
        LoginView::Ping => StepView::Failed {
            error: LocalError::StatusPing,
            reply: match packet {
                LocalPacket::PingRequest { time } => LocalReply::Pong { time },
                _ => LocalReply::Nothing,
            },
        },
        LoginView::Hello => match packet {
            LocalPacket::Hello { name, profile_id } => StepView::Next {
                login: LoginView::Acknowledge { username: name@, uuid: profile_id },
                reply: LocalReply::LoginFinished,
            },
            _ => StepView::Failed { error: LocalError::ExpectedHello, reply: LocalReply::Nothing },
        },
        LoginView::Acknowledge { username, uuid } => if packet is LoginAcknowledged {
            StepView::Done { username, uuid }
        } else {
            StepView::Failed {
                error: LocalError::ExpectedLoginAcknowledged,
                reply: LocalReply::Nothing,
            }
        },
    }
}

/// A client that speaks the right version and says and confirms who it is, is
/// logged in under the name and uuid that it gave, after one reply.
pub proof fn login_succeeds(name: String, profile_id: u128, protocol_version: i32)
    ensures
        stepped(
            LoginView::Handshake,
            LocalPacket::Intention { intention: Intention::Login, protocol_version },
            protocol_version,
        ) == (StepView::Next { login: LoginView::Hello, reply: LocalReply::Nothing }),
        stepped(LoginView::Hello, LocalPacket::Hello { name, profile_id }, protocol_version) == (
        StepView::Next {
            login: LoginView::Acknowledge { username: name@, uuid: profile_id },
            reply: LocalReply::LoginFinished,
        }),
        stepped(
            LoginView::Acknowledge { username: name@, uuid: profile_id },
            LocalPacket::LoginAcknowledged,
            protocol_version,
        ) == (StepView::Done { username: name@, uuid: profile_id }),
{
}

/// A status connection never becomes a client.
pub proof fn status_never_logs_in(packet: LocalPacket, protocol_version: i32)
    ensures
        !(stepped(LoginView::Status, packet, protocol_version) is Done),
        !(stepped(LoginView::Ping, packet, protocol_version) is Done),
        stepped(LoginView::Status, packet, protocol_version) matches StepView::Next { login, .. }
            ==> login == LoginView::Ping,
        stepped(LoginView::Ping, packet, protocol_version) is Failed,
{
}

impl LocalLogin {
    /// A connection that has just been made.
    pub fn new() -> (r: LocalLogin)
        ensures
            r@ == LoginView::Handshake,
    {
        LocalLogin::Handshake
    }

    /// Follows the login by one packet.
    pub fn step(self, packet: LocalPacket, protocol_version: i32) -> (r: LocalStep)
        ensures
            r@ == stepped(self@, packet, protocol_version),
    {
        match self {
            LocalLogin::Handshake => match packet {
                LocalPacket::Intention { intention, protocol_version: client } => match intention {
                    Intention::Status => LocalStep::Next {
                        login: LocalLogin::Status,
                        reply: LocalReply::Nothing,
                    },
                    Intention::Login => {
                        if client != protocol_version {
                            LocalStep::Failed {
                                error: LocalError::ProtocolVersion { client },
                                reply: LocalReply::Nothing,
                            }
                        } else {
                            LocalStep::Next {
                                login: LocalLogin::Hello,
                                reply: LocalReply::Nothing,
                            }
                        }
                    },
                    Intention::Transfer => LocalStep::Failed {
                        error: LocalError::Transfer,
                        reply: LocalReply::Nothing,
                    },
                },
                _ => LocalStep::Failed {
                    error: LocalError::ExpectedIntention,
                    reply: LocalReply::Nothing,
                },
            },
            LocalLogin::Status => {
                let reply: LocalReply = match packet {
                    LocalPacket::StatusRequest => LocalReply::Status,
                    _ => LocalReply::Nothing,
                };
                LocalStep::Next { login: LocalLogin::Ping, reply }
            },
            LocalLogin::Ping => {
                let reply: LocalReply = match packet {
                    LocalPacket::PingRequest { time } => LocalReply::Pong { time },
                    _ => LocalReply::Nothing,
                };
                LocalStep::Failed { error: LocalError::StatusPing, reply }
            },
            LocalLogin::Hello => match packet {
                LocalPacket::Hello { name, profile_id } => LocalStep::Next {
                    login: LocalLogin::Acknowledge { username: name, uuid: profile_id },
                    reply: LocalReply::LoginFinished,
                },
                _ => LocalStep::Failed {
                    error: LocalError::ExpectedHello,
                    reply: LocalReply::Nothing,
                },
            },
            LocalLogin::Acknowledge { username, uuid } => match packet {
                LocalPacket::LoginAcknowledged => LocalStep::Done { username, uuid },
                _ => LocalStep::Failed {
                    error: LocalError::ExpectedLoginAcknowledged,
                    reply: LocalReply::Nothing,
                },
            },
        }
    }
}

} // verus!
