//! What happens in a proxy that its host may care about, and what a session
//! asks of the connections around it.

use vstd::prelude::*;

use crate::packet::{Packet, PacketView};
use crate::plugin::{Frame, FrameView};
use crate::views;

verus! {

/// Number of a client. Clients get ascending numbers as they connect.
pub type ClientId = u32;

/// Something that happened in the proxy.
#[derive(Debug, PartialEq)]
#[allow(inconsistent_fields)]
pub enum ProxyEvent {
    /// A session (upstream connection) was established.
    SessionStarted,
    /// The session ended; the next client starts a fresh one.
    SessionEnded,
    ClientJoined { id: ClientId, username: String },
    ClientLeft { id: ClientId, username: String },
    /// Control moved; `None` means that nobody has it and the proxy stands in.
    ControlChanged { controller: Option<(ClientId, String)> },
}

/// What a [`ProxyEvent`] holds.
#[verifier::ext_equal]
#[allow(inconsistent_fields)]
pub enum EventView {
    SessionStarted,
    SessionEnded,
    ClientJoined { id: ClientId, username: Seq<char> },
    ClientLeft { id: ClientId, username: Seq<char> },
    ControlChanged { controller: Option<(ClientId, Seq<char>)> },
}

impl View for ProxyEvent {
    type V = EventView;

    open spec fn view(&self) -> EventView {
        match *self {
            ProxyEvent::SessionStarted => EventView::SessionStarted,
            ProxyEvent::SessionEnded => EventView::SessionEnded,
            ProxyEvent::ClientJoined { id, username } => EventView::ClientJoined {
                id,
                username: username@,
            },
            ProxyEvent::ClientLeft { id, username } => EventView::ClientLeft {
                id,
                username: username@,
            },
            ProxyEvent::ControlChanged { controller } => EventView::ControlChanged {
                controller: match controller {
                    Some((id, name)) => Some((id, name@)),
                    None => None,
                },
            },
        }
    }
}

impl Clone for ProxyEvent {
    fn clone(&self) -> (r: ProxyEvent)
        ensures
            r@ == self@,
    {
        match self {
            ProxyEvent::SessionStarted => ProxyEvent::SessionStarted,
            ProxyEvent::SessionEnded => ProxyEvent::SessionEnded,
            ProxyEvent::ClientJoined { id, username } => ProxyEvent::ClientJoined {
                id: *id,
                username: username.clone(),
            },
            ProxyEvent::ClientLeft { id, username } => ProxyEvent::ClientLeft {
                id: *id,
                username: username.clone(),
            },
            ProxyEvent::ControlChanged { controller } => ProxyEvent::ControlChanged {
                controller: match controller {
                    Some((id, name)) => Some((*id, name.clone())),
                    None => None,
                },
            },
        }
    }
}

/// What a session asks to be done, in order.
#[derive(Debug, PartialEq)]
#[allow(inconsistent_fields)]
pub enum Action {
    /// Send packets to a client, without waiting for it. A client that cannot
    /// take all of them loses the rest; where `must` is set, the session is to
    /// be told of it by [`crate::session::Session::delivery_failed`].
    ToClient { id: ClientId, packets: Vec<Packet>, must: bool },
    /// Send a frame to the server. Where `must` is set and the connection is
    /// closed, the session ends; else a warning will do.
    ToServer { frame: Frame, must: bool },
    /// Tell the host.
    Emit(ProxyEvent),
    /// Close the connection of a client that has left the session.
    Close { id: ClientId },
    /// Turn away a client for which there is no room.
    Refuse { id: ClientId },
    /// Warn that the first frame of the game state is not a Login, but has
    /// this id: the packet ids may be stale for this protocol version.
    StaleIds { packet_id: u32 },
}

/// What an [`Action`] holds.
#[verifier::ext_equal]
#[allow(inconsistent_fields)]
pub enum ActionView {
    ToClient { id: ClientId, packets: Seq<PacketView>, must: bool },
    ToServer { frame: FrameView, must: bool },
    Emit(EventView),
    Close { id: ClientId },
    Refuse { id: ClientId },
    StaleIds { packet_id: u32 },
}

impl View for Action {
    type V = ActionView;

    open spec fn view(&self) -> ActionView {
        match *self {
            Action::ToClient { id, packets, must } => ActionView::ToClient {
                id,
                packets: views::views(packets@),
                must,
            },
            Action::ToServer { frame, must } => ActionView::ToServer { frame: frame@, must },
            Action::Emit(event) => ActionView::Emit(event@),
            Action::Close { id } => ActionView::Close { id },
            Action::Refuse { id } => ActionView::Refuse { id },
            Action::StaleIds { packet_id } => ActionView::StaleIds { packet_id },
        }
    }
}

} // verus!
