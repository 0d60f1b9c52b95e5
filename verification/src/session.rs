//! The session: one upstream connection shared by many local clients.
//!
//! Clientbound traffic goes to every live client; serverbound traffic reaches
//! the server from the controller alone. What viewers send (keep-alive
//! replies, teleport confirms and all the rest) is swallowed here.
//!
//! A session does no I/O. It is told what happened and collects what is to be
//! done about it; [`Session::take_actions`] hands that out, in order. While
//! actions are carried out, a client that could not take packets that it must
//! have is reported by [`Session::delivery_failed`].

use vstd::prelude::*;
use vstd::string::StrSliceExecFns;

use crate::cache::{CacheView, JoinCache};
use crate::events::{Action, ActionView, ClientId, EventView, ProxyEvent};
use crate::ids;
use crate::packet;
use crate::packet::{GamePacket, Packet, PacketView};
use crate::plugin;
use crate::plugin::{Frame, FrameView, Pipeline};
use crate::reflect;
use crate::reflect::BotPose;
use crate::snapshot::WorldSnapshot;
use crate::table;
use crate::table::Table;
use crate::text;
use crate::views;
use crate::views::group_views;
use crate::wire;

verus! {

broadcast use group_views;

/// How a session behaves.
#[derive(Clone, Copy)]
pub struct SessionOpts {
    /// Turn away clients beyond this many.
    pub max_clients: Option<usize>,
    /// When the controller leaves or gives up control, hand it to the oldest
    /// live client instead of going on without a controller.
    pub always_first_control: bool,
}

/// How far a client has come.
#[derive(Clone, Copy, PartialEq, Eq, Structural)]
pub enum ClientState {
    /// Attached before the session reached the game state; its replay starts
    /// with the Login packet.
    Parked,
    /// Has been sent the configuration and is to confirm its end.
    Joining,
    /// Receives live traffic.
    Live,
}

/// A client of the session.
pub struct Client {
    state: ClientState,
    username: String,
    uuid: u128,
    swallow_next_accept: bool,
    camera_target: Option<i32>,
}

/// What a [`Client`] holds.
///
/// `swallow_next_accept` says that the accept of the proxy's own handover
/// teleport is still to come. `camera_target` is the entity that the client's
/// camera is locked to.
#[verifier::ext_equal]
pub struct ClientView {
    pub state: ClientState,
    pub username: Seq<char>,
    pub uuid: u128,
    pub swallow_next_accept: bool,
    pub camera_target: Option<i32>,
}

impl View for Client {
    type V = ClientView;

    closed spec fn view(&self) -> ClientView {
        ClientView {
            state: self.state,
            username: self.username@,
            uuid: self.uuid,
            swallow_next_accept: self.swallow_next_accept,
            camera_target: self.camera_target,
        }
    }
}

/// The protocol state of the upstream connection.
#[derive(Clone, Copy, PartialEq, Eq, Structural)]
pub enum UpstreamState {
    Config,
    Game,
}

/// A session.
pub struct Session {
    clients: Table<ClientId, Client>,
    controller: Option<ClientId>,
    cache: JoinCache,
    upstream_state: UpstreamState,
    seen_first_game_frame: bool,
    bot_uuid: u128,
    bot_name: String,
    pose: BotPose,
    real_game_mode: u8,
    abilities: Option<Frame>,
    respawn_entity_pending: bool,
    controller_moved_recently: bool,
    forward_next_position: bool,
    reassert_pending: bool,
    real_player_id: Option<i32>,
    opts: SessionOpts,
    outbox: Vec<Action>,
}

/// What a [`Session`] holds.
///
/// `controller` is the client whose traffic reaches the server; with none, the
/// proxy answers for the player. `real_game_mode`, `abilities` and
/// `real_player_id` are the session player's own. `respawn_entity_pending`
/// says that clients have lost the reflected entity, `forward_next_position`
/// that viewers are owed one position in a new world, and `reassert_pending`
/// that their game mode was reset.
#[verifier::ext_equal]
pub struct SessionView {
    pub clients: Map<ClientId, ClientView>,
    pub controller: Option<ClientId>,
    pub cache: CacheView,
    pub upstream_state: UpstreamState,
    pub seen_first_game_frame: bool,
    pub bot_uuid: u128,
    pub bot_name: Seq<char>,
    pub pose: BotPose,
    pub real_game_mode: u8,
    pub abilities: Option<FrameView>,
    pub respawn_entity_pending: bool,
    pub controller_moved_recently: bool,
    pub forward_next_position: bool,
    pub reassert_pending: bool,
    pub real_player_id: Option<i32>,
    pub opts: SessionOpts,
    pub outbox: Seq<ActionView>,
}

impl View for Session {
    type V = SessionView;

    closed spec fn view(&self) -> SessionView {
        SessionView {
            clients: self.clients@,
            controller: self.controller,
            cache: self.cache@,
            upstream_state: self.upstream_state,
            seen_first_game_frame: self.seen_first_game_frame,
            bot_uuid: self.bot_uuid,
            bot_name: self.bot_name@,
            pose: self.pose,
            real_game_mode: self.real_game_mode,
            abilities: views::seen(self.abilities),
            respawn_entity_pending: self.respawn_entity_pending,
            controller_moved_recently: self.controller_moved_recently,
            forward_next_position: self.forward_next_position,
            reassert_pending: self.reassert_pending,
            real_player_id: self.real_player_id,
            opts: self.opts,
            outbox: views::views(self.outbox@),
        }
    }
}

/// Parts of a command: the verb and what follows it, trimmed.
pub open spec fn command_parts(cmd: Seq<char>) -> (Seq<char>, Seq<char>) {
    match text::split_first(cmd, ' ') {
        Some((verb, rest)) => (verb, text::trimmed(rest)),
        None => (cmd, Seq::empty()),
    }
}

/// The game mode that a text names, by number or by name in any case.
pub open spec fn named_mode(arg: Seq<char>) -> Option<u8> {
    if text::same_text(arg, "0"@) || text::same_text(arg, "survival"@) {
        Some(0)
    } else if text::same_text(arg, "1"@) || text::same_text(arg, "creative"@) {
        Some(1)
    } else if text::same_text(arg, "2"@) || text::same_text(arg, "adventure"@) {
        Some(2)
    } else if text::same_text(arg, "3"@) || text::same_text(arg, "spectator"@) {
        Some(3)
    } else {
        None
    }
}

/// The game mode that a game event sets.
pub open spec fn event_mode(f: FrameView) -> Option<u8> {
    if f.body.len() >= 5 && f.body[0] == 3 {
        Some(wire::float_to_byte(wire::be_u32(f.body, 1)))
    } else {
        None
    }
}

impl SessionView {
    /// A session at its start: one client, who is in control.
    pub open spec fn started(
        id: ClientId,
        username: Seq<char>,
        uuid: u128,
        bot_uuid: u128,
        bot_name: Seq<char>,
        opts: SessionOpts,
    ) -> SessionView {
        SessionView {
            clients: Map::empty().insert(
                id,
                ClientView {
                    state: ClientState::Live,
                    username,
                    uuid,
                    swallow_next_accept: false,
                    camera_target: None,
                },
            ),
            controller: Some(id),
            cache: CacheView::empty(bot_uuid),
            upstream_state: UpstreamState::Config,
            seen_first_game_frame: false,
            bot_uuid,
            bot_name,
            pose: reflect::unknown_pose(),
            real_game_mode: 0,
            abilities: None,
            respawn_entity_pending: false,
            controller_moved_recently: false,
            forward_next_position: false,
            reassert_pending: false,
            real_player_id: None,
            opts,
            outbox: seq![
                ActionView::Emit(EventView::SessionStarted),
                ActionView::Emit(EventView::ClientJoined { id, username }),
                ActionView::Emit(EventView::ControlChanged { controller: Some((id, username)) }),
            ],
        }
    }

    /// One thing more to do.
    pub open spec fn ask(self, action: ActionView) -> SessionView {
        SessionView { outbox: self.outbox.push(action), ..self }
    }

    /// Packets for a client.
    pub open spec fn send(
        self,
        id: ClientId,
        packets: Seq<PacketView>,
        must: bool,
    ) -> SessionView {
        self.ask(ActionView::ToClient { id, packets, must })
    }

    pub open spec fn set_client(self, id: ClientId, to: ClientView) -> SessionView {
        SessionView { clients: self.clients.insert(id, to), ..self }
    }

    /// The numbers of the clients, ascending.
    pub open spec fn order(self) -> Seq<ClientId> {
        table::in_order::<ClientId, ClientView>(self.clients)
    }

    pub open spec fn in_game(self) -> bool {
        self.upstream_state == UpstreamState::Game
    }

    /// A client is live.
    pub open spec fn live(self, id: ClientId) -> bool {
        self.clients.contains_key(id) && self.clients[id].state == ClientState::Live
    }

    /// A line in a client's chat.
    pub open spec fn feedback(self, id: ClientId, msg: Seq<char>) -> SessionView {
        if self.clients.contains_key(id) {
            self.send(id, seq![PacketView::SystemChat { text: "[proxy] "@ + msg }], false)
        } else {
            self
        }
    }

    /// What shows the reflected entity to a client.
    pub open spec fn bundle(self) -> Seq<PacketView> {
        reflect::bundle(self.bot_uuid, self.bot_name, self.pose)
    }

    /// A controller becomes a viewer: the spectator kit, the state of the bot's
    /// screen, the reflected entity.
    pub open spec fn demote(self, id: ClientId, now: u64) -> SessionView {
        if self.clients.contains_key(id) {
            let c = self.clients[id];
            self.send(
                id,
                reflect::spectator_packets(c.uuid, c.username)
                    + self.cache.world.hud.hud_packets(now) + self.bundle(),
                false,
            ).set_client(id, ClientView { camera_target: None, ..c })
        } else {
            self
        }
    }

    /// A client becomes the controller: the real game mode and abilities, no
    /// ghost entity, and a teleport onto the bot.
    pub open spec fn promote(self, id: ClientId) -> SessionView {
        if self.clients.contains_key(id) {
            let c = self.clients[id];
            let teleport = reflect::handoff_teleport(self.pose);
            let sent = self.send(
                id,
                reflect::controller_packets(c.uuid, c.username, self.real_game_mode)
                    + packet::raw(self.abilities) + packet::raw(teleport),
                false,
            ).set_client(
                id,
                ClientView { swallow_next_accept: teleport is Some, camera_target: None, ..c },
            );
            SessionView { controller: Some(id), ..sent }.ask(
                ActionView::Emit(
                    EventView::ControlChanged { controller: Some((id, c.username)) },
                ),
            )
        } else {
            self
        }
    }

    /// The first live client from position `n` on, other than `except`.
    pub open spec fn oldest_live_from(self, n: int, except: ClientId) -> Option<ClientId>
        decreases self.order().len() - n,
    {
        if n < 0 || n >= self.order().len() {
            None
        } else {
            let id = self.order()[n];
            if id != except && self.clients[id].state == ClientState::Live {
                Some(id)
            } else {
                self.oldest_live_from(n + 1, except)
            }
        }
    }

    /// The live client with the lowest number, other than `except`.
    pub open spec fn oldest_live(self, except: ClientId) -> Option<ClientId> {
        self.oldest_live_from(0, except)
    }

    /// The controller `id` is no longer in control: the oldest live client
    /// inherits where the session is set so and there is one; else the proxy
    /// stands in.
    pub open spec fn pass_on_control(self, id: ClientId, msg: Seq<char>) -> SessionView {
        match (self.opts.always_first_control, self.oldest_live(id)) {
            (true, Some(next)) => self.promote(next).feedback(next, msg),
            _ => self.ask(ActionView::Emit(EventView::ControlChanged { controller: None })),
        }
    }

    /// A client is gone.
    pub open spec fn drop_client(self, id: ClientId) -> SessionView {
        let left = if self.clients.contains_key(id) {
            SessionView { clients: self.clients.remove(id), ..self }.ask(
                ActionView::Emit(
                    EventView::ClientLeft { id, username: self.clients[id].username },
                ),
            ).ask(ActionView::Close { id })
        } else {
            self
        };
        if self.controller == Some(id) {
            SessionView { controller: None, ..left }.pass_on_control(
                id,
                "previous controller left — you have control now"@,
            )
        } else {
            left
        }
    }

    /// A waiting client is sent the configuration.
    pub open spec fn start_replay(self, id: ClientId) -> SessionView {
        if self.clients.contains_key(id) {
            self.send(id, self.cache.config_packets(), true).set_client(
                id,
                ClientView { state: ClientState::Joining, ..self.clients[id] },
            )
        } else {
            self
        }
    }

    /// The waiting ones among the first `n` of `order` are sent the
    /// configuration.
    pub open spec fn flush_first(self, order: Seq<ClientId>, n: int) -> SessionView
        decreases n,
    {
        if n <= 0 {
            self
        } else {
            let before = self.flush_first(order, n - 1);
            if self.clients[order[n - 1]].state == ClientState::Parked {
                before.start_replay(order[n - 1])
            } else {
                before
            }
        }
    }

    /// Every waiting client is sent the configuration.
    pub open spec fn flush_parked(self) -> SessionView {
        self.flush_first(self.order(), self.order().len() as int)
    }

    /// A client asks to be let in.
    pub open spec fn attach(self, id: ClientId, username: Seq<char>, uuid: u128) -> SessionView {
        if self.opts.max_clients matches Some(max) && self.order().len() >= max {
            self.ask(ActionView::Refuse { id })
        } else {
            let told = self.ask(ActionView::Emit(EventView::ClientJoined { id, username }));
            let joined = told.set_client(
                id,
                ClientView {
                    state: ClientState::Parked,
                    username,
                    uuid,
                    swallow_next_accept: false,
                    camera_target: None,
                },
            );
            if self.cache.login is Some {
                joined.start_replay(id)
            } else {
                joined
            }
        }
    }

    /// The guard on the packet ids: the first frame of the game state must be
    /// a Login.
    pub open spec fn guard(self, f: FrameView) -> SessionView {
        if self.seen_first_game_frame {
            self
        } else {
            let seen = SessionView { seen_first_game_frame: true, ..self };
            if f.packet_id != ids::CB_GAME_LOGIN {
                seen.ask(ActionView::StaleIds { packet_id: f.packet_id })
            } else {
                seen
            }
        }
    }

    /// The session player logged in, for the first time or after a
    /// reconfiguration.
    pub open spec fn on_login(self, p: GamePacket) -> SessionView {
        let (mode, player): (u8, Option<i32>) = match p {
            GamePacket::Login { game_mode, player_id } => (game_mode, Some(player_id)),
            _ => (0, None),
        };
        SessionView {
            real_game_mode: mode,
            real_player_id: player,
            cache: match player {
                Some(id) => CacheView {
                    world: self.cache.world.set_player_entity_id(id),
                    ..self.cache
                },
                None => self.cache,
            },
            respawn_entity_pending: true,
            forward_next_position: true,
            ..self
        }.flush_parked()
    }

    /// What a frame from the server changes in the session, before anybody is
    /// sent anything of it.
    pub open spec fn observe_game(self, f: FrameView, p: GamePacket, now: u64) -> SessionView {
        let guarded = self.guard(f);
        let s = SessionView {
            cache: CacheView {
                world: guarded.cache.world.observe(f, p, now),
                ..guarded.cache
            }.keep(f),
            ..guarded
        };
        if f.packet_id == ids::CB_GAME_LOGIN {
            s.on_login(p)
        } else if f.packet_id == ids::CB_GAME_PLAYER_POSITION {
            SessionView { pose: reflect::server_teleport(s.pose, f), ..s }
        } else if f.packet_id == ids::CB_GAME_RESPAWN {
            SessionView {
                cache: s.cache.on_respawn(
                    f,
                    match p {
                        GamePacket::Respawn { data_to_keep } => data_to_keep,
                        _ => 0,
                    },
                ),
                pose: BotPose { pos: None, ..s.pose },
                respawn_entity_pending: true,
                forward_next_position: true,
                ..s
            }
        } else if f.packet_id == ids::CB_GAME_PLAYER_ABILITIES {
            SessionView { abilities: Some(f), ..s }
        } else if f.packet_id == ids::CB_GAME_GAME_EVENT {
            match event_mode(f) {
                Some(mode) => SessionView { real_game_mode: mode, ..s },
                None => s,
            }
        } else if f.packet_id == ids::CB_GAME_START_CONFIGURATION {
            SessionView {
                upstream_state: UpstreamState::Config,
                cache: CacheView::empty(s.bot_uuid),
                ..s
            }
        } else {
            s
        }
    }

    /// Follows the protocol state and keeps the join cache.
    pub open spec fn observe_clientbound(
        self,
        f: FrameView,
        p: GamePacket,
        now: u64,
    ) -> SessionView {
        match self.upstream_state {
            UpstreamState::Config => if f.packet_id == ids::CB_CONFIG_FINISH {
                SessionView {
                    upstream_state: UpstreamState::Game,
                    seen_first_game_frame: false,
                    ..self
                }
            } else if f.packet_id == ids::CB_CONFIG_KEEP_ALIVE || f.packet_id
                == ids::CB_CONFIG_PING {
                self
            } else {
                SessionView {
                    cache: CacheView {
                        config_frames: self.cache.config_frames.push(f),
                        ..self.cache
                    },
                    ..self
                }
            },
            UpstreamState::Game => self.observe_game(f, p, now),
        }
    }

    /// The answer that the proxy itself gives the server: to every keep-alive,
    /// and to teleports while nobody is in control.
    pub open spec fn stand_in_reply(self, f: FrameView) -> Option<FrameView> {
        match self.upstream_state {
            UpstreamState::Game => if f.packet_id == ids::CB_GAME_KEEP_ALIVE {
                match reflect::keepalive(f) {
                    Some(id) => Some(
                        FrameView { packet_id: ids::SB_GAME_KEEP_ALIVE, body: wire::be8(id) },
                    ),
                    None => None,
                }
            } else if f.packet_id == ids::CB_GAME_PLAYER_POSITION && self.controller is None {
                match reflect::teleport(f) {
                    Some(id) => Some(
                        FrameView {
                            packet_id: ids::SB_GAME_ACCEPT_TELEPORTATION,
                            body: wire::varint(id),
                        },
                    ),
                    None => None,
                }
            } else {
                None
            },
            UpstreamState::Config => if f.packet_id == ids::CB_CONFIG_KEEP_ALIVE {
                match reflect::keepalive(f) {
                    Some(id) => Some(
                        FrameView { packet_id: ids::SB_CONFIG_KEEP_ALIVE, body: wire::be8(id) },
                    ),
                    None => None,
                }
            } else {
                None
            },
        }
    }

    pub open spec fn stand_in(self, f: FrameView) -> SessionView {
        match self.stand_in_reply(f) {
            Some(reply) => self.ask(ActionView::ToServer { frame: reply, must: false }),
            None => self,
        }
    }

    /// Viewers get a frame. They have a camera and a game mode of their own:
    /// the session player's teleports, abilities and game mode are kept from
    /// them, but for the one position that lands them in a new world.
    pub open spec fn viewers_receive(self, f: FrameView) -> bool {
        if !self.in_game() {
            true
        } else if f.packet_id == ids::CB_GAME_PLAYER_POSITION {
            self.forward_next_position
        } else if f.packet_id == ids::CB_GAME_PLAYER_ABILITIES {
            false
        } else if f.packet_id == ids::CB_GAME_GAME_EVENT {
            !(f.body.len() > 0 && f.body[0] == 3)
        } else {
            true
        }
    }

    /// A client gets a frame from the server.
    pub open spec fn receives(self, id: ClientId, f: FrameView) -> bool {
        self.live(id) && (self.controller == Some(id) || self.viewers_receive(f))
    }

    /// A client is a live viewer.
    pub open spec fn views_live(self, id: ClientId) -> bool {
        self.live(id) && self.controller != Some(id)
    }

    /// A frame for those of the first `n` clients that get it.
    pub open spec fn broadcast_first(self, f: FrameView, n: int) -> Seq<ActionView>
        decreases n,
    {
        if n <= 0 {
            Seq::empty()
        } else {
            let id = self.order()[n - 1];
            let before = self.broadcast_first(f, n - 1);
            if self.receives(id, f) {
                before.push(
                    ActionView::ToClient { id, packets: seq![PacketView::Raw(f)], must: true },
                )
            } else {
                before
            }
        }
    }

    /// A frame for every client that gets it.
    pub open spec fn broadcast(self, f: FrameView) -> SessionView {
        SessionView {
            outbox: self.outbox + self.broadcast_first(f, self.order().len() as int),
            forward_next_position: self.forward_next_position && !(self.in_game() && f.packet_id
                == ids::CB_GAME_PLAYER_POSITION),
            ..self
        }
    }

    /// A frame from the server.
    pub open spec fn on_upstream_frame(
        self,
        f: FrameView,
        p: GamePacket,
        now: u64,
    ) -> SessionView {
        let s = self.observe_clientbound(f, p, now).stand_in(f).broadcast(f);
        SessionView {
            reassert_pending: s.in_game() && (f.packet_id == ids::CB_GAME_LOGIN || f.packet_id
                == ids::CB_GAME_RESPAWN),
            ..s
        }
    }

    /// The live viewers among the first `n` of `order` are made viewers again.
    pub open spec fn reassert_first(self, order: Seq<ClientId>, n: int, now: u64) -> SessionView
        decreases n,
    {
        if n <= 0 {
            self
        } else {
            let before = self.reassert_first(order, n - 1, now);
            let id = order[n - 1];
            let c = self.clients[id];
            if self.views_live(id) {
                before.send(
                    id,
                    reflect::spectator_packets(c.uuid, c.username)
                        + self.cache.world.hud.hud_packets(now),
                    false,
                ).set_client(id, ClientView { camera_target: None, ..c })
            } else {
                before
            }
        }
    }

    /// Once everybody has a Login or Respawn, which reset game mode, flight
    /// and camera, live viewers are made viewers again.
    pub open spec fn settle(self, now: u64) -> SessionView {
        if self.reassert_pending {
            SessionView { reassert_pending: false, ..self }.reassert_first(
                self.order(),
                self.order().len() as int,
                now,
            )
        } else {
            self
        }
    }

    /// The heartbeat. A client that stands still reports its position about
    /// once a second; a server takes silence for a broken connection. The
    /// proxy reports unless the controller has moved since the last time.
    pub open spec fn stand_in_tick(self) -> SessionView {
        if !self.in_game() {
            self
        } else if self.controller is Some && self.controller_moved_recently {
            SessionView { controller_moved_recently: false, ..self }
        } else {
            match reflect::idle_move(self.pose) {
                Some(f) => self.ask(ActionView::ToServer { frame: f, must: false }),
                None => self,
            }
        }
    }

    /// Packets for those of the first `n` clients that are live viewers.
    pub open spec fn mirror_first(self, packets: Seq<PacketView>, n: int) -> Seq<ActionView>
        decreases n,
    {
        if n <= 0 {
            Seq::empty()
        } else {
            let id = self.order()[n - 1];
            let before = self.mirror_first(packets, n - 1);
            if self.views_live(id) {
                before.push(ActionView::ToClient { id, packets, must: true })
            } else {
                before
            }
        }
    }

    /// Packets for every live viewer.
    pub open spec fn send_to_viewers(self, packets: Seq<PacketView>) -> SessionView {
        if packets.len() == 0 {
            self
        } else {
            SessionView {
                outbox: self.outbox + self.mirror_first(packets, self.order().len() as int),
                ..self
            }
        }
    }

    /// Frames for the server.
    pub open spec fn to_server(self, frames: Seq<FrameView>) -> SessionView {
        SessionView {
            outbox: self.outbox + Seq::new(
                frames.len(),
                |i: int| ActionView::ToServer { frame: frames[i], must: true },
            ),
            ..self
        }
    }

    /// The controller's frame has become `routed`: these frames go to the
    /// server first, then viewers see the bot move.
    pub open spec fn forward(self, routed: Seq<FrameView>, moved: bool) -> SessionView {
        let s = self.to_server(routed);
        if moved {
            if s.respawn_entity_pending && s.pose.pos is Some {
                SessionView { respawn_entity_pending: false, ..s }.send_to_viewers(s.bundle())
            } else {
                s.send_to_viewers(reflect::move_packets(s.pose))
            }
        } else {
            s
        }
    }

    /// A text that a client said is a command.
    pub open spec fn is_command(self, frame: FrameView, chat: Option<Seq<char>>) -> bool {
        self.in_game() && frame.packet_id == ids::SB_GAME_CHAT && chat is Some && chat->0.len() > 0
            && chat->0[0] == ','
    }

    /// A frame of the controller that the proxy has already answered: a
    /// keep-alive reply.
    pub open spec fn answered(self, frame: FrameView) -> bool {
        match self.upstream_state {
            UpstreamState::Game => frame.packet_id == ids::SB_GAME_KEEP_ALIVE,
            UpstreamState::Config => frame.packet_id == ids::SB_CONFIG_KEEP_ALIVE,
        }
    }

    /// The accept of the proxy's own handover teleport. A real teleport may
    /// come in between, so only the accept with the right id counts.
    pub open spec fn accepts_handoff(self, id: ClientId, frame: FrameView) -> bool {
        self.in_game() && frame.packet_id == ids::SB_GAME_ACCEPT_TELEPORTATION
            && self.clients.contains_key(id) && self.clients[id].swallow_next_accept
            && reflect::teleport(frame) == Some(reflect::HANDOFF_TELEPORT_ID)
    }

    /// The session once the pose has followed the controller's frame.
    pub open spec fn follow(self, frame: FrameView) -> SessionView {
        match reflect::controller_move(self.pose, frame) {
            Some(pose) => SessionView { pose, controller_moved_recently: true, ..self },
            None => self,
        }
    }

    /// A viewer has confirmed the configuration: it is sent the world, becomes
    /// a spectator, sees the reflected entity, and is live.
    pub open spec fn join(self, id: ClientId, now: u64) -> SessionView {
        let c = self.clients[id];
        self.send(
            id,
            self.cache.join_packets(now) + reflect::spectator_packets(c.uuid, c.username)
                + self.bundle(),
            true,
        ).set_client(id, ClientView { state: ClientState::Live, ..c })
    }

    /// A frame of a client, given what the pipeline makes of it where it is
    /// one to forward.
    pub open spec fn on_client_frame(
        self,
        id: ClientId,
        frame: FrameView,
        chat: Option<Seq<char>>,
        routed: Seq<FrameView>,
        now: u64,
    ) -> SessionView {
        if self.is_command(frame, chat) {
            self.handle_command(id, text::trimmed(chat->0), now)
        } else if self.controller == Some(id) {
            if self.answered(frame) {
                self
            } else if self.accepts_handoff(id, frame) {
                self.set_client(
                    id,
                    ClientView { swallow_next_accept: false, ..self.clients[id] },
                )
            } else {
                self.follow(frame).forward(
                    routed,
                    reflect::controller_move(self.pose, frame) is Some,
                )
            }
        } else if self.clients.contains_key(id) && self.clients[id].state == ClientState::Joining
            && frame.packet_id == ids::SB_CONFIG_FINISH {
            self.join(id, now)
        } else {
            self
        }
    }

    /// A frame of a client that goes through the pipeline.
    pub open spec fn forwards(
        self,
        id: ClientId,
        frame: FrameView,
        chat: Option<Seq<char>>,
    ) -> bool {
        !self.is_command(frame, chat) && self.controller == Some(id) && !self.answered(frame)
            && !self.accepts_handoff(id, frame)
    }

    /// Takes control, from whoever had it.
    pub open spec fn cmd_acquire(self, id: ClientId, now: u64) -> SessionView {
        if self.controller == Some(id) {
            self.feedback(id, "you already have control"@)
        } else {
            let taken = match self.controller {
                Some(other) => SessionView { controller: None, ..self }.demote(
                    other,
                    now,
                ).feedback(other, "your control was taken by another client"@),
                None => self,
            };
            taken.promote(id).feedback(id, "you have control now"@)
        }
    }

    /// Gives up control.
    pub open spec fn cmd_release(self, id: ClientId, now: u64) -> SessionView {
        if self.controller == Some(id) {
            SessionView { controller: None, ..self }.demote(id, now).feedback(
                id,
                "control released; proxy is keeping the session alive"@,
            ).pass_on_control(id, "you have control now"@)
        } else {
            self.feedback(id, "you are not the controller"@)
        }
    }

    /// The entity that a viewer asks to look through: the reflected bot, or a
    /// player in sight.
    pub open spec fn spectate_target(self, arg: Seq<char>) -> Option<i32> {
        if arg.len() == 0 || text::same_text(arg, self.bot_name) {
            Some(reflect::REFLECTED_ENTITY_ID)
        } else {
            match self.cache.world.player_target(arg) {
                Some((_, id)) => Some(id),
                None => None,
            }
        }
    }

    /// The frame that puts a client's camera on an entity.
    pub open spec fn camera_on(id: i32) -> PacketView {
        PacketView::Raw(
            FrameView {
                packet_id: ids::CB_GAME_SET_CAMERA,
                body: wire::varint(wire::unsigned(id)),
            },
        )
    }

    /// What locks a client's camera to an entity: the bot's game mode, in which
    /// its screen shows, the state of that screen, and the camera.
    pub open spec fn lock_packets(self, c: ClientView, target: i32, now: u64) -> Seq<PacketView> {
        (reflect::viewer_packets(c.uuid, c.username, self.real_game_mode)
            + self.cache.world.hud.hud_packets(now)).push(Self::camera_on(target))
    }

    /// What releases a client's camera: the camera on its own player, whose id
    /// is the session player's, and the spectator kit.
    pub open spec fn release_packets(self, c: ClientView, target: i32) -> Seq<PacketView> {
        seq![
            Self::camera_on(
                match self.real_player_id {
                    Some(own) => own,
                    None => target,
                },
            ),
        ] + reflect::spectator_packets(c.uuid, c.username)
    }

    /// Locks a viewer's camera to an entity and shows it the bot's screen, or
    /// makes it a free-flying spectator again where it is locked to that entity
    /// already.
    pub open spec fn cmd_spectate(self, id: ClientId, arg: Seq<char>, now: u64) -> SessionView {
        if self.controller == Some(id) {
            self.feedback(id, ",release first — the controller cannot spectate"@)
        } else if !self.clients.contains_key(id) {
            self
        } else {
            match self.spectate_target(arg) {
                None => self.feedback(id, "player not found (not in render distance?)"@),
                Some(target) => {
                    let c = self.clients[id];
                    if c.camera_target != Some(target) {
                        self.send(id, self.lock_packets(c, target, now), false).set_client(
                            id,
                            ClientView { camera_target: Some(target), ..c },
                        ).feedback(id, "camera locked — ,spectate again to release"@)
                    } else {
                        self.send(id, self.release_packets(c, target), false).set_client(
                            id,
                            ClientView { camera_target: None, ..c },
                        ).feedback(id, "camera released"@)
                    }
                },
            }
        }
    }

    /// Gives a viewer's client another game mode; the server hears nothing of
    /// it.
    pub open spec fn cmd_gamemode(self, id: ClientId, arg: Seq<char>) -> SessionView {
        if self.controller == Some(id) {
            self.feedback(id, "not while controlling — it would desync your client"@)
        } else {
            match named_mode(arg) {
                None => self.feedback(
                    id,
                    "usage: ,gamemode <survival|creative|adventure|spectator|0-3>"@,
                ),
                Some(mode) => {
                    let sent = if self.clients.contains_key(id) {
                        let c = self.clients[id];
                        self.send(
                            id,
                            reflect::gamemode_packets(c.uuid, c.username, mode),
                            false,
                        )
                    } else {
                        self
                    };
                    sent.feedback(id, "client-side game mode updated"@)
                },
            }
        }
    }

    /// A command that a client typed.
    pub open spec fn handle_command(self, id: ClientId, cmd: Seq<char>, now: u64) -> SessionView {
        let (verb, arg) = command_parts(cmd);
        if verb == ",acquire"@ {
            self.cmd_acquire(id, now)
        } else if verb == ",release"@ {
            self.cmd_release(id, now)
        } else if verb == ",spectate"@ {
            self.cmd_spectate(id, arg, now)
        } else if verb == ",gamemode"@ || verb == ",gm"@ {
            self.cmd_gamemode(id, arg)
        } else {
            self.feedback(
                id,
                "commands: ,acquire ,release ,spectate [player] ,gamemode <0-3|name>"@,
            )
        }
    }
}

impl Client {
    fn fresh(state: ClientState, username: String, uuid: u128) -> (r: Client)
        ensures
            r@ == (ClientView {
                state,
                username: username@,
                uuid,
                swallow_next_accept: false,
                camera_target: None,
            }),
    {
        Client { state, username, uuid, swallow_next_accept: false, camera_target: None }
    }
}

fn parse_mode(arg: &str) -> (r: Option<u8>)
    ensures
        r == named_mode(arg@),
{
    if text::same(arg, "0") || text::same(arg, "survival") {
        Some(0)
    } else if text::same(arg, "1") || text::same(arg, "creative") {
        Some(1)
    } else if text::same(arg, "2") || text::same(arg, "adventure") {
        Some(2)
    } else if text::same(arg, "3") || text::same(arg, "spectator") {
        Some(3)
    } else {
        None
    }
}

impl Session {
    /// Starts a session for a client that has logged in locally, over an
    /// upstream connection of the account `bot_uuid`, `bot_name`.
    pub fn start(
        id: ClientId,
        username: &str,
        uuid: u128,
        bot_uuid: u128,
        bot_name: &str,
        opts: SessionOpts,
    ) -> (r: Session)
        ensures
            r@ == SessionView::started(id, username@, uuid, bot_uuid, bot_name@, opts),
    {
        let mut clients: Table<ClientId, Client> = Table::new();
        clients.insert(id, Client::fresh(ClientState::Live, username.to_owned(), uuid));
        let mut outbox: Vec<Action> = Vec::new();
        outbox.push(Action::Emit(ProxyEvent::SessionStarted));
        outbox.push(Action::Emit(ProxyEvent::ClientJoined { id, username: username.to_owned() }));
        outbox.push(
            Action::Emit(
                ProxyEvent::ControlChanged { controller: Some((id, username.to_owned())) },
            ),
        );
        let r: Session = Session {
            clients,
            controller: Some(id),
            cache: JoinCache::new(bot_uuid),
            upstream_state: UpstreamState::Config,
            seen_first_game_frame: false,
            bot_uuid,
            bot_name: bot_name.to_owned(),
            pose: BotPose::default(),
            real_game_mode: 0,
            abilities: None,
            respawn_entity_pending: false,
            controller_moved_recently: false,
            forward_next_position: false,
            reassert_pending: false,
            real_player_id: None,
            opts,
            outbox,
        };
        proof {
            assert(r@ =~= SessionView::started(id, username@, uuid, bot_uuid, bot_name@, opts));
        }
        r
    }

    /// Hands out what is to be done, in order.
    pub fn take_actions(&mut self) -> (r: Vec<Action>)
        ensures
            views::views(r@) == old(self)@.outbox,
            final(self)@ == (SessionView { outbox: Seq::empty(), ..old(self)@ }),
    {
        let mut r: Vec<Action> = Vec::new();
        std::mem::swap(&mut r, &mut self.outbox);
        r
    }

    /// Whether the last client has left, which ends the session.
    pub fn is_over(&self) -> (r: bool)
        ensures
            r == (self@.clients == Map::<ClientId, ClientView>::empty()),
    {
        self.clients.len() == 0
    }

    /// How many clients are attached.
    pub fn client_count(&self) -> (r: usize)
        ensures
            r == self@.order().len(),
    {
        self.clients.len()
    }

    /// The client in control.
    pub fn controller(&self) -> (r: Option<ClientId>)
        ensures
            r == self@.controller,
    {
        self.controller
    }

    /// Whether the upstream connection is in the game state.
    pub fn in_game(&self) -> (r: bool)
        ensures
            r == self@.in_game(),
    {
        self.upstream_state == UpstreamState::Game
    }

    /// The world snapshot.
    pub fn world(&self) -> (r: &WorldSnapshot)
        ensures
            r@ == self@.cache.world,
    {
        self.cache.world()
    }

    fn controls(&self, id: ClientId) -> (r: bool)
        ensures
            r == (self@.controller == Some(id)),
    {
        match self.controller {
            Some(controller) => controller == id,
            None => false,
        }
    }

    fn ask(&mut self, action: Action)
        ensures
            final(self)@ == old(self)@.ask(action@),
    {
        self.outbox.push(action);
    }

    fn send(&mut self, id: ClientId, packets: Vec<Packet>, must: bool)
        ensures
            final(self)@ == old(self)@.send(id, views::views(packets@), must),
    {
        self.ask(Action::ToClient { id, packets, must });
    }

    fn feedback(&mut self, id: ClientId, msg: &str)
        ensures
            final(self)@ == old(self)@.feedback(id, msg@),
    {
        if self.clients.contains(&id) {
            let mut packets: Vec<Packet> = Vec::new();
            packets.push(reflect::system_chat_frame(msg));
            proof {
                assert(views::views(packets@) =~= seq![
                    PacketView::SystemChat { text: "[proxy] "@ + msg@ },
                ]);
            }
            self.send(id, packets, false);
        }
    }

    fn bundle(&self) -> (r: Vec<Packet>)
        ensures
            views::views(r@) == self@.bundle(),
    {
        reflect::reflected_bundle(self.bot_uuid, self.bot_name.as_str(), &self.pose)
    }

    fn demote_to_spectator(&mut self, id: ClientId, now: u64)
        ensures
            final(self)@ == old(self)@.demote(id, now),
    {
        let ghost before = self@;
        if let Some(c) = self.clients.remove(&id) {
            let mut packets: Vec<Packet> = reflect::spectator_kit(c.uuid, c.username.as_str());
            packet::queue_all(&mut packets, self.cache.world().self_hud_frames(now));
            packet::queue_all(&mut packets, self.bundle());
            self.send(id, packets, false);
            self.clients.insert(id, Client { camera_target: None, ..c });
        }
        proof {
            assert(self@ =~= before.demote(id, now));
        }
    }

    fn promote_to_controller(&mut self, id: ClientId)
        ensures
            final(self)@ == old(self)@.promote(id),
    {
        let ghost before = self@;
        if let Some(c) = self.clients.remove(&id) {
            let mut packets: Vec<Packet> = reflect::controller_kit(
                c.uuid,
                c.username.as_str(),
                self.real_game_mode,
            );
            packet::queue_frame(&mut packets, &self.abilities);
            let teleport: Option<Frame> = reflect::handoff_teleport_frame(&self.pose);
            packet::queue_frame(&mut packets, &teleport);
            self.send(id, packets, false);
            self.controller = Some(id);
            let username: String = c.username.clone();
            self.clients.insert(
                id,
                Client { swallow_next_accept: teleport.is_some(), camera_target: None, ..c },
            );
            self.ask(
                Action::Emit(ProxyEvent::ControlChanged { controller: Some((id, username)) }),
            );
        }
        proof {
            assert(self@ =~= before.promote(id));
        }
    }

    fn oldest_live(&self, except: ClientId) -> (r: Option<ClientId>)
        ensures
            r == self@.oldest_live(except),
    {
        let n: usize = self.clients.len();
        let mut i: usize = 0;
        while i < n
            invariant
                i <= n,
                n == self@.order().len(),
                self@.oldest_live(except) == self@.oldest_live_from(i as int, except),
            decreases n - i,
        {
            let id: ClientId = *self.clients.key_at(i);
            if id != except && self.clients.value_at(i).state == ClientState::Live {
                return Some(id);
            }
            i = i + 1;
        }
        None
    }

    fn pass_on_control(&mut self, id: ClientId, msg: &str)
        ensures
            final(self)@ == old(self)@.pass_on_control(id, msg@),
    {
        if self.opts.always_first_control {
            if let Some(next) = self.oldest_live(id) {
                self.promote_to_controller(next);
                self.feedback(next, msg);
                return;
            }
        }
        self.ask(Action::Emit(ProxyEvent::ControlChanged { controller: None }));
    }

    /// A client is gone: it disconnected, or fell behind.
    pub fn drop_client(&mut self, id: ClientId)
        ensures
            final(self)@ == old(self)@.drop_client(id),
    {
        let controlled: bool = self.controls(id);
        let ghost before = self@;
        proof {
            if !before.clients.contains_key(id) {
                assert(before.clients.remove(id) =~= before.clients);
            }
        }
        if let Some(c) = self.clients.remove(&id) {
            self.ask(Action::Emit(ProxyEvent::ClientLeft { id, username: c.username }));
            self.ask(Action::Close { id });
        }
        if controlled {
            self.controller = None;
            self.pass_on_control(id, "previous controller left — you have control now");
        }
    }

    /// A client could not take packets that it must have. Frames are never
    /// lost one by one, only whole clients.
    pub fn delivery_failed(&mut self, id: ClientId)
        ensures
            final(self)@ == old(self)@.drop_client(id),
    {
        self.drop_client(id);
    }

    fn start_replay(&mut self, id: ClientId)
        ensures
            final(self)@ == old(self)@.start_replay(id),
    {
        let ghost before = self@;
        if let Some(c) = self.clients.remove(&id) {
            let packets: Vec<Packet> = self.cache.config_replay();
            self.send(id, packets, true);
            self.clients.insert(id, Client { state: ClientState::Joining, ..c });
        }
        proof {
            assert(self@ =~= before.start_replay(id));
        }
    }

    fn flush_parked(&mut self)
        ensures
            final(self)@ == old(self)@.flush_parked(),
    {
        let ghost start = self@;
        let ghost order = start.order();
        let n: usize = self.clients.len();
        let mut waiting: Vec<(ClientId, bool)> = Vec::new();
        let mut i: usize = 0;
        while i < n
            invariant
                i <= n,
                self@ == start,
                order == start.order(),
                n == order.len(),
                waiting.len() == i,
                forall|j: int|
                    0 <= j < i ==> (#[trigger] waiting@[j]).0 == order[j] && waiting@[j].1 == (
                    start.clients[order[j]].state == ClientState::Parked),
            decreases n - i,
        {
            let parked: bool = self.clients.value_at(i).state == ClientState::Parked;
            waiting.push((*self.clients.key_at(i), parked));
            i = i + 1;
        }
        let mut k: usize = 0;
        while k < n
            invariant
                k <= n,
                n == order.len(),
                waiting.len() == n,
                forall|j: int|
                    0 <= j < n ==> (#[trigger] waiting@[j]).0 == order[j] && waiting@[j].1 == (
                    start.clients[order[j]].state == ClientState::Parked),
                self@ == start.flush_first(order, k as int),
            decreases n - k,
        {
            let (id, parked) = waiting[k];
            if parked {
                self.start_replay(id);
            }
            k = k + 1;
        }
    }

    /// A client asks to be let in as a viewer.
    pub fn on_attach(&mut self, id: ClientId, username: &str, uuid: u128)
        ensures
            final(self)@ == old(self)@.attach(id, username@, uuid),
    {
        if let Some(max) = self.opts.max_clients {
            if self.clients.len() >= max {
                self.ask(Action::Refuse { id });
                return;
            }
        }
        self.ask(Action::Emit(ProxyEvent::ClientJoined { id, username: username.to_owned() }));
        self.clients.insert(id, Client::fresh(ClientState::Parked, username.to_owned(), uuid));
        if self.cache.has_login() {
            self.start_replay(id);
        }
    }

    fn on_login(&mut self, p: &GamePacket)
        ensures
            final(self)@ == old(self)@.on_login(*p),
    {
        match p {
            GamePacket::Login { game_mode, player_id } => {
                self.real_game_mode = *game_mode;
                self.real_player_id = Some(*player_id);
                self.cache.set_player_entity_id(*player_id);
            },
            _ => {
                self.real_game_mode = 0;
                self.real_player_id = None;
            },
        }
        self.respawn_entity_pending = true;
        self.forward_next_position = true;
        self.flush_parked();
    }

    fn observe_game(&mut self, f: &Frame, p: &GamePacket, now: u64)
        ensures
            final(self)@ == old(self)@.observe_game(f@, *p, now),
    {
        if !self.seen_first_game_frame {
            self.seen_first_game_frame = true;
            if f.packet_id != ids::CB_GAME_LOGIN {
                self.ask(Action::StaleIds { packet_id: f.packet_id });
            }
        }
        self.cache.observe(f, p, now);
        self.cache.keep(f);
        let id: u32 = f.packet_id;
        if id == ids::CB_GAME_LOGIN {
            self.on_login(p);
        } else if id == ids::CB_GAME_PLAYER_POSITION {
            reflect::apply_server_teleport(&mut self.pose, f);
        } else if id == ids::CB_GAME_RESPAWN {
            let data_to_keep: u8 = match p {
                GamePacket::Respawn { data_to_keep } => *data_to_keep,
                _ => 0,
            };
            self.cache.on_respawn(f, data_to_keep);
            self.pose.pos = None;
            self.respawn_entity_pending = true;
            self.forward_next_position = true;
        } else if id == ids::CB_GAME_PLAYER_ABILITIES {
            self.abilities = Some(f.clone());
        } else if id == ids::CB_GAME_GAME_EVENT {
            if f.body.len() >= 5 && f.body[0] == 3 {
                self.real_game_mode = wire::float_byte(wire::read_be_u32(f.body.as_slice(), 1));
            }
        } else if id == ids::CB_GAME_START_CONFIGURATION {
            self.upstream_state = UpstreamState::Config;
            self.cache = JoinCache::new(self.bot_uuid);
        }
    }

    fn observe_clientbound(&mut self, f: &Frame, p: &GamePacket, now: u64)
        ensures
            final(self)@ == old(self)@.observe_clientbound(f@, *p, now),
    {
        match self.upstream_state {
            UpstreamState::Config => {
                if f.packet_id == ids::CB_CONFIG_FINISH {
                    self.upstream_state = UpstreamState::Game;
                    self.seen_first_game_frame = false;
                } else if f.packet_id == ids::CB_CONFIG_KEEP_ALIVE || f.packet_id
                    == ids::CB_CONFIG_PING {
                } else {
                    self.cache.keep_config(f);
                }
            },
            UpstreamState::Game => self.observe_game(f, p, now),
        }
    }

    fn stand_in_reply(&self, f: &Frame) -> (r: Option<Frame>)
        ensures
            views::seen(r) == self@.stand_in_reply(f@),
    {
        match self.upstream_state {
            UpstreamState::Game => {
                if f.packet_id == ids::CB_GAME_KEEP_ALIVE {
                    match reflect::keepalive_id(f) {
                        Some(id) => Some(reflect::keepalive_reply(id)),
                        None => None,
                    }
                } else if f.packet_id == ids::CB_GAME_PLAYER_POSITION
                    && self.controller.is_none() {
                    match reflect::teleport_id(f) {
                        Some(id) => Some(reflect::accept_teleport_frame(id)),
                        None => None,
                    }
                } else {
                    None
                }
            },
            UpstreamState::Config => {
                if f.packet_id == ids::CB_CONFIG_KEEP_ALIVE {
                    match reflect::keepalive_id(f) {
                        Some(id) => Some(reflect::config_keepalive_reply(id)),
                        None => None,
                    }
                } else {
                    None
                }
            },
        }
    }

    fn stand_in(&mut self, f: &Frame)
        ensures
            final(self)@ == old(self)@.stand_in(f@),
    {
        if let Some(frame) = self.stand_in_reply(f) {
            self.ask(Action::ToServer { frame, must: false });
        }
    }

    fn viewers_receive(&self, f: &Frame) -> (r: bool)
        ensures
            r == self@.viewers_receive(f@),
    {
        if !self.in_game() {
            true
        } else if f.packet_id == ids::CB_GAME_PLAYER_POSITION {
            self.forward_next_position
        } else if f.packet_id == ids::CB_GAME_PLAYER_ABILITIES {
            false
        } else if f.packet_id == ids::CB_GAME_GAME_EVENT {
            !(f.body.len() > 0 && f.body[0] == 3)
        } else {
            true
        }
    }

    fn broadcast(&mut self, f: &Frame)
        ensures
            final(self)@ == old(self)@.broadcast(f@),
    {
        let ghost start = self@;
        let viewers_receive: bool = self.viewers_receive(f);
        let n: usize = self.clients.len();
        let mut i: usize = 0;
        proof {
            assert(self@ =~= SessionView {
                outbox: start.outbox + start.broadcast_first(f@, 0),
                ..start
            });
        }
        while i < n
            invariant
                i <= n,
                n == start.order().len(),
                viewers_receive == start.viewers_receive(f@),
                self@ == (SessionView {
                    outbox: start.outbox + start.broadcast_first(f@, i as int),
                    ..start
                }),
            decreases n - i,
        {
            let id: ClientId = *self.clients.key_at(i);
            let live: bool = self.clients.value_at(i).state == ClientState::Live;
            if live && (self.controls(id) || viewers_receive) {
                let mut packets: Vec<Packet> = Vec::new();
                packets.push(Packet::Raw(f.clone()));
                proof {
                    assert(views::views(packets@) =~= seq![PacketView::Raw(f@)]);
                }
                self.send(id, packets, true);
            }
            proof {
                assert(self@ =~= SessionView {
                    outbox: start.outbox + start.broadcast_first(f@, i + 1),
                    ..start
                });
            }
            i = i + 1;
        }
        if self.in_game() && f.packet_id == ids::CB_GAME_PLAYER_POSITION {
            self.forward_next_position = false;
        }
    }

    /// Takes in a frame from the server, as the pipeline passed it on, read as
    /// `p`. Once the actions are carried out, [`Session::settle`] is due.
    pub fn on_upstream_frame(&mut self, f: &Frame, p: &GamePacket, now: u64)
        ensures
            final(self)@ == old(self)@.on_upstream_frame(f@, *p, now),
    {
        self.observe_clientbound(f, p, now);
        self.stand_in(f);
        self.broadcast(f);
        self.reassert_pending = self.in_game() && (f.packet_id == ids::CB_GAME_LOGIN || f.packet_id
            == ids::CB_GAME_RESPAWN);
    }

    fn reassert_spectators(&mut self, now: u64)
        ensures
            final(self)@ == old(self)@.reassert_first(
                old(self)@.order(),
                old(self)@.order().len() as int,
                now,
            ),
    {
        let ghost start = self@;
        let ghost order = start.order();
        let n: usize = self.clients.len();
        let mut all: Vec<(ClientId, bool)> = Vec::new();
        let mut i: usize = 0;
        while i < n
            invariant
                i <= n,
                self@ == start,
                order == start.order(),
                n == order.len(),
                all.len() == i,
                forall|j: int|
                    0 <= j < i ==> (#[trigger] all@[j]).0 == order[j] && all@[j].1
                        == start.views_live(order[j]),
            decreases n - i,
        {
            let id: ClientId = *self.clients.key_at(i);
            let live: bool = self.clients.value_at(i).state == ClientState::Live;
            all.push((id, live && !self.controls(id)));
            i = i + 1;
        }
        proof {
            walk_is_exact(order, start.clients);
        }
        let mut k: usize = 0;
        while k < n
            invariant
                k <= n,
                n == order.len(),
                all.len() == n,
                order == start.order(),
                table::lists_keys::<ClientId, ClientView>(order, start.clients),
                forall|j: int|
                    0 <= j < n ==> (#[trigger] all@[j]).0 == order[j] && all@[j].1
                        == start.views_live(order[j]),
                self@ == start.reassert_first(order, k as int, now),
                self@.real_game_mode == start.real_game_mode,
                self@.cache == start.cache,
                forall|j: int|
                    k <= j < n ==> self@.clients.contains_key(#[trigger] order[j])
                        && self@.clients[order[j]] == start.clients[order[j]],
            decreases n - k,
        {
            let (id, viewer) = all[k];
            let ghost before = self@;
            if viewer {
                if let Some(c) = self.clients.remove(&id) {
                    let mut packets: Vec<Packet> = reflect::spectator_kit(
                        c.uuid,
                        c.username.as_str(),
                    );
                    packet::queue_all(&mut packets, self.cache.world().self_hud_frames(now));
                    self.send(id, packets, false);
                    self.clients.insert(id, Client { camera_target: None, ..c });
                }
            }
            proof {
                assert(id == order[k as int]);
                assert(self@ =~= start.reassert_first(order, k + 1, now));
                assert forall|j: int| k + 1 <= j < n implies self@.clients.contains_key(
                    #[trigger] order[j],
                ) && self@.clients[order[j]] == start.clients[order[j]] by {
                    assert(<ClientId as table::Key>::below(order[k as int], order[j]));
                }
            }
            k = k + 1;
        }
    }

    /// To be called once the actions of [`Session::on_upstream_frame`] are
    /// carried out.
    pub fn settle(&mut self, now: u64)
        ensures
            final(self)@ == old(self)@.settle(now),
    {
        if self.reassert_pending {
            self.reassert_pending = false;
            self.reassert_spectators(now);
        }
    }

    /// To be called once a second: reports the player's position where nobody
    /// else does.
    pub fn stand_in_tick(&mut self)
        ensures
            final(self)@ == old(self)@.stand_in_tick(),
    {
        if !self.in_game() {
            return;
        }
        if self.controller.is_some() && self.controller_moved_recently {
            self.controller_moved_recently = false;
            return;
        }
        if let Some(frame) = reflect::idle_move_frame(&self.pose) {
            self.ask(Action::ToServer { frame, must: false });
        }
    }

    fn send_to_viewers(&mut self, packets: &Vec<Packet>)
        ensures
            final(self)@ == old(self)@.send_to_viewers(views::views(packets@)),
    {
        if packets.len() == 0 {
            return;
        }
        let ghost start = self@;
        let ghost sent = views::views(packets@);
        let n: usize = self.clients.len();
        let mut i: usize = 0;
        proof {
            assert(self@ =~= SessionView {
                outbox: start.outbox + start.mirror_first(sent, 0),
                ..start
            });
        }
        while i < n
            invariant
                i <= n,
                n == start.order().len(),
                sent == views::views(packets@),
                self@ == (SessionView {
                    outbox: start.outbox + start.mirror_first(sent, i as int),
                    ..start
                }),
            decreases n - i,
        {
            let id: ClientId = *self.clients.key_at(i);
            let live: bool = self.clients.value_at(i).state == ClientState::Live;
            if live && !self.controls(id) {
                let copy: Vec<Packet> = packets.clone();
                proof {
                    assert(views::views(copy@) =~= sent);
                }
                self.send(id, copy, true);
            }
            proof {
                assert(self@ =~= SessionView {
                    outbox: start.outbox + start.mirror_first(sent, i + 1),
                    ..start
                });
            }
            i = i + 1;
        }
    }

    /// Forwards what the pipeline made of a controller's frame, and lets
    /// viewers see the movement in it. The server comes first: it is the one
    /// that cannot wait.
    pub fn forward(&mut self, routed: Vec<Frame>, moved: bool)
        ensures
            final(self)@ == old(self)@.forward(views::views(routed@), moved),
    {
        let ghost start = self@;
        let ghost frames = views::views(routed@);
        let ghost all = Seq::new(
            frames.len(),
            |i: int| ActionView::ToServer { frame: frames[i], must: true },
        );
        let mut i: usize = 0;
        proof {
            assert(self@ =~= SessionView { outbox: start.outbox + all.take(0), ..start });
        }
        while i < routed.len()
            invariant
                i <= routed.len(),
                frames == views::views(routed@),
                all == Seq::new(
                    frames.len(),
                    |i: int| ActionView::ToServer { frame: frames[i], must: true },
                ),
                self@ == (SessionView { outbox: start.outbox + all.take(i as int), ..start }),
            decreases routed.len() - i,
        {
            self.ask(Action::ToServer { frame: routed[i].clone(), must: true });
            proof {
                assert((start.outbox + all.take(i as int)).push(all[i as int]) =~= start.outbox
                    + all.take(i + 1));
            }
            i = i + 1;
        }
        proof {
            assert(all.take(i as int) =~= all);
            assert(self@ =~= start.to_server(frames));
        }
        if moved {
            if self.respawn_entity_pending && self.pose.pos.is_some() {
                self.respawn_entity_pending = false;
                let update: Vec<Packet> = self.bundle();
                self.send_to_viewers(&update);
            } else {
                let update: Vec<Packet> = reflect::move_frames(&self.pose);
                self.send_to_viewers(&update);
            }
        }
    }

    fn join(&mut self, id: ClientId, now: u64)
        requires
            old(self)@.clients.contains_key(id),
        ensures
            final(self)@ == old(self)@.join(id, now),
    {
        let ghost before = self@;
        if let Some(c) = self.clients.remove(&id) {
            let mut packets: Vec<Packet> = self.cache.join_frames(now);
            packet::queue_all(
                &mut packets,
                reflect::spectator_kit(c.uuid, c.username.as_str()),
            );
            packet::queue_all(&mut packets, self.bundle());
            self.send(id, packets, true);
            self.clients.insert(id, Client { state: ClientState::Live, ..c });
        }
        proof {
            assert(self@ =~= before.join(id, now));
        }
    }

    fn is_command(&self, frame: &Frame, chat: &Option<String>) -> (r: bool)
        ensures
            r == self@.is_command(frame@, views::seen(*chat)),
    {
        match chat {
            Some(said) => self.in_game() && frame.packet_id == ids::SB_GAME_CHAT
                && text::starts_with(said.as_str(), ','),
            None => false,
        }
    }

    fn answered(&self, frame: &Frame) -> (r: bool)
        ensures
            r == self@.answered(frame@),
    {
        match self.upstream_state {
            UpstreamState::Game => frame.packet_id == ids::SB_GAME_KEEP_ALIVE,
            UpstreamState::Config => frame.packet_id == ids::SB_CONFIG_KEEP_ALIVE,
        }
    }

    fn accepts_handoff(&self, id: ClientId, frame: &Frame) -> (r: bool)
        ensures
            r == self@.accepts_handoff(id, frame@),
    {
        if !self.in_game() || frame.packet_id != ids::SB_GAME_ACCEPT_TELEPORTATION {
            return false;
        }
        match self.clients.get(&id) {
            Some(c) => {
                if c.swallow_next_accept {
                    match reflect::teleport_id(frame) {
                        Some(teleport) => teleport == reflect::HANDOFF_TELEPORT_ID,
                        None => false,
                    }
                } else {
                    false
                }
            },
            None => false,
        }
    }

    /// Takes in a frame from a client, up to the point at which it may be
    /// forwarded: then the answer is whether it was a movement, and what the
    /// pipeline makes of the frame is due at [`Session::forward`].
    pub fn receive(
        &mut self,
        id: ClientId,
        frame: &Frame,
        chat: &Option<String>,
        now: u64,
    ) -> (r: Option<bool>)
        ensures
            r is Some == old(self)@.forwards(id, frame@, views::seen(*chat)),
            match r {
                Some(moved) => final(self)@ == old(self)@.follow(frame@) && moved == (
                reflect::controller_move(old(self)@.pose, frame@) is Some),
                None => final(self)@ == old(self)@.on_client_frame(
                    id,
                    frame@,
                    views::seen(*chat),
                    Seq::empty(),
                    now,
                ),
            },
    {
        let ghost start = self@;
        if self.is_command(frame, chat) {
            if let Some(said) = chat {
                self.handle_command(id, text::trim(said.as_str()), now);
            }
            return None;
        }
        if self.controls(id) {
            if self.answered(frame) {
                return None;
            }
            if self.accepts_handoff(id, frame) {
                if let Some(c) = self.clients.remove(&id) {
                    self.clients.insert(id, Client { swallow_next_accept: false, ..c });
                }
                proof {
                    assert(self@ =~= start.set_client(
                        id,
                        ClientView { swallow_next_accept: false, ..start.clients[id] },
                    ));
                }
                return None;
            }
            let moved: bool = reflect::apply_controller_move(&mut self.pose, frame);
            if moved {
                self.controller_moved_recently = true;
            }
            return Some(moved);
        }
        let joining: bool = match self.clients.get(&id) {
            Some(c) => c.state == ClientState::Joining,
            None => false,
        };
        if joining && frame.packet_id == ids::SB_CONFIG_FINISH {
            self.join(id, now);
        }
        None
    }

    /// Takes in a frame from a client. `chat` is what the client says in it,
    /// where it is a chat packet. The controller's frames go through the
    /// pipeline to the server; viewers' frames are swallowed, but for the
    /// confirmation that lets them join. Commands work from anyone and never
    /// reach the server.
    pub fn on_client_frame(
        &mut self,
        pipeline: &Pipeline,
        id: ClientId,
        frame: Frame,
        chat: &Option<String>,
        now: u64,
    )
        ensures
            old(self)@.forwards(id, frame@, views::seen(*chat)) ==> exists|routed: Seq<FrameView>|
                plugin::passes_serverbound(pipeline.plugins@, frame, routed) && final(self)@
                    == #[trigger] old(self)@.on_client_frame(
                    id,
                    frame@,
                    views::seen(*chat),
                    routed,
                    now,
                ),
            !old(self)@.forwards(id, frame@, views::seen(*chat)) ==> final(self)@ == old(
                self,
            )@.on_client_frame(id, frame@, views::seen(*chat), Seq::empty(), now),
    {
        let ghost start = self@;
        let ghost given = frame;
        if let Some(moved) = self.receive(id, &frame, chat, now) {
            let frames: Vec<Frame> = pipeline.serverbound(frame);
            let ghost routed = views::views(frames@);
            self.forward(frames, moved);
            proof {
                assert(plugin::passes_serverbound(pipeline.plugins@, given, routed));
                assert(self@ == start.on_client_frame(
                    id,
                    given@,
                    views::seen(*chat),
                    routed,
                    now,
                ));
            }
        }
    }

    fn cmd_acquire(&mut self, id: ClientId, now: u64)
        ensures
            final(self)@ == old(self)@.cmd_acquire(id, now),
    {
        if self.controls(id) {
            self.feedback(id, "you already have control");
            return;
        }
        if let Some(other) = self.controller {
            self.controller = None;
            self.demote_to_spectator(other, now);
            self.feedback(other, "your control was taken by another client");
        }
        self.promote_to_controller(id);
        self.feedback(id, "you have control now");
    }

    fn cmd_release(&mut self, id: ClientId, now: u64)
        ensures
            final(self)@ == old(self)@.cmd_release(id, now),
    {
        if self.controls(id) {
            self.controller = None;
            self.demote_to_spectator(id, now);
            self.feedback(id, "control released; proxy is keeping the session alive");
            self.pass_on_control(id, "you have control now");
        } else {
            self.feedback(id, "you are not the controller");
        }
    }

    fn spectate_target(&self, arg: &str) -> (r: Option<i32>)
        ensures
            r == self@.spectate_target(arg@),
    {
        if arg.unicode_len() == 0 || text::same(arg, self.bot_name.as_str()) {
            Some(reflect::REFLECTED_ENTITY_ID)
        } else {
            self.cache.world().entity_id_for_player(arg)
        }
    }

    fn cmd_spectate(&mut self, id: ClientId, arg: &str, now: u64)
        ensures
            final(self)@ == old(self)@.cmd_spectate(id, arg@, now),
    {
        let ghost before = self@;
        if self.controls(id) {
            self.feedback(id, ",release first — the controller cannot spectate");
            return;
        }
        if !self.clients.contains(&id) {
            return;
        }
        match self.spectate_target(arg) {
            None => self.feedback(id, "player not found (not in render distance?)"),
            Some(target) => {
                if let Some(c) = self.clients.remove(&id) {
                    let locked: bool = match c.camera_target {
                        Some(current) => current != target,
                        None => true,
                    };
                    if locked {
                        let mut packets: Vec<Packet> = reflect::viewer_kit(
                            c.uuid,
                            c.username.as_str(),
                            self.real_game_mode,
                        );
                        packet::queue_all(&mut packets, self.cache.world().self_hud_frames(now));
                        packets.push(Packet::Raw(reflect::camera_frame(target)));
                        self.send(id, packets, false);
                        self.clients.insert(id, Client { camera_target: Some(target), ..c });
                        proof {
                            assert(self@.clients =~= before.clients.insert(
                                id,
                                ClientView { camera_target: Some(target), ..before.clients[id] },
                            ));
                        }
                        self.feedback(id, "camera locked — ,spectate again to release");
                    } else {
                        let own: i32 = match self.real_player_id {
                            Some(own) => own,
                            None => target,
                        };
                        let mut packets: Vec<Packet> = Vec::new();
                        packets.push(Packet::Raw(reflect::camera_frame(own)));
                        proof {
                            assert(views::views(packets@) =~= seq![SessionView::camera_on(own)]);
                        }
                        packet::queue_all(
                            &mut packets,
                            reflect::spectator_kit(c.uuid, c.username.as_str()),
                        );
                        self.send(id, packets, false);
                        self.clients.insert(id, Client { camera_target: None, ..c });
                        proof {
                            assert(self@.clients =~= before.clients.insert(
                                id,
                                ClientView { camera_target: None, ..before.clients[id] },
                            ));
                        }
                        self.feedback(id, "camera released");
                    }
                }
            },
        }
    }

    fn cmd_gamemode(&mut self, id: ClientId, arg: &str)
        ensures
            final(self)@ == old(self)@.cmd_gamemode(id, arg@),
    {
        if self.controls(id) {
            self.feedback(id, "not while controlling — it would desync your client");
            return;
        }
        match parse_mode(arg) {
            None => self.feedback(
                id,
                "usage: ,gamemode <survival|creative|adventure|spectator|0-3>",
            ),
            Some(mode) => {
                let kit: Option<Vec<Packet>> = match self.clients.get(&id) {
                    Some(c) => Some(reflect::gamemode_kit(c.uuid, c.username.as_str(), mode)),
                    None => None,
                };
                if let Some(packets) = kit {
                    self.send(id, packets, false);
                }
                self.feedback(id, "client-side game mode updated");
            },
        }
    }

    fn handle_command(&mut self, id: ClientId, cmd: &str, now: u64)
        ensures
            final(self)@ == old(self)@.handle_command(id, cmd@, now),
    {
        let (verb, arg) = match text::split_once(cmd, ' ') {
            Some((verb, rest)) => (verb, text::trim(rest)),
            None => (cmd, ""),
        };
        proof {
            reveal_strlit("");
            assert(""@ =~= Seq::<char>::empty());
        }
        if text::equal(verb, ",acquire") {
            self.cmd_acquire(id, now);
        } else if text::equal(verb, ",release") {
            self.cmd_release(id, now);
        } else if text::equal(verb, ",spectate") {
            self.cmd_spectate(id, arg, now);
        } else if text::equal(verb, ",gamemode") || text::equal(verb, ",gm") {
            self.cmd_gamemode(id, arg);
        } else {
            self.feedback(
                id,
                "commands: ,acquire ,release ,spectate [player] ,gamemode <0-3|name>",
            );
        }
    }
}

proof fn walk_is_exact(order: Seq<ClientId>, clients: Map<ClientId, ClientView>)
    requires
        table::lists_keys::<ClientId, ClientView>(order, clients),
    ensures
        forall|j: int| 0 <= j < order.len() ==> clients.contains_key(#[trigger] order[j]),
{
    assert forall|j: int| 0 <= j < order.len() implies clients.contains_key(#[trigger] order[j]) by {
        assert(order.contains(order[j]));
    }
}

} // verus!
