//! What holds of a session as a whole.
//!
//! A session only ever says what is to be done, so what reaches the server and
//! what reaches a client can be read off its list of actions:
//! [`server_bound`] and [`client_bound`].

use vstd::prelude::*;

use crate::cache::CacheView;
use crate::entities::EntitiesView;
use crate::events::{ActionView, ClientId, EventView};
use crate::ids;
use crate::packet;
use crate::packet::{GamePacket, PacketView};
use crate::plugin::FrameView;
use crate::reflect;
use crate::session;
use crate::session::{ClientState, ClientView, SessionView};
use crate::snapshot::WorldView;
use crate::table;
use crate::text;
use crate::wire;

verus! {

/// The frames that a list of actions sends to the server, in order.
pub open spec fn server_bound(actions: Seq<ActionView>) -> Seq<FrameView>
    decreases actions.len(),
{
    if actions.len() == 0 {
        Seq::empty()
    } else {
        let before = server_bound(actions.drop_last());
        match actions.last() {
            ActionView::ToServer { frame, .. } => before.push(frame),
            _ => before,
        }
    }
}

/// The packets that a list of actions sends to a client, in order.
pub open spec fn client_bound(actions: Seq<ActionView>, id: ClientId) -> Seq<PacketView>
    decreases actions.len(),
{
    if actions.len() == 0 {
        Seq::empty()
    } else {
        let before = client_bound(actions.drop_last(), id);
        match actions.last() {
            ActionView::ToClient { id: to, packets, .. } => if to == id {
                before + packets
            } else {
                before
            },
            _ => before,
        }
    }
}

/// What one more action sends to the server.
pub proof fn server_bound_push(actions: Seq<ActionView>, a: ActionView)
    ensures
        server_bound(actions.push(a)) == (match a {
            ActionView::ToServer { frame, .. } => server_bound(actions).push(frame),
            _ => server_bound(actions),
        }),
{
    assert(actions.push(a).drop_last() =~= actions);
}

/// What one more action sends to a client.
pub proof fn client_bound_push(actions: Seq<ActionView>, a: ActionView, id: ClientId)
    ensures
        client_bound(actions.push(a), id) == (match a {
            ActionView::ToClient { id: to, packets, .. } => if to == id {
                client_bound(actions, id) + packets
            } else {
                client_bound(actions, id)
            },
            _ => client_bound(actions, id),
        }),
{
    assert(actions.push(a).drop_last() =~= actions);
}

proof fn server_bound_add(a: Seq<ActionView>, b: Seq<ActionView>)
    ensures
        server_bound(a + b) == server_bound(a) + server_bound(b),
    decreases b.len(),
{
    if b.len() == 0 {
        assert(a + b =~= a);
        assert(server_bound(a) + Seq::<FrameView>::empty() =~= server_bound(a));
    } else {
        server_bound_add(a, b.drop_last());
        assert((a + b).drop_last() =~= a + b.drop_last());
        assert((a + b).last() == b.last());
        match b.last() {
            ActionView::ToServer { frame, .. } => {
                assert((server_bound(a) + server_bound(b.drop_last())).push(frame) =~= server_bound(
                    a,
                ) + server_bound(b.drop_last()).push(frame));
            },
            _ => {},
        }
    }
}

proof fn client_bound_add(a: Seq<ActionView>, b: Seq<ActionView>, id: ClientId)
    ensures
        client_bound(a + b, id) == client_bound(a, id) + client_bound(b, id),
    decreases b.len(),
{
    if b.len() == 0 {
        assert(a + b =~= a);
        assert(client_bound(a, id) + Seq::<PacketView>::empty() =~= client_bound(a, id));
    } else {
        client_bound_add(a, b.drop_last(), id);
        assert((a + b).drop_last() =~= a + b.drop_last());
        assert((a + b).last() == b.last());
        match b.last() {
            ActionView::ToClient { id: to, packets, .. } => {
                assert((client_bound(a, id) + client_bound(b.drop_last(), id)) + packets
                    =~= client_bound(a, id) + (client_bound(b.drop_last(), id) + packets));
            },
            _ => {},
        }
    }
}

/// The session says nothing to the server between `s` and `t`.
spec fn silent(s: SessionView, t: SessionView) -> bool {
    server_bound(t.outbox) == server_bound(s.outbox)
}

proof fn ask_silent(s: SessionView, a: ActionView)
    requires
        !(a is ToServer),
    ensures
        silent(s, s.ask(a)),
{
    server_bound_push(s.outbox, a);
}

proof fn feedback_silent(s: SessionView, id: ClientId, msg: Seq<char>)
    ensures
        silent(s, s.feedback(id, msg)),
{
    if s.clients.contains_key(id) {
        ask_silent(
            s,
            ActionView::ToClient {
                id,
                packets: seq![PacketView::SystemChat { text: "[proxy] "@ + msg }],
                must: false,
            },
        );
    }
}

proof fn demote_silent(s: SessionView, id: ClientId, now: u64)
    ensures
        silent(s, s.demote(id, now)),
{
    if s.clients.contains_key(id) {
        let c = s.clients[id];
        ask_silent(
            s,
            ActionView::ToClient {
                id,
                packets: reflect::spectator_packets(c.uuid, c.username)
                    + s.cache.world.hud.hud_packets(now) + s.bundle(),
                must: false,
            },
        );
    }
}

proof fn promote_silent(s: SessionView, id: ClientId)
    ensures
        silent(s, s.promote(id)),
{
    if s.clients.contains_key(id) {
        let c = s.clients[id];
        let a = ActionView::ToClient {
            id,
            packets: reflect::controller_packets(c.uuid, c.username, s.real_game_mode)
                + packet::raw(s.abilities) + packet::raw(reflect::handoff_teleport(s.pose)),
            must: false,
        };
        ask_silent(s, a);
        server_bound_push(
            s.outbox.push(a),
            ActionView::Emit(EventView::ControlChanged { controller: Some((id, c.username)) }),
        );
    }
}

proof fn pass_on_silent(s: SessionView, id: ClientId, msg: Seq<char>)
    ensures
        silent(s, s.pass_on_control(id, msg)),
{
    if s.opts.always_first_control && s.oldest_live(id) is Some {
        let next = s.oldest_live(id)->0;
        promote_silent(s, next);
        feedback_silent(s.promote(next), next, msg);
    } else {
        ask_silent(s, ActionView::Emit(EventView::ControlChanged { controller: None }));
    }
}

proof fn command_silent(s: SessionView, id: ClientId, cmd: Seq<char>, now: u64)
    ensures
        silent(s, s.handle_command(id, cmd, now)),
{
    let (verb, arg) = session::command_parts(cmd);
    let free = SessionView { controller: None, ..s };
    if verb == ",acquire"@ {
        if s.controller == Some(id) {
            feedback_silent(s, id, "you already have control"@);
        } else {
            let taken = match s.controller {
                Some(other) => free.demote(other, now).feedback(
                    other,
                    "your control was taken by another client"@,
                ),
                None => s,
            };
            if s.controller is Some {
                let other = s.controller->0;
                demote_silent(free, other, now);
                feedback_silent(
                    free.demote(other, now),
                    other,
                    "your control was taken by another client"@,
                );
            }
            promote_silent(taken, id);
            feedback_silent(taken.promote(id), id, "you have control now"@);
        }
    } else if verb == ",release"@ {
        if s.controller == Some(id) {
            demote_silent(free, id, now);
            let said = "control released; proxy is keeping the session alive"@;
            feedback_silent(free.demote(id, now), id, said);
            pass_on_silent(
                free.demote(id, now).feedback(id, said),
                id,
                "you have control now"@,
            );
        } else {
            feedback_silent(s, id, "you are not the controller"@);
        }
    } else if verb == ",spectate"@ {
        spectate_silent(s, id, arg, now);
    } else if verb == ",gamemode"@ || verb == ",gm"@ {
        gamemode_silent(s, id, arg);
    } else {
        feedback_silent(
            s,
            id,
            "commands: ,acquire ,release ,spectate [player] ,gamemode <0-3|name>"@,
        );
    }
}

proof fn spectate_silent(s: SessionView, id: ClientId, arg: Seq<char>, now: u64)
    ensures
        silent(s, s.cmd_spectate(id, arg, now)),
{
    if s.controller == Some(id) {
        feedback_silent(s, id, ",release first — the controller cannot spectate"@);
    } else if s.clients.contains_key(id) {
        match s.spectate_target(arg) {
            None => {
                feedback_silent(s, id, "player not found (not in render distance?)"@);
            },
            Some(target) => {
                let c = s.clients[id];
                if c.camera_target != Some(target) {
                    let packets = s.lock_packets(c, target, now);
                    ask_silent(s, ActionView::ToClient { id, packets, must: false });
                    feedback_silent(
                        s.send(id, packets, false).set_client(
                            id,
                            ClientView { camera_target: Some(target), ..c },
                        ),
                        id,
                        "camera locked — ,spectate again to release"@,
                    );
                } else {
                    let packets = s.release_packets(c, target);
                    ask_silent(s, ActionView::ToClient { id, packets, must: false });
                    feedback_silent(
                        s.send(id, packets, false).set_client(
                            id,
                            ClientView { camera_target: None, ..c },
                        ),
                        id,
                        "camera released"@,
                    );
                }
            },
        }
    }
}

proof fn gamemode_silent(s: SessionView, id: ClientId, arg: Seq<char>)
    ensures
        silent(s, s.cmd_gamemode(id, arg)),
{
    if s.controller == Some(id) {
        feedback_silent(s, id, "not while controlling — it would desync your client"@);
    } else {
        match session::named_mode(arg) {
            None => {
                feedback_silent(
                    s,
                    id,
                    "usage: ,gamemode <survival|creative|adventure|spectator|0-3>"@,
                );
            },
            Some(mode) => {
                if s.clients.contains_key(id) {
                    let c = s.clients[id];
                    let packets = reflect::gamemode_packets(c.uuid, c.username, mode);
                    ask_silent(s, ActionView::ToClient { id, packets, must: false });
                    feedback_silent(
                        s.send(id, packets, false),
                        id,
                        "client-side game mode updated"@,
                    );
                } else {
                    feedback_silent(s, id, "client-side game mode updated"@);
                }
            },
        }
    }
}

proof fn mirror_silent(s: SessionView, packets: Seq<PacketView>, n: int)
    ensures
        server_bound(s.mirror_first(packets, n)) == Seq::<FrameView>::empty(),
    decreases n,
{
    if n > 0 {
        mirror_silent(s, packets, n - 1);
        let id = s.order()[n - 1];
        server_bound_push(
            s.mirror_first(packets, n - 1),
            ActionView::ToClient { id, packets, must: true },
        );
    }
}

proof fn viewers_silent(s: SessionView, packets: Seq<PacketView>)
    ensures
        silent(s, s.send_to_viewers(packets)),
{
    if packets.len() > 0 {
        let n = s.order().len() as int;
        mirror_silent(s, packets, n);
        server_bound_add(s.outbox, s.mirror_first(packets, n));
        assert(server_bound(s.outbox) + Seq::<FrameView>::empty() =~= server_bound(s.outbox));
    }
}

proof fn to_server_adds(s: SessionView, frames: Seq<FrameView>)
    ensures
        server_bound(s.to_server(frames).outbox) == server_bound(s.outbox) + frames,
    decreases frames.len(),
{
    let all = Seq::new(
        frames.len(),
        |i: int| ActionView::ToServer { frame: frames[i], must: true },
    );
    if frames.len() == 0 {
        assert(s.outbox + all =~= s.outbox);
        assert(server_bound(s.outbox) + frames =~= server_bound(s.outbox));
    } else {
        let most = frames.drop_last();
        to_server_adds(s, most);
        let some = Seq::new(
            most.len(),
            |i: int| ActionView::ToServer { frame: most[i], must: true },
        );
        let last = ActionView::ToServer { frame: frames.last(), must: true };
        assert(s.outbox + all =~= (s.outbox + some).push(last));
        server_bound_push(s.outbox + some, last);
        assert((server_bound(s.outbox) + most).push(frames.last()) =~= server_bound(s.outbox)
            + frames);
    }
}

/// The server only ever hears the controller: whatever another client sends,
/// and whatever a plugin would make of it, nothing goes to the server.
pub proof fn viewers_are_not_heard(
    s: SessionView,
    id: ClientId,
    frame: FrameView,
    chat: Option<Seq<char>>,
    routed: Seq<FrameView>,
    now: u64,
)
    requires
        s.controller != Some(id),
    ensures
        server_bound(s.on_client_frame(id, frame, chat, routed, now).outbox) == server_bound(
            s.outbox,
        ),
{
    if s.is_command(frame, chat) {
        command_silent(s, id, text::trimmed(chat->0), now);
    } else if s.clients.contains_key(id) && s.clients[id].state == ClientState::Joining
        && frame.packet_id == ids::SB_CONFIG_FINISH {
        let c = s.clients[id];
        ask_silent(
            s,
            ActionView::ToClient {
                id,
                packets: s.cache.join_packets(now) + reflect::spectator_packets(
                    c.uuid,
                    c.username,
                ) + s.bundle(),
                must: true,
            },
        );
    }
}

/// Commands work from anyone and never reach the server.
pub proof fn commands_stay_in_the_proxy(
    s: SessionView,
    id: ClientId,
    frame: FrameView,
    chat: Option<Seq<char>>,
    routed: Seq<FrameView>,
    now: u64,
)
    requires
        s.is_command(frame, chat),
    ensures
        server_bound(s.on_client_frame(id, frame, chat, routed, now).outbox) == server_bound(
            s.outbox,
        ),
{
    command_silent(s, id, text::trimmed(chat->0), now);
}

/// Of the controller the server hears exactly what the pipeline makes of its
/// frames, in order. Commands, keep-alive replies (the proxy has answered) and
/// the accept of the proxy's own teleport are left out.
pub proof fn the_controller_is_heard(
    s: SessionView,
    id: ClientId,
    frame: FrameView,
    chat: Option<Seq<char>>,
    routed: Seq<FrameView>,
    now: u64,
)
    requires
        s.controller == Some(id),
    ensures
        server_bound(s.on_client_frame(id, frame, chat, routed, now).outbox) == (if s.forwards(
            id,
            frame,
            chat,
        ) {
            server_bound(s.outbox) + routed
        } else {
            server_bound(s.outbox)
        }),
{
    if s.is_command(frame, chat) {
        command_silent(s, id, text::trimmed(chat->0), now);
    } else if s.forwards(id, frame, chat) {
        let t = s.follow(frame);
        to_server_adds(t, routed);
        let u = t.to_server(routed);
        if reflect::controller_move(s.pose, frame) is Some {
            if u.respawn_entity_pending && u.pose.pos is Some {
                viewers_silent(
                    SessionView { respawn_entity_pending: false, ..u },
                    u.bundle(),
                );
            } else {
                viewers_silent(u, reflect::move_packets(u.pose));
            }
        }
    }
}

/// Maps with the same keys are walked alike.
proof fn same_keys_same_order(a: Map<ClientId, ClientView>, b: Map<ClientId, ClientView>)
    requires
        a.dom().finite(),
        a.dom() == b.dom(),
    ensures
        table::in_order::<ClientId, ClientView>(a) == table::in_order::<ClientId, ClientView>(b),
        table::lists_keys::<ClientId, ClientView>(
            table::in_order::<ClientId, ClientView>(a),
            a,
        ),
{
    table::in_order_lists::<ClientId, ClientView>(a);
    let order = table::in_order::<ClientId, ClientView>(a);
    assert forall|k: ClientId| #[trigger] b.contains_key(k) <==> order.contains(k) by {
        assert(a.dom().contains(k) == b.dom().contains(k));
        assert(a.contains_key(k) <==> order.contains(k));
    }
    assert(table::lists_keys::<ClientId, ClientView>(order, b));
    table::in_order_is::<ClientId, ClientView>(order, b);
}

/// Between `s` and `t` nothing is said to the server, and the clients that
/// `s` does not keep waiting are left alone.
spec fn undisturbed(s: SessionView, t: SessionView) -> bool {
    &&& silent(s, t)
    &&& t.controller == s.controller
    &&& t.upstream_state == s.upstream_state
    &&& t.forward_next_position == s.forward_next_position
    &&& t.clients.dom() == s.clients.dom()
    &&& forall|v: ClientId| #[trigger]
        s.clients.contains_key(v) && s.clients[v].state != ClientState::Parked ==> t.clients[v]
            == s.clients[v] && client_bound(t.outbox, v) == client_bound(s.outbox, v)
}

proof fn flush_undisturbed(s: SessionView, n: int)
    requires
        s.clients.dom().finite(),
        0 <= n <= s.order().len(),
    ensures
        undisturbed(s, s.flush_first(s.order(), n)),
    decreases n,
{
    same_keys_same_order(s.clients, s.clients);
    let order = s.order();
    if n > 0 {
        flush_undisturbed(s, n - 1);
        let before = s.flush_first(order, n - 1);
        let id = order[n - 1];
        assert(order.contains(id));
        assert(s.clients.contains_key(id));
        assert(before.clients.dom().contains(id));
        if s.clients[id].state == ClientState::Parked {
            let a = ActionView::ToClient {
                id,
                packets: before.cache.config_packets(),
                must: true,
            };
            server_bound_push(before.outbox, a);
            let after = before.start_replay(id);
            assert(after.clients.dom() =~= s.clients.dom());
            assert forall|v: ClientId| #[trigger]
                s.clients.contains_key(v) && s.clients[v].state
                    != ClientState::Parked implies after.clients[v] == s.clients[v]
                && client_bound(after.outbox, v) == client_bound(s.outbox, v) by {
                client_bound_push(before.outbox, a, v);
            }
        }
    }
}

/// Up to the broadcast a frame from the server disturbs nobody who is live.
proof fn observe_undisturbed(s: SessionView, f: FrameView, p: GamePacket, now: u64)
    requires
        s.clients.dom().finite(),
    ensures
        ({
            let t = s.observe_clientbound(f, p, now);
            &&& silent(s, t)
            &&& t.controller == s.controller
            &&& t.clients.dom() == s.clients.dom()
            &&& forall|v: ClientId| #[trigger]
                s.clients.contains_key(v) && s.clients[v].state != ClientState::Parked
                    ==> t.clients[v] == s.clients[v] && client_bound(t.outbox, v) == client_bound(
                    s.outbox,
                    v,
                )
            &&& s.in_game() && f.packet_id != ids::CB_GAME_START_CONFIGURATION ==> t.in_game()
            &&& !s.in_game() && f.packet_id != ids::CB_CONFIG_FINISH ==> !t.in_game()
            &&& !(s.in_game() && (f.packet_id == ids::CB_GAME_LOGIN || f.packet_id
                == ids::CB_GAME_RESPAWN)) ==> t.forward_next_position == s.forward_next_position
            &&& s.in_game() && (f.packet_id == ids::CB_GAME_LOGIN || f.packet_id
                == ids::CB_GAME_RESPAWN) ==> t.forward_next_position
        }),
{
    if s.in_game() {
        let guarded = s.guard(f);
        let a = ActionView::StaleIds { packet_id: f.packet_id };
        server_bound_push(s.outbox, a);
        assert forall|v: ClientId| client_bound(guarded.outbox, v) == client_bound(
            s.outbox,
            v,
        ) by {
            client_bound_push(s.outbox, a, v);
        }
        if f.packet_id == ids::CB_GAME_LOGIN {
            let kept = SessionView {
                cache: CacheView {
                    world: guarded.cache.world.observe(f, p, now),
                    ..guarded.cache
                }.keep(f),
                ..guarded
            };
            let (mode, player): (u8, Option<i32>) = match p {
                GamePacket::Login { game_mode, player_id } => (game_mode, Some(player_id)),
                _ => (0, None),
            };
            let entered = SessionView {
                real_game_mode: mode,
                real_player_id: player,
                cache: match player {
                    Some(id) => CacheView {
                        world: kept.cache.world.set_player_entity_id(id),
                        ..kept.cache
                    },
                    None => kept.cache,
                },
                respawn_entity_pending: true,
                forward_next_position: true,
                ..kept
            };
            assert(s.observe_game(f, p, now) == entered.flush_parked());
            flush_undisturbed(entered, entered.order().len() as int);
            assert forall|v: ClientId| #[trigger]
                s.clients.contains_key(v) && s.clients[v].state
                    != ClientState::Parked implies s.observe_game(f, p, now).clients[v]
                == s.clients[v] && client_bound(s.observe_game(f, p, now).outbox, v)
                == client_bound(s.outbox, v) by {
                assert(entered.clients.contains_key(v));
            }
        }
    }
}

proof fn broadcast_silent(s: SessionView, f: FrameView, n: int)
    ensures
        server_bound(s.broadcast_first(f, n)) == Seq::<FrameView>::empty(),
    decreases n,
{
    if n > 0 {
        broadcast_silent(s, f, n - 1);
        server_bound_push(
            s.broadcast_first(f, n - 1),
            ActionView::ToClient {
                id: s.order()[n - 1],
                packets: seq![PacketView::Raw(f)],
                must: true,
            },
        );
    }
}

/// A client that gets a frame gets it once.
proof fn broadcast_reaches(s: SessionView, f: FrameView, v: ClientId, n: int)
    requires
        s.clients.dom().finite(),
        0 <= n <= s.order().len(),
    ensures
        client_bound(s.broadcast_first(f, n), v) == (if s.order().take(n).contains(v) && s.receives(
            v,
            f,
        ) {
            seq![PacketView::Raw(f)]
        } else {
            Seq::<PacketView>::empty()
        }),
    decreases n,
{
    same_keys_same_order(s.clients, s.clients);
    let order = s.order();
    if n == 0 {
        assert(!order.take(0).contains(v));
    } else {
        broadcast_reaches(s, f, v, n - 1);
        let id = order[n - 1];
        let before = s.broadcast_first(f, n - 1);
        let a = ActionView::ToClient { id, packets: seq![PacketView::Raw(f)], must: true };
        client_bound_push(before, a, v);
        assert(order.take(n) =~= order.take(n - 1).push(id));
        if order.take(n - 1).contains(v) {
            let first = order.take(n - 1);
            let i = choose|i: int| 0 <= i < first.len() && first[i] == v;
            assert(order.take(n)[i] == v);
            assert(<ClientId as table::Key>::below(order[i], order[n - 1]));
            assert(order.take(n).contains(v));
        } else if id == v {
            assert(order.take(n)[n - 1] == v);
            assert(order.take(n).contains(v));
            assert(Seq::<PacketView>::empty() + seq![PacketView::Raw(f)] =~= seq![
                PacketView::Raw(f),
            ]);
        } else {
            assert(!order.take(n).contains(v)) by {
                if order.take(n).contains(v) {
                    let first = order.take(n);
                    let i = choose|i: int| 0 <= i < first.len() && first[i] == v;
                    assert(order.take(n - 1)[i] == v);
                }
            }
        }
    }
}

/// What a live client gets of a frame from the server, and what the server is
/// told about it.
proof fn upstream_effect(s: SessionView, f: FrameView, p: GamePacket, now: u64)
    requires
        s.clients.dom().finite(),
    ensures
        ({
            let t = s.observe_clientbound(f, p, now);
            let u = s.on_upstream_frame(f, p, now);
            &&& server_bound(u.outbox) == (match t.stand_in_reply(f) {
                Some(reply) => server_bound(s.outbox).push(reply),
                None => server_bound(s.outbox),
            })
            &&& forall|v: ClientId| #[trigger]
                s.live(v) ==> client_bound(u.outbox, v) == (if t.receives(v, f) {
                    client_bound(s.outbox, v).push(PacketView::Raw(f))
                } else {
                    client_bound(s.outbox, v)
                })
        }),
{
    let t = s.observe_clientbound(f, p, now);
    let w = t.stand_in(f);
    let u = w.broadcast(f);
    observe_undisturbed(s, f, p, now);
    let reply = t.stand_in_reply(f);
    if reply is Some {
        server_bound_push(t.outbox, ActionView::ToServer { frame: reply->0, must: false });
    }
    let n = w.order().len() as int;
    broadcast_silent(w, f, n);
    server_bound_add(w.outbox, w.broadcast_first(f, n));
    assert(server_bound(w.outbox) + Seq::<FrameView>::empty() =~= server_bound(w.outbox));
    assert forall|v: ClientId| #[trigger] s.live(v) implies client_bound(u.outbox, v) == (
    if t.receives(v, f) {
        client_bound(s.outbox, v).push(PacketView::Raw(f))
    } else {
        client_bound(s.outbox, v)
    }) by {
        assert(s.clients.contains_key(v));
        assert(t.clients.dom().contains(v));
        if reply is Some {
            client_bound_push(t.outbox, ActionView::ToServer { frame: reply->0, must: false }, v);
        }
        broadcast_reaches(w, f, v, n);
        client_bound_add(w.outbox, w.broadcast_first(f, n), v);
        same_keys_same_order(w.clients, w.clients);
        assert(w.order().take(n) =~= w.order());
        assert(w.clients.contains_key(v));
        assert(w.order().contains(v));
        assert(t.receives(v, f) == w.receives(v, f));
        let was = client_bound(s.outbox, v);
        assert(was + seq![PacketView::Raw(f)] =~= was.push(PacketView::Raw(f)));
        assert(was + Seq::<PacketView>::empty() =~= was);
    }
}

/// The proxy says something to the server of its own on a keep-alive, and on a
/// teleport while nobody is in control, and on no other frame.
pub proof fn answers_are_few(s: SessionView, f: FrameView, p: GamePacket, now: u64)
    requires
        s.clients.dom().finite(),
        !(s.in_game() && f.packet_id == 44),
        !(s.in_game() && f.packet_id == 72 && s.controller is None),
        !(!s.in_game() && f.packet_id == 4),
    ensures
        server_bound(s.on_upstream_frame(f, p, now).outbox) == server_bound(s.outbox),
{
    upstream_effect(s, f, p, now);
    observe_undisturbed(s, f, p, now);
}

/// Every keep-alive of the server is answered by the proxy itself with the id
/// it carries, in either state and whoever is in control.
pub proof fn keepalives_are_answered(s: SessionView, f: FrameView, p: GamePacket, now: u64)
    requires
        s.clients.dom().finite(),
        f.body.len() >= 8,
        f.packet_id == (if s.in_game() {
            ids::CB_GAME_KEEP_ALIVE
        } else {
            ids::CB_CONFIG_KEEP_ALIVE
        }),
    ensures
        server_bound(s.on_upstream_frame(f, p, now).outbox) == server_bound(s.outbox).push(
            FrameView {
                packet_id: if s.in_game() {
                    ids::SB_GAME_KEEP_ALIVE
                } else {
                    ids::SB_CONFIG_KEEP_ALIVE
                },
                body: wire::be8(wire::be_u64(f.body, 0)),
            },
        ),
{
    upstream_effect(s, f, p, now);
    observe_undisturbed(s, f, p, now);
}

/// The proxy confirms a teleport itself where nobody is in control, and leaves
/// it to the controller where somebody is.
pub proof fn teleports_are_confirmed_once(s: SessionView, f: FrameView, p: GamePacket, now: u64)
    requires
        s.clients.dom().finite(),
        s.in_game(),
        f.packet_id == ids::CB_GAME_PLAYER_POSITION,
        reflect::teleport(f) is Some,
    ensures
        server_bound(s.on_upstream_frame(f, p, now).outbox) == (if s.controller is None {
            server_bound(s.outbox).push(
                FrameView {
                    packet_id: ids::SB_GAME_ACCEPT_TELEPORTATION,
                    body: wire::varint(reflect::teleport(f)->0),
                },
            )
        } else {
            server_bound(s.outbox)
        }),
{
    upstream_effect(s, f, p, now);
    observe_undisturbed(s, f, p, now);
}

/// A client that is to confirm the configuration gets nothing of what the server
/// sends meanwhile: it does not know the world yet.
pub proof fn joining_clients_get_no_live_traffic(
    s: SessionView,
    f: FrameView,
    p: GamePacket,
    now: u64,
    v: ClientId,
)
    requires
        s.clients.dom().finite(),
        s.clients.contains_key(v),
        s.clients[v].state == ClientState::Joining,
    ensures
        client_bound(s.on_upstream_frame(f, p, now).outbox, v) == client_bound(s.outbox, v),
        s.on_upstream_frame(f, p, now).clients[v] == s.clients[v],
{
    let t = s.observe_clientbound(f, p, now);
    let w = t.stand_in(f);
    observe_undisturbed(s, f, p, now);
    let reply = t.stand_in_reply(f);
    if reply is Some {
        client_bound_push(t.outbox, ActionView::ToServer { frame: reply->0, must: false }, v);
    }
    let n = w.order().len() as int;
    assert(w.clients[v] == s.clients[v]);
    broadcast_reaches(w, f, v, n);
    client_bound_add(w.outbox, w.broadcast_first(f, n), v);
    let was = client_bound(s.outbox, v);
    assert(was + Seq::<PacketView>::empty() =~= was);
}

/// The controller gets every frame of the server.
pub proof fn the_controller_gets_everything(
    s: SessionView,
    f: FrameView,
    p: GamePacket,
    now: u64,
    id: ClientId,
)
    requires
        s.clients.dom().finite(),
        s.controller == Some(id),
        s.live(id),
    ensures
        client_bound(s.on_upstream_frame(f, p, now).outbox, id) == client_bound(
            s.outbox,
            id,
        ).push(PacketView::Raw(f)),
{
    upstream_effect(s, f, p, now);
    observe_undisturbed(s, f, p, now);
    assert(s.clients.contains_key(id));
    assert(s.observe_clientbound(f, p, now).clients.dom().contains(id));
}

/// A frame that says nothing but the session player's own position, abilities
/// or game mode.
pub open spec fn is_personal(f: FrameView) -> bool {
    ||| f.packet_id == ids::CB_GAME_PLAYER_POSITION
    ||| f.packet_id == ids::CB_GAME_PLAYER_ABILITIES
    ||| f.packet_id == ids::CB_GAME_GAME_EVENT && f.body.len() > 0 && f.body[0] == 3
}

/// The session player's abilities and game mode never reach a viewer.
pub proof fn viewers_keep_their_own_mode(
    s: SessionView,
    f: FrameView,
    p: GamePacket,
    now: u64,
    id: ClientId,
)
    requires
        s.clients.dom().finite(),
        s.in_game(),
        s.views_live(id),
        is_personal(f),
        f.packet_id != ids::CB_GAME_PLAYER_POSITION,
    ensures
        client_bound(s.on_upstream_frame(f, p, now).outbox, id) == client_bound(s.outbox, id),
{
    upstream_effect(s, f, p, now);
    observe_undisturbed(s, f, p, now);
    assert(s.live(id));
}

/// Everything else that the server sends reaches every live viewer, in any
/// state.
pub proof fn viewers_get_the_rest(
    s: SessionView,
    f: FrameView,
    p: GamePacket,
    now: u64,
    id: ClientId,
)
    requires
        s.clients.dom().finite(),
        s.views_live(id),
        !is_personal(f),
    ensures
        client_bound(s.on_upstream_frame(f, p, now).outbox, id) == client_bound(
            s.outbox,
            id,
        ).push(PacketView::Raw(f)),
{
    upstream_effect(s, f, p, now);
    observe_undisturbed(s, f, p, now);
    assert(s.live(id));
    assert(s.clients.contains_key(id));
    assert(s.observe_clientbound(f, p, now).clients.dom().contains(id));
}

/// Viewers get one position after the session entered a world, and no other:
/// a position reaches them if and only if one is owed, and then none is.
pub proof fn viewers_get_one_position(
    s: SessionView,
    f: FrameView,
    p: GamePacket,
    now: u64,
    id: ClientId,
)
    requires
        s.clients.dom().finite(),
        s.in_game(),
        s.views_live(id),
        f.packet_id == ids::CB_GAME_PLAYER_POSITION,
    ensures
        client_bound(s.on_upstream_frame(f, p, now).outbox, id) == (if s.forward_next_position {
            client_bound(s.outbox, id).push(PacketView::Raw(f))
        } else {
            client_bound(s.outbox, id)
        }),
        !s.on_upstream_frame(f, p, now).forward_next_position,
{
    upstream_effect(s, f, p, now);
    observe_undisturbed(s, f, p, now);
    assert(s.live(id));
    assert(s.clients.contains_key(id));
    assert(s.observe_clientbound(f, p, now).clients.dom().contains(id));
}

/// A position becomes owed to viewers by a Login or Respawn in the game state,
/// and by nothing else; it is owed until one comes in the game state.
pub proof fn a_position_is_owed_in_a_new_world(
    s: SessionView,
    f: FrameView,
    p: GamePacket,
    now: u64,
)
    requires
        s.clients.dom().finite(),
    ensures
        ({
            let enters = s.in_game() && (f.packet_id == ids::CB_GAME_LOGIN || f.packet_id
                == ids::CB_GAME_RESPAWN);
            let comes = s.in_game() && f.packet_id == ids::CB_GAME_PLAYER_POSITION;
            s.on_upstream_frame(f, p, now).forward_next_position == (enters || (
            s.forward_next_position && !comes))
        }),
{
    observe_undisturbed(s, f, p, now);
}

/// The world as it should be kept for the bot with this uuid: its own body is
/// not in it, and one of the nine hotbar slots is selected.
pub open spec fn world_sound(w: WorldView, bot: u128) -> bool {
    &&& w.bot_uuid == Some(bot)
    &&& w.hud.selected <= 8
    &&& forall|id: i32| #[trigger]
        w.entities.entities.contains_key(id) ==> w.entities.entities[id].uuid != bot
}

/// The frames that a joining viewer is to be sent again: no keep-alive and no
/// ping, which would be stale, and not the end of the configuration, which is
/// sent after them.
pub open spec fn replayable(frames: Seq<FrameView>) -> bool {
    forall|i: int|
        0 <= i < frames.len() ==> (#[trigger] frames[i]).packet_id != ids::CB_CONFIG_KEEP_ALIVE
            && frames[i].packet_id != ids::CB_CONFIG_PING && frames[i].packet_id
            != ids::CB_CONFIG_FINISH
}

/// What holds of a session at all times: whoever is in control is a client;
/// what is kept for joining viewers is fit to be sent; the world is kept as it
/// should be.
pub open spec fn sound(s: SessionView) -> bool {
    &&& s.clients.dom().finite()
    &&& s.controller matches Some(id) ==> s.clients.contains_key(id)
    &&& replayable(s.cache.config_frames)
    &&& world_sound(s.cache.world, s.bot_uuid)
}

/// No frame of the server brings the bot's own body into the world, nor an
/// impossible hotbar slot.
pub proof fn the_world_stays_sound(
    w: WorldView,
    bot: u128,
    f: FrameView,
    p: GamePacket,
    now: u64,
)
    requires
        world_sound(w, bot),
    ensures
        world_sound(w.observe(f, p, now), bot),
{
    match p {
        GamePacket::Opaque => {
            raw_frames_keep_it_sound(w, bot, f);
        },
        _ => {
            entity_packets_keep_it_sound(w, bot, f, p);
            let a = w.observe_entity(f, p);
            social_packets_keep_it_sound(a, bot, f, p);
            let b = a.observe_social(f, p);
            inventory_packets_keep_it_sound(b, bot, f, p, now);
            let c = b.observe_inventory(f, p, now);
            place_packets_keep_it_sound(c, bot, f, p, now);
        },
    }
}

proof fn raw_frames_keep_it_sound(w: WorldView, bot: u128, f: FrameView)
    requires
        world_sound(w, bot),
    ensures
        world_sound(w.observe_raw(f), bot),
{
}

proof fn entity_packets_keep_it_sound(w: WorldView, bot: u128, f: FrameView, p: GamePacket)
    requires
        world_sound(w, bot),
    ensures
        world_sound(w.observe_entity(f, p), bot),
{
    if let GamePacket::RemoveEntities { ids } = p {
        removal_keeps_others(w.entities, ids@);
        let e = w.observe_entity(f, p).entities.entities;
        assert forall|id: i32| #[trigger] e.contains_key(id) implies e[id].uuid != bot by {
            assert(w.entities.entities.contains_key(id));
        }
    }
}

proof fn social_packets_keep_it_sound(w: WorldView, bot: u128, f: FrameView, p: GamePacket)
    requires
        world_sound(w, bot),
    ensures
        world_sound(w.observe_social(f, p), bot),
{
}

proof fn inventory_packets_keep_it_sound(
    w: WorldView,
    bot: u128,
    f: FrameView,
    p: GamePacket,
    now: u64,
)
    requires
        world_sound(w, bot),
    ensures
        world_sound(w.observe_inventory(f, p, now), bot),
{
}

proof fn place_packets_keep_it_sound(
    w: WorldView,
    bot: u128,
    f: FrameView,
    p: GamePacket,
    now: u64,
)
    requires
        world_sound(w, bot),
    ensures
        world_sound(w.observe_place(f, p, now), bot),
{
}

proof fn removal_keeps_others(e: EntitiesView, ids: Seq<i32>)
    ensures
        forall|id: i32| #[trigger]
            e.remove_all(ids).entities.contains_key(id) ==> e.entities.contains_key(id)
                && e.remove_all(ids).entities[id] == e.entities[id],
    decreases ids.len(),
{
    if ids.len() > 0 {
        let before = e.remove_all(ids.drop_last());
        removal_keeps_others(e, ids.drop_last());
        assert forall|id: i32| #[trigger]
            e.remove_all(ids).entities.contains_key(id) implies e.entities.contains_key(id)
            && e.remove_all(ids).entities[id] == e.entities[id] by {
            assert(before.entities.contains_key(id));
        }
    }
}

/// The next dimension starts without entities, so without the bot's body too.
pub proof fn a_new_dimension_is_sound(w: WorldView, bot: u128, data_to_keep: u8)
    requires
        world_sound(w, bot),
    ensures
        world_sound(w.on_respawn(data_to_keep), bot),
{
}

/// A session is sound at its start.
pub proof fn a_session_starts_sound(
    id: ClientId,
    username: Seq<char>,
    uuid: u128,
    bot_uuid: u128,
    bot_name: Seq<char>,
    opts: session::SessionOpts,
)
    ensures
        sound(SessionView::started(id, username, uuid, bot_uuid, bot_name, opts)),
{
    let s = SessionView::started(id, username, uuid, bot_uuid, bot_name, opts);
    assert(s.clients.dom() =~= Set::<ClientId>::empty().insert(id));
}

/// What is known of a session is the same but for its clients' own state, who
/// is in control, and what is to be done.
spec fn kept(s: SessionView, t: SessionView) -> bool {
    &&& t.cache == s.cache
    &&& t.bot_uuid == s.bot_uuid
    &&& t.clients.dom() == s.clients.dom()
}

proof fn set_client_kept(s: SessionView, id: ClientId, to: ClientView)
    requires
        s.clients.contains_key(id),
    ensures
        kept(s, s.set_client(id, to)),
{
    assert(s.set_client(id, to).clients.dom() =~= s.clients.dom());
}

proof fn demote_kept(s: SessionView, id: ClientId, now: u64)
    ensures
        kept(s, s.demote(id, now)),
        s.demote(id, now).controller == s.controller,
{
    assert(s.demote(id, now).clients.dom() =~= s.clients.dom());
}

proof fn promote_kept(s: SessionView, id: ClientId)
    ensures
        kept(s, s.promote(id)),
        s.clients.contains_key(id) ==> s.promote(id).controller == Some(id),
        !s.clients.contains_key(id) ==> s.promote(id) == s,
{
    assert(s.promote(id).clients.dom() =~= s.clients.dom());
}

proof fn oldest_is_live(s: SessionView, n: int, except: ClientId)
    requires
        s.clients.dom().finite(),
        0 <= n,
    ensures
        match s.oldest_live_from(n, except) {
            Some(id) => s.live(id) && id != except && (n == 0 ==> forall|other: ClientId|
                s.live(other) && other != except ==> id <= other),
            None => n == 0 ==> forall|other: ClientId| s.live(other) ==> other == except,
        },
        s.oldest_live_from(n, except) matches Some(id) ==> forall|j: int|
            n <= j < s.order().len() && s.live(#[trigger] s.order()[j]) && s.order()[j] != except
                ==> id <= s.order()[j],
        s.oldest_live_from(n, except) is None ==> forall|j: int|
            n <= j < s.order().len() && s.live(#[trigger] s.order()[j]) ==> s.order()[j] == except,
    decreases s.order().len() - n,
{
    same_keys_same_order(s.clients, s.clients);
    let order = s.order();
    if n < order.len() {
        oldest_is_live(s, n + 1, except);
        let id = order[n];
        assert(order.contains(id));
        assert(s.clients.contains_key(id));
        let found = s.oldest_live_from(n, except);
        if found is Some {
            assert forall|j: int|
                n <= j < order.len() && s.live(#[trigger] order[j]) && order[j]
                    != except implies found->0 <= order[j] by {
                if j > n {
                    assert(<ClientId as table::Key>::below(order[n], order[j]));
                }
            }
        }
    }
    if n == 0 {
        let found = s.oldest_live_from(0, except);
        assert forall|other: ClientId| s.live(other) && other != except implies (found matches Some(
            id,
        ) && id <= other) by {
            assert(order.contains(other));
            let j = choose|j: int| 0 <= j < order.len() && order[j] == other;
            assert(s.live(order[j]));
        }
    }
}

/// Control that is passed on goes to a live client, the one with the lowest
/// number, which is the one that connected first.
pub proof fn the_oldest_live_client_inherits(s: SessionView, except: ClientId)
    requires
        s.clients.dom().finite(),
    ensures
        match s.oldest_live(except) {
            Some(id) => s.live(id) && id != except && forall|other: ClientId|
                s.live(other) && other != except ==> id <= other,
            None => forall|other: ClientId| s.live(other) ==> other == except,
        },
{
    oldest_is_live(s, 0, except);
}

proof fn pass_on_kept(s: SessionView, id: ClientId, msg: Seq<char>)
    requires
        s.clients.dom().finite(),
        s.controller is None,
    ensures
        kept(s, s.pass_on_control(id, msg)),
        s.pass_on_control(id, msg).controller matches Some(next) ==> s.clients.contains_key(next),
{
    oldest_is_live(s, 0, id);
    if s.opts.always_first_control && s.oldest_live(id) is Some {
        promote_kept(s, s.oldest_live(id)->0);
    }
}

proof fn command_sound(s: SessionView, id: ClientId, cmd: Seq<char>, now: u64)
    requires
        sound(s),
    ensures
        sound(s.handle_command(id, cmd, now)),
{
    let (verb, arg) = session::command_parts(cmd);
    let free = SessionView { controller: None, ..s };
    if verb == ",acquire"@ {
        if s.controller != Some(id) {
            let taken = match s.controller {
                Some(other) => free.demote(other, now).feedback(
                    other,
                    "your control was taken by another client"@,
                ),
                None => s,
            };
            if s.controller is Some {
                demote_kept(free, s.controller->0, now);
            }
            promote_kept(taken, id);
            assert(s.clients.dom().contains(id) == taken.clients.dom().contains(id));
        }
    } else if verb == ",release"@ {
        if s.controller == Some(id) {
            demote_kept(free, id, now);
            let t = free.demote(id, now).feedback(
                id,
                "control released; proxy is keeping the session alive"@,
            );
            pass_on_kept(t, id, "you have control now"@);
            let u = t.pass_on_control(id, "you have control now"@);
            if u.controller is Some {
                assert(t.clients.dom().contains(u.controller->0));
            }
        }
    } else if verb == ",spectate"@ {
        assert(s.cmd_spectate(id, arg, now).clients.dom() =~= s.clients.dom());
        if s.controller is Some {
            assert(s.clients.dom().contains(s.controller->0));
        }
    }
}

proof fn same_dom_keeps_controller(s: SessionView, t: SessionView)
    requires
        sound(s),
        kept(s, t),
        t.controller == s.controller,
    ensures
        sound(t),
{
    if s.controller is Some {
        assert(s.clients.dom().contains(s.controller->0));
    }
}

/// A frame of a client keeps a session sound, whatever the plugins make of it.
pub proof fn client_frames_keep_it_sound(
    s: SessionView,
    id: ClientId,
    frame: FrameView,
    chat: Option<Seq<char>>,
    routed: Seq<FrameView>,
    now: u64,
)
    requires
        sound(s),
    ensures
        sound(s.on_client_frame(id, frame, chat, routed, now)),
{
    if s.is_command(frame, chat) {
        command_sound(s, id, text::trimmed(chat->0), now);
    } else if s.controller == Some(id) {
        if s.answered(frame) {
        } else if s.accepts_handoff(id, frame) {
            let to = ClientView { swallow_next_accept: false, ..s.clients[id] };
            set_client_kept(s, id, to);
            same_dom_keeps_controller(s, s.set_client(id, to));
        } else {
            let moved = reflect::controller_move(s.pose, frame) is Some;
            forward_kept(s.follow(frame), routed, moved);
            same_dom_keeps_controller(s, s.follow(frame).forward(routed, moved));
        }
    } else if s.clients.contains_key(id) && s.clients[id].state == ClientState::Joining
        && frame.packet_id == ids::SB_CONFIG_FINISH {
        join_kept(s, id, now);
        same_dom_keeps_controller(s, s.join(id, now));
    }
}

proof fn forward_kept(s: SessionView, routed: Seq<FrameView>, moved: bool)
    ensures
        kept(s, s.forward(routed, moved)),
        s.forward(routed, moved).controller == s.controller,
{
}

proof fn join_kept(s: SessionView, id: ClientId, now: u64)
    requires
        s.clients.contains_key(id),
    ensures
        kept(s, s.join(id, now)),
        s.join(id, now).controller == s.controller,
{
    assert(s.join(id, now).clients.dom() =~= s.clients.dom());
}

proof fn flush_kept(s: SessionView, n: int)
    requires
        s.clients.dom().finite(),
        0 <= n <= s.order().len(),
    ensures
        kept(s, s.flush_first(s.order(), n)),
        s.flush_first(s.order(), n).controller == s.controller,
    decreases n,
{
    if n > 0 {
        flush_kept(s, n - 1);
        let before = s.flush_first(s.order(), n - 1);
        assert(before.start_replay(s.order()[n - 1]).clients.dom() =~= before.clients.dom());
    }
}

/// A frame of the server keeps a session sound.
pub proof fn upstream_frames_keep_it_sound(s: SessionView, f: FrameView, p: GamePacket, now: u64)
    requires
        sound(s),
    ensures
        sound(s.on_upstream_frame(f, p, now)),
{
    observe_undisturbed(s, f, p, now);
    let t = s.observe_clientbound(f, p, now);
    if s.controller is Some {
        assert(s.clients.dom().contains(s.controller->0));
    }
    assert(t.clients.dom().finite());
    if s.in_game() {
        the_world_stays_sound(s.cache.world, s.bot_uuid, f, p, now);
        let w = s.cache.world.observe(f, p, now);
        if f.packet_id == ids::CB_GAME_LOGIN {
            let guarded = s.guard(f);
            let kept_frames = SessionView {
                cache: CacheView { world: w, ..guarded.cache }.keep(f),
                ..guarded
            };
            let (mode, player): (u8, Option<i32>) = match p {
                GamePacket::Login { game_mode, player_id } => (game_mode, Some(player_id)),
                _ => (0, None),
            };
            let entered = SessionView {
                real_game_mode: mode,
                real_player_id: player,
                cache: match player {
                    Some(id) => CacheView {
                        world: kept_frames.cache.world.set_player_entity_id(id),
                        ..kept_frames.cache
                    },
                    None => kept_frames.cache,
                },
                respawn_entity_pending: true,
                forward_next_position: true,
                ..kept_frames
            };
            flush_kept(entered, entered.order().len() as int);
            assert(t == entered.flush_parked());
        }
    }
}

proof fn reassert_kept(s: SessionView, order: Seq<ClientId>, n: int, now: u64)
    ensures
        kept(s, s.reassert_first(order, n, now)),
        s.reassert_first(order, n, now).controller == s.controller,
    decreases n,
{
    if n > 0 {
        reassert_kept(s, order, n - 1, now);
        let before = s.reassert_first(order, n - 1, now);
        let id = order[n - 1];
        if s.views_live(id) {
            assert(s.clients.dom().contains(id));
            assert(s.reassert_first(order, n, now).clients.dom() =~= before.clients.dom());
        }
    }
}

/// Making viewers of the viewers again keeps a session sound.
pub proof fn settling_keeps_it_sound(s: SessionView, now: u64)
    requires
        sound(s),
    ensures
        sound(s.settle(now)),
{
    let t = SessionView { reassert_pending: false, ..s };
    reassert_kept(t, s.order(), s.order().len() as int, now);
    if s.reassert_pending {
        same_dom_keeps_controller(s, s.settle(now));
    }
}

/// Letting a client in, or not, keeps a session sound.
pub proof fn attaching_keeps_it_sound(
    s: SessionView,
    id: ClientId,
    username: Seq<char>,
    uuid: u128,
)
    requires
        sound(s),
    ensures
        sound(s.attach(id, username, uuid)),
{
    let t = s.attach(id, username, uuid);
    if t.clients.dom() != s.clients.dom() {
        assert(t.clients.dom() =~= s.clients.dom().insert(id));
    }
    if s.controller is Some {
        assert(s.clients.dom().contains(s.controller->0));
        assert(t.clients.dom().contains(s.controller->0)) by {
            assert(t.clients.contains_key(s.controller->0));
        }
    }
}

/// Losing a client keeps a session sound.
pub proof fn dropping_keeps_it_sound(s: SessionView, id: ClientId)
    requires
        sound(s),
    ensures
        sound(s.drop_client(id)),
{
    let left = if s.clients.contains_key(id) {
        SessionView { clients: s.clients.remove(id), ..s }.ask(
            ActionView::Emit(EventView::ClientLeft { id, username: s.clients[id].username }),
        ).ask(ActionView::Close { id })
    } else {
        s
    };
    assert(left.clients.dom() =~= s.clients.dom().remove(id)) by {
        if !s.clients.contains_key(id) {
            assert(!s.clients.dom().contains(id));
        }
    }
    if s.controller == Some(id) {
        let free = SessionView { controller: None, ..left };
        let msg = "previous controller left — you have control now"@;
        pass_on_kept(free, id, msg);
        let t = free.pass_on_control(id, msg);
        if t.controller is Some {
            assert(free.clients.dom().contains(t.controller->0));
        }
    }
}

/// The heartbeat keeps a session sound.
pub proof fn ticking_keeps_it_sound(s: SessionView)
    requires
        sound(s),
    ensures
        sound(s.stand_in_tick()),
{
}

/// A client that is gone is out of the session, out of control, and its
/// connection is closed; the host hears of it.
pub proof fn a_dropped_client_is_gone(s: SessionView, id: ClientId)
    requires
        sound(s),
        s.clients.contains_key(id),
    ensures
        !s.drop_client(id).clients.contains_key(id),
        s.drop_client(id).controller != Some(id),
        s.drop_client(id).outbox.contains(ActionView::Close { id }),
        s.drop_client(id).outbox.contains(
            ActionView::Emit(EventView::ClientLeft { id, username: s.clients[id].username }),
        ),
{
    let told = ActionView::Emit(EventView::ClientLeft { id, username: s.clients[id].username });
    let close = ActionView::Close { id };
    let left = SessionView { clients: s.clients.remove(id), ..s }.ask(told).ask(close);
    let n = s.outbox.len() as int;
    assert(left.outbox[n] == told);
    assert(left.outbox[n + 1] == close);
    assert(left.clients.dom() =~= s.clients.dom().remove(id));
    let t = s.drop_client(id);
    if s.controller == Some(id) {
        let free = SessionView { controller: None, ..left };
        let msg = "previous controller left — you have control now"@;
        oldest_is_live(free, 0, id);
        pass_on_kept(free, id, msg);
        assert(!free.clients.dom().contains(id));
        assert(!t.clients.dom().contains(id));
        pass_on_extends(free, id, msg);
    }
    assert(t.outbox[n] == told);
    assert(t.outbox[n + 1] == close);
}

proof fn pass_on_extends(s: SessionView, id: ClientId, msg: Seq<char>)
    ensures
        s.outbox.len() <= s.pass_on_control(id, msg).outbox.len(),
        forall|i: int|
            0 <= i < s.outbox.len() ==> #[trigger] s.pass_on_control(id, msg).outbox[i]
                == s.outbox[i],
{
}

/// No more clients are let in than there is room for.
pub proof fn the_cap_holds(
    s: SessionView,
    id: ClientId,
    username: Seq<char>,
    uuid: u128,
    max: usize,
)
    requires
        s.clients.dom().finite(),
        s.opts.max_clients == Some(max),
        s.clients.dom().len() <= max,
    ensures
        s.attach(id, username, uuid).clients.dom().len() <= max,
        s.clients.dom().len() == max ==> s.attach(id, username, uuid).clients == s.clients
            && s.attach(id, username, uuid).outbox == s.outbox.push(ActionView::Refuse { id }),
{
    order_counts(s);
    let t = s.attach(id, username, uuid);
    if s.order().len() < max {
        assert(t.clients.dom() =~= s.clients.dom().insert(id));
    }
}

/// A session has as many clients as it lists.
pub proof fn order_counts(s: SessionView)
    requires
        s.clients.dom().finite(),
    ensures
        s.order().len() == s.clients.dom().len(),
{
    same_keys_same_order(s.clients, s.clients);
    let order = s.order();
    assert(order.no_duplicates()) by {
        assert forall|i: int, j: int|
            0 <= i < order.len() && 0 <= j < order.len() && i != j implies order[i] != order[j] by {
            if i < j {
                assert(<ClientId as table::Key>::below(order[i], order[j]));
            } else {
                assert(<ClientId as table::Key>::below(order[j], order[i]));
            }
        }
    }
    order.unique_seq_to_set();
    assert(order.to_set() =~= s.clients.dom()) by {
        assert forall|k: ClientId| order.to_set().contains(k) <==> s.clients.dom().contains(k) by {
            assert(s.clients.contains_key(k) <==> order.contains(k));
        }
    }
}

/// Whoever acquires control has it, whoever had it before; the one who had it
/// stays a client and is sent what makes it a viewer.
pub proof fn acquiring_takes_control(s: SessionView, id: ClientId, now: u64)
    requires
        s.clients.contains_key(id),
    ensures
        s.cmd_acquire(id, now).controller == Some(id),
        s.cmd_acquire(id, now).clients.dom() == s.clients.dom(),
        s.controller matches Some(other) ==> (other != id && s.clients.contains_key(other)
            ==> s.cmd_acquire(id, now).outbox.contains(
            ActionView::ToClient {
                id: other,
                packets: reflect::spectator_packets(
                    s.clients[other].uuid,
                    s.clients[other].username,
                ) + s.cache.world.hud.hud_packets(now) + s.bundle(),
                must: false,
            },
        )),
{
    if s.controller != Some(id) {
        let free = SessionView { controller: None, ..s };
        let taken = match s.controller {
            Some(other) => free.demote(other, now).feedback(
                other,
                "your control was taken by another client"@,
            ),
            None => s,
        };
        if s.controller is Some {
            let other = s.controller->0;
            demote_kept(free, other, now);
            assert(taken.clients.dom().contains(id)) by {
                assert(s.clients.dom().contains(id));
            }
            if s.clients.contains_key(other) {
                let kit = ActionView::ToClient {
                    id: other,
                    packets: reflect::spectator_packets(
                        s.clients[other].uuid,
                        s.clients[other].username,
                    ) + s.cache.world.hud.hud_packets(now) + s.bundle(),
                    must: false,
                };
                let n = s.outbox.len() as int;
                assert(taken.outbox[n] == kit);
                assert(s.cmd_acquire(id, now).outbox[n] == kit);
            }
        }
        promote_kept(taken, id);
    }
}

/// Control that was released is not the releaser's any more; without an heir
/// nobody has it.
pub proof fn releasing_gives_up_control(s: SessionView, id: ClientId, now: u64)
    requires
        sound(s),
        s.controller == Some(id),
    ensures
        s.cmd_release(id, now).controller != Some(id),
        !s.opts.always_first_control ==> s.cmd_release(id, now).controller is None,
        s.cmd_release(id, now).clients.dom() == s.clients.dom(),
{
    let free = SessionView { controller: None, ..s };
    demote_kept(free, id, now);
    let t = free.demote(id, now).feedback(
        id,
        "control released; proxy is keeping the session alive"@,
    );
    pass_on_kept(t, id, "you have control now"@);
    oldest_is_live(t, 0, id);
    if t.opts.always_first_control && t.oldest_live(id) is Some {
        promote_kept(t, t.oldest_live(id)->0);
    }
}

/// A line of the proxy in a client's chat.
pub open spec fn proxy_line(msg: Seq<char>) -> PacketView {
    PacketView::SystemChat { text: "[proxy] "@ + msg }
}

proof fn spectate_sends(s: SessionView, id: ClientId, arg: Seq<char>, now: u64)
    requires
        s.clients.contains_key(id),
        s.controller != Some(id),
        s.spectate_target(arg) is Some,
    ensures
        ({
            let t = s.cmd_spectate(id, arg, now);
            let c = s.clients[id];
            let target = s.spectate_target(arg)->0;
            &&& t.controller == s.controller && t.cache == s.cache && t.bot_name == s.bot_name
            &&& t.real_player_id == s.real_player_id
            &&& t.clients.contains_key(id)
            &&& t.clients[id] == (ClientView {
                camera_target: if c.camera_target != Some(target) {
                    Some(target)
                } else {
                    None
                },
                ..c
            })
            &&& client_bound(t.outbox, id) == client_bound(s.outbox, id) + (
            if c.camera_target != Some(target) {
                s.lock_packets(c, target, now).push(
                    proxy_line("camera locked — ,spectate again to release"@),
                )
            } else {
                s.release_packets(c, target).push(proxy_line("camera released"@))
            })
        }),
{
    let c = s.clients[id];
    let target = s.spectate_target(arg)->0;
    let locks = c.camera_target != Some(target);
    let packets = if locks {
        s.lock_packets(c, target, now)
    } else {
        s.release_packets(c, target)
    };
    let line = proxy_line(
        if locks {
            "camera locked — ,spectate again to release"@
        } else {
            "camera released"@
        },
    );
    let first = ActionView::ToClient { id, packets, must: false };
    let second = ActionView::ToClient { id, packets: seq![line], must: false };
    client_bound_push(s.outbox, first, id);
    client_bound_push(s.outbox.push(first), second, id);
    assert(client_bound(s.outbox, id) + packets + seq![line] =~= client_bound(s.outbox, id)
        + packets.push(line));
}

/// Spectating locks the camera to the target and shows the bot's screen: its
/// game mode, and the state of that screen. Spectating the same target again
/// gives the camera back and makes the client a spectator as it was.
pub proof fn spectating_twice_releases(s: SessionView, id: ClientId, arg: Seq<char>, now: u64)
    requires
        s.clients.contains_key(id),
        s.controller != Some(id),
        s.spectate_target(arg) is Some,
        s.clients[id].camera_target is None,
    ensures
        ({
            let once = s.cmd_spectate(id, arg, now);
            let twice = once.cmd_spectate(id, arg, now);
            let c = s.clients[id];
            let target = s.spectate_target(arg)->0;
            &&& once.clients[id].camera_target == Some(target)
            &&& client_bound(once.outbox, id) == client_bound(s.outbox, id) + s.lock_packets(
                c,
                target,
                now,
            ).push(proxy_line("camera locked — ,spectate again to release"@))
            &&& twice.clients[id] == c
            &&& client_bound(twice.outbox, id) == client_bound(once.outbox, id)
                + s.release_packets(c, target).push(proxy_line("camera released"@))
        }),
{
    spectate_sends(s, id, arg, now);
    let once = s.cmd_spectate(id, arg, now);
    assert(once.spectate_target(arg) == s.spectate_target(arg));
    spectate_sends(once, id, arg, now);
    assert(once.release_packets(once.clients[id], s.spectate_target(arg)->0)
        == s.release_packets(s.clients[id], s.spectate_target(arg)->0));
    assert(once.cmd_spectate(id, arg, now).clients[id] =~= s.clients[id]);
}

/// A new controller is sent onto the bot, and the accept of that teleport is
/// swallowed, once; the accept of any other teleport goes to the server.
pub proof fn the_handover_accept_is_swallowed_once(
    s: SessionView,
    id: ClientId,
    accept: FrameView,
    chat: Option<Seq<char>>,
    routed: Seq<FrameView>,
    now: u64,
)
    requires
        s.clients.contains_key(id),
        s.in_game(),
        s.pose.pos is Some,
        accept.packet_id == ids::SB_GAME_ACCEPT_TELEPORTATION,
    ensures
        ({
            let held = s.promote(id);
            let after = held.on_client_frame(id, accept, chat, routed, now);
            &&& held.controller == Some(id)
            &&& reflect::teleport(accept) == Some(reflect::HANDOFF_TELEPORT_ID)
                ==> !held.forwards(id, accept, chat) && after.outbox == held.outbox
                && after.forwards(id, accept, chat)
            &&& reflect::teleport(accept) != Some(reflect::HANDOFF_TELEPORT_ID)
                ==> held.forwards(id, accept, chat)
        }),
{
    let held = s.promote(id);
    assert(held.clients[id].swallow_next_accept);
    assert(!held.is_command(accept, chat));
}

/// The heartbeat is heard exactly when nobody else reports the player's
/// position: with a controller that has moved since the last beat it is
/// silent, and only until the next.
pub proof fn the_heartbeat_fills_the_silence(s: SessionView)
    requires
        s.in_game(),
        s.pose.pos is Some,
    ensures
        s.controller is Some && s.controller_moved_recently ==> s.stand_in_tick().outbox
            == s.outbox && !s.stand_in_tick().controller_moved_recently,
        !(s.controller is Some && s.controller_moved_recently) ==> server_bound(
            s.stand_in_tick().outbox,
        ) == server_bound(s.outbox).push(reflect::idle_move(s.pose)->0),
{
    server_bound_push(
        s.outbox,
        ActionView::ToServer { frame: reflect::idle_move(s.pose)->0, must: false },
    );
}

/// A reconfiguration makes everything that was kept stale; the bot is still
/// known.
pub proof fn a_reconfiguration_clears_the_cache(
    s: SessionView,
    f: FrameView,
    p: GamePacket,
    now: u64,
)
    requires
        s.in_game(),
        f.packet_id == ids::CB_GAME_START_CONFIGURATION,
    ensures
        s.on_upstream_frame(f, p, now).cache == CacheView::empty(s.bot_uuid),
        !s.on_upstream_frame(f, p, now).in_game(),
{
}

/// A client for which there is room and that attaches to a session in the game
/// state is sent the configuration at once and, once it confirms it, the
/// world; then it is live.
pub proof fn a_late_viewer_joins(
    s: SessionView,
    id: ClientId,
    username: Seq<char>,
    uuid: u128,
    ack: FrameView,
    chat: Option<Seq<char>>,
    routed: Seq<FrameView>,
    now: u64,
)
    requires
        s.cache.login is Some,
        s.controller != Some(id),
        s.opts.max_clients matches Some(max) ==> s.order().len() < max,
        ack.packet_id == ids::SB_CONFIG_FINISH,
    ensures
        ({
            let joining = s.attach(id, username, uuid);
            let live = joining.on_client_frame(id, ack, chat, routed, now);
            &&& client_bound(joining.outbox, id) == client_bound(s.outbox, id)
                + s.cache.config_packets()
            &&& live.live(id)
            &&& client_bound(live.outbox, id) == client_bound(joining.outbox, id) + (
            s.cache.join_packets(now) + reflect::spectator_packets(uuid, username) + s.bundle())
        }),
{
    let told = ActionView::Emit(EventView::ClientJoined { id, username });
    let config = ActionView::ToClient { id, packets: s.cache.config_packets(), must: true };
    client_bound_push(s.outbox, told, id);
    client_bound_push(s.outbox.push(told), config, id);
    let joining = s.attach(id, username, uuid);
    let world = ActionView::ToClient {
        id,
        packets: s.cache.join_packets(now) + reflect::spectator_packets(uuid, username)
            + s.bundle(),
        must: true,
    };
    client_bound_push(joining.outbox, world, id);
}

/// Sessions with the same live clients have the same heir.
proof fn same_live_same_heir(s: SessionView, t: SessionView, except: ClientId)
    requires
        s.clients.dom().finite(),
        t.clients.dom().finite(),
        forall|v: ClientId| v != except ==> #[trigger] s.live(v) == t.live(v),
    ensures
        s.oldest_live(except) == t.oldest_live(except),
{
    the_oldest_live_client_inherits(s, except);
    the_oldest_live_client_inherits(t, except);
    match (s.oldest_live(except), t.oldest_live(except)) {
        (Some(a), Some(b)) => {
            assert(t.live(a) && s.live(b));
        },
        (Some(a), None) => {
            assert(t.live(a));
        },
        (None, Some(b)) => {
            assert(s.live(b));
        },
        (None, None) => {},
    }
}

/// Where the session is set so, control that its holder loses or releases goes
/// to the oldest other live client at once; else, and where there is none, to
/// nobody.
pub proof fn control_is_inherited(s: SessionView, id: ClientId, now: u64)
    requires
        sound(s),
        s.controller == Some(id),
    ensures
        ({
            let heir = if s.opts.always_first_control {
                s.oldest_live(id)
            } else {
                None
            };
            &&& s.drop_client(id).controller == heir
            &&& s.cmd_release(id, now).controller == heir
        }),
{
    the_oldest_live_client_inherits(s, id);
    let left = SessionView {
        controller: None,
        clients: s.clients.remove(id),
        ..s
    }.ask(
        ActionView::Emit(EventView::ClientLeft { id, username: s.clients[id].username }),
    ).ask(ActionView::Close { id });
    assert forall|v: ClientId| v != id implies #[trigger] s.live(v) == left.live(v) by {}
    same_live_same_heir(s, left, id);
    let freed = SessionView { controller: None, ..s };
    let released = freed.demote(id, now).feedback(
        id,
        "control released; proxy is keeping the session alive"@,
    );
    demote_kept(freed, id, now);
    assert forall|v: ClientId| v != id implies #[trigger] s.live(v) == released.live(v) by {}
    same_live_same_heir(s, released, id);
}

proof fn mirror_reaches(s: SessionView, packets: Seq<PacketView>, n: int, v: ClientId)
    requires
        s.clients.dom().finite(),
        0 <= n <= s.order().len(),
    ensures
        client_bound(s.mirror_first(packets, n), v) == (if s.views_live(v) && s.order().take(
            n,
        ).contains(v) {
            packets
        } else {
            Seq::empty()
        }),
    decreases n,
{
    same_keys_same_order(s.clients, s.clients);
    let order = s.order();
    let shorter = order.take(n - 1);
    let longer = order.take(n);
    if n > 0 {
        mirror_reaches(s, packets, n - 1, v);
        let id = order[n - 1];
        let before = s.mirror_first(packets, n - 1);
        client_bound_push(before, ActionView::ToClient { id, packets, must: true }, v);
        assert(longer =~= shorter.push(id));
        if id == v {
            assert(longer[n - 1] == v);
            if shorter.contains(v) {
                let j = choose|j: int| 0 <= j < n - 1 && shorter[j] == v;
                assert(<ClientId as table::Key>::below(order[j], order[n - 1]));
            }
            assert(Seq::<PacketView>::empty() + packets =~= packets);
        } else {
            if shorter.contains(v) {
                let j = choose|j: int| 0 <= j < n - 1 && shorter[j] == v;
                assert(longer[j] == v);
            }
            if longer.contains(v) {
                let j = choose|j: int| 0 <= j < n && longer[j] == v;
                assert(shorter[j] == v);
            }
        }
    }
}

/// Packets for viewers reach every live viewer, and nobody else.
proof fn viewers_reached(s: SessionView, packets: Seq<PacketView>, v: ClientId)
    requires
        s.clients.dom().finite(),
    ensures
        client_bound(s.send_to_viewers(packets).outbox, v) == (if s.views_live(v) {
            client_bound(s.outbox, v) + packets
        } else {
            client_bound(s.outbox, v)
        }),
{
    same_keys_same_order(s.clients, s.clients);
    let n = s.order().len() as int;
    assert(s.order().take(n) =~= s.order());
    if s.clients.contains_key(v) {
        assert(s.order().contains(v));
    }
    mirror_reaches(s, packets, n, v);
    client_bound_add(s.outbox, s.mirror_first(packets, n), v);
    assert(client_bound(s.outbox, v) + Seq::<PacketView>::empty() =~= client_bound(s.outbox, v));
    if packets.len() == 0 {
        assert(client_bound(s.outbox, v) + packets =~= client_bound(s.outbox, v));
    }
}

/// What goes to the server goes to no client.
pub proof fn to_server_unseen(s: SessionView, frames: Seq<FrameView>, v: ClientId)
    ensures
        client_bound(s.to_server(frames).outbox, v) == client_bound(s.outbox, v),
    decreases frames.len(),
{
    let all = Seq::new(
        frames.len(),
        |i: int| ActionView::ToServer { frame: frames[i], must: true },
    );
    if frames.len() == 0 {
        assert(s.outbox + all =~= s.outbox);
    } else {
        let most = frames.drop_last();
        to_server_unseen(s, most, v);
        let some = Seq::new(
            most.len(),
            |i: int| ActionView::ToServer { frame: most[i], must: true },
        );
        let last = ActionView::ToServer { frame: frames.last(), must: true };
        assert(s.outbox + all =~= (s.outbox + some).push(last));
        client_bound_push(s.outbox + some, last, v);
    }
}

/// What shows to viewers that the bot moved: the whole entity where clients
/// have lost it, else its new place.
pub open spec fn movement_packets(s: SessionView) -> Seq<PacketView> {
    if s.respawn_entity_pending && s.pose.pos is Some {
        s.bundle()
    } else {
        reflect::move_packets(s.pose)
    }
}

/// Every movement of the controller is shown to every live viewer, and not to
/// the controller itself.
pub proof fn viewers_see_the_bot_move(
    s: SessionView,
    id: ClientId,
    frame: FrameView,
    chat: Option<Seq<char>>,
    routed: Seq<FrameView>,
    now: u64,
    v: ClientId,
)
    requires
        s.clients.dom().finite(),
        s.forwards(id, frame, chat),
        reflect::controller_move(s.pose, frame) is Some,
    ensures
        client_bound(s.on_client_frame(id, frame, chat, routed, now).outbox, v) == (
        if s.views_live(v) {
            client_bound(s.outbox, v) + movement_packets(s.follow(frame))
        } else {
            client_bound(s.outbox, v)
        }),
{
    let t = s.follow(frame);
    to_server_unseen(t, routed, v);
    let u = t.to_server(routed);
    if u.respawn_entity_pending && u.pose.pos is Some {
        viewers_reached(SessionView { respawn_entity_pending: false, ..u }, u.bundle(), v);
    } else {
        viewers_reached(u, reflect::move_packets(u.pose), v);
    }
}

/// What the controller sends goes to the server before anything is shown to
/// viewers.
pub proof fn the_server_comes_first(
    s: SessionView,
    id: ClientId,
    frame: FrameView,
    chat: Option<Seq<char>>,
    routed: Seq<FrameView>,
    now: u64,
    i: int,
)
    requires
        s.forwards(id, frame, chat),
        s.outbox.len() <= i < s.on_client_frame(id, frame, chat, routed, now).outbox.len(),
    ensures
        s.on_client_frame(id, frame, chat, routed, now).outbox[i] is ToServer <==> i
            < s.outbox.len() + routed.len(),
{
    let t = s.follow(frame).to_server(routed);
    let n = t.order().len() as int;
    assert(t.outbox.len() == s.outbox.len() + routed.len());
    if reflect::controller_move(s.pose, frame) is Some {
        let shown = SessionView { respawn_entity_pending: false, ..t };
        if t.respawn_entity_pending && t.pose.pos is Some {
            mirror_is_for_clients(shown, t.bundle(), n, i - t.outbox.len());
        } else {
            mirror_is_for_clients(t, reflect::move_packets(t.pose), n, i - t.outbox.len());
        }
    }
}

proof fn mirror_is_for_clients(s: SessionView, packets: Seq<PacketView>, n: int, i: int)
    ensures
        0 <= i < s.mirror_first(packets, n).len() ==> s.mirror_first(packets, n)[i] is ToClient,
    decreases n,
{
    if n > 0 {
        mirror_is_for_clients(s, packets, n - 1, i);
    }
}

/// A chunk is kept from when it is sent until it is forgotten, in its latest
/// form; no other frame touches it.
pub proof fn chunks_are_kept_until_forgotten(c: CacheView, f: FrameView, key: (i32, i32))
    ensures
        ({
            let after = c.keep(f);
            if f.packet_id == ids::CB_GAME_LEVEL_CHUNK_WITH_LIGHT && ids::chunk_at(f.body) == Some(
                key,
            ) {
                after.chunks.contains_key(key) && after.chunks[key] == f
            } else if f.packet_id == ids::CB_GAME_FORGET_LEVEL_CHUNK && ids::forgotten_chunk(f.body)
                == Some(key) {
                !after.chunks.contains_key(key)
            } else {
                after.chunks.contains_key(key) == c.chunks.contains_key(key) && (
                c.chunks.contains_key(key) ==> after.chunks[key] == c.chunks[key])
            }
        }),
{
}

/// Every chunk that is kept is sent to a viewer that joins, after the event
/// that makes it wait for chunks.
pub proof fn chunks_are_replayed(c: CacheView, key: (i32, i32), now: u64)
    requires
        c.chunks.dom().finite(),
        c.chunks.contains_key(key),
    ensures
        exists|i: int, j: int|
            0 <= i < j < c.join_packets(now).len() && #[trigger] c.join_packets(now)[i]
                == PacketView::Raw(ids::game_event(13, 0)) && #[trigger] c.join_packets(now)[j]
                == PacketView::Raw(c.chunks[key]),
{
    table::in_order_lists::<(i32, i32), FrameView>(c.chunks);
    let order = table::in_order::<(i32, i32), FrameView>(c.chunks);
    assert(order.contains(key));
    let k = choose|k: int| 0 <= k < order.len() && order[k] == key;
    let placed = packet::raw(c.login) + packet::raw(c.respawn) + packet::raw(c.spawn_pos)
        + packet::raw(c.last_position);
    let i = placed.len() as int;
    let j = i + 1 + packet::raw(c.chunk_radius).len() + packet::raw(c.chunk_center).len() + k;
    assert(c.join_packets(now)[i] == PacketView::Raw(ids::game_event(13, 0)));
    assert(c.join_packets(now)[j] == PacketView::Raw(c.chunks[key]));
}

proof fn reassert_reaches(s: SessionView, n: int, now: u64, v: ClientId)
    requires
        s.clients.dom().finite(),
        0 <= n <= s.order().len(),
    ensures
        ({
            let t = s.reassert_first(s.order(), n, now);
            let c = s.clients[v];
            let reached = s.views_live(v) && s.order().take(n).contains(v);
            &&& t.clients.dom() == s.clients.dom()
            &&& client_bound(t.outbox, v) == (if reached {
                client_bound(s.outbox, v) + (reflect::spectator_packets(c.uuid, c.username)
                    + s.cache.world.hud.hud_packets(now))
            } else {
                client_bound(s.outbox, v)
            })
            &&& s.clients.contains_key(v) ==> t.clients[v] == (if reached {
                ClientView { camera_target: None, ..c }
            } else {
                c
            })
        }),
    decreases n,
{
    same_keys_same_order(s.clients, s.clients);
    let order = s.order();
    let shorter = order.take(n - 1);
    let longer = order.take(n);
    if n > 0 {
        reassert_reaches(s, n - 1, now, v);
        let before = s.reassert_first(order, n - 1, now);
        let id = order[n - 1];
        assert(order.contains(id));
        assert(s.clients.contains_key(id));
        let c = s.clients[id];
        let packets = reflect::spectator_packets(c.uuid, c.username)
            + s.cache.world.hud.hud_packets(now);
        client_bound_push(before.outbox, ActionView::ToClient { id, packets, must: false }, v);
        assert(longer =~= shorter.push(id));
        assert(s.reassert_first(order, n, now).clients.dom() =~= s.clients.dom());
        if id == v {
            assert(longer[n - 1] == v);
            if shorter.contains(v) {
                let j = choose|j: int| 0 <= j < n - 1 && shorter[j] == v;
                assert(<ClientId as table::Key>::below(order[j], order[n - 1]));
            }
        } else {
            if shorter.contains(v) {
                let j = choose|j: int| 0 <= j < n - 1 && shorter[j] == v;
                assert(longer[j] == v);
            }
            if longer.contains(v) {
                let j = choose|j: int| 0 <= j < n && longer[j] == v;
                assert(shorter[j] == v);
            }
        }
    }
}

/// After a Login or Respawn in the game state, and once all have it, every
/// live viewer is sent what makes it a viewer, and its camera is its own; the
/// controller and those who are not live yet are left alone.
pub proof fn viewers_are_made_viewers_again(
    s: SessionView,
    f: FrameView,
    p: GamePacket,
    now: u64,
    v: ClientId,
)
    requires
        s.clients.dom().finite(),
        s.in_game(),
        s.clients.contains_key(v),
        f.packet_id == ids::CB_GAME_LOGIN || f.packet_id == ids::CB_GAME_RESPAWN,
    ensures
        ({
            let t = s.on_upstream_frame(f, p, now);
            let settled = t.settle(now);
            let c = s.clients[v];
            &&& s.views_live(v) ==> client_bound(settled.outbox, v) == client_bound(t.outbox, v) + (
            reflect::spectator_packets(c.uuid, c.username)
                + t.cache.world.hud.hud_packets(now)) && settled.clients[v] == (ClientView {
                camera_target: None,
                ..c
            })
            &&& !s.views_live(v) ==> client_bound(settled.outbox, v) == client_bound(t.outbox, v)
                && settled.clients[v] == t.clients[v]
        }),
{
    observe_undisturbed(s, f, p, now);
    let t = s.on_upstream_frame(f, p, now);
    let o = s.observe_clientbound(f, p, now);
    assert(o.in_game());
    assert(t.clients == o.clients && t.controller == s.controller && t.reassert_pending);
    assert(o.clients.dom().contains(v));
    if s.clients[v].state == ClientState::Parked {
        login_lets_in(s, f, p, now, v);
    }
    let u = SessionView { reassert_pending: false, ..t };
    same_keys_same_order(u.clients, u.clients);
    let n = u.order().len() as int;
    assert(u.order().take(n) =~= u.order());
    assert(u.order().contains(v));
    reassert_reaches(u, n, now, v);
}

proof fn flush_lets_in(s: SessionView, n: int, v: ClientId)
    requires
        s.clients.dom().finite(),
        0 <= n <= s.order().len(),
        s.clients.contains_key(v),
        s.clients[v].state == ClientState::Parked,
    ensures
        ({
            let t = s.flush_first(s.order(), n);
            let reached = s.order().take(n).contains(v);
            &&& t.cache == s.cache
            &&& t.clients.contains_key(v)
            &&& t.clients[v] == (if reached {
                ClientView { state: ClientState::Joining, ..s.clients[v] }
            } else {
                s.clients[v]
            })
            &&& client_bound(t.outbox, v) == (if reached {
                client_bound(s.outbox, v) + s.cache.config_packets()
            } else {
                client_bound(s.outbox, v)
            })
        }),
    decreases n,
{
    same_keys_same_order(s.clients, s.clients);
    let order = s.order();
    let shorter = order.take(n - 1);
    let longer = order.take(n);
    if n > 0 {
        flush_lets_in(s, n - 1, v);
        flush_undisturbed(s, n - 1);
        let before = s.flush_first(order, n - 1);
        let id = order[n - 1];
        assert(order.contains(id));
        assert(before.clients.dom().contains(id));
        client_bound_push(
            before.outbox,
            ActionView::ToClient { id, packets: before.cache.config_packets(), must: true },
            v,
        );
        assert(longer =~= shorter.push(id));
        if id == v {
            assert(longer[n - 1] == v);
            if shorter.contains(v) {
                let j = choose|j: int| 0 <= j < n - 1 && shorter[j] == v;
                assert(<ClientId as table::Key>::below(order[j], order[n - 1]));
            }
        } else {
            if shorter.contains(v) {
                let j = choose|j: int| 0 <= j < n - 1 && shorter[j] == v;
                assert(longer[j] == v);
            }
            if longer.contains(v) {
                let j = choose|j: int| 0 <= j < n && longer[j] == v;
                assert(shorter[j] == v);
            }
        }
    }
}

proof fn login_lets_in(s: SessionView, f: FrameView, p: GamePacket, now: u64, v: ClientId)
    requires
        s.clients.dom().finite(),
        s.in_game(),
        s.clients.contains_key(v),
        s.clients[v].state == ClientState::Parked,
    ensures
        ({
            let t = s.observe_clientbound(f, p, now);
            if f.packet_id == ids::CB_GAME_LOGIN {
                &&& t.clients[v] == (ClientView { state: ClientState::Joining, ..s.clients[v] })
                &&& client_bound(t.outbox, v) == client_bound(s.outbox, v)
                    + s.cache.config_packets()
            } else {
                &&& t.clients[v] == s.clients[v]
                &&& client_bound(t.outbox, v) == client_bound(s.outbox, v)
            }
        }),
{
    client_bound_push(s.outbox, ActionView::StaleIds { packet_id: f.packet_id }, v);
    if f.packet_id == ids::CB_GAME_LOGIN {
        let guarded = s.guard(f);
        let kept = SessionView {
            cache: CacheView {
                world: guarded.cache.world.observe(f, p, now),
                ..guarded.cache
            }.keep(f),
            ..guarded
        };
        let (mode, player): (u8, Option<i32>) = match p {
            GamePacket::Login { game_mode, player_id } => (game_mode, Some(player_id)),
            _ => (0, None),
        };
        let known = SessionView {
            real_game_mode: mode,
            real_player_id: player,
            cache: match player {
                Some(id) => CacheView {
                    world: kept.cache.world.set_player_entity_id(id),
                    ..kept.cache
                },
                None => kept.cache,
            },
            respawn_entity_pending: true,
            forward_next_position: true,
            ..kept
        };
        same_keys_same_order(known.clients, known.clients);
        let n = known.order().len() as int;
        assert(known.order().take(n) =~= known.order());
        assert(known.order().contains(v));
        flush_lets_in(known, n, v);
    }
}

/// A client that attached before the game state waits, and is let in by the
/// Login: it is sent the configuration, and nothing before it.
pub proof fn waiting_clients_are_let_in(
    s: SessionView,
    f: FrameView,
    p: GamePacket,
    now: u64,
    v: ClientId,
)
    requires
        s.clients.dom().finite(),
        s.in_game(),
        s.clients.contains_key(v),
        s.clients[v].state == ClientState::Parked,
        s.controller != Some(v),
    ensures
        ({
            let t = s.on_upstream_frame(f, p, now);
            if f.packet_id == ids::CB_GAME_LOGIN {
                &&& t.clients[v].state == ClientState::Joining
                &&& client_bound(t.outbox, v) == client_bound(s.outbox, v)
                    + s.cache.config_packets()
            } else {
                &&& t.clients[v] == s.clients[v]
                &&& client_bound(t.outbox, v) == client_bound(s.outbox, v)
            }
        }),
{
    observe_undisturbed(s, f, p, now);
    login_lets_in(s, f, p, now, v);
    let t = s.observe_clientbound(f, p, now);
    let w = t.stand_in(f);
    if t.stand_in_reply(f) is Some {
        client_bound_push(
            t.outbox,
            ActionView::ToServer { frame: t.stand_in_reply(f)->0, must: false },
            v,
        );
    }
    same_keys_same_order(w.clients, w.clients);
    let n = w.order().len() as int;
    broadcast_reaches(w, f, v, n);
    client_bound_add(w.outbox, w.broadcast_first(f, n), v);
    assert(client_bound(w.outbox, v) + Seq::<PacketView>::empty() =~= client_bound(w.outbox, v));
}

} // verus!
