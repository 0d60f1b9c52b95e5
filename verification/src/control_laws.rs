//! What those in a session get when control changes hands, and what commands do.

use vstd::prelude::*;

use crate::cache::CacheView;
use crate::entity_laws;
use crate::events::{ActionView, ClientId, EventView};
use crate::ids;
use crate::packet;
use crate::packet::PacketView;
use crate::plugin::FrameView;
use crate::reflect;
use crate::reflect::BotPose;
use crate::reflect_laws;
use crate::session;
use crate::session::{ClientState, ClientView, SessionView};
use crate::session_laws;
use crate::text;
use crate::text_laws;
use crate::wire;

verus! {

// What is sent.

/// Of the actions of `t` those beyond `s` send these packets to a client.
pub open spec fn sends(s: SessionView, t: SessionView, id: ClientId, r: Seq<PacketView>) -> bool {
    session_laws::client_bound(t.outbox, id) == session_laws::client_bound(s.outbox, id) + r
}

/// Nothing more is sent to a client.
pub open spec fn leaves_alone(s: SessionView, t: SessionView, id: ClientId) -> bool {
    session_laws::client_bound(t.outbox, id) == session_laws::client_bound(s.outbox, id)
}

/// Who the host was told last has control; `None` where it was told nothing.
pub open spec fn last_told(actions: Seq<ActionView>) -> Option<Option<(ClientId, Seq<char>)>>
    decreases actions.len(),
{
    if actions.len() == 0 {
        None
    } else {
        match actions.last() {
            ActionView::Emit(EventView::ControlChanged { controller }) => Some(controller),
            _ => last_told(actions.drop_last()),
        }
    }
}

proof fn told_push(actions: Seq<ActionView>, a: ActionView)
    ensures
        last_told(actions.push(a)) == (match a {
            ActionView::Emit(EventView::ControlChanged { controller }) => Some(controller),
            _ => last_told(actions),
        }),
{
    assert(actions.push(a).drop_last() =~= actions);
}

/// These packets make a client the controller: in its own entry and by the game
/// event it has the session player's game mode, it stands on the ground, it has
/// lost its copy of the bot, it has the last abilities that the server gave, and
/// it is taken to where the bot is.
pub open spec fn makes_controller(
    r: Seq<PacketView>,
    c: ClientView,
    mode: u8,
    abilities: Option<FrameView>,
    pose: BotPose,
) -> bool {
    let n: int = if abilities is Some {
        5
    } else {
        4
    };
    &&& r.len() == (if pose.pos is Some {
        n + 1
    } else {
        n
    })
    &&& mode <= 3 ==> reflect_laws::tells_own_mode(r[0], c.uuid, c.username, mode)
    &&& reflect_laws::sets_mode(r[1], mode)
    &&& reflect_laws::sets_flight(r[2], false)
    &&& reflect_laws::removes_reflected(r[3])
    &&& (abilities matches Some(f) ==> r[4] == PacketView::Raw(f))
    &&& pose.pos is Some ==> (r[n] matches PacketView::Raw(f) && f.packet_id == 72
        && reflect::teleport(f) == Some(reflect::HANDOFF_TELEPORT_ID) && forall|q: BotPose| #[trigger]
        reflect::server_teleport(q, f) == (BotPose {
            pos: pose.pos,
            look: pose.look,
            on_ground: q.on_ground,
        }))
}

/// These packets show a client the bot anew.
pub open spec fn shows_bot(
    r: Seq<PacketView>,
    uuid: u128,
    name: Seq<char>,
    pose: BotPose,
) -> bool {
    &&& r.len() == (if pose.pos is Some {
        4int
    } else {
        2int
    })
    &&& reflect_laws::removes_reflected(r[0])
    &&& reflect_laws::lists_bot(r[1], uuid, name)
    &&& (pose.pos matches Some(pos) ==> r[2] == (PacketView::AddPlayer {
        id: reflect::REFLECTED_ENTITY_ID,
        uuid,
        pos,
        look: pose.look,
    }) && r[3] == (PacketView::TurnHead {
        id: reflect::REFLECTED_ENTITY_ID,
        y_rot: pose.look.y_rot,
    }))
}

/// These packets make a client a spectator that flies.
pub open spec fn makes_spectator(r: Seq<PacketView>, c: ClientView) -> bool {
    &&& r.len() == 3
    &&& reflect_laws::tells_own_mode(r[0], c.uuid, c.username, 3)
    &&& reflect_laws::sets_mode(r[1], 3)
    &&& reflect_laws::sets_flight(r[2], true)
}

/// These packets make a client that was in control a viewer: a spectator, with
/// the state of the bot's screen, that sees the bot.
pub open spec fn makes_viewer(
    r: Seq<PacketView>,
    c: ClientView,
    s: SessionView,
    now: u64,
) -> bool {
    exists|kit: Seq<PacketView>, bot: Seq<PacketView>|
        #![trigger makes_spectator(kit, c), shows_bot(bot, s.bot_uuid, s.bot_name, s.pose)]
        makes_spectator(kit, c) && shows_bot(bot, s.bot_uuid, s.bot_name, s.pose) && r == kit
            + s.cache.world.hud.hud_packets(now) + bot
}

proof fn kit_for_controller(c: ClientView, mode: u8, abilities: Option<FrameView>, pose: BotPose)
    ensures
        makes_controller(
            reflect::controller_packets(c.uuid, c.username, mode) + packet::raw(abilities)
                + packet::raw(reflect::handoff_teleport(pose)),
            c,
            mode,
            abilities,
            pose,
        ),
{
    let kit = reflect::controller_packets(c.uuid, c.username, mode);
    let teleport = reflect::handoff_teleport(pose);
    let r = kit + packet::raw(abilities) + packet::raw(teleport);
    if mode <= 3 {
        reflect_laws::kits_give_the_mode_that_was_asked_for(c.uuid, c.username, mode);
    } else {
        reflect_laws::kits_give_the_mode_that_was_asked_for(c.uuid, c.username, 0);
        reflect_laws::unknown_modes_are_spectator(c.uuid, c.username, mode);
        assert(kit[2] == reflect::controller_packets(c.uuid, c.username, 0)[2]);
        assert(kit[3] == reflect::controller_packets(c.uuid, c.username, 0)[3]);
    }
    assert(r[0] == kit[0] && r[1] == kit[1] && r[2] == kit[2] && r[3] == kit[3]);
    if pose.pos is Some {
        let f = teleport->0;
        reflect::handoff_teleport_carries_its_id(pose);
        assert forall|q: BotPose| #[trigger] reflect::server_teleport(q, f) == (BotPose {
            pos: pose.pos,
            look: pose.look,
            on_ground: q.on_ground,
        }) by {
            reflect::handoff_teleport_lands_on_the_pose(pose, q);
        }
    }
}

proof fn kit_for_viewer(s: SessionView, c: ClientView, now: u64)
    ensures
        makes_viewer(
            reflect::spectator_packets(c.uuid, c.username) + s.cache.world.hud.hud_packets(now)
                + s.bundle(),
            c,
            s,
            now,
        ),
{
    reflect_laws::spectators_are_spectators(c.uuid, c.username);
    reflect_laws::the_bot_is_listed_before_it_is_shown(s.bot_uuid, s.bot_name, s.pose);
    assert(makes_spectator(reflect::spectator_packets(c.uuid, c.username), c));
    assert(shows_bot(s.bundle(), s.bot_uuid, s.bot_name, s.pose));
}

// Steps.

/// What a step does to the packets of every client.
proof fn send_sends(s: SessionView, id: ClientId, packets: Seq<PacketView>, must: bool)
    ensures
        sends(s, s.send(id, packets, must), id, packets),
        forall|v: ClientId| v != id ==> #[trigger] leaves_alone(s, s.send(id, packets, must), v),
        last_told(s.send(id, packets, must).outbox) == last_told(s.outbox),
{
    let a = ActionView::ToClient { id, packets, must };
    session_laws::client_bound_push(s.outbox, a, id);
    told_push(s.outbox, a);
    assert forall|v: ClientId| v != id implies #[trigger] leaves_alone(
        s,
        s.send(id, packets, must),
        v,
    ) by {
        session_laws::client_bound_push(s.outbox, a, v);
    }
}

proof fn feedback_sends(s: SessionView, id: ClientId, msg: Seq<char>)
    requires
        s.clients.contains_key(id),
    ensures
        sends(s, s.feedback(id, msg), id, seq![session_laws::proxy_line(msg)]),
        forall|v: ClientId| v != id ==> #[trigger] leaves_alone(s, s.feedback(id, msg), v),
        last_told(s.feedback(id, msg).outbox) == last_told(s.outbox),
{
    send_sends(s, id, seq![session_laws::proxy_line(msg)], false);
}

proof fn emit_sends(s: SessionView, event: EventView)
    ensures
        forall|v: ClientId| #[trigger] leaves_alone(s, s.ask(ActionView::Emit(event)), v),
        last_told(s.ask(ActionView::Emit(event)).outbox) == (match event {
            EventView::ControlChanged { controller } => Some(controller),
            _ => last_told(s.outbox),
        }),
{
    let a = ActionView::Emit(event);
    told_push(s.outbox, a);
    assert forall|v: ClientId| #[trigger] leaves_alone(s, s.ask(a), v) by {
        session_laws::client_bound_push(s.outbox, a, v);
    }
}

/// A client that is made the controller is sent what makes it one, the host is
/// told, and nobody else notices.
proof fn promotion(s: SessionView, id: ClientId)
    requires
        s.clients.contains_key(id),
    ensures
        ({
            let t = s.promote(id);
            let c = s.clients[id];
            &&& t.controller == Some(id)
            &&& exists|r: Seq<PacketView>| #[trigger]
                makes_controller(r, c, s.real_game_mode, s.abilities, s.pose) && sends(s, t, id, r)
            &&& forall|v: ClientId| v != id ==> #[trigger] leaves_alone(s, t, v)
            &&& last_told(t.outbox) == Some(Some((id, c.username)))
            &&& t.clients == s.clients.insert(
                id,
                ClientView { swallow_next_accept: s.pose.pos is Some, camera_target: None, ..c },
            )
            &&& t.cache == s.cache && t.pose == s.pose && t.opts == s.opts
            &&& t.bot_name == s.bot_name && t.bot_uuid == s.bot_uuid
            &&& t.upstream_state == s.upstream_state
            &&& t.real_game_mode == s.real_game_mode && t.abilities == s.abilities
        }),
{
    let c = s.clients[id];
    let teleport = reflect::handoff_teleport(s.pose);
    let r = reflect::controller_packets(c.uuid, c.username, s.real_game_mode) + packet::raw(
        s.abilities,
    ) + packet::raw(teleport);
    kit_for_controller(c, s.real_game_mode, s.abilities, s.pose);
    send_sends(s, id, r, false);
    let sent = s.send(id, r, false);
    let event = EventView::ControlChanged { controller: Some((id, c.username)) };
    let held = SessionView {
        controller: Some(id),
        ..sent.set_client(
            id,
            ClientView { swallow_next_accept: teleport is Some, camera_target: None, ..c },
        )
    };
    emit_sends(held, event);
    let t = s.promote(id);
    assert(t == held.ask(ActionView::Emit(event)));
    assert(leaves_alone(held, t, id));
    assert(sends(s, t, id, r));
    assert forall|v: ClientId| v != id implies #[trigger] leaves_alone(s, t, v) by {
        assert(leaves_alone(s, sent, v));
        assert(leaves_alone(held, t, v));
    }
}

proof fn demotion(s: SessionView, id: ClientId, now: u64)
    requires
        s.clients.contains_key(id),
    ensures
        ({
            let t = s.demote(id, now);
            let c = s.clients[id];
            &&& exists|r: Seq<PacketView>| #[trigger]
                makes_viewer(r, c, s, now) && sends(s, t, id, r)
            &&& forall|v: ClientId| v != id ==> #[trigger] leaves_alone(s, t, v)
            &&& last_told(t.outbox) == last_told(s.outbox)
            &&& t == (SessionView {
                clients: s.clients.insert(id, ClientView { camera_target: None, ..c }),
                outbox: t.outbox,
                ..s
            })
        }),
{
    let c = s.clients[id];
    let r = reflect::spectator_packets(c.uuid, c.username) + s.cache.world.hud.hud_packets(now)
        + s.bundle();
    kit_for_viewer(s, c, now);
    send_sends(s, id, r, false);
    let sent = s.send(id, r, false);
    let t = s.demote(id, now);
    assert(t.outbox == sent.outbox);
    assert(sends(s, t, id, r));
    assert forall|v: ClientId| v != id implies #[trigger] leaves_alone(s, t, v) by {
        assert(leaves_alone(s, sent, v));
    }
}

// Commands.

/// Whoever acquires control is made the controller, with the session player's
/// mode and abilities and where the bot is, and is told so. Whoever had control
/// is made a viewer that sees the bot, and is told so. Nobody else notices, but
/// for the host, who is told.
#[verifier::rlimit(40)]
pub proof fn acquiring_hands_over(s: SessionView, id: ClientId, now: u64)
    requires
        s.clients.contains_key(id),
        s.controller != Some(id),
        s.controller matches Some(other) ==> s.clients.contains_key(other),
    ensures
        ({
            let t = s.cmd_acquire(id, now);
            &&& t.controller == Some(id)
            &&& last_told(t.outbox) == Some(Some((id, s.clients[id].username)))
            &&& exists|r: Seq<PacketView>| #[trigger]
                makes_controller(r, s.clients[id], s.real_game_mode, s.abilities, s.pose) && sends(
                    s,
                    t,
                    id,
                    r.push(session_laws::proxy_line("you have control now"@)),
                )
            &&& t.clients[id] == (ClientView {
                swallow_next_accept: s.pose.pos is Some,
                camera_target: None,
                ..s.clients[id]
            })
            &&& (s.controller matches Some(other) ==> t.clients[other] == (ClientView {
                camera_target: None,
                ..s.clients[other]
            }) && exists|r: Seq<PacketView>| #[trigger]
                makes_viewer(r, s.clients[other], s, now) && sends(
                    s,
                    t,
                    other,
                    r.push(
                        session_laws::proxy_line("your control was taken by another client"@),
                    ),
                ))
            &&& forall|v: ClientId|
                v != id && s.controller != Some(v) ==> #[trigger] leaves_alone(s, t, v)
                    && t.clients.contains_key(v) == s.clients.contains_key(v) && t.clients[v]
                    == s.clients[v]
        }),
{
    let taken_line = "your control was taken by another client"@;
    let now_line = "you have control now"@;
    let free = SessionView { controller: None, ..s };
    let taken = match s.controller {
        Some(other) => free.demote(other, now).feedback(other, taken_line),
        None => s,
    };
    if let Some(other) = s.controller {
        demotion(free, other, now);
        let d = free.demote(other, now);
        feedback_sends(d, other, taken_line);
        assert forall|v: ClientId| v != other implies #[trigger] leaves_alone(s, taken, v) by {
            assert(leaves_alone(free, d, v));
            assert(leaves_alone(d, taken, v));
        }
        let r = choose|r: Seq<PacketView>| #[trigger]
            makes_viewer(r, s.clients[other], free, now) && sends(free, d, other, r);
        assert(makes_viewer(r, s.clients[other], s, now)) by {
            let (kit, bot) = choose|kit: Seq<PacketView>, bot: Seq<PacketView>|
                #![trigger makes_spectator(kit, s.clients[other]), shows_bot(bot, free.bot_uuid, free.bot_name, free.pose)]
                makes_spectator(kit, s.clients[other]) && shows_bot(
                    bot,
                    free.bot_uuid,
                    free.bot_name,
                    free.pose,
                ) && r == kit + free.cache.world.hud.hud_packets(now) + bot;
            assert(shows_bot(bot, s.bot_uuid, s.bot_name, s.pose));
        }
        let was = session_laws::client_bound(s.outbox, other);
        assert(was + r + seq![session_laws::proxy_line(taken_line)] =~= was + r.push(
            session_laws::proxy_line(taken_line),
        ));
        assert(sends(s, taken, other, r.push(session_laws::proxy_line(taken_line))));
    } else {
        assert forall|v: ClientId| #[trigger] leaves_alone(s, taken, v) by {}
    }
    assert(leaves_alone(s, taken, id));
    promotion(taken, id);
    let p = taken.promote(id);
    feedback_sends(p, id, now_line);
    let t = p.feedback(id, now_line);
    assert(t == s.cmd_acquire(id, now));
    assert(taken.clients[id] == s.clients[id]);
    let r = choose|r: Seq<PacketView>| #[trigger]
        makes_controller(r, taken.clients[id], taken.real_game_mode, taken.abilities, taken.pose)
            && sends(taken, p, id, r);
    let was = session_laws::client_bound(s.outbox, id);
    assert(was + r + seq![session_laws::proxy_line(now_line)] =~= was + r.push(
        session_laws::proxy_line(now_line),
    ));
    assert(sends(s, t, id, r.push(session_laws::proxy_line(now_line))));
    assert(makes_controller(r, s.clients[id], s.real_game_mode, s.abilities, s.pose));
    assert forall|v: ClientId| v != id implies #[trigger] leaves_alone(taken, t, v) by {
        assert(leaves_alone(taken, p, v));
        assert(leaves_alone(p, t, v));
    }
    if let Some(other) = s.controller {
        let r = choose|r: Seq<PacketView>| #[trigger]
            makes_viewer(r, s.clients[other], s, now) && sends(
                s,
                taken,
                other,
                r.push(session_laws::proxy_line(taken_line)),
            );
        assert(leaves_alone(taken, t, other));
        assert(sends(s, t, other, r.push(session_laws::proxy_line(taken_line))));
    }
    assert forall|v: ClientId| v != id && s.controller != Some(v) implies #[trigger] leaves_alone(
        s,
        t,
        v,
    ) && t.clients.contains_key(v) == s.clients.contains_key(v) && t.clients[v]
        == s.clients[v] by {
        assert(leaves_alone(s, taken, v));
        assert(leaves_alone(taken, t, v));
    }
}

/// Whoever gives up control is made a viewer that sees the bot, and is told so;
/// the host is told who has control then: the heir, or nobody. Who is not in
/// control gives up nothing.
#[verifier::rlimit(40)]
pub proof fn releasing_hands_back(s: SessionView, id: ClientId, now: u64)
    requires
        session_laws::sound(s),
        s.clients.contains_key(id),
    ensures
        ({
            let t = s.cmd_release(id, now);
            if s.controller == Some(id) {
                &&& last_told(t.outbox) == Some(
                    match t.controller {
                        Some(heir) => Some((heir, s.clients[heir].username)),
                        None => None,
                    },
                )
                &&& exists|r: Seq<PacketView>| #[trigger]
                    makes_viewer(r, s.clients[id], s, now) && sends(
                        s,
                        t,
                        id,
                        r.push(
                            session_laws::proxy_line(
                                "control released; proxy is keeping the session alive"@,
                            ),
                        ),
                    )
                &&& (t.controller matches Some(heir) ==> exists|r: Seq<PacketView>| #[trigger]
                    makes_controller(
                        r,
                        s.clients[heir],
                        s.real_game_mode,
                        s.abilities,
                        s.pose,
                    ) && sends(
                        s,
                        t,
                        heir,
                        r.push(session_laws::proxy_line("you have control now"@)),
                    ))
            } else {
                &&& t.controller == s.controller && t.clients == s.clients
                &&& last_told(t.outbox) == last_told(s.outbox)
                &&& sends(
                    s,
                    t,
                    id,
                    seq![session_laws::proxy_line("you are not the controller"@)],
                )
            }
        }),
{
    if s.controller == Some(id) {
        let free = SessionView { controller: None, ..s };
        let gone_line = "control released; proxy is keeping the session alive"@;
        let now_line = "you have control now"@;
        demotion(free, id, now);
        let d = free.demote(id, now);
        feedback_sends(d, id, gone_line);
        let u = d.feedback(id, gone_line);
        let r = choose|r: Seq<PacketView>| #[trigger]
            makes_viewer(r, s.clients[id], free, now) && sends(free, d, id, r);
        assert(makes_viewer(r, s.clients[id], s, now)) by {
            let (kit, bot) = choose|kit: Seq<PacketView>, bot: Seq<PacketView>|
                #![trigger makes_spectator(kit, s.clients[id]), shows_bot(bot, free.bot_uuid, free.bot_name, free.pose)]
                makes_spectator(kit, s.clients[id]) && shows_bot(
                    bot,
                    free.bot_uuid,
                    free.bot_name,
                    free.pose,
                ) && r == kit + free.cache.world.hud.hud_packets(now) + bot;
            assert(shows_bot(bot, s.bot_uuid, s.bot_name, s.pose));
        }
        let was = session_laws::client_bound(s.outbox, id);
        assert(was + r + seq![session_laws::proxy_line(gone_line)] =~= was + r.push(
            session_laws::proxy_line(gone_line),
        ));
        assert(sends(s, u, id, r.push(session_laws::proxy_line(gone_line))));
        let t = u.pass_on_control(id, now_line);
        assert(t == s.cmd_release(id, now));
        assert(u.clients.dom() =~= s.clients.dom());
        session_laws::the_oldest_live_client_inherits(u, id);
        match (u.opts.always_first_control, u.oldest_live(id)) {
            (true, Some(heir)) => {
                assert(u.live(heir) && heir != id);
                assert(u.clients[heir] == s.clients[heir]);
                promotion(u, heir);
                let p = u.promote(heir);
                feedback_sends(p, heir, now_line);
                let k = choose|k: Seq<PacketView>| #[trigger]
                    makes_controller(k, u.clients[heir], u.real_game_mode, u.abilities, u.pose)
                        && sends(u, p, heir, k);
                assert(leaves_alone(free, d, heir));
                assert(leaves_alone(d, u, heir));
                let was = session_laws::client_bound(s.outbox, heir);
                assert(was + k + seq![session_laws::proxy_line(now_line)] =~= was + k.push(
                    session_laws::proxy_line(now_line),
                ));
                assert(sends(s, t, heir, k.push(session_laws::proxy_line(now_line))));
                assert(makes_controller(
                    k,
                    s.clients[heir],
                    s.real_game_mode,
                    s.abilities,
                    s.pose,
                ));
                assert(leaves_alone(u, p, id));
                assert(leaves_alone(p, t, id));
            },
            _ => {
                emit_sends(u, EventView::ControlChanged { controller: None });
                assert(leaves_alone(u, t, id));
            },
        }
        assert(sends(s, t, id, r.push(session_laws::proxy_line(gone_line))));
    } else {
        feedback_sends(s, id, "you are not the controller"@);
    }
}

/// A client that is gone leaves the others as they are. Where it was in control,
/// the host is told who is: the heir, who is made the controller and told so, or
/// nobody. Where it was not, control stays where it is.
#[verifier::rlimit(40)]
pub proof fn control_survives_its_holder(s: SessionView, id: ClientId)
    requires
        session_laws::sound(s),
        s.clients.contains_key(id),
    ensures
        ({
            let t = s.drop_client(id);
            &&& s.controller != Some(id) ==> t.controller == s.controller && last_told(t.outbox)
                == last_told(s.outbox)
            &&& s.controller == Some(id) ==> last_told(t.outbox) == Some(
                match t.controller {
                    Some(heir) => Some((heir, s.clients[heir].username)),
                    None => None,
                },
            )
            &&& s.controller == Some(id) ==> (t.controller matches Some(heir) ==> exists|
                r: Seq<PacketView>,
            | #[trigger]
                makes_controller(r, s.clients[heir], s.real_game_mode, s.abilities, s.pose)
                    && sends(
                    s,
                    t,
                    heir,
                    r.push(
                        session_laws::proxy_line(
                            "previous controller left — you have control now"@,
                        ),
                    ),
                ))
            &&& forall|v: ClientId|
                v != id && (s.controller != Some(id) || t.controller != Some(v)) ==> (
                #[trigger] leaves_alone(s, t, v)) && t.clients.contains_key(v)
                    == s.clients.contains_key(v) && t.clients[v] == s.clients[v]
        }),
{
    let msg = "previous controller left — you have control now"@;
    let out = SessionView { clients: s.clients.remove(id), ..s };
    let event = EventView::ClientLeft { id, username: s.clients[id].username };
    emit_sends(out, event);
    let a = out.ask(ActionView::Emit(event));
    let close = ActionView::Close { id };
    let left = a.ask(close);
    told_push(a.outbox, close);
    assert forall|v: ClientId| #[trigger] leaves_alone(s, left, v) by {
        assert(leaves_alone(out, a, v));
        session_laws::client_bound_push(a.outbox, close, v);
    }
    let t = s.drop_client(id);
    if s.controller == Some(id) {
        let u = SessionView { controller: None, ..left };
        assert(u.clients.dom() =~= s.clients.dom().remove(id));
        session_laws::the_oldest_live_client_inherits(u, id);
        match (u.opts.always_first_control, u.oldest_live(id)) {
            (true, Some(heir)) => {
                assert(u.live(heir) && heir != id);
                assert(u.clients[heir] == s.clients[heir]);
                promotion(u, heir);
                let p = u.promote(heir);
                feedback_sends(p, heir, msg);
                let k = choose|k: Seq<PacketView>| #[trigger]
                    makes_controller(k, u.clients[heir], u.real_game_mode, u.abilities, u.pose)
                        && sends(u, p, heir, k);
                let was = session_laws::client_bound(s.outbox, heir);
                assert(leaves_alone(s, left, heir));
                assert(was + k + seq![session_laws::proxy_line(msg)] =~= was + k.push(
                    session_laws::proxy_line(msg),
                ));
                assert(sends(s, t, heir, k.push(session_laws::proxy_line(msg))));
                assert(makes_controller(
                    k,
                    s.clients[heir],
                    s.real_game_mode,
                    s.abilities,
                    s.pose,
                ));
                assert forall|v: ClientId| v != id && v != heir implies (#[trigger] leaves_alone(
                    s,
                    t,
                    v,
                )) && t.clients.contains_key(v) == s.clients.contains_key(v) && t.clients[v]
                    == s.clients[v] by {
                    assert(leaves_alone(s, left, v));
                    assert(leaves_alone(u, p, v));
                    assert(leaves_alone(p, t, v));
                }
            },
            _ => {
                let none = EventView::ControlChanged { controller: None };
                emit_sends(u, none);
                assert(t == u.ask(ActionView::Emit(none)));
                assert forall|v: ClientId| v != id implies (#[trigger] leaves_alone(s, t, v))
                    && t.clients.contains_key(v) == s.clients.contains_key(v) && t.clients[v]
                    == s.clients[v] by {
                    assert(leaves_alone(s, left, v));
                    assert(leaves_alone(u, t, v));
                }
            },
        }
    }
}

/// Who is no client and not in control cannot leave: nothing changes.
pub proof fn strangers_cannot_leave(s: SessionView, id: ClientId)
    requires
        !s.clients.contains_key(id),
        s.controller != Some(id),
    ensures
        s.drop_client(id) == s,
{
}

/// Where there is room, a client that attaches is known by its name and uuid and
/// the host is told; it waits for the Login, or is sent the configuration where
/// there has been one. Where there is none it is turned away, and nothing else
/// changes. Nobody else notices.
pub proof fn clients_attach(s: SessionView, id: ClientId, username: Seq<char>, uuid: u128)
    requires
        s.clients.dom().finite(),
    ensures
        ({
            let t = s.attach(id, username, uuid);
            let full = s.opts.max_clients matches Some(max) && s.clients.dom().len() >= max;
            &&& t.controller == s.controller && last_told(t.outbox) == last_told(s.outbox)
            &&& full ==> t.clients == s.clients && t.outbox == s.outbox.push(
                ActionView::Refuse { id },
            )
            &&& !full ==> {
                &&& t.clients == s.clients.insert(
                    id,
                    ClientView {
                        state: if s.cache.login is Some {
                            ClientState::Joining
                        } else {
                            ClientState::Parked
                        },
                        username,
                        uuid,
                        swallow_next_accept: false,
                        camera_target: None,
                    },
                )
                &&& t.outbox[s.outbox.len() as int] == ActionView::Emit(
                    EventView::ClientJoined { id, username },
                )
                &&& sends(
                    s,
                    t,
                    id,
                    if s.cache.login is Some {
                        s.cache.config_packets()
                    } else {
                        Seq::empty()
                    },
                )
            }
            &&& forall|v: ClientId| v != id ==> #[trigger] leaves_alone(s, t, v)
        }),
{
    session_laws::order_counts(s);
    let t = s.attach(id, username, uuid);
    let event = EventView::ClientJoined { id, username };
    emit_sends(s, event);
    let told = s.ask(ActionView::Emit(event));
    if s.opts.max_clients matches Some(max) && s.clients.dom().len() >= max {
        let a = ActionView::Refuse { id };
        told_push(s.outbox, a);
        assert forall|v: ClientId| v != id implies #[trigger] leaves_alone(s, t, v) by {
            session_laws::client_bound_push(s.outbox, a, v);
        }
    } else {
        let c = ClientView {
            state: ClientState::Parked,
            username,
            uuid,
            swallow_next_accept: false,
            camera_target: None,
        };
        let joined = told.set_client(id, c);
        if s.cache.login is Some {
            send_sends(joined, id, s.cache.config_packets(), true);
            assert(t.clients =~= s.clients.insert(
                id,
                ClientView { state: ClientState::Joining, ..c },
            ));
        }
        let was = session_laws::client_bound(s.outbox, id);
        assert(was + Seq::<PacketView>::empty() =~= was);
        assert(leaves_alone(s, told, id));
        assert forall|v: ClientId| v != id implies #[trigger] leaves_alone(s, t, v) by {
            assert(leaves_alone(s, told, v));
            if s.cache.login is Some {
                assert(leaves_alone(joined, joined.send(id, s.cache.config_packets(), true), v));
            }
        }
    }
}

/// Whatever a viewer sends that is no command changes nothing, but for the end
/// of the configuration from a client that is to confirm it.
pub proof fn viewers_change_nothing(
    s: SessionView,
    id: ClientId,
    frame: FrameView,
    chat: Option<Seq<char>>,
    routed: Seq<FrameView>,
    now: u64,
)
    requires
        s.controller != Some(id),
        !(s.in_game() && frame.packet_id == 9 && chat is Some && chat->0.len() > 0 && chat->0[0]
            == ','),
        !(s.clients.contains_key(id) && s.clients[id].state == ClientState::Joining
            && frame.packet_id == 3),
    ensures
        s.on_client_frame(id, frame, chat, routed, now) == s,
{
}

/// A line in chat that starts with a comma never reaches the server, whoever
/// types it.
pub proof fn lines_with_a_comma_stay_in_the_proxy(
    s: SessionView,
    id: ClientId,
    frame: FrameView,
    line: Seq<char>,
    routed: Seq<FrameView>,
    now: u64,
)
    requires
        s.in_game(),
        frame.packet_id == 9,
        line.len() > 0,
        line[0] == ',',
    ensures
        session_laws::server_bound(s.on_client_frame(id, frame, Some(line), routed, now).outbox)
            == session_laws::server_bound(s.outbox),
{
    session_laws::commands_stay_in_the_proxy(s, id, frame, Some(line), routed, now);
}

/// All that the controller sends reaches the server, as the plugins made it, but
/// for lines that start with a comma, keep-alive replies, and the accept of the
/// proxy's own teleport while that is still to come.
pub proof fn all_else_of_the_controller_is_heard(
    s: SessionView,
    id: ClientId,
    frame: FrameView,
    chat: Option<Seq<char>>,
    routed: Seq<FrameView>,
    now: u64,
)
    requires
        s.controller == Some(id),
        s.clients.contains_key(id),
    ensures
        ({
            let line = s.in_game() && frame.packet_id == 9 && chat is Some && chat->0.len() > 0
                && chat->0[0] == ',';
            let alive = frame.packet_id == (if s.in_game() {
                28u32
            } else {
                4u32
            });
            let own = s.in_game() && frame.packet_id == 0 && s.clients[id].swallow_next_accept
                && reflect::teleport(frame) == Some(0x5EC7A11u32);
            let heard = session_laws::server_bound(
                s.on_client_frame(id, frame, chat, routed, now).outbox,
            );
            &&& line || alive || own ==> heard == session_laws::server_bound(s.outbox)
            &&& !line && !alive && !own ==> heard == session_laws::server_bound(s.outbox) + routed
        }),
{
    session_laws::the_controller_is_heard(s, id, frame, chat, routed, now);
}

/// A line that starts with a comma is a command: its first word says which, and
/// what follows the first space, trimmed, is its argument. White space behind it
/// does not count.
pub proof fn commands_go_by_their_first_word(
    s: SessionView,
    id: ClientId,
    frame: FrameView,
    rest: Seq<char>,
    routed: Seq<FrameView>,
    now: u64,
)
    requires
        s.in_game(),
        frame.packet_id == 9,
        rest.len() > 0,
        !text::is_space(rest.last()),
    ensures
        ({
            let arg = text::trimmed(rest);
            let none = Seq::<char>::empty();
            &&& says(s, id, frame, ",acquire"@, routed, now) == s.cmd_acquire(id, now)
            &&& says(s, id, frame, ",release"@, routed, now) == s.cmd_release(id, now)
            &&& says(s, id, frame, ",spectate"@, routed, now) == s.cmd_spectate(id, none, now)
            &&& says(s, id, frame, ",spectate"@.push(' ') + rest, routed, now) == s.cmd_spectate(
                id,
                arg,
                now,
            )
            &&& says(s, id, frame, ",gamemode"@.push(' ') + rest, routed, now) == s.cmd_gamemode(
                id,
                arg,
            )
            &&& says(s, id, frame, ",gm"@.push(' ') + rest, routed, now) == s.cmd_gamemode(id, arg)
            &&& says(s, id, frame, ",acquire"@.push(' ') + rest, routed, now) == s.cmd_acquire(
                id,
                now,
            )
            &&& says(s, id, frame, ",release"@.push(' ') + rest, routed, now) == s.cmd_release(
                id,
                now,
            )
        }),
{
    let arg = text::trimmed(rest);
    let none = Seq::<char>::empty();
    verbs_differ();
    verb_said(s, id, frame, ",acquire"@, rest, routed, now);
    dispatched(s, id, ",acquire"@, ",acquire"@, none, now);
    dispatched(s, id, ",acquire"@.push(' ') + rest, ",acquire"@, arg, now);
    verb_said(s, id, frame, ",release"@, rest, routed, now);
    dispatched(s, id, ",release"@, ",release"@, none, now);
    dispatched(s, id, ",release"@.push(' ') + rest, ",release"@, arg, now);
    verb_said(s, id, frame, ",spectate"@, rest, routed, now);
    dispatched(s, id, ",spectate"@, ",spectate"@, none, now);
    dispatched(s, id, ",spectate"@.push(' ') + rest, ",spectate"@, arg, now);
    verb_said(s, id, frame, ",gamemode"@, rest, routed, now);
    dispatched(s, id, ",gamemode"@.push(' ') + rest, ",gamemode"@, arg, now);
    verb_said(s, id, frame, ",gm"@, rest, routed, now);
    dispatched(s, id, ",gm"@.push(' ') + rest, ",gm"@, arg, now);
}

/// A text of visible characters that starts with a comma.
spec fn is_verb(verb: Seq<char>) -> bool {
    &&& verb.len() > 0
    &&& verb[0] == ','
    &&& forall|i: int| 0 <= i < verb.len() ==> !text::is_space(#[trigger] verb[i])
}

proof fn verbs_differ()
    ensures
        is_verb(",acquire"@) && is_verb(",release"@) && is_verb(",spectate"@),
        is_verb(",gamemode"@) && is_verb(",gm"@),
        ",acquire"@ != ",release"@ && ",acquire"@ != ",spectate"@ && ",acquire"@ != ",gamemode"@,
        ",acquire"@ != ",gm"@ && ",release"@ != ",spectate"@ && ",release"@ != ",gamemode"@,
        ",release"@ != ",gm"@ && ",spectate"@ != ",gamemode"@ && ",spectate"@ != ",gm"@,
{
    reveal_strlit(",acquire");
    reveal_strlit(",release");
    reveal_strlit(",spectate");
    reveal_strlit(",gamemode");
    reveal_strlit(",gm");
    assert(",acquire"@[1] == 'a' && ",release"@[1] == 'r' && ",spectate"@[1] == 's');
    assert(",gamemode"@[1] == 'g' && ",gm"@[1] == 'g');
}

proof fn dispatched(
    s: SessionView,
    id: ClientId,
    cmd: Seq<char>,
    verb: Seq<char>,
    arg: Seq<char>,
    now: u64,
)
    requires
        session::command_parts(cmd) == (verb, arg),
    ensures
        verb == ",acquire"@ ==> s.handle_command(id, cmd, now) == s.cmd_acquire(id, now),
        verb == ",release"@ ==> s.handle_command(id, cmd, now) == s.cmd_release(id, now),
        verb == ",spectate"@ ==> s.handle_command(id, cmd, now) == s.cmd_spectate(id, arg, now),
        verb == ",gamemode"@ || verb == ",gm"@ ==> s.handle_command(id, cmd, now)
            == s.cmd_gamemode(id, arg),
{
    verbs_differ();
}

/// A client says a line.
#[verifier::opaque]
pub open spec fn says(
    s: SessionView,
    id: ClientId,
    frame: FrameView,
    line: Seq<char>,
    routed: Seq<FrameView>,
    now: u64,
) -> SessionView {
    s.on_client_frame(id, frame, Some(line), routed, now)
}

#[verifier::rlimit(40)]
proof fn verb_said(
    s: SessionView,
    id: ClientId,
    frame: FrameView,
    verb: Seq<char>,
    rest: Seq<char>,
    routed: Seq<FrameView>,
    now: u64,
)
    requires
        s.in_game(),
        frame.packet_id == 9,
        is_verb(verb),
        rest.len() > 0,
        !text::is_space(rest.last()),
    ensures
        says(s, id, frame, verb, routed, now) == s.handle_command(id, verb, now),
        says(s, id, frame, verb.push(' ') + rest, routed, now) == s.handle_command(
            id,
            verb.push(' ') + rest,
            now,
        ),
        session::command_parts(verb) == (verb, Seq::<char>::empty()),
        session::command_parts(verb.push(' ') + rest) == (verb, text::trimmed(rest)),
{
    reveal(says);
    if verb.contains(' ') {
        let i = choose|i: int| 0 <= i < verb.len() && verb[i] == ' ';
        assert(!text::is_space(verb[i]));
    }
    text_laws::a_command_is_its_first_word(verb, rest);
    assert(!text::is_space(verb[0]));
    assert(!text::is_space(verb[verb.len() - 1]));
    text_laws::trimmed_texts_stay(verb);
    let line = verb.push(' ') + rest;
    assert(line[0] == ',' && line.last() == rest.last());
    text_laws::trimmed_texts_stay(line);
}

/// Any other command changes nothing; who typed it is told what there is.
pub proof fn unknown_commands_change_nothing(
    s: SessionView,
    id: ClientId,
    verb: Seq<char>,
    now: u64,
)
    requires
        s.clients.contains_key(id),
        !verb.contains(' '),
        verb != ",acquire"@,
        verb != ",release"@,
        verb != ",spectate"@,
        verb != ",gamemode"@,
        verb != ",gm"@,
    ensures
        ({
            let t = s.handle_command(id, verb, now);
            &&& t == (SessionView { outbox: t.outbox, ..s })
            &&& sends(
                s,
                t,
                id,
                seq![
                    session_laws::proxy_line(
                        "commands: ,acquire ,release ,spectate [player] ,gamemode <0-3|name>"@,
                    ),
                ],
            )
            &&& last_told(t.outbox) == last_told(s.outbox)
            &&& forall|v: ClientId| v != id ==> #[trigger] leaves_alone(s, t, v)
        }),
{
    text_laws::a_command_is_its_first_word(verb, Seq::empty());
    feedback_sends(
        s,
        id,
        "commands: ,acquire ,release ,spectate [player] ,gamemode <0-3|name>"@,
    );
}

/// A viewer that asks for a game mode by its number or name gets that mode, in
/// its own entry and by the game event, and is told so; the session is left as
/// it is. A text that names no mode gives none, and neither does one from the
/// controller.
pub proof fn viewers_choose_their_mode(s: SessionView, id: ClientId, arg: Seq<char>, mode: u8)
    requires
        s.clients.contains_key(id),
    ensures
        ({
            let t = s.cmd_gamemode(id, arg);
            let named = mode < 4 && (text::same_text(arg, text_laws::decimal(mode as nat))
                || text::same_text(arg, text_laws::mode_names()[mode as int]));
            let c = s.clients[id];
            &&& t == (SessionView { outbox: t.outbox, ..s })
            &&& forall|v: ClientId| v != id ==> #[trigger] leaves_alone(s, t, v)
            &&& last_told(t.outbox) == last_told(s.outbox)
            &&& session_laws::server_bound(t.outbox) == session_laws::server_bound(s.outbox)
            &&& named && s.controller != Some(id) ==> exists|r: Seq<PacketView>|
                #![trigger sends(s, t, id, r)]
                sends(s, t, id, r) && r.len() == 3 && reflect_laws::tells_own_mode(
                    r[0],
                    c.uuid,
                    c.username,
                    mode,
                ) && reflect_laws::sets_mode(r[1], mode) && r[2] == session_laws::proxy_line(
                    "client-side game mode updated"@,
                )
            &&& s.controller == Some(id) ==> sends(
                s,
                t,
                id,
                seq![
                    session_laws::proxy_line(
                        "not while controlling — it would desync your client"@,
                    ),
                ],
            )
            &&& s.controller != Some(id) && session::named_mode(arg) is None ==> sends(
                s,
                t,
                id,
                seq![
                    session_laws::proxy_line(
                        "usage: ,gamemode <survival|creative|adventure|spectator|0-3>"@,
                    ),
                ],
            )
        }),
{
    text_laws::modes_go_by_number_and_by_name(arg, mode);
    let c = s.clients[id];
    let t = s.cmd_gamemode(id, arg);
    let updated = "client-side game mode updated"@;
    if s.controller == Some(id) {
        let msg = "not while controlling — it would desync your client"@;
        feedback_sends(s, id, msg);
        session_laws::server_bound_push(
            s.outbox,
            ActionView::ToClient { id, packets: seq![session_laws::proxy_line(msg)], must: false },
        );
    } else if let Some(got) = session::named_mode(arg) {
        let kit = reflect::gamemode_packets(c.uuid, c.username, got);
        send_sends(s, id, kit, false);
        let sent = s.send(id, kit, false);
        feedback_sends(sent, id, updated);
        text_laws::modes_go_by_number_and_by_name(arg, got);
        reflect_laws::kits_give_the_mode_that_was_asked_for(c.uuid, c.username, got);
        let r = kit.push(session_laws::proxy_line(updated));
        let was = session_laws::client_bound(s.outbox, id);
        assert(was + kit + seq![session_laws::proxy_line(updated)] =~= was + r);
        assert(sends(s, t, id, r));
        assert(r[0] == kit[0] && r[1] == kit[1]);
        assert forall|v: ClientId| v != id implies #[trigger] leaves_alone(s, t, v) by {
            assert(leaves_alone(s, sent, v));
            assert(leaves_alone(sent, t, v));
        }
        session_laws::server_bound_push(
            s.outbox,
            ActionView::ToClient { id, packets: kit, must: false },
        );
        session_laws::server_bound_push(
            sent.outbox,
            ActionView::ToClient {
                id,
                packets: seq![session_laws::proxy_line(updated)],
                must: false,
            },
        );
    } else {
        let msg = "usage: ,gamemode <survival|creative|adventure|spectator|0-3>"@;
        feedback_sends(s, id, msg);
        session_laws::server_bound_push(
            s.outbox,
            ActionView::ToClient { id, packets: seq![session_laws::proxy_line(msg)], must: false },
        );
    }
}

/// The packet puts the camera on this entity.
pub open spec fn puts_camera(p: PacketView, id: i32) -> bool {
    p matches PacketView::Raw(f) && f.packet_id == 93 && wire::read_varint(f.body) == Some(
        (wire::unsigned(id), f.body.len()),
    )
}

/// These packets show a client the bot's screen through an entity: the session
/// player's game mode, the state of its screen, and the camera on the entity.
pub open spec fn locks_camera(
    r: Seq<PacketView>,
    c: ClientView,
    mode: u8,
    hud: Seq<PacketView>,
    target: i32,
) -> bool {
    &&& r.len() == hud.len() + 4
    &&& mode <= 3 ==> reflect_laws::tells_own_mode(r[0], c.uuid, c.username, mode)
    &&& reflect_laws::sets_mode(r[1], mode)
    &&& reflect_laws::sets_flight(r[2], true)
    &&& r.subrange(3, 3int + hud.len()) == hud
    &&& puts_camera(r.last(), target)
}

/// These packets give a client its own camera back, and make it a spectator.
pub open spec fn releases_camera(r: Seq<PacketView>, c: ClientView, own: i32) -> bool {
    &&& r.len() == 4
    &&& puts_camera(r[0], own)
    &&& makes_spectator(r.skip(1), c)
}

/// A viewer that spectates without a name looks through the bot, and so does one
/// that gives the bot's name; one that gives the name of a listed player in
/// sight looks through that player. It sees the bot's screen. Spectating the
/// same again gives it its own camera back and makes it a spectator. Otherwise
/// it is told that there is no such player; the controller is told to release
/// first.
#[verifier::rlimit(40)]
pub proof fn viewers_look_through_whom_they_name(
    s: SessionView,
    id: ClientId,
    name: Seq<char>,
    now: u64,
)
    requires
        s.clients.contains_key(id),
        s.cache.world.entities.entities.dom().finite(),
        s.cache.world.players.players.dom().finite(),
        s.cache.world.players.keyed(),
    ensures
        ({
            let t = s.cmd_spectate(id, name, now);
            let c = s.clients[id];
            let w = s.cache.world;
            let bot = name.len() == 0 || text::same_text(name, s.bot_name);
            &&& t.controller == s.controller && t.cache == s.cache
            &&& last_told(t.outbox) == last_told(s.outbox)
            &&& forall|v: ClientId| v != id ==> (#[trigger] leaves_alone(s, t, v))
                && t.clients.contains_key(v) == s.clients.contains_key(v) && t.clients[v]
                == s.clients[v]
            &&& s.controller == Some(id) ==> t.clients == s.clients && sends(
                s,
                t,
                id,
                seq![
                    session_laws::proxy_line(
                        ",release first — the controller cannot spectate"@,
                    ),
                ],
            )
            &&& s.controller != Some(id) ==> {
                ||| exists|target: i32| #[trigger]
                    looks_through(s, t, id, target, now) && (if bot {
                        target == reflect::REFLECTED_ENTITY_ID
                    } else {
                        w.entities.entities.contains_key(target) && entity_laws::goes_by(
                            w.players,
                            w.entities.entities[target].uuid,
                            name,
                        )
                    })
                ||| !bot && w.player_target(name) is None && t.clients == s.clients && sends(
                    s,
                    t,
                    id,
                    seq![
                        session_laws::proxy_line("player not found (not in render distance?)"@),
                    ],
                )
            }
        }),
{
    let t = s.cmd_spectate(id, name, now);
    let c = s.clients[id];
    let w = s.cache.world;
    if s.controller == Some(id) {
        feedback_sends(s, id, ",release first — the controller cannot spectate"@);
    } else {
        entity_laws::the_player_in_sight_is_the_one_named(w, name);
        match s.spectate_target(name) {
            None => {
                feedback_sends(s, id, "player not found (not in render distance?)"@);
            },
            Some(target) => {
                camera_moves(s, id, name, target, now);
                assert(looks_through(s, t, id, target, now));
            },
        }
    }
}

/// The entity that a viewer's camera returns to: the viewer has taken over the
/// id of the session player. Where that is not known it stays where it is.
pub open spec fn own_camera(s: SessionView, target: i32) -> i32 {
    match s.real_player_id {
        Some(own) => own,
        None => target,
    }
}

/// A client is made to look through an entity, or is given its own camera back
/// where it looks through that entity already.
pub open spec fn looks_through(
    s: SessionView,
    t: SessionView,
    id: ClientId,
    target: i32,
    now: u64,
) -> bool {
    let c = s.clients[id];
    let hud = s.cache.world.hud.hud_packets(now);
    if c.camera_target != Some(target) {
        &&& t.clients[id] == (ClientView { camera_target: Some(target), ..c })
        &&& exists|r: Seq<PacketView>| #[trigger]
            locks_camera(r, c, s.real_game_mode, hud, target) && sends(
                s,
                t,
                id,
                r.push(session_laws::proxy_line("camera locked — ,spectate again to release"@)),
            )
    } else {
        &&& t.clients[id] == (ClientView { camera_target: None, ..c })
        &&& exists|r: Seq<PacketView>| #[trigger]
            releases_camera(r, c, own_camera(s, target)) && sends(s, t, id, r.push(session_laws::proxy_line("camera released"@)))
    }
}

#[verifier::rlimit(40)]
proof fn camera_moves(s: SessionView, id: ClientId, name: Seq<char>, target: i32, now: u64)
    requires
        s.clients.contains_key(id),
        s.controller != Some(id),
        s.spectate_target(name) == Some(target),
    ensures
        ({
            let t = s.cmd_spectate(id, name, now);
            &&& looks_through(s, t, id, target, now)
            &&& t.controller == s.controller && t.cache == s.cache
            &&& last_told(t.outbox) == last_told(s.outbox)
            &&& forall|v: ClientId| v != id ==> (#[trigger] leaves_alone(s, t, v))
                && t.clients.contains_key(v) == s.clients.contains_key(v) && t.clients[v]
                == s.clients[v]
        }),
{
    let t = s.cmd_spectate(id, name, now);
    let c = s.clients[id];
    let hud = s.cache.world.hud.hud_packets(now);
    let mode = s.real_game_mode;
    let locks = c.camera_target != Some(target);
    let own = own_camera(s, target);
    let r = if locks {
        s.lock_packets(c, target, now)
    } else {
        s.release_packets(c, target)
    };
    let msg = if locks {
        "camera locked — ,spectate again to release"@
    } else {
        "camera released"@
    };
    send_sends(s, id, r, false);
    let sent = s.send(id, r, false).set_client(
        id,
        ClientView {
            camera_target: if locks {
                Some(target)
            } else {
                None
            },
            ..c
        },
    );
    feedback_sends(sent, id, msg);
    assert(t == sent.feedback(id, msg));
    let was = session_laws::client_bound(s.outbox, id);
    assert(was + r + seq![session_laws::proxy_line(msg)] =~= was + r.push(
        session_laws::proxy_line(msg),
    ));
    assert(sends(s, t, id, r.push(session_laws::proxy_line(msg))));
    assert forall|v: ClientId| v != id implies (#[trigger] leaves_alone(s, t, v))
        && t.clients.contains_key(v) == s.clients.contains_key(v) && t.clients[v]
        == s.clients[v] by {
        assert(leaves_alone(s, s.send(id, r, false), v));
        assert(leaves_alone(sent, t, v));
    }
    if locks {
        let kit = reflect::viewer_packets(c.uuid, c.username, mode);
        reflect_laws::the_camera_is_put_on_the_entity(target);
        if mode <= 3 {
            reflect_laws::kits_give_the_mode_that_was_asked_for(c.uuid, c.username, mode);
        } else {
            reflect_laws::unknown_modes_are_spectator(c.uuid, c.username, mode);
            reflect_laws::kits_give_the_mode_that_was_asked_for(c.uuid, c.username, 0);
            assert(kit[2] == reflect::viewer_packets(c.uuid, c.username, 0)[2]);
        }
        assert(r[0] == kit[0] && r[1] == kit[1] && r[2] == kit[2]);
        assert(r.subrange(3, 3int + hud.len()) =~= hud);
        assert(locks_camera(r, c, mode, hud, target));
    } else {
        reflect_laws::the_camera_is_put_on_the_entity(own);
        reflect_laws::spectators_are_spectators(c.uuid, c.username);
        assert(r.skip(1) =~= reflect::spectator_packets(c.uuid, c.username));
        assert(releases_camera(r, c, own));
    }
}

// What must arrive.

/// Of the actions from `from` on, those for clients must arrive, and those for
/// the server must or need not.
pub open spec fn must_arrive(actions: Seq<ActionView>, from: int, server: bool) -> bool {
    forall|i: int|
        from <= i < actions.len() ==> match #[trigger] actions[i] {
            ActionView::ToClient { must, .. } => must,
            ActionView::ToServer { must, .. } => must == server,
            _ => true,
        }
}

proof fn broadcasts_must_arrive(s: SessionView, f: FrameView, n: int)
    ensures
        must_arrive(s.broadcast_first(f, n), 0, false),
    decreases n,
{
    if n > 0 {
        broadcasts_must_arrive(s, f, n - 1);
    }
}

proof fn flushes_must_arrive(s: SessionView, order: Seq<ClientId>, n: int)
    ensures
        s.outbox.len() <= s.flush_first(order, n).outbox.len(),
        must_arrive(s.flush_first(order, n).outbox, s.outbox.len() as int, false),
    decreases n,
{
    if n > 0 {
        flushes_must_arrive(s, order, n - 1);
    }
}

proof fn mirrors_must_arrive(s: SessionView, packets: Seq<PacketView>, n: int)
    ensures
        must_arrive(s.mirror_first(packets, n), 0, true),
    decreases n,
{
    if n > 0 {
        mirrors_must_arrive(s, packets, n - 1);
    }
}

/// Frames are never lost one by one: whatever a frame of the server brings to a
/// client must arrive, or the client is dropped. The proxy's own answers are not
/// worth the session.
#[verifier::rlimit(40)]
pub proof fn live_traffic_must_arrive(
    s: SessionView,
    f: FrameView,
    p: packet::GamePacket,
    now: u64,
)
    ensures
        s.outbox.len() <= s.on_upstream_frame(f, p, now).outbox.len(),
        must_arrive(s.on_upstream_frame(f, p, now).outbox, s.outbox.len() as int, false),
{
    let t = s.observe_clientbound(f, p, now);
    observed_must_arrive(s, f, p, now);
    let u = t.stand_in(f);
    broadcasts_must_arrive(u, f, u.order().len() as int);
    let more = u.broadcast_first(f, u.order().len() as int);
    let all = s.on_upstream_frame(f, p, now).outbox;
    assert(all == u.outbox + more);
    assert forall|i: int| s.outbox.len() <= i < all.len() implies match #[trigger] all[i] {
        ActionView::ToClient { must, .. } => must,
        ActionView::ToServer { must, .. } => !must,
        _ => true,
    } by {
        if i < t.outbox.len() {
            assert(all[i] == t.outbox[i]);
        } else if i < u.outbox.len() {
            assert(all[i] == u.outbox[i]);
        } else {
            assert(all[i] == more[i - u.outbox.len()]);
        }
    }
}

proof fn observed_must_arrive(s: SessionView, f: FrameView, p: packet::GamePacket, now: u64)
    ensures
        s.outbox.len() <= s.observe_clientbound(f, p, now).outbox.len(),
        must_arrive(s.observe_clientbound(f, p, now).outbox, s.outbox.len() as int, false),
{
    let t = s.observe_clientbound(f, p, now);
    if s.in_game() {
        let guarded = s.guard(f);
        if f.packet_id == ids::CB_GAME_LOGIN {
            let kept = SessionView {
                cache: CacheView {
                    world: guarded.cache.world.observe(f, p, now),
                    ..guarded.cache
                }.keep(f),
                ..guarded
            };
            let (mode, player): (u8, Option<i32>) = match p {
                packet::GamePacket::Login { game_mode, player_id } => (game_mode, Some(player_id)),
                _ => (0, None),
            };
            let known = SessionView {
                real_game_mode: mode,
                real_player_id: player,
                cache: match player {
                    Some(id) => CacheView {
                        world: kept.cache.world.set_player_entity_id(id),
                        ..kept.cache
                    },
                    None => kept.cache,
                },
                respawn_entity_pending: true,
                forward_next_position: true,
                ..kept
            };
            assert(t == known.flush_parked());
            assert(known.outbox == s.outbox);
            flushes_must_arrive(known, known.order(), known.order().len() as int);
        }
    }
}

/// None of the actions from `from` on reports stale packet ids.
pub open spec fn reports_nothing(actions: Seq<ActionView>, from: int) -> bool {
    forall|i: int| from <= i < actions.len() ==> !(#[trigger] actions[i] is StaleIds)
}

proof fn broadcasts_report_nothing(s: SessionView, f: FrameView, n: int)
    ensures
        reports_nothing(s.broadcast_first(f, n), 0),
    decreases n,
{
    if n > 0 {
        broadcasts_report_nothing(s, f, n - 1);
    }
}

proof fn flushes_report_nothing(s: SessionView, order: Seq<ClientId>, n: int)
    ensures
        s.outbox.len() <= s.flush_first(order, n).outbox.len(),
        reports_nothing(s.flush_first(order, n).outbox, s.outbox.len() as int),
    decreases n,
{
    if n > 0 {
        flushes_report_nothing(s, order, n - 1);
    }
}

/// Stale packet ids are reported of the first frame of the game state alone, and
/// never of a Login.
pub proof fn only_the_first_frame_is_reported(
    s: SessionView,
    f: FrameView,
    p: packet::GamePacket,
    now: u64,
)
    requires
        !s.in_game() || s.seen_first_game_frame || f.packet_id == 49,
    ensures
        reports_nothing(s.on_upstream_frame(f, p, now).outbox, s.outbox.len() as int),
{
    let t = s.observe_clientbound(f, p, now);
    if s.in_game() && f.packet_id == ids::CB_GAME_LOGIN {
        let kept = SessionView {
            cache: CacheView {
                world: s.cache.world.observe(f, p, now),
                ..s.cache
            }.keep(f),
            seen_first_game_frame: true,
            ..s
        };
        let (mode, player): (u8, Option<i32>) = match p {
            packet::GamePacket::Login { game_mode, player_id } => (game_mode, Some(player_id)),
            _ => (0, None),
        };
        let known = SessionView {
            real_game_mode: mode,
            real_player_id: player,
            cache: match player {
                Some(id) => CacheView {
                    world: kept.cache.world.set_player_entity_id(id),
                    ..kept.cache
                },
                None => kept.cache,
            },
            respawn_entity_pending: true,
            forward_next_position: true,
            ..kept
        };
        assert(t == known.flush_parked());
        flushes_report_nothing(known, known.order(), known.order().len() as int);
    }
    assert(reports_nothing(t.outbox, s.outbox.len() as int));
    let u = t.stand_in(f);
    broadcasts_report_nothing(u, f, u.order().len() as int);
    let more = u.broadcast_first(f, u.order().len() as int);
    let all = s.on_upstream_frame(f, p, now).outbox;
    assert(all == u.outbox + more);
    assert forall|i: int| s.outbox.len() <= i < all.len() implies !(
    #[trigger] all[i] is StaleIds) by {
        if i < t.outbox.len() {
            assert(all[i] == t.outbox[i]);
        } else if i < u.outbox.len() {
            assert(all[i] == u.outbox[i]);
        } else {
            assert(all[i] == more[i - u.outbox.len()]);
        }
    }
}

/// What the controller sends must reach the server, and what that shows must
/// reach the viewers; so must what lets a client in.
#[verifier::rlimit(40)]
pub proof fn what_is_forwarded_must_arrive(
    s: SessionView,
    id: ClientId,
    frame: FrameView,
    chat: Option<Seq<char>>,
    routed: Seq<FrameView>,
    now: u64,
)
    requires
        !(s.in_game() && frame.packet_id == 9 && chat is Some && chat->0.len() > 0 && chat->0[0]
            == ','),
    ensures
        ({
            let t = s.on_client_frame(id, frame, chat, routed, now);
            s.outbox.len() <= t.outbox.len() && must_arrive(t.outbox, s.outbox.len() as int, true)
        }),
{
    let t = s.on_client_frame(id, frame, chat, routed, now);
    if s.forwards(id, frame, chat) {
        let a = s.follow(frame);
        let b = a.to_server(routed);
        if reflect::controller_move(s.pose, frame) is Some {
            let shown = if b.respawn_entity_pending && b.pose.pos is Some {
                b.bundle()
            } else {
                reflect::move_packets(b.pose)
            };
            let c = SessionView { respawn_entity_pending: t.respawn_entity_pending, ..b };
            let n = c.order().len() as int;
            mirrors_must_arrive(c, shown, n);
            let more = c.mirror_first(shown, n);
            assert(t.outbox == if shown.len() == 0 {
                b.outbox
            } else {
                b.outbox + more
            });
            assert forall|i: int| s.outbox.len() <= i < t.outbox.len() implies match (
            #[trigger] t.outbox[i]) {
                ActionView::ToClient { must, .. } => must,
                ActionView::ToServer { must, .. } => must,
                _ => true,
            } by {
                if i < b.outbox.len() {
                    assert(t.outbox[i] == b.outbox[i]);
                } else {
                    assert(t.outbox[i] == more[i - b.outbox.len()]);
                }
            }
        }
    }
}

/// A controller's frame that is no report of movement shows viewers nothing and
/// leaves the pose as it is.
pub proof fn other_frames_show_nothing(
    s: SessionView,
    id: ClientId,
    frame: FrameView,
    chat: Option<Seq<char>>,
    routed: Seq<FrameView>,
    now: u64,
    v: ClientId,
)
    requires
        s.forwards(id, frame, chat),
        frame.packet_id != 30,
        frame.packet_id != 31,
        frame.packet_id != 32,
    ensures
        ({
            let t = s.on_client_frame(id, frame, chat, routed, now);
            &&& leaves_alone(s, t, v)
            &&& t == (SessionView { outbox: t.outbox, ..s })
        }),
{
    session_laws::to_server_unseen(s, routed, v);
}

// The course of a session.

/// A session starts with its first client in control and live, and the host is
/// told of the session, of the client and of its control. Nothing is known of
/// the world yet.
pub proof fn a_session_starts_with_its_controller(
    id: ClientId,
    username: Seq<char>,
    uuid: u128,
    bot_uuid: u128,
    bot_name: Seq<char>,
    opts: session::SessionOpts,
)
    ensures
        ({
            let s = SessionView::started(id, username, uuid, bot_uuid, bot_name, opts);
            &&& s.controller == Some(id)
            &&& s.clients.dom() == Set::<ClientId>::empty().insert(id)
            &&& s.clients[id].state == ClientState::Live
            &&& s.clients[id].username == username && s.clients[id].uuid == uuid
            &&& s.clients[id].camera_target is None && !s.clients[id].swallow_next_accept
            &&& !s.in_game() && s.cache.login is None && s.cache.config_frames.len() == 0
            &&& s.bot_uuid == bot_uuid && s.bot_name == bot_name && s.opts == opts
            &&& s.cache.world.bot_uuid == Some(bot_uuid)
            &&& s.pose.pos is None && s.abilities is None && s.real_player_id is None
            &&& s.outbox.len() == 3
            &&& s.outbox[0] == ActionView::Emit(EventView::SessionStarted)
            &&& s.outbox[1] == ActionView::Emit(EventView::ClientJoined { id, username })
            &&& s.outbox[2] == ActionView::Emit(
                EventView::ControlChanged { controller: Some((id, username)) },
            )
        }),
{
    let s = SessionView::started(id, username, uuid, bot_uuid, bot_name, opts);
    assert(s.clients.dom() =~= Set::<ClientId>::empty().insert(id));
}

/// A viewer that confirms the configuration is sent the world, is made a
/// spectator and is shown the bot, in this order; then it is live. Nobody else
/// notices.
pub proof fn a_viewer_joins(
    s: SessionView,
    id: ClientId,
    ack: FrameView,
    chat: Option<Seq<char>>,
    routed: Seq<FrameView>,
    now: u64,
)
    requires
        s.controller != Some(id),
        s.clients.contains_key(id),
        s.clients[id].state == ClientState::Joining,
        ack.packet_id == 3,
    ensures
        ({
            let t = s.on_client_frame(id, ack, chat, routed, now);
            let c = s.clients[id];
            &&& t.clients == s.clients.insert(id, ClientView { state: ClientState::Live, ..c })
            &&& t.controller == s.controller
            &&& exists|kit: Seq<PacketView>, bot: Seq<PacketView>|
                #![trigger makes_spectator(kit, c), shows_bot(bot, s.bot_uuid, s.bot_name, s.pose)]
                makes_spectator(kit, c) && shows_bot(bot, s.bot_uuid, s.bot_name, s.pose) && sends(
                    s,
                    t,
                    id,
                    s.cache.join_packets(now) + kit + bot,
                )
            &&& forall|v: ClientId| v != id ==> #[trigger] leaves_alone(s, t, v)
        }),
{
    let c = s.clients[id];
    let kit = reflect::spectator_packets(c.uuid, c.username);
    let r = s.cache.join_packets(now) + kit + s.bundle();
    reflect_laws::spectators_are_spectators(c.uuid, c.username);
    reflect_laws::the_bot_is_listed_before_it_is_shown(s.bot_uuid, s.bot_name, s.pose);
    send_sends(s, id, r, true);
    let t = s.on_client_frame(id, ack, chat, routed, now);
    let sent = s.send(id, r, true);
    assert(t.outbox == sent.outbox);
    assert(makes_spectator(kit, c) && shows_bot(s.bundle(), s.bot_uuid, s.bot_name, s.pose));
    assert(sends(s, t, id, s.cache.join_packets(now) + kit + s.bundle()));
    assert forall|v: ClientId| v != id implies #[trigger] leaves_alone(s, t, v) by {
        assert(leaves_alone(s, sent, v));
    }
}

/// When the controller moves, every live viewer is told where the bot now is,
/// looks and whether it stands; where viewers have lost its entity, as after a
/// Login or Respawn, they are shown it anew, once. Where the place is not known
/// they are told nothing.
#[verifier::rlimit(40)]
pub proof fn viewers_follow_the_bot(
    s: SessionView,
    id: ClientId,
    frame: FrameView,
    chat: Option<Seq<char>>,
    routed: Seq<FrameView>,
    now: u64,
    v: ClientId,
)
    requires
        s.clients.dom().finite(),
        s.forwards(id, frame, chat),
        reflect::controller_move(s.pose, frame) is Some,
        s.views_live(v),
    ensures
        ({
            let t = s.on_client_frame(id, frame, chat, routed, now);
            let pose = reflect::controller_move(s.pose, frame)->0;
            &&& t.pose == pose && t.controller_moved_recently
            &&& exists|r: Seq<PacketView>|
                #![trigger sends(s, t, v, r)]
                sends(s, t, v, r) && (match pose.pos {
                    None => r.len() == 0,
                    Some(pos) => if s.respawn_entity_pending {
                        shows_bot(r, s.bot_uuid, s.bot_name, pose)
                    } else {
                        r.len() == 2 && reflect_laws::syncs_reflected(
                            r[0],
                            pos,
                            pose.look,
                            pose.on_ground,
                        ) && r[1] == (PacketView::TurnHead {
                            id: reflect::REFLECTED_ENTITY_ID,
                            y_rot: pose.look.y_rot,
                        })
                    },
                })
            &&& t.respawn_entity_pending == (s.respawn_entity_pending && pose.pos is None)
        }),
{
    session_laws::viewers_see_the_bot_move(s, id, frame, chat, routed, now, v);
    let t = s.on_client_frame(id, frame, chat, routed, now);
    let u = s.follow(frame);
    let r = session_laws::movement_packets(u);
    assert(sends(s, t, v, r));
    reflect_laws::viewers_are_told_where_the_bot_is(u.pose);
    reflect_laws::the_bot_is_listed_before_it_is_shown(u.bot_uuid, u.bot_name, u.pose);
}

/// With nobody in control, or a controller that stands still, the server is told
/// where the bot stands at each beat: a report that moves the pose nowhere.
pub proof fn the_heartbeat_reports_the_place(s: SessionView)
    requires
        s.in_game(),
        s.pose.pos is Some,
        !(s.controller is Some && s.controller_moved_recently),
    ensures
        exists|f: FrameView| #[trigger]
            session_laws::server_bound(s.outbox).push(f) == session_laws::server_bound(
                s.stand_in_tick().outbox,
            ) && f.packet_id == 30 && reflect::controller_move(s.pose, f) == Some(s.pose),
        s.stand_in_tick().clients == s.clients,
        s.stand_in_tick().controller == s.controller,
{
    session_laws::the_heartbeat_fills_the_silence(s);
    reflect::idle_move_keeps_the_pose(s.pose);
    let f = reflect::idle_move(s.pose)->0;
    assert(session_laws::server_bound(s.outbox).push(f) == session_laws::server_bound(
        s.stand_in_tick().outbox,
    ));
}

/// Out of the game state, or without a place, nobody is told anything.
pub proof fn the_heartbeat_waits_for_the_game(s: SessionView)
    requires
        !s.in_game() || (s.pose.pos is None && !(s.controller is Some
            && s.controller_moved_recently)),
    ensures
        s.stand_in_tick() == s,
{
}

} // verus!
