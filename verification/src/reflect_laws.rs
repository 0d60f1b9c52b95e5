//! What a client or a server makes of the packets that speak of the bot.
//!
//! Each law reads a packet as its receiver does: numbers and flags at their
//! places in the payload.

use vstd::prelude::*;

use crate::hud::HudView;
use crate::packet::{Look, PacketView, Point};
use crate::plugin::FrameView;
use crate::reflect;
use crate::reflect::BotPose;
use crate::session;
use crate::wire;

verus! {

/// The packet tells the client with this uuid that its own entry has this game
/// mode, and speaks of nobody else.
pub open spec fn tells_own_mode(p: PacketView, uuid: u128, name: Seq<char>, mode: u8) -> bool {
    p matches PacketView::PlayerInfoUpdate { actions, entries } && {
        &&& actions.add_player && actions.update_game_mode && actions.update_listed
        &&& !actions.initialize_chat && !actions.update_display_name
        &&& !actions.update_list_order && !actions.update_hat
        &&& entries.len() == 1
        &&& entries[0].profile.uuid == uuid
        &&& entries[0].profile.name == name
        &&& entries[0].profile.properties.len() == 0
        &&& entries[0].game_mode == mode
        &&& !entries[0].listed
        &&& entries[0].chat_session is None
    }
}

/// The packet is the game event that sets this game mode.
pub open spec fn sets_mode(p: PacketView, mode: u8) -> bool {
    p matches PacketView::Raw(f) && {
        &&& f.packet_id == 38
        &&& f.body.len() == 5
        &&& f.body[0] == 3
        &&& wire::float_to_byte(wire::be_u32(f.body, 1)) == mode
    }
}

/// The packet sets the abilities: invulnerable, flying and allowed to fly, or
/// none of them, at the usual speeds.
pub open spec fn sets_flight(p: PacketView, flying: bool) -> bool {
    p matches PacketView::Raw(f) && {
        &&& f.packet_id == 64
        &&& f.body.len() == 9
        &&& f.body[0] % 2 == (if flying {
            1int
        } else {
            0int
        })
        &&& f.body[0] / 2 % 2 == (if flying {
            1int
        } else {
            0int
        })
        &&& f.body[0] / 4 % 2 == (if flying {
            1int
        } else {
            0int
        })
        &&& f.body[0] / 8 == 0
        &&& wire::be_u32(f.body, 1) == 0x3d4c_cccd
        &&& wire::be_u32(f.body, 5) == 0x3dcc_cccd
    }
}

/// The packet removes one entity, the reflected one.
pub open spec fn removes_reflected(p: PacketView) -> bool {
    p matches PacketView::Raw(f) && {
        &&& f.packet_id == 77
        &&& f.body.len() > 1
        &&& f.body[0] == 1
        &&& wire::read_varint(f.body.skip(1)) == Some(
            (reflect::REFLECTED_ENTITY_ID as u32, (f.body.len() - 1) as nat),
        )
    }
}

proof fn mode_event(mode: u8)
    ensures
        sets_mode(PacketView::Raw(reflect::gamemode_event(mode)), mode),
{
    let bits = wire::float_bits(mode);
    let b = seq![3u8] + wire::be4(bits);
    wire::float_byte_roundtrip(mode);
    wire::big_endian_roundtrip(0, bits);
    let q = wire::be4(bits);
    assert(b[1] == q[0] && b[2] == q[1] && b[3] == q[2] && b[4] == q[3]);
    assert(wire::be_u32(b, 1) == wire::be_u32(q, 0));
}

proof fn flight(flying: bool)
    ensures
        sets_flight(PacketView::Raw(reflect::abilities(flying)), flying),
{
    let b = reflect::abilities(flying).body;
    let x = wire::be4(reflect::FLYING_SPEED);
    let y = wire::be4(reflect::WALKING_SPEED);
    wire::big_endian_roundtrip(0, reflect::FLYING_SPEED);
    wire::big_endian_roundtrip(0, reflect::WALKING_SPEED);
    assert(b[1] == x[0] && b[2] == x[1] && b[3] == x[2] && b[4] == x[3]);
    assert(b[5] == y[0] && b[6] == y[1] && b[7] == y[2] && b[8] == y[3]);
    assert(wire::be_u32(b, 1) == wire::be_u32(x, 0));
    assert(wire::be_u32(b, 5) == wire::be_u32(y, 0));
}

proof fn removal()
    ensures
        removes_reflected(PacketView::Raw(reflect::reflected_removal())),
{
    let id = reflect::REFLECTED_ENTITY_ID as u32;
    let b = reflect::reflected_removal().body;
    wire::varint_roundtrip(id, Seq::<u8>::empty());
    assert(b.skip(1) =~= wire::varint(id) + Seq::<u8>::empty());
}

/// A client that is given a game mode goes by its own tab-list entry and by the
/// game event: both say the mode that was asked for, whichever of the four it
/// is, and whatever the client is given it for.
#[verifier::rlimit(40)]
pub proof fn kits_give_the_mode_that_was_asked_for(uuid: u128, name: Seq<char>, mode: u8)
    requires
        mode <= 3,
    ensures
        ({
            let controller = reflect::controller_packets(uuid, name, mode);
            let viewer = reflect::viewer_packets(uuid, name, mode);
            let plain = reflect::gamemode_packets(uuid, name, mode);
            &&& controller.len() == 4 && viewer.len() == 3 && plain.len() == 2
            &&& tells_own_mode(controller[0], uuid, name, mode) && sets_mode(controller[1], mode)
            &&& tells_own_mode(viewer[0], uuid, name, mode) && sets_mode(viewer[1], mode)
            &&& tells_own_mode(plain[0], uuid, name, mode) && sets_mode(plain[1], mode)
            &&& sets_flight(controller[2], false) && removes_reflected(controller[3])
            &&& sets_flight(viewer[2], true)
        }),
{
    mode_event(mode);
    flight(true);
    flight(false);
    removal();
}

/// A mode beyond the four is shown as spectator in the entry; the event carries
/// it as it is.
pub proof fn unknown_modes_are_spectator(uuid: u128, name: Seq<char>, mode: u8)
    requires
        mode > 3,
    ensures
        tells_own_mode(reflect::controller_packets(uuid, name, mode)[0], uuid, name, 3),
        tells_own_mode(reflect::viewer_packets(uuid, name, mode)[0], uuid, name, 3),
        tells_own_mode(reflect::gamemode_packets(uuid, name, mode)[0], uuid, name, 3),
        sets_mode(reflect::controller_packets(uuid, name, mode)[1], mode),
        sets_mode(reflect::viewer_packets(uuid, name, mode)[1], mode),
        sets_mode(reflect::gamemode_packets(uuid, name, mode)[1], mode),
{
    mode_event(mode);
}

/// The spectator kit makes a client a spectator that flies.
pub proof fn spectators_are_spectators(uuid: u128, name: Seq<char>)
    ensures
        ({
            let kit = reflect::spectator_packets(uuid, name);
            &&& kit.len() == 3
            &&& tells_own_mode(kit[0], uuid, name, 3)
            &&& sets_mode(kit[1], 3)
            &&& sets_flight(kit[2], true)
        }),
{
    mode_event(3);
    flight(true);
}

/// What tells a client a game mode tells the session the same: the mode is read
/// from the event that carries it, whatever mode it is.
pub proof fn modes_are_read_as_they_are_written(mode: u8)
    ensures
        session::event_mode(reflect::gamemode_event(mode)) == Some(mode),
{
    mode_event(mode);
}

/// A single-precision number from 1 on and below 256 is read as its whole part:
/// its significand without the bits that stand for the fraction. Numbers below 1,
/// negative ones and what is no number are read as 0, larger ones as 255.
pub proof fn whole_parts_are_read(e: u32, fraction: u32)
    requires
        fraction < 0x80_0000,
    ensures
        e <= 7 ==> wire::float_to_byte(((127 + e) * 0x80_0000 + fraction) as u32) == (0x80_0000
            + fraction) / wire::two_to(23 - e),
        8 <= e < 128 ==> wire::float_to_byte(((127 + e) * 0x80_0000 + fraction) as u32) == 255,
        e < 127 ==> wire::float_to_byte((e * 0x80_0000 + fraction) as u32) == 0,
        e < 256 ==> wire::float_to_byte(((256 + e) * 0x80_0000 + fraction) as u32) == 0,
        fraction != 0 ==> wire::float_to_byte((255 * 0x80_0000 + fraction) as u32) == 0,
{
    reveal_with_fuel(wire::two_to, 25);
    if e <= 7 {
        let bits = ((127 + e) * 0x80_0000 + fraction) as u32;
        assert(bits / 0x80_0000 == 127 + e && bits % 0x80_0000 == fraction);
        let d = wire::two_to(23 - e);
        assert(d >= 0x1_0000) by {
            if e == 0 {
                assert(wire::two_to(23) == 0x80_0000);
            } else if e == 1 {
                assert(wire::two_to(22) == 0x40_0000);
            } else if e == 2 {
                assert(wire::two_to(21) == 0x20_0000);
            } else if e == 3 {
                assert(wire::two_to(20) == 0x10_0000);
            } else if e == 4 {
                assert(wire::two_to(19) == 0x8_0000);
            } else if e == 5 {
                assert(wire::two_to(18) == 0x4_0000);
            } else if e == 6 {
                assert(wire::two_to(17) == 0x2_0000);
            } else {
                assert(wire::two_to(16) == 0x1_0000);
            }
        }
        assert(0 <= (0x80_0000 + fraction) / d < 256) by (nonlinear_arith)
            requires
                d >= 0x1_0000,
                0 <= fraction < 0x80_0000,
        ;
    }
}

/// A game event sets the session's game mode if and only if it is event 3 with
/// its parameter: the mode is then the whole part of that parameter.
pub proof fn only_mode_events_set_the_mode(f: FrameView)
    ensures
        session::event_mode(f) is Some <==> f.body.len() >= 5 && f.body[0] == 3,
        session::event_mode(f) matches Some(mode) ==> mode == wire::float_to_byte(
            wire::be_u32(f.body, 1),
        ),
{
}

/// The packet says that the reflected entity is here, looks there, and stands
/// on the ground or not; and that it does not drift.
pub open spec fn syncs_reflected(p: PacketView, pos: Point, look: Look, on_ground: bool) -> bool {
    p matches PacketView::Raw(f) && f.packet_id == 35 && (wire::read_varint(
        f.body,
    ) matches Some((id, n)) && {
        let b = f.body.skip(n as int);
        &&& id == reflect::REFLECTED_ENTITY_ID as u32
        &&& b.len() == 57
        &&& wire::be_u64(b, 0) == pos.x && wire::be_u64(b, 8) == pos.y && wire::be_u64(b, 16)
            == pos.z
        &&& wire::be_u64(b, 24) == 0 && wire::be_u64(b, 32) == 0 && wire::be_u64(b, 40) == 0
        &&& wire::be_u32(b, 48) == look.y_rot && wire::be_u32(b, 52) == look.x_rot
        &&& b[56] == (if on_ground {
            1u8
        } else {
            0u8
        })
    })
}

proof fn eight_at(b: Seq<u8>, at: int, n: u64)
    requires
        0 <= at,
        at + 8 <= b.len(),
        b.subrange(at, at + 8) == wire::be8(n),
    ensures
        wire::be_u64(b, at) == n,
{
    wire::big_endian_roundtrip(n, 0);
    let q = wire::be8(n);
    assert forall|i: int| 0 <= i < 8 implies b[at + i] == q[i] by {
        assert(b.subrange(at, at + 8)[i] == b[at + i]);
    }
    assert(b[at] == q[0] && b[at + 1] == q[1] && b[at + 2] == q[2] && b[at + 3] == q[3]) by {
        assert(b[at + 0] == q[0] && b[at + 1] == q[1] && b[at + 2] == q[2] && b[at + 3] == q[3]);
    }
    assert(b[at + 4] == q[4] && b[at + 5] == q[5] && b[at + 6] == q[6] && b[at + 7] == q[7]);
    assert(wire::be_u32(b, at) == wire::be_u32(q, 0));
    assert(wire::be_u32(b, at + 4) == wire::be_u32(q, 4));
}

proof fn four_at(b: Seq<u8>, at: int, n: u32)
    requires
        0 <= at,
        at + 4 <= b.len(),
        b.subrange(at, at + 4) == wire::be4(n),
    ensures
        wire::be_u32(b, at) == n,
{
    wire::big_endian_roundtrip(0, n);
    let q = wire::be4(n);
    assert forall|i: int| 0 <= i < 4 implies b[at + i] == q[i] by {
        assert(b.subrange(at, at + 4)[i] == b[at + i]);
    }
    assert(b[at + 0] == q[0] && b[at + 1] == q[1] && b[at + 2] == q[2] && b[at + 3] == q[3]);
}

/// What three doubles stand for when they are read.
proof fn point_read(b: Seq<u8>, at: int, p: Point)
    requires
        0 <= at,
        at + 24 <= b.len(),
        b.subrange(at, at + 24) == reflect::point_bytes(p),
    ensures
        wire::be_u64(b, at) == p.x,
        wire::be_u64(b, at + 8) == p.y,
        wire::be_u64(b, at + 16) == p.z,
{
    let q = reflect::point_bytes(p);
    assert(b.subrange(at, at + 8) =~= q.subrange(0, 8));
    assert(b.subrange(at + 8, at + 16) =~= q.subrange(8, 16));
    assert(b.subrange(at + 16, at + 24) =~= q.subrange(16, 24));
    assert(q.subrange(0, 8) =~= wire::be8(p.x));
    assert(q.subrange(8, 16) =~= wire::be8(p.y));
    assert(q.subrange(16, 24) =~= wire::be8(p.z));
    eight_at(b, at, p.x);
    eight_at(b, at + 8, p.y);
    eight_at(b, at + 16, p.z);
}

proof fn look_read(b: Seq<u8>, at: int, l: Look)
    requires
        0 <= at,
        at + 8 <= b.len(),
        b.subrange(at, at + 8) == reflect::look_bytes(l),
    ensures
        wire::be_u32(b, at) == l.y_rot,
        wire::be_u32(b, at + 4) == l.x_rot,
{
    let q = reflect::look_bytes(l);
    assert(b.subrange(at, at + 4) =~= q.subrange(0, 4));
    assert(b.subrange(at + 4, at + 8) =~= q.subrange(4, 8));
    assert(q.subrange(0, 4) =~= wire::be4(l.y_rot));
    assert(q.subrange(4, 8) =~= wire::be4(l.x_rot));
    four_at(b, at, l.y_rot);
    four_at(b, at + 4, l.x_rot);
}

/// Wherever the bot is, on the ground or in the air, viewers are told where its
/// entity is, where it looks and whether it stands; then where its head turns.
/// Of a bot whose place is not known they are told nothing.
#[verifier::rlimit(40)]
pub proof fn viewers_are_told_where_the_bot_is(pose: BotPose)
    ensures
        pose.pos matches Some(pos) ==> {
            let r = reflect::move_packets(pose);
            &&& r.len() == 2
            &&& syncs_reflected(r[0], pos, pose.look, pose.on_ground)
            &&& r[1] == (PacketView::TurnHead {
                id: reflect::REFLECTED_ENTITY_ID,
                y_rot: pose.look.y_rot,
            })
        },
        pose.pos is None ==> reflect::move_packets(pose).len() == 0,
{
    if pose.pos is Some {
        let pos = pose.pos->0;
        let r = reflect::move_packets(pose);
        let f = r[0]->Raw_0;
        let flag = if pose.on_ground {
            1u8
        } else {
            0u8
        };
        let id = reflect::REFLECTED_ENTITY_ID as u32;
        let rest = reflect::resting(pos, pose.look) + seq![flag];
        assert(f.body =~= wire::varint(id) + rest);
        wire::varint_roundtrip(id, rest);
        let b = f.body.skip(wire::varint(id).len() as int);
        assert(b =~= rest);
        let a = reflect::point_bytes(pos);
        let d = reflect::point_bytes(reflect::origin());
        let l = reflect::look_bytes(pose.look);
        assert(a.len() == 24 && d.len() == 24 && l.len() == 8);
        assert(b.subrange(0, 24) =~= a);
        assert(b.subrange(24, 48) =~= d);
        assert(b.subrange(48, 56) =~= l);
        point_read(b, 0, pos);
        point_read(b, 24, reflect::origin());
        look_read(b, 48, pose.look);
        assert(b[56] == flag);
    }
}

/// The packet lists the bot: with its uuid and name, as a player in survival
/// that is shown.
pub open spec fn lists_bot(p: PacketView, uuid: u128, name: Seq<char>) -> bool {
    p matches PacketView::PlayerInfoUpdate { actions, entries } && {
        &&& actions.add_player && actions.update_game_mode && actions.update_listed
        &&& actions.update_latency
        &&& !actions.initialize_chat && !actions.update_display_name
        &&& !actions.update_list_order && !actions.update_hat
        &&& entries.len() == 1
        &&& entries[0].profile.uuid == uuid
        &&& entries[0].profile.name == name
        &&& entries[0].game_mode == 0
        &&& entries[0].listed
        &&& entries[0].chat_session is None
    }
}

/// A client that is shown the bot anew loses its old copy first, then learns of
/// the player, and only then sees it, where it is: an entity is not rendered
/// before its player is listed. As long as the place is not known there is no
/// entity.
pub proof fn the_bot_is_listed_before_it_is_shown(uuid: u128, name: Seq<char>, pose: BotPose)
    ensures
        ({
            let r = reflect::bundle(uuid, name, pose);
            &&& r.len() == (if pose.pos is Some {
                4int
            } else {
                2int
            })
            &&& removes_reflected(r[0])
            &&& lists_bot(r[1], uuid, name)
            &&& (pose.pos matches Some(pos) ==> r[2] == (PacketView::AddPlayer {
                id: reflect::REFLECTED_ENTITY_ID,
                uuid,
                pos,
                look: pose.look,
            }) && r[3] == (PacketView::TurnHead {
                id: reflect::REFLECTED_ENTITY_ID,
                y_rot: pose.look.y_rot,
            }))
        }),
{
    removal();
}

/// What a controller reports moves the pose to where it says: the place, the
/// view direction, or both, and whether it stands on the ground; what a report
/// does not speak of stays.
#[verifier::rlimit(40)]
pub proof fn reports_of_the_controller_are_followed(
    pose: BotPose,
    pos: Point,
    look: Look,
    flags: u8,
)
    ensures
        reflect::controller_move(
            pose,
            FrameView { packet_id: 30, body: reflect::point_bytes(pos) + seq![flags] },
        ) == Some(BotPose { pos: Some(pos), look: pose.look, on_ground: flags % 2 == 1 }),
        reflect::controller_move(
            pose,
            FrameView {
                packet_id: 31,
                body: reflect::point_bytes(pos) + reflect::look_bytes(look) + seq![flags],
            },
        ) == Some(BotPose { pos: Some(pos), look, on_ground: flags % 2 == 1 }),
        reflect::controller_move(
            pose,
            FrameView { packet_id: 32, body: reflect::look_bytes(look) + seq![flags] },
        ) == Some(BotPose { pos: pose.pos, look, on_ground: flags % 2 == 1 }),
{
    place_report(pos, flags);
    full_report(pos, look, flags);
    turn_report(look, flags);
}

#[verifier::rlimit(40)]
proof fn place_report(pos: Point, flags: u8)
    ensures
        ({
            let b = reflect::point_bytes(pos) + seq![flags];
            b.len() == 25 && b[24] == flags && reflect::point_at(b, 0) == pos
        }),
{
    let a = reflect::point_bytes(pos);
    assert(a.len() == 24);
    let b = a + seq![flags];
    assert(b.subrange(0, 24) =~= a);
    point_read(b, 0, pos);
}

#[verifier::rlimit(40)]
proof fn full_report(pos: Point, look: Look, flags: u8)
    ensures
        ({
            let b = reflect::point_bytes(pos) + reflect::look_bytes(look) + seq![flags];
            b.len() == 33 && b[32] == flags && reflect::point_at(b, 0) == pos && reflect::look_at(
                b,
                24,
            ) == look
        }),
{
    let a = reflect::point_bytes(pos);
    let l = reflect::look_bytes(look);
    assert(a.len() == 24 && l.len() == 8);
    let b = a + l + seq![flags];
    assert(b.subrange(0, 24) =~= a);
    assert(b.subrange(24, 32) =~= l);
    point_read(b, 0, pos);
    look_read(b, 24, look);
}

#[verifier::rlimit(40)]
proof fn turn_report(look: Look, flags: u8)
    ensures
        ({
            let b = reflect::look_bytes(look) + seq![flags];
            b.len() == 9 && b[8] == flags && reflect::look_at(b, 0) == look
        }),
{
    let l = reflect::look_bytes(look);
    assert(l.len() == 8);
    let b = l + seq![flags];
    assert(b.subrange(0, 8) =~= l);
    look_read(b, 0, look);
}

/// Nothing but a report of movement moves the pose.
pub proof fn other_frames_do_not_move_the_bot(pose: BotPose, f: FrameView)
    requires
        f.packet_id != 30,
        f.packet_id != 31,
        f.packet_id != 32,
    ensures
        reflect::controller_move(pose, f) is None,
{
}

/// A teleport of the server: its id, where to, a velocity, a view direction, and
/// which of these are relative.
pub open spec fn teleport_frame(
    id: u32,
    pos: Point,
    velocity: Point,
    look: Look,
    relative: u32,
) -> FrameView {
    FrameView {
        packet_id: 72,
        body: wire::varint(id) + (reflect::point_bytes(pos) + reflect::point_bytes(velocity)
            + reflect::look_bytes(look) + wire::be4(relative)),
    }
}

/// A teleport of the server takes the pose to where it says, if and only if
/// neither its position nor its view direction is relative, whatever its
/// velocity and whether that is relative; otherwise the pose stays. The id that
/// is to be confirmed is the one that it carries.
#[verifier::rlimit(40)]
pub proof fn absolute_teleports_are_followed(
    pose: BotPose,
    id: u32,
    pos: Point,
    velocity: Point,
    look: Look,
    relative: u32,
)
    ensures
        ({
            let f = teleport_frame(id, pos, velocity, look, relative);
            let absolute = relative % 2 == 0 && relative / 2 % 2 == 0 && relative / 4 % 2 == 0
                && relative / 8 % 2 == 0 && relative / 16 % 2 == 0;
            &&& reflect::teleport(f) == Some(id)
            &&& absolute ==> reflect::server_teleport(pose, f) == (BotPose {
                pos: Some(pos),
                look,
                on_ground: pose.on_ground,
            })
            &&& !absolute ==> reflect::server_teleport(pose, f) == pose
        }),
{
    let f = teleport_frame(id, pos, velocity, look, relative);
    let rest = reflect::point_bytes(pos) + reflect::point_bytes(velocity) + reflect::look_bytes(
        look,
    ) + wire::be4(relative);
    wire::varint_roundtrip(id, rest);
    assert(f.body.skip(wire::varint(id).len() as int) =~= rest);
    teleport_read(pos, velocity, look, relative);
    low_bits(relative);
}

proof fn low_bits(n: u32)
    ensures
        n % 32 == 0 <==> n % 2 == 0 && n / 2 % 2 == 0 && n / 4 % 2 == 0 && n / 8 % 2 == 0 && n / 16
            % 2 == 0,
{
    assert(n % 32 == 0 <==> n % 2 == 0 && (n / 2) % 2 == 0 && (n / 4) % 2 == 0 && (n / 8) % 2 == 0
        && (n / 16) % 2 == 0) by (bit_vector);
}

#[verifier::rlimit(40)]
proof fn teleport_read(pos: Point, velocity: Point, look: Look, relative: u32)
    ensures
        ({
            let rest = reflect::point_bytes(pos) + reflect::point_bytes(velocity)
                + reflect::look_bytes(look) + wire::be4(relative);
            &&& rest.len() == 60
            &&& reflect::point_at(rest, 0) == pos
            &&& reflect::look_at(rest, 48) == look
            &&& wire::be_u32(rest, 56) == relative
        }),
{
    let a = reflect::point_bytes(pos);
    let d = reflect::point_bytes(velocity);
    let l = reflect::look_bytes(look);
    let z = wire::be4(relative);
    assert(a.len() == 24 && d.len() == 24 && l.len() == 8 && z.len() == 4);
    let rest = a + d + l + z;
    assert(rest.subrange(0, 24) =~= a);
    assert(rest.subrange(48, 56) =~= l);
    assert(rest.subrange(56, 60) =~= z);
    point_read(rest, 0, pos);
    look_read(rest, 48, look);
    four_at(rest, 56, relative);
}

/// What is told of the player's own entity and is shown on the reflected one
/// carries the reflected id in the place of the player's, and is otherwise the
/// same; what does not speak of the player is not shown on it.
pub proof fn retargeting_changes_the_id_alone(packet_id: u32, source: i32, rest: Seq<u8>, to: i32)
    ensures
        ({
            let told = FrameView { packet_id, body: wire::varint(wire::unsigned(source)) + rest };
            &&& source == to ==> (reflect::retargeted(told, to) matches Some(r) && r.packet_id
                == packet_id && (wire::read_varint(r.body) matches Some((id, n)) && id
                == reflect::REFLECTED_ENTITY_ID as u32 && r.body.skip(n as int) == rest))
            &&& source != to ==> reflect::retargeted(told, to) is None
        }),
{
    let v = wire::varint(wire::unsigned(source));
    let told = FrameView { packet_id, body: v + rest };
    wire::varint_roundtrip(wire::unsigned(source), rest);
    wire::signed_roundtrip(source);
    assert(told.body.skip(v.len() as int) =~= rest);
    let id = reflect::REFLECTED_ENTITY_ID as u32;
    wire::varint_roundtrip(id, rest);
    assert((wire::varint(id) + rest).skip(wire::varint(id).len() as int) =~= rest);
}

/// A keep-alive carries its id in the first eight bytes, whatever follows; one
/// that is cut short carries none.
pub proof fn keepalive_ids_are_read(packet_id: u32, id: u64, rest: Seq<u8>, cut: Seq<u8>)
    requires
        cut.len() < 8,
    ensures
        reflect::keepalive(FrameView { packet_id, body: wire::be8(id) + rest }) == Some(id),
        reflect::keepalive(FrameView { packet_id, body: cut }) is None,
{
    let b = wire::be8(id) + rest;
    assert(b.subrange(0, 8) =~= wire::be8(id));
    eight_at(b, 0, id);
}

/// The selected hotbar slot is told by its number.
pub proof fn the_selected_slot_is_told(h: HudView)
    ensures
        h.inventory_packets().len() > 0,
        h.inventory_packets()[0] matches PacketView::Raw(f) && f.packet_id == 105
            && wire::read_varint(f.body) == Some((h.selected, f.body.len())),
{
    wire::varint_roundtrip(h.selected, Seq::<u8>::empty());
    let f = h.inventory_packets()[0]->Raw_0;
    assert(f.body =~= wire::varint(h.selected) + Seq::<u8>::empty());
}

/// A frame that puts the camera on an entity carries that entity's id.
pub proof fn the_camera_is_put_on_the_entity(id: i32)
    ensures
        session::SessionView::camera_on(id) matches PacketView::Raw(f) && f.packet_id == 93
            && wire::read_varint(f.body) == Some((wire::unsigned(id), f.body.len())),
        wire::signed(wire::unsigned(id)) == id,
{
    let f = session::SessionView::camera_on(id)->Raw_0;
    wire::varint_roundtrip(wire::unsigned(id), Seq::<u8>::empty());
    assert(f.body =~= wire::varint(wire::unsigned(id)) + Seq::<u8>::empty());
    wire::signed_roundtrip(id);
}

} // verus!
