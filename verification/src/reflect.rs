//! The reflected bot entity, which turns a viewer from a clone of the bot into
//! a spectator.
//!
//! A viewer's client got the session's Login packet and takes itself for the
//! session player, whose own movement the server never echoes. So the bot is
//! shown to viewers as a player entity of its own, fed from the controller's
//! serverbound movement, all of which passes through the proxy.

use vstd::prelude::*;

use crate::ids;
use crate::packet;
use crate::packet::{
    Look, Packet, PacketView, PlayerInfoActions, PlayerInfoEntry, PlayerInfoView, Point, Profile,
    ProfileView, PropertyView,
};
use crate::plugin::{Frame, FrameView};
use crate::views;
use crate::views::group_views;
use crate::wire;

verus! {

broadcast use group_views;

/// Entity id of the reflected bot on viewer clients. Servers count ids up from
/// 0, so a value this large does not collide in practice.
pub const REFLECTED_ENTITY_ID: i32 = 1_999_999_999;

/// Teleport id of the position sync that the proxy sends when control is
/// handed over. The new controller's accept of it is swallowed.
pub const HANDOFF_TELEPORT_ID: u32 = 0x5EC7A11;

/// The bits of the flying speed 0.05.
pub const FLYING_SPEED: u32 = 0x3d4c_cccd;

/// The bits of the walking speed 0.1.
pub const WALKING_SPEED: u32 = 0x3dcc_cccd;

/// Last known pose of the controlled player.
#[derive(Clone, Copy, Debug, PartialEq)]
pub struct BotPose {
    pub pos: Option<Point>,
    pub look: Look,
    pub on_ground: bool,
}

/// A pose of which nothing is known.
pub open spec fn unknown_pose() -> BotPose {
    BotPose { pos: None, look: Look { y_rot: 0, x_rot: 0 }, on_ground: false }
}

impl Default for BotPose {
    fn default() -> (r: BotPose)
        ensures
            r == unknown_pose(),
    {
        BotPose { pos: None, look: Look { y_rot: 0, x_rot: 0 }, on_ground: false }
    }
}

/// Three doubles.
pub open spec fn point_bytes(p: Point) -> Seq<u8> {
    wire::be8(p.x) + wire::be8(p.y) + wire::be8(p.z)
}

/// Two singles, the turn before the pitch.
pub open spec fn look_bytes(l: Look) -> Seq<u8> {
    wire::be4(l.y_rot) + wire::be4(l.x_rot)
}

/// The point at which all coordinates are 0.
pub open spec fn origin() -> Point {
    Point { x: 0, y: 0, z: 0 }
}

/// Position, velocity and view direction of a body at rest.
pub open spec fn resting(pos: Point, look: Look) -> Seq<u8> {
    point_bytes(pos) + point_bytes(origin()) + look_bytes(look)
}

/// The game event that tells a client its game mode.
pub open spec fn gamemode_event(mode: u8) -> FrameView {
    ids::game_event(3, wire::float_bits(mode))
}

/// A player that has joined without properties and is told with these parts
/// of its entry.
pub open spec fn plain_entry(uuid: u128, name: Seq<char>, mode: u8, listed: bool) -> PlayerInfoView {
    PlayerInfoView {
        profile: ProfileView { uuid, name, properties: Seq::<PropertyView>::empty() },
        chat_session: None,
        game_mode: mode,
        listed,
        latency: 0,
        display_name: None,
        list_order: 0,
        update_hat: false,
    }
}

/// The parts of an entry that say who a player is and how it plays.
pub open spec fn entry_actions(update_latency: bool) -> PlayerInfoActions {
    PlayerInfoActions {
        add_player: true,
        initialize_chat: false,
        update_game_mode: true,
        update_listed: true,
        update_latency,
        update_display_name: false,
        update_list_order: false,
        update_hat: false,
    }
}

/// A game mode; 3, spectator, in place of an unknown one.
pub open spec fn known_mode(mode: u8) -> u8 {
    if mode <= 3 {
        mode
    } else {
        3
    }
}

/// The tab-list entry of a client itself, with its game mode. Clients go by
/// this entry, not by the game event alone.
pub open spec fn own_info(uuid: u128, name: Seq<char>, mode: u8) -> PacketView {
    PacketView::PlayerInfoUpdate {
        actions: entry_actions(false),
        entries: seq![plain_entry(uuid, name, known_mode(mode), false)],
    }
}

/// The tab-list entry of the bot, without which its entity is not rendered.
pub open spec fn bot_info(uuid: u128, name: Seq<char>) -> PacketView {
    PacketView::PlayerInfoUpdate {
        actions: entry_actions(true),
        entries: seq![plain_entry(uuid, name, 0, true)],
    }
}

/// What a client may do: fly unharmed, or neither.
pub open spec fn abilities(flying: bool) -> FrameView {
    FrameView {
        packet_id: ids::CB_GAME_PLAYER_ABILITIES,
        body: seq![
            if flying {
                7u8
            } else {
                0u8
            },
        ] + wire::be4(FLYING_SPEED) + wire::be4(WALKING_SPEED),
    }
}

/// The removal of the reflected entity.
pub open spec fn reflected_removal() -> FrameView {
    FrameView {
        packet_id: ids::CB_GAME_REMOVE_ENTITIES,
        body: seq![1u8] + wire::varint(REFLECTED_ENTITY_ID as u32),
    }
}

/// What gives a client that is not in control a game mode: its own entry, the
/// game event and flight.
pub open spec fn viewer_packets(uuid: u128, name: Seq<char>, mode: u8) -> Seq<PacketView> {
    seq![
        own_info(uuid, name, mode),
        PacketView::Raw(gamemode_event(mode)),
        PacketView::Raw(abilities(true)),
    ]
}

/// What makes a client a spectator.
pub open spec fn spectator_packets(uuid: u128, name: Seq<char>) -> Seq<PacketView> {
    viewer_packets(uuid, name, 3)
}

/// What gives a client another game mode and nothing else.
pub open spec fn gamemode_packets(uuid: u128, name: Seq<char>, mode: u8) -> Seq<PacketView> {
    seq![own_info(uuid, name, mode), PacketView::Raw(gamemode_event(mode))]
}

/// What makes a client the controller: the real game mode, feet on the ground,
/// and no ghost of itself.
pub open spec fn controller_packets(uuid: u128, name: Seq<char>, mode: u8) -> Seq<PacketView> {
    seq![
        own_info(uuid, name, mode),
        PacketView::Raw(gamemode_event(mode)),
        PacketView::Raw(abilities(false)),
        PacketView::Raw(reflected_removal()),
    ]
}

/// The spawn of the reflected entity, once its place is known.
pub open spec fn spawn_packets(uuid: u128, pose: BotPose) -> Seq<PacketView> {
    match pose.pos {
        Some(pos) => seq![
            PacketView::AddPlayer { id: REFLECTED_ENTITY_ID, uuid, pos, look: pose.look },
            PacketView::TurnHead { id: REFLECTED_ENTITY_ID, y_rot: pose.look.y_rot },
        ],
        None => Seq::empty(),
    }
}

/// A position sync of the reflected entity.
pub open spec fn reflected_sync(pos: Point, look: Look, on_ground: bool) -> FrameView {
    FrameView {
        packet_id: ids::CB_GAME_ENTITY_POSITION_SYNC,
        body: wire::varint(REFLECTED_ENTITY_ID as u32) + resting(pos, look) + seq![
            if on_ground {
                1u8
            } else {
                0u8
            },
        ],
    }
}

/// The movement of the reflected entity, once its place is known.
pub open spec fn move_packets(pose: BotPose) -> Seq<PacketView> {
    match pose.pos {
        Some(pos) => seq![
            PacketView::Raw(reflected_sync(pos, pose.look, pose.on_ground)),
            PacketView::TurnHead { id: REFLECTED_ENTITY_ID, y_rot: pose.look.y_rot },
        ],
        None => Seq::empty(),
    }
}

/// The reflected entity from scratch, whatever the client had of it: any
/// earlier copy removed, the tab-list entry, the spawn.
pub open spec fn bundle(uuid: u128, name: Seq<char>, pose: BotPose) -> Seq<PacketView> {
    seq![PacketView::Raw(reflected_removal()), bot_info(uuid, name)] + spawn_packets(uuid, pose)
}

/// The teleport that takes a new controller to the bot.
pub open spec fn handoff_teleport(pose: BotPose) -> Option<FrameView> {
    match pose.pos {
        Some(pos) => Some(
            FrameView {
                packet_id: ids::CB_GAME_PLAYER_POSITION,
                body: wire::varint(HANDOFF_TELEPORT_ID) + resting(pos, pose.look) + wire::be4(0),
            },
        ),
        None => None,
    }
}

/// The report of a player that stands where it stood.
pub open spec fn idle_move(pose: BotPose) -> Option<FrameView> {
    match pose.pos {
        Some(pos) => Some(
            FrameView {
                packet_id: ids::SB_GAME_MOVE_PLAYER_POS,
                body: point_bytes(pos) + seq![
                    if pose.on_ground {
                        1u8
                    } else {
                        0u8
                    },
                ],
            },
        ),
        None => None,
    }
}

/// A frame that speaks of entity `source`, made to speak of the reflected
/// entity. `None` for one that does not start with that id.
pub open spec fn retargeted(frame: FrameView, source: i32) -> Option<FrameView> {
    match wire::read_varint(frame.body) {
        Some((id, n)) => if wire::signed(id) == source {
            Some(
                FrameView {
                    packet_id: frame.packet_id,
                    body: wire::varint(REFLECTED_ENTITY_ID as u32) + frame.body.skip(n as int),
                },
            )
        } else {
            None
        },
        None => None,
    }
}

/// Three doubles from `at` on.
pub open spec fn point_at(b: Seq<u8>, at: int) -> Point {
    Point { x: wire::be_u64(b, at), y: wire::be_u64(b, at + 8), z: wire::be_u64(b, at + 16) }
}

/// Two singles from `at` on.
pub open spec fn look_at(b: Seq<u8>, at: int) -> Look {
    Look { y_rot: wire::be_u32(b, at), x_rot: wire::be_u32(b, at + 4) }
}

/// The pose after a controller's frame; `None` for a frame that is no
/// movement, or one that is cut short.
pub open spec fn controller_move(pose: BotPose, frame: FrameView) -> Option<BotPose> {
    let b = frame.body;
    if frame.packet_id == ids::SB_GAME_MOVE_PLAYER_POS && b.len() >= 25 {
        Some(BotPose { pos: Some(point_at(b, 0)), on_ground: b[24] % 2 == 1, ..pose })
    } else if frame.packet_id == ids::SB_GAME_MOVE_PLAYER_POS_ROT && b.len() >= 33 {
        Some(
            BotPose { pos: Some(point_at(b, 0)), look: look_at(b, 24), on_ground: b[32] % 2 == 1 },
        )
    } else if frame.packet_id == ids::SB_GAME_MOVE_PLAYER_ROT && b.len() >= 9 {
        Some(BotPose { look: look_at(b, 0), on_ground: b[8] % 2 == 1, ..pose })
    } else {
        None
    }
}

/// The pose after a frame of the server. Only a PlayerPosition that is absolute
/// counts, in position and in view direction; the controller's next movement
/// makes up for others. A frame of another kind, or one that is cut short,
/// changes nothing.
pub open spec fn server_teleport(pose: BotPose, frame: FrameView) -> BotPose {
    if frame.packet_id == ids::CB_GAME_PLAYER_POSITION {
        match wire::read_varint(frame.body) {
            Some((_, n)) => {
                let b = frame.body.skip(n as int);
                if b.len() >= 60 && wire::be_u32(b, 56) % 32 == 0 {
                    BotPose { pos: Some(point_at(b, 0)), look: look_at(b, 48), ..pose }
                } else {
                    pose
                }
            },
            None => pose,
        }
    } else {
        pose
    }
}

/// A kept-alive id, the eight bytes of the payload.
pub open spec fn keepalive(frame: FrameView) -> Option<u64> {
    if frame.body.len() >= 8 {
        Some(wire::be_u64(frame.body, 0))
    } else {
        None
    }
}

/// The teleport id at the front of a payload.
pub open spec fn teleport(frame: FrameView) -> Option<u32> {
    match wire::read_varint(frame.body) {
        Some((id, _)) => Some(id),
        None => None,
    }
}

/// A keep-alive is answered with the id that it carries.
pub proof fn keepalive_reply_carries_the_id(id: u64, packet_id: u32)
    ensures
        keepalive(FrameView { packet_id, body: wire::be8(id) }) == Some(id),
{
    wire::big_endian_roundtrip(id, 0);
}

/// A movement report of the stand-in leaves the pose as it is: the server is
/// told what the proxy knows.
pub proof fn idle_move_keeps_the_pose(pose: BotPose)
    requires
        pose.pos is Some,
    ensures
        controller_move(pose, idle_move(pose)->0) == Some(pose),
{
    let frame = idle_move(pose)->0;
    let flag = if pose.on_ground {
        1u8
    } else {
        0u8
    };
    point_roundtrip(pose.pos->0, seq![flag]);
    flag_after_point(pose.pos->0, flag);
    assert(frame.body == point_bytes(pose.pos->0) + seq![flag]);
    let to = controller_move(pose, frame)->0;
    assert(to.pos == pose.pos);
    assert(to.on_ground == pose.on_ground);
}

proof fn flag_after_point(pos: Point, flag: u8)
    ensures
        (point_bytes(pos) + seq![flag]).len() == 25,
        (point_bytes(pos) + seq![flag])[24] == flag,
{
}

/// The accept of the handover teleport is told by its id.
pub proof fn handoff_teleport_carries_its_id(pose: BotPose)
    requires
        pose.pos is Some,
    ensures
        teleport(handoff_teleport(pose)->0) == Some(HANDOFF_TELEPORT_ID),
{
    let rest = resting(pose.pos->0, pose.look) + wire::be4(0);
    wire::varint_roundtrip(HANDOFF_TELEPORT_ID, rest);
    assert(handoff_teleport(pose)->0.body =~= wire::varint(HANDOFF_TELEPORT_ID) + rest);
}

/// The handover teleport takes its receiver, wherever it is, to the place and
/// the view direction of the pose it was made from.
pub proof fn handoff_teleport_lands_on_the_pose(pose: BotPose, q: BotPose)
    requires
        pose.pos is Some,
    ensures
        server_teleport(q, handoff_teleport(pose)->0) == (BotPose {
            on_ground: q.on_ground,
            ..pose
        }),
{
    let v = wire::varint(HANDOFF_TELEPORT_ID);
    let rest = resting(pose.pos->0, pose.look) + wire::be4(0);
    wire::varint_roundtrip(HANDOFF_TELEPORT_ID, rest);
    let b = handoff_teleport(pose)->0.body;
    assert(b =~= v + rest);
    assert(b.skip(v.len() as int) =~= rest);
    absolute_roundtrip(pose.pos->0, pose.look);
}

proof fn absolute_roundtrip(pos: Point, look: Look)
    ensures
        ({
            let rest = resting(pos, look) + wire::be4(0);
            &&& rest.len() == 60
            &&& point_at(rest, 0) == pos
            &&& look_at(rest, 48) == look
            &&& wire::be_u32(rest, 56) == 0
        }),
{
    let rest = resting(pos, look) + wire::be4(0);
    let a = point_bytes(pos);
    let d = point_bytes(origin());
    let l = look_bytes(look);
    let z = wire::be4(0);
    assert(a.len() == 24 && d.len() == 24 && l.len() == 8 && z.len() == 4);
    assert(rest =~= a + (d + l + z));
    point_roundtrip(pos, d + l + z);
    assert(rest.subrange(48, 56) =~= l);
    assert(rest.subrange(48, 52) =~= l.subrange(0, 4));
    assert(rest.subrange(52, 56) =~= l.subrange(4, 8));
    assert(l.subrange(0, 4) =~= wire::be4(look.y_rot));
    assert(l.subrange(4, 8) =~= wire::be4(look.x_rot));
    assert(rest.subrange(56, 60) =~= z);
    single_at(rest, 48, look.y_rot);
    single_at(rest, 52, look.x_rot);
    single_at(rest, 56, 0);
}

proof fn single_at(b: Seq<u8>, at: int, n: u32)
    requires
        0 <= at,
        at + 4 <= b.len(),
        b.subrange(at, at + 4) == wire::be4(n),
    ensures
        wire::be_u32(b, at) == n,
{
    wire::big_endian_roundtrip(0, n);
    let t = b.subrange(at, at + 4);
    assert(t[0] == b[at] && t[1] == b[at + 1] && t[2] == b[at + 2] && t[3] == b[at + 3]);
}

proof fn point_roundtrip(pos: Point, rest: Seq<u8>)
    ensures
        point_at(point_bytes(pos) + rest, 0) == pos,
{
    let b = point_bytes(pos) + rest;
    wire::big_endian_roundtrip(pos.x, 0);
    wire::big_endian_roundtrip(pos.y, 0);
    wire::big_endian_roundtrip(pos.z, 0);
    assert(b.subrange(0, 8) =~= wire::be8(pos.x));
    assert(b.subrange(8, 16) =~= wire::be8(pos.y));
    assert(b.subrange(16, 24) =~= wire::be8(pos.z));
    double_at(b, 0, pos.x);
    double_at(b, 8, pos.y);
    double_at(b, 16, pos.z);
}

proof fn double_at(b: Seq<u8>, at: int, n: u64)
    requires
        0 <= at,
        at + 8 <= b.len(),
        b.subrange(at, at + 8) == wire::be8(n),
    ensures
        wire::be_u64(b, at) == n,
{
    wire::big_endian_roundtrip(n, 0);
    let s = wire::be8(n);
    let t = b.subrange(at, at + 8);
    assert forall|i: int| 0 <= i < 8 implies b[at + i] == s[i] by {
        assert(t[i] == b[at + i]);
    }
    assert(b[at + 0] == s[0] && b[at + 1] == s[1] && b[at + 2] == s[2] && b[at + 3] == s[3]);
    assert(b[at + 4] == s[4] && b[at + 5] == s[5] && b[at + 6] == s[6] && b[at + 7] == s[7]);
    assert(wire::be_u32(b, at) == wire::be_u32(s, 0));
    assert(wire::be_u32(b, at + 4) == wire::be_u32(s, 4));
}

fn write_point(out: &mut Vec<u8>, p: &Point)
    ensures
        final(out)@ == old(out)@ + point_bytes(*p),
{
    let ghost start = out@;
    wire::write_be_u64(out, p.x);
    wire::write_be_u64(out, p.y);
    wire::write_be_u64(out, p.z);
    proof {
        assert(out@ =~= start + point_bytes(*p));
    }
}

fn write_resting(out: &mut Vec<u8>, pos: &Point, look: &Look)
    ensures
        final(out)@ == old(out)@ + resting(*pos, *look),
{
    let ghost start = out@;
    let none: Point = Point { x: 0, y: 0, z: 0 };
    write_point(out, pos);
    write_point(out, &none);
    wire::write_be_u32(out, look.y_rot);
    wire::write_be_u32(out, look.x_rot);
    proof {
        assert(out@ =~= start + resting(*pos, *look));
    }
}

fn read_point(b: &[u8], at: usize) -> (r: Point)
    requires
        at + 24 <= b.len(),
    ensures
        r == point_at(b@, at as int),
{
    Point {
        x: wire::read_be_u64(b, at),
        y: wire::read_be_u64(b, at + 8),
        z: wire::read_be_u64(b, at + 16),
    }
}

fn read_look(b: &[u8], at: usize) -> (r: Look)
    requires
        at + 8 <= b.len(),
    ensures
        r == look_at(b@, at as int),
{
    Look { y_rot: wire::read_be_u32(b, at), x_rot: wire::read_be_u32(b, at + 4) }
}

/// Game event 3, the change of the game mode.
pub fn gamemode_event_frame(mode: u8) -> (r: Frame)
    ensures
        r@ == gamemode_event(mode),
{
    ids::game_event_frame(3, wire::byte_to_float(mode))
}

fn entry_packet(
    uuid: u128,
    name: &str,
    mode: u8,
    listed: bool,
    update_latency: bool,
) -> (r: Packet)
    ensures
        r@ == (PacketView::PlayerInfoUpdate {
            actions: entry_actions(update_latency),
            entries: seq![plain_entry(uuid, name@, mode, listed)],
        }),
{
    let entry: PlayerInfoEntry = PlayerInfoEntry {
        profile: Profile { uuid, name: name.to_owned(), properties: Vec::new() },
        chat_session: None,
        game_mode: mode,
        listed,
        latency: 0,
        display_name: None,
        list_order: 0,
        update_hat: false,
    };
    let mut entries: Vec<PlayerInfoEntry> = Vec::new();
    entries.push(entry);
    proof {
        assert(views::views(entries@) =~= seq![plain_entry(uuid, name@, mode, listed)]);
    }
    Packet::PlayerInfoUpdate {
        actions: PlayerInfoActions {
            add_player: true,
            initialize_chat: false,
            update_game_mode: true,
            update_listed: true,
            update_latency,
            update_display_name: false,
            update_list_order: false,
            update_hat: false,
        },
        entries,
    }
}

fn own_info_packet(uuid: u128, name: &str, mode: u8) -> (r: Packet)
    ensures
        r@ == own_info(uuid, name@, mode),
{
    let mode: u8 = if mode <= 3 {
        mode
    } else {
        3
    };
    entry_packet(uuid, name, mode, false, false)
}

/// Tab-list entry for the bot.
pub fn bot_info_frame(uuid: u128, name: &str) -> (r: Packet)
    ensures
        r@ == bot_info(uuid, name@),
{
    entry_packet(uuid, name, 0, true, true)
}

fn abilities_frame(flying: bool) -> (r: Frame)
    ensures
        r@ == abilities(flying),
{
    let mut body: Vec<u8> = Vec::new();
    body.push(
        if flying {
            7
        } else {
            0
        },
    );
    wire::write_be_u32(&mut body, FLYING_SPEED);
    wire::write_be_u32(&mut body, WALKING_SPEED);
    let r: Frame = Frame { packet_id: ids::CB_GAME_PLAYER_ABILITIES, body };
    proof {
        assert(r@ =~= abilities(flying));
    }
    r
}

/// Despawns the reflected entity.
pub fn remove_reflected_frame() -> (r: Frame)
    ensures
        r@ == reflected_removal(),
{
    let mut body: Vec<u8> = Vec::new();
    body.push(1);
    wire::write_varint(&mut body, REFLECTED_ENTITY_ID as u32);
    let r: Frame = Frame { packet_id: ids::CB_GAME_REMOVE_ENTITIES, body };
    proof {
        assert(r@ =~= reflected_removal());
    }
    r
}

/// The sequence that gives a client that is not in control a game mode, and
/// flight with it.
pub fn viewer_kit(uuid: u128, name: &str, mode: u8) -> (r: Vec<Packet>)
    ensures
        views::views(r@) == viewer_packets(uuid, name@, mode),
{
    let mut r: Vec<Packet> = Vec::new();
    r.push(own_info_packet(uuid, name, mode));
    r.push(Packet::Raw(gamemode_event_frame(mode)));
    r.push(Packet::Raw(abilities_frame(true)));
    proof {
        assert(views::views(r@) =~= viewer_packets(uuid, name@, mode));
    }
    r
}

/// The sequence that makes a client a spectator. It is sent again after every
/// Login and Respawn, which reset the client's game mode.
pub fn spectator_kit(viewer_uuid: u128, viewer_name: &str) -> (r: Vec<Packet>)
    ensures
        views::views(r@) == spectator_packets(viewer_uuid, viewer_name@),
{
    viewer_kit(viewer_uuid, viewer_name, 3)
}

/// The sequence that gives a client another game mode.
pub fn gamemode_kit(uuid: u128, name: &str, mode: u8) -> (r: Vec<Packet>)
    ensures
        views::views(r@) == gamemode_packets(uuid, name@, mode),
{
    let mut r: Vec<Packet> = Vec::new();
    r.push(own_info_packet(uuid, name, mode));
    r.push(Packet::Raw(gamemode_event_frame(mode)));
    proof {
        assert(views::views(r@) =~= gamemode_packets(uuid, name@, mode));
    }
    r
}

/// The sequence that gives a client the session's real game mode back when it
/// acquires control.
pub fn controller_kit(uuid: u128, name: &str, real_mode: u8) -> (r: Vec<Packet>)
    ensures
        views::views(r@) == controller_packets(uuid, name@, real_mode),
{
    let mut r: Vec<Packet> = Vec::new();
    r.push(own_info_packet(uuid, name, real_mode));
    r.push(Packet::Raw(gamemode_event_frame(real_mode)));
    r.push(Packet::Raw(abilities_frame(false)));
    r.push(Packet::Raw(remove_reflected_frame()));
    proof {
        assert(views::views(r@) =~= controller_packets(uuid, name@, real_mode));
    }
    r
}

/// What the proxy says in a client's chat.
pub fn system_chat_frame(msg: &str) -> (r: Packet)
    ensures
        r@ == (PacketView::SystemChat { text: "[proxy] "@ + msg@ }),
{
    let mut text: String = "[proxy] ".to_owned();
    text.append(msg);
    Packet::SystemChat { text }
}

/// The teleport that takes a new controller's client to the bot's pose.
pub fn handoff_teleport_frame(pose: &BotPose) -> (r: Option<Frame>)
    ensures
        views::seen(r) == handoff_teleport(*pose),
{
    match &pose.pos {
        Some(pos) => {
            let mut body: Vec<u8> = Vec::new();
            wire::write_varint(&mut body, HANDOFF_TELEPORT_ID);
            write_resting(&mut body, pos, &pose.look);
            wire::write_be_u32(&mut body, 0);
            let frame: Frame = Frame { packet_id: ids::CB_GAME_PLAYER_POSITION, body };
            proof {
                assert(frame@ =~= handoff_teleport(*pose)->0);
            }
            Some(frame)
        },
        None => None,
    }
}

/// The serverbound answer to a keep-alive in the game state.
pub fn keepalive_reply(id: u64) -> (r: Frame)
    ensures
        r@ == (FrameView { packet_id: ids::SB_GAME_KEEP_ALIVE, body: wire::be8(id) }),
{
    let mut body: Vec<u8> = Vec::new();
    wire::write_be_u64(&mut body, id);
    proof {
        assert(body@ =~= wire::be8(id));
    }
    Frame { packet_id: ids::SB_GAME_KEEP_ALIVE, body }
}

/// The serverbound answer to a keep-alive in the configuration state.
pub fn config_keepalive_reply(id: u64) -> (r: Frame)
    ensures
        r@ == (FrameView { packet_id: ids::SB_CONFIG_KEEP_ALIVE, body: wire::be8(id) }),
{
    let mut body: Vec<u8> = Vec::new();
    wire::write_be_u64(&mut body, id);
    proof {
        assert(body@ =~= wire::be8(id));
    }
    Frame { packet_id: ids::SB_CONFIG_KEEP_ALIVE, body }
}

/// The serverbound accept of a teleport.
pub fn accept_teleport_frame(id: u32) -> (r: Frame)
    ensures
        r@ == (FrameView { packet_id: ids::SB_GAME_ACCEPT_TELEPORTATION, body: wire::varint(id) }),
{
    let mut body: Vec<u8> = Vec::new();
    wire::write_varint(&mut body, id);
    proof {
        assert(body@ =~= wire::varint(id));
    }
    Frame { packet_id: ids::SB_GAME_ACCEPT_TELEPORTATION, body }
}

/// Locks a client's camera to an entity.
pub fn camera_frame(id: i32) -> (r: Frame)
    ensures
        r@ == (FrameView {
            packet_id: ids::CB_GAME_SET_CAMERA,
            body: wire::varint(wire::unsigned(id)),
        }),
{
    let mut body: Vec<u8> = Vec::new();
    wire::write_varint(&mut body, wire::to_unsigned(id));
    proof {
        assert(body@ =~= wire::varint(wire::unsigned(id)));
    }
    Frame { packet_id: ids::CB_GAME_SET_CAMERA, body }
}

/// The serverbound report of a player that stands still.
pub fn idle_move_frame(pose: &BotPose) -> (r: Option<Frame>)
    ensures
        views::seen(r) == idle_move(*pose),
{
    match &pose.pos {
        Some(pos) => {
            let mut body: Vec<u8> = Vec::new();
            write_point(&mut body, pos);
            body.push(
                if pose.on_ground {
                    1
                } else {
                    0
                },
            );
            let frame: Frame = Frame { packet_id: ids::SB_GAME_MOVE_PLAYER_POS, body };
            proof {
                assert(frame@ =~= idle_move(*pose)->0);
            }
            Some(frame)
        },
        None => None,
    }
}

/// Teleport id of a clientbound PlayerPosition frame, or of its accept.
pub fn teleport_id(frame: &Frame) -> (r: Option<u32>)
    ensures
        r == teleport(frame@),
{
    match wire::take_varint(frame.body.as_slice()) {
        Some((id, _)) => Some(id),
        None => None,
    }
}

/// Id of a clientbound keep-alive frame, in either state.
pub fn keepalive_id(frame: &Frame) -> (r: Option<u64>)
    ensures
        r == keepalive(frame@),
{
    if frame.body.len() >= 8 {
        Some(wire::read_be_u64(frame.body.as_slice(), 0))
    } else {
        None
    }
}

/// Spawns the reflected entity at the bot's pose.
pub fn spawn_frames(uuid: u128, pose: &BotPose) -> (r: Vec<Packet>)
    ensures
        views::views(r@) == spawn_packets(uuid, *pose),
{
    let mut r: Vec<Packet> = Vec::new();
    if let Some(pos) = &pose.pos {
        r.push(Packet::AddPlayer { id: REFLECTED_ENTITY_ID, uuid, pos: *pos, look: pose.look });
        r.push(Packet::TurnHead { id: REFLECTED_ENTITY_ID, y_rot: pose.look.y_rot });
    }
    proof {
        assert(views::views(r@) =~= spawn_packets(uuid, *pose));
    }
    r
}

/// Moves the reflected entity to the bot's pose.
pub fn move_frames(pose: &BotPose) -> (r: Vec<Packet>)
    ensures
        views::views(r@) == move_packets(*pose),
{
    let mut r: Vec<Packet> = Vec::new();
    if let Some(pos) = &pose.pos {
        let mut body: Vec<u8> = Vec::new();
        wire::write_varint(&mut body, REFLECTED_ENTITY_ID as u32);
        write_resting(&mut body, pos, &pose.look);
        body.push(
            if pose.on_ground {
                1
            } else {
                0
            },
        );
        let frame: Frame = Frame { packet_id: ids::CB_GAME_ENTITY_POSITION_SYNC, body };
        proof {
            assert(frame@ =~= reflected_sync(*pos, pose.look, pose.on_ground));
        }
        r.push(Packet::Raw(frame));
        r.push(Packet::TurnHead { id: REFLECTED_ENTITY_ID, y_rot: pose.look.y_rot });
    }
    proof {
        assert(views::views(r@) =~= move_packets(*pose));
    }
    r
}

/// The reflected entity from scratch: it may be sent again at any time.
pub fn reflected_bundle(uuid: u128, name: &str, pose: &BotPose) -> (r: Vec<Packet>)
    ensures
        views::views(r@) == bundle(uuid, name@, *pose),
{
    let mut r: Vec<Packet> = Vec::new();
    r.push(Packet::Raw(remove_reflected_frame()));
    r.push(bot_info_frame(uuid, name));
    packet::queue_all(&mut r, spawn_frames(uuid, pose));
    proof {
        assert(views::views(r@) =~= bundle(uuid, name@, *pose));
    }
    r
}

/// Makes a frame that speaks of entity `source` speak of the reflected entity.
pub fn retarget_self_visual(frame: &Frame, source: i32) -> (r: Option<Frame>)
    ensures
        views::seen(r) == retargeted(frame@, source),
{
    match wire::take_varint(frame.body.as_slice()) {
        Some((id, n)) => {
            if wire::to_signed(id) != source {
                return None;
            }
            let mut body: Vec<u8> = Vec::new();
            wire::write_varint(&mut body, REFLECTED_ENTITY_ID as u32);
            let ghost start = body@;
            let mut i: usize = n;
            while i < frame.body.len()
                invariant
                    n <= i <= frame.body.len(),
                    body@ == start + frame.body@.subrange(n as int, i as int),
                decreases frame.body.len() - i,
            {
                body.push(frame.body[i]);
                proof {
                    assert(body@ =~= start + frame.body@.subrange(n as int, i + 1));
                }
                i = i + 1;
            }
            let out: Frame = Frame { packet_id: frame.packet_id, body };
            proof {
                assert(out@ =~= retargeted(frame@, source)->0);
            }
            Some(out)
        },
        None => None,
    }
}

/// Updates the pose from a controller's serverbound frame; tells whether that
/// was a movement.
pub fn apply_controller_move(pose: &mut BotPose, frame: &Frame) -> (moved: bool)
    ensures
        match controller_move(*old(pose), frame@) {
            Some(to) => moved && *final(pose) == to,
            None => !moved && *final(pose) == *old(pose),
        },
{
    let n: usize = frame.body.len();
    let b: &[u8] = frame.body.as_slice();
    if frame.packet_id == ids::SB_GAME_MOVE_PLAYER_POS && n >= 25 {
        pose.pos = Some(read_point(b, 0));
        pose.on_ground = b[24] % 2 == 1;
        true
    } else if frame.packet_id == ids::SB_GAME_MOVE_PLAYER_POS_ROT && n >= 33 {
        pose.pos = Some(read_point(b, 0));
        pose.look = read_look(b, 24);
        pose.on_ground = b[32] % 2 == 1;
        true
    } else if frame.packet_id == ids::SB_GAME_MOVE_PLAYER_ROT && n >= 9 {
        pose.look = read_look(b, 0);
        pose.on_ground = b[8] % 2 == 1;
        true
    } else {
        false
    }
}

/// Updates the pose from a clientbound PlayerPosition frame; any other frame
/// leaves it as it is.
pub fn apply_server_teleport(pose: &mut BotPose, frame: &Frame)
    ensures
        *final(pose) == server_teleport(*old(pose), frame@),
{
    if frame.packet_id != ids::CB_GAME_PLAYER_POSITION {
        return;
    }
    let b: &[u8] = frame.body.as_slice();
    if let Some((_, n)) = wire::take_varint(b) {
        if b.len() - n >= 60 {
            proof {
                skipped(b@, n as int);
            }
            if wire::read_be_u32(b, n + 56) % 32 == 0 {
                pose.pos = Some(read_point(b, n));
                pose.look = read_look(b, n + 48);
            }
        }
    }
}

proof fn skipped(b: Seq<u8>, n: int)
    requires
        0 <= n,
        n + 60 <= b.len(),
    ensures
        point_at(b.skip(n), 0) == point_at(b, n),
        look_at(b.skip(n), 48) == look_at(b, n + 48),
        wire::be_u32(b.skip(n), 56) == wire::be_u32(b, n + 56),
{
    assert forall|i: int| 0 <= i < 60 implies #[trigger] b.skip(n)[i] == b[n + i] by {}
}

} // verus!
