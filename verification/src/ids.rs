//! The packet ids that the proxy recognizes without parsing, and the few
//! frames whose payload it reads or writes by position.
//!
//! Ids follow the order in which the protocol declares its packets in each
//! state. The id of Login is guarded at run time as well: Login must be the
//! first frame of the game state, and a session reports when it is not.

use vstd::prelude::*;

use crate::plugin::{Frame, FrameView};
use crate::wire;

verus! {

// config, clientbound
pub const CB_CONFIG_FINISH: u32 = 3;
pub const CB_CONFIG_KEEP_ALIVE: u32 = 4;
pub const CB_CONFIG_PING: u32 = 5;

// config, serverbound
pub const SB_CONFIG_KEEP_ALIVE: u32 = 4;
pub const SB_CONFIG_FINISH: u32 = 3;

// game, clientbound
pub const CB_GAME_ADD_ENTITY: u32 = 1;
pub const CB_GAME_BLOCK_ENTITY_DATA: u32 = 6;
pub const CB_GAME_BLOCK_UPDATE: u32 = 8;
pub const CB_GAME_BOSS_EVENT: u32 = 9;
pub const CB_GAME_CHANGE_DIFFICULTY: u32 = 10;
pub const CB_GAME_CHUNKS_BIOMES: u32 = 13;
pub const CB_GAME_CONTAINER_SET_CONTENT: u32 = 18;
pub const CB_GAME_CONTAINER_SET_SLOT: u32 = 20;
pub const CB_GAME_COOLDOWN: u32 = 22;
pub const CB_GAME_ENTITY_POSITION_SYNC: u32 = 35;
pub const CB_GAME_FORGET_LEVEL_CHUNK: u32 = 37;
pub const CB_GAME_GAME_EVENT: u32 = 38;
pub const CB_GAME_GAME_RULE_VALUES: u32 = 39;
pub const CB_GAME_INITIALIZE_BORDER: u32 = 43;
pub const CB_GAME_KEEP_ALIVE: u32 = 44;
pub const CB_GAME_LEVEL_CHUNK_WITH_LIGHT: u32 = 45;
pub const CB_GAME_LIGHT_UPDATE: u32 = 48;
pub const CB_GAME_LOGIN: u32 = 49;
pub const CB_GAME_MAP_ITEM_DATA: u32 = 51;
pub const CB_GAME_MOVE_ENTITY_POS: u32 = 53;
pub const CB_GAME_MOVE_ENTITY_POS_ROT: u32 = 54;
pub const CB_GAME_MOVE_ENTITY_ROT: u32 = 56;
pub const CB_GAME_PLAYER_ABILITIES: u32 = 64;
pub const CB_GAME_PLAYER_INFO_REMOVE: u32 = 69;
pub const CB_GAME_PLAYER_INFO_UPDATE: u32 = 70;
pub const CB_GAME_PLAYER_LOOK_AT: u32 = 71;
pub const CB_GAME_PLAYER_POSITION: u32 = 72;
pub const CB_GAME_PLAYER_ROTATION: u32 = 73;
pub const CB_GAME_REMOVE_ENTITIES: u32 = 77;
pub const CB_GAME_REMOVE_MOB_EFFECT: u32 = 78;
pub const CB_GAME_RESET_SCORE: u32 = 79;
pub const CB_GAME_RESPAWN: u32 = 82;
pub const CB_GAME_ROTATE_HEAD: u32 = 83;
pub const CB_GAME_SECTION_BLOCKS_UPDATE: u32 = 84;
pub const CB_GAME_SET_BORDER_CENTER: u32 = 88;
pub const CB_GAME_SET_BORDER_LERP_SIZE: u32 = 89;
pub const CB_GAME_SET_BORDER_SIZE: u32 = 90;
pub const CB_GAME_SET_BORDER_WARNING_DELAY: u32 = 91;
pub const CB_GAME_SET_BORDER_WARNING_DISTANCE: u32 = 92;
pub const CB_GAME_SET_CAMERA: u32 = 93;
pub const CB_GAME_SET_CHUNK_CACHE_CENTER: u32 = 94;
pub const CB_GAME_SET_CHUNK_CACHE_RADIUS: u32 = 95;
pub const CB_GAME_SET_CURSOR_ITEM: u32 = 96;
pub const CB_GAME_SET_DEFAULT_SPAWN_POSITION: u32 = 97;
pub const CB_GAME_SET_DISPLAY_OBJECTIVE: u32 = 98;
pub const CB_GAME_SET_ENTITY_DATA: u32 = 99;
pub const CB_GAME_SET_ENTITY_LINK: u32 = 100;
pub const CB_GAME_SET_ENTITY_MOTION: u32 = 101;
pub const CB_GAME_SET_EQUIPMENT: u32 = 102;
pub const CB_GAME_SET_EXPERIENCE: u32 = 103;
pub const CB_GAME_SET_HEALTH: u32 = 104;
pub const CB_GAME_SET_HELD_SLOT: u32 = 105;
pub const CB_GAME_SET_OBJECTIVE: u32 = 106;
pub const CB_GAME_SET_PASSENGERS: u32 = 107;
pub const CB_GAME_SET_PLAYER_INVENTORY: u32 = 108;
pub const CB_GAME_SET_PLAYER_TEAM: u32 = 109;
pub const CB_GAME_SET_SCORE: u32 = 110;
pub const CB_GAME_SET_SIMULATION_DISTANCE: u32 = 111;
pub const CB_GAME_SET_TIME: u32 = 113;
pub const CB_GAME_START_CONFIGURATION: u32 = 118;
pub const CB_GAME_SYSTEM_CHAT: u32 = 121;
pub const CB_GAME_TAB_LIST: u32 = 122;
pub const CB_GAME_TELEPORT_ENTITY: u32 = 125;
pub const CB_GAME_UPDATE_ATTRIBUTES: u32 = 131;
pub const CB_GAME_UPDATE_MOB_EFFECT: u32 = 132;

// game, serverbound
pub const SB_GAME_ACCEPT_TELEPORTATION: u32 = 0;
pub const SB_GAME_CHAT: u32 = 9;
pub const SB_GAME_KEEP_ALIVE: u32 = 28;
pub const SB_GAME_MOVE_PLAYER_POS: u32 = 30;
pub const SB_GAME_MOVE_PLAYER_POS_ROT: u32 = 31;
pub const SB_GAME_MOVE_PLAYER_ROT: u32 = 32;
pub const SB_GAME_PLAYER_ACTION: u32 = 41;
pub const SB_GAME_PLAYER_COMMAND: u32 = 42;
pub const SB_GAME_PLAYER_INPUT: u32 = 43;
pub const SB_GAME_SET_CARRIED_ITEM: u32 = 53;
pub const SB_GAME_SWING: u32 = 63;
pub const SB_GAME_USE_ITEM: u32 = 67;

/// A game event frame: the event and the bits of its float parameter.
pub open spec fn game_event(event: u8, parameter: u32) -> FrameView {
    FrameView { packet_id: CB_GAME_GAME_EVENT, body: seq![event] + wire::be4(parameter) }
}

/// A game event with its parameter, given as the bits of a single-precision
/// float.
pub fn game_event_frame(event: u8, parameter: u32) -> (r: Frame)
    requires
        event < 128,
    ensures
        r@ == game_event(event, parameter),
{
    let mut body: Vec<u8> = Vec::new();
    body.push(event);
    wire::write_be_u32(&mut body, parameter);
    proof {
        assert(body@ =~= seq![event] + wire::be4(parameter));
    }
    Frame { packet_id: CB_GAME_GAME_EVENT, body }
}

/// The frame that ends a viewer's configuration replay.
pub fn finish_config_frame() -> (r: Frame)
    ensures
        r@ == (FrameView { packet_id: CB_CONFIG_FINISH, body: Seq::empty() }),
{
    Frame { packet_id: CB_CONFIG_FINISH, body: Vec::new() }
}

/// Game event 13 ("start waiting for level chunks"). A client leaves its
/// loading screen only after this event and after the chunk it stands in has
/// arrived.
pub fn wait_for_chunks_frame() -> (r: Frame)
    ensures
        r@ == game_event(13, 0),
{
    game_event_frame(13, 0)
}

/// Chunk coordinates at the front of a LevelChunkWithLight payload: two
/// big-endian integers, not a packed position.
pub open spec fn chunk_at(body: Seq<u8>) -> Option<(i32, i32)> {
    if body.len() >= 8 {
        Some((wire::signed(wire::be_u32(body, 0)), wire::signed(wire::be_u32(body, 4))))
    } else {
        None
    }
}

/// Chunk coordinates of a ForgetLevelChunk payload: one packed position, `z`
/// in the high half and `x` in the low one.
pub open spec fn forgotten_chunk(body: Seq<u8>) -> Option<(i32, i32)> {
    if body.len() >= 8 {
        Some((wire::signed(wire::be_u32(body, 4)), wire::signed(wire::be_u32(body, 0))))
    } else {
        None
    }
}

/// The two variable-length integers at the front of `body`.
pub open spec fn leading_pair(body: Seq<u8>) -> Option<(u32, u32)> {
    match wire::read_varint(body) {
        Some((a, n)) => match wire::read_varint(body.skip(n as int)) {
            Some((b, _)) => Some((a, b)),
            None => None,
        },
        None => None,
    }
}

/// Chunk coordinates of a LevelChunkWithLight frame.
pub fn chunk_key(body: &[u8]) -> (r: Option<(i32, i32)>)
    ensures
        r == chunk_at(body@),
{
    if body.len() >= 8 {
        let x: i32 = wire::to_signed(wire::read_be_u32(body, 0));
        let z: i32 = wire::to_signed(wire::read_be_u32(body, 4));
        Some((x, z))
    } else {
        None
    }
}

/// Chunk coordinates of a ForgetLevelChunk frame.
pub fn forget_chunk_key(body: &[u8]) -> (r: Option<(i32, i32)>)
    ensures
        r == forgotten_chunk(body@),
{
    if body.len() >= 8 {
        let x: i32 = wire::to_signed(wire::read_be_u32(body, 4));
        let z: i32 = wire::to_signed(wire::read_be_u32(body, 0));
        Some((x, z))
    } else {
        None
    }
}

/// Reads the two variable-length integers at the front of a payload, such as
/// an entity id and a registry id.
pub fn leading_varint_pair(body: &[u8]) -> (r: Option<(u32, u32)>)
    ensures
        r == leading_pair(body@),
{
    match wire::take_varint(body) {
        Some((a, n)) => match wire::take_varint_at(body, n) {
            Some((b, _)) => Some((a, b)),
            None => None,
        },
        None => None,
    }
}

/// Chunk coordinates of a SetChunkCacheCenter frame: two variable-length
/// integers.
pub fn chunk_center(body: &[u8]) -> (r: Option<(i32, i32)>)
    ensures
        r == (match leading_pair(body@) {
            Some((x, z)) => Some((wire::signed(x), wire::signed(z))),
            None => None,
        }),
{
    match leading_varint_pair(body) {
        Some((x, z)) => Some((wire::to_signed(x), wire::to_signed(z))),
        None => None,
    }
}

/// A chunk's coordinates are read back from the payload that encodes them.
pub proof fn chunk_keys_roundtrip(x: i32, z: i32, rest: Seq<u8>)
    ensures
        chunk_at(wire::be4(wire::unsigned(x)) + wire::be4(wire::unsigned(z)) + rest) == Some(
            (x, z),
        ),
        forgotten_chunk(wire::be4(wire::unsigned(z)) + wire::be4(wire::unsigned(x)) + rest) == Some(
            (x, z),
        ),
{
    let a = wire::unsigned(x);
    let b = wire::unsigned(z);
    wire::big_endian_roundtrip(0, a);
    wire::big_endian_roundtrip(0, b);
    wire::signed_roundtrip(x);
    wire::signed_roundtrip(z);
    front(a, b, rest);
    front(b, a, rest);
}

proof fn front(a: u32, b: u32, rest: Seq<u8>)
    ensures
        wire::be_u32(wire::be4(a) + wire::be4(b) + rest, 0) == a,
        wire::be_u32(wire::be4(a) + wire::be4(b) + rest, 4) == b,
{
    wire::big_endian_roundtrip(0, a);
    wire::big_endian_roundtrip(0, b);
    let s = wire::be4(a) + wire::be4(b) + rest;
    let p = wire::be4(a);
    let q = wire::be4(b);
    assert(s[0] == p[0] && s[1] == p[1] && s[2] == p[2] && s[3] == p[3]);
    assert(s[4] == q[0] && s[5] == q[1] && s[6] == q[2] && s[7] == q[3]);
}

/// The centre of the loaded chunks is read back from its payload.
pub proof fn chunk_center_roundtrip(x: i32, z: i32, rest: Seq<u8>)
    ensures
        leading_pair(wire::varint(wire::unsigned(x)) + wire::varint(wire::unsigned(z)) + rest)
            == Some((wire::unsigned(x), wire::unsigned(z))),
{
    let a = wire::unsigned(x);
    let b = wire::unsigned(z);
    let s = wire::varint(a) + wire::varint(b) + rest;
    wire::varint_roundtrip(a, wire::varint(b) + rest);
    wire::varint_roundtrip(b, rest);
    assert(s =~= wire::varint(a) + (wire::varint(b) + rest));
    assert(s.skip(wire::varint(a).len() as int) =~= wire::varint(b) + rest);
}

} // verus!
