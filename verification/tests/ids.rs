//! The packet ids are written out here as azalea 0.16 numbers them; the tables of
//! azalea itself are not consulted.

use azalea_reflection_proxy::ids;

#[test]
fn pinned_ids_match_azalea() {
    assert_eq!(ids::CB_CONFIG_FINISH, 3);
    assert_eq!(ids::SB_CONFIG_FINISH, 3);
    assert_eq!(ids::CB_CONFIG_KEEP_ALIVE, 4);
    assert_eq!(ids::CB_CONFIG_PING, 5);
    assert_eq!(ids::CB_GAME_START_CONFIGURATION, 118);
}

#[test]
fn pinned_game_ids_match_azalea() {
    assert_eq!(ids::CB_GAME_GAME_EVENT, 38);
    assert_eq!(ids::CB_GAME_FORGET_LEVEL_CHUNK, 37);
    assert_eq!(ids::CB_GAME_SET_CHUNK_CACHE_CENTER, 94);
    assert_eq!(ids::CB_GAME_SET_CHUNK_CACHE_RADIUS, 95);
}

#[test]
fn pinned_movement_ids_match_azalea() {
    assert_eq!(ids::SB_GAME_MOVE_PLAYER_POS, 30);
    assert_eq!(ids::SB_GAME_MOVE_PLAYER_POS_ROT, 31);
    assert_eq!(ids::SB_GAME_MOVE_PLAYER_ROT, 32);
    assert_eq!(ids::CB_GAME_PLAYER_ABILITIES, 64);
    assert_eq!(ids::CB_GAME_PLAYER_LOOK_AT, 71);
    assert_eq!(ids::CB_GAME_PLAYER_ROTATION, 73);
    assert_eq!(ids::SB_GAME_PLAYER_ACTION, 41);
    assert_eq!(ids::SB_GAME_PLAYER_COMMAND, 42);
    assert_eq!(ids::SB_GAME_PLAYER_INPUT, 43);
    assert_eq!(ids::SB_GAME_SET_CARRIED_ITEM, 53);
    assert_eq!(ids::SB_GAME_SWING, 63);
    assert_eq!(ids::SB_GAME_USE_ITEM, 67);
}

#[test]
fn pinned_snapshot_and_handoff_ids_match_azalea() {
    assert_eq!(ids::CB_GAME_ADD_ENTITY, 1);
    assert_eq!(ids::CB_GAME_BLOCK_ENTITY_DATA, 6);
    assert_eq!(ids::CB_GAME_BLOCK_UPDATE, 8);
    assert_eq!(ids::CB_GAME_ENTITY_POSITION_SYNC, 35);
    assert_eq!(ids::CB_GAME_KEEP_ALIVE, 44);
    assert_eq!(ids::CB_GAME_MOVE_ENTITY_POS, 53);
    assert_eq!(ids::CB_GAME_MOVE_ENTITY_POS_ROT, 54);
    assert_eq!(ids::CB_GAME_MOVE_ENTITY_ROT, 56);
    assert_eq!(ids::CB_GAME_PLAYER_INFO_REMOVE, 69);
    assert_eq!(ids::CB_GAME_REMOVE_ENTITIES, 77);
    assert_eq!(ids::CB_GAME_RESET_SCORE, 79);
    assert_eq!(ids::CB_GAME_ROTATE_HEAD, 83);
    assert_eq!(ids::CB_GAME_SECTION_BLOCKS_UPDATE, 84);
    assert_eq!(ids::CB_GAME_SET_HEALTH, 104);
    assert_eq!(ids::CB_GAME_SET_PLAYER_INVENTORY, 108);
    assert_eq!(ids::CB_GAME_SET_PASSENGERS, 107);
    assert_eq!(ids::CB_GAME_BOSS_EVENT, 9);
    assert_eq!(ids::CB_GAME_SYSTEM_CHAT, 121);
    assert_eq!(ids::CB_GAME_TELEPORT_ENTITY, 125);
    assert_eq!(ids::SB_GAME_ACCEPT_TELEPORTATION, 0);
    assert_eq!(ids::SB_GAME_KEEP_ALIVE, 28);
    assert_eq!(ids::CB_GAME_SET_CAMERA, 93);
    assert_eq!(ids::SB_CONFIG_KEEP_ALIVE, 4);
}

#[test]
fn pinned_qol_snapshot_ids_match_azalea() {
    assert_eq!(ids::CB_GAME_CHANGE_DIFFICULTY, 10);
    assert_eq!(ids::CB_GAME_CHUNKS_BIOMES, 13);
    assert_eq!(ids::CB_GAME_COOLDOWN, 22);
    assert_eq!(ids::CB_GAME_GAME_RULE_VALUES, 39);
    assert_eq!(ids::CB_GAME_INITIALIZE_BORDER, 43);
    assert_eq!(ids::CB_GAME_LIGHT_UPDATE, 48);
    assert_eq!(ids::CB_GAME_MAP_ITEM_DATA, 51);
    assert_eq!(ids::CB_GAME_SET_BORDER_CENTER, 88);
    assert_eq!(ids::CB_GAME_SET_BORDER_LERP_SIZE, 89);
    assert_eq!(ids::CB_GAME_SET_BORDER_SIZE, 90);
    assert_eq!(ids::CB_GAME_SET_BORDER_WARNING_DELAY, 91);
    assert_eq!(ids::CB_GAME_SET_BORDER_WARNING_DISTANCE, 92);
    assert_eq!(ids::CB_GAME_SET_CURSOR_ITEM, 96);
    assert_eq!(ids::CB_GAME_SET_ENTITY_LINK, 100);
    assert_eq!(ids::CB_GAME_SET_ENTITY_MOTION, 101);
    assert_eq!(ids::CB_GAME_SET_SIMULATION_DISTANCE, 111);
}

#[test]
fn finish_frame_is_empty_bodied() {
    let f = ids::finish_config_frame();
    assert_eq!(f.packet_id, ids::CB_CONFIG_FINISH);
    assert!(f.body.is_empty());
}

#[test]
fn forget_chunk_key_roundtrips_through_azalea_encoder() {
    // A packed position: z in the high half, x in the low one.
    let long: u64 = (5i32 as u32 as u64) | ((-3i32 as u32 as u64) << 32);
    assert_eq!(ids::forget_chunk_key(&long.to_be_bytes()), Some((5, -3)));
}

#[test]
fn chunk_key_matches_azalea_i32_encoding() {
    let mut body = Vec::new();
    body.extend_from_slice(&(-7i32).to_be_bytes());
    body.extend_from_slice(&12i32.to_be_bytes());
    body.extend_from_slice(&[0xAA; 16]);
    assert_eq!(ids::chunk_key(&body), Some((-7, 12)));
}

#[test]
fn chunk_center_roundtrips_through_azalea_encoder() {
    // -12 and 34 as variable-length integers.
    let body = [0xf4, 0xff, 0xff, 0xff, 0x0f, 34];
    assert_eq!(ids::chunk_center(&body), Some((-12, 34)));
}

#[test]
fn chunk_keys_need_eight_bytes() {
    assert_eq!(ids::chunk_key(&[0; 7]), None);
    assert_eq!(ids::forget_chunk_key(&[0; 7]), None);
    assert_eq!(ids::chunk_key(&[0; 8]), Some((0, 0)));
    assert_eq!(ids::chunk_center(&[0xf4, 0xff]), None);
    assert_eq!(ids::chunk_center(&[1]), None);
}

#[test]
fn waiting_for_chunks_is_event_thirteen() {
    let f = ids::wait_for_chunks_frame();
    assert_eq!(f.packet_id, ids::CB_GAME_GAME_EVENT);
    assert_eq!(f.body, vec![13, 0, 0, 0, 0]);
}

#[test]
fn leading_pair_reads_two_integers() {
    assert_eq!(ids::leading_varint_pair(&[0x80, 0x01, 7, 9]), Some((128, 7)));
    assert_eq!(ids::leading_varint_pair(&[0x80, 0x01]), None);
}
