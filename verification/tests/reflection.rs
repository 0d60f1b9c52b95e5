use azalea_reflection_proxy::ids;
use azalea_reflection_proxy::packet::{Look, Packet, Point};
use azalea_reflection_proxy::plugin::Frame;
use azalea_reflection_proxy::reflect::{
    accept_teleport_frame, apply_controller_move, apply_server_teleport, bot_info_frame,
    camera_frame, config_keepalive_reply, controller_kit, gamemode_event_frame, gamemode_kit,
    handoff_teleport_frame, idle_move_frame, keepalive_id, keepalive_reply, move_frames,
    reflected_bundle, remove_reflected_frame, retarget_self_visual, spawn_frames, spectator_kit,
    system_chat_frame, teleport_id, viewer_kit, BotPose, HANDOFF_TELEPORT_ID, REFLECTED_ENTITY_ID,
};

fn point(x: f64, y: f64, z: f64) -> Point {
    Point { x: x.to_bits(), y: y.to_bits(), z: z.to_bits() }
}

fn look(y_rot: f32, x_rot: f32) -> Look {
    Look { y_rot: y_rot.to_bits(), x_rot: x_rot.to_bits() }
}

fn standing() -> BotPose {
    BotPose { pos: Some(point(1.5, 64.0, -2.0)), look: look(90.0, -10.0), on_ground: true }
}

fn doubles(values: &[f64]) -> Vec<u8> {
    let mut out = Vec::new();
    for v in values {
        out.extend_from_slice(&v.to_be_bytes());
    }
    out
}

fn singles(values: &[f32]) -> Vec<u8> {
    let mut out = Vec::new();
    for v in values {
        out.extend_from_slice(&v.to_be_bytes());
    }
    out
}

/// The reflected entity's id as a variable-length integer.
fn reflected_id() -> Vec<u8> {
    vec![0xff, 0xa7, 0xd6, 0xb9, 0x07]
}

#[test]
fn controller_move_roundtrips_through_azalea_encoder() {
    let mut body = doubles(&[100.5, 64.0, -20.25]);
    body.extend(singles(&[90.0, -10.0]));
    body.push(1);
    let frame = Frame { packet_id: ids::SB_GAME_MOVE_PLAYER_POS_ROT, body };
    let mut pose = BotPose::default();
    assert!(apply_controller_move(&mut pose, &frame));
    assert_eq!(pose.pos, Some(point(100.5, 64.0, -20.25)));
    assert_eq!(f32::from_bits(pose.look.y_rot), 90.0);
    assert_eq!(f32::from_bits(pose.look.x_rot), -10.0);
    assert!(pose.on_ground);
}

#[test]
fn spawn_and_move_need_a_position() {
    let pose = BotPose::default();
    assert!(spawn_frames(0, &pose).is_empty());
    assert!(move_frames(&pose).is_empty());
}

#[test]
fn positions_and_turns_move_alone_too() {
    let mut pose = standing();
    let mut body = doubles(&[7.0, 8.0, 9.0]);
    body.push(2);
    assert!(apply_controller_move(
        &mut pose,
        &Frame { packet_id: ids::SB_GAME_MOVE_PLAYER_POS, body }
    ));
    assert_eq!(pose.pos, Some(point(7.0, 8.0, 9.0)));
    assert_eq!(pose.look, look(90.0, -10.0));
    assert!(!pose.on_ground);
    let mut body = singles(&[-45.0, 30.0]);
    body.push(3);
    assert!(apply_controller_move(
        &mut pose,
        &Frame { packet_id: ids::SB_GAME_MOVE_PLAYER_ROT, body }
    ));
    assert_eq!(pose.pos, Some(point(7.0, 8.0, 9.0)));
    assert_eq!(pose.look, look(-45.0, 30.0));
    assert!(pose.on_ground);
}

#[test]
fn what_is_no_movement_moves_nothing() {
    let mut pose = standing();
    for (packet_id, len) in [
        (ids::SB_GAME_MOVE_PLAYER_POS, 24),
        (ids::SB_GAME_MOVE_PLAYER_POS_ROT, 32),
        (ids::SB_GAME_MOVE_PLAYER_ROT, 8),
        (ids::SB_GAME_SWING, 40),
    ] {
        assert!(!apply_controller_move(&mut pose, &Frame { packet_id, body: vec![0; len] }));
        assert_eq!(pose, standing());
    }
}

fn teleport(flags: u32) -> Frame {
    let mut body = vec![0x85, 0x01];
    body.extend(doubles(&[3.0, 70.0, 5.0, 0.0, 0.0, 0.0]));
    body.extend(singles(&[10.0, 20.0]));
    body.extend_from_slice(&flags.to_be_bytes());
    Frame { packet_id: ids::CB_GAME_PLAYER_POSITION, body }
}

#[test]
fn absolute_teleports_set_the_pose() {
    let mut pose = standing();
    apply_server_teleport(&mut pose, &teleport(0));
    assert_eq!(pose.pos, Some(point(3.0, 70.0, 5.0)));
    assert_eq!(pose.look, look(10.0, 20.0));
    assert!(pose.on_ground);
    // A relative velocity makes neither position nor view direction relative.
    let mut pose = standing();
    apply_server_teleport(&mut pose, &teleport(0b1_1110_0000));
    assert_eq!(pose.pos, Some(point(3.0, 70.0, 5.0)));
    assert_eq!(pose.look, look(10.0, 20.0));
}

#[test]
fn relative_or_cut_teleports_are_left_to_the_controller() {
    for flags in [1, 2, 4, 7, 8, 16, 24, 31] {
        let mut pose = standing();
        apply_server_teleport(&mut pose, &teleport(flags));
        assert_eq!(pose, standing());
    }
    let mut cut = teleport(0);
    cut.body.pop();
    let mut pose = standing();
    apply_server_teleport(&mut pose, &cut);
    assert_eq!(pose, standing());
}

#[test]
fn frames_of_other_kinds_teleport_nobody() {
    for packet_id in [
        ids::CB_GAME_PLAYER_LOOK_AT,
        ids::CB_GAME_PLAYER_ROTATION,
        ids::CB_GAME_ENTITY_POSITION_SYNC,
        0,
    ] {
        let mut pose = BotPose::default();
        apply_server_teleport(&mut pose, &Frame { packet_id, body: vec![0; 61] });
        assert_eq!(pose, BotPose::default());
        let mut pose = standing();
        apply_server_teleport(&mut pose, &Frame { packet_id, ..teleport(0) });
        assert_eq!(pose, standing());
    }
    let mut pose = BotPose::default();
    let packet_id = ids::CB_GAME_PLAYER_POSITION;
    apply_server_teleport(&mut pose, &Frame { packet_id, body: vec![0; 61] });
    assert_eq!(pose.pos, Some(point(0.0, 0.0, 0.0)));
}

#[test]
fn keepalives_carry_their_id_both_ways() {
    let frame = Frame { packet_id: ids::CB_GAME_KEEP_ALIVE, body: vec![1, 2, 3, 4, 5, 6, 7, 8] };
    assert_eq!(keepalive_id(&frame), Some(0x0102_0304_0506_0708));
    let reply = keepalive_reply(0x0102_0304_0506_0708);
    assert_eq!(reply.packet_id, ids::SB_GAME_KEEP_ALIVE);
    assert_eq!(reply.body, frame.body);
    let reply = config_keepalive_reply(0x0102_0304_0506_0708);
    assert_eq!(reply.packet_id, ids::SB_CONFIG_KEEP_ALIVE);
    assert_eq!(reply.body, frame.body);
    assert_eq!(keepalive_id(&Frame { packet_id: 0, body: vec![0; 7] }), None);
}

#[test]
fn teleport_ids_are_read_and_accepted() {
    assert_eq!(teleport_id(&teleport(0)), Some(133));
    assert_eq!(teleport_id(&Frame { packet_id: 0, body: vec![] }), None);
    let accept = accept_teleport_frame(133);
    assert_eq!(accept.packet_id, ids::SB_GAME_ACCEPT_TELEPORTATION);
    assert_eq!(accept.body, vec![0x85, 0x01]);
}

#[test]
fn game_modes_travel_as_floats() {
    let f = gamemode_event_frame(2);
    assert_eq!(f.packet_id, ids::CB_GAME_GAME_EVENT);
    assert_eq!(f.body[0], 3);
    assert_eq!(f.body[1..], 2.0f32.to_be_bytes());
}

fn own_mode(packet: &Packet) -> u8 {
    match packet {
        Packet::PlayerInfoUpdate { actions, entries } => {
            assert!(actions.add_player && actions.update_game_mode && actions.update_listed);
            assert!(!actions.update_latency && !actions.update_display_name);
            assert!(!actions.update_list_order && !actions.update_hat);
            assert_eq!(entries.len(), 1);
            assert_eq!(entries[0].profile.uuid, 77);
            assert_eq!(entries[0].profile.name, "Ann");
            assert!(!entries[0].listed);
            entries[0].game_mode
        }
        other => panic!("expected PlayerInfoUpdate, got {other:?}"),
    }
}

fn raw(packet: &Packet) -> &Frame {
    match packet {
        Packet::Raw(f) => f,
        other => panic!("expected a frame, got {other:?}"),
    }
}

#[test]
fn kits_set_mode_event_and_abilities() {
    let kit = viewer_kit(77, "Ann", 1);
    assert_eq!(kit.len(), 3);
    assert_eq!(own_mode(&kit[0]), 1);
    assert_eq!(raw(&kit[1]), &gamemode_event_frame(1));
    let abilities = raw(&kit[2]);
    assert_eq!(abilities.packet_id, ids::CB_GAME_PLAYER_ABILITIES);
    let mut expected = vec![7];
    expected.extend(singles(&[0.05, 0.1]));
    assert_eq!(abilities.body, expected);

    let kit = spectator_kit(77, "Ann");
    assert_eq!(own_mode(&kit[0]), 3);
    assert_eq!(raw(&kit[1]), &gamemode_event_frame(3));

    let kit = gamemode_kit(77, "Ann", 0);
    assert_eq!(kit.len(), 2);
    assert_eq!(own_mode(&kit[0]), 0);

    let kit = controller_kit(77, "Ann", 9);
    assert_eq!(kit.len(), 4);
    // An unknown mode is a spectator's on the tab list.
    assert_eq!(own_mode(&kit[0]), 3);
    assert_eq!(raw(&kit[1]), &gamemode_event_frame(9));
    assert_eq!(raw(&kit[2]).body[0], 0);
    assert_eq!(raw(&kit[3]), &remove_reflected_frame());
}

#[test]
fn the_reflected_entity_is_removed_by_id() {
    let f = remove_reflected_frame();
    assert_eq!(f.packet_id, ids::CB_GAME_REMOVE_ENTITIES);
    let mut body = vec![1];
    body.extend(reflected_id());
    assert_eq!(f.body, body);
}

#[test]
fn the_bundle_clears_lists_and_spawns() {
    let bundle = reflected_bundle(5, "Bot", &standing());
    assert_eq!(bundle.len(), 4);
    assert_eq!(raw(&bundle[0]), &remove_reflected_frame());
    match &bundle[1] {
        Packet::PlayerInfoUpdate { actions, entries } => {
            assert!(actions.update_latency);
            assert_eq!(entries[0].profile.uuid, 5);
            assert_eq!(entries[0].profile.name, "Bot");
            assert_eq!(entries[0].game_mode, 0);
            assert!(entries[0].listed);
        }
        other => panic!("expected PlayerInfoUpdate, got {other:?}"),
    }
    assert_eq!(bundle[1], bot_info_frame(5, "Bot"));
    assert_eq!(
        bundle[2],
        Packet::AddPlayer {
            id: REFLECTED_ENTITY_ID,
            uuid: 5,
            pos: point(1.5, 64.0, -2.0),
            look: look(90.0, -10.0),
        }
    );
    assert_eq!(
        bundle[3],
        Packet::TurnHead { id: REFLECTED_ENTITY_ID, y_rot: 90.0f32.to_bits() }
    );
    assert_eq!(reflected_bundle(5, "Bot", &BotPose::default()).len(), 2);
}

#[test]
fn movement_is_an_absolute_sync_and_a_turned_head() {
    let moved = move_frames(&standing());
    assert_eq!(moved.len(), 2);
    let mut body = reflected_id();
    body.extend(doubles(&[1.5, 64.0, -2.0, 0.0, 0.0, 0.0]));
    body.extend(singles(&[90.0, -10.0]));
    body.push(1);
    assert_eq!(
        moved[0],
        Packet::Raw(Frame { packet_id: ids::CB_GAME_ENTITY_POSITION_SYNC, body })
    );
    assert_eq!(
        moved[1],
        Packet::TurnHead { id: REFLECTED_ENTITY_ID, y_rot: 90.0f32.to_bits() }
    );
}

#[test]
fn the_handover_teleport_lands_on_the_bot() {
    let frame = handoff_teleport_frame(&standing()).unwrap();
    assert_eq!(frame.packet_id, ids::CB_GAME_PLAYER_POSITION);
    assert_eq!(teleport_id(&frame), Some(HANDOFF_TELEPORT_ID));
    let mut pose = BotPose::default();
    apply_server_teleport(&mut pose, &frame);
    assert_eq!(pose.pos, standing().pos);
    assert_eq!(pose.look, standing().look);
    assert!(!pose.on_ground);
    // Whatever the pose of the receiver is.
    let mut pose = BotPose { pos: Some(point(-9.0, 1.0, 9.0)), look: look(1.0, 2.0), ..standing() };
    apply_server_teleport(&mut pose, &frame);
    assert_eq!(pose, standing());
    assert_eq!(handoff_teleport_frame(&BotPose::default()), None);
}

#[test]
fn an_idle_player_reports_where_it_stands() {
    let frame = idle_move_frame(&standing()).unwrap();
    assert_eq!(frame.packet_id, ids::SB_GAME_MOVE_PLAYER_POS);
    let mut body = doubles(&[1.5, 64.0, -2.0]);
    body.push(1);
    assert_eq!(frame.body, body);
    let mut pose = standing();
    assert!(apply_controller_move(&mut pose, &frame));
    assert_eq!(pose, standing());
    assert_eq!(idle_move_frame(&BotPose::default()), None);
}

#[test]
fn cameras_lock_to_entities() {
    let f = camera_frame(300);
    assert_eq!(f.packet_id, ids::CB_GAME_SET_CAMERA);
    assert_eq!(f.body, vec![0xac, 0x02]);
    assert_eq!(camera_frame(-1).body, vec![0xff, 0xff, 0xff, 0xff, 0x0f]);
}

#[test]
fn the_proxy_signs_its_chat() {
    assert_eq!(
        system_chat_frame("hello"),
        Packet::SystemChat { text: "[proxy] hello".to_string() }
    );
}

#[test]
fn visuals_of_the_player_are_retargeted() {
    let frame = Frame { packet_id: 132, body: vec![0xac, 0x02, 9, 8] };
    let mut body = reflected_id();
    body.extend([9, 8]);
    assert_eq!(
        retarget_self_visual(&frame, 300),
        Some(Frame { packet_id: 132, body })
    );
    assert_eq!(retarget_self_visual(&frame, 301), None);
    assert_eq!(retarget_self_visual(&Frame { packet_id: 132, body: vec![] }, 0), None);
}
