use azalea_reflection_proxy::events::{Action, ClientId, ProxyEvent};
use azalea_reflection_proxy::ids;
use azalea_reflection_proxy::packet::{
    GamePacket, Packet, PlayerInfoActions, PlayerInfoEntry, Point, Profile, Turn,
};
use azalea_reflection_proxy::plugin::{Frame, Pipeline, ProxyPlugin, Verdict};
use azalea_reflection_proxy::reflect::{
    accept_teleport_frame, camera_frame, controller_kit, gamemode_kit, handoff_teleport_frame,
    idle_move_frame, move_frames, reflected_bundle, spectator_kit, viewer_kit, BotPose,
    HANDOFF_TELEPORT_ID, REFLECTED_ENTITY_ID,
};
use azalea_reflection_proxy::session::{Session, SessionOpts};

const BOT: ClientId = 1;
const ANN: ClientId = 2;
const BEN: ClientId = 3;
const BOT_UUID: u128 = 0xB07;

fn frame(packet_id: u32, body: &[u8]) -> Frame {
    Frame { packet_id, body: body.to_vec() }
}

fn opts() -> SessionOpts {
    SessionOpts { max_clients: None, always_first_control: false }
}

fn nothing() -> Pipeline {
    Pipeline { plugins: vec![] }
}

/// A session in the configuration state, its first actions taken.
fn fresh(opts: SessionOpts) -> Session {
    let mut s = Session::start(BOT, "bot", 10, BOT_UUID, "RealBot", opts);
    s.take_actions();
    s
}

fn upstream(s: &mut Session, f: &Frame, p: GamePacket) {
    s.on_upstream_frame(f, &p, 0);
}

fn login_frame() -> Frame {
    frame(ids::CB_GAME_LOGIN, &[1])
}

fn enter_game(s: &mut Session) {
    upstream(s, &frame(ids::CB_CONFIG_FINISH, &[]), GamePacket::Opaque);
    upstream(s, &login_frame(), GamePacket::Login { game_mode: 2, player_id: 42 });
    s.settle(0);
}

/// A session in the game state with nothing left to do.
fn playing(opts: SessionOpts) -> Session {
    let mut s = fresh(opts);
    upstream(&mut s, &frame(7, &[1, 2]), GamePacket::Opaque);
    enter_game(&mut s);
    s.take_actions();
    s
}

fn from(s: &mut Session, id: ClientId, f: Frame) {
    s.on_client_frame(&nothing(), id, f, &None, 0);
}

fn say(s: &mut Session, id: ClientId, text: &str) {
    s.on_client_frame(
        &nothing(),
        id,
        frame(ids::SB_GAME_CHAT, b"chat"),
        &Some(text.to_string()),
        0,
    );
}

fn join(s: &mut Session, id: ClientId, name: &str) {
    s.on_attach(id, name, 100 + id as u128);
    from(s, id, frame(ids::SB_CONFIG_FINISH, &[]));
    s.take_actions();
}

fn to_server(actions: &[Action]) -> Vec<Frame> {
    actions
        .iter()
        .filter_map(|a| match a {
            Action::ToServer { frame, .. } => Some(frame.clone()),
            _ => None,
        })
        .collect()
}

fn to_client(actions: &[Action], to: ClientId) -> Vec<Packet> {
    let mut out = vec![];
    for a in actions {
        if let Action::ToClient { id, packets, .. } = a {
            if *id == to {
                out.extend(packets.iter().cloned());
            }
        }
    }
    out
}

fn events(actions: &[Action]) -> Vec<ProxyEvent> {
    actions
        .iter()
        .filter_map(|a| match a {
            Action::Emit(e) => Some(e.clone()),
            _ => None,
        })
        .collect()
}

fn chat(text: &str) -> Packet {
    Packet::SystemChat { text: format!("[proxy] {text}") }
}

fn raw(f: &Frame) -> Packet {
    Packet::Raw(f.clone())
}

fn point(x: f64) -> Point {
    Point { x: x.to_bits(), y: 64.0f64.to_bits(), z: 0 }
}

fn move_frame(x: f64) -> Frame {
    let mut body = vec![];
    for v in [x, 64.0, 0.0] {
        body.extend_from_slice(&v.to_be_bytes());
    }
    body.push(1);
    frame(ids::SB_GAME_MOVE_PLAYER_POS, &body)
}

fn pose(x: f64) -> BotPose {
    BotPose { pos: Some(point(x)), on_ground: true, ..BotPose::default() }
}

fn control(id: ClientId, name: &str) -> ProxyEvent {
    ProxyEvent::ControlChanged { controller: Some((id, name.to_string())) }
}

#[test]
fn a_session_starts_with_its_controller() {
    let mut s = Session::start(BOT, "bot", 10, BOT_UUID, "RealBot", opts());
    assert_eq!(s.controller(), Some(BOT));
    assert_eq!(s.client_count(), 1);
    assert!(!s.in_game() && !s.is_over());
    assert_eq!(
        events(&s.take_actions()),
        vec![
            ProxyEvent::SessionStarted,
            ProxyEvent::ClientJoined { id: BOT, username: "bot".to_string() },
            control(BOT, "bot"),
        ]
    );
    assert!(s.take_actions().is_empty());
}

#[test]
fn clientbound_frames_reach_every_live_client() {
    let mut s = playing(opts());
    join(&mut s, ANN, "Ann");
    let f = frame(60, &[5]);
    upstream(&mut s, &f, GamePacket::Opaque);
    let actions = s.take_actions();
    assert_eq!(
        actions,
        vec![
            Action::ToClient { id: BOT, packets: vec![raw(&f)], must: true },
            Action::ToClient { id: ANN, packets: vec![raw(&f)], must: true },
        ]
    );
}

#[test]
fn only_the_controller_is_heard() {
    let mut s = playing(opts());
    join(&mut s, ANN, "Ann");
    let swing = frame(ids::SB_GAME_SWING, &[0]);
    from(&mut s, ANN, swing.clone());
    assert!(s.take_actions().is_empty());
    from(&mut s, BOT, swing.clone());
    assert_eq!(s.take_actions(), vec![Action::ToServer { frame: swing, must: true }]);
}

#[test]
fn keepalives_are_answered_by_the_proxy_alone() {
    let mut s = fresh(opts());
    let id = [1, 2, 3, 4, 5, 6, 7, 8];
    upstream(&mut s, &frame(ids::CB_CONFIG_KEEP_ALIVE, &id), GamePacket::Opaque);
    assert_eq!(to_server(&s.take_actions()), vec![frame(ids::SB_CONFIG_KEEP_ALIVE, &id)]);
    from(&mut s, BOT, frame(ids::SB_CONFIG_KEEP_ALIVE, &id));
    assert!(s.take_actions().is_empty());
    let mut s = playing(opts());
    upstream(&mut s, &frame(ids::CB_GAME_KEEP_ALIVE, &id), GamePacket::Opaque);
    let actions = s.take_actions();
    assert_eq!(to_server(&actions), vec![frame(ids::SB_GAME_KEEP_ALIVE, &id)]);
    // The controller's client still sees it.
    assert_eq!(to_client(&actions, BOT), vec![raw(&frame(ids::CB_GAME_KEEP_ALIVE, &id))]);
    from(&mut s, BOT, frame(ids::SB_GAME_KEEP_ALIVE, &id));
    assert!(s.take_actions().is_empty());
    // Too short to answer.
    upstream(&mut s, &frame(ids::CB_GAME_KEEP_ALIVE, &id[..7]), GamePacket::Opaque);
    assert!(to_server(&s.take_actions()).is_empty());
}

fn position(id: u8) -> Frame {
    let mut body = vec![id];
    for v in [3.0f64, 64.0, 0.0, 0.0, 0.0, 0.0] {
        body.extend_from_slice(&v.to_be_bytes());
    }
    body.extend_from_slice(&[0; 12]);
    frame(ids::CB_GAME_PLAYER_POSITION, &body)
}

#[test]
fn teleports_are_confirmed_only_without_a_controller() {
    let mut s = playing(opts());
    join(&mut s, ANN, "Ann");
    upstream(&mut s, &position(9), GamePacket::Opaque);
    assert!(to_server(&s.take_actions()).is_empty());
    say(&mut s, BOT, ",release");
    s.take_actions();
    upstream(&mut s, &position(9), GamePacket::Opaque);
    assert_eq!(to_server(&s.take_actions()), vec![accept_teleport_frame(9)]);
}

#[test]
fn viewers_keep_their_own_camera_and_mode() {
    let mut s = playing(opts());
    join(&mut s, ANN, "Ann");
    let abilities = frame(ids::CB_GAME_PLAYER_ABILITIES, &[1]);
    let mode = frame(ids::CB_GAME_GAME_EVENT, &[3, 0x3f, 0x80, 0, 0]);
    let rain = frame(ids::CB_GAME_GAME_EVENT, &[1, 0, 0, 0, 0]);
    // One position is owed since the login.
    upstream(&mut s, &position(1), GamePacket::Opaque);
    for f in [&position(2), &abilities, &mode, &rain] {
        upstream(&mut s, f, GamePacket::Opaque);
    }
    let actions = s.take_actions();
    assert_eq!(to_client(&actions, ANN), vec![raw(&position(1)), raw(&rain)]);
    assert_eq!(
        to_client(&actions, BOT),
        vec![
            raw(&position(1)),
            raw(&position(2)),
            raw(&abilities),
            raw(&mode),
            raw(&rain),
        ]
    );
    // A new dimension owes one more.
    let respawn = frame(ids::CB_GAME_RESPAWN, &[1]);
    upstream(&mut s, &respawn, GamePacket::Respawn { data_to_keep: 3 });
    upstream(&mut s, &position(3), GamePacket::Opaque);
    upstream(&mut s, &position(4), GamePacket::Opaque);
    assert_eq!(to_client(&s.take_actions(), ANN), vec![raw(&respawn), raw(&position(3))]);
}

#[test]
fn a_late_viewer_is_replayed_into_the_session() {
    let mut s = playing(opts());
    let spawn_pos = frame(ids::CB_GAME_SET_DEFAULT_SPAWN_POSITION, &[1]);
    let center = frame(ids::CB_GAME_SET_CHUNK_CACHE_CENTER, &[2]);
    let radius = frame(ids::CB_GAME_SET_CHUNK_CACHE_RADIUS, &[3]);
    let chunk = frame(ids::CB_GAME_LEVEL_CHUNK_WITH_LIGHT, &[0, 0, 0, 1, 0, 0, 0, 2, 9]);
    let gone = frame(ids::CB_GAME_LEVEL_CHUNK_WITH_LIGHT, &[0, 0, 0, 5, 0, 0, 0, 6, 9]);
    let forget = frame(ids::CB_GAME_FORGET_LEVEL_CHUNK, &[0, 0, 0, 6, 0, 0, 0, 5]);
    let health = frame(ids::CB_GAME_SET_HEALTH, &[4]);
    for f in [&spawn_pos, &center, &radius, &chunk, &gone, &forget, &position(5), &health] {
        upstream(&mut s, f, GamePacket::Opaque);
    }
    s.take_actions();
    s.on_attach(ANN, "Ann", 102);
    let actions = s.take_actions();
    assert_eq!(
        events(&actions),
        vec![ProxyEvent::ClientJoined { id: ANN, username: "Ann".to_string() }]
    );
    assert_eq!(
        to_client(&actions, ANN),
        vec![raw(&frame(7, &[1, 2])), raw(&frame(ids::CB_CONFIG_FINISH, &[]))]
    );
    // Not live yet.
    upstream(&mut s, &frame(60, &[]), GamePacket::Opaque);
    assert!(to_client(&s.take_actions(), ANN).is_empty());
    from(&mut s, ANN, frame(ids::SB_CONFIG_FINISH, &[]));
    let mut expected = vec![
        raw(&login_frame()),
        raw(&spawn_pos),
        raw(&position(5)),
        raw(&frame(ids::CB_GAME_GAME_EVENT, &[13, 0, 0, 0, 0])),
        raw(&radius),
        raw(&center),
        raw(&chunk),
        raw(&health),
        raw(&frame(ids::CB_GAME_SET_HELD_SLOT, &[0])),
    ];
    expected.extend(spectator_kit(102, "Ann"));
    let mut at = pose(3.0);
    at.on_ground = false;
    expected.extend(reflected_bundle(BOT_UUID, "RealBot", &at));
    let actions = s.take_actions();
    assert_eq!(
        actions,
        vec![Action::ToClient { id: ANN, packets: expected, must: true }]
    );
    upstream(&mut s, &frame(60, &[]), GamePacket::Opaque);
    assert_eq!(to_client(&s.take_actions(), ANN), vec![raw(&frame(60, &[]))]);
}

#[test]
fn early_viewers_wait_for_the_login() {
    let mut s = fresh(opts());
    let registry = frame(7, &[1]);
    upstream(&mut s, &registry, GamePacket::Opaque);
    upstream(&mut s, &frame(ids::CB_CONFIG_PING, &[0; 4]), GamePacket::Opaque);
    upstream(&mut s, &frame(ids::CB_CONFIG_KEEP_ALIVE, &[0; 8]), GamePacket::Opaque);
    s.on_attach(ANN, "Ann", 102);
    assert!(to_client(&s.take_actions(), ANN).is_empty());
    enter_game(&mut s);
    // Pings and keep-alives would be stale and are not replayed.
    assert_eq!(
        to_client(&s.take_actions(), ANN),
        vec![raw(&registry), raw(&frame(ids::CB_CONFIG_FINISH, &[]))]
    );
}

#[test]
fn the_first_game_frame_must_be_a_login() {
    let mut s = fresh(opts());
    upstream(&mut s, &frame(ids::CB_CONFIG_FINISH, &[]), GamePacket::Opaque);
    upstream(&mut s, &frame(50, &[]), GamePacket::Opaque);
    assert!(s.take_actions().contains(&Action::StaleIds { packet_id: 50 }));
    upstream(&mut s, &frame(51, &[]), GamePacket::Opaque);
    assert!(!s.take_actions().contains(&Action::StaleIds { packet_id: 51 }));
    let mut s = fresh(opts());
    enter_game(&mut s);
    assert!(!s.take_actions().iter().any(|a| matches!(a, Action::StaleIds { .. })));
}

#[test]
fn viewers_are_made_viewers_again_after_a_login_or_respawn() {
    let mut s = playing(opts());
    join(&mut s, ANN, "Ann");
    s.on_attach(BEN, "Ben", 103);
    s.take_actions();
    say(&mut s, ANN, ",spectate");
    s.take_actions();
    upstream(
        &mut s,
        &frame(ids::CB_GAME_RESPAWN, &[1]),
        GamePacket::Respawn { data_to_keep: 3 },
    );
    let broadcast = s.take_actions();
    assert_eq!(to_client(&broadcast, ANN).len(), 1);
    s.settle(0);
    let actions = s.take_actions();
    let mut expected = spectator_kit(102, "Ann");
    expected.push(raw(&frame(ids::CB_GAME_SET_HELD_SLOT, &[0])));
    assert_eq!(
        actions,
        vec![Action::ToClient { id: ANN, packets: expected, must: false }]
    );
    // The camera lock is gone with the old world.
    say(&mut s, ANN, ",spectate");
    assert!(to_client(&s.take_actions(), ANN)
        .contains(&chat("camera locked — ,spectate again to release")));
    s.settle(0);
    assert!(s.take_actions().is_empty());
}

#[test]
fn control_is_acquired_and_its_holder_demoted() {
    let mut s = playing(opts());
    join(&mut s, ANN, "Ann");
    from(&mut s, BOT, move_frame(8.0));
    let abilities = frame(ids::CB_GAME_PLAYER_ABILITIES, &[1]);
    upstream(&mut s, &abilities, GamePacket::Opaque);
    s.take_actions();
    say(&mut s, ANN, ",acquire");
    assert_eq!(s.controller(), Some(ANN));
    let actions = s.take_actions();
    let mut demoted = spectator_kit(10, "bot");
    demoted.push(raw(&frame(ids::CB_GAME_SET_HELD_SLOT, &[0])));
    demoted.extend(reflected_bundle(BOT_UUID, "RealBot", &pose(8.0)));
    demoted.push(chat("your control was taken by another client"));
    assert_eq!(to_client(&actions, BOT), demoted);
    let mut promoted = controller_kit(102, "Ann", 2);
    promoted.push(raw(&abilities));
    promoted.push(raw(&handoff_teleport_frame(&pose(8.0)).unwrap()));
    promoted.push(chat("you have control now"));
    assert_eq!(to_client(&actions, ANN), promoted);
    assert_eq!(events(&actions), vec![control(ANN, "Ann")]);
    assert!(to_server(&actions).is_empty());
    say(&mut s, ANN, ",acquire");
    assert_eq!(to_client(&s.take_actions(), ANN), vec![chat("you already have control")]);
}

#[test]
fn the_handover_accept_is_swallowed_and_no_other() {
    let mut s = playing(opts());
    join(&mut s, ANN, "Ann");
    from(&mut s, BOT, move_frame(8.0));
    say(&mut s, ANN, ",acquire");
    s.take_actions();
    // A real teleport races the handover.
    from(&mut s, ANN, accept_teleport_frame(5));
    assert_eq!(to_server(&s.take_actions()), vec![accept_teleport_frame(5)]);
    from(&mut s, ANN, accept_teleport_frame(HANDOFF_TELEPORT_ID));
    assert!(s.take_actions().is_empty());
    from(&mut s, ANN, accept_teleport_frame(HANDOFF_TELEPORT_ID));
    assert_eq!(
        to_server(&s.take_actions()),
        vec![accept_teleport_frame(HANDOFF_TELEPORT_ID)]
    );
}

#[test]
fn control_is_released() {
    let mut s = playing(opts());
    join(&mut s, ANN, "Ann");
    say(&mut s, ANN, ",release");
    assert_eq!(to_client(&s.take_actions(), ANN), vec![chat("you are not the controller")]);
    say(&mut s, BOT, ",release");
    assert_eq!(s.controller(), None);
    let actions = s.take_actions();
    assert_eq!(
        to_client(&actions, BOT).last(),
        Some(&chat("control released; proxy is keeping the session alive"))
    );
    assert_eq!(events(&actions), vec![ProxyEvent::ControlChanged { controller: None }]);
    assert!(to_client(&actions, ANN).is_empty());
}

#[test]
fn released_control_goes_to_the_oldest_viewer_where_it_is_set_so() {
    let mut s = playing(SessionOpts { max_clients: None, always_first_control: true });
    join(&mut s, BEN, "Ben");
    join(&mut s, ANN, "Ann");
    say(&mut s, BOT, ",release");
    assert_eq!(s.controller(), Some(ANN));
    let actions = s.take_actions();
    assert_eq!(events(&actions), vec![control(ANN, "Ann")]);
    assert_eq!(to_client(&actions, ANN).last(), Some(&chat("you have control now")));
    // With nobody else there, nobody inherits.
    let mut s = playing(SessionOpts { max_clients: None, always_first_control: true });
    say(&mut s, BOT, ",release");
    assert_eq!(s.controller(), None);
}

#[test]
fn a_session_survives_its_controller() {
    let mut s = playing(opts());
    join(&mut s, ANN, "Ann");
    s.drop_client(BOT);
    assert_eq!(s.controller(), None);
    assert!(!s.is_over());
    assert_eq!(
        s.take_actions(),
        vec![
            Action::Emit(ProxyEvent::ClientLeft { id: BOT, username: "bot".to_string() }),
            Action::Close { id: BOT },
            Action::Emit(ProxyEvent::ControlChanged { controller: None }),
        ]
    );
    s.drop_client(ANN);
    assert!(s.is_over());
    s.take_actions();
    s.drop_client(ANN);
    assert!(s.take_actions().is_empty());
}

#[test]
fn the_oldest_live_client_inherits_where_it_is_set_so() {
    let mut s = playing(SessionOpts { max_clients: None, always_first_control: true });
    // Attached first, but not live.
    s.on_attach(ANN, "Ann", 102);
    join(&mut s, 5, "Eve");
    join(&mut s, BEN, "Ben");
    s.delivery_failed(BOT);
    assert_eq!(s.controller(), Some(BEN));
    let actions = s.take_actions();
    assert_eq!(
        to_client(&actions, BEN).last(),
        Some(&chat("previous controller left — you have control now"))
    );
    assert_eq!(
        events(&actions),
        vec![
            ProxyEvent::ClientLeft { id: BOT, username: "bot".to_string() },
            control(BEN, "Ben"),
        ]
    );
}

#[test]
fn there_is_room_for_so_many_clients() {
    let mut s = playing(SessionOpts { max_clients: Some(2), always_first_control: false });
    join(&mut s, ANN, "Ann");
    s.on_attach(BEN, "Ben", 103);
    assert_eq!(s.take_actions(), vec![Action::Refuse { id: BEN }]);
    assert_eq!(s.client_count(), 2);
    s.drop_client(ANN);
    s.take_actions();
    s.on_attach(BEN, "Ben", 103);
    assert_eq!(s.client_count(), 2);
}

#[test]
fn viewers_see_the_bot_move() {
    let mut s = playing(opts());
    join(&mut s, ANN, "Ann");
    from(&mut s, BOT, move_frame(8.0));
    let actions = s.take_actions();
    // The server comes first; the first movement in a world spawns the entity.
    assert_eq!(actions[0], Action::ToServer { frame: move_frame(8.0), must: true });
    assert_eq!(
        actions[1..],
        [Action::ToClient {
            id: ANN,
            packets: reflected_bundle(BOT_UUID, "RealBot", &pose(8.0)),
            must: true,
        }]
    );
    from(&mut s, BOT, move_frame(9.0));
    let actions = s.take_actions();
    assert_eq!(to_client(&actions, ANN), move_frames(&pose(9.0)));
    assert!(to_client(&actions, BOT).is_empty());
}

#[test]
fn a_turn_alone_shows_nothing_before_the_bot_has_a_place() {
    let mut s = playing(opts());
    join(&mut s, ANN, "Ann");
    from(&mut s, BOT, frame(ids::SB_GAME_MOVE_PLAYER_ROT, &[0; 9]));
    let actions = s.take_actions();
    assert_eq!(to_server(&actions).len(), 1);
    assert_eq!(actions.len(), 1);
}

#[test]
fn the_heartbeat_fills_the_silence() {
    let mut s = playing(opts());
    s.stand_in_tick();
    assert!(s.take_actions().is_empty());
    from(&mut s, BOT, move_frame(8.0));
    s.take_actions();
    s.stand_in_tick();
    assert!(s.take_actions().is_empty());
    s.stand_in_tick();
    assert_eq!(
        s.take_actions(),
        vec![Action::ToServer { frame: idle_move_frame(&pose(8.0)).unwrap(), must: false }]
    );
    say(&mut s, BOT, ",release");
    s.take_actions();
    s.stand_in_tick();
    assert_eq!(to_server(&s.take_actions()).len(), 1);
    // Not outside the game state.
    upstream(&mut s, &frame(ids::CB_GAME_START_CONFIGURATION, &[]), GamePacket::Opaque);
    s.take_actions();
    s.stand_in_tick();
    assert!(s.take_actions().is_empty());
}

#[test]
fn cameras_toggle() {
    let mut s = playing(opts());
    join(&mut s, ANN, "Ann");
    say(&mut s, ANN, ",spectate");
    // The bot's game mode and screen come with the camera.
    let mut locked = viewer_kit(102, "Ann", 2);
    locked.push(raw(&frame(ids::CB_GAME_SET_HELD_SLOT, &[0])));
    locked.push(raw(&camera_frame(REFLECTED_ENTITY_ID)));
    locked.push(chat("camera locked — ,spectate again to release"));
    assert_eq!(to_client(&s.take_actions(), ANN), locked);
    // The bot by name is the same target; the camera goes back to the player.
    say(&mut s, ANN, ",spectate  REALbot ");
    let mut released = vec![raw(&camera_frame(42))];
    released.extend(spectator_kit(102, "Ann"));
    released.push(chat("camera released"));
    assert_eq!(to_client(&s.take_actions(), ANN), released);
    say(&mut s, BOT, ",spectate");
    assert_eq!(
        to_client(&s.take_actions(), BOT),
        vec![chat(",release first — the controller cannot spectate")]
    );
    say(&mut s, ANN, ",spectate Nobody");
    assert_eq!(
        to_client(&s.take_actions(), ANN),
        vec![chat("player not found (not in render distance?)")]
    );
    say(&mut s, 77, ",spectate");
    assert!(s.take_actions().is_empty());
}

#[test]
fn cameras_lock_to_players_in_sight() {
    let mut s = playing(opts());
    join(&mut s, ANN, "Ann");
    let entry = PlayerInfoEntry {
        profile: Profile { uuid: 11, name: "Steve".to_string(), properties: vec![] },
        chat_session: None,
        game_mode: 0,
        listed: true,
        latency: 0,
        display_name: None,
        list_order: 0,
        update_hat: false,
    };
    let actions = PlayerInfoActions {
        add_player: true,
        initialize_chat: false,
        update_game_mode: false,
        update_listed: false,
        update_latency: false,
        update_display_name: false,
        update_list_order: false,
        update_hat: false,
    };
    upstream(
        &mut s,
        &frame(ids::CB_GAME_PLAYER_INFO_UPDATE, &[]),
        GamePacket::PlayerInfoUpdate { actions, entries: vec![entry] },
    );
    upstream(
        &mut s,
        &frame(ids::CB_GAME_ADD_ENTITY, &[]),
        GamePacket::AddEntity {
            id: 300,
            uuid: 11,
            pos: point(0.0),
            look: Turn { y_rot: 0, x_rot: 0 },
            head_rot: 0,
            motion: point(0.0),
        },
    );
    s.take_actions();
    say(&mut s, ANN, ",spectate steve");
    assert!(to_client(&s.take_actions(), ANN).contains(&raw(&camera_frame(300))));
    // Another target takes the camera over.
    say(&mut s, ANN, ",spectate");
    assert!(
        to_client(&s.take_actions(), ANN).contains(&raw(&camera_frame(REFLECTED_ENTITY_ID)))
    );
}

#[test]
fn game_modes_change_on_the_client_side_only() {
    let mut s = playing(opts());
    join(&mut s, ANN, "Ann");
    for (arg, mode) in
        [("0", 0), ("Survival", 0), ("1", 1), ("creative", 1), ("ADVENTURE", 2), ("3", 3)]
    {
        say(&mut s, ANN, &format!(",gamemode {arg}"));
        let actions = s.take_actions();
        let mut expected = gamemode_kit(102, "Ann", mode);
        expected.push(chat("client-side game mode updated"));
        assert_eq!(to_client(&actions, ANN), expected);
        assert_eq!(to_server(&actions), vec![]);
    }
    say(&mut s, ANN, ",gm spectator");
    assert_eq!(to_client(&s.take_actions(), ANN).len(), 3);
    say(&mut s, ANN, ",gm 4");
    assert_eq!(
        to_client(&s.take_actions(), ANN),
        vec![chat("usage: ,gamemode <survival|creative|adventure|spectator|0-3>")]
    );
    say(&mut s, BOT, ",gm 1");
    assert_eq!(
        to_client(&s.take_actions(), BOT),
        vec![chat("not while controlling — it would desync your client")]
    );
}

#[test]
fn unknown_commands_list_the_commands() {
    let mut s = playing(opts());
    for text in [",", ",help", ",acquirex", ", acquire"] {
        say(&mut s, BOT, text);
        assert_eq!(
            s.take_actions(),
            vec![Action::ToClient {
                id: BOT,
                packets: vec![chat(
                    "commands: ,acquire ,release ,spectate [player] ,gamemode <0-3|name>"
                )],
                must: false,
            }]
        );
    }
}

#[test]
fn ordinary_chat_is_forwarded() {
    let mut s = playing(opts());
    say(&mut s, BOT, "hello, world");
    assert_eq!(to_server(&s.take_actions()), vec![frame(ids::SB_GAME_CHAT, b"chat")]);
    // A command is one in the game state only.
    let mut s = fresh(opts());
    say(&mut s, BOT, ",acquire");
    assert_eq!(to_server(&s.take_actions()).len(), 1);
}

#[test]
fn the_real_game_mode_is_followed() {
    let mut s = playing(opts());
    join(&mut s, ANN, "Ann");
    let event = frame(ids::CB_GAME_GAME_EVENT, &[3, 0x3f, 0x80, 0, 0]);
    upstream(&mut s, &event, GamePacket::Opaque);
    s.take_actions();
    say(&mut s, ANN, ",acquire");
    let sent = to_client(&s.take_actions(), ANN);
    assert_eq!(sent[..4], controller_kit(102, "Ann", 1)[..]);
}

#[test]
fn a_reconfiguration_forgets_the_world() {
    let mut s = playing(opts());
    let start = frame(ids::CB_GAME_START_CONFIGURATION, &[]);
    upstream(&mut s, &start, GamePacket::Opaque);
    assert!(!s.in_game());
    assert_eq!(to_client(&s.take_actions(), BOT), vec![raw(&start)]);
    s.on_attach(ANN, "Ann", 102);
    assert!(to_client(&s.take_actions(), ANN).is_empty());
    enter_game(&mut s);
    assert_eq!(
        to_client(&s.take_actions(), ANN),
        vec![raw(&frame(ids::CB_CONFIG_FINISH, &[]))]
    );
    // The bot's own body is still not let in.
    upstream(
        &mut s,
        &frame(ids::CB_GAME_ADD_ENTITY, &[]),
        GamePacket::AddEntity {
            id: 5,
            uuid: BOT_UUID,
            pos: point(0.0),
            look: Turn { y_rot: 0, x_rot: 0 },
            head_rot: 0,
            motion: point(0.0),
        },
    );
    assert_eq!(s.world().entity_pose(5), None);
}

fn chunk(x: i32, z: i32, data: u8) -> Frame {
    let mut body = vec![];
    body.extend_from_slice(&x.to_be_bytes());
    body.extend_from_slice(&z.to_be_bytes());
    body.push(data);
    frame(ids::CB_GAME_LEVEL_CHUNK_WITH_LIGHT, &body)
}

fn forget(x: i32, z: i32) -> Frame {
    let mut body = vec![];
    body.extend_from_slice(&z.to_be_bytes());
    body.extend_from_slice(&x.to_be_bytes());
    frame(ids::CB_GAME_FORGET_LEVEL_CHUNK, &body)
}

/// The chunks that a client is sent when it joins, after its configuration.
fn chunks_on_join(s: &mut Session, id: ClientId) -> Vec<Packet> {
    s.on_attach(id, "Viewer", 100 + id as u128);
    s.take_actions();
    from(s, id, frame(ids::SB_CONFIG_FINISH, &[]));
    let mut sent = to_client(&s.take_actions(), id);
    sent.retain(|p| {
        matches!(p, Packet::Raw(f) if f.packet_id == ids::CB_GAME_LEVEL_CHUNK_WITH_LIGHT)
    });
    sent
}

#[test]
fn joining_viewers_get_the_latest_chunks() {
    let mut s = playing(opts());
    let short = frame(ids::CB_GAME_LEVEL_CHUNK_WITH_LIGHT, &[0; 7]);
    for f in [
        chunk(0, 0, 1),
        chunk(-1, 2, 1),
        chunk(0, 0, 2),
        forget(-1, 2),
        short,
        chunk(3, 4, 1),
        forget(4, 3),
    ] {
        upstream(&mut s, &f, GamePacket::Opaque);
    }
    s.take_actions();
    assert_eq!(chunks_on_join(&mut s, 2), vec![raw(&chunk(0, 0, 2)), raw(&chunk(3, 4, 1))]);
    // A chunk that was forgotten can come again.
    upstream(&mut s, &chunk(-1, 2, 9), GamePacket::Opaque);
    s.take_actions();
    assert_eq!(
        chunks_on_join(&mut s, 3),
        vec![raw(&chunk(-1, 2, 9)), raw(&chunk(0, 0, 2)), raw(&chunk(3, 4, 1))]
    );
    // A respawn takes all of them away.
    upstream(
        &mut s,
        &frame(ids::CB_GAME_RESPAWN, &[1]),
        GamePacket::Respawn { data_to_keep: 3 },
    );
    upstream(&mut s, &chunk(5, 5, 1), GamePacket::Opaque);
    s.take_actions();
    assert_eq!(chunks_on_join(&mut s, 4), vec![raw(&chunk(5, 5, 1))]);
    // So does a reconfiguration; what comes during it is no chunk.
    upstream(&mut s, &frame(ids::CB_GAME_START_CONFIGURATION, &[]), GamePacket::Opaque);
    upstream(&mut s, &chunk(6, 6, 1), GamePacket::Opaque);
    enter_game(&mut s);
    s.take_actions();
    assert!(chunks_on_join(&mut s, 5).is_empty());
}

#[test]
fn viewers_get_the_first_position_in_each_world() {
    let mut s = playing(opts());
    join(&mut s, ANN, "Ann");
    let respawn = frame(ids::CB_GAME_RESPAWN, &[1]);
    for id in 1..4 {
        upstream(&mut s, &position(id), GamePacket::Opaque);
    }
    for _ in 0..2 {
        upstream(&mut s, &respawn, GamePacket::Respawn { data_to_keep: 3 });
    }
    for id in 4..6 {
        upstream(&mut s, &position(id), GamePacket::Opaque);
    }
    upstream(&mut s, &login_frame(), GamePacket::Login { game_mode: 0, player_id: 42 });
    for id in 6..8 {
        upstream(&mut s, &position(id), GamePacket::Opaque);
    }
    let mut seen = to_client(&s.take_actions(), ANN);
    seen.retain(|p| matches!(p, Packet::Raw(f) if f.packet_id == ids::CB_GAME_PLAYER_POSITION));
    assert_eq!(seen, vec![raw(&position(1)), raw(&position(4)), raw(&position(6))]);
}

struct Doubler;

impl ProxyPlugin for Doubler {
    fn name(&self) -> &'static str {
        "doubler"
    }

    fn on_serverbound(&self, frame: &Frame) -> Verdict {
        Verdict::Replace(vec![frame.clone(), frame.clone()])
    }
}

#[test]
fn plugins_see_what_the_controller_sends() {
    let mut s = playing(opts());
    join(&mut s, ANN, "Ann");
    let pipeline = Pipeline { plugins: vec![Box::new(Doubler)] };
    let swing = frame(ids::SB_GAME_SWING, &[0]);
    s.on_client_frame(&pipeline, BOT, swing.clone(), &None, 0);
    assert_eq!(to_server(&s.take_actions()), vec![swing.clone(), swing.clone()]);
    s.on_client_frame(&pipeline, ANN, swing, &None, 0);
    assert!(s.take_actions().is_empty());
}
