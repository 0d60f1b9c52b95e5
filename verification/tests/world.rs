use azalea_reflection_proxy::hud::{
    player_inventory_slot, SLOT_CHEST, SLOT_FEET, SLOT_HEAD, SLOT_LEGS, SLOT_MAINHAND, SLOT_OFFHAND,
};
use azalea_reflection_proxy::ids;
use azalea_reflection_proxy::packet::{
    BlockPos, Border, BossBar, BossOperation, GamePacket, MapPatch, ObjectiveMethod, Packet,
    PlayerInfoActions, PlayerInfoEntry, Point, Profile, Property, SectionBlock, TeamMethod, Turn,
};
use azalea_reflection_proxy::plugin::Frame;
use azalea_reflection_proxy::roster::strip_signatures;
use azalea_reflection_proxy::snapshot::WorldSnapshot;

const SECOND: u64 = 1_000_000_000;

fn frame(packet_id: u32, body: &[u8]) -> Frame {
    Frame { packet_id, body: body.to_vec() }
}

fn see(world: &mut WorldSnapshot, packet: GamePacket) {
    world.observe(&frame(0xffff, &[]), &packet, 0);
}

fn see_frame(world: &mut WorldSnapshot, f: &Frame) {
    world.observe(f, &GamePacket::Opaque, 0);
}

fn origin() -> Point {
    Point { x: 0, y: 0, z: 0 }
}

fn at(x: f64) -> Point {
    Point { x: x.to_bits(), y: 0, z: 0 }
}

fn entity(id: i32, uuid: u128) -> GamePacket {
    GamePacket::AddEntity {
        id,
        uuid,
        pos: origin(),
        look: Turn { y_rot: 0, x_rot: 0 },
        head_rot: 0,
        motion: origin(),
    }
}

fn entity_frame(id: i32) -> Frame {
    frame(ids::CB_GAME_ADD_ENTITY, &[id as u8])
}

fn spawn(world: &mut WorldSnapshot, id: i32, uuid: u128) {
    world.observe(&entity_frame(id), &entity(id, uuid), 0);
}

fn bar(name: &str) -> BossBar {
    BossBar {
        name: name.as_bytes().to_vec(),
        progress: 1.0f32.to_bits(),
        color: 5,
        overlay: 0,
        properties: 0,
    }
}

fn bars(world: &WorldSnapshot) -> Vec<(u128, BossBar)> {
    world
        .replay(0)
        .into_iter()
        .filter_map(|p| match p {
            Packet::AddBossBar { id, bar } => Some((id, bar)),
            _ => None,
        })
        .collect()
}

fn boss(world: &mut WorldSnapshot, id: u128, operation: BossOperation) {
    see(world, GamePacket::BossEvent { id, operation });
}

/// A viewer that missed the addition must still get one on join, with the
/// latest name.
#[test]
fn boss_bar_add_then_update_replays_as_add() {
    let mut world = WorldSnapshot::new();
    boss(&mut world, 7, BossOperation::Add(bar("Wither")));
    boss(&mut world, 7, BossOperation::UpdateName(b"Ender Dragon".to_vec()));
    boss(&mut world, 7, BossOperation::UpdateProgress(0.5f32.to_bits()));
    let bars = bars(&world);
    assert_eq!(bars.len(), 1);
    assert_eq!(bars[0].0, 7);
    assert_eq!(bars[0].1.name, b"Ender Dragon".to_vec());
    assert_eq!(f32::from_bits(bars[0].1.progress), 0.5);
}

#[test]
fn boss_bar_remove_drops_it() {
    let mut world = WorldSnapshot::new();
    boss(&mut world, 9, BossOperation::Add(bar("Boss")));
    boss(&mut world, 9, BossOperation::Remove);
    assert!(bars(&world).is_empty());
}

#[test]
fn boss_bar_orphan_update_is_ignored() {
    let mut world = WorldSnapshot::new();
    boss(&mut world, 1, BossOperation::UpdateName(b"ghost".to_vec()));
    assert!(bars(&world).is_empty());
}

#[test]
fn boss_bars_hold_the_last_of_each_field() {
    let mut world = WorldSnapshot::new();
    boss(&mut world, 4, BossOperation::Add(bar("First")));
    boss(&mut world, 4, BossOperation::UpdateStyle { color: 2, overlay: 3 });
    boss(&mut world, 4, BossOperation::Remove);
    boss(&mut world, 4, BossOperation::UpdateName(b"ghost".to_vec()));
    boss(&mut world, 4, BossOperation::Add(bar("Second")));
    boss(&mut world, 5, BossOperation::Add(bar("Other")));
    boss(&mut world, 4, BossOperation::UpdateProperties(6));
    boss(&mut world, 4, BossOperation::UpdateProgress(0.25f32.to_bits()));
    let second = BossBar {
        name: b"Second".to_vec(),
        progress: 0.25f32.to_bits(),
        color: 5,
        overlay: 0,
        properties: 6,
    };
    assert_eq!(bars(&world), vec![(4, second), (5, bar("Other"))]);
    boss(&mut world, 4, BossOperation::Remove);
    assert_eq!(bars(&world), vec![(5, bar("Other"))]);
}

#[test]
fn boss_bar_styles_and_properties_are_updated() {
    let mut world = WorldSnapshot::new();
    boss(&mut world, 3, BossOperation::Add(bar("Boss")));
    boss(&mut world, 3, BossOperation::UpdateStyle { color: 2, overlay: 4 });
    boss(&mut world, 3, BossOperation::UpdateProperties(6));
    let bars = bars(&world);
    assert_eq!((bars[0].1.color, bars[0].1.overlay, bars[0].1.properties), (2, 4, 6));
    assert_eq!(bars[0].1.name, b"Boss".to_vec());
}

/// The bot's own body must never enter the snapshot.
#[test]
fn snapshot_skips_bot_own_entity() {
    let mut world = WorldSnapshot::new();
    world.set_bot_uuid(0xB07);
    spawn(&mut world, 5, 0xB07);
    spawn(&mut world, 6, 0x07);
    let shown = world.replay(0);
    assert!(!shown.contains(&Packet::Raw(entity_frame(5))));
    assert!(shown.contains(&Packet::Raw(entity_frame(6))));
    assert_eq!(world.entity_pose(5), None);
    assert!(world.entity_pose(6).is_some());
}

#[test]
fn metadata_updates_merge_by_index() {
    let mut world = WorldSnapshot::new();
    spawn(&mut world, 7, 7);
    see(&mut world, GamePacket::SetEntityData { id: 7, items: vec![(0, vec![0, 1])] });
    see(
        &mut world,
        GamePacket::SetEntityData { id: 7, items: vec![(0, vec![0, 2]), (1, vec![1, 3])] },
    );
    let items = world
        .replay(0)
        .into_iter()
        .find_map(|p| match p {
            Packet::SetEntityData { items, .. } => Some(items),
            _ => None,
        })
        .expect("metadata should be replayed");
    assert_eq!(items.len(), 2);
    assert!(items.contains(&(0, vec![0, 2])));
    assert!(items.contains(&(1, vec![1, 3])));
}

#[test]
fn inventory_slot_cache_keeps_the_latest_update() {
    let mut world = WorldSnapshot::new();
    for state_id in 0..100u8 {
        world.observe(
            &frame(ids::CB_GAME_CONTAINER_SET_SLOT, &[state_id]),
            &GamePacket::ContainerSetSlot { container: 0, slot: 5, item: vec![0] },
            0,
        );
    }
    let slots: Vec<Frame> = world
        .replay(0)
        .into_iter()
        .filter_map(|p| match p {
            Packet::Raw(f) if f.packet_id == ids::CB_GAME_CONTAINER_SET_SLOT => Some(f),
            _ => None,
        })
        .collect();
    assert_eq!(slots.len(), 1);
    assert_eq!(slots[0].body, vec![99]);
}

fn player(uuid: u128, name: &str) -> PlayerInfoEntry {
    PlayerInfoEntry {
        profile: Profile { uuid, name: name.to_string(), properties: vec![] },
        chat_session: None,
        game_mode: 0,
        listed: false,
        latency: 0,
        display_name: None,
        list_order: 0,
        update_hat: false,
    }
}

fn no_actions() -> PlayerInfoActions {
    PlayerInfoActions {
        add_player: false,
        initialize_chat: false,
        update_game_mode: false,
        update_listed: false,
        update_latency: false,
        update_display_name: false,
        update_list_order: false,
        update_hat: false,
    }
}

fn adding() -> PlayerInfoActions {
    PlayerInfoActions { add_player: true, ..no_actions() }
}

/// Replayed entries carry no signatures; the value is kept.
#[test]
fn strip_signatures_clears_only_the_signature() {
    let mut entry = player(1, "Player");
    entry.profile.properties.push(Property {
        name: "textures".to_string(),
        value: "base64value".to_string(),
        signature: Some("some-signature".to_string()),
    });
    let stripped = strip_signatures(&entry);
    assert_eq!(stripped.profile.properties.len(), 1);
    let v = &stripped.profile.properties[0];
    assert_eq!(v.name, "textures");
    assert_eq!(v.value, "base64value");
    assert_eq!(v.signature, None);
    entry.profile.properties[0].signature = None;
    assert_eq!(stripped, entry);
}

fn listed(world: &WorldSnapshot) -> Vec<PlayerInfoEntry> {
    for p in world.replay(0) {
        if let Packet::PlayerInfoUpdate { actions, entries } = p {
            assert!(actions.add_player && actions.update_game_mode && actions.update_listed);
            assert!(actions.update_latency && actions.update_display_name);
            assert!(!actions.update_list_order && !actions.update_hat && !actions.initialize_chat);
            return entries;
        }
    }
    vec![]
}

#[test]
fn tab_list_entries_are_merged() {
    let mut world = WorldSnapshot::new();
    let mut entry = player(4, "Ann");
    entry.chat_session = Some(vec![1]);
    see(
        &mut world,
        GamePacket::PlayerInfoUpdate { actions: adding(), entries: vec![entry, player(2, "Bob")] },
    );
    let mut update = player(4, "ignored");
    update.latency = 33;
    update.game_mode = 2;
    update.display_name = Some(vec![9]);
    let mut actions = no_actions();
    actions.update_latency = true;
    actions.update_display_name = true;
    see(&mut world, GamePacket::PlayerInfoUpdate { actions, entries: vec![update] });
    let entries = listed(&world);
    assert_eq!(entries.len(), 2);
    assert_eq!(entries[0].profile.name, "Bob");
    assert_eq!(entries[1].profile.name, "Ann");
    assert_eq!(entries[1].latency, 33);
    assert_eq!(entries[1].game_mode, 0);
    assert_eq!(entries[1].display_name, Some(vec![9]));
    assert_eq!(entries[1].chat_session, None);
    assert_eq!(world.player_name(4), Some("Ann"));
    see(&mut world, GamePacket::PlayerInfoRemove { profiles: vec![4, 5] });
    assert_eq!(listed(&world).len(), 1);
    assert_eq!(world.player_name(4), None);
}

#[test]
fn players_are_found_by_name_in_any_case() {
    let mut world = WorldSnapshot::new();
    see(
        &mut world,
        GamePacket::PlayerInfoUpdate { actions: adding(), entries: vec![player(11, "Steve")] },
    );
    // Known by name, but not in sight.
    assert_eq!(world.player_target("steve"), None);
    spawn(&mut world, 40, 11);
    spawn(&mut world, 30, 11);
    assert_eq!(world.player_target("sTEVE"), Some((11, 30)));
    assert_eq!(world.entity_id_for_player("Steve"), Some(30));
    assert_eq!(world.player_target("Stev"), None);
}

fn objective(world: &mut WorldSnapshot, name: &str, method: ObjectiveMethod) {
    see(world, GamePacket::SetObjective { name: name.to_string(), method });
}

/// A stream of changes must still be replayed as an addition.
#[test]
fn objective_change_replays_as_add() {
    let mut world = WorldSnapshot::new();
    objective(&mut world, "SBScoreboard", ObjectiveMethod::Add(b"Title".to_vec()));
    objective(&mut world, "SBScoreboard", ObjectiveMethod::Change(b"Title v2".to_vec()));
    let objectives: Vec<Packet> = world
        .replay(0)
        .into_iter()
        .filter(|p| matches!(p, Packet::AddObjective { .. }))
        .collect();
    assert_eq!(
        objectives,
        vec![Packet::AddObjective {
            name: "SBScoreboard".to_string(),
            parameters: b"Title v2".to_vec(),
        }]
    );
}

#[test]
fn a_removed_objective_takes_scores_and_displays_along() {
    let mut world = WorldSnapshot::new();
    objective(&mut world, "a", ObjectiveMethod::Add(vec![]));
    objective(&mut world, "b", ObjectiveMethod::Add(vec![]));
    for (n, o) in [(1u8, "a"), (2, "b")] {
        world.observe(
            &frame(ids::CB_GAME_SET_SCORE, &[n]),
            &GamePacket::SetScore { owner: "x".to_string(), objective: o.to_string() },
            0,
        );
        world.observe(
            &frame(ids::CB_GAME_SET_DISPLAY_OBJECTIVE, &[n]),
            &GamePacket::SetDisplayObjective { slot: n, name: o.to_string() },
            0,
        );
    }
    objective(&mut world, "a", ObjectiveMethod::Remove);
    let shown = world.replay(0);
    assert!(!shown.contains(&Packet::Raw(frame(ids::CB_GAME_SET_SCORE, &[1]))));
    assert!(shown.contains(&Packet::Raw(frame(ids::CB_GAME_SET_SCORE, &[2]))));
    assert!(!shown.contains(&Packet::Raw(frame(ids::CB_GAME_SET_DISPLAY_OBJECTIVE, &[1]))));
    assert!(shown.contains(&Packet::Raw(frame(ids::CB_GAME_SET_DISPLAY_OBJECTIVE, &[2]))));
    see(&mut world, GamePacket::SetDisplayObjective { slot: 2, name: String::new() });
    see(&mut world, GamePacket::ResetScore { owner: "x".to_string(), objective: None });
    let shown = world.replay(0);
    assert!(!shown.contains(&Packet::Raw(frame(ids::CB_GAME_SET_SCORE, &[2]))));
    assert!(!shown.contains(&Packet::Raw(frame(ids::CB_GAME_SET_DISPLAY_OBJECTIVE, &[2]))));
}

#[test]
fn scores_are_reset_one_by_one() {
    let mut world = WorldSnapshot::new();
    for (n, o) in [(1u8, "a"), (2, "b")] {
        world.observe(
            &frame(ids::CB_GAME_SET_SCORE, &[n]),
            &GamePacket::SetScore { owner: "x".to_string(), objective: o.to_string() },
            0,
        );
    }
    see(
        &mut world,
        GamePacket::ResetScore { owner: "x".to_string(), objective: Some("a".to_string()) },
    );
    let shown = world.replay(0);
    assert!(!shown.contains(&Packet::Raw(frame(ids::CB_GAME_SET_SCORE, &[1]))));
    assert!(shown.contains(&Packet::Raw(frame(ids::CB_GAME_SET_SCORE, &[2]))));
}

fn team(world: &mut WorldSnapshot, method: TeamMethod) {
    see(world, GamePacket::SetPlayerTeam { name: "red".to_string(), method });
}

fn names(names: &[&str]) -> Vec<String> {
    names.iter().map(|n| n.to_string()).collect()
}

fn teams(world: &WorldSnapshot) -> Vec<Packet> {
    world
        .replay(0)
        .into_iter()
        .filter(|p| matches!(p, Packet::AddTeam { .. }))
        .collect()
}

#[test]
fn teams_are_replayed_with_their_members_in_order() {
    let mut world = WorldSnapshot::new();
    team(&mut world, TeamMethod::Join(names(&["nobody"])));
    assert!(teams(&world).is_empty());
    team(&mut world, TeamMethod::Add { parameters: vec![1], players: names(&["b", "a"]) });
    team(&mut world, TeamMethod::Join(names(&["c", "a"])));
    team(&mut world, TeamMethod::Leave(names(&["b", "z"])));
    team(&mut world, TeamMethod::Change(vec![2]));
    assert_eq!(
        teams(&world),
        vec![Packet::AddTeam {
            name: "red".to_string(),
            parameters: vec![2],
            players: names(&["a", "c"]),
        }]
    );
    team(&mut world, TeamMethod::Remove);
    assert!(teams(&world).is_empty());
}

#[test]
fn scoreboard_replay_orders_dependencies_first() {
    let mut world = WorldSnapshot::new();
    let score = frame(ids::CB_GAME_SET_SCORE, &[1]);
    let display = frame(ids::CB_GAME_SET_DISPLAY_OBJECTIVE, &[2]);
    world.observe(
        &score,
        &GamePacket::SetScore { owner: "line".to_string(), objective: "sidebar".to_string() },
        0,
    );
    world.observe(
        &display,
        &GamePacket::SetDisplayObjective { slot: 1, name: "sidebar".to_string() },
        0,
    );
    see(
        &mut world,
        GamePacket::SetPlayerTeam {
            name: "format".to_string(),
            method: TeamMethod::Add { parameters: vec![], players: names(&["line"]) },
        },
    );
    objective(&mut world, "sidebar", ObjectiveMethod::Add(b"Title".to_vec()));
    let kinds: Vec<&str> = world
        .replay(0)
        .into_iter()
        .filter_map(|p| match p {
            Packet::AddObjective { .. } => Some("objective"),
            Packet::AddTeam { .. } => Some("team"),
            Packet::Raw(f) if f == display => Some("display"),
            Packet::Raw(f) if f == score => Some("score"),
            _ => None,
        })
        .collect();
    assert_eq!(kinds, ["objective", "team", "display", "score"]);
}

#[test]
fn reflected_equipment_tracks_hotbar_and_armor() {
    let sword = vec![1, 200];
    let helmet = vec![1, 201];
    let mut world = WorldSnapshot::new();
    see(&mut world, GamePacket::SetPlayerInventory { slot: 4, item: sword.clone() });
    see(
        &mut world,
        GamePacket::ContainerSetSlot { container: -2, slot: 5, item: helmet.clone() },
    );
    world.set_selected_hotbar_slot(4).unwrap();
    assert_eq!(
        world.reflected_equipment_frame(99),
        Packet::SetEquipment {
            id: 99,
            slots: vec![
                (SLOT_MAINHAND, sword),
                (SLOT_OFFHAND, vec![0]),
                (SLOT_FEET, vec![0]),
                (SLOT_LEGS, vec![0]),
                (SLOT_CHEST, vec![0]),
                (SLOT_HEAD, helmet),
            ],
        }
    );
}

#[test]
fn normalized_inventory_replay_wins_across_packet_kinds() {
    let mut world = WorldSnapshot::new();
    see(&mut world, GamePacket::SetPlayerInventory { slot: 0, item: vec![1, 200] });
    see(&mut world, GamePacket::ContainerSetSlot { container: 0, slot: 36, item: vec![0] });
    let last = world
        .self_hud_frames(0)
        .into_iter()
        .filter_map(|p| match p {
            Packet::SetPlayerInventory { slot: 0, item } => Some(item),
            _ => None,
        })
        .next_back();
    assert_eq!(last, Some(vec![0]));
}

#[test]
fn self_metadata_is_replayed_for_late_viewers() {
    let mut world = WorldSnapshot::new();
    world.set_player_entity_id(42);
    see(&mut world, GamePacket::SetEntityData { id: 42, items: vec![(8, vec![0, 3])] });
    assert!(world
        .self_hud_frames(0)
        .contains(&Packet::SetEntityData { id: 42, items: vec![(8, vec![0, 3])] }));
    assert!(world
        .reflected_self_state_frames(99)
        .contains(&Packet::SetEntityData { id: 99, items: vec![(8, vec![0, 3])] }));
}

#[test]
fn the_players_own_state_is_kept_apart_from_entities() {
    let mut world = WorldSnapshot::new();
    world.set_player_entity_id(42);
    spawn(&mut world, 42, 1);
    see(&mut world, GamePacket::UpdateAttributes { id: 42, values: vec![(3, vec![7])] });
    let effect = frame(ids::CB_GAME_UPDATE_MOB_EFFECT, &[42, 5, 1]);
    see_frame(&mut world, &effect);
    assert_eq!(
        world.reflected_self_state_frames(99),
        vec![
            Packet::UpdateAttributes { id: 99, values: vec![vec![7]] },
            Packet::Raw(frame(
                ids::CB_GAME_UPDATE_MOB_EFFECT,
                &[0xff, 0xa7, 0xd6, 0xb9, 0x07, 5, 1]
            )),
        ]
    );
    assert!(world.self_hud_frames(0).contains(&Packet::Raw(effect.clone())));
    see_frame(&mut world, &frame(ids::CB_GAME_REMOVE_MOB_EFFECT, &[42, 5]));
    assert!(!world.self_hud_frames(0).contains(&Packet::Raw(effect)));
}

#[test]
fn without_an_entity_id_the_player_has_no_state_of_its_own() {
    let mut world = WorldSnapshot::new();
    see(&mut world, GamePacket::SetEntityData { id: 42, items: vec![(8, vec![0, 3])] });
    assert!(world.reflected_self_state_frames(99).is_empty());
    // The held slot alone.
    assert_eq!(
        world.self_hud_frames(0),
        vec![Packet::Raw(frame(ids::CB_GAME_SET_HELD_SLOT, &[0]))]
    );
}

#[test]
fn effects_of_entities_come_and_go() {
    let mut world = WorldSnapshot::new();
    spawn(&mut world, 6, 6);
    let speed = frame(ids::CB_GAME_UPDATE_MOB_EFFECT, &[6, 1]);
    let jump = frame(ids::CB_GAME_UPDATE_MOB_EFFECT, &[6, 8]);
    let unknown = frame(ids::CB_GAME_UPDATE_MOB_EFFECT, &[7, 8]);
    see_frame(&mut world, &speed);
    see_frame(&mut world, &jump);
    see_frame(&mut world, &unknown);
    see_frame(&mut world, &frame(ids::CB_GAME_REMOVE_MOB_EFFECT, &[6, 1]));
    let shown = world.replay(0);
    assert!(!shown.contains(&Packet::Raw(speed)));
    assert!(shown.contains(&Packet::Raw(jump)));
    assert!(!shown.contains(&Packet::Raw(unknown)));
}

fn map(start_x: u8, start_y: u8, colors: Vec<u8>) -> GamePacket {
    GamePacket::MapItemData {
        map_id: 7,
        scale: 2,
        locked: false,
        decorations: None,
        patch: Some(MapPatch {
            width: colors.len() as u8,
            height: 1,
            start_x,
            start_y,
            map_colors: colors,
        }),
    }
}

fn maps(world: &WorldSnapshot) -> Vec<Packet> {
    world
        .replay(0)
        .into_iter()
        .filter(|p| matches!(p, Packet::MapItemData { .. }))
        .collect()
}

#[test]
fn map_patches_merge_into_a_full_replay() {
    let mut world = WorldSnapshot::new();
    see(&mut world, map(4, 3, vec![11, 12]));
    see(&mut world, map(6, 3, vec![13]));
    let replayed = maps(&world);
    assert_eq!(replayed.len(), 1);
    match &replayed[0] {
        Packet::MapItemData { map_id, scale, colors, .. } => {
            assert_eq!((*map_id, *scale), (7, 2));
            let colors = colors.as_ref().expect("full map patch");
            assert_eq!(colors.len(), 128 * 128);
            assert_eq!(colors[3 * 128 + 4], 11);
            assert_eq!(colors[3 * 128 + 5], 12);
            assert_eq!(colors[3 * 128 + 6], 13);
            assert_eq!(colors.iter().filter(|c| **c != 0).count(), 3);
        }
        other => panic!("expected MapItemData, got {other:?}"),
    }
}

#[test]
fn map_patches_are_clipped_to_the_map() {
    let mut world = WorldSnapshot::new();
    see(&mut world, map(200, 3, vec![11, 12]));
    match &maps(&world)[0] {
        Packet::MapItemData { colors, .. } => assert_eq!(*colors, None),
        other => panic!("expected MapItemData, got {other:?}"),
    }
    // Two columns, two rows, but one color short; the right column lies beyond
    // the edge.
    see(
        &mut world,
        GamePacket::MapItemData {
            map_id: 7,
            scale: 0,
            locked: true,
            decorations: Some(vec![1, 2]),
            patch: Some(MapPatch {
                width: 2,
                height: 2,
                start_x: 127,
                start_y: 0,
                map_colors: vec![1, 2, 3],
            }),
        },
    );
    see(
        &mut world,
        GamePacket::MapItemData {
            map_id: 7,
            scale: 1,
            locked: true,
            decorations: None,
            patch: None,
        },
    );
    match &maps(&world)[0] {
        Packet::MapItemData { scale, locked, decorations, colors, .. } => {
            assert_eq!((*scale, *locked), (1, true));
            assert_eq!(*decorations, Some(vec![1, 2]));
            let colors = colors.as_ref().unwrap();
            assert_eq!(colors[127], 1);
            assert_eq!(colors[255], 3);
            assert_eq!(colors.iter().filter(|c| **c != 0).count(), 2);
        }
        other => panic!("expected MapItemData, got {other:?}"),
    }
}

#[test]
fn menu_slots_map_to_inventory_slots() {
    let expected = [
        (0, None),
        (4, None),
        (5, Some(39)),
        (6, Some(38)),
        (7, Some(37)),
        (8, Some(36)),
        (9, Some(9)),
        (35, Some(35)),
        (36, Some(0)),
        (44, Some(8)),
        (45, Some(40)),
        (46, None),
        (u16::MAX, None),
    ];
    for (menu, slot) in expected {
        assert_eq!(player_inventory_slot(menu), slot);
    }
}

#[test]
fn a_full_content_replaces_the_inventory() {
    let mut world = WorldSnapshot::new();
    see(&mut world, GamePacket::SetPlayerInventory { slot: 2, item: vec![5] });
    world.observe(
        &frame(ids::CB_GAME_CONTAINER_SET_SLOT, &[1]),
        &GamePacket::ContainerSetSlot { container: 0, slot: 9, item: vec![6] },
        0,
    );
    let content = frame(ids::CB_GAME_CONTAINER_SET_CONTENT, &[2]);
    let mut items = vec![vec![0]; 46];
    items[5] = vec![1, 1];
    items[36] = vec![1, 2];
    world.observe(&content, &GamePacket::ContainerSetContent { container: 0, items }, 0);
    // Another menu is none of the player's business.
    world.observe(
        &frame(ids::CB_GAME_CONTAINER_SET_CONTENT, &[3]),
        &GamePacket::ContainerSetContent { container: 4, items: vec![vec![9]] },
        0,
    );
    let hud = world.self_hud_frames(0);
    assert_eq!(hud[1], Packet::Raw(content));
    assert!(!hud.contains(&Packet::Raw(frame(ids::CB_GAME_CONTAINER_SET_SLOT, &[1]))));
    assert!(hud.contains(&Packet::SetPlayerInventory { slot: 39, item: vec![1, 1] }));
    assert!(hud.contains(&Packet::SetPlayerInventory { slot: 0, item: vec![1, 2] }));
    assert!(hud.contains(&Packet::SetPlayerInventory { slot: 2, item: vec![0] }));
    assert_eq!(hud.len(), 2 + 41);
}

#[test]
fn slot_changes_are_replayed_in_the_order_of_arrival() {
    let mut world = WorldSnapshot::new();
    for (n, slot) in [(1u8, 40u16), (2, 10), (3, 40), (4, 20)] {
        world.observe(
            &frame(ids::CB_GAME_CONTAINER_SET_SLOT, &[n]),
            &GamePacket::ContainerSetSlot { container: 0, slot, item: vec![n] },
            0,
        );
    }
    world.observe(
        &frame(ids::CB_GAME_CONTAINER_SET_SLOT, &[9]),
        &GamePacket::ContainerSetSlot { container: -1, slot: 0, item: vec![9] },
        0,
    );
    let order: Vec<u8> = world
        .self_hud_frames(0)
        .into_iter()
        .filter_map(|p| match p {
            Packet::Raw(f) if f.packet_id == ids::CB_GAME_CONTAINER_SET_SLOT => Some(f.body[0]),
            _ => None,
        })
        .collect();
    // The cursor comes last.
    assert_eq!(order, vec![2, 3, 4, 9]);
}

#[test]
fn the_hotbar_has_nine_slots() {
    let mut world = WorldSnapshot::new();
    assert_eq!(world.selected_hotbar_slot(), 0);
    let f = world.set_selected_hotbar_slot(8).unwrap();
    assert_eq!(f, frame(ids::CB_GAME_SET_HELD_SLOT, &[8]));
    assert_eq!(world.set_selected_hotbar_slot(9), None);
    see(&mut world, GamePacket::SetHeldSlot { slot: 9 });
    assert_eq!(world.selected_hotbar_slot(), 8);
    see(&mut world, GamePacket::SetHeldSlot { slot: 3 });
    assert_eq!(world.selected_hotbar_slot(), 3);
    assert_eq!(world.selected_hotbar_frame(), frame(ids::CB_GAME_SET_HELD_SLOT, &[3]));
}

#[test]
fn cooldowns_run_out() {
    let mut world = WorldSnapshot::new();
    world.observe(
        &frame(ids::CB_GAME_COOLDOWN, &[]),
        &GamePacket::Cooldown { item: 12, duration: 100 },
        5 * SECOND,
    );
    let left = |now: u64| -> Vec<Packet> {
        world
            .self_hud_frames(now)
            .into_iter()
            .filter(|p| matches!(p, Packet::Cooldown { .. }))
            .collect()
    };
    assert_eq!(left(0), vec![Packet::Cooldown { item: 12, duration: 100 }]);
    assert_eq!(left(6 * SECOND), vec![Packet::Cooldown { item: 12, duration: 80 }]);
    assert_eq!(
        left(6 * SECOND + SECOND / 20 - 1),
        vec![Packet::Cooldown { item: 12, duration: 80 }]
    );
    assert_eq!(
        left(6 * SECOND + SECOND / 20),
        vec![Packet::Cooldown { item: 12, duration: 79 }]
    );
    assert_eq!(left(10 * SECOND), vec![]);
    see(&mut world, GamePacket::Cooldown { item: 12, duration: 0 });
    assert!(!world.self_hud_frames(0).iter().any(|p| matches!(p, Packet::Cooldown { .. })));
}

fn borders(world: &WorldSnapshot, now: u64) -> Option<(Border, u64, u64)> {
    world.replay(now).into_iter().find_map(|p| match p {
        Packet::InitializeBorder { border, elapsed_millis, remaining_millis } => {
            Some((border, elapsed_millis, remaining_millis))
        }
        _ => None,
    })
}

#[test]
fn partial_border_updates_start_from_the_default() {
    let mut world = WorldSnapshot::new();
    assert_eq!(borders(&world, 0), None);
    see(&mut world, GamePacket::SetBorderWarningDelay { warning_delay: 7 });
    let (border, elapsed, remaining) = borders(&world, 0).unwrap();
    assert_eq!(f64::from_bits(border.new_size), 59_999_968.0);
    assert_eq!(f64::from_bits(border.old_size), 59_999_968.0);
    assert_eq!(border.absolute_max_size, 29_999_984);
    assert_eq!((border.warning_blocks, border.warning_time), (5, 7));
    assert_eq!((elapsed, remaining), (0, 0));
    see(&mut world, GamePacket::SetBorderWarningDistance { warning_blocks: 9 });
    see(&mut world, GamePacket::SetBorderCenter { x: 1, z: 2 });
    let (border, _, _) = borders(&world, 0).unwrap();
    assert_eq!((border.warning_blocks, border.warning_time), (9, 7));
    assert_eq!((border.center_x, border.center_z), (1, 2));
}

#[test]
fn a_moving_border_is_replayed_on_its_way() {
    let mut world = WorldSnapshot::new();
    world.observe(
        &frame(ids::CB_GAME_SET_BORDER_LERP_SIZE, &[]),
        &GamePacket::SetBorderLerpSize {
            old_size: 100.0f64.to_bits(),
            new_size: 50.0f64.to_bits(),
            lerp_millis: 10_000,
        },
        SECOND,
    );
    let (border, elapsed, remaining) = borders(&world, 4 * SECOND).unwrap();
    assert_eq!(f64::from_bits(border.old_size), 100.0);
    assert_eq!((elapsed, remaining), (3_000, 7_000));
    let (_, elapsed, remaining) = borders(&world, 20 * SECOND).unwrap();
    assert_eq!((elapsed, remaining), (19_000, 0));
    see(&mut world, GamePacket::SetBorderSize { size: 8.0f64.to_bits() });
    let (border, _, remaining) = borders(&world, 0).unwrap();
    assert_eq!((border.old_size, border.new_size), (8.0f64.to_bits(), 8.0f64.to_bits()));
    assert_eq!((border.lerp_millis, remaining), (0, 0));
    let whole = Border {
        center_x: 1,
        center_z: 2,
        old_size: 3,
        new_size: 4,
        lerp_millis: 5,
        absolute_max_size: 6,
        warning_blocks: 7,
        warning_time: 8,
    };
    see(&mut world, GamePacket::InitializeBorder(whole));
    assert_eq!(borders(&world, 0), Some((whole, 0, 5)));
}

fn block(x: i32, y: i32, z: i32) -> BlockPos {
    BlockPos { x, y, z }
}

fn block_frames(world: &WorldSnapshot) -> Vec<Packet> {
    world
        .replay(0)
        .into_iter()
        .filter(|p| match p {
            Packet::BlockUpdate { .. } => true,
            Packet::Raw(f) => {
                f.packet_id == ids::CB_GAME_BLOCK_UPDATE
                    || f.packet_id == ids::CB_GAME_BLOCK_ENTITY_DATA
            }
            _ => false,
        })
        .collect()
}

#[test]
fn block_changes_are_replayed_in_the_order_of_arrival() {
    let mut world = WorldSnapshot::new();
    let change = |world: &mut WorldSnapshot, n: u8, pos: BlockPos| {
        world.observe(
            &frame(ids::CB_GAME_BLOCK_UPDATE, &[n]),
            &GamePacket::BlockUpdate { pos },
            0,
        );
    };
    change(&mut world, 1, block(100, 0, 0));
    change(&mut world, 2, block(1, 0, 0));
    world.observe(
        &frame(ids::CB_GAME_BLOCK_ENTITY_DATA, &[3]),
        &GamePacket::BlockEntityData { pos: block(0, 0, 0) },
        0,
    );
    change(&mut world, 4, block(100, 0, 0));
    assert_eq!(
        block_frames(&world),
        vec![
            Packet::Raw(frame(ids::CB_GAME_BLOCK_UPDATE, &[2])),
            Packet::Raw(frame(ids::CB_GAME_BLOCK_ENTITY_DATA, &[3])),
            Packet::Raw(frame(ids::CB_GAME_BLOCK_UPDATE, &[4])),
        ]
    );
}

#[test]
fn section_updates_are_kept_block_by_block() {
    let mut world = WorldSnapshot::new();
    see(
        &mut world,
        GamePacket::SectionBlocksUpdate {
            section: block(-1, 4, 2),
            states: vec![
                SectionBlock { x: 15, y: 0, z: 3, state: 9 },
                SectionBlock { x: 0, y: 1, z: 0, state: 10 },
                SectionBlock { x: 15, y: 0, z: 3, state: 11 },
            ],
        },
    );
    assert_eq!(
        block_frames(&world),
        vec![
            Packet::BlockUpdate { pos: block(-16, 65, 32), state: 10 },
            Packet::BlockUpdate { pos: block(-1, 64, 35), state: 11 },
        ]
    );
}

#[test]
fn a_chunk_that_is_sent_anew_takes_its_changes_along() {
    let mut world = WorldSnapshot::new();
    for (n, pos) in [(1u8, block(-1, 5, 16)), (2, block(0, 5, 16)), (3, block(-16, 5, 31))] {
        world.observe(
            &frame(ids::CB_GAME_BLOCK_UPDATE, &[n]),
            &GamePacket::BlockUpdate { pos },
            0,
        );
    }
    let light = frame(ids::CB_GAME_LIGHT_UPDATE, &[1]);
    world.observe(&light, &GamePacket::LightUpdate { x: -1, z: 1 }, 0);
    see(&mut world, GamePacket::ChunksBiomes { chunks: vec![((-1, 1), vec![5])] });
    assert!(world.replay(0).contains(&Packet::Raw(light.clone())));
    assert!(world.replay(0).contains(&Packet::ChunksBiomes { chunks: vec![vec![5]] }));
    let mut body = Vec::new();
    body.extend_from_slice(&(-1i32).to_be_bytes());
    body.extend_from_slice(&1i32.to_be_bytes());
    see_frame(&mut world, &frame(ids::CB_GAME_LEVEL_CHUNK_WITH_LIGHT, &body));
    assert_eq!(
        block_frames(&world),
        vec![Packet::Raw(frame(ids::CB_GAME_BLOCK_UPDATE, &[2]))]
    );
    assert!(!world.replay(0).contains(&Packet::Raw(light)));
    assert!(!world.replay(0).iter().any(|p| matches!(p, Packet::ChunksBiomes { .. })));
    // Forgetting names the chunk the other way round.
    let mut body = Vec::new();
    body.extend_from_slice(&1i32.to_be_bytes());
    body.extend_from_slice(&0i32.to_be_bytes());
    see_frame(&mut world, &frame(ids::CB_GAME_FORGET_LEVEL_CHUNK, &body));
    assert!(block_frames(&world).is_empty());
}

#[test]
fn biomes_are_replayed_in_batches() {
    let mut world = WorldSnapshot::new();
    let chunks: Vec<((i32, i32), Vec<u8>)> =
        (0..600).rev().map(|x| ((x, 0), vec![(x % 256) as u8])).collect();
    see(&mut world, GamePacket::ChunksBiomes { chunks });
    let batches: Vec<usize> = world
        .replay(0)
        .into_iter()
        .filter_map(|p| match p {
            Packet::ChunksBiomes { chunks } => {
                Some(chunks.len())
            }
            _ => None,
        })
        .collect();
    assert_eq!(batches, vec![256, 256, 88]);
    match &world.replay(0)[0] {
        Packet::ChunksBiomes { chunks } => assert_eq!(chunks[1], vec![1]),
        other => panic!("expected ChunksBiomes, got {other:?}"),
    }
}

#[test]
fn entities_are_replayed_where_they_are() {
    let mut world = WorldSnapshot::new();
    spawn(&mut world, 9, 9);
    see(&mut world, GamePacket::MoveEntityPos { id: 9, pos: at(1.0), on_ground: true });
    let turn = Turn { y_rot: 1, x_rot: 2 };
    see(
        &mut world,
        GamePacket::MoveEntityRot { id: 9, look: turn, on_ground: false },
    );
    see(&mut world, GamePacket::RotateHead { id: 9, head_rot: -5 });
    see(&mut world, GamePacket::SetEntityMotion { id: 9, motion: at(0.5) });
    see(
        &mut world,
        GamePacket::SetEquipment { id: 9, slots: vec![(SLOT_HEAD, vec![4])] },
    );
    let values = vec![(2, vec![1]), (1, vec![0])];
    see(&mut world, GamePacket::UpdateAttributes { id: 9, values });
    // Nothing is known of this one.
    see(&mut world, GamePacket::MoveEntityPos { id: 10, pos: at(9.0), on_ground: true });
    let shown = world.replay(0);
    let start = shown.iter().position(|p| *p == Packet::Raw(entity_frame(9))).unwrap();
    assert_eq!(
        shown[start + 1..start + 5],
        [
            Packet::EntityPositionSync {
                id: 9,
                pos: at(1.0),
                motion: at(0.5),
                look: turn,
                on_ground: false,
            },
            Packet::RotateHead { id: 9, head_rot: -5 },
            Packet::SetEquipment { id: 9, slots: vec![(SLOT_HEAD, vec![4])] },
            Packet::UpdateAttributes { id: 9, values: vec![vec![0], vec![1]] },
        ]
    );
    assert_eq!(world.entity_pose(9), Some((at(1.0), turn)));
    assert_eq!(world.entity_pose(10), None);
    for packet in [
        GamePacket::MoveEntityPosRot { id: 9, pos: at(2.0), look: turn, on_ground: true },
        GamePacket::EntityPositionSync { id: 9, pos: at(3.0), look: turn, on_ground: true },
        GamePacket::TeleportEntity { id: 9, pos: at(4.0), look: turn, on_ground: true },
    ] {
        see(&mut world, packet);
    }
    assert_eq!(world.entity_pose(9), Some((at(4.0), turn)));
}

#[test]
fn removed_entities_take_their_links_along() {
    let mut world = WorldSnapshot::new();
    for id in [1, 2, 3] {
        spawn(&mut world, id, id as u128);
    }
    let ride = frame(ids::CB_GAME_SET_PASSENGERS, &[2]);
    world.observe(&ride, &GamePacket::SetPassengers { vehicle: 2 }, 0);
    for (n, source, dest) in [(1u8, 1, 2), (2, 2, 3), (3, 3, 1)] {
        world.observe(
            &frame(ids::CB_GAME_SET_ENTITY_LINK, &[n]),
            &GamePacket::SetEntityLink { source, dest },
            0,
        );
    }
    see(&mut world, GamePacket::RemoveEntities { ids: vec![2] });
    let shown = world.replay(0);
    assert!(!shown.contains(&Packet::Raw(entity_frame(2))));
    assert!(!shown.contains(&Packet::Raw(ride)));
    assert!(!shown.contains(&Packet::Raw(frame(ids::CB_GAME_SET_ENTITY_LINK, &[1]))));
    assert!(!shown.contains(&Packet::Raw(frame(ids::CB_GAME_SET_ENTITY_LINK, &[2]))));
    assert!(shown.contains(&Packet::Raw(frame(ids::CB_GAME_SET_ENTITY_LINK, &[3]))));
    see(&mut world, GamePacket::SetEntityLink { source: 3, dest: 0 });
    assert!(!world.replay(0).contains(&Packet::Raw(frame(ids::CB_GAME_SET_ENTITY_LINK, &[3]))));
}

#[test]
fn weather_time_and_rules_are_kept_as_they_came() {
    let mut world = WorldSnapshot::new();
    let frames = [
        frame(ids::CB_GAME_CHANGE_DIFFICULTY, &[1]),
        frame(ids::CB_GAME_GAME_RULE_VALUES, &[2]),
        frame(ids::CB_GAME_SET_SIMULATION_DISTANCE, &[3]),
        frame(ids::CB_GAME_SET_TIME, &[4]),
        frame(ids::CB_GAME_SET_EXPERIENCE, &[5]),
        frame(ids::CB_GAME_SET_HEALTH, &[6]),
        frame(ids::CB_GAME_SET_CURSOR_ITEM, &[7]),
        frame(ids::CB_GAME_TAB_LIST, &[8]),
        frame(ids::CB_GAME_GAME_EVENT, &[2, 0, 0, 0, 0]),
        frame(ids::CB_GAME_GAME_EVENT, &[7, 0, 0, 0, 1]),
        frame(ids::CB_GAME_GAME_EVENT, &[8, 0, 0, 0, 2]),
    ];
    see_frame(&mut world, &frame(ids::CB_GAME_GAME_EVENT, &[1, 0, 0, 0, 0]));
    for f in &frames {
        see_frame(&mut world, f);
    }
    see_frame(&mut world, &frame(ids::CB_GAME_GAME_EVENT, &[4]));
    see_frame(&mut world, &frame(ids::CB_GAME_GAME_EVENT, &[]));
    let shown: Vec<Packet> = world
        .replay(0)
        .into_iter()
        .filter(|p| !matches!(p, Packet::Raw(f) if f.packet_id == ids::CB_GAME_SET_HELD_SLOT))
        .collect();
    let expected: Vec<Packet> = frames.iter().map(|f| Packet::Raw(f.clone())).collect();
    assert_eq!(shown, expected);
}

#[test]
fn a_dimension_change_keeps_the_player() {
    let mut world = WorldSnapshot::new();
    world.set_player_entity_id(42);
    spawn(&mut world, 1, 1);
    see(
        &mut world,
        GamePacket::PlayerInfoUpdate { actions: adding(), entries: vec![player(1, "Ann")] },
    );
    see(&mut world, GamePacket::SetPlayerInventory { slot: 4, item: vec![9] });
    see(&mut world, GamePacket::SetEntityData { id: 42, items: vec![(8, vec![0, 3])] });
    see(&mut world, GamePacket::UpdateAttributes { id: 42, values: vec![(3, vec![7])] });
    see(&mut world, GamePacket::BlockUpdate { pos: block(0, 0, 0) });
    see(&mut world, GamePacket::SetBorderCenter { x: 1, z: 2 });
    see_frame(&mut world, &frame(ids::CB_GAME_GAME_EVENT, &[1, 0, 0, 0, 0]));
    world.on_respawn(1);
    assert_eq!(world.entity_pose(1), None);
    assert_eq!(world.player_name(1), Some("Ann"));
    assert_eq!(borders(&world, 0), None);
    let shown = world.replay(0);
    assert!(shown.contains(&Packet::SetPlayerInventory { slot: 4, item: vec![9] }));
    assert!(shown.contains(&Packet::UpdateAttributes { id: 42, values: vec![vec![7]] }));
    assert!(!shown.iter().any(|p| matches!(p, Packet::SetEntityData { .. })));
    assert!(!shown.contains(&Packet::Raw(frame(ids::CB_GAME_GAME_EVENT, &[1, 0, 0, 0, 0]))));
    world.on_respawn(2);
    assert!(!world.replay(0).iter().any(|p| matches!(p, Packet::UpdateAttributes { .. })));
}

#[test]
fn one_tab_list_stands_before_the_entities() {
    let mut world = WorldSnapshot::new();
    spawn(&mut world, 8, 2);
    let is_list = |p: &Packet| matches!(p, Packet::PlayerInfoUpdate { .. });
    assert!(!world.replay(0).iter().any(is_list));
    for entry in [player(1, "Ann"), player(2, "Bob"), player(1, "Ann")] {
        see(
            &mut world,
            GamePacket::PlayerInfoUpdate { actions: adding(), entries: vec![entry] },
        );
    }
    let replayed = world.replay(0);
    assert_eq!(replayed.iter().filter(|p| is_list(p)).count(), 1);
    let list = replayed.iter().position(is_list).unwrap();
    let spawned = replayed.iter().position(|p| *p == Packet::Raw(entity_frame(8))).unwrap();
    assert!(list < spawned);
    let uuids: Vec<u128> = listed(&world).iter().map(|e| e.profile.uuid).collect();
    assert_eq!(uuids, vec![1, 2]);
    see(&mut world, GamePacket::PlayerInfoRemove { profiles: vec![1, 2] });
    assert!(!world.replay(0).iter().any(is_list));
}
