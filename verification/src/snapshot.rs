//! The world snapshot.
//!
//! Keeps everything beyond the chunks that a client joining in mid-session
//! needs to see the current world: entities with their accumulated state, the
//! tab list, scoreboards and teams, the player's inventory and vitals, maps,
//! changes to the terrain, the border, time and weather. State that comes in
//! partial updates is merged, so that a late viewer gets one bounded and
//! consistent reconstruction; what the proxy does not understand is kept as
//! raw frames.

use vstd::prelude::*;

use crate::ambience::{Ambience, AmbienceView};
use crate::bossbar;
use crate::bossbar::BossBars;
use crate::entities::{Entities, EntitiesView, EntityRecord, EntityView};
use crate::hud;
use crate::hud::{Hud, HudView};
use crate::ids;
use crate::maps;
use crate::maps::{MapView, Maps};
use crate::packet;
use crate::packet::{
    BossBarView, GamePacket, ObjectiveMethod, Packet, PacketView, Point, TeamMethod, Turn,
};
use crate::plugin::{Frame, FrameView};
use crate::roster::{Roster, RosterView};
use crate::scoreboard::{Scoreboard, ScoreboardView};
use crate::terrain::{Terrain, TerrainView};
use crate::views;
use crate::views::group_views;
use crate::wire;

verus! {

broadcast use group_views;

/// The current world, as far as the server has told of it.
pub struct WorldSnapshot {
    bot_uuid: Option<u128>,
    hud: Hud,
    entities: Entities,
    players: Roster,
    scoreboard: Scoreboard,
    terrain: Terrain,
    boss_bars: BossBars,
    maps: Maps,
    ambience: Ambience,
}

/// What a [`WorldSnapshot`] holds.
///
/// `bot_uuid` is the bot's own uuid. Viewers see the bot as the reflected
/// entity, so a real entity with this uuid is not kept: it would collide with
/// the reflected one.
#[verifier::ext_equal]
pub struct WorldView {
    pub bot_uuid: Option<u128>,
    pub hud: HudView,
    pub entities: EntitiesView,
    pub players: RosterView,
    pub scoreboard: ScoreboardView,
    pub terrain: TerrainView,
    pub boss_bars: Map<u128, BossBarView>,
    pub maps: Map<u32, MapView>,
    pub ambience: AmbienceView,
}

impl View for WorldSnapshot {
    type V = WorldView;

    closed spec fn view(&self) -> WorldView {
        WorldView {
            bot_uuid: self.bot_uuid,
            hud: self.hud@,
            entities: self.entities@,
            players: self.players@,
            scoreboard: self.scoreboard@,
            terrain: self.terrain@,
            boss_bars: self.boss_bars@,
            maps: self.maps@,
            ambience: self.ambience@,
        }
    }
}

impl WorldView {
    pub open spec fn empty() -> WorldView {
        WorldView {
            bot_uuid: None,
            hud: HudView::empty(),
            entities: EntitiesView::empty(),
            players: RosterView::empty(),
            scoreboard: ScoreboardView::empty(),
            terrain: TerrainView::empty(),
            boss_bars: Map::empty(),
            maps: Map::empty(),
            ambience: AmbienceView::empty(),
        }
    }

    pub open spec fn set_bot_uuid(self, uuid: u128) -> WorldView {
        WorldView { bot_uuid: Some(uuid), ..self }
    }

    pub open spec fn set_player_entity_id(self, id: i32) -> WorldView {
        WorldView { hud: HudView { entity_id: Some(id), ..self.hud }, ..self }
    }

    /// The dimension changed: entities, terrain and weather are gone; players,
    /// scoreboards, inventory and vitals stay.
    pub open spec fn on_respawn(self, data_to_keep: u8) -> WorldView {
        WorldView {
            entities: EntitiesView::empty(),
            terrain: TerrainView::empty(),
            ambience: self.ambience.on_respawn(),
            hud: self.hud.on_respawn(data_to_keep),
            ..self
        }
    }

    pub open spec fn forget_chunk(self, chunk: Option<(i32, i32)>) -> WorldView {
        match chunk {
            Some((x, z)) => WorldView { terrain: self.terrain.forget_chunk(x, z), ..self },
            None => self,
        }
    }

    /// An effect came over the player or another entity.
    pub open spec fn affected(self, f: FrameView) -> WorldView {
        match ids::leading_pair(f.body) {
            Some((id, effect)) => if self.hud.entity_id == Some(wire::signed(id)) {
                WorldView { hud: self.hud.affected(effect, f), ..self }
            } else {
                WorldView {
                    entities: self.entities.affected(wire::signed(id), effect, f),
                    ..self
                }
            },
            None => self,
        }
    }

    /// An effect left the player or another entity.
    pub open spec fn relieved(self, f: FrameView) -> WorldView {
        match ids::leading_pair(f.body) {
            Some((id, effect)) => if self.hud.entity_id == Some(wire::signed(id)) {
                WorldView { hud: self.hud.relieved(effect), ..self }
            } else {
                WorldView { entities: self.entities.relieved(wire::signed(id), effect), ..self }
            },
            None => self,
        }
    }

    /// What a frame changes that is kept whole or read by position.
    pub open spec fn observe_raw(self, f: FrameView) -> WorldView {
        if f.packet_id == ids::CB_GAME_LEVEL_CHUNK_WITH_LIGHT {
            self.forget_chunk(ids::chunk_at(f.body))
        } else if f.packet_id == ids::CB_GAME_FORGET_LEVEL_CHUNK {
            self.forget_chunk(ids::forgotten_chunk(f.body))
        } else if f.packet_id == ids::CB_GAME_UPDATE_MOB_EFFECT {
            self.affected(f)
        } else if f.packet_id == ids::CB_GAME_REMOVE_MOB_EFFECT {
            self.relieved(f)
        } else if f.packet_id == ids::CB_GAME_SET_TIME {
            WorldView { ambience: AmbienceView { time: Some(f), ..self.ambience }, ..self }
        } else if f.packet_id == ids::CB_GAME_SET_EXPERIENCE {
            WorldView { hud: HudView { experience: Some(f), ..self.hud }, ..self }
        } else if f.packet_id == ids::CB_GAME_SET_HEALTH {
            WorldView { hud: HudView { health: Some(f), ..self.hud }, ..self }
        } else if f.packet_id == ids::CB_GAME_TAB_LIST {
            WorldView { ambience: AmbienceView { tab_list: Some(f), ..self.ambience }, ..self }
        } else if f.packet_id == ids::CB_GAME_SET_CURSOR_ITEM {
            WorldView { hud: HudView { cursor: Some(f), ..self.hud }, ..self }
        } else if f.packet_id == ids::CB_GAME_CHANGE_DIFFICULTY {
            WorldView { ambience: AmbienceView { difficulty: Some(f), ..self.ambience }, ..self }
        } else if f.packet_id == ids::CB_GAME_GAME_RULE_VALUES {
            WorldView { ambience: AmbienceView { game_rules: Some(f), ..self.ambience }, ..self }
        } else if f.packet_id == ids::CB_GAME_SET_SIMULATION_DISTANCE {
            WorldView {
                ambience: AmbienceView { simulation_distance: Some(f), ..self.ambience },
                ..self
            }
        } else if f.packet_id == ids::CB_GAME_GAME_EVENT {
            WorldView { ambience: self.ambience.weather(f), ..self }
        } else {
            self
        }
    }

    /// What an entity packet changes.
    pub open spec fn observe_entity(self, f: FrameView, p: GamePacket) -> WorldView {
        match p {
            GamePacket::AddEntity { id, uuid, pos, look, head_rot, motion } => if self.bot_uuid
                == Some(uuid) {
                self
            } else {
                WorldView {
                    entities: self.entities.add(
                        id,
                        EntityView::spawned(f, uuid, pos, look, head_rot, motion),
                    ),
                    ..self
                }
            },
            GamePacket::RemoveEntities { ids } => WorldView {
                entities: self.entities.remove_all(ids@),
                ..self
            },
            GamePacket::MoveEntityPos { id, pos, on_ground } => WorldView {
                entities: self.entities.at(id, pos, on_ground),
                ..self
            },
            GamePacket::MoveEntityPosRot { id, pos, look, on_ground } => WorldView {
                entities: self.entities.at_looking(id, pos, look, on_ground),
                ..self
            },
            GamePacket::MoveEntityRot { id, look, on_ground } => WorldView {
                entities: self.entities.looking(id, look, on_ground),
                ..self
            },
            GamePacket::EntityPositionSync { id, pos, look, on_ground } => WorldView {
                entities: self.entities.at_looking(id, pos, look, on_ground),
                ..self
            },
            GamePacket::TeleportEntity { id, pos, look, on_ground } => WorldView {
                entities: self.entities.at_looking(id, pos, look, on_ground),
                ..self
            },
            GamePacket::RotateHead { id, head_rot } => WorldView {
                entities: self.entities.facing(id, head_rot),
                ..self
            },
            GamePacket::SetEntityData { id, items } => if self.hud.entity_id == Some(id) {
                WorldView { hud: self.hud.described(views::views(items@)), ..self }
            } else {
                WorldView {
                    entities: self.entities.described(id, views::views(items@)),
                    ..self
                }
            },
            GamePacket::SetEquipment { id, slots } => WorldView {
                entities: self.entities.equipped(id, views::views(slots@)),
                ..self
            },
            GamePacket::SetEntityMotion { id, motion } => WorldView {
                entities: self.entities.moving(id, motion),
                ..self
            },
            GamePacket::SetEntityLink { source, dest } => WorldView {
                entities: self.entities.link(source, dest, f),
                ..self
            },
            GamePacket::UpdateAttributes { id, values } => if self.hud.entity_id == Some(id) {
                WorldView { hud: self.hud.attributed(views::views(values@)), ..self }
            } else {
                WorldView {
                    entities: self.entities.attributed(id, views::views(values@)),
                    ..self
                }
            },
            GamePacket::SetPassengers { vehicle } => WorldView {
                entities: self.entities.ride(vehicle, f),
                ..self
            },
            _ => self,
        }
    }

    /// What a packet on players, scores or teams changes.
    pub open spec fn observe_social(self, f: FrameView, p: GamePacket) -> WorldView {
        match p {
            GamePacket::PlayerInfoUpdate { actions, entries } => WorldView {
                players: self.players.update_all(actions, views::views(entries@)),
                ..self
            },
            GamePacket::PlayerInfoRemove { profiles } => WorldView {
                players: self.players.remove_all(profiles@),
                ..self
            },
            GamePacket::SetObjective { name, method } => WorldView {
                scoreboard: match method {
                    ObjectiveMethod::Remove => self.scoreboard.remove_objective(name@),
                    ObjectiveMethod::Add(parameters) => self.scoreboard.set_objective(
                        name@,
                        parameters@,
                    ),
                    ObjectiveMethod::Change(parameters) => self.scoreboard.set_objective(
                        name@,
                        parameters@,
                    ),
                },
                ..self
            },
            GamePacket::SetDisplayObjective { slot, name } => WorldView {
                scoreboard: self.scoreboard.display(slot, name@, f),
                ..self
            },
            GamePacket::SetScore { owner, objective } => WorldView {
                scoreboard: self.scoreboard.set_score(objective@, owner@, f),
                ..self
            },
            GamePacket::ResetScore { owner, objective } => WorldView {
                scoreboard: self.scoreboard.reset_score(owner@, views::seen(objective)),
                ..self
            },
            GamePacket::SetPlayerTeam { name, method } => WorldView {
                scoreboard: match method {
                    TeamMethod::Remove => self.scoreboard.remove_team(name@),
                    TeamMethod::Add { parameters, players } => self.scoreboard.add_team(
                        name@,
                        parameters@,
                        views::views(players@),
                    ),
                    TeamMethod::Change(parameters) => self.scoreboard.change_team(
                        name@,
                        parameters@,
                    ),
                    TeamMethod::Join(players) => self.scoreboard.join_team(
                        name@,
                        views::views(players@),
                    ),
                    TeamMethod::Leave(players) => self.scoreboard.leave_team(
                        name@,
                        views::views(players@),
                    ),
                },
                ..self
            },
            GamePacket::BossEvent { id, operation } => WorldView {
                boss_bars: bossbar::operated(self.boss_bars, id, operation),
                ..self
            },
            _ => self,
        }
    }

    /// What a packet on the player's inventory changes.
    pub open spec fn observe_inventory(self, f: FrameView, p: GamePacket, now: u64) -> WorldView {
        match p {
            GamePacket::SetHeldSlot { slot } => WorldView { hud: self.hud.select(slot), ..self },
            GamePacket::ContainerSetContent { container, items } => WorldView {
                hud: self.hud.fill(container, views::views(items@), f),
                ..self
            },
            GamePacket::ContainerSetSlot { container, slot, item } => WorldView {
                hud: self.hud.put(container, slot, item@, f),
                ..self
            },
            GamePacket::SetPlayerInventory { slot, item } => WorldView {
                hud: self.hud.store(slot, item@),
                ..self
            },
            GamePacket::MapItemData { map_id, scale, locked, decorations, patch } => WorldView {
                maps: maps::map_updated(
                    self.maps,
                    map_id,
                    scale,
                    locked,
                    views::seen(decorations),
                    patch,
                ),
                ..self
            },
            GamePacket::Cooldown { item, duration } => WorldView {
                hud: self.hud.cool(item, duration, now),
                ..self
            },
            _ => self,
        }
    }

    /// What a packet on the terrain or the border changes.
    pub open spec fn observe_place(self, f: FrameView, p: GamePacket, now: u64) -> WorldView {
        match p {
            GamePacket::ChunksBiomes { chunks } => WorldView {
                terrain: self.terrain.set_biomes(views::views(chunks@)),
                ..self
            },
            GamePacket::LightUpdate { x, z } => WorldView {
                terrain: self.terrain.set_light(x, z, f),
                ..self
            },
            GamePacket::BlockUpdate { pos } => WorldView {
                terrain: self.terrain.change_block(pos, PacketView::Raw(f)),
                ..self
            },
            GamePacket::SectionBlocksUpdate { section, states } => WorldView {
                terrain: self.terrain.change_section(section, states@),
                ..self
            },
            GamePacket::BlockEntityData { pos } => WorldView {
                terrain: self.terrain.change_block_entity(pos, PacketView::Raw(f)),
                ..self
            },
            GamePacket::InitializeBorder(border) => WorldView {
                ambience: self.ambience.set_border(border, now),
                ..self
            },
            GamePacket::SetBorderCenter { x, z } => WorldView {
                ambience: self.ambience.center_border(x, z, now),
                ..self
            },
            GamePacket::SetBorderSize { size } => WorldView {
                ambience: self.ambience.resize_border(size, size, 0, now),
                ..self
            },
            GamePacket::SetBorderLerpSize { old_size, new_size, lerp_millis } => WorldView {
                ambience: self.ambience.resize_border(old_size, new_size, lerp_millis, now),
                ..self
            },
            GamePacket::SetBorderWarningDelay { warning_delay } => WorldView {
                ambience: self.ambience.warn_time(warning_delay, now),
                ..self
            },
            GamePacket::SetBorderWarningDistance { warning_blocks } => WorldView {
                ambience: self.ambience.warn_blocks(warning_blocks, now),
                ..self
            },
            _ => self,
        }
    }

    /// The world after a clientbound frame of the game state that was read as
    /// `p`. Packets that none of the parts know change nothing.
    pub open spec fn observe(self, f: FrameView, p: GamePacket, now: u64) -> WorldView {
        match p {
            GamePacket::Opaque => self.observe_raw(f),
            _ => self.observe_entity(f, p).observe_social(f, p).observe_inventory(
                f,
                p,
                now,
            ).observe_place(f, p, now),
        }
    }

    /// The uuid and the entity id of a player in sight, by name.
    pub open spec fn player_target(self, name: Seq<char>) -> Option<(u128, i32)> {
        match self.players.named(name) {
            Some(uuid) => match self.entities.holder(uuid) {
                Some(id) => Some((uuid, id)),
                None => None,
            },
            None => None,
        }
    }

    /// Everything that a fresh viewer needs after login, position and chunks.
    /// The player list comes before the entities, which are not rendered
    /// without it.
    pub open spec fn replay(self, now: u64) -> Seq<PacketView> {
        self.terrain.replay() + self.players.replay() + self.entities.replay()
            + self.ambience.setting(now) + self.hud.self_packets() + (packet::raw(
            self.hud.experience,
        ) + packet::raw(self.hud.health)) + self.hud.inventory_packets() + maps::map_packets(
            self.maps,
        ) + self.hud.cooldown_packets(now) + self.scoreboard.replay() + packet::raw(
            self.ambience.tab_list,
        ) + bossbar::bar_packets(self.boss_bars) + self.ambience.weather_packets()
    }
}

impl WorldSnapshot {
    /// A world of which nothing is known.
    pub fn new() -> (r: WorldSnapshot)
        ensures
            r@ == WorldView::empty(),
    {
        WorldSnapshot {
            bot_uuid: None,
            hud: Hud::new(),
            entities: Entities::new(),
            players: Roster::new(),
            scoreboard: Scoreboard::new(),
            terrain: Terrain::new(),
            boss_bars: BossBars::new(),
            maps: Maps::new(),
            ambience: Ambience::new(),
        }
    }

    /// Records the bot's own uuid, so that its real entity, if the server ever
    /// shows it, is not kept.
    pub fn set_bot_uuid(&mut self, uuid: u128)
        ensures
            final(self)@ == old(self)@.set_bot_uuid(uuid),
    {
        self.bot_uuid = Some(uuid);
    }

    /// Records the entity id that Login assigned to the session player.
    pub fn set_player_entity_id(&mut self, id: i32)
        ensures
            final(self)@ == old(self)@.set_player_entity_id(id),
    {
        self.hud.set_entity_id(id);
    }

    /// The selected hotbar slot.
    pub fn selected_hotbar_slot(&self) -> (r: u32)
        ensures
            r == self@.hud.selected,
    {
        self.hud.selected()
    }

    /// The frame that tells a client which hotbar slot is selected.
    pub fn selected_hotbar_frame(&self) -> (r: Frame)
        ensures
            r@ == hud::held_slot(self@.hud.selected),
    {
        self.hud.held_slot_frame()
    }

    /// Takes the selection from a controller's serverbound packet, which
    /// servers do not echo, and gives it in its clientbound form. `None`, and
    /// nothing changed, where there is no such slot.
    pub fn set_selected_hotbar_slot(&mut self, slot: u32) -> (r: Option<Frame>)
        ensures
            final(self)@ == (WorldView { hud: old(self)@.hud.select(slot), ..old(self)@ }),
            views::seen(r) == (if slot <= 8 {
                Some(hud::held_slot(slot))
            } else {
                None
            }),
    {
        if self.hud.select(slot) {
            Some(self.hud.held_slot_frame())
        } else {
            None
        }
    }

    /// What the player holds and wears, as the equipment of the reflected
    /// entity.
    pub fn reflected_equipment_frame(&self, entity_id: i32) -> (r: Packet)
        ensures
            r@ == self@.hud.equipment(entity_id),
    {
        self.hud.equipment(entity_id)
    }

    /// Where a known entity is and which way it looks.
    pub fn entity_pose(&self, id: i32) -> (r: Option<(Point, Turn)>)
        ensures
            r == (if self@.entities.entities.contains_key(id) {
                Some((self@.entities.entities[id].pos, self@.entities.entities[id].look))
            } else {
                None
            }),
    {
        self.entities.pose(id)
    }

    /// The dimension changed.
    pub fn on_respawn(&mut self, data_to_keep: u8)
        ensures
            final(self)@ == old(self)@.on_respawn(data_to_keep),
    {
        self.entities.clear();
        self.terrain.clear();
        self.ambience.on_respawn();
        self.hud.on_respawn(data_to_keep);
    }

    fn observe_raw(&mut self, f: &Frame)
        ensures
            final(self)@ == old(self)@.observe_raw(f@),
    {
        let id: u32 = f.packet_id;
        if id == ids::CB_GAME_LEVEL_CHUNK_WITH_LIGHT {
            if let Some((x, z)) = ids::chunk_key(f.body.as_slice()) {
                self.terrain.forget_chunk(x, z);
            }
        } else if id == ids::CB_GAME_FORGET_LEVEL_CHUNK {
            if let Some((x, z)) = ids::forget_chunk_key(f.body.as_slice()) {
                self.terrain.forget_chunk(x, z);
            }
        } else if id == ids::CB_GAME_UPDATE_MOB_EFFECT {
            if let Some((entity, effect)) = ids::leading_varint_pair(f.body.as_slice()) {
                let entity: i32 = wire::to_signed(entity);
                if self.hud.is_self(entity) {
                    self.hud.affected(effect, f);
                } else {
                    self.entities.affected(entity, effect, f);
                }
            }
        } else if id == ids::CB_GAME_REMOVE_MOB_EFFECT {
            if let Some((entity, effect)) = ids::leading_varint_pair(f.body.as_slice()) {
                let entity: i32 = wire::to_signed(entity);
                if self.hud.is_self(entity) {
                    self.hud.relieved(effect);
                } else {
                    self.entities.relieved(entity, effect);
                }
            }
        } else if id == ids::CB_GAME_SET_TIME {
            self.ambience.set_time(f);
        } else if id == ids::CB_GAME_SET_EXPERIENCE {
            self.hud.set_experience(f);
        } else if id == ids::CB_GAME_SET_HEALTH {
            self.hud.set_health(f);
        } else if id == ids::CB_GAME_TAB_LIST {
            self.ambience.set_tab_list(f);
        } else if id == ids::CB_GAME_SET_CURSOR_ITEM {
            self.hud.set_cursor(f);
        } else if id == ids::CB_GAME_CHANGE_DIFFICULTY {
            self.ambience.set_difficulty(f);
        } else if id == ids::CB_GAME_GAME_RULE_VALUES {
            self.ambience.set_game_rules(f);
        } else if id == ids::CB_GAME_SET_SIMULATION_DISTANCE {
            self.ambience.set_simulation_distance(f);
        } else if id == ids::CB_GAME_GAME_EVENT {
            self.ambience.weather(f);
        }
    }

    fn observe_entity(&mut self, f: &Frame, p: &GamePacket)
        ensures
            final(self)@ == old(self)@.observe_entity(f@, *p),
    {
        match p {
            GamePacket::AddEntity { id, uuid, pos, look, head_rot, motion } => {
                let own: bool = match self.bot_uuid {
                    Some(bot) => bot == *uuid,
                    None => false,
                };
                if !own {
                    let record: EntityRecord = EntityRecord::spawned(
                        f.clone(),
                        *uuid,
                        *pos,
                        *look,
                        *head_rot,
                        *motion,
                    );
                    self.entities.add(*id, record);
                }
            },
            GamePacket::RemoveEntities { ids } => self.entities.remove_all(ids),
            GamePacket::MoveEntityPos { id, pos, on_ground } => {
                self.entities.at(*id, *pos, *on_ground);
            },
            GamePacket::MoveEntityPosRot { id, pos, look, on_ground } => {
                self.entities.at_looking(*id, *pos, *look, *on_ground);
            },
            GamePacket::MoveEntityRot { id, look, on_ground } => {
                self.entities.looking(*id, *look, *on_ground);
            },
            GamePacket::EntityPositionSync { id, pos, look, on_ground } => {
                self.entities.at_looking(*id, *pos, *look, *on_ground);
            },
            GamePacket::TeleportEntity { id, pos, look, on_ground } => {
                self.entities.at_looking(*id, *pos, *look, *on_ground);
            },
            GamePacket::RotateHead { id, head_rot } => self.entities.facing(*id, *head_rot),
            GamePacket::SetEntityData { id, items } => {
                if self.hud.is_self(*id) {
                    self.hud.described(items);
                } else {
                    self.entities.described(*id, items);
                }
            },
            GamePacket::SetEquipment { id, slots } => self.entities.equipped(*id, slots),
            GamePacket::SetEntityMotion { id, motion } => self.entities.moving(*id, *motion),
            GamePacket::SetEntityLink { source, dest } => self.entities.link(*source, *dest, f),
            GamePacket::UpdateAttributes { id, values } => {
                if self.hud.is_self(*id) {
                    self.hud.attributed(values);
                } else {
                    self.entities.attributed(*id, values);
                }
            },
            GamePacket::SetPassengers { vehicle } => self.entities.ride(*vehicle, f),
            _ => {},
        }
    }

    fn observe_social(&mut self, f: &Frame, p: &GamePacket)
        ensures
            final(self)@ == old(self)@.observe_social(f@, *p),
    {
        match p {
            GamePacket::PlayerInfoUpdate { actions, entries } => {
                self.players.update_all(actions, entries);
            },
            GamePacket::PlayerInfoRemove { profiles } => self.players.remove_all(profiles),
            GamePacket::SetObjective { name, method } => match method {
                ObjectiveMethod::Remove => self.scoreboard.remove_objective(name),
                ObjectiveMethod::Add(parameters) => self.scoreboard.set_objective(name, parameters),
                ObjectiveMethod::Change(parameters) => {
                    self.scoreboard.set_objective(name, parameters);
                },
            },
            GamePacket::SetDisplayObjective { slot, name } => {
                self.scoreboard.display(*slot, name, f);
            },
            GamePacket::SetScore { owner, objective } => {
                self.scoreboard.set_score(objective, owner, f);
            },
            GamePacket::ResetScore { owner, objective } => {
                self.scoreboard.reset_score(owner, objective);
            },
            GamePacket::SetPlayerTeam { name, method } => match method {
                TeamMethod::Remove => self.scoreboard.remove_team(name),
                TeamMethod::Add { parameters, players } => {
                    self.scoreboard.add_team(name, parameters, players);
                },
                TeamMethod::Change(parameters) => self.scoreboard.change_team(name, parameters),
                TeamMethod::Join(players) => self.scoreboard.join_team(name, players),
                TeamMethod::Leave(players) => self.scoreboard.leave_team(name, players),
            },
            GamePacket::BossEvent { id, operation } => self.boss_bars.operate(*id, operation),
            _ => {},
        }
    }

    fn observe_inventory(&mut self, f: &Frame, p: &GamePacket, now: u64)
        ensures
            final(self)@ == old(self)@.observe_inventory(f@, *p, now),
    {
        match p {
            GamePacket::SetHeldSlot { slot } => {
                let _ = self.hud.select(*slot);
            },
            GamePacket::ContainerSetContent { container, items } => {
                self.hud.fill(*container, items, f);
            },
            GamePacket::ContainerSetSlot { container, slot, item } => {
                self.hud.put(*container, *slot, item, f);
            },
            GamePacket::SetPlayerInventory { slot, item } => self.hud.store(*slot, item),
            GamePacket::MapItemData { map_id, scale, locked, decorations, patch } => {
                self.maps.update(*map_id, *scale, *locked, decorations, patch);
            },
            GamePacket::Cooldown { item, duration } => self.hud.cool(*item, *duration, now),
            _ => {},
        }
    }

    fn observe_place(&mut self, f: &Frame, p: &GamePacket, now: u64)
        ensures
            final(self)@ == old(self)@.observe_place(f@, *p, now),
    {
        match p {
            GamePacket::ChunksBiomes { chunks } => self.terrain.set_biomes(chunks),
            GamePacket::LightUpdate { x, z } => self.terrain.set_light(*x, *z, f),
            GamePacket::BlockUpdate { pos } => {
                self.terrain.change_block(*pos, Packet::Raw(f.clone()));
            },
            GamePacket::SectionBlocksUpdate { section, states } => {
                self.terrain.change_section(section, states);
            },
            GamePacket::BlockEntityData { pos } => {
                self.terrain.change_block_entity(*pos, Packet::Raw(f.clone()));
            },
            GamePacket::InitializeBorder(border) => self.ambience.set_border(border, now),
            GamePacket::SetBorderCenter { x, z } => self.ambience.center_border(*x, *z, now),
            GamePacket::SetBorderSize { size } => {
                self.ambience.resize_border(*size, *size, 0, now);
            },
            GamePacket::SetBorderLerpSize { old_size, new_size, lerp_millis } => {
                self.ambience.resize_border(*old_size, *new_size, *lerp_millis, now);
            },
            GamePacket::SetBorderWarningDelay { warning_delay } => {
                self.ambience.warn_time(*warning_delay, now);
            },
            GamePacket::SetBorderWarningDistance { warning_blocks } => {
                self.ambience.warn_blocks(*warning_blocks, now);
            },
            _ => {},
        }
    }

    /// Takes in a clientbound frame of the game state, read as `p`.
    pub fn observe(&mut self, f: &Frame, p: &GamePacket, now: u64)
        ensures
            final(self)@ == old(self)@.observe(f@, *p, now),
    {
        match p {
            GamePacket::Opaque => self.observe_raw(f),
            _ => {
                self.observe_entity(f, p);
                self.observe_social(f, p);
                self.observe_inventory(f, p, now);
                self.observe_place(f, p, now);
            },
        }
    }

    /// Uuid and entity id of a player in sight by name, whatever its case.
    pub fn player_target(&self, name: &str) -> (r: Option<(u128, i32)>)
        ensures
            r == self@.player_target(name@),
    {
        match self.players.named(name) {
            Some(uuid) => match self.entities.holder(uuid) {
                Some(id) => Some((uuid, id)),
                None => None,
            },
            None => None,
        }
    }

    /// Entity id of a player in sight by name, whatever its case.
    pub fn entity_id_for_player(&self, name: &str) -> (r: Option<i32>)
        ensures
            r == (match self@.player_target(name@) {
                Some((_, id)) => Some(id),
                None => None,
            }),
    {
        match self.player_target(name) {
            Some((_, id)) => Some(id),
            None => None,
        }
    }

    /// The name of the player with a uuid.
    pub fn player_name(&self, uuid: u128) -> (r: Option<&str>)
        ensures
            match r {
                Some(name) => self@.players.players.contains_key(uuid) && name@
                    == self@.players.players[uuid].profile.name,
                None => !self@.players.players.contains_key(uuid),
            },
    {
        self.players.name_of(uuid)
    }

    /// Everything that a fresh viewer needs after login, position and chunks.
    pub fn replay(&self, now: u64) -> (r: Vec<Packet>)
        ensures
            views::views(r@) == self@.replay(now),
    {
        let mut q: Vec<Packet> = Vec::new();
        self.terrain.queue_replay(&mut q);
        self.players.queue_replay(&mut q);
        self.entities.queue_replay(&mut q);
        self.ambience.queue_setting(&mut q, now);
        self.hud.queue_self(&mut q);
        let ghost told = views::views(q@);
        self.hud.queue_vitals(&mut q);
        proof {
            assert(views::views(q@) =~= told + (packet::raw(self@.hud.experience) + packet::raw(
                self@.hud.health,
            )));
        }
        self.hud.queue_inventory(&mut q);
        self.maps.queue_replay(&mut q);
        self.hud.queue_cooldowns(&mut q, now);
        self.scoreboard.queue_replay(&mut q);
        self.ambience.queue_tab_list(&mut q);
        self.boss_bars.queue_replay(&mut q);
        self.ambience.queue_weather(&mut q);
        proof {
            assert(views::views(q@) =~= self@.replay(now));
        }
        q
    }

    /// The state of the session player's own screen: held slot, inventory,
    /// vitals.
    pub fn self_hud_frames(&self, now: u64) -> (r: Vec<Packet>)
        ensures
            views::views(r@) == self@.hud.hud_packets(now),
    {
        let mut q: Vec<Packet> = Vec::new();
        self.hud.queue_hud(&mut q, now);
        proof {
            assert(views::views(q@) =~= self@.hud.hud_packets(now));
        }
        q
    }

    /// Metadata, attributes and effects of the player, told of the reflected
    /// entity.
    pub fn reflected_self_state_frames(&self, entity_id: i32) -> (r: Vec<Packet>)
        ensures
            views::views(r@) == self@.hud.reflected_packets(entity_id),
    {
        let mut q: Vec<Packet> = Vec::new();
        self.hud.queue_reflected(&mut q, entity_id);
        proof {
            assert(views::views(q@) =~= self@.hud.reflected_packets(entity_id));
        }
        q
    }
}

} // verus!
