//! What kinds of packets are kept where.
//!
//! Chunks, tab-list entries and boss bars are kept as such and replayed from
//! there. No frame of these kinds is kept anywhere else, so what a viewer is
//! sent of them is what was made for it. Spawns of entities are kept with the
//! entities alone.

use vstd::prelude::*;

use crate::ambience::AmbienceView;
use crate::arrival;
use crate::bossbar;
use crate::entities;
use crate::entities::{EntitiesView, EntityView};
use crate::hud::{Cooldown, HudView};
use crate::ids;
use crate::maps;
use crate::packet;
use crate::packet::{
    BlockPos, BossBarView, GamePacket, PacketView, PlayerInfoActions, PlayerInfoView, SectionBlock,
};
use crate::plugin::FrameView;
use crate::roster;
use crate::roster::RosterView;
use crate::scoreboard;
use crate::scoreboard::ScoreboardView;
use crate::snapshot::WorldView;
use crate::table;
use crate::table::Key;
use crate::terrain;
use crate::terrain::TerrainView;
use crate::views;
use crate::wire;

verus! {

/// A packet of none of the kinds that are kept in a place of their own.
pub open spec fn plain(p: PacketView) -> bool {
    &&& packet::wire_id(p) != ids::CB_GAME_LEVEL_CHUNK_WITH_LIGHT
    &&& packet::wire_id(p) != ids::CB_GAME_BOSS_EVENT
    &&& packet::wire_id(p) != ids::CB_GAME_PLAYER_INFO_UPDATE
    &&& packet::wire_id(p) != ids::CB_GAME_ADD_ENTITY
}

pub open spec fn plain_frame(f: FrameView) -> bool {
    plain(PacketView::Raw(f))
}

pub open spec fn plain_option(f: Option<FrameView>) -> bool {
    f matches Some(f) ==> plain_frame(f)
}

pub open spec fn plain_frames<A>(m: Map<A, FrameView>) -> bool {
    &&& m.dom().finite()
    &&& forall|k: A| #[trigger] m.contains_key(k) ==> plain_frame(m[k])
}

pub open spec fn plain_numbered<A>(m: Map<A, (u64, PacketView)>) -> bool {
    &&& m.dom().finite()
    &&& forall|k: A| #[trigger] m.contains_key(k) ==> plain(m[k].1)
}

pub open spec fn plain_tagged<A, B>(m: Map<A, (B, FrameView)>) -> bool {
    &&& m.dom().finite()
    &&& forall|k: A| #[trigger] m.contains_key(k) ==> plain_frame(m[k].1)
}

/// The player's own state is filed: it holds plain packets.
pub open spec fn hud_filed(h: HudView) -> bool {
    &&& plain_frames(h.effects)
    &&& plain_option(h.experience)
    &&& plain_option(h.health)
    &&& plain_option(h.content)
    &&& plain_option(h.cursor)
    &&& plain_numbered(h.slots)
}

/// An entity is filed: it has its spawn, and plain packets beside it.
pub open spec fn entity_filed(e: EntityView) -> bool {
    &&& e.add.packet_id == ids::CB_GAME_ADD_ENTITY
    &&& plain_frames(e.effects)
}

pub open spec fn entities_filed(e: EntitiesView) -> bool {
    &&& e.entities.dom().finite()
    &&& forall|id: i32| #[trigger]
        e.entities.contains_key(id) ==> entity_filed(e.entities[id])
    &&& plain_frames(e.passengers)
    &&& plain_tagged(e.links)
}

/// The tab list is filed: every entry stands under its own uuid, and none
/// holds a chat session.
pub open spec fn players_filed(p: RosterView) -> bool {
    &&& p.players.dom().finite()
    &&& p.keyed()
    &&& forall|uuid: u128| #[trigger]
        p.players.contains_key(uuid) ==> p.players[uuid].chat_session is None
}

pub open spec fn scoreboard_filed(s: ScoreboardView) -> bool {
    &&& plain_tagged(s.displays)
    &&& plain_frames(s.scores)
}

pub open spec fn terrain_filed(t: TerrainView) -> bool {
    &&& plain_numbered(t.updates)
    &&& plain_numbered(t.block_entities)
    &&& plain_frames(t.light)
}

pub open spec fn ambience_filed(a: AmbienceView) -> bool {
    &&& plain_option(a.time)
    &&& plain_option(a.tab_list)
    &&& plain_option(a.rain)
    &&& plain_option(a.rain_level)
    &&& plain_option(a.thunder_level)
    &&& plain_option(a.difficulty)
    &&& plain_option(a.game_rules)
    &&& plain_option(a.simulation_distance)
}

/// A world is filed: in each of its parts it holds what belongs there.
pub open spec fn filed(w: WorldView) -> bool {
    &&& hud_filed(w.hud)
    &&& entities_filed(w.entities)
    &&& players_filed(w.players)
    &&& scoreboard_filed(w.scoreboard)
    &&& terrain_filed(w.terrain)
    &&& ambience_filed(w.ambience)
    &&& w.boss_bars.dom().finite()
}

proof fn kept_finite<A, W>(m: Map<A, W>, keep: spec_fn(A, W) -> bool)
    requires
        m.dom().finite(),
    ensures
        table::kept(m, keep).dom().finite(),
{
    assert(table::kept(m, keep).dom().subset_of(m.dom()));
    vstd::set_lib::lemma_set_subset_finite(m.dom(), table::kept(m, keep).dom());
}

proof fn kept_plain_frames<A>(m: Map<A, FrameView>, keep: spec_fn(A, FrameView) -> bool)
    requires
        plain_frames(m),
    ensures
        plain_frames(table::kept(m, keep)),
{
    kept_finite(m, keep);
    assert forall|k: A| #[trigger] table::kept(m, keep).contains_key(k) implies plain_frame(
        table::kept(m, keep)[k],
    ) by {
        assert(m.contains_key(k));
    }
}

proof fn kept_plain_numbered<A>(
    m: Map<A, (u64, PacketView)>,
    keep: spec_fn(A, (u64, PacketView)) -> bool,
)
    requires
        plain_numbered(m),
    ensures
        plain_numbered(table::kept(m, keep)),
{
    kept_finite(m, keep);
    assert forall|k: A| #[trigger] table::kept(m, keep).contains_key(k) implies plain(
        table::kept(m, keep)[k].1,
    ) by {
        assert(m.contains_key(k));
    }
}

proof fn kept_plain_tagged<A, B>(
    m: Map<A, (B, FrameView)>,
    keep: spec_fn(A, (B, FrameView)) -> bool,
)
    requires
        plain_tagged(m),
    ensures
        plain_tagged(table::kept(m, keep)),
{
    kept_finite(m, keep);
    assert forall|k: A| #[trigger] table::kept(m, keep).contains_key(k) implies plain_frame(
        table::kept(m, keep)[k].1,
    ) by {
        assert(m.contains_key(k));
    }
}

proof fn removal_filed(e: EntitiesView, ids: Seq<i32>)
    requires
        entities_filed(e),
    ensures
        entities_filed(e.remove_all(ids)),
    decreases ids.len(),
{
    if ids.len() > 0 {
        removal_filed(e, ids.drop_last());
        let before = e.remove_all(ids.drop_last());
        let id = ids.last();
        assert forall|k: i32| #[trigger]
            before.entities.remove(id).contains_key(k) implies entity_filed(
            before.entities.remove(id)[k],
        ) by {
            assert(before.entities.contains_key(k));
        }
        removed_plain_frames(before.passengers, id);
        assert(plain_tagged(before.links.remove(id))) by {
            assert forall|k: i32| #[trigger]
                before.links.remove(id).contains_key(k) implies plain_frame(
                before.links.remove(id)[k].1,
            ) by {
                assert(before.links.contains_key(k));
            }
        }
        kept_plain_tagged(before.links.remove(id), entities::not_held_by(id));
    }
}

proof fn removed_plain_frames<A>(m: Map<A, FrameView>, k: A)
    requires
        plain_frames(m),
    ensures
        plain_frames(m.remove(k)),
{
    assert forall|x: A| #[trigger] m.remove(k).contains_key(x) implies plain_frame(
        m.remove(k)[x],
    ) by {
        assert(m.contains_key(x));
    }
}

proof fn added_plain_frames<A>(m: Map<A, FrameView>, k: A, f: FrameView)
    requires
        plain_frames(m),
        plain_frame(f),
    ensures
        plain_frames(m.insert(k, f)),
{
    assert forall|x: A| #[trigger] m.insert(k, f).contains_key(x) implies plain_frame(
        m.insert(k, f)[x],
    ) by {
        if x != k {
            assert(m.contains_key(x));
        }
    }
}

/// Changing one entity files it where it was.
proof fn update_filed(e: EntitiesView, id: i32, to: EntityView)
    requires
        entities_filed(e),
        e.entities.contains_key(id) ==> entity_filed(to),
    ensures
        entities_filed(e.update(id, to)),
{
    if e.entities.contains_key(id) {
        spawn_filed(e, id, to);
    }
}

proof fn spawn_filed(e: EntitiesView, id: i32, to: EntityView)
    requires
        entities_filed(e),
        entity_filed(to),
    ensures
        entities_filed(e.add(id, to)),
{
    assert forall|k: i32| #[trigger] e.entities.insert(id, to).contains_key(k) implies entity_filed(
        e.entities.insert(id, to)[k],
    ) by {
        if k != id {
            assert(e.entities.contains_key(k));
        }
    }
}

/// Whatever is told of an entity, it stays filed.
proof fn observe_entity_filed(w: WorldView, f: FrameView, p: GamePacket)
    requires
        filed(w),
        packet::fits(f, p),
    ensures
        filed(w.observe_entity(f, p)),
{
    let e = w.entities;
    match p {
        GamePacket::AddEntity { id, uuid, pos, look, head_rot, motion } => {
            spawn_filed(e, id, EntityView::spawned(f, uuid, pos, look, head_rot, motion));
        },
        GamePacket::RemoveEntities { ids } => {
            removal_filed(e, ids@);
        },
        GamePacket::MoveEntityPos { id, pos, on_ground } => {
            update_filed(e, id, EntityView { pos, on_ground, ..e.entities[id] });
        },
        GamePacket::MoveEntityPosRot { id, pos, look, on_ground } => {
            update_filed(e, id, EntityView { pos, look, on_ground, ..e.entities[id] });
        },
        GamePacket::MoveEntityRot { id, look, on_ground } => {
            update_filed(e, id, EntityView { look, on_ground, ..e.entities[id] });
        },
        GamePacket::EntityPositionSync { id, pos, look, on_ground } => {
            update_filed(e, id, EntityView { pos, look, on_ground, ..e.entities[id] });
        },
        GamePacket::TeleportEntity { id, pos, look, on_ground } => {
            update_filed(e, id, EntityView { pos, look, on_ground, ..e.entities[id] });
        },
        GamePacket::RotateHead { id, head_rot } => {
            update_filed(e, id, EntityView { head_rot, ..e.entities[id] });
        },
        GamePacket::SetEntityData { id, items } => {
            let metadata = table::put_all(e.entities[id].metadata, views::views(items@));
            update_filed(e, id, EntityView { metadata, ..e.entities[id] });
        },
        GamePacket::SetEquipment { id, slots } => {
            let equipment = table::put_all(e.entities[id].equipment, views::views(slots@));
            update_filed(e, id, EntityView { equipment, ..e.entities[id] });
        },
        GamePacket::SetEntityMotion { id, motion } => {
            update_filed(e, id, EntityView { motion, ..e.entities[id] });
        },
        GamePacket::SetEntityLink { source, dest } => {
            assert forall|k: i32| #[trigger]
                e.link(source, dest, f).links.contains_key(k) implies plain_frame(
                e.link(source, dest, f).links[k].1,
            ) by {
                if k != source {
                    assert(e.links.contains_key(k));
                }
            }
        },
        GamePacket::UpdateAttributes { id, values } => {
            let attributes = table::put_all(e.entities[id].attributes, views::views(values@));
            update_filed(e, id, EntityView { attributes, ..e.entities[id] });
        },
        GamePacket::SetPassengers { vehicle } => {
            added_plain_frames(e.passengers, vehicle, f);
        },
        _ => {},
    }
}

proof fn players_stay_filed(
    p: RosterView,
    actions: PlayerInfoActions,
    entries: Seq<PlayerInfoView>,
)
    requires
        players_filed(p),
    ensures
        players_filed(p.update_all(actions, entries)),
    decreases entries.len(),
{
    roster::updates_keep_keys(p, actions, entries);
    if entries.len() > 0 {
        players_stay_filed(p, actions, entries.drop_last());
        let before = p.update_all(actions, entries.drop_last());
        let after = p.update_all(actions, entries);
        assert forall|uuid: u128| #[trigger]
            after.players.contains_key(uuid) implies after.players[uuid].chat_session is None by {
            if uuid != entries.last().profile.uuid {
                assert(before.players.contains_key(uuid));
            }
        }
    }
}

proof fn dropped_filed(p: RosterView, profiles: Seq<u128>)
    requires
        players_filed(p),
    ensures
        players_filed(p.remove_all(profiles)),
    decreases profiles.len(),
{
    if profiles.len() > 0 {
        dropped_filed(p, profiles.drop_last());
        let before = p.remove_all(profiles.drop_last());
        let after = p.remove_all(profiles);
        assert(after.players == before.players.remove(profiles.last()));
        assert forall|uuid: u128| #[trigger]
            after.players.contains_key(uuid) implies before.players.contains_key(uuid)
            && after.players[uuid] == before.players[uuid] by {}
    }
}

proof fn observe_social_filed(w: WorldView, f: FrameView, p: GamePacket)
    requires
        filed(w),
        packet::fits(f, p),
    ensures
        filed(w.observe_social(f, p)),
{
    let s = w.scoreboard;
    match p {
        GamePacket::PlayerInfoUpdate { actions, entries } => {
            players_stay_filed(w.players, actions, views::views(entries@));
        },
        GamePacket::PlayerInfoRemove { profiles } => {
            dropped_filed(w.players, profiles@);
        },
        GamePacket::SetObjective { name, method } => {
            kept_plain_frames(s.scores, scoreboard::score_elsewhere(name@));
            kept_plain_tagged(s.displays, scoreboard::display_elsewhere(name@));
        },
        GamePacket::SetDisplayObjective { slot, name } => {
            assert forall|k: u8| #[trigger]
                s.display(slot, name@, f).displays.contains_key(k) implies plain_frame(
                s.display(slot, name@, f).displays[k].1,
            ) by {
                if k != slot {
                    assert(s.displays.contains_key(k));
                }
            }
        },
        GamePacket::SetScore { owner, objective } => {
            added_plain_frames(s.scores, (objective@, owner@), f);
        },
        GamePacket::ResetScore { owner, objective } => {
            kept_plain_frames(s.scores, scoreboard::score_of_others(owner@));
            if let Some(o) = views::seen(objective) {
                removed_plain_frames(s.scores, (o, owner@));
            }
        },
        _ => {},
    }
}

proof fn observe_inventory_filed(w: WorldView, f: FrameView, p: GamePacket, now: u64)
    requires
        filed(w),
        packet::fits(f, p),
    ensures
        filed(w.observe_inventory(f, p, now)),
{
    match p {
        GamePacket::ContainerSetSlot { container, slot, item } => {
            let after = w.hud.put(container, slot, item@, f);
            assert forall|k: u16| #[trigger] after.slots.contains_key(k) implies plain(
                after.slots[k].1,
            ) by {
                if k != slot {
                    assert(w.hud.slots.contains_key(k));
                }
            }
        },
        _ => {},
    }
}

proof fn changed_plain(m: Map<BlockPos, (u64, PacketView)>, pos: BlockPos, n: u64, p: PacketView)
    requires
        plain_numbered(m),
        plain(p),
    ensures
        plain_numbered(m.insert(pos, (n, p))),
{
    assert forall|k: BlockPos| #[trigger] m.insert(pos, (n, p)).contains_key(k) implies plain(
        m.insert(pos, (n, p))[k].1,
    ) by {
        if k != pos {
            assert(m.contains_key(k));
        }
    }
}

proof fn section_filed(t: TerrainView, section: BlockPos, states: Seq<SectionBlock>)
    requires
        terrain_filed(t),
    ensures
        terrain_filed(t.change_section(section, states)),
    decreases states.len(),
{
    if states.len() > 0 {
        section_filed(t, section, states.drop_last());
        let before = t.change_section(section, states.drop_last());
        let pos = terrain::placed(section, states.last());
        changed_plain(
            before.updates,
            pos,
            arrival::next_number(before.sequence),
            PacketView::BlockUpdate { pos, state: states.last().state },
        );
    }
}

proof fn observe_place_filed(w: WorldView, f: FrameView, p: GamePacket, now: u64)
    requires
        filed(w),
        packet::fits(f, p),
    ensures
        filed(w.observe_place(f, p, now)),
{
    let t = w.terrain;
    let n = arrival::next_number(t.sequence);
    match p {
        GamePacket::LightUpdate { x, z } => {
            added_plain_frames(t.light, (x, z), f);
        },
        GamePacket::BlockUpdate { pos } => {
            changed_plain(t.updates, pos, n, PacketView::Raw(f));
        },
        GamePacket::SectionBlocksUpdate { section, states } => {
            section_filed(t, section, states@);
        },
        GamePacket::BlockEntityData { pos } => {
            changed_plain(t.block_entities, pos, n, PacketView::Raw(f));
        },
        _ => {},
    }
}

proof fn forgotten_filed(w: WorldView, chunk: Option<(i32, i32)>)
    requires
        filed(w),
    ensures
        filed(w.forget_chunk(chunk)),
{
    if let Some((x, z)) = chunk {
        kept_plain_numbered(w.terrain.updates, terrain::outside(x, z));
        kept_plain_numbered(w.terrain.block_entities, terrain::outside(x, z));
        removed_plain_frames(w.terrain.light, (x, z));
    }
}

proof fn observe_raw_filed(w: WorldView, f: FrameView)
    requires
        filed(w),
    ensures
        filed(w.observe_raw(f)),
{
    if f.packet_id == ids::CB_GAME_LEVEL_CHUNK_WITH_LIGHT {
        forgotten_filed(w, ids::chunk_at(f.body));
    } else if f.packet_id == ids::CB_GAME_FORGET_LEVEL_CHUNK {
        forgotten_filed(w, ids::forgotten_chunk(f.body));
    } else if f.packet_id == ids::CB_GAME_UPDATE_MOB_EFFECT {
        if let Some((id, effect)) = ids::leading_pair(f.body) {
            let id = wire::signed(id);
            added_plain_frames(w.hud.effects, effect, f);
            let e = w.entities.entities[id];
            if w.entities.entities.contains_key(id) {
                added_plain_frames(e.effects, effect, f);
            }
            update_filed(
                w.entities,
                id,
                EntityView { effects: e.effects.insert(effect, f), ..e },
            );
        }
    } else if f.packet_id == ids::CB_GAME_REMOVE_MOB_EFFECT {
        if let Some((id, effect)) = ids::leading_pair(f.body) {
            let id = wire::signed(id);
            removed_plain_frames(w.hud.effects, effect);
            let e = w.entities.entities[id];
            if w.entities.entities.contains_key(id) {
                removed_plain_frames(e.effects, effect);
            }
            update_filed(
                w.entities,
                id,
                EntityView { effects: e.effects.remove(effect), ..e },
            );
        }
    }
}

/// A world is filed at its start.
pub proof fn a_new_world_is_filed()
    ensures
        filed(WorldView::empty()),
{
}

/// Every frame of the server is filed where it belongs.
pub proof fn the_world_stays_filed(w: WorldView, f: FrameView, p: GamePacket, now: u64)
    requires
        filed(w),
        packet::fits(f, p),
    ensures
        filed(w.observe(f, p, now)),
{
    match p {
        GamePacket::Opaque => {
            observe_raw_filed(w, f);
        },
        _ => {
            observe_entity_filed(w, f, p);
            let a = w.observe_entity(f, p);
            observe_social_filed(a, f, p);
            let b = a.observe_social(f, p);
            observe_inventory_filed(b, f, p, now);
            observe_place_filed(b.observe_inventory(f, p, now), f, p, now);
        },
    }
}

/// A dimension change leaves a world filed.
pub proof fn a_new_dimension_is_filed(w: WorldView, data_to_keep: u8)
    requires
        filed(w),
    ensures
        filed(w.on_respawn(data_to_keep)),
{
}

/// None of these packets is of a kind that is kept in a place of its own.
pub open spec fn all_plain(s: Seq<PacketView>) -> bool {
    forall|i: int| 0 <= i < s.len() ==> plain(#[trigger] s[i])
}

/// These packets are plain but for spawns of entities.
pub open spec fn plain_or_spawns(s: Seq<PacketView>) -> bool {
    forall|i: int|
        0 <= i < s.len() ==> plain(#[trigger] s[i]) || packet::wire_id(s[i])
            == ids::CB_GAME_ADD_ENTITY
}

/// A value of a walk stands under a key.
proof fn value_has_key<K: Key, W>(m: Map<K::V, W>, i: int)
    requires
        m.dom().finite(),
        0 <= i < table::values_in_order::<K, W>(m).len(),
    ensures
        m.contains_key(table::in_order::<K, W>(m)[i]),
        table::values_in_order::<K, W>(m)[i] == m[table::in_order::<K, W>(m)[i]],
{
    table::in_order_lists::<K, W>(m);
    let order = table::in_order::<K, W>(m);
    assert(order.contains(order[i]));
}

proof fn raws_plain<K: Key>(m: Map<K::V, FrameView>)
    requires
        plain_frames(m),
    ensures
        all_plain(packet::raws(table::values_in_order::<K, FrameView>(m))),
{
    let all = packet::raws(table::values_in_order::<K, FrameView>(m));
    assert forall|i: int| 0 <= i < all.len() implies plain(#[trigger] all[i]) by {
        value_has_key::<K, FrameView>(m, i);
    }
}

proof fn numbered_plain<K: Key>(
    a: Map<K::V, (u64, PacketView)>,
    b: Map<K::V, (u64, PacketView)>,
)
    requires
        plain_numbered(a),
        plain_numbered(b),
    ensures
        all_plain(
            arrival::by_number(
                table::values_in_order::<K, (u64, PacketView)>(a),
                table::values_in_order::<K, (u64, PacketView)>(b),
            ),
        ),
{
    let x = table::values_in_order::<K, (u64, PacketView)>(a);
    let y = table::values_in_order::<K, (u64, PacketView)>(b);
    let all = arrival::by_number(x, y);
    assert forall|i: int| 0 <= i < all.len() implies plain(#[trigger] all[i]) by {
        arrival::by_number_is_listed(x, y, i);
        let k = choose|k: int|
            #![trigger x[k]]
            #![trigger y[k]]
            (0 <= k < x.len() && all[i] == x[k].1) || (0 <= k < y.len() && all[i] == y[k].1);
        if 0 <= k < x.len() && all[i] == x[k].1 {
            value_has_key::<K, (u64, PacketView)>(a, k);
        } else {
            value_has_key::<K, (u64, PacketView)>(b, k);
        }
    }
}

proof fn batches_plain(chunks: Seq<Seq<u8>>)
    ensures
        all_plain(TerrainView::biome_batches(chunks)),
    decreases chunks.len(),
{
    if chunks.len() > terrain::BIOME_BATCH {
        batches_plain(chunks.skip(terrain::BIOME_BATCH as int));
    }
}

proof fn terrain_plain(t: TerrainView)
    requires
        terrain_filed(t),
    ensures
        all_plain(t.replay()),
{
    batches_plain(table::values_in_order::<(i32, i32), Seq<u8>>(t.biomes));
    raws_plain::<(i32, i32)>(t.light);
    numbered_plain::<BlockPos>(t.updates, t.block_entities);
}

proof fn cooling_plain(h: HudView, n: int, now: u64)
    ensures
        all_plain(h.cooling(n, now)),
    decreases n,
{
    if n > 0 {
        cooling_plain(h, n - 1, now);
    }
}

proof fn hud_plain(h: HudView, now: u64)
    requires
        hud_filed(h),
    ensures
        all_plain(h.self_packets()),
        all_plain(h.inventory_packets()),
        all_plain(h.cooldown_packets(now)),
        all_plain(packet::raw(h.experience)),
        all_plain(packet::raw(h.health)),
{
    raws_plain::<u32>(h.effects);
    let none = Map::<u16, (u64, PacketView)>::empty();
    numbered_plain::<u16>(h.slots, none);
    table::in_order_lists::<u16, (u64, PacketView)>(none);
    assert(table::values_in_order::<u16, (u64, PacketView)>(none) =~= Seq::empty()) by {
        let order = table::in_order::<u16, (u64, PacketView)>(none);
        if order.len() > 0 {
            assert(order.contains(order[0]));
            assert(none.contains_key(order[0]));
        }
    }
    assert(all_plain(h.slot_packets()));
    assert(all_plain(h.item_packets()));
    cooling_plain(h, table::in_order::<u32, Cooldown>(h.cooldowns).len() as int, now);
}

proof fn scoreboard_plain(s: ScoreboardView)
    requires
        scoreboard_filed(s),
    ensures
        all_plain(s.replay()),
{
    raws_plain::<(String, String)>(s.scores);
    let shown = s.display_packets();
    assert forall|i: int| 0 <= i < shown.len() implies plain(#[trigger] shown[i]) by {
        value_has_key::<u8, (Seq<char>, FrameView)>(s.displays, i);
    }
    assert(all_plain(s.objective_packets()));
    assert(all_plain(s.team_packets()));
}

proof fn entity_plain(e: EntityView, id: i32)
    requires
        entity_filed(e),
    ensures
        plain_or_spawns(e.replay(id)),
{
    raws_plain::<u32>(e.effects);
}

proof fn shown_plain(e: EntitiesView, n: int)
    requires
        entities_filed(e),
        n <= table::in_order::<i32, EntityView>(e.entities).len(),
    ensures
        plain_or_spawns(e.shown(n)),
    decreases n,
{
    if n > 0 {
        shown_plain(e, n - 1);
        value_has_key::<i32, EntityView>(e.entities, n - 1);
        let id = table::in_order::<i32, EntityView>(e.entities)[n - 1];
        entity_plain(e.entities[id], id);
    }
}

proof fn entities_plain(e: EntitiesView)
    requires
        entities_filed(e),
    ensures
        plain_or_spawns(e.replay()),
{
    shown_plain(e, table::in_order::<i32, EntityView>(e.entities).len() as int);
    raws_plain::<i32>(e.passengers);
    let links = packet::raws(e.link_frames());
    assert forall|i: int| 0 <= i < links.len() implies plain(#[trigger] links[i]) by {
        value_has_key::<i32, (i32, FrameView)>(e.links, i);
    }
}

/// What is replayed between the entities and the boss bars.
spec fn between(w: WorldView, now: u64) -> Seq<PacketView> {
    w.ambience.setting(now) + w.hud.self_packets() + (packet::raw(w.hud.experience) + packet::raw(
        w.hud.health,
    )) + w.hud.inventory_packets() + maps::map_packets(w.maps) + w.hud.cooldown_packets(now)
        + w.scoreboard.replay() + packet::raw(w.ambience.tab_list)
}

proof fn between_plain(w: WorldView, now: u64)
    requires
        filed(w),
    ensures
        all_plain(between(w, now)),
        all_plain(w.ambience.weather_packets()),
{
    hud_plain(w.hud, now);
    scoreboard_plain(w.scoreboard);
    assert(all_plain(w.ambience.setting(now)));
    assert(all_plain(maps::map_packets(w.maps)));
    assert(all_plain(packet::raw(w.ambience.tab_list)));
}

proof fn regrouped<A>(a: Seq<A>, b: Seq<A>, c: Seq<A>)
    ensures
        a + b + c == a + (b + c),
{
    assert(a + b + c =~= a + (b + c));
}

proof fn replay_in_parts(w: WorldView, now: u64)
    requires
        filed(w),
    ensures
        w.replay(now) == w.terrain.replay() + (w.players.replay() + (w.entities.replay() + (between(
            w,
            now,
        ) + (bossbar::bar_packets(w.boss_bars) + w.ambience.weather_packets())))),
        all_plain(w.terrain.replay()),
        plain_or_spawns(w.entities.replay()),
        all_plain(between(w, now)),
        all_plain(w.ambience.weather_packets()),
        forall|i: int|
            0 <= i < w.players.replay().len() ==> packet::wire_id(#[trigger] w.players.replay()[i])
                == ids::CB_GAME_PLAYER_INFO_UPDATE,
{
    let q = w.terrain.replay() + w.players.replay() + w.entities.replay();
    let setting = w.ambience.setting(now);
    let own = w.hud.self_packets();
    let vitals = packet::raw(w.hud.experience) + packet::raw(w.hud.health);
    let inventory = w.hud.inventory_packets();
    let drawn = maps::map_packets(w.maps);
    let cooling = w.hud.cooldown_packets(now);
    let board = w.scoreboard.replay();
    let list = packet::raw(w.ambience.tab_list);
    let bars = bossbar::bar_packets(w.boss_bars);
    let weather = w.ambience.weather_packets();
    regrouped(q, setting, own);
    regrouped(q, setting + own, vitals);
    regrouped(q, setting + own + vitals, inventory);
    regrouped(q, setting + own + vitals + inventory, drawn);
    regrouped(q, setting + own + vitals + inventory + drawn, cooling);
    regrouped(q, setting + own + vitals + inventory + drawn + cooling, board);
    regrouped(q, setting + own + vitals + inventory + drawn + cooling + board, list);
    let middle = between(w, now);
    assert(w.replay(now) == q + middle + bars + weather);
    regrouped(q + middle, bars, weather);
    regrouped(q, middle, bars + weather);
    regrouped(
        w.terrain.replay() + w.players.replay(),
        w.entities.replay(),
        middle + (bars + weather),
    );
    regrouped(
        w.terrain.replay(),
        w.players.replay(),
        w.entities.replay() + (middle + (bars + weather)),
    );
    terrain_plain(w.terrain);
    entities_plain(w.entities);
    between_plain(w, now);
}

/// Chunks are no part of what is replayed of the world beside them.
pub proof fn the_replay_holds_no_chunks(w: WorldView, now: u64, i: int)
    requires
        filed(w),
        0 <= i < w.replay(now).len(),
    ensures
        packet::wire_id(w.replay(now)[i]) != ids::CB_GAME_LEVEL_CHUNK_WITH_LIGHT,
{
    replay_in_parts(w, now);
}

/// A packet on the boss bar `id`, as far as it can be told.
pub open spec fn is_bar(p: PacketView, id: u128) -> bool {
    packet::wire_id(p) == ids::CB_GAME_BOSS_EVENT && !(p matches PacketView::AddBossBar {
        id: other,
        ..
    } && other != id)
}

/// A boss bar that is kept is replayed by one packet, its addition; of one that
/// is not kept nothing is replayed.
pub proof fn a_bar_is_replayed_once(w: WorldView, id: u128, now: u64)
    requires
        filed(w),
    ensures
        w.boss_bars.contains_key(id) ==> exists|k: int|
            0 <= k < w.replay(now).len() && #[trigger] w.replay(now)[k] == (
            PacketView::AddBossBar { id, bar: w.boss_bars[id] }) && forall|i: int|
                0 <= i < w.replay(now).len() && is_bar(#[trigger] w.replay(now)[i], id) ==> i == k,
        !w.boss_bars.contains_key(id) ==> forall|i: int|
            0 <= i < w.replay(now).len() ==> !is_bar(#[trigger] w.replay(now)[i], id),
{
    replay_in_parts(w, now);
    let r = w.replay(now);
    let bars = bossbar::bar_packets(w.boss_bars);
    let n = w.terrain.replay().len() + w.players.replay().len() + w.entities.replay().len()
        + between(w, now).len();
    let order = table::in_order::<u128, BossBarView>(w.boss_bars);
    table::in_order_lists::<u128, BossBarView>(w.boss_bars);
    assert forall|i: int| 0 <= i < r.len() && is_bar(#[trigger] r[i], id) implies n <= i < n
        + bars.len() && order[i - n] == id by {
        if n <= i < n + bars.len() {
            assert(r[i] == bars[i - n]);
        }
    }
    if w.boss_bars.contains_key(id) {
        assert(order.contains(id));
        let j = choose|j: int| 0 <= j < order.len() && order[j] == id;
        assert(r[n + j] == bars[j]);
        assert(r[n + j] == (PacketView::AddBossBar { id, bar: w.boss_bars[id] }));
        assert forall|i: int| 0 <= i < r.len() && is_bar(#[trigger] r[i], id) implies i == n
            + j by {
            if i < n + j {
                assert(<u128 as Key>::below(order[i - n], order[j]));
            } else if i > n + j {
                assert(<u128 as Key>::below(order[j], order[i - n]));
            }
        }
    } else {
        assert forall|i: int| 0 <= i < r.len() implies !is_bar(#[trigger] r[i], id) by {
            if is_bar(r[i], id) {
                assert(order.contains(order[i - n]));
                assert(w.boss_bars.contains_key(id));
            }
        }
    }
}

/// A tab list in these packets, and in no other place of them, stands before
/// every spawn of an entity.
pub open spec fn one_tab_list(r: Seq<PacketView>, list: PacketView) -> bool {
    exists|k: int|
        0 <= k < r.len() && #[trigger] r[k] == list && (forall|i: int|
            0 <= i < r.len() && packet::wire_id(#[trigger] r[i]) == ids::CB_GAME_PLAYER_INFO_UPDATE
                ==> i == k) && (forall|i: int|
            0 <= i < r.len() && packet::wire_id(#[trigger] r[i]) == ids::CB_GAME_ADD_ENTITY ==> k
                < i)
}

/// There is no tab list in these packets.
pub open spec fn no_tab_list(r: Seq<PacketView>) -> bool {
    forall|i: int|
        0 <= i < r.len() ==> packet::wire_id(#[trigger] r[i]) != ids::CB_GAME_PLAYER_INFO_UPDATE
}

/// The tab list is replayed by one packet, before every spawn of an entity, or
/// by none where nobody is on it.
pub proof fn the_tab_list_is_replayed_once(w: WorldView, now: u64)
    requires
        filed(w),
    ensures
        w.players.players.dom().len() == 0 ==> no_tab_list(w.replay(now)),
        w.players.players.dom().len() > 0 ==> w.players.replay().len() == 1 && one_tab_list(
            w.replay(now),
            w.players.replay()[0],
        ),
{
    let m = w.players.players;
    let k = w.terrain.replay().len() as int;
    let n = w.players.replay().len() as int;
    no_other_tab_list(w, now);
    if m.dom().len() == 0 {
        assert(m.dom() =~= Set::<u128>::empty());
        assert(m =~= Map::<u128, PlayerInfoView>::empty());
        stands_alone(w.replay(now), k, n);
    } else {
        if m == Map::<u128, PlayerInfoView>::empty() {
            assert(m.dom() =~= Set::<u128>::empty());
        }
        tab_list_stands(w, now);
        stands_alone(w.replay(now), k, n);
    }
}

proof fn stands_alone(r: Seq<PacketView>, k: int, n: int)
    requires
        0 <= n <= 1,
        0 <= k,
        k + n <= r.len(),
        forall|i: int|
            0 <= i < r.len() && packet::wire_id(#[trigger] r[i]) == ids::CB_GAME_PLAYER_INFO_UPDATE
                ==> k <= i < k + n,
        forall|i: int|
            0 <= i < r.len() && packet::wire_id(#[trigger] r[i]) == ids::CB_GAME_ADD_ENTITY ==> k
                + n <= i,
    ensures
        n == 0 ==> no_tab_list(r),
        n == 1 ==> one_tab_list(r, r[k]),
{
}

/// The tab list stands behind the terrain.
proof fn tab_list_stands(w: WorldView, now: u64)
    requires
        filed(w),
        w.players.replay().len() > 0,
    ensures
        w.terrain.replay().len() < w.replay(now).len(),
        w.replay(now)[w.terrain.replay().len() as int] == w.players.replay()[0],
{
    replay_in_parts(w, now);
}

proof fn no_other_tab_list(w: WorldView, now: u64)
    requires
        filed(w),
    ensures
        w.terrain.replay().len() + w.players.replay().len() <= w.replay(now).len(),
        forall|i: int|
            0 <= i < w.replay(now).len() && packet::wire_id(#[trigger] w.replay(now)[i])
                == ids::CB_GAME_PLAYER_INFO_UPDATE ==> w.terrain.replay().len() <= i
                < w.terrain.replay().len() + w.players.replay().len(),
        forall|i: int|
            0 <= i < w.replay(now).len() && packet::wire_id(#[trigger] w.replay(now)[i])
                == ids::CB_GAME_ADD_ENTITY ==> w.terrain.replay().len()
                + w.players.replay().len() <= i,
{
    replay_in_parts(w, now);
    let bars = bossbar::bar_packets(w.boss_bars);
    assert forall|i: int| 0 <= i < bars.len() implies packet::wire_id(#[trigger] bars[i])
        == ids::CB_GAME_BOSS_EVENT by {}
}

/// A tab list with one entry for each of these players, and no other: the
/// player without signatures and without a chat session.
pub open spec fn lists_players(packet: PacketView, players: Map<u128, PlayerInfoView>) -> bool {
    packet matches PacketView::PlayerInfoUpdate { actions, entries } && {
        &&& actions == roster::replayed_actions()
        &&& forall|uuid: u128| #[trigger]
            players.contains_key(uuid) ==> entries.contains(roster::stripped(players[uuid]))
        &&& forall|i: int|
            0 <= i < entries.len() ==> {
                &&& players.contains_key((#[trigger] entries[i]).profile.uuid)
                &&& entries[i] == roster::stripped(players[entries[i].profile.uuid])
                &&& entries[i].chat_session is None
                &&& forall|j: int|
                    0 <= j < entries[i].profile.properties.len() ==> (
                    #[trigger] entries[i].profile.properties[j]).signature is None
            }
        &&& forall|i: int, j: int|
            0 <= i < j < entries.len() ==> (#[trigger] entries[i]).profile.uuid != (
            #[trigger] entries[j]).profile.uuid
    }
}

/// The replayed tab list holds one entry for each known player, and no other:
/// what is known of the player, without signatures and without a chat session.
pub proof fn the_tab_list_is_complete(p: RosterView)
    requires
        players_filed(p),
        p.players.dom().len() > 0,
    ensures
        p.replay().len() == 1,
        lists_players(p.replay()[0], p.players),
{
    let m = p.players;
    if m == Map::<u128, PlayerInfoView>::empty() {
        assert(m.dom() =~= Set::<u128>::empty());
    }
    table::in_order_lists::<u128, PlayerInfoView>(m);
    let order = table::in_order::<u128, PlayerInfoView>(m);
    let all = table::values_in_order::<u128, PlayerInfoView>(m);
    let entries = Seq::new(all.len(), |i: int| roster::stripped(all[i]));
    assert(p.replay()[0] == (PacketView::PlayerInfoUpdate {
        actions: roster::replayed_actions(),
        entries,
    }));
    assert forall|i: int| 0 <= i < entries.len() implies order.contains(order[i])
        && m.contains_key(order[i]) && (#[trigger] entries[i]).profile.uuid == order[i]
        && entries[i] == roster::stripped(m[order[i]]) by {
        assert(order.contains(order[i]));
    }
    assert forall|uuid: u128| #[trigger] m.contains_key(uuid) implies entries.contains(
        roster::stripped(m[uuid]),
    ) by {
        assert(order.contains(uuid));
        let i = choose|i: int| 0 <= i < order.len() && order[i] == uuid;
        assert(entries[i] == roster::stripped(m[uuid]));
    }
    assert forall|i: int, j: int| 0 <= i < j < entries.len() implies (
    #[trigger] entries[i]).profile.uuid != (#[trigger] entries[j]).profile.uuid by {
        assert(<u128 as Key>::below(order[i], order[j]));
    }
}

} // verus!
