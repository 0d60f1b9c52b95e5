//! What holds of the world that is kept and replayed.

use vstd::prelude::*;

use crate::arrival;
use crate::bossbar;
use crate::entities::{EntitiesView, EntityView};
use crate::hud;
use crate::hud::HudView;
use crate::packet;
use crate::packet::{BlockPos, GamePacket, PacketView};
use crate::plugin::FrameView;
use crate::roster;
use crate::roster::RosterView;
use crate::scoreboard::ScoreboardView;
use crate::snapshot::WorldView;
use crate::table;
use crate::terrain;
use crate::terrain::TerrainView;

verus! {

/// Of several values that were put in under a key, the last one stays.
pub proof fn the_last_value_stays<A, W>(m: Map<A, W>, s: Seq<(A, W)>, i: int)
    requires
        0 <= i < s.len(),
        forall|j: int| i < j < s.len() ==> (#[trigger] s[j]).0 != s[i].0,
    ensures
        table::put_all(m, s).contains_key(s[i].0),
        table::put_all(m, s)[s[i].0] == s[i].1,
    decreases s.len(),
{
    if i < s.len() - 1 {
        let t = s.drop_last();
        assert(s[s.len() - 1].0 != s[i].0);
        assert forall|j: int| i < j < t.len() implies (#[trigger] t[j]).0 != t[i].0 by {
            assert(t[j] == s[j]);
        }
        the_last_value_stays(m, t, i);
    }
}

/// Values under keys that nothing was put in for stay as they were.
pub proof fn other_values_stay<A, W>(m: Map<A, W>, s: Seq<(A, W)>, k: A)
    requires
        forall|j: int| 0 <= j < s.len() ==> (#[trigger] s[j]).0 != k,
    ensures
        table::put_all(m, s).contains_key(k) == m.contains_key(k),
        m.contains_key(k) ==> table::put_all(m, s)[k] == m[k],
    decreases s.len(),
{
    if s.len() > 0 {
        let t = s.drop_last();
        assert(s[s.len() - 1].0 != k);
        assert forall|j: int| 0 <= j < t.len() implies (#[trigger] t[j]).0 != k by {
            assert(t[j] == s[j]);
        }
        other_values_stay(m, t, k);
    }
}

/// Metadata updates of an entity are merged field by field: a field has the
/// last value that came for it.
pub proof fn metadata_merges_by_index(
    e: EntitiesView,
    id: i32,
    items: Seq<(u8, Seq<u8>)>,
    i: int,
)
    requires
        e.entities.contains_key(id),
        0 <= i < items.len(),
        forall|j: int| i < j < items.len() ==> (#[trigger] items[j]).0 != items[i].0,
    ensures
        e.described(id, items).entities[id].metadata[items[i].0] == items[i].1,
        forall|k: u8|
            e.entities[id].metadata.contains_key(k) && (forall|j: int|
                0 <= j < items.len() ==> (#[trigger] items[j]).0 != k) ==> #[trigger] e.described(
                id,
                items,
            ).entities[id].metadata[k] == e.entities[id].metadata[k],
{
    the_last_value_stays(e.entities[id].metadata, items, i);
    assert forall|k: u8|
        e.entities[id].metadata.contains_key(k) && (forall|j: int|
            0 <= j < items.len() ==> (#[trigger] items[j]).0 != k) implies #[trigger] e.described(
        id,
        items,
    ).entities[id].metadata[k] == e.entities[id].metadata[k] by {
        other_values_stay(e.entities[id].metadata, items, k);
    }
}

/// Nothing is made up of an entity that was never shown: whatever is told of
/// it changes nothing.
pub proof fn unknown_entities_stay_unknown(
    w: WorldView,
    f: FrameView,
    p: GamePacket,
    now: u64,
    id: i32,
)
    requires
        !w.entities.entities.contains_key(id),
        p matches GamePacket::AddEntity { id: added, .. } ==> added != id,
    ensures
        !w.observe(f, p, now).entities.entities.contains_key(id),
{
    if let GamePacket::RemoveEntities { ids } = p {
        removed_entities_are_gone(w.entities, ids@, id);
    }
}

/// An entity that was removed is gone, with its passengers and every link to
/// or from it; one that was unknown stays so.
pub proof fn removed_entities_are_gone(e: EntitiesView, ids: Seq<i32>, id: i32)
    requires
        ids.contains(id) || !e.entities.contains_key(id),
    ensures
        !e.remove_all(ids).entities.contains_key(id),
        ids.contains(id) ==> !e.remove_all(ids).passengers.contains_key(id)
            && !e.remove_all(ids).links.contains_key(id) && forall|source: i32| #[trigger]
            e.remove_all(ids).links.contains_key(source) ==> e.remove_all(ids).links[source].0 != id,
    decreases ids.len(),
{
    if ids.len() > 0 {
        let most = ids.drop_last();
        let before = e.remove_all(most);
        if ids.contains(id) && ids.last() != id {
            let i = choose|i: int| 0 <= i < ids.len() && ids[i] == id;
            assert(most[i] == id);
            assert(most.contains(id));
        }
        if most.contains(id) || !e.entities.contains_key(id) {
            removed_entities_are_gone(e, most, id);
        }
        assert forall|source: i32|
            ids.contains(id) && #[trigger] e.remove_all(ids).links.contains_key(
                source,
            ) implies e.remove_all(ids).links[source].0 != id by {
            assert(before.links.contains_key(source));
        }
    }
}

/// A dimension change takes the entities, the terrain, the border and the
/// weather; players, scoreboards, inventory, vitals, maps and boss bars stay.
pub proof fn a_dimension_change_keeps_the_player(w: WorldView, data_to_keep: u8)
    ensures
        ({
            let t = w.on_respawn(data_to_keep);
            &&& t.entities == EntitiesView::empty()
            &&& t.terrain == TerrainView::empty()
            &&& t.ambience.border is None && t.ambience.rain is None
            &&& t.ambience.time == w.ambience.time
            &&& t.players == w.players && t.scoreboard == w.scoreboard
            &&& t.maps == w.maps && t.boss_bars == w.boss_bars
            &&& t.hud.items == w.hud.items && t.hud.content == w.hud.content
            &&& t.hud.slots == w.hud.slots && t.hud.selected == w.hud.selected
            &&& t.hud.health == w.hud.health && t.hud.experience == w.hud.experience
            &&& t.hud.cooldowns == w.hud.cooldowns
            &&& (data_to_keep % 2 == 1 ==> t.hud.attributes == w.hud.attributes)
            &&& (data_to_keep / 2 % 2 == 1 ==> t.hud.metadata == w.hud.metadata && t.hud.effects
                == w.hud.effects)
        }),
{
}

/// An objective is replayed as the addition that creates it, with the last
/// parameters that came for it, also where these came as a change.
pub proof fn objectives_are_replayed_as_additions(
    board: ScoreboardView,
    name: Seq<char>,
    parameters: Seq<u8>,
)
    requires
        board.objectives.dom().finite(),
    ensures
        board.set_objective(name, parameters).replay().contains(
            PacketView::AddObjective { name, parameters },
        ),
{
    let after = board.set_objective(name, parameters);
    table::in_order_lists::<String, Seq<u8>>(after.objectives);
    let order = table::in_order::<String, Seq<u8>>(after.objectives);
    assert(after.objectives.contains_key(name));
    assert(order.contains(name));
    let i = choose|i: int| 0 <= i < order.len() && order[i] == name;
    assert(after.objective_packets()[i] == PacketView::AddObjective { name, parameters });
    assert(after.replay()[i] == after.objective_packets()[i]);
}

/// The kind of a scoreboard packet: objectives first, teams next, then what
/// shows or counts them.
pub open spec fn scoreboard_rank(p: PacketView) -> int {
    match p {
        PacketView::AddObjective { .. } => 0,
        PacketView::AddTeam { .. } => 1,
        _ => 2,
    }
}

/// On the scoreboard what others refer to comes first: every objective before
/// every team, and both before displays and scores.
pub proof fn the_scoreboard_is_replayed_in_order(board: ScoreboardView, i: int, j: int)
    requires
        0 <= i < j < board.replay().len(),
    ensures
        scoreboard_rank(board.replay()[i]) <= scoreboard_rank(board.replay()[j]),
{
    let a = board.objective_packets();
    let b = board.team_packets();
    let c = board.display_packets();
    let d = packet::raws(table::values_in_order::<(String, String), FrameView>(board.scores));
    let all = board.replay();
    assert(all =~= a + (b + (c + d)));
    ranked(a, b, c, d, i);
    ranked(a, b, c, d, j);
}

proof fn ranked(
    a: Seq<PacketView>,
    b: Seq<PacketView>,
    c: Seq<PacketView>,
    d: Seq<PacketView>,
    i: int,
)
    requires
        0 <= i < a.len() + b.len() + c.len() + d.len(),
        forall|k: int| 0 <= k < a.len() ==> #[trigger] a[k] is AddObjective,
        forall|k: int| 0 <= k < b.len() ==> #[trigger] b[k] is AddTeam,
        forall|k: int| 0 <= k < c.len() ==> #[trigger] c[k] is Raw,
        forall|k: int| 0 <= k < d.len() ==> #[trigger] d[k] is Raw,
    ensures
        scoreboard_rank((a + (b + (c + d)))[i]) == (if i < a.len() {
            0int
        } else if i < a.len() + b.len() {
            1int
        } else {
            2int
        }),
{
    let all = a + (b + (c + d));
    if i < a.len() {
        assert(all[i] == a[i]);
    } else if i < a.len() + b.len() {
        assert(all[i] == b[i - a.len()]);
    } else if i < a.len() + b.len() + c.len() {
        assert(all[i] == c[i - a.len() - b.len()]);
    } else {
        assert(all[i] == d[i - a.len() - b.len() - c.len()]);
    }
}

/// No property of a replayed tab-list entry carries a signature, and nothing
/// else of the entries is lost.
pub proof fn replayed_players_are_unsigned(players: RosterView, uuid: u128)
    requires
        players.players.dom().finite(),
        players.players.contains_key(uuid),
    ensures
        players.replay().len() == 1,
        players.replay()[0] matches PacketView::PlayerInfoUpdate { entries, .. } && entries.contains(
            roster::stripped(players.players[uuid]),
        ) && forall|i: int, j: int|
            0 <= i < entries.len() && 0 <= j < entries[i].profile.properties.len() ==> (
            #[trigger] entries[i].profile.properties[j]).signature is None,
{
    table::in_order_lists::<u128, packet::PlayerInfoView>(players.players);
    let order = table::in_order::<u128, packet::PlayerInfoView>(players.players);
    let all = table::values_in_order::<u128, packet::PlayerInfoView>(players.players);
    let entries = Seq::new(all.len(), |i: int| roster::stripped(all[i]));
    assert(players.players != Map::<u128, packet::PlayerInfoView>::empty());
    assert(order.contains(uuid));
    let i = choose|i: int| 0 <= i < order.len() && order[i] == uuid;
    assert(entries[i] == roster::stripped(players.players[uuid]));
    assert(players.replay()[0] == PacketView::PlayerInfoUpdate {
        actions: roster::replayed_actions(),
        entries,
    });
}

/// The inventory as it stands is replayed after the packets that brought it
/// there, so what a client ends up with in a slot is what came last, whichever
/// kind of packet brought it.
pub proof fn the_inventory_as_it_stands_comes_last(h: HudView, slot: u32)
    requires
        h.items.dom().finite(),
        h.items.contains_key(slot),
    ensures
        h.item_packets().contains(PacketView::SetPlayerInventory { slot, item: h.items[slot] }),
        forall|i: int|
            0 <= i < h.item_packets().len() ==> (#[trigger] h.item_packets()[i] matches PacketView::SetPlayerInventory {
                slot: s,
                item,
            } && (s == slot ==> item == h.items[slot])),
        h.inventory_packets() == seq![PacketView::Raw(hud::held_slot(h.selected))] + packet::raw(
            h.content,
        ) + h.slot_packets() + h.item_packets() + packet::raw(h.cursor),
{
    table::in_order_lists::<u32, Seq<u8>>(h.items);
    let order = table::in_order::<u32, Seq<u8>>(h.items);
    assert(order.contains(slot));
    let i = choose|i: int| 0 <= i < order.len() && order[i] == slot;
    assert(h.item_packets()[i] == PacketView::SetPlayerInventory { slot, item: h.items[slot] });
}

/// A slot change is kept in the place of earlier ones of the same slot, and
/// counts in the inventory as it stands.
pub proof fn the_latest_slot_change_counts(
    h: HudView,
    slot: u16,
    item: Seq<u8>,
    frame: FrameView,
)
    ensures
        h.put(0, slot, item, frame).slots.dom() == h.slots.dom().insert(slot),
        h.put(0, slot, item, frame).slots[slot].1 == PacketView::Raw(frame),
        hud::inventory_slot(slot as int) matches Some(s) ==> h.put(0, slot, item, frame).item(s)
            == item,
{
    assert(h.put(0, slot, item, frame).slots.dom() =~= h.slots.dom().insert(slot));
}

/// One of the nine hotbar slots is selected, whatever slot the server names.
pub proof fn the_selection_stays_on_the_hotbar(h: HudView, slot: u32)
    requires
        h.selected <= 8,
    ensures
        h.select(slot).selected <= 8,
        slot <= 8 ==> h.select(slot).selected == slot,
        slot > 8 ==> h.select(slot) == h,
{
}

/// A chunk that is sent anew or forgotten leaves no changes behind, and takes
/// none of another chunk with it.
pub proof fn forgetting_a_chunk_is_local(t: TerrainView, x: i32, z: i32, pos: BlockPos)
    ensures
        ({
            let after = t.forget_chunk(x, z);
            if terrain::in_chunk(pos, x, z) {
                &&& !after.updates.contains_key(pos)
                &&& !after.block_entities.contains_key(pos)
            } else {
                &&& after.updates.contains_key(pos) == t.updates.contains_key(pos)
                &&& after.block_entities.contains_key(pos) == t.block_entities.contains_key(pos)
                &&& (t.updates.contains_key(pos) ==> after.updates[pos] == t.updates[pos])
                &&& (t.block_entities.contains_key(pos) ==> after.block_entities[pos]
                    == t.block_entities[pos])
            }
        }),
        !t.forget_chunk(x, z).biomes.contains_key((x, z)),
        !t.forget_chunk(x, z).light.contains_key((x, z)),
{
}

/// However often a block changes, one change of it is kept.
pub proof fn block_changes_are_bounded(t: TerrainView, pos: BlockPos, packet: PacketView)
    requires
        t.updates.dom().finite(),
    ensures
        t.change_block(pos, packet).updates.dom().len() <= t.updates.dom().len() + 1,
        t.updates.contains_key(pos) ==> t.change_block(pos, packet).updates.dom().len()
            == t.updates.dom().len(),
        t.change_block(pos, packet).updates[pos].1 == packet,
{
    let after = t.change_block(pos, packet);
    assert(after.updates.dom() =~= t.updates.dom().insert(pos));
    if t.updates.contains_key(pos) {
        assert(t.updates.dom().contains(pos));
        assert(after.updates.dom() =~= t.updates.dom());
    }
}

/// Changes are replayed in the order in which they came: by their numbers,
/// every one of them.
pub proof fn changes_are_replayed_in_order(
    a: Seq<(u64, PacketView)>,
    b: Seq<(u64, PacketView)>,
    i: int,
    j: int,
)
    requires
        a.len() <= usize::MAX,
        b.len() <= usize::MAX,
        0 <= i < j < arrival::by_number(a, b).len(),
    ensures
        ({
            let order = table::in_order::<arrival::Place, ()>(arrival::places(a, b));
            order[i].0 <= order[j].0
        }),
        forall|k: int|
            0 <= k < a.len() ==> arrival::by_number(a, b).contains((#[trigger] a[k]).1),
        forall|k: int|
            0 <= k < b.len() ==> arrival::by_number(a, b).contains((#[trigger] b[k]).1),
{
    let m = arrival::places(a, b);
    arrival::places_finite(a, b);
    table::in_order_lists::<arrival::Place, ()>(m);
    let order = table::in_order::<arrival::Place, ()>(m);
    let all = arrival::by_number(a, b);
    assert(<arrival::Place as table::Key>::below(order[i], order[j]));
    assert forall|k: int| 0 <= k < a.len() implies all.contains((#[trigger] a[k]).1) by {
        let place: arrival::Place = (a[k].0, (0u8, k as usize));
        assert(m.contains_key(place));
        assert(order.contains(place));
        let n = choose|n: int| 0 <= n < order.len() && order[n] == place;
        assert(all[n] == a[k].1);
    }
    assert forall|k: int| 0 <= k < b.len() implies all.contains((#[trigger] b[k]).1) by {
        let place: arrival::Place = (b[k].0, (1u8, k as usize));
        assert(m.contains_key(place));
        assert(order.contains(place));
        let n = choose|n: int| 0 <= n < order.len() && order[n] == place;
        assert(all[n] == b[k].1);
    }
}

/// Every known entity is shown to a fresh client, at the place where it is
/// now.
pub proof fn entities_are_replayed_where_they_are(e: EntitiesView, id: i32)
    requires
        e.entities.dom().finite(),
        e.entities.contains_key(id),
    ensures
        e.replay().contains(PacketView::Raw(e.entities[id].add)),
        e.replay().contains(
            PacketView::EntityPositionSync {
                id,
                pos: e.entities[id].pos,
                motion: e.entities[id].motion,
                look: e.entities[id].look,
                on_ground: e.entities[id].on_ground,
            },
        ),
{
    table::in_order_lists::<i32, EntityView>(e.entities);
    let order = table::in_order::<i32, EntityView>(e.entities);
    assert(order.contains(id));
    let i = choose|i: int| 0 <= i < order.len() && order[i] == id;
    let n = order.len() as int;
    shown_contains(e, i, n);
    let k = e.shown(i).len() as int;
    let r = e.entities[id].replay(id);
    assert(r[0] == PacketView::Raw(e.entities[id].add));
    let head = e.shown(n);
    assert(e.replay()[k] == head[k]);
    assert(e.replay()[k + 1] == head[k + 1]);
    assert(head[k] == r[0]);
    assert(head[k + 1] == r[1]);
}

proof fn shown_contains(e: EntitiesView, i: int, n: int)
    requires
        0 <= i < n <= table::in_order::<i32, EntityView>(e.entities).len(),
    ensures
        ({
            let id = table::in_order::<i32, EntityView>(e.entities)[i];
            let r = e.entities[id].replay(id);
            &&& e.shown(i).len() + r.len() <= e.shown(n).len()
            &&& forall|k: int|
                0 <= k < r.len() ==> #[trigger] r[k] == e.shown(n)[e.shown(i).len() + k]
        }),
    decreases n,
{
    if i < n - 1 {
        shown_contains(e, i, n - 1);
    }
}

/// Every boss bar is replayed with the world, as an addition.
pub proof fn boss_bars_are_replayed(w: WorldView, id: u128, now: u64)
    requires
        w.boss_bars.dom().finite(),
        w.boss_bars.contains_key(id),
    ensures
        w.replay(now).contains(PacketView::AddBossBar { id, bar: w.boss_bars[id] }),
{
    bossbar::bars_are_replayed(w.boss_bars, id);
    let bars = bossbar::bar_packets(w.boss_bars);
    let packet = PacketView::AddBossBar { id, bar: w.boss_bars[id] };
    let i = choose|i: int| 0 <= i < bars.len() && bars[i] == packet;
    let weather = w.ambience.weather_packets();
    let all = w.replay(now);
    let front = all.len() - bars.len() - weather.len();
    assert(all[front + i] == bars[i]);
}

} // verus!
