//! What becomes of what the server tells of the player's own state, and of maps.

use vstd::prelude::*;

use crate::clock;
use crate::entities;
use crate::entity_laws;
use crate::hud;
use crate::hud::{Cooldown, HudView};
use crate::maps;
use crate::maps::MapView;
use crate::packet;
use crate::packet::{GamePacket, MapPatch, PacketView};
use crate::plugin::FrameView;
use crate::reflect;
use crate::snapshot::WorldView;
use crate::stages;
use crate::table;
use crate::views;

verus! {

// Time.

/// A clock that has gone on by so many milliseconds, and less than one more, has
/// gone on by so many whole milliseconds; one that has not gone on, by none.
pub proof fn whole_milliseconds_are_counted(started: u64, millis: u64, more: u64)
    requires
        more < 1_000_000,
        started + millis * 1_000_000 + more <= u64::MAX,
    ensures
        clock::millis_since(started, (started + millis * 1_000_000 + more) as u64) == millis,
        clock::millis_since((started + more) as u64, started) == 0,
{
    let now = (started + millis * 1_000_000 + more) as u64;
    assert((millis * 1_000_000 + more) / 1_000_000 == millis as int) by (nonlinear_arith)
        requires
            0 <= more < 1_000_000,
    ;
}

/// A tick takes fifty milliseconds: that many fewer are left for each, and none
/// once all are gone.
pub proof fn a_tick_takes_fifty_milliseconds(elapsed: u64, duration: u64)
    ensures
        clock::ticks_left(elapsed, duration) == (if elapsed / 50 >= duration {
            0
        } else {
            (duration - elapsed / 50) as u64
        }),
        clock::left_of(duration, elapsed as int) == (if elapsed >= duration {
            0
        } else {
            (duration - elapsed) as u64
        }),
{
    assert(elapsed * 20 / 1000 == elapsed / 50);
}

// The inventory.

/// The slots of the inventory menu stand for those of the inventory: the nine of
/// the hotbar come last, the twenty-seven of the main part keep their places,
/// armor stands from head to feet, and the offhand is by itself. The crafting
/// grid, and what lies beyond, is no part of it.
pub proof fn menu_slots_stand_for_inventory_slots(i: int)
    ensures
        0 <= i < 9 ==> hud::inventory_slot(36 + i) == Some(i as u32),
        9 <= i <= 35 ==> hud::inventory_slot(i) == Some(i as u32),
        0 <= i < 4 ==> hud::inventory_slot(5 + i) == Some((39 - i) as u32),
        hud::inventory_slot(45) == Some(40u32),
        i < 5 || i > 45 ==> hud::inventory_slot(i) is None,
{
}

/// No two slots of the menu stand for the same slot of the inventory.
pub proof fn menu_slots_do_not_overlap(i: int, j: int)
    requires
        hud::inventory_slot(i) is Some,
        hud::inventory_slot(i) == hud::inventory_slot(j),
    ensures
        i == j,
{
}

proof fn stocked_holds(items: Seq<Seq<u8>>, k: u32)
    ensures
        forall|i: int|
            0 <= i < items.len() && #[trigger] hud::inventory_slot(i) == Some(k)
                ==> entity_laws::found(hud::stocked(items), k) == Some(items[i]),
        hud::stocked(items).contains_key(k) ==> exists|i: int|
            0 <= i < items.len() && #[trigger] hud::inventory_slot(i) == Some(k),
    decreases items.len(),
{
    if items.len() > 0 {
        let less = items.drop_last();
        let n = items.len() - 1;
        stocked_holds(less, k);
        assert forall|i: int|
            0 <= i < items.len() && #[trigger] hud::inventory_slot(i) == Some(
                k,
            ) implies entity_laws::found(hud::stocked(items), k) == Some(items[i]) by {
            if i < n {
                assert(less[i] == items[i]);
                if hud::inventory_slot(n) == Some(k) {
                    menu_slots_do_not_overlap(i, n);
                }
            }
        }
        if hud::stocked(items).contains_key(k) {
            if hud::inventory_slot(n) != Some(k) {
                let i = choose|i: int|
                    0 <= i < less.len() && #[trigger] hud::inventory_slot(i) == Some(k);
                assert(hud::inventory_slot(i) == Some(k));
            }
        }
    }
}

/// The full content of the inventory puts every item into its slot and leaves
/// nothing else there; slot changes before it are stale. That of another menu
/// changes nothing.
pub proof fn full_contents_replace_the_inventory(
    h: HudView,
    container: i32,
    items: Seq<Seq<u8>>,
    f: FrameView,
    k: u32,
)
    ensures
        ({
            let t = h.fill(container, items, f);
            &&& container != 0 ==> t == h
            &&& container == 0 ==> {
                &&& t.content == Some(f)
                &&& t.slots.dom() == Set::<u16>::empty()
                &&& t.selected == h.selected && t.cursor == h.cursor && t.health == h.health
                &&& forall|i: int|
                    0 <= i < items.len() && #[trigger] hud::inventory_slot(i) == Some(k) ==> t.item(
                        k,
                    ) == items[i]
                &&& (forall|i: int|
                    0 <= i < items.len() ==> #[trigger] hud::inventory_slot(i) != Some(k))
                    ==> !t.items.contains_key(k)
            }
        }),
{
    stocked_holds(items, k);
    if container == 0 {
        assert(h.fill(container, items, f).slots.dom() =~= Set::<u16>::empty());
    }
}

/// A slot change of the inventory puts the item into its slot and leaves the
/// others; it is kept in the place of an earlier one of the same slot, to be
/// sent after those that came before. One of the cursor changes the cursor. Of
/// another menu nothing is kept.
pub proof fn slot_changes_change_one_slot(
    h: HudView,
    container: i32,
    slot: u16,
    item: Seq<u8>,
    f: FrameView,
    k: u32,
    other: u16,
)
    ensures
        ({
            let t = h.put(container, slot, item, f);
            let own = container == 0 || container == -2;
            &&& entity_laws::found(t.items, k) == (if own && hud::inventory_slot(slot as int)
                == Some(k) {
                Some(item)
            } else {
                entity_laws::found(h.items, k)
            })
            &&& own ==> t.slots.contains_key(slot) && t.slots[slot].1 == PacketView::Raw(f)
                && t.slots[slot].0 == t.sequence && (h.sequence < u64::MAX ==> t.sequence
                == h.sequence + 1)
            &&& !own || other != slot ==> entity_laws::found(t.slots, other) == entity_laws::found(
                h.slots,
                other,
            )
            &&& t.cursor == (if container == -1 {
                Some(f)
            } else {
                h.cursor
            })
            &&& t.content == h.content && t.selected == h.selected
        }),
{
}

/// Of the player's state every packet changes what it speaks of, and nothing
/// else: the selected slot, one slot of the inventory, the cooldown of an item,
/// and, told of the player's own entity id, its metadata and attributes.
pub proof fn the_players_state_is_as_it_was_told_last(
    w: WorldView,
    f: FrameView,
    p: GamePacket,
    now: u64,
)
    requires
        !(p is Opaque),
    ensures
        ({
            let h = w.hud;
            let t = w.observe(f, p, now).hud;
            &&& t.entity_id == h.entity_id && t.effects == h.effects
            &&& t.experience == h.experience && t.health == h.health
            &&& t.selected == (match p {
                GamePacket::SetHeldSlot { slot } if slot < 9 => slot,
                _ => h.selected,
            })
            &&& forall|k: u8| #[trigger]
                entity_laws::found(t.metadata, k) == (match h.entity_id {
                    Some(id) if entity_laws::last_under(entity_laws::told_data(p, id), k) is Some =>
                        entity_laws::last_under(entity_laws::told_data(p, id), k),
                    _ => entity_laws::found(h.metadata, k),
                })
            &&& forall|k: u32| #[trigger]
                entity_laws::found(t.attributes, k) == (match h.entity_id {
                    Some(id) if entity_laws::last_under(
                        entity_laws::told_attributes(p, id),
                        k,
                    ) is Some => entity_laws::last_under(entity_laws::told_attributes(p, id), k),
                    _ => entity_laws::found(h.attributes, k),
                })
            &&& forall|k: u32| #[trigger]
                entity_laws::found(t.cooldowns, k) == (match p {
                    GamePacket::Cooldown { item, duration } if item == k => if duration == 0 {
                        None
                    } else {
                        Some(Cooldown { duration_ticks: duration, started: now })
                    },
                    _ => entity_laws::found(h.cooldowns, k),
                })
            &&& (p matches GamePacket::SetPlayerInventory { slot, item } ==> forall|k: u32| #[trigger]
                entity_laws::found(t.items, k) == (if k == slot {
                    Some(item@)
                } else {
                    entity_laws::found(h.items, k)
                }))
            &&& (p matches GamePacket::ContainerSetContent { container, items } ==> t == h.fill(
                container,
                views::views(items@),
                f,
            ))
            &&& (p matches GamePacket::ContainerSetSlot { container, slot, item } ==> t == h.put(
                container,
                slot,
                item@,
                f,
            ))
            &&& !(p is ContainerSetContent) && !(p is ContainerSetSlot) ==> t.content == h.content
                && t.slots == h.slots && t.cursor == h.cursor
            &&& !(p is ContainerSetContent) && !(p is ContainerSetSlot)
                && !(p is SetPlayerInventory) ==> t.items == h.items
        }),
{
    stages::parts_change_on_their_own(w, f, p, now);
    let a = w.observe_entity(f, p);
    own_state(w, f, p);
    hud_stage(a, f, p, now);
    let h = w.hud;
    let t = a.observe_inventory(f, p, now).hud;
    assert forall|k: u8| #[trigger] entity_laws::found(t.metadata, k) == (match h.entity_id {
        Some(id) if entity_laws::last_under(entity_laws::told_data(p, id), k) is Some =>
            entity_laws::last_under(entity_laws::told_data(p, id), k),
        _ => entity_laws::found(h.metadata, k),
    }) by {
        if let Some(id) = h.entity_id {
            entity_laws::put_values_are_found(h.metadata, entity_laws::told_data(p, id), k);
        }
    }
    assert forall|k: u32| #[trigger] entity_laws::found(t.attributes, k) == (match h.entity_id {
        Some(id) if entity_laws::last_under(entity_laws::told_attributes(p, id), k) is Some =>
            entity_laws::last_under(entity_laws::told_attributes(p, id), k),
        _ => entity_laws::found(h.attributes, k),
    }) by {
        if let Some(id) = h.entity_id {
            entity_laws::put_values_are_found(
                h.attributes,
                entity_laws::told_attributes(p, id),
                k,
            );
        }
    }
}

proof fn own_state(w: WorldView, f: FrameView, p: GamePacket)
    ensures
        ({
            let h = w.hud;
            let t = w.observe_entity(f, p).hud;
            &&& t == (HudView { metadata: t.metadata, attributes: t.attributes, ..h })
            &&& t.metadata == (match h.entity_id {
                Some(id) => table::put_all(h.metadata, entity_laws::told_data(p, id)),
                None => h.metadata,
            })
            &&& t.attributes == (match h.entity_id {
                Some(id) => table::put_all(h.attributes, entity_laws::told_attributes(p, id)),
                None => h.attributes,
            })
        }),
{
    let h = w.hud;
    assert(table::put_all(h.metadata, Seq::empty()) == h.metadata);
    assert(table::put_all(h.attributes, Seq::empty()) == h.attributes);
}

proof fn hud_stage(w: WorldView, f: FrameView, p: GamePacket, now: u64)
    ensures
        ({
            let h = w.hud;
            let t = w.observe_inventory(f, p, now).hud;
            &&& t.entity_id == h.entity_id && t.effects == h.effects
            &&& t.experience == h.experience && t.health == h.health
            &&& t.metadata == h.metadata && t.attributes == h.attributes
            &&& t == (match p {
                GamePacket::SetHeldSlot { slot } => h.select(slot),
                GamePacket::ContainerSetContent { container, items } => h.fill(
                    container,
                    views::views(items@),
                    f,
                ),
                GamePacket::ContainerSetSlot { container, slot, item } => h.put(
                    container,
                    slot,
                    item@,
                    f,
                ),
                GamePacket::SetPlayerInventory { slot, item } => h.store(slot, item@),
                GamePacket::Cooldown { item, duration } => h.cool(item, duration, now),
                _ => h,
            })
        }),
{
}

/// Of the frames that are kept whole, the last of each kind is kept: experience,
/// health and the item at the cursor; time, the text round the tab list,
/// difficulty, game rules and simulation distance.
pub proof fn the_last_frame_of_each_kind_is_kept(w: WorldView, f: FrameView, now: u64)
    ensures
        ({
            let t = w.observe(f, GamePacket::Opaque, now);
            let id = f.packet_id;
            &&& t.hud.experience == (if id == 103 {
                Some(f)
            } else {
                w.hud.experience
            })
            &&& t.hud.health == (if id == 104 {
                Some(f)
            } else {
                w.hud.health
            })
            &&& t.hud.cursor == (if id == 96 {
                Some(f)
            } else {
                w.hud.cursor
            })
            &&& t.ambience.time == (if id == 113 {
                Some(f)
            } else {
                w.ambience.time
            })
            &&& t.ambience.tab_list == (if id == 122 {
                Some(f)
            } else {
                w.ambience.tab_list
            })
            &&& t.ambience.difficulty == (if id == 10 {
                Some(f)
            } else {
                w.ambience.difficulty
            })
            &&& t.ambience.game_rules == (if id == 39 {
                Some(f)
            } else {
                w.ambience.game_rules
            })
            &&& t.ambience.simulation_distance == (if id == 111 {
                Some(f)
            } else {
                w.ambience.simulation_distance
            })
            &&& t.hud.items == w.hud.items && t.hud.slots == w.hud.slots && t.hud.content
                == w.hud.content
            &&& t.hud.selected == w.hud.selected && t.hud.cooldowns == w.hud.cooldowns
            &&& t.hud.entity_id == w.hud.entity_id && t.hud.metadata == w.hud.metadata
            &&& t.hud.attributes == w.hud.attributes
            &&& t.players == w.players && t.scoreboard == w.scoreboard
            &&& t.boss_bars == w.boss_bars && t.maps == w.maps && t.bot_uuid == w.bot_uuid
            &&& t.ambience.border == w.ambience.border
        }),
{
}

/// The weather is what was told last: rain that starts or stops, how strong it
/// is, and how strong thunder is. Other game events are no weather.
pub proof fn the_last_weather_is_kept(w: WorldView, f: FrameView, now: u64)
    ensures
        ({
            let t = w.observe(f, GamePacket::Opaque, now).ambience;
            let a = w.ambience;
            let event = f.packet_id == 38 && f.body.len() > 0;
            &&& t.rain == (if event && (f.body[0] == 1 || f.body[0] == 2) {
                Some(f)
            } else {
                a.rain
            })
            &&& t.rain_level == (if event && f.body[0] == 7 {
                Some(f)
            } else {
                a.rain_level
            })
            &&& t.thunder_level == (if event && f.body[0] == 8 {
                Some(f)
            } else {
                a.thunder_level
            })
        }),
{
}

/// A dimension change takes from the player what the server says it is to lose:
/// the attributes unless bit 0 keeps them, the metadata and the effects unless
/// bit 1 keeps them.
pub proof fn a_dimension_change_takes_what_is_not_kept(w: WorldView, data_to_keep: u8)
    ensures
        ({
            let t = w.on_respawn(data_to_keep).hud;
            &&& data_to_keep % 2 == 0 ==> t.attributes.dom() == Set::<u32>::empty()
            &&& data_to_keep / 2 % 2 == 0 ==> t.metadata.dom() == Set::<u8>::empty()
                && t.effects.dom() == Set::<u32>::empty()
            &&& t.entity_id == w.hud.entity_id && t.cursor == w.hud.cursor
        }),
        w.on_respawn(data_to_keep).ambience.rain_level is None,
        w.on_respawn(data_to_keep).ambience.thunder_level is None,
        w.on_respawn(data_to_keep).ambience.tab_list == w.ambience.tab_list,
        w.on_respawn(data_to_keep).ambience.difficulty == w.ambience.difficulty,
        w.on_respawn(data_to_keep).ambience.game_rules == w.ambience.game_rules,
        w.on_respawn(data_to_keep).ambience.simulation_distance
            == w.ambience.simulation_distance,
        w.on_respawn(data_to_keep).bot_uuid == w.bot_uuid,
{
    let t = w.on_respawn(data_to_keep).hud;
    if data_to_keep % 2 == 0 {
        assert(t.attributes.dom() =~= Set::<u32>::empty());
    }
    if data_to_keep / 2 % 2 == 0 {
        assert(t.metadata.dom() =~= Set::<u8>::empty());
        assert(t.effects.dom() =~= Set::<u32>::empty());
    }
}

// What a fresh client is told of the player.

/// The item in a slot of the inventory, or the encoding of an empty stack.
pub open spec fn item_in(h: HudView, slot: u32) -> Seq<u8> {
    if h.items.contains_key(slot) {
        h.items[slot]
    } else {
        seq![0u8]
    }
}

/// The bot's entity holds and wears what the player does: in its hand the item
/// in the selected slot, in the other the offhand's, and armor on feet, legs,
/// chest and head. An empty slot is shown empty.
pub proof fn the_bot_wears_what_the_player_wears(h: HudView, id: i32)
    ensures
        h.equipment(id) matches PacketView::SetEquipment { id: of, slots } && {
            &&& of == id
            &&& slots == seq![
                (0u8, item_in(h, h.selected)),
                (1u8, item_in(h, 40)),
                (2u8, item_in(h, 36)),
                (3u8, item_in(h, 37)),
                (4u8, item_in(h, 38)),
                (5u8, item_in(h, 39)),
            ]
        },
{
}

/// What is known of the player is finite.
pub open spec fn hud_finite(h: HudView) -> bool {
    &&& h.metadata.dom().finite()
    &&& h.attributes.dom().finite()
    &&& h.effects.dom().finite()
    &&& h.items.dom().finite()
    &&& h.cooldowns.dom().finite()
}

/// An item that is on cooldown for some more ticks is told with just these; one
/// whose time has run out is not told.
pub proof fn cooldowns_are_told_as_far_as_they_run(h: HudView, now: u64, item: u32, left: u32)
    requires
        h.cooldowns.dom().finite(),
    ensures
        h.cooldown_packets(now).contains(PacketView::Cooldown { item, duration: left }) <==> left
            > 0 && h.cooldowns.contains_key(item) && left == clock::ticks_left(
            clock::millis_since(h.cooldowns[item].started, now),
            h.cooldowns[item].duration_ticks as u64,
        ),
{
    table::in_order_lists::<u32, Cooldown>(h.cooldowns);
    let order = table::in_order::<u32, Cooldown>(h.cooldowns);
    cooling_told(h, order.len() as int, now, item, left);
    if h.cooldowns.contains_key(item) {
        assert(order.contains(item));
        let i = choose|i: int| 0 <= i < order.len() && order[i] == item;
        assert(order[i] == item);
    }
    if exists|i: int| 0 <= i < order.len() && order[i] == item {
        let i = choose|i: int| 0 <= i < order.len() && order[i] == item;
        assert(order.contains(item));
    }
}

proof fn cooling_told(h: HudView, n: int, now: u64, item: u32, left: u32)
    requires
        0 <= n <= table::in_order::<u32, Cooldown>(h.cooldowns).len(),
    ensures
        h.cooling(n, now).contains(PacketView::Cooldown { item, duration: left }) <==> left > 0 && (
        exists|i: int|
            0 <= i < n && #[trigger] table::in_order::<u32, Cooldown>(h.cooldowns)[i] == item)
            && left == clock::ticks_left(
            clock::millis_since(h.cooldowns[item].started, now),
            h.cooldowns[item].duration_ticks as u64,
        ),
    decreases n,
{
    let order = table::in_order::<u32, Cooldown>(h.cooldowns);
    let x = PacketView::Cooldown { item, duration: left };
    if n > 0 {
        cooling_told(h, n - 1, now, item, left);
        let before = h.cooling(n - 1, now);
        let all = h.cooling(n, now);
        let (it, cooldown) = table::entries_in_order::<u32, Cooldown>(h.cooldowns)[n - 1];
        assert(it == order[n - 1] && cooldown == h.cooldowns[it]);
        let more = clock::ticks_left(
            clock::millis_since(cooldown.started, now),
            cooldown.duration_ticks as u64,
        );
        assert(more <= cooldown.duration_ticks);
        if more > 0 {
            let last = PacketView::Cooldown { item: it, duration: more as u32 };
            assert(all =~= before.push(last));
            if before.contains(x) {
                let i = choose|i: int| 0 <= i < before.len() && before[i] == x;
                assert(all[i] == x);
            }
            if last == x {
                assert(all[before.len() as int] == x);
            }
            if all.contains(x) && last != x {
                let i = choose|i: int| 0 <= i < all.len() && all[i] == x;
                assert(before[i] == x);
            }
        } else {
            assert(all =~= before);
        }
    }
}

/// All of these packets are among those, in the same order.
pub open spec fn holds_all(r: Seq<PacketView>, part: Seq<PacketView>) -> bool {
    exists|at: int|
        0 <= at && at + part.len() <= r.len() && #[trigger] r.subrange(at, at + part.len()) == part
}

/// What stands within is held.
pub proof fn held_within(a: Seq<PacketView>, part: Seq<PacketView>, b: Seq<PacketView>)
    ensures
        holds_all(a + part + b, part),
{
    let r = a + part + b;
    assert(r.subrange(a.len() as int, a.len() as int + part.len()) =~= part);
}

/// The state of the player's screen is told whole: what is known of its entity,
/// the inventory, health, experience, and the cooldowns that still run.
pub proof fn the_whole_screen_is_told(h: HudView, now: u64)
    ensures
        ({
            let r = h.hud_packets(now);
            &&& holds_all(r, h.self_packets())
            &&& holds_all(r, h.inventory_packets())
            &&& (h.health matches Some(f) ==> r.contains(PacketView::Raw(f)))
            &&& (h.experience matches Some(f) ==> r.contains(PacketView::Raw(f)))
            &&& holds_all(r, h.cooldown_packets(now))
            &&& r.len() == h.self_packets().len() + h.inventory_packets().len() + (
            if h.health is Some {
                1int
            } else {
                0int
            }) + (if h.experience is Some {
                1int
            } else {
                0int
            }) + h.cooldown_packets(now).len()
        }),
{
    let a = h.self_packets();
    let b = h.inventory_packets();
    let c = packet::raw(h.health);
    let d = packet::raw(h.experience);
    let e = h.cooldown_packets(now);
    let r = h.hud_packets(now);
    held_within(Seq::empty(), a, b + c + d + e);
    assert(r =~= Seq::<PacketView>::empty() + a + (b + c + d + e));
    held_within(a, b, c + d + e);
    assert(r =~= a + b + (c + d + e));
    held_within(a + b + c + d, e, Seq::empty());
    assert(r =~= a + b + c + d + e + Seq::<PacketView>::empty());
    if h.health is Some {
        assert(r[(a.len() + b.len()) as int] == c[0]);
    }
    if h.experience is Some {
        assert(r[(a.len() + b.len() + c.len()) as int] == d[0]);
    }
}

/// The inventory is told whole: the selected slot first, then the last content
/// and the changes since, then every slot as it stands, then the cursor.
pub proof fn the_whole_inventory_is_told(h: HudView, slot: u32)
    requires
        h.items.dom().finite(),
    ensures
        ({
            let r = h.inventory_packets();
            &&& (h.content matches Some(f) ==> r.contains(PacketView::Raw(f)))
            &&& holds_all(r, h.slot_packets())
            &&& (h.items.contains_key(slot) ==> r.contains(
                PacketView::SetPlayerInventory { slot, item: h.items[slot] },
            ))
            &&& (h.cursor matches Some(f) ==> r.last() == PacketView::Raw(f))
            &&& r.len() == 1 + (if h.content is Some {
                1int
            } else {
                0int
            }) + h.slot_packets().len() + h.item_packets().len() + (if h.cursor is Some {
                1int
            } else {
                0int
            })
        }),
{
    let a = seq![PacketView::Raw(hud::held_slot(h.selected))];
    let b = packet::raw(h.content);
    let c = h.slot_packets();
    let d = h.item_packets();
    let e = packet::raw(h.cursor);
    let r = h.inventory_packets();
    held_within(a + b, c, d + e);
    assert(r =~= a + b + c + (d + e));
    if h.content is Some {
        assert(r[1] == b[0]);
    }
    if h.items.contains_key(slot) {
        entity_laws::lists_hold_the_entries::<u32, Seq<u8>>(h.items);
        let all = table::entries_in_order::<u32, Seq<u8>>(h.items);
        assert(entity_laws::found(h.items, slot) == Some(h.items[slot]));
        assert(all.contains((slot, h.items[slot])));
        let i = choose|i: int| 0 <= i < all.len() && all[i] == (slot, h.items[slot]);
        assert(d[i] == (PacketView::SetPlayerInventory { slot, item: h.items[slot] }));
        assert(r[a.len() + b.len() + c.len() + i] == d[i]);
    }
    if h.cursor is Some {
        assert(r.last() == e[0]);
    }
}

/// What the server told of the player's own entity is told to a client that
/// takes over its id: metadata, attributes and effects. The same is told of the
/// bot's entity, under that one's id.
pub proof fn the_players_entity_is_told_whole(h: HudView, as_id: i32)
    requires
        hud_finite(h),
    ensures
        ({
            let r = h.self_packets();
            &&& (h.entity_id matches Some(id) ==> {
                &&& h.metadata.dom().len() > 0 ==> entity_laws::tells_data(r, 0, id, h.metadata)
                &&& h.attributes.dom().len() > 0 ==> entity_laws::tells_attributes(
                    r,
                    0,
                    id,
                    h.attributes,
                )
                &&& forall|effect: u32| #[trigger]
                    h.effects.contains_key(effect) ==> entity_laws::tells_frame(
                        r,
                        0,
                        h.effects[effect],
                    )
            })
            &&& h.entity_id is None ==> r.len() == 0
        }),
        h.metadata.dom().len() > 0 ==> entity_laws::tells_data(
            h.reflected_packets(as_id),
            0,
            as_id,
            h.metadata,
        ),
        h.attributes.dom().len() > 0 ==> entity_laws::tells_attributes(
            h.reflected_packets(as_id),
            0,
            as_id,
            h.attributes,
        ),
{
    if let Some(id) = h.entity_id {
        let b = packet::raws(table::values_in_order::<u32, FrameView>(h.effects));
        body_told(h, id, b);
        let r = h.self_packets();
        let a = h.body_packets(id);
        assert forall|effect: u32| #[trigger]
            h.effects.contains_key(effect) implies entity_laws::tells_frame(
            r,
            0,
            h.effects[effect],
        ) by {
            entity_laws::lists_hold_the_entries::<u32, FrameView>(h.effects);
            let all = table::values_in_order::<u32, FrameView>(h.effects);
            let k = choose|k: int| 0 <= k < all.len() && all[k] == h.effects[effect];
            assert(b[k] == PacketView::Raw(h.effects[effect]));
            assert(r[a.len() + k] == b[k]);
        }
        body_told(
            h,
            as_id,
            h.reflected_effects(id, table::in_order::<u32, FrameView>(h.effects).len() as int),
        );
    } else {
        body_told(h, as_id, Seq::empty());
        assert(h.body_packets(as_id) + Seq::<PacketView>::empty() =~= h.body_packets(as_id));
    }
}

proof fn body_told(h: HudView, id: i32, rest: Seq<PacketView>)
    requires
        hud_finite(h),
    ensures
        h.metadata.dom().len() > 0 ==> entity_laws::tells_data(
            h.body_packets(id) + rest,
            0,
            id,
            h.metadata,
        ),
        h.attributes.dom().len() > 0 ==> entity_laws::tells_attributes(
            h.body_packets(id) + rest,
            0,
            id,
            h.attributes,
        ),
{
    let a = entities::data_packets(id, h.metadata);
    let b = entities::attribute_packets(id, h.attributes);
    let r = h.body_packets(id) + rest;
    if h.metadata.dom().len() > 0 {
        entity_laws::data_told(id, h.metadata);
        assert(r[0] == a[0]);
    }
    if h.attributes.dom().len() > 0 {
        entity_laws::attributes_told(id, h.attributes);
        assert(r[a.len() as int] == b[0]);
    }
}

/// An effect of the player is told of the bot's entity too, where the frame that
/// brought it speaks of the player.
pub proof fn effects_are_told_of_the_bot(h: HudView, source: i32, as_id: i32, effect: u32)
    requires
        h.effects.dom().finite(),
        h.entity_id == Some(source),
        h.effects.contains_key(effect),
    ensures
        reflect::retargeted(h.effects[effect], source) matches Some(f) ==> entity_laws::tells_frame(
            h.reflected_packets(as_id),
            0,
            f,
        ),
{
    table::in_order_lists::<u32, FrameView>(h.effects);
    let order = table::in_order::<u32, FrameView>(h.effects);
    assert(order.contains(effect));
    let i = choose|i: int| 0 <= i < order.len() && order[i] == effect;
    if let Some(f) = reflect::retargeted(h.effects[effect], source) {
        effect_told(h, source, i, order.len() as int, f);
        let all = h.reflected_effects(source, order.len() as int);
        let k = choose|k: int| 0 <= k < all.len() && all[k] == PacketView::Raw(f);
        assert(h.reflected_packets(as_id)[h.body_packets(as_id).len() + k] == all[k]);
    }
}

proof fn effect_told(h: HudView, source: i32, i: int, n: int, f: FrameView)
    requires
        0 <= i < n <= table::in_order::<u32, FrameView>(h.effects).len(),
        reflect::retargeted(table::values_in_order::<u32, FrameView>(h.effects)[i], source) == Some(
            f,
        ),
    ensures
        h.reflected_effects(source, n).contains(PacketView::Raw(f)),
    decreases n,
{
    let before = h.reflected_effects(source, n - 1);
    let all = h.reflected_effects(source, n);
    if i == n - 1 {
        assert(all[before.len() as int] == PacketView::Raw(f));
    } else {
        effect_told(h, source, i, n - 1, f);
        let k = choose|k: int| 0 <= k < before.len() && before[k] == PacketView::Raw(f);
        assert(all[k] == before[k]);
    }
}

// Maps.

/// A patch is painted where it belongs: each of its colors, row by row, goes to
/// the cell that many rows and columns from its start. Cells outside the patch
/// keep their colors.
pub proof fn patches_are_painted_where_they_belong(
    colors: Seq<u8>,
    patch: MapPatch,
    x: int,
    y: int,
)
    requires
        0 <= x < 128,
        0 <= y < 128,
    ensures
        ({
            let within = patch.start_x <= x < patch.start_x + patch.width && patch.start_y <= y
                < patch.start_y + patch.height;
            let at = (y - patch.start_y) * patch.width + (x - patch.start_x);
            let cell = maps::painted(colors, patch)[y * 128 + x];
            &&& within && at < patch.map_colors@.len() ==> cell == patch.map_colors@[at]
            &&& !within || at >= patch.map_colors@.len() ==> cell == colors[y * 128 + x]
        }),
{
    let i = y * 128 + x;
    assert(0 <= i < 16384);
    assert(i / 128 == y && i % 128 == x);
}

/// A map is as it was told last: scale and lock, its decorations where any came,
/// and its colors with every patch painted on. Other maps are left alone.
pub proof fn maps_are_as_they_were_told_last(
    w: WorldView,
    f: FrameView,
    now: u64,
    map_id: u32,
    scale: u8,
    locked: bool,
    decorations: Option<Vec<u8>>,
    patch: Option<MapPatch>,
    other: u32,
)
    ensures
        ({
            let t = w.observe(
                f,
                GamePacket::MapItemData { map_id, scale, locked, decorations, patch },
                now,
            ).maps;
            let fresh = !w.maps.contains_key(map_id);
            let a = w.maps[map_id];
            let b = t[map_id];
            &&& t.contains_key(map_id)
            &&& b.scale == scale && b.locked == locked
            &&& b.decorations == (match decorations {
                Some(d) => Some(d@),
                None => if fresh {
                    None
                } else {
                    a.decorations
                },
            })
            &&& (patch matches Some(on) ==> b.colors == maps::painted(
                if fresh {
                    Seq::new(16384, |i: int| 0u8)
                } else {
                    a.colors
                },
                on,
            ))
            &&& patch is None && !fresh ==> b.colors == a.colors && b.has_colors == a.has_colors
            &&& patch is None && fresh ==> !b.has_colors
            &&& (patch matches Some(on) ==> b.has_colors == ((!fresh && a.has_colors) || (
            on.start_x < 128 && on.start_y < 128 && on.width > 0 && on.height > 0
                && on.map_colors@.len() > 0)))
            &&& other != map_id ==> entity_laws::found(t, other) == entity_laws::found(
                w.maps,
                other,
            )
        }),
{
    let p = GamePacket::MapItemData { map_id, scale, locked, decorations, patch };
    stages::parts_change_on_their_own(w, f, p, now);
    if let Some(on) = patch {
        patches_paint(on);
    }
}

proof fn patches_paint(patch: MapPatch)
    ensures
        (exists|i: int| maps::covers(patch, i)) <==> patch.start_x < 128 && patch.start_y < 128
            && patch.width > 0 && patch.height > 0 && patch.map_colors@.len() > 0,
{
    if patch.start_x < 128 && patch.start_y < 128 && patch.width > 0 && patch.height > 0
        && patch.map_colors@.len() > 0 {
        let i = patch.start_y * 128 + patch.start_x;
        assert(i / 128 == patch.start_y && i % 128 == patch.start_x);
        assert(maps::patch_index(patch, i) == 0) by (nonlinear_arith)
            requires
                i / 128 == patch.start_y,
                i % 128 == patch.start_x,
                maps::patch_index(patch, i) == (i / 128 - patch.start_y) * patch.width + (i % 128
                    - patch.start_x),
        ;
        assert(maps::covers(patch, i));
    }
    if exists|i: int| maps::covers(patch, i) {
        let i = choose|i: int| maps::covers(patch, i);
        let row = i / 128 - patch.start_y;
        let column = i % 128 - patch.start_x;
        assert(row * patch.width >= 0) by (nonlinear_arith)
            requires
                row >= 0,
                patch.width >= 0,
        ;
        assert(maps::patch_index(patch, i) == row * patch.width + column);
    }
}

/// Every known map is told whole, with its colors once any were painted.
pub proof fn every_map_is_told_whole(all: Map<u32, MapView>, map_id: u32)
    requires
        all.dom().finite(),
        all.contains_key(map_id),
    ensures
        ({
            let m = all[map_id];
            maps::map_packets(all).contains(
                PacketView::MapItemData {
                    map_id,
                    scale: m.scale,
                    locked: m.locked,
                    decorations: m.decorations,
                    colors: if m.has_colors {
                        Some(m.colors)
                    } else {
                        None
                    },
                },
            )
        }),
{
    entity_laws::lists_hold_the_entries::<u32, MapView>(all);
    let entries = table::entries_in_order::<u32, MapView>(all);
    assert(entity_laws::found(all, map_id) == Some(all[map_id]));
    assert(entries.contains((map_id, all[map_id])));
    let i = choose|i: int| 0 <= i < entries.len() && entries[i] == (map_id, all[map_id]);
    let r = maps::map_packets(all);
    assert(r[i] == r[i]);
}

} // verus!
