//! The session player's own state: inventory, vitals, and what the server
//! told of the player entity itself.
//!
//! Viewers take over the player's entity id as their own, so what concerns
//! that entity is kept apart from the other entities.

use vstd::prelude::*;

use crate::arrival;
use crate::clock;
use crate::entities;
use crate::ids;
use crate::packet;
use crate::packet::{Packet, PacketView};
use crate::plugin::{Frame, FrameView};
use crate::reflect;
use crate::table;
use crate::table::Table;
use crate::views;
use crate::views::group_views;
use crate::wire;

verus! {

broadcast use group_views;

/// The slots of an equipped entity, by number.
pub const SLOT_MAINHAND: u8 = 0;

pub const SLOT_OFFHAND: u8 = 1;

pub const SLOT_FEET: u8 = 2;

pub const SLOT_LEGS: u8 = 3;

pub const SLOT_CHEST: u8 = 4;

pub const SLOT_HEAD: u8 = 5;

/// An item on cooldown.
#[derive(Clone, Copy)]
pub struct Cooldown {
    pub duration_ticks: u32,
    pub started: u64,
}

impl View for Cooldown {
    type V = Cooldown;

    open spec fn view(&self) -> Cooldown {
        *self
    }
}

/// The session player's own state.
pub struct Hud {
    entity_id: Option<i32>,
    metadata: Table<u8, Vec<u8>>,
    attributes: Table<u32, Vec<u8>>,
    effects: Table<u32, Frame>,
    experience: Option<Frame>,
    health: Option<Frame>,
    content: Option<Frame>,
    slots: Table<u16, (u64, Packet)>,
    sequence: u64,
    items: Table<u32, Vec<u8>>,
    selected: u32,
    cursor: Option<Frame>,
    cooldowns: Table<u32, Cooldown>,
}

/// What a [`Hud`] holds.
///
/// `items` is the inventory as it stands, whatever packets brought it there:
/// 0 to 8 hotbar, 9 to 35 main, 36 to 39 armor from feet to head, 40 offhand.
/// `content` and `slots` are the packets themselves, the last full content and
/// the slot changes since.
#[verifier::ext_equal]
pub struct HudView {
    pub entity_id: Option<i32>,
    pub metadata: Map<u8, Seq<u8>>,
    pub attributes: Map<u32, Seq<u8>>,
    pub effects: Map<u32, FrameView>,
    pub experience: Option<FrameView>,
    pub health: Option<FrameView>,
    pub content: Option<FrameView>,
    pub slots: Map<u16, (u64, PacketView)>,
    pub sequence: u64,
    pub items: Map<u32, Seq<u8>>,
    pub selected: u32,
    pub cursor: Option<FrameView>,
    pub cooldowns: Map<u32, Cooldown>,
}

impl View for Hud {
    type V = HudView;

    closed spec fn view(&self) -> HudView {
        HudView {
            entity_id: self.entity_id,
            metadata: self.metadata@,
            attributes: self.attributes@,
            effects: self.effects@,
            experience: views::seen(self.experience),
            health: views::seen(self.health),
            content: views::seen(self.content),
            slots: self.slots@,
            sequence: self.sequence,
            items: self.items@,
            selected: self.selected,
            cursor: views::seen(self.cursor),
            cooldowns: self.cooldowns@,
        }
    }
}

/// The inventory slot behind a slot of the inventory menu: the armor slots
/// stand from head to feet there, the hotbar comes after the main part, and
/// the crafting grid is no part of the inventory.
pub open spec fn inventory_slot(menu_slot: int) -> Option<u32> {
    if 5 <= menu_slot <= 8 {
        Some((44 - menu_slot) as u32)
    } else if 9 <= menu_slot <= 35 {
        Some(menu_slot as u32)
    } else if 36 <= menu_slot <= 44 {
        Some((menu_slot - 36) as u32)
    } else if menu_slot == 45 {
        Some(40)
    } else {
        None
    }
}

/// The inventory that a full menu content gives.
pub open spec fn stocked(items: Seq<Seq<u8>>) -> Map<u32, Seq<u8>>
    decreases items.len(),
{
    if items.len() == 0 {
        Map::empty()
    } else {
        let rest = stocked(items.drop_last());
        match inventory_slot(items.len() - 1) {
            Some(slot) => rest.insert(slot, items.last()),
            None => rest,
        }
    }
}

/// The encoding of an empty item stack.
pub open spec fn no_item() -> Seq<u8> {
    seq![0u8]
}

/// The frame that tells a client which hotbar slot is selected.
pub open spec fn held_slot(slot: u32) -> FrameView {
    FrameView { packet_id: ids::CB_GAME_SET_HELD_SLOT, body: wire::varint(slot) }
}

impl HudView {
    pub open spec fn empty() -> HudView {
        HudView {
            entity_id: None,
            metadata: Map::empty(),
            attributes: Map::empty(),
            effects: Map::empty(),
            experience: None,
            health: None,
            content: None,
            slots: Map::empty(),
            sequence: 0,
            items: Map::empty(),
            selected: 0,
            cursor: None,
            cooldowns: Map::empty(),
        }
    }

    pub open spec fn described(self, items: Seq<(u8, Seq<u8>)>) -> HudView {
        HudView { metadata: table::put_all(self.metadata, items), ..self }
    }

    pub open spec fn attributed(self, values: Seq<(u32, Seq<u8>)>) -> HudView {
        HudView { attributes: table::put_all(self.attributes, values), ..self }
    }

    pub open spec fn affected(self, effect: u32, frame: FrameView) -> HudView {
        HudView { effects: self.effects.insert(effect, frame), ..self }
    }

    pub open spec fn relieved(self, effect: u32) -> HudView {
        HudView { effects: self.effects.remove(effect), ..self }
    }

    /// A slot is selected; there are nine, and others are ignored.
    pub open spec fn select(self, slot: u32) -> HudView {
        if slot <= 8 {
            HudView { selected: slot, ..self }
        } else {
            self
        }
    }

    /// The full content of a menu; menu 0 is the inventory.
    pub open spec fn fill(
        self,
        container: i32,
        items: Seq<Seq<u8>>,
        frame: FrameView,
    ) -> HudView {
        if container == 0 {
            HudView {
                content: Some(frame),
                slots: Map::empty(),
                sequence: 0,
                items: stocked(items),
                ..self
            }
        } else {
            self
        }
    }

    /// One slot of a menu. Menus 0 and -2 are the inventory, menu -1 is the
    /// cursor.
    pub open spec fn put(
        self,
        container: i32,
        slot: u16,
        item: Seq<u8>,
        frame: FrameView,
    ) -> HudView {
        if container == 0 || container == -2 {
            HudView {
                sequence: arrival::next_number(self.sequence),
                slots: self.slots.insert(
                    slot,
                    (arrival::next_number(self.sequence), PacketView::Raw(frame)),
                ),
                items: match inventory_slot(slot as int) {
                    Some(slot) => self.items.insert(slot, item),
                    None => self.items,
                },
                ..self
            }
        } else if container == -1 {
            HudView { cursor: Some(frame), ..self }
        } else {
            self
        }
    }

    pub open spec fn store(self, slot: u32, item: Seq<u8>) -> HudView {
        HudView { items: self.items.insert(slot, item), ..self }
    }

    /// An item goes on cooldown, or comes off it where the duration is 0.
    pub open spec fn cool(self, item: u32, duration: u32, now: u64) -> HudView {
        HudView {
            cooldowns: if duration == 0 {
                self.cooldowns.remove(item)
            } else {
                self.cooldowns.insert(item, Cooldown { duration_ticks: duration, started: now })
            },
            ..self
        }
    }

    /// The dimension changed. Bit 0 of `data_to_keep` keeps the attributes,
    /// bit 1 the metadata and the effects; the rest stays in any case.
    pub open spec fn on_respawn(self, data_to_keep: u8) -> HudView {
        HudView {
            attributes: if data_to_keep % 2 == 0 {
                Map::empty()
            } else {
                self.attributes
            },
            metadata: if data_to_keep / 2 % 2 == 0 {
                Map::empty()
            } else {
                self.metadata
            },
            effects: if data_to_keep / 2 % 2 == 0 {
                Map::empty()
            } else {
                self.effects
            },
            ..self
        }
    }

    /// Metadata and attributes of the player, told of entity `id`.
    pub open spec fn body_packets(self, id: i32) -> Seq<PacketView> {
        entities::data_packets(id, self.metadata) + entities::attribute_packets(id, self.attributes)
    }

    /// What the server told of the player entity, for a client that takes over
    /// its id.
    pub open spec fn self_packets(self) -> Seq<PacketView> {
        match self.entity_id {
            Some(id) => self.body_packets(id) + packet::raws(
                table::values_in_order::<u32, FrameView>(self.effects),
            ),
            None => Seq::empty(),
        }
    }

    /// The first `n` effects, told of the reflected entity.
    pub open spec fn reflected_effects(self, source: i32, n: int) -> Seq<PacketView>
        decreases n,
    {
        if n <= 0 {
            Seq::empty()
        } else {
            self.reflected_effects(source, n - 1) + packet::raw(
                reflect::retargeted(
                    table::values_in_order::<u32, FrameView>(self.effects)[n - 1],
                    source,
                ),
            )
        }
    }

    /// What the server told of the player entity, told of entity `id` instead.
    pub open spec fn reflected_packets(self, id: i32) -> Seq<PacketView> {
        match self.entity_id {
            Some(source) => self.body_packets(id) + self.reflected_effects(
                source,
                table::in_order::<u32, FrameView>(self.effects).len() as int,
            ),
            None => self.body_packets(id),
        }
    }

    /// The slot changes since the last full content, in the order of arrival.
    pub open spec fn slot_packets(self) -> Seq<PacketView> {
        arrival::by_number(
            table::values_in_order::<u16, (u64, PacketView)>(self.slots),
            Seq::empty(),
        )
    }

    /// Each inventory slot as it stands.
    pub open spec fn item_packets(self) -> Seq<PacketView> {
        let all = table::entries_in_order::<u32, Seq<u8>>(self.items);
        Seq::new(
            all.len(),
            |i: int| PacketView::SetPlayerInventory { slot: all[i].0, item: all[i].1 },
        )
    }

    /// The selected slot, the inventory and the cursor. The inventory as it
    /// stands comes after the packets that brought it there.
    pub open spec fn inventory_packets(self) -> Seq<PacketView> {
        seq![PacketView::Raw(held_slot(self.selected))] + packet::raw(self.content)
            + self.slot_packets() + self.item_packets() + packet::raw(self.cursor)
    }

    /// The first `n` items, as far as they are still on cooldown.
    pub open spec fn cooling(self, n: int, now: u64) -> Seq<PacketView>
        decreases n,
    {
        if n <= 0 {
            Seq::empty()
        } else {
            let (item, cooldown) = table::entries_in_order::<u32, Cooldown>(
                self.cooldowns,
            )[n - 1];
            let left = clock::ticks_left(
                clock::millis_since(cooldown.started, now),
                cooldown.duration_ticks as u64,
            );
            self.cooling(n - 1, now) + (if left > 0 {
                seq![PacketView::Cooldown { item, duration: left as u32 }]
            } else {
                Seq::empty()
            })
        }
    }

    /// The items that are still on cooldown.
    pub open spec fn cooldown_packets(self, now: u64) -> Seq<PacketView> {
        self.cooling(table::in_order::<u32, Cooldown>(self.cooldowns).len() as int, now)
    }

    /// The state of the player's own screen: entity state, inventory, vitals
    /// and cooldowns.
    pub open spec fn hud_packets(self, now: u64) -> Seq<PacketView> {
        self.self_packets() + self.inventory_packets() + packet::raw(self.health) + packet::raw(
            self.experience,
        ) + self.cooldown_packets(now)
    }

    /// The item in an inventory slot.
    pub open spec fn item(self, slot: u32) -> Seq<u8> {
        if self.items.contains_key(slot) {
            self.items[slot]
        } else {
            no_item()
        }
    }

    /// What the player holds and wears, as the equipment of entity `id`.
    pub open spec fn equipment(self, id: i32) -> PacketView {
        PacketView::SetEquipment {
            id,
            slots: seq![
                (SLOT_MAINHAND, self.item(self.selected)),
                (SLOT_OFFHAND, self.item(40)),
                (SLOT_FEET, self.item(36)),
                (SLOT_LEGS, self.item(37)),
                (SLOT_CHEST, self.item(38)),
                (SLOT_HEAD, self.item(39)),
            ],
        }
    }
}

/// The inventory slot behind a slot of the inventory menu.
pub fn player_inventory_slot(menu_slot: u16) -> (r: Option<u32>)
    ensures
        r == inventory_slot(menu_slot as int),
{
    if 5 <= menu_slot && menu_slot <= 8 {
        Some(44 - menu_slot as u32)
    } else if 9 <= menu_slot && menu_slot <= 35 {
        Some(menu_slot as u32)
    } else if 36 <= menu_slot && menu_slot <= 44 {
        Some(menu_slot as u32 - 36)
    } else if menu_slot == 45 {
        Some(40)
    } else {
        None
    }
}

impl Hud {
    /// A player of whom nothing is known.
    pub fn new() -> (r: Hud)
        ensures
            r@ == HudView::empty(),
    {
        Hud {
            entity_id: None,
            metadata: Table::new(),
            attributes: Table::new(),
            effects: Table::new(),
            experience: None,
            health: None,
            content: None,
            slots: Table::new(),
            sequence: 0,
            items: Table::new(),
            selected: 0,
            cursor: None,
            cooldowns: Table::new(),
        }
    }

    /// The player entity's id.
    pub fn entity_id(&self) -> (r: Option<i32>)
        ensures
            r == self@.entity_id,
    {
        self.entity_id
    }

    /// The server assigned the player entity's id.
    pub fn set_entity_id(&mut self, id: i32)
        ensures
            final(self)@ == (HudView { entity_id: Some(id), ..old(self)@ }),
    {
        self.entity_id = Some(id);
    }

    /// Whether `id` is the player entity's id.
    pub fn is_self(&self, id: i32) -> (r: bool)
        ensures
            r == (self@.entity_id == Some(id)),
    {
        match self.entity_id {
            Some(own) => own == id,
            None => false,
        }
    }

    /// Metadata fields of the player changed.
    pub fn described(&mut self, items: &Vec<(u8, Vec<u8>)>)
        ensures
            final(self)@ == old(self)@.described(views::views(items@)),
    {
        self.metadata.put_each(items);
    }

    /// Attributes of the player changed.
    pub fn attributed(&mut self, values: &Vec<(u32, Vec<u8>)>)
        ensures
            final(self)@ == old(self)@.attributed(views::views(values@)),
    {
        self.attributes.put_each(values);
    }

    /// An effect came over the player.
    pub fn affected(&mut self, effect: u32, frame: &Frame)
        ensures
            final(self)@ == old(self)@.affected(effect, frame@),
    {
        self.effects.insert(effect, frame.clone());
    }

    /// An effect left the player.
    pub fn relieved(&mut self, effect: u32)
        ensures
            final(self)@ == old(self)@.relieved(effect),
    {
        let _ = self.effects.remove(&effect);
    }

    /// The experience bar.
    pub fn set_experience(&mut self, frame: &Frame)
        ensures
            final(self)@ == (HudView { experience: Some(frame@), ..old(self)@ }),
    {
        self.experience = Some(frame.clone());
    }

    /// Health and food.
    pub fn set_health(&mut self, frame: &Frame)
        ensures
            final(self)@ == (HudView { health: Some(frame@), ..old(self)@ }),
    {
        self.health = Some(frame.clone());
    }

    /// The item on the cursor.
    pub fn set_cursor(&mut self, frame: &Frame)
        ensures
            final(self)@ == (HudView { cursor: Some(frame@), ..old(self)@ }),
    {
        self.cursor = Some(frame.clone());
    }

    /// The selected hotbar slot.
    pub fn selected(&self) -> (r: u32)
        ensures
            r == self@.selected,
    {
        self.selected
    }

    /// A hotbar slot was selected; tells whether there is such a slot.
    pub fn select(&mut self, slot: u32) -> (known: bool)
        ensures
            final(self)@ == old(self)@.select(slot),
            known == (slot <= 8),
    {
        if slot <= 8 {
            self.selected = slot;
            true
        } else {
            false
        }
    }

    /// The full content of a menu came.
    pub fn fill(&mut self, container: i32, items: &Vec<Vec<u8>>, frame: &Frame)
        ensures
            final(self)@ == old(self)@.fill(container, views::views(items@), frame@),
    {
        if container != 0 {
            return;
        }
        self.content = Some(frame.clone());
        self.slots.clear();
        self.sequence = 0;
        let mut stock: Table<u32, Vec<u8>> = Table::new();
        let ghost all = views::views(items@);
        let mut i: usize = 0;
        proof {
            assert(all.take(0) =~= Seq::<Seq<u8>>::empty());
        }
        while i < items.len()
            invariant
                i <= items.len(),
                all == views::views(items@),
                stock@ == stocked(all.take(i as int)),
            decreases items.len() - i,
        {
            if i <= 0xffff {
                if let Some(slot) = player_inventory_slot(i as u16) {
                    stock.insert(slot, packet::copy_bytes(&items[i]));
                }
            }
            proof {
                assert(all.take(i + 1).drop_last() =~= all.take(i as int));
                assert(all.take(i + 1).last() == all[i as int]);
            }
            i = i + 1;
        }
        proof {
            assert(all.take(i as int) =~= all);
        }
        self.items = stock;
    }

    /// A slot of a menu changed.
    pub fn put(&mut self, container: i32, slot: u16, item: &Vec<u8>, frame: &Frame)
        ensures
            final(self)@ == old(self)@.put(container, slot, item@, frame@),
    {
        if container == 0 || container == -2 {
            self.sequence = arrival::number_after(self.sequence);
            self.slots.insert(slot, (self.sequence, Packet::Raw(frame.clone())));
            if let Some(player_slot) = player_inventory_slot(slot) {
                self.items.insert(player_slot, packet::copy_bytes(item));
            }
        } else if container == -1 {
            self.cursor = Some(frame.clone());
        }
    }

    /// An inventory slot changed.
    pub fn store(&mut self, slot: u32, item: &Vec<u8>)
        ensures
            final(self)@ == old(self)@.store(slot, item@),
    {
        self.items.insert(slot, packet::copy_bytes(item));
    }

    /// An item went on cooldown or came off it.
    pub fn cool(&mut self, item: u32, duration: u32, now: u64)
        ensures
            final(self)@ == old(self)@.cool(item, duration, now),
    {
        if duration == 0 {
            let _ = self.cooldowns.remove(&item);
        } else {
            self.cooldowns.insert(item, Cooldown { duration_ticks: duration, started: now });
        }
    }

    /// The dimension changed.
    pub fn on_respawn(&mut self, data_to_keep: u8)
        ensures
            final(self)@ == old(self)@.on_respawn(data_to_keep),
    {
        if data_to_keep % 2 == 0 {
            self.attributes.clear();
        }
        if data_to_keep / 2 % 2 == 0 {
            self.metadata.clear();
            self.effects.clear();
        }
    }

    fn queue_body(&self, queue: &mut Vec<Packet>, id: i32)
        ensures
            views::views(final(queue)@) == views::views(old(queue)@) + self@.body_packets(id),
    {
        let ghost before = views::views(queue@);
        entities::queue_data(queue, id, &self.metadata);
        entities::queue_attributes(queue, id, &self.attributes);
        proof {
            assert(views::views(queue@) =~= before + self@.body_packets(id));
        }
    }

    /// Queues what the server told of the player entity.
    pub fn queue_self(&self, queue: &mut Vec<Packet>)
        ensures
            views::views(final(queue)@) == views::views(old(queue)@) + self@.self_packets(),
    {
        let ghost before = views::views(queue@);
        if let Some(id) = self.entity_id {
            self.queue_body(queue, id);
            packet::queue_table(queue, &self.effects);
        }
        proof {
            assert(views::views(queue@) =~= before + self@.self_packets());
        }
    }

    /// Queues what the server told of the player entity, told of entity `id`.
    pub fn queue_reflected(&self, queue: &mut Vec<Packet>, id: i32)
        ensures
            views::views(final(queue)@) == views::views(old(queue)@) + self@.reflected_packets(id),
    {
        let ghost before = views::views(queue@);
        self.queue_body(queue, id);
        if let Some(source) = self.entity_id {
            let ghost told = views::views(queue@);
            let n: usize = self.effects.len();
            let mut i: usize = 0;
            proof {
                assert(told =~= told + self@.reflected_effects(source, 0));
            }
            while i < n
                invariant
                    i <= n,
                    n == table::in_order::<u32, FrameView>(self.effects@).len(),
                    views::views(queue@) == told + self@.reflected_effects(source, i as int),
                decreases n - i,
            {
                let frame: Option<Frame> = reflect::retarget_self_visual(
                    self.effects.value_at(i),
                    source,
                );
                packet::queue_frame(queue, &frame);
                proof {
                    assert(views::views(queue@) =~= told + self@.reflected_effects(source, i + 1));
                }
                i = i + 1;
            }
        }
        proof {
            assert(views::views(queue@) =~= before + self@.reflected_packets(id));
        }
    }

    /// The frame that tells which hotbar slot is selected.
    pub fn held_slot_frame(&self) -> (r: Frame)
        ensures
            r@ == held_slot(self@.selected),
    {
        let mut body: Vec<u8> = Vec::new();
        wire::write_varint(&mut body, self.selected);
        proof {
            assert(body@ =~= wire::varint(self.selected));
        }
        Frame { packet_id: ids::CB_GAME_SET_HELD_SLOT, body }
    }

    fn queue_items(&self, queue: &mut Vec<Packet>)
        ensures
            views::views(final(queue)@) == views::views(old(queue)@) + self@.item_packets(),
    {
        let ghost before = views::views(queue@);
        let ghost all = self@.item_packets();
        let n: usize = self.items.len();
        let mut i: usize = 0;
        proof {
            assert(before =~= before + all.take(0));
        }
        while i < n
            invariant
                i <= n,
                n == table::in_order::<u32, Seq<u8>>(self.items@).len(),
                all == self@.item_packets(),
                views::views(queue@) == before + all.take(i as int),
            decreases n - i,
        {
            queue.push(
                Packet::SetPlayerInventory {
                    slot: *self.items.key_at(i),
                    item: packet::copy_bytes(self.items.value_at(i)),
                },
            );
            proof {
                assert((before + all.take(i as int)).push(all[i as int]) =~= before + all.take(
                    i + 1,
                ));
            }
            i = i + 1;
        }
        proof {
            assert(all.take(i as int) =~= all);
        }
    }

    /// Queues the selected slot, the inventory and the cursor.
    pub fn queue_inventory(&self, queue: &mut Vec<Packet>)
        ensures
            views::views(final(queue)@) == views::views(old(queue)@) + self@.inventory_packets(),
    {
        let ghost before = views::views(queue@);
        queue.push(Packet::Raw(self.held_slot_frame()));
        packet::queue_frame(queue, &self.content);
        let none: Table<u16, (u64, Packet)> = Table::new();
        let _ = none.len();
        proof {
            assert(table::values_in_order::<u16, (u64, PacketView)>(none@) =~= Seq::<
                (u64, PacketView),
            >::empty());
        }
        arrival::queue_by_number(queue, &self.slots, &none);
        self.queue_items(queue);
        packet::queue_frame(queue, &self.cursor);
        proof {
            assert(views::views(queue@) =~= before + self@.inventory_packets());
        }
    }

    /// Queues the vitals: experience, then health.
    pub fn queue_vitals(&self, queue: &mut Vec<Packet>)
        ensures
            views::views(final(queue)@) == views::views(old(queue)@) + packet::raw(
                self@.experience,
            ) + packet::raw(self@.health),
    {
        packet::queue_frame(queue, &self.experience);
        packet::queue_frame(queue, &self.health);
    }

    /// Queues the items that are still on cooldown.
    pub fn queue_cooldowns(&self, queue: &mut Vec<Packet>, now: u64)
        ensures
            views::views(final(queue)@) == views::views(old(queue)@) + self@.cooldown_packets(now),
    {
        let ghost before = views::views(queue@);
        let n: usize = self.cooldowns.len();
        let mut i: usize = 0;
        proof {
            assert(before =~= before + self@.cooling(0, now));
        }
        while i < n
            invariant
                i <= n,
                n == table::in_order::<u32, Cooldown>(self.cooldowns@).len(),
                views::views(queue@) == before + self@.cooling(i as int, now),
            decreases n - i,
        {
            let cooldown: &Cooldown = self.cooldowns.value_at(i);
            let item: u32 = *self.cooldowns.key_at(i);
            let left: u64 = clock::remaining_ticks(
                clock::elapsed_millis(cooldown.started, now),
                cooldown.duration_ticks as u64,
            );
            if left > 0 {
                queue.push(Packet::Cooldown { item, duration: left as u32 });
            }
            proof {
                assert(views::views(queue@) =~= before + self@.cooling(i + 1, now));
            }
            i = i + 1;
        }
    }

    /// Queues the state of the player's own screen.
    pub fn queue_hud(&self, queue: &mut Vec<Packet>, now: u64)
        ensures
            views::views(final(queue)@) == views::views(old(queue)@) + self@.hud_packets(now),
    {
        let ghost before = views::views(queue@);
        self.queue_self(queue);
        self.queue_inventory(queue);
        packet::queue_frame(queue, &self.health);
        packet::queue_frame(queue, &self.experience);
        self.queue_cooldowns(queue, now);
        proof {
            assert(views::views(queue@) =~= before + self@.hud_packets(now));
        }
    }

    fn item(&self, slot: u32) -> (r: Vec<u8>)
        ensures
            r@ == self@.item(slot),
    {
        match self.items.get(&slot) {
            Some(item) => packet::copy_bytes(item),
            None => {
                let mut none: Vec<u8> = Vec::new();
                none.push(0);
                proof {
                    assert(none@ =~= no_item());
                }
                none
            },
        }
    }

    /// What the player holds and wears, as the equipment of entity `id`.
    pub fn equipment(&self, id: i32) -> (r: Packet)
        ensures
            r@ == self@.equipment(id),
    {
        let mut slots: Vec<(u8, Vec<u8>)> = Vec::new();
        slots.push((SLOT_MAINHAND, self.item(self.selected)));
        slots.push((SLOT_OFFHAND, self.item(40)));
        slots.push((SLOT_FEET, self.item(36)));
        slots.push((SLOT_LEGS, self.item(37)));
        slots.push((SLOT_CHEST, self.item(38)));
        slots.push((SLOT_HEAD, self.item(39)));
        let r: Packet = Packet::SetEquipment { id, slots };
        proof {
            assert(r@ =~= self@.equipment(id));
        }
        r
    }
}

} // verus!
