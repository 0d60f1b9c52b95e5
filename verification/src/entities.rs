//! The entities that the server has shown.
//!
//! Every record accumulates what a client that saw the entity from its spawn
//! on would know: where it is now, which way it looks, and the latest value of
//! each of its metadata fields, equipment slots, attributes and effects.

use vstd::prelude::*;

use crate::packet;
use crate::packet::{Packet, PacketView, Point, Turn};
use crate::plugin::{Frame, FrameView};
use crate::table;
use crate::table::Table;
use crate::views;
use crate::views::group_views;

verus! {

broadcast use group_views;

/// One entity.
pub struct EntityRecord {
    add: Frame,
    uuid: u128,
    pos: Point,
    look: Turn,
    head_rot: i8,
    on_ground: bool,
    motion: Point,
    metadata: Table<u8, Vec<u8>>,
    equipment: Table<u8, Vec<u8>>,
    attributes: Table<u32, Vec<u8>>,
    effects: Table<u32, Frame>,
}

/// What an [`EntityRecord`] holds.
#[verifier::ext_equal]
pub struct EntityView {
    pub add: FrameView,
    pub uuid: u128,
    pub pos: Point,
    pub look: Turn,
    pub head_rot: i8,
    pub on_ground: bool,
    pub motion: Point,
    pub metadata: Map<u8, Seq<u8>>,
    pub equipment: Map<u8, Seq<u8>>,
    pub attributes: Map<u32, Seq<u8>>,
    pub effects: Map<u32, FrameView>,
}

impl View for EntityRecord {
    type V = EntityView;

    closed spec fn view(&self) -> EntityView {
        EntityView {
            add: self.add@,
            uuid: self.uuid,
            pos: self.pos,
            look: self.look,
            head_rot: self.head_rot,
            on_ground: self.on_ground,
            motion: self.motion,
            metadata: self.metadata@,
            equipment: self.equipment@,
            attributes: self.attributes@,
            effects: self.effects@,
        }
    }
}

/// The entities of a world, who rides whom and who is leashed to whom.
pub struct Entities {
    entities: Table<i32, EntityRecord>,
    passengers: Table<i32, Frame>,
    links: Table<i32, (i32, Frame)>,
}

/// What an [`Entities`] holds. A link is kept under the entity that is held,
/// with the entity that holds it.
#[verifier::ext_equal]
pub struct EntitiesView {
    pub entities: Map<i32, EntityView>,
    pub passengers: Map<i32, FrameView>,
    pub links: Map<i32, (i32, FrameView)>,
}

/// A list of metadata fields, or nothing where there are none.
pub open spec fn data_packets(id: i32, metadata: Map<u8, Seq<u8>>) -> Seq<PacketView> {
    if metadata == Map::<u8, Seq<u8>>::empty() {
        Seq::empty()
    } else {
        seq![
            PacketView::SetEntityData {
                id,
                items: table::entries_in_order::<u8, Seq<u8>>(metadata),
            },
        ]
    }
}

/// A list of equipment slots, or nothing where there are none.
pub open spec fn equipment_packets(id: i32, equipment: Map<u8, Seq<u8>>) -> Seq<PacketView> {
    if equipment == Map::<u8, Seq<u8>>::empty() {
        Seq::empty()
    } else {
        seq![
            PacketView::SetEquipment {
                id,
                slots: table::entries_in_order::<u8, Seq<u8>>(equipment),
            },
        ]
    }
}

/// A list of attributes, or nothing where there are none.
pub open spec fn attribute_packets(id: i32, attributes: Map<u32, Seq<u8>>) -> Seq<PacketView> {
    if attributes == Map::<u32, Seq<u8>>::empty() {
        Seq::empty()
    } else {
        seq![
            PacketView::UpdateAttributes {
                id,
                values: table::values_in_order::<u32, Seq<u8>>(attributes),
            },
        ]
    }
}

/// Queues metadata fields, unless there are none.
pub fn queue_data(queue: &mut Vec<Packet>, id: i32, metadata: &Table<u8, Vec<u8>>)
    ensures
        views::views(final(queue)@) == views::views(old(queue)@) + data_packets(id, metadata@),
{
    let ghost before = views::views(queue@);
    if metadata.len() > 0 {
        queue.push(Packet::SetEntityData { id, items: metadata.entries_copied() });
    }
    proof {
        assert(views::views(queue@) =~= before + data_packets(id, metadata@));
    }
}

/// Queues equipment slots, unless there are none.
pub fn queue_equipment(queue: &mut Vec<Packet>, id: i32, equipment: &Table<u8, Vec<u8>>)
    ensures
        views::views(final(queue)@) == views::views(old(queue)@) + equipment_packets(
            id,
            equipment@,
        ),
{
    let ghost before = views::views(queue@);
    if equipment.len() > 0 {
        queue.push(Packet::SetEquipment { id, slots: equipment.entries_copied() });
    }
    proof {
        assert(views::views(queue@) =~= before + equipment_packets(id, equipment@));
    }
}

/// Queues attributes, unless there are none.
pub fn queue_attributes(queue: &mut Vec<Packet>, id: i32, attributes: &Table<u32, Vec<u8>>)
    ensures
        views::views(final(queue)@) == views::views(old(queue)@) + attribute_packets(
            id,
            attributes@,
        ),
{
    let ghost before = views::views(queue@);
    if attributes.len() > 0 {
        queue.push(Packet::UpdateAttributes { id, values: attributes.values_copied() });
    }
    proof {
        assert(views::views(queue@) =~= before + attribute_packets(id, attributes@));
    }
}

impl EntityView {
    /// A fresh entity, with nothing known but its spawn.
    pub open spec fn spawned(
        add: FrameView,
        uuid: u128,
        pos: Point,
        look: Turn,
        head_rot: i8,
        motion: Point,
    ) -> EntityView {
        EntityView {
            add,
            uuid,
            pos,
            look,
            head_rot,
            on_ground: false,
            motion,
            metadata: Map::empty(),
            equipment: Map::empty(),
            attributes: Map::empty(),
            effects: Map::empty(),
        }
    }

    /// What shows the entity to a fresh client: its spawn, then where it is,
    /// then all that is known of it.
    pub open spec fn replay(self, id: i32) -> Seq<PacketView> {
        seq![
            PacketView::Raw(self.add),
            PacketView::EntityPositionSync {
                id,
                pos: self.pos,
                motion: self.motion,
                look: self.look,
                on_ground: self.on_ground,
            },
            PacketView::RotateHead { id, head_rot: self.head_rot },
        ] + data_packets(id, self.metadata) + equipment_packets(id, self.equipment)
            + attribute_packets(id, self.attributes) + packet::raws(
            table::values_in_order::<u32, FrameView>(self.effects),
        )
    }
}

/// The links that do not end at `dest`.
pub open spec fn not_held_by(dest: i32) -> spec_fn(i32, (i32, FrameView)) -> bool {
    |source: i32, link: (i32, FrameView)| link.0 != dest
}

impl EntitiesView {
    pub open spec fn empty() -> EntitiesView {
        EntitiesView { entities: Map::empty(), passengers: Map::empty(), links: Map::empty() }
    }

    pub open spec fn add(self, id: i32, entity: EntityView) -> EntitiesView {
        EntitiesView { entities: self.entities.insert(id, entity), ..self }
    }

    /// An entity is gone, with its passengers and every link to or from it.
    pub open spec fn remove(self, id: i32) -> EntitiesView {
        EntitiesView {
            entities: self.entities.remove(id),
            passengers: self.passengers.remove(id),
            links: table::kept(self.links.remove(id), not_held_by(id)),
        }
    }

    pub open spec fn remove_all(self, ids: Seq<i32>) -> EntitiesView
        decreases ids.len(),
    {
        if ids.len() == 0 {
            self
        } else {
            self.remove_all(ids.drop_last()).remove(ids.last())
        }
    }

    /// Changes a known entity; nothing is known of others, and they stay
    /// unknown.
    pub open spec fn update(self, id: i32, to: EntityView) -> EntitiesView {
        if self.entities.contains_key(id) {
            EntitiesView { entities: self.entities.insert(id, to), ..self }
        } else {
            self
        }
    }

    pub open spec fn at(self, id: i32, pos: Point, on_ground: bool) -> EntitiesView {
        self.update(id, EntityView { pos, on_ground, ..self.entities[id] })
    }

    pub open spec fn at_looking(
        self,
        id: i32,
        pos: Point,
        look: Turn,
        on_ground: bool,
    ) -> EntitiesView {
        self.update(id, EntityView { pos, look, on_ground, ..self.entities[id] })
    }

    pub open spec fn looking(self, id: i32, look: Turn, on_ground: bool) -> EntitiesView {
        self.update(id, EntityView { look, on_ground, ..self.entities[id] })
    }

    pub open spec fn facing(self, id: i32, head_rot: i8) -> EntitiesView {
        self.update(id, EntityView { head_rot, ..self.entities[id] })
    }

    pub open spec fn moving(self, id: i32, motion: Point) -> EntitiesView {
        self.update(id, EntityView { motion, ..self.entities[id] })
    }

    pub open spec fn described(self, id: i32, items: Seq<(u8, Seq<u8>)>) -> EntitiesView {
        self.update(
            id,
            EntityView {
                metadata: table::put_all(self.entities[id].metadata, items),
                ..self.entities[id]
            },
        )
    }

    pub open spec fn equipped(self, id: i32, slots: Seq<(u8, Seq<u8>)>) -> EntitiesView {
        self.update(
            id,
            EntityView {
                equipment: table::put_all(self.entities[id].equipment, slots),
                ..self.entities[id]
            },
        )
    }

    pub open spec fn attributed(self, id: i32, values: Seq<(u32, Seq<u8>)>) -> EntitiesView {
        self.update(
            id,
            EntityView {
                attributes: table::put_all(self.entities[id].attributes, values),
                ..self.entities[id]
            },
        )
    }

    pub open spec fn affected(self, id: i32, effect: u32, frame: FrameView) -> EntitiesView {
        self.update(
            id,
            EntityView {
                effects: self.entities[id].effects.insert(effect, frame),
                ..self.entities[id]
            },
        )
    }

    pub open spec fn relieved(self, id: i32, effect: u32) -> EntitiesView {
        self.update(
            id,
            EntityView {
                effects: self.entities[id].effects.remove(effect),
                ..self.entities[id]
            },
        )
    }

    /// A link is set or, where it ends at entity 0, undone.
    pub open spec fn link(self, source: i32, dest: i32, frame: FrameView) -> EntitiesView {
        EntitiesView {
            links: if dest == 0 {
                self.links.remove(source)
            } else {
                self.links.insert(source, (dest, frame))
            },
            ..self
        }
    }

    pub open spec fn ride(self, vehicle: i32, frame: FrameView) -> EntitiesView {
        EntitiesView { passengers: self.passengers.insert(vehicle, frame), ..self }
    }

    /// The first of the entities from position `n` on that has this uuid.
    pub open spec fn holder_from(self, uuid: u128, n: int) -> Option<i32>
        decreases table::in_order::<i32, EntityView>(self.entities).len() - n,
    {
        let order = table::in_order::<i32, EntityView>(self.entities);
        if n < 0 || n >= order.len() {
            None
        } else if self.entities[order[n]].uuid == uuid {
            Some(order[n])
        } else {
            self.holder_from(uuid, n + 1)
        }
    }

    /// The entity with this uuid; the one with the lowest id where there are
    /// several.
    pub open spec fn holder(self, uuid: u128) -> Option<i32> {
        self.holder_from(uuid, 0)
    }

    /// The packets that show the first `n` entities.
    pub open spec fn shown(self, n: int) -> Seq<PacketView>
        decreases n,
    {
        if n <= 0 {
            Seq::empty()
        } else {
            let id = table::in_order::<i32, EntityView>(self.entities)[n - 1];
            self.shown(n - 1) + self.entities[id].replay(id)
        }
    }

    /// The frames of the links, by the entity that is held.
    pub open spec fn link_frames(self) -> Seq<FrameView> {
        let all = table::values_in_order::<i32, (i32, FrameView)>(self.links);
        Seq::new(all.len(), |i: int| all[i].1)
    }

    /// What shows the entities to a fresh client: each entity, then who rides
    /// whom, then who is leashed to whom.
    pub open spec fn replay(self) -> Seq<PacketView> {
        self.shown(table::in_order::<i32, EntityView>(self.entities).len() as int) + packet::raws(
            table::values_in_order::<i32, FrameView>(self.passengers),
        ) + packet::raws(self.link_frames())
    }
}

impl View for Entities {
    type V = EntitiesView;

    closed spec fn view(&self) -> EntitiesView {
        EntitiesView {
            entities: self.entities@,
            passengers: self.passengers@,
            links: self.links@,
        }
    }
}

impl EntityRecord {
    /// A fresh entity.
    pub fn spawned(
        add: Frame,
        uuid: u128,
        pos: Point,
        look: Turn,
        head_rot: i8,
        motion: Point,
    ) -> (r: EntityRecord)
        ensures
            r@ == EntityView::spawned(add@, uuid, pos, look, head_rot, motion),
    {
        EntityRecord {
            add,
            uuid,
            pos,
            look,
            head_rot,
            on_ground: false,
            motion,
            metadata: Table::new(),
            equipment: Table::new(),
            attributes: Table::new(),
            effects: Table::new(),
        }
    }

    fn queue_replay(&self, id: i32, queue: &mut Vec<Packet>)
        ensures
            views::views(final(queue)@) == views::views(old(queue)@) + self@.replay(id),
    {
        let ghost before = views::views(queue@);
        queue.push(Packet::Raw(self.add.clone()));
        queue.push(
            Packet::EntityPositionSync {
                id,
                pos: self.pos,
                motion: self.motion,
                look: self.look,
                on_ground: self.on_ground,
            },
        );
        queue.push(Packet::RotateHead { id, head_rot: self.head_rot });
        queue_data(queue, id, &self.metadata);
        queue_equipment(queue, id, &self.equipment);
        queue_attributes(queue, id, &self.attributes);
        packet::queue_table(queue, &self.effects);
        proof {
            assert(views::views(queue@) =~= before + self@.replay(id));
        }
    }
}

impl Entities {
    /// No entities.
    pub fn new() -> (r: Entities)
        ensures
            r@ == EntitiesView::empty(),
    {
        Entities { entities: Table::new(), passengers: Table::new(), links: Table::new() }
    }

    /// An entity appeared.
    pub fn add(&mut self, id: i32, entity: EntityRecord)
        ensures
            final(self)@ == old(self)@.add(id, entity@),
    {
        self.entities.insert(id, entity);
    }

    fn remove(&mut self, id: i32)
        ensures
            final(self)@ == old(self)@.remove(id),
    {
        let _ = self.entities.remove(&id);
        let _ = self.passengers.remove(&id);
        let _ = self.links.remove(&id);
        let test = |source: &i32, link: &(i32, Frame)| -> (keep: bool)
            ensures
                keep == (link.0 != id),
            { link.0 != id };
        self.links.retain(test, Ghost(not_held_by(id)));
    }

    /// Entities disappeared.
    pub fn remove_all(&mut self, ids: &Vec<i32>)
        ensures
            final(self)@ == old(self)@.remove_all(ids@),
    {
        let ghost start = self@;
        let mut i: usize = 0;
        proof {
            assert(ids@.take(0) =~= Seq::<i32>::empty());
        }
        while i < ids.len()
            invariant
                i <= ids.len(),
                self@ == start.remove_all(ids@.take(i as int)),
            decreases ids.len() - i,
        {
            self.remove(ids[i]);
            proof {
                assert(ids@.take(i + 1).drop_last() =~= ids@.take(i as int));
                assert(ids@.take(i + 1).last() == ids@[i as int]);
            }
            i = i + 1;
        }
        proof {
            assert(ids@.take(i as int) =~= ids@);
        }
    }

    /// An entity is at a new place.
    pub fn at(&mut self, id: i32, pos: Point, on_ground: bool)
        ensures
            final(self)@ == old(self)@.at(id, pos, on_ground),
    {
        let ghost before = self@;
        if let Some(e) = self.entities.remove(&id) {
            self.entities.insert(id, EntityRecord { pos, on_ground, ..e });
        }
        proof {
            assert(self@ =~= before.at(id, pos, on_ground));
        }
    }

    /// An entity is at a new place and looks another way.
    pub fn at_looking(&mut self, id: i32, pos: Point, look: Turn, on_ground: bool)
        ensures
            final(self)@ == old(self)@.at_looking(id, pos, look, on_ground),
    {
        let ghost before = self@;
        if let Some(e) = self.entities.remove(&id) {
            self.entities.insert(id, EntityRecord { pos, look, on_ground, ..e });
        }
        proof {
            assert(self@ =~= before.at_looking(id, pos, look, on_ground));
        }
    }

    /// An entity looks another way.
    pub fn looking(&mut self, id: i32, look: Turn, on_ground: bool)
        ensures
            final(self)@ == old(self)@.looking(id, look, on_ground),
    {
        let ghost before = self@;
        if let Some(e) = self.entities.remove(&id) {
            self.entities.insert(id, EntityRecord { look, on_ground, ..e });
        }
        proof {
            assert(self@ =~= before.looking(id, look, on_ground));
        }
    }

    /// An entity turned its head.
    pub fn facing(&mut self, id: i32, head_rot: i8)
        ensures
            final(self)@ == old(self)@.facing(id, head_rot),
    {
        let ghost before = self@;
        if let Some(e) = self.entities.remove(&id) {
            self.entities.insert(id, EntityRecord { head_rot, ..e });
        }
        proof {
            assert(self@ =~= before.facing(id, head_rot));
        }
    }

    /// An entity moves at another speed.
    pub fn moving(&mut self, id: i32, motion: Point)
        ensures
            final(self)@ == old(self)@.moving(id, motion),
    {
        let ghost before = self@;
        if let Some(e) = self.entities.remove(&id) {
            self.entities.insert(id, EntityRecord { motion, ..e });
        }
        proof {
            assert(self@ =~= before.moving(id, motion));
        }
    }

    /// Metadata fields of an entity changed.
    pub fn described(&mut self, id: i32, items: &Vec<(u8, Vec<u8>)>)
        ensures
            final(self)@ == old(self)@.described(id, views::views(items@)),
    {
        let ghost before = self@;
        if let Some(e) = self.entities.remove(&id) {
            let mut metadata: Table<u8, Vec<u8>> = e.metadata;
            metadata.put_each(items);
            self.entities.insert(id, EntityRecord { metadata, ..e });
        }
        proof {
            assert(self@ =~= before.described(id, views::views(items@)));
        }
    }

    /// Equipment of an entity changed.
    pub fn equipped(&mut self, id: i32, slots: &Vec<(u8, Vec<u8>)>)
        ensures
            final(self)@ == old(self)@.equipped(id, views::views(slots@)),
    {
        let ghost before = self@;
        if let Some(e) = self.entities.remove(&id) {
            let mut equipment: Table<u8, Vec<u8>> = e.equipment;
            equipment.put_each(slots);
            self.entities.insert(id, EntityRecord { equipment, ..e });
        }
        proof {
            assert(self@ =~= before.equipped(id, views::views(slots@)));
        }
    }

    /// Attributes of an entity changed.
    pub fn attributed(&mut self, id: i32, values: &Vec<(u32, Vec<u8>)>)
        ensures
            final(self)@ == old(self)@.attributed(id, views::views(values@)),
    {
        let ghost before = self@;
        if let Some(e) = self.entities.remove(&id) {
            let mut attributes: Table<u32, Vec<u8>> = e.attributes;
            attributes.put_each(values);
            self.entities.insert(id, EntityRecord { attributes, ..e });
        }
        proof {
            assert(self@ =~= before.attributed(id, views::views(values@)));
        }
    }

    /// An effect came over an entity.
    pub fn affected(&mut self, id: i32, effect: u32, frame: &Frame)
        ensures
            final(self)@ == old(self)@.affected(id, effect, frame@),
    {
        let ghost before = self@;
        if let Some(e) = self.entities.remove(&id) {
            let mut effects: Table<u32, Frame> = e.effects;
            effects.insert(effect, frame.clone());
            self.entities.insert(id, EntityRecord { effects, ..e });
        }
        proof {
            assert(self@ =~= before.affected(id, effect, frame@));
        }
    }

    /// An effect left an entity.
    pub fn relieved(&mut self, id: i32, effect: u32)
        ensures
            final(self)@ == old(self)@.relieved(id, effect),
    {
        let ghost before = self@;
        if let Some(e) = self.entities.remove(&id) {
            let mut effects: Table<u32, Frame> = e.effects;
            let _ = effects.remove(&effect);
            self.entities.insert(id, EntityRecord { effects, ..e });
        }
        proof {
            assert(self@ =~= before.relieved(id, effect));
        }
    }

    /// An entity was leashed or let go.
    pub fn link(&mut self, source: i32, dest: i32, frame: &Frame)
        ensures
            final(self)@ == old(self)@.link(source, dest, frame@),
    {
        if dest == 0 {
            let _ = self.links.remove(&source);
        } else {
            self.links.insert(source, (dest, frame.clone()));
        }
    }

    /// The passengers of an entity changed.
    pub fn ride(&mut self, vehicle: i32, frame: &Frame)
        ensures
            final(self)@ == old(self)@.ride(vehicle, frame@),
    {
        self.passengers.insert(vehicle, frame.clone());
    }

    /// The dimension changed: its entities are gone.
    pub fn clear(&mut self)
        ensures
            final(self)@ == EntitiesView::empty(),
    {
        *self = Entities::new();
    }

    /// Where a known entity is and which way it looks.
    pub fn pose(&self, id: i32) -> (r: Option<(Point, Turn)>)
        ensures
            r == (if self@.entities.contains_key(id) {
                Some((self@.entities[id].pos, self@.entities[id].look))
            } else {
                None
            }),
    {
        match self.entities.get(&id) {
            Some(e) => Some((e.pos, e.look)),
            None => None,
        }
    }

    /// The entity with a uuid; the one with the lowest id where there are
    /// several.
    pub fn holder(&self, uuid: u128) -> (r: Option<i32>)
        ensures
            r == self@.holder(uuid),
    {
        let n: usize = self.entities.len();
        let mut i: usize = 0;
        while i < n
            invariant
                i <= n,
                n == table::in_order::<i32, EntityView>(self.entities@).len(),
                self@.holder(uuid) == self@.holder_from(uuid, i as int),
            decreases n - i,
        {
            if self.entities.value_at(i).uuid == uuid {
                return Some(*self.entities.key_at(i));
            }
            i = i + 1;
        }
        None
    }

    /// Queues what shows the entities to a fresh client.
    pub fn queue_replay(&self, queue: &mut Vec<Packet>)
        ensures
            views::views(final(queue)@) == views::views(old(queue)@) + self@.replay(),
    {
        let ghost before = views::views(queue@);
        let n: usize = self.entities.len();
        let mut i: usize = 0;
        proof {
            assert(before =~= before + self@.shown(0));
        }
        while i < n
            invariant
                i <= n,
                n == table::in_order::<i32, EntityView>(self.entities@).len(),
                views::views(queue@) == before + self@.shown(i as int),
            decreases n - i,
        {
            let id: i32 = *self.entities.key_at(i);
            self.entities.value_at(i).queue_replay(id, queue);
            proof {
                assert(views::views(queue@) =~= before + self@.shown(i + 1));
            }
            i = i + 1;
        }
        packet::queue_table(queue, &self.passengers);
        let ghost ridden = views::views(queue@);
        let ghost links = packet::raws(self@.link_frames());
        let m: usize = self.links.len();
        let mut j: usize = 0;
        proof {
            assert(ridden =~= ridden + links.take(0));
        }
        while j < m
            invariant
                j <= m,
                m == table::in_order::<i32, (i32, FrameView)>(self.links@).len(),
                links == packet::raws(self@.link_frames()),
                views::views(queue@) == ridden + links.take(j as int),
            decreases m - j,
        {
            queue.push(Packet::Raw(self.links.value_at(j).1.clone()));
            proof {
                assert((ridden + links.take(j as int)).push(links[j as int]) =~= ridden
                    + links.take(j + 1));
            }
            j = j + 1;
        }
        proof {
            assert(links.take(j as int) =~= links);
            assert(views::views(queue@) =~= before + self@.replay());
        }
    }
}

} // verus!
