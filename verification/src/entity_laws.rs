//! What becomes of what the server tells of entities and players.

use vstd::prelude::*;

use crate::entities;
use crate::entities::{EntitiesView, EntityView};
use crate::filing;
use crate::ids;
use crate::packet;
use crate::packet::{
    GamePacket, PacketView, PlayerInfoActions, PlayerInfoView, Point, Turn,
};
use crate::plugin::FrameView;
use crate::roster;
use crate::roster::RosterView;
use crate::snapshot::WorldView;
use crate::stages;
use crate::table;
use crate::table::Key;
use crate::text;
use crate::views;
use crate::wire;
use crate::world_laws;

verus! {

// Who is who.

proof fn holder_found(e: EntitiesView, uuid: u128, n: int)
    requires
        e.entities.dom().finite(),
        0 <= n <= table::in_order::<i32, EntityView>(e.entities).len(),
    ensures
        ({
            let order = table::in_order::<i32, EntityView>(e.entities);
            match e.holder_from(uuid, n) {
                Some(id) => exists|i: int|
                    n <= i < order.len() && #[trigger] order[i] == id && e.entities[id].uuid == uuid
                        && forall|j: int|
                        n <= j < i ==> e.entities[#[trigger] order[j]].uuid != uuid,
                None => forall|j: int|
                    n <= j < order.len() ==> e.entities[#[trigger] order[j]].uuid != uuid,
            }
        }),
    decreases table::in_order::<i32, EntityView>(e.entities).len() - n,
{
    let order = table::in_order::<i32, EntityView>(e.entities);
    if n < order.len() && e.entities[order[n]].uuid != uuid {
        holder_found(e, uuid, n + 1);
        if let Some(id) = e.holder_from(uuid, n + 1) {
            let i = choose|i: int|
                n + 1 <= i < order.len() && #[trigger] order[i] == id && e.entities[id].uuid == uuid
                    && forall|j: int|
                    n + 1 <= j < i ==> e.entities[#[trigger] order[j]].uuid != uuid;
            assert(order[i] == id);
            assert forall|j: int| n <= j < i implies e.entities[#[trigger] order[j]].uuid
                != uuid by {}
        }
    } else if n < order.len() {
        assert(order[n] == order[n]);
    }
}

/// The entity that is found for a uuid has that uuid; none with a lower id has
/// it. Where none is found, none has it.
pub proof fn the_entity_found_has_the_uuid(e: EntitiesView, uuid: u128)
    requires
        e.entities.dom().finite(),
    ensures
        match e.holder(uuid) {
            Some(id) => {
                &&& e.entities.contains_key(id)
                &&& e.entities[id].uuid == uuid
                &&& forall|other: i32| #[trigger]
                    e.entities.contains_key(other) && e.entities[other].uuid == uuid ==> id
                        <= other
            },
            None => forall|other: i32| #[trigger]
                e.entities.contains_key(other) ==> e.entities[other].uuid != uuid,
        },
{
    table::in_order_lists::<i32, EntityView>(e.entities);
    let order = table::in_order::<i32, EntityView>(e.entities);
    holder_found(e, uuid, 0);
    match e.holder(uuid) {
        Some(id) => {
            let i = choose|i: int|
                0 <= i < order.len() && #[trigger] order[i] == id && e.entities[id].uuid == uuid
                    && forall|j: int|
                    0 <= j < i ==> e.entities[#[trigger] order[j]].uuid != uuid;
            assert(order.contains(id));
            assert forall|other: i32| #[trigger]
                e.entities.contains_key(other) && e.entities[other].uuid == uuid implies id
                <= other by {
                assert(order.contains(other));
                let j = choose|j: int| 0 <= j < order.len() && order[j] == other;
                if j > i {
                    assert(<i32 as Key>::below(order[i], order[j]));
                }
            }
        },
        None => {
            assert forall|other: i32| #[trigger]
                e.entities.contains_key(other) implies e.entities[other].uuid != uuid by {
                assert(order.contains(other));
                let j = choose|j: int| 0 <= j < order.len() && order[j] == other;
                assert(e.entities[order[j]].uuid != uuid);
            }
        },
    }
}

/// A listed player goes by this name, whatever its case.
pub open spec fn goes_by(p: RosterView, uuid: u128, name: Seq<char>) -> bool {
    p.players.contains_key(uuid) && text::same_text(p.players[uuid].profile.name, name)
}

proof fn named_found(p: RosterView, name: Seq<char>, n: int)
    requires
        p.players.dom().finite(),
        p.keyed(),
        0 <= n <= table::in_order::<u128, PlayerInfoView>(p.players).len(),
    ensures
        ({
            let order = table::in_order::<u128, PlayerInfoView>(p.players);
            match p.named_from(name, n) {
                Some(uuid) => exists|i: int|
                    n <= i < order.len() && #[trigger] order[i] == uuid && goes_by(p, uuid, name)
                        && forall|j: int| n <= j < i ==> !goes_by(p, #[trigger] order[j], name),
                None => forall|j: int|
                    n <= j < order.len() ==> !goes_by(p, #[trigger] order[j], name),
            }
        }),
    decreases table::in_order::<u128, PlayerInfoView>(p.players).len() - n,
{
    table::in_order_lists::<u128, PlayerInfoView>(p.players);
    let order = table::in_order::<u128, PlayerInfoView>(p.players);
    if n < order.len() {
        assert(order.contains(order[n]));
        assert(p.players.contains_key(order[n]));
        if !goes_by(p, order[n], name) {
            named_found(p, name, n + 1);
            if let Some(uuid) = p.named_from(name, n + 1) {
                let i = choose|i: int|
                    n + 1 <= i < order.len() && #[trigger] order[i] == uuid && goes_by(
                        p,
                        uuid,
                        name,
                    ) && forall|j: int| n + 1 <= j < i ==> !goes_by(p, #[trigger] order[j], name);
                assert(order[i] == uuid);
                assert forall|j: int| n <= j < i implies !goes_by(
                    p,
                    #[trigger] order[j],
                    name,
                ) by {}
            }
        }
    }
}

/// The player that is found by a name is listed and goes by it; of several the
/// one with the lowest uuid is found. Where none is found, none goes by it.
pub proof fn the_player_found_has_the_name(p: RosterView, name: Seq<char>)
    requires
        p.players.dom().finite(),
        p.keyed(),
    ensures
        match p.named(name) {
            Some(uuid) => goes_by(p, uuid, name) && forall|other: u128| #[trigger]
                goes_by(p, other, name) ==> uuid <= other,
            None => forall|other: u128| !#[trigger] goes_by(p, other, name),
        },
{
    table::in_order_lists::<u128, PlayerInfoView>(p.players);
    let order = table::in_order::<u128, PlayerInfoView>(p.players);
    named_found(p, name, 0);
    match p.named(name) {
        Some(uuid) => {
            let i = choose|i: int|
                0 <= i < order.len() && #[trigger] order[i] == uuid && goes_by(p, uuid, name)
                    && forall|j: int| 0 <= j < i ==> !goes_by(p, #[trigger] order[j], name);
            assert forall|other: u128| #[trigger] goes_by(p, other, name) implies uuid
                <= other by {
                assert(order.contains(other));
                let j = choose|j: int| 0 <= j < order.len() && order[j] == other;
                if j > i {
                    assert(<u128 as Key>::below(order[i], order[j]));
                }
            }
        },
        None => {
            assert forall|other: u128| !#[trigger] goes_by(p, other, name) by {
                if p.players.contains_key(other) {
                    assert(order.contains(other));
                    let j = choose|j: int| 0 <= j < order.len() && order[j] == other;
                    assert(!goes_by(p, order[j], name));
                }
            }
        },
    }
}

/// A player that is found by name and in sight is a listed player of that name,
/// whatever its case, and the entity is that player's own. Where just one
/// listed player goes by the name, it is found if and only if it is in sight.
pub proof fn the_player_in_sight_is_the_one_named(w: WorldView, name: Seq<char>)
    requires
        w.entities.entities.dom().finite(),
        w.players.players.dom().finite(),
        w.players.keyed(),
    ensures
        w.player_target(name) matches Some((uuid, id)) ==> {
            &&& goes_by(w.players, uuid, name)
            &&& w.entities.entities.contains_key(id)
            &&& w.entities.entities[id].uuid == uuid
        },
        forall|uuid: u128, id: i32|
            #![trigger goes_by(w.players, uuid, name), w.entities.entities[id]]
            goes_by(w.players, uuid, name) && (forall|other: u128| #[trigger]
                goes_by(w.players, other, name) ==> other == uuid)
                && w.entities.entities.contains_key(id) && w.entities.entities[id].uuid == uuid
                ==> (w.player_target(name) matches Some((found, at)) && found == uuid && at <= id),
{
    the_player_found_has_the_name(w.players, name);
    if let Some(uuid) = w.players.named(name) {
        the_entity_found_has_the_uuid(w.entities, uuid);
    }
}

// What is told of an entity.

/// The last value under a key in a list.
pub open spec fn last_under<K, V>(s: Seq<(K, V)>, k: K) -> Option<V>
    decreases s.len(),
{
    if s.len() == 0 {
        None
    } else if s.last().0 == k {
        Some(s.last().1)
    } else {
        last_under(s.drop_last(), k)
    }
}

/// What a map holds under a key, if anything.
pub open spec fn found<K, V>(m: Map<K, V>, k: K) -> Option<V> {
    if m.contains_key(k) {
        Some(m[k])
    } else {
        None
    }
}

/// A value that was given, or else the one before.
pub open spec fn or_before<T>(given: Option<T>, before: T) -> T {
    match given {
        Some(value) => value,
        None => before,
    }
}

/// Entries that are put in replace those under the same keys.
pub proof fn put_values_are_found<K, V>(m: Map<K, V>, s: Seq<(K, V)>, k: K)
    ensures
        found(table::put_all(m, s), k) == (match last_under(s, k) {
            Some(value) => Some(value),
            None => found(m, k),
        }),
    decreases s.len(),
{
    if s.len() > 0 {
        put_values_are_found(m, s.drop_last(), k);
    }
}

/// Where a packet says that an entity is.
pub open spec fn told_pos(p: GamePacket, id: i32) -> Option<Point> {
    match p {
        GamePacket::MoveEntityPos { id: of, pos, .. } if of == id => Some(pos),
        GamePacket::MoveEntityPosRot { id: of, pos, .. } if of == id => Some(pos),
        GamePacket::EntityPositionSync { id: of, pos, .. } if of == id => Some(pos),
        GamePacket::TeleportEntity { id: of, pos, .. } if of == id => Some(pos),
        _ => None,
    }
}

/// Where a packet says that an entity looks.
pub open spec fn told_look(p: GamePacket, id: i32) -> Option<Turn> {
    match p {
        GamePacket::MoveEntityPosRot { id: of, look, .. } if of == id => Some(look),
        GamePacket::MoveEntityRot { id: of, look, .. } if of == id => Some(look),
        GamePacket::EntityPositionSync { id: of, look, .. } if of == id => Some(look),
        GamePacket::TeleportEntity { id: of, look, .. } if of == id => Some(look),
        _ => None,
    }
}

/// Whether a packet says that an entity stands on the ground.
pub open spec fn told_ground(p: GamePacket, id: i32) -> Option<bool> {
    match p {
        GamePacket::MoveEntityPos { id: of, on_ground, .. } if of == id => Some(on_ground),
        GamePacket::MoveEntityPosRot { id: of, on_ground, .. } if of == id => Some(on_ground),
        GamePacket::MoveEntityRot { id: of, on_ground, .. } if of == id => Some(on_ground),
        GamePacket::EntityPositionSync { id: of, on_ground, .. } if of == id => Some(on_ground),
        GamePacket::TeleportEntity { id: of, on_ground, .. } if of == id => Some(on_ground),
        _ => None,
    }
}

/// Where a packet says that an entity's head turns.
pub open spec fn told_head(p: GamePacket, id: i32) -> Option<i8> {
    match p {
        GamePacket::RotateHead { id: of, head_rot } if of == id => Some(head_rot),
        _ => None,
    }
}

/// How fast a packet says that an entity moves.
pub open spec fn told_motion(p: GamePacket, id: i32) -> Option<Point> {
    match p {
        GamePacket::SetEntityMotion { id: of, motion } if of == id => Some(motion),
        _ => None,
    }
}

/// The metadata that a packet tells of an entity.
pub open spec fn told_data(p: GamePacket, id: i32) -> Seq<(u8, Seq<u8>)> {
    match p {
        GamePacket::SetEntityData { id: of, items } if of == id => views::views(items@),
        _ => Seq::empty(),
    }
}

/// The equipment that a packet tells of an entity.
pub open spec fn told_equipment(p: GamePacket, id: i32) -> Seq<(u8, Seq<u8>)> {
    match p {
        GamePacket::SetEquipment { id: of, slots } if of == id => views::views(slots@),
        _ => Seq::empty(),
    }
}

/// The attributes that a packet tells of an entity.
pub open spec fn told_attributes(p: GamePacket, id: i32) -> Seq<(u32, Seq<u8>)> {
    match p {
        GamePacket::UpdateAttributes { id: of, values } if of == id => views::views(values@),
        _ => Seq::empty(),
    }
}

/// The packet takes an entity away, or shows it anew.
pub open spec fn replaces(p: GamePacket, id: i32) -> bool {
    match p {
        GamePacket::AddEntity { id: of, .. } => of == id,
        GamePacket::RemoveEntities { ids } => ids@.contains(id),
        _ => false,
    }
}

/// Of a known entity every packet changes what it speaks of, and nothing else:
/// place, view direction, footing, head, speed, and each metadata field,
/// equipment slot and attribute have the last value that was told. What is told
/// of the player's own entity id is not told of an entity.
pub proof fn entities_are_as_they_were_told_last(
    w: WorldView,
    f: FrameView,
    p: GamePacket,
    now: u64,
    id: i32,
)
    requires
        w.entities.entities.contains_key(id),
        !replaces(p, id),
        !(p is Opaque),
    ensures
        ({
            let a = w.entities.entities[id];
            let t = w.observe(f, p, now).entities.entities;
            let b = t[id];
            let own = w.hud.entity_id == Some(id);
            &&& t.contains_key(id)
            &&& b.add == a.add && b.uuid == a.uuid && b.effects == a.effects
            &&& b.pos == or_before(told_pos(p, id), a.pos)
            &&& b.look == or_before(told_look(p, id), a.look)
            &&& b.on_ground == or_before(told_ground(p, id), a.on_ground)
            &&& b.head_rot == or_before(told_head(p, id), a.head_rot)
            &&& b.motion == or_before(told_motion(p, id), a.motion)
            &&& forall|k: u8| #[trigger]
                found(b.metadata, k) == (match last_under(told_data(p, id), k) {
                    Some(v) if !own => Some(v),
                    _ => found(a.metadata, k),
                })
            &&& forall|k: u8| #[trigger]
                found(b.equipment, k) == (match last_under(told_equipment(p, id), k) {
                    Some(v) => Some(v),
                    _ => found(a.equipment, k),
                })
            &&& forall|k: u32| #[trigger]
                found(b.attributes, k) == (match last_under(told_attributes(p, id), k) {
                    Some(v) if !own => Some(v),
                    _ => found(a.attributes, k),
                })
        }),
{
    let a = w.entities.entities[id];
    stages::parts_change_on_their_own(w, f, p, now);
    record_step(w, f, p, id);
    let t = w.observe_entity(f, p).entities.entities;
    let own = w.hud.entity_id == Some(id);
    data_step(a, t[id], told_data(p, id), told_equipment(p, id), told_attributes(p, id), own);
}

/// The record of an entity after a packet that leaves it in place.
#[verifier::rlimit(40)]
proof fn record_step(w: WorldView, f: FrameView, p: GamePacket, id: i32)
    requires
        w.entities.entities.contains_key(id),
        !replaces(p, id),
    ensures
        ({
            let a = w.entities.entities[id];
            let t = w.observe_entity(f, p).entities.entities;
            let own = w.hud.entity_id == Some(id);
            &&& t.contains_key(id)
            &&& t[id] == (EntityView {
                pos: or_before(told_pos(p, id), a.pos),
                look: or_before(told_look(p, id), a.look),
                on_ground: or_before(told_ground(p, id), a.on_ground),
                head_rot: or_before(told_head(p, id), a.head_rot),
                motion: or_before(told_motion(p, id), a.motion),
                metadata: if own {
                    a.metadata
                } else {
                    table::put_all(a.metadata, told_data(p, id))
                },
                equipment: table::put_all(a.equipment, told_equipment(p, id)),
                attributes: if own {
                    a.attributes
                } else {
                    table::put_all(a.attributes, told_attributes(p, id))
                },
                ..a
            })
        }),
{
    let a = w.entities.entities[id];
    let t = w.observe_entity(f, p).entities.entities;
    assert(table::put_all(a.metadata, Seq::empty()) == a.metadata);
    assert(table::put_all(a.equipment, Seq::empty()) == a.equipment);
    assert(table::put_all(a.attributes, Seq::empty()) == a.attributes);
    let own = w.hud.entity_id == Some(id);
    match p {
        GamePacket::RemoveEntities { ids } => {
            others_are_not_removed(w.entities, ids@, id);
            assert(t[id] == a);
        },
        GamePacket::AddEntity { .. } => {
            assert(t[id] == a);
        },
        GamePacket::MoveEntityPos { id: of, pos, on_ground } => {
            assert(of == id ==> t[id] == (EntityView { pos, on_ground, ..a }));
            assert(of != id ==> t[id] == a);
        },
        GamePacket::MoveEntityPosRot { id: of, pos, look, on_ground } => {
            assert(of == id ==> t[id] == (EntityView { pos, look, on_ground, ..a }));
            assert(of != id ==> t[id] == a);
        },
        GamePacket::MoveEntityRot { id: of, look, on_ground } => {
            assert(of == id ==> t[id] == (EntityView { look, on_ground, ..a }));
            assert(of != id ==> t[id] == a);
        },
        GamePacket::EntityPositionSync { id: of, pos, look, on_ground } => {
            assert(of == id ==> t[id] == (EntityView { pos, look, on_ground, ..a }));
            assert(of != id ==> t[id] == a);
        },
        GamePacket::TeleportEntity { id: of, pos, look, on_ground } => {
            assert(of == id ==> t[id] == (EntityView { pos, look, on_ground, ..a }));
            assert(of != id ==> t[id] == a);
        },
        GamePacket::RotateHead { id: of, head_rot } => {
            assert(of == id ==> t[id] == (EntityView { head_rot, ..a }));
            assert(of != id ==> t[id] == a);
        },
        GamePacket::SetEntityMotion { id: of, motion } => {
            assert(of == id ==> t[id] == (EntityView { motion, ..a }));
            assert(of != id ==> t[id] == a);
        },
        GamePacket::SetEntityData { id: of, items } => {
            assert(of == id && !own ==> t[id] == (EntityView {
                metadata: table::put_all(a.metadata, views::views(items@)),
                ..a
            }));
            assert(of != id || own ==> t[id] == a);
        },
        GamePacket::SetEquipment { id: of, slots } => {
            assert(of == id ==> t[id] == (EntityView {
                equipment: table::put_all(a.equipment, views::views(slots@)),
                ..a
            }));
            assert(of != id ==> t[id] == a);
        },
        GamePacket::UpdateAttributes { id: of, values } => {
            assert(of == id && !own ==> t[id] == (EntityView {
                attributes: table::put_all(a.attributes, views::views(values@)),
                ..a
            }));
            assert(of != id || own ==> t[id] == a);
        },
        _ => {
            assert(t[id] == a);
        },
    }
}

proof fn data_step(
    a: EntityView,
    b: EntityView,
    data: Seq<(u8, Seq<u8>)>,
    equipment: Seq<(u8, Seq<u8>)>,
    attributes: Seq<(u32, Seq<u8>)>,
    own: bool,
)
    requires
        b.metadata == (if own {
            a.metadata
        } else {
            table::put_all(a.metadata, data)
        }),
        b.equipment == table::put_all(a.equipment, equipment),
        b.attributes == (if own {
            a.attributes
        } else {
            table::put_all(a.attributes, attributes)
        }),
    ensures
        forall|k: u8| #[trigger]
            found(b.metadata, k) == (match last_under(data, k) {
                Some(v) if !own => Some(v),
                _ => found(a.metadata, k),
            }),
        forall|k: u8| #[trigger]
            found(b.equipment, k) == (match last_under(equipment, k) {
                Some(v) => Some(v),
                _ => found(a.equipment, k),
            }),
        forall|k: u32| #[trigger]
            found(b.attributes, k) == (match last_under(attributes, k) {
                Some(v) if !own => Some(v),
                _ => found(a.attributes, k),
            }),
{
    assert forall|k: u8| #[trigger] found(b.metadata, k) == (match last_under(data, k) {
        Some(v) if !own => Some(v),
        _ => found(a.metadata, k),
    }) by {
        put_values_are_found(a.metadata, data, k);
    }
    assert forall|k: u8| #[trigger] found(b.equipment, k) == (match last_under(equipment, k) {
        Some(v) => Some(v),
        _ => found(a.equipment, k),
    }) by {
        put_values_are_found(a.equipment, equipment, k);
    }
    assert forall|k: u32| #[trigger] found(b.attributes, k) == (match last_under(attributes, k) {
        Some(v) if !own => Some(v),
        _ => found(a.attributes, k),
    }) by {
        put_values_are_found(a.attributes, attributes, k);
    }
}

proof fn others_are_not_removed(e: EntitiesView, ids: Seq<i32>, id: i32)
    requires
        !ids.contains(id),
    ensures
        e.remove_all(ids).entities.contains_key(id) == e.entities.contains_key(id),
        e.entities.contains_key(id) ==> e.remove_all(ids).entities[id] == e.entities[id],
        e.remove_all(ids).passengers.contains_key(id) == e.passengers.contains_key(id),
        e.passengers.contains_key(id) ==> e.remove_all(ids).passengers[id] == e.passengers[id],
        e.links.contains_key(id) && !ids.contains(e.links[id].0) ==> e.remove_all(
            ids,
        ).links.contains_key(id) && e.remove_all(ids).links[id] == e.links[id],
    decreases ids.len(),
{
    if ids.len() > 0 {
        let most = ids.drop_last();
        assert forall|x: i32| !ids.contains(x) implies !most.contains(x) && x != ids.last() by {
            if most.contains(x) {
                let i = choose|i: int| 0 <= i < most.len() && most[i] == x;
                assert(ids[i] == x);
            }
            assert(ids[ids.len() - 1] == ids.last());
        }
        assert(!most.contains(id));
        others_are_not_removed(e, most, id);
        if e.links.contains_key(id) && !ids.contains(e.links[id].0) {
            assert(!most.contains(e.links[id].0));
        }
    }
}

/// An entity that is shown is known by all that its spawn says, and by no more;
/// the bot's own body is not let in; an entity that is removed takes no other
/// with it.
pub proof fn entities_come_and_go(
    w: WorldView,
    f: FrameView,
    p: GamePacket,
    now: u64,
    id: i32,
)
    ensures
        ({
            let t = w.observe(f, p, now).entities;
            match p {
                GamePacket::AddEntity { id: of, uuid, pos, look, head_rot, motion } => if of == id
                    && w.bot_uuid != Some(uuid) {
                    let b = t.entities[id];
                    &&& t.entities.contains_key(id)
                    &&& b.add == f && b.uuid == uuid && b.pos == pos && b.look == look
                    &&& b.head_rot == head_rot && b.motion == motion && !b.on_ground
                    &&& b.metadata.dom() == Set::<u8>::empty()
                    &&& b.equipment.dom() == Set::<u8>::empty()
                    &&& b.attributes.dom() == Set::<u32>::empty()
                    &&& b.effects.dom() == Set::<u32>::empty()
                } else {
                    found(t.entities, id) == found(w.entities.entities, id)
                },
                GamePacket::RemoveEntities { ids } => if ids@.contains(id) {
                    &&& !t.entities.contains_key(id)
                    &&& !t.passengers.contains_key(id)
                    &&& !t.links.contains_key(id)
                } else {
                    &&& found(t.entities, id) == found(w.entities.entities, id)
                    &&& found(t.passengers, id) == found(w.entities.passengers, id)
                    &&& (w.entities.links.contains_key(id) && !ids@.contains(
                        w.entities.links[id].0,
                    ) ==> found(t.links, id) == found(w.entities.links, id))
                },
                _ => t.entities.contains_key(id) == w.entities.entities.contains_key(id),
            }
        }),
{
    if !(p is Opaque) {
        stages::parts_change_on_their_own(w, f, p, now);
    }
    if let GamePacket::RemoveEntities { ids } = p {
        if ids@.contains(id) {
            world_laws::removed_entities_are_gone(w.entities, ids@, id);
        } else {
            others_are_not_removed(w.entities, ids@, id);
        }
    }
}

/// Who rides an entity, and who holds it, is what was told last of it. A leash
/// to entity 0 is none.
pub proof fn riders_and_leashes_are_the_last_ones(
    w: WorldView,
    f: FrameView,
    p: GamePacket,
    now: u64,
    id: i32,
)
    requires
        !(p is RemoveEntities),
    ensures
        ({
            let t = w.observe(f, p, now).entities;
            &&& found(t.passengers, id) == (match p {
                GamePacket::SetPassengers { vehicle } if vehicle == id => Some(f),
                _ => found(w.entities.passengers, id),
            })
            &&& found(t.links, id) == (match p {
                GamePacket::SetEntityLink { source, dest } if source == id => if dest == 0 {
                    None
                } else {
                    Some((dest, f))
                },
                _ => found(w.entities.links, id),
            })
        }),
{
    match p {
        GamePacket::Opaque => {},
        _ => {
            stages::parts_change_on_their_own(w, f, p, now);
            riders_step(w, f, p, id);
        },
    }
}

#[verifier::rlimit(40)]
proof fn riders_step(w: WorldView, f: FrameView, p: GamePacket, id: i32)
    requires
        !(p is RemoveEntities),
    ensures
        ({
            let t = w.observe_entity(f, p).entities;
            &&& t.passengers == (match p {
                GamePacket::SetPassengers { vehicle } => w.entities.passengers.insert(vehicle, f),
                _ => w.entities.passengers,
            })
            &&& t.links == (match p {
                GamePacket::SetEntityLink { source, dest } => if dest == 0 {
                    w.entities.links.remove(source)
                } else {
                    w.entities.links.insert(source, (dest, f))
                },
                _ => w.entities.links,
            })
        }),
{
}


/// An effect that comes over an entity or the player is kept as it came until
/// it is taken away; effects of others, and other effects, are left alone.
pub proof fn effects_stay_until_they_are_taken_away(
    w: WorldView,
    packet_id: u32,
    of: i32,
    effect: u32,
    rest: Seq<u8>,
    now: u64,
    id: i32,
    other: u32,
)
    requires
        packet_id == 132 || packet_id == 78,
    ensures
        ({
            let f = FrameView {
                packet_id,
                body: wire::varint(wire::unsigned(of)) + wire::varint(effect) + rest,
            };
            let t = w.observe(f, GamePacket::Opaque, now);
            let own = w.hud.entity_id == Some(of);
            let after = if packet_id == 132 {
                Some(f)
            } else {
                None
            };
            &&& t.entities.entities.contains_key(id) == w.entities.entities.contains_key(id)
            &&& found(t.hud.effects, other) == (if own && other == effect {
                after
            } else {
                found(w.hud.effects, other)
            })
            &&& w.entities.entities.contains_key(id) ==> found(
                t.entities.entities[id].effects,
                other,
            ) == (if !own && of == id && other == effect {
                after
            } else {
                found(w.entities.entities[id].effects, other)
            })
        }),
{
    let a = wire::unsigned(of);
    let s = wire::varint(a) + wire::varint(effect) + rest;
    wire::signed_roundtrip(of);
    wire::varint_roundtrip(a, wire::varint(effect) + rest);
    wire::varint_roundtrip(effect, rest);
    assert(s =~= wire::varint(a) + (wire::varint(effect) + rest));
    assert(s.skip(wire::varint(a).len() as int) =~= wire::varint(effect) + rest);
    assert(ids::leading_pair(s) == Some((a, effect)));
}

// What a fresh client is told of entities.

proof fn value_listed<K: Key, W>(m: Map<K::V, W>, k: K::V)
    requires
        m.dom().finite(),
        m.contains_key(k),
    ensures
        exists|i: int|
            0 <= i < table::in_order::<K, W>(m).len() && #[trigger] table::in_order::<K, W>(m)[i]
                == k && table::values_in_order::<K, W>(m)[i] == m[k]
                && table::entries_in_order::<K, W>(m)[i] == (k, m[k]),
{
    table::in_order_lists::<K, W>(m);
    let order = table::in_order::<K, W>(m);
    assert(order.contains(k));
    let i = choose|i: int| 0 <= i < order.len() && order[i] == k;
    assert(table::values_in_order::<K, W>(m)[i] == m[k]);
    assert(table::entries_in_order::<K, W>(m)[i] == (k, m[k]));
}

/// Every entry of a map with finitely many keys is in its list, and nothing
/// else is.
pub proof fn lists_hold_the_entries<K: Key, W>(m: Map<K::V, W>)
    requires
        m.dom().finite(),
    ensures
        forall|k: K::V, v: W|
            #[trigger] table::entries_in_order::<K, W>(m).contains((k, v)) <==> found(m, k) == Some(
                v,
            ),
        forall|k: K::V| #[trigger]
            m.contains_key(k) ==> table::values_in_order::<K, W>(m).contains(m[k]),
{
    table::in_order_lists::<K, W>(m);
    let order = table::in_order::<K, W>(m);
    let entries = table::entries_in_order::<K, W>(m);
    assert forall|k: K::V, v: W|
        #[trigger] entries.contains((k, v)) <==> found(m, k) == Some(v) by {
        if entries.contains((k, v)) {
            let i = choose|i: int| 0 <= i < entries.len() && entries[i] == (k, v);
            assert(order.contains(order[i]));
            assert(m.contains_key(order[i]));
        }
        if m.contains_key(k) && m[k] == v {
            value_listed::<K, W>(m, k);
            let i = choose|i: int|
                0 <= i < order.len() && #[trigger] order[i] == k && entries[i] == (k, m[k]);
            assert(entries[i] == (k, v));
        }
    }
    assert forall|k: K::V| #[trigger] m.contains_key(k) implies table::values_in_order::<K, W>(
        m,
    ).contains(m[k]) by {
        value_listed::<K, W>(m, k);
        let i = choose|i: int|
            0 <= i < order.len() && #[trigger] order[i] == k && table::values_in_order::<K, W>(
                m,
            )[i] == m[k];
        assert(table::values_in_order::<K, W>(m)[i] == m[k]);
    }
}

/// These packets, from `at` on, show an entity: its spawn, where it is, and where
/// its head turns.
pub open spec fn shows_entity(r: Seq<PacketView>, at: int, id: i32, e: EntityView) -> bool {
    &&& 0 <= at && at + 3 <= r.len()
    &&& r[at] == PacketView::Raw(e.add)
    &&& r[at + 1] == (PacketView::EntityPositionSync {
        id,
        pos: e.pos,
        motion: e.motion,
        look: e.look,
        on_ground: e.on_ground,
    })
    &&& r[at + 2] == (PacketView::RotateHead { id, head_rot: e.head_rot })
}

/// One of these packets, at `at` or later, tells all the metadata.
pub open spec fn tells_data(r: Seq<PacketView>, at: int, id: i32, data: Map<u8, Seq<u8>>) -> bool {
    exists|k: int|
        at <= k < r.len() && (#[trigger] r[k] matches PacketView::SetEntityData {
            id: of,
            items,
        } && of == id && forall|key: u8, v: Seq<u8>|
            #[trigger] items.contains((key, v)) <==> found(data, key) == Some(v))
}

/// One of these packets, at `at` or later, tells all the equipment.
pub open spec fn tells_equipment(
    r: Seq<PacketView>,
    at: int,
    id: i32,
    equipment: Map<u8, Seq<u8>>,
) -> bool {
    exists|k: int|
        at <= k < r.len() && (#[trigger] r[k] matches PacketView::SetEquipment {
            id: of,
            slots,
        } && of == id && forall|key: u8, v: Seq<u8>|
            #[trigger] slots.contains((key, v)) <==> found(equipment, key) == Some(v))
}

/// One of these packets, at `at` or later, tells all the attributes.
pub open spec fn tells_attributes(
    r: Seq<PacketView>,
    at: int,
    id: i32,
    attributes: Map<u32, Seq<u8>>,
) -> bool {
    exists|k: int|
        at <= k < r.len() && (#[trigger] r[k] matches PacketView::UpdateAttributes {
            id: of,
            values,
        } && of == id && forall|key: u32| #[trigger]
            attributes.contains_key(key) ==> values.contains(attributes[key]))
}

/// A frame is among these packets, at `at` or later.
pub open spec fn tells_frame(r: Seq<PacketView>, at: int, f: FrameView) -> bool {
    exists|k: int| at <= k < r.len() && #[trigger] r[k] == PacketView::Raw(f)
}

/// What is known of an entity is finite.
pub open spec fn entity_finite(e: EntityView) -> bool {
    &&& e.metadata.dom().finite()
    &&& e.equipment.dom().finite()
    &&& e.attributes.dom().finite()
    &&& e.effects.dom().finite()
}

/// Metadata and equipment are told by one packet each.
pub proof fn data_told(id: i32, m: Map<u8, Seq<u8>>)
    requires
        m.dom().finite(),
        m.dom().len() > 0,
    ensures
        entities::data_packets(id, m).len() == 1,
        tells_data(entities::data_packets(id, m), 0, id, m),
        entities::equipment_packets(id, m).len() == 1,
        tells_equipment(entities::equipment_packets(id, m), 0, id, m),
{
    if m == Map::<u8, Seq<u8>>::empty() {
        assert(m.dom() =~= Set::<u8>::empty());
    }
    lists_hold_the_entries::<u8, Seq<u8>>(m);
    let a = entities::data_packets(id, m);
    assert(a[0] == (PacketView::SetEntityData {
        id,
        items: table::entries_in_order::<u8, Seq<u8>>(m),
    }));
    let b = entities::equipment_packets(id, m);
    assert(b[0] == (PacketView::SetEquipment {
        id,
        slots: table::entries_in_order::<u8, Seq<u8>>(m),
    }));
}

/// Attributes are told by one packet.
pub proof fn attributes_told(id: i32, m: Map<u32, Seq<u8>>)
    requires
        m.dom().finite(),
        m.dom().len() > 0,
    ensures
        entities::attribute_packets(id, m).len() == 1,
        tells_attributes(entities::attribute_packets(id, m), 0, id, m),
{
    if m == Map::<u32, Seq<u8>>::empty() {
        assert(m.dom() =~= Set::<u32>::empty());
    }
    lists_hold_the_entries::<u32, Seq<u8>>(m);
    let a = entities::attribute_packets(id, m);
    assert(a[0] == (PacketView::UpdateAttributes {
        id,
        values: table::values_in_order::<u32, Seq<u8>>(m),
    }));
}

/// A frame that is kept under a key is told.
pub proof fn frames_told<K: Key>(m: Map<K::V, FrameView>, k: K::V)
    requires
        m.dom().finite(),
        m.contains_key(k),
    ensures
        tells_frame(packet::raws(table::values_in_order::<K, FrameView>(m)), 0, m[k]),
{
    lists_hold_the_entries::<K, FrameView>(m);
    let all = table::values_in_order::<K, FrameView>(m);
    let i = choose|i: int| 0 <= i < all.len() && all[i] == m[k];
    assert(packet::raws(all)[i] == PacketView::Raw(m[k]));
}

/// What is shown of one entity.
proof fn entity_shown(e: EntityView, id: i32)
    requires
        entity_finite(e),
    ensures
        shows_entity(e.replay(id), 0, id, e),
        e.metadata.dom().len() > 0 ==> tells_data(e.replay(id), 3, id, e.metadata),
        e.equipment.dom().len() > 0 ==> tells_equipment(e.replay(id), 3, id, e.equipment),
        e.attributes.dom().len() > 0 ==> tells_attributes(e.replay(id), 3, id, e.attributes),
        forall|effect: u32| #[trigger]
            e.effects.contains_key(effect) ==> tells_frame(e.replay(id), 3, e.effects[effect]),
{
    let r = e.replay(id);
    let a = entities::data_packets(id, e.metadata);
    let b = entities::equipment_packets(id, e.equipment);
    let c = entities::attribute_packets(id, e.attributes);
    let d = packet::raws(table::values_in_order::<u32, FrameView>(e.effects));
    let n = 3 + a.len();
    let m = n + b.len();
    let l = m + c.len();
    if e.metadata.dom().len() > 0 {
        data_told(id, e.metadata);
        assert(r[3] == a[0]);
    }
    if e.equipment.dom().len() > 0 {
        data_told(id, e.equipment);
        assert(r[n as int] == b[0]);
    }
    if e.attributes.dom().len() > 0 {
        attributes_told(id, e.attributes);
        assert(r[m as int] == c[0]);
    }
    assert forall|effect: u32| #[trigger] e.effects.contains_key(effect) implies tells_frame(
        r,
        3,
        e.effects[effect],
    ) by {
        frames_told::<u32>(e.effects, effect);
        let k = choose|k: int|
            0 <= k < d.len() && #[trigger] d[k] == PacketView::Raw(e.effects[effect]);
        assert(r[l + k] == d[k]);
    }
}

/// A fresh client is shown every known entity: its spawn, where it is now, where
/// its head turns, and after that its metadata, equipment, attributes and
/// effects, all of them.
pub proof fn every_entity_is_shown_whole(e: EntitiesView, id: i32)
    requires
        e.entities.dom().finite(),
        e.entities.contains_key(id),
        entity_finite(e.entities[id]),
    ensures
        exists|at: int| #[trigger] shows_entity(e.replay(), at, id, e.entities[id]) && {
            let known = e.entities[id];
            &&& known.metadata.dom().len() > 0 ==> tells_data(e.replay(), at, id, known.metadata)
            &&& known.equipment.dom().len() > 0 ==> tells_equipment(
                e.replay(),
                at,
                id,
                known.equipment,
            )
            &&& known.attributes.dom().len() > 0 ==> tells_attributes(
                e.replay(),
                at,
                id,
                known.attributes,
            )
            &&& forall|effect: u32| #[trigger]
                known.effects.contains_key(effect) ==> tells_frame(
                    e.replay(),
                    at,
                    known.effects[effect],
                )
        },
{
    let known = e.entities[id];
    entity_shown(known, id);
    table::in_order_lists::<i32, EntityView>(e.entities);
    let order = table::in_order::<i32, EntityView>(e.entities);
    assert(order.contains(id));
    let i = choose|i: int| 0 <= i < order.len() && order[i] == id;
    let n = order.len() as int;
    shown_stands(e, i, n);
    let at = e.shown(i).len() as int;
    let r = known.replay(id);
    let all = e.replay();
    assert forall|k: int| 0 <= k < r.len() implies all[at + k] == #[trigger] r[k] by {
        assert(e.shown(n)[at + k] == r[k]);
    }
    assert(all[at] == r[0] && all[at + 1] == r[1] && all[at + 2] == r[2]) by {
        assert(all[at + 0] == r[0] && all[at + 1] == r[1] && all[at + 2] == r[2]);
    }
    assert(shows_entity(all, at, id, known));
    if known.metadata.dom().len() > 0 {
        let k = choose|k: int|
            3 <= k < r.len() && (#[trigger] r[k] matches PacketView::SetEntityData {
                id: of,
                items,
            } && of == id && forall|key: u8, v: Seq<u8>|
                #[trigger] items.contains((key, v)) <==> found(known.metadata, key) == Some(v));
        assert(all[at + k] == r[k]);
    }
    if known.equipment.dom().len() > 0 {
        let k = choose|k: int|
            3 <= k < r.len() && (#[trigger] r[k] matches PacketView::SetEquipment {
                id: of,
                slots,
            } && of == id && forall|key: u8, v: Seq<u8>|
                #[trigger] slots.contains((key, v)) <==> found(known.equipment, key) == Some(v));
        assert(all[at + k] == r[k]);
    }
    if known.attributes.dom().len() > 0 {
        let k = choose|k: int|
            3 <= k < r.len() && (#[trigger] r[k] matches PacketView::UpdateAttributes {
                id: of,
                values,
            } && of == id && forall|key: u32| #[trigger]
                known.attributes.contains_key(key) ==> values.contains(known.attributes[key]));
        assert(all[at + k] == r[k]);
    }
    assert forall|effect: u32| #[trigger] known.effects.contains_key(effect) implies tells_frame(
        all,
        at,
        known.effects[effect],
    ) by {
        let k = choose|k: int|
            3 <= k < r.len() && #[trigger] r[k] == PacketView::Raw(known.effects[effect]);
        assert(all[at + k] == r[k]);
    }
}

proof fn shown_stands(e: EntitiesView, i: int, n: int)
    requires
        0 <= i < n <= table::in_order::<i32, EntityView>(e.entities).len(),
    ensures
        ({
            let id = table::in_order::<i32, EntityView>(e.entities)[i];
            let r = e.entities[id].replay(id);
            &&& e.shown(i).len() + r.len() <= e.shown(n).len()
            &&& forall|k: int|
                0 <= k < r.len() ==> #[trigger] r[k] == e.shown(n)[e.shown(i).len() + k]
        }),
    decreases n,
{
    if i < n - 1 {
        shown_stands(e, i, n - 1);
    }
}

/// Who rides whom and who is leashed to whom is told after every entity has
/// been shown: a client does not know an entity before its spawn.
pub proof fn riders_and_leashes_are_told_after_the_entities(e: EntitiesView, id: i32)
    requires
        e.entities.dom().finite(),
        e.passengers.dom().finite(),
        e.links.dom().finite(),
    ensures
        ({
            let at = e.shown(table::in_order::<i32, EntityView>(e.entities).len() as int).len();
            &&& at <= e.replay().len()
            &&& forall|k: int| at <= k < e.replay().len() ==> #[trigger] e.replay()[k] is Raw
            &&& e.passengers.contains_key(id) ==> tells_frame(
                e.replay(),
                at as int,
                e.passengers[id],
            )
            &&& e.links.contains_key(id) ==> tells_frame(e.replay(), at as int, e.links[id].1)
        }),
{
    let head = e.shown(table::in_order::<i32, EntityView>(e.entities).len() as int);
    let a = packet::raws(table::values_in_order::<i32, FrameView>(e.passengers));
    let b = packet::raws(e.link_frames());
    let r = e.replay();
    let at = head.len();
    if e.passengers.contains_key(id) {
        frames_told::<i32>(e.passengers, id);
        let k = choose|k: int| 0 <= k < a.len() && #[trigger] a[k] == PacketView::Raw(
            e.passengers[id],
        );
        assert(r[at + k] == a[k]);
    }
    if e.links.contains_key(id) {
        lists_hold_the_entries::<i32, (i32, FrameView)>(e.links);
        let all = table::values_in_order::<i32, (i32, FrameView)>(e.links);
        let k = choose|k: int| 0 <= k < all.len() && all[k] == e.links[id];
        assert(b[k] == PacketView::Raw(e.links[id].1));
        assert(r[at + a.len() + k] == b[k]);
    }
    assert forall|k: int| at <= k < r.len() implies #[trigger] r[k] is Raw by {
        if k < at + a.len() {
            assert(r[k] == a[k - at]);
        } else {
            assert(r[k] == b[k - at - a.len()]);
        }
    }
}

// What is told of a player.

/// One update of a player replaces the parts that it announces, and leaves the
/// others; of a player that was not listed before, all parts are taken. Chat
/// sessions are never kept. Other players are left alone.
pub proof fn players_are_as_they_were_told_last(
    p: RosterView,
    actions: PlayerInfoActions,
    entry: PlayerInfoView,
    uuid: u128,
)
    ensures
        ({
            let t = p.update(actions, entry).players;
            let a = p.players[uuid];
            let b = t[uuid];
            let fresh = !p.players.contains_key(uuid);
            if uuid == entry.profile.uuid {
                &&& t.contains_key(uuid)
                &&& b.chat_session is None
                &&& b.profile == (if fresh || actions.add_player {
                    entry.profile
                } else {
                    a.profile
                })
                &&& b.game_mode == (if fresh || actions.update_game_mode {
                    entry.game_mode
                } else {
                    a.game_mode
                })
                &&& b.listed == (if fresh || actions.update_listed {
                    entry.listed
                } else {
                    a.listed
                })
                &&& b.latency == (if fresh || actions.update_latency {
                    entry.latency
                } else {
                    a.latency
                })
                &&& b.display_name == (if fresh || actions.update_display_name {
                    entry.display_name
                } else {
                    a.display_name
                })
                &&& b.list_order == (if fresh || actions.update_list_order {
                    entry.list_order
                } else {
                    a.list_order
                })
                &&& b.update_hat == (if fresh || actions.update_hat {
                    entry.update_hat
                } else {
                    a.update_hat
                })
            } else {
                found(t, uuid) == found(p.players, uuid)
            }
        }),
{
}

/// A list of updates is taken one after the other.
pub proof fn updates_are_taken_in_turn(
    w: WorldView,
    f: FrameView,
    now: u64,
    actions: PlayerInfoActions,
    entries: Vec<packet::PlayerInfoEntry>,
    more: Seq<PlayerInfoView>,
    last: PlayerInfoView,
)
    ensures
        w.observe(f, GamePacket::PlayerInfoUpdate { actions, entries }, now).players
            == w.players.update_all(actions, views::views(entries@)),
        w.players.update_all(actions, more.push(last)) == w.players.update_all(
            actions,
            more,
        ).update(actions, last),
        w.players.update_all(actions, Seq::empty()) == w.players,
{
    assert(more.push(last).drop_last() =~= more);
}

/// A skin is replayed without its signature and otherwise as it is, and so is
/// everything else of a player.
pub proof fn skins_are_kept(e: PlayerInfoView)
    ensures
        ({
            let r = roster::stripped(e);
            &&& r.profile.uuid == e.profile.uuid && r.profile.name == e.profile.name
            &&& r.game_mode == e.game_mode && r.listed == e.listed && r.latency == e.latency
            &&& r.display_name == e.display_name
            &&& r.profile.properties.len() == e.profile.properties.len()
            &&& forall|i: int|
                0 <= i < e.profile.properties.len() ==> {
                    let a = e.profile.properties[i];
                    let b = #[trigger] r.profile.properties[i];
                    b.name == a.name && b.value == a.value && b.signature is None
                }
        }),
{
}

/// The replayed tab list announces all that it carries and that a client can
/// read: who is there, how each plays, whether it is shown, how far it is, and
/// under what name. No chat session is announced.
pub proof fn the_replayed_list_announces_its_parts(p: RosterView)
    requires
        filing::players_filed(p),
        p.players.dom().len() > 0,
    ensures
        p.replay().len() == 1,
        p.replay()[0] matches PacketView::PlayerInfoUpdate { actions, .. } && {
            &&& actions.add_player && actions.update_game_mode && actions.update_listed
            &&& actions.update_latency && actions.update_display_name
            &&& !actions.initialize_chat
            &&& !actions.update_list_order && !actions.update_hat
        },
{
    filing::the_tab_list_is_complete(p);
}

} // verus!
