//! Which part of the world a packet changes.

use vstd::prelude::*;

use crate::packet::GamePacket;
use crate::plugin::FrameView;
use crate::snapshot::WorldView;

verus! {

proof fn entity_stage(w: WorldView, f: FrameView, p: GamePacket)
    ensures
        ({
            let t = w.observe_entity(f, p);
            &&& t.bot_uuid == w.bot_uuid && t.players == w.players
            &&& t.scoreboard == w.scoreboard && t.boss_bars == w.boss_bars
            &&& t.terrain == w.terrain && t.maps == w.maps && t.ambience == w.ambience
        }),
{
}

proof fn social_stage(a: WorldView, b: WorldView, f: FrameView, p: GamePacket)
    requires
        a.players == b.players,
        a.scoreboard == b.scoreboard,
        a.boss_bars == b.boss_bars,
    ensures
        ({
            let t = a.observe_social(f, p);
            let u = b.observe_social(f, p);
            &&& t.players == u.players && t.scoreboard == u.scoreboard && t.boss_bars
                == u.boss_bars
            &&& t.bot_uuid == a.bot_uuid && t.hud == a.hud && t.entities == a.entities
            &&& t.terrain == a.terrain && t.maps == a.maps && t.ambience == a.ambience
        }),
{
}

proof fn inventory_stage(a: WorldView, b: WorldView, f: FrameView, p: GamePacket, now: u64)
    requires
        a.maps == b.maps,
        a.hud == b.hud,
    ensures
        ({
            let t = a.observe_inventory(f, p, now);
            let u = b.observe_inventory(f, p, now);
            &&& t.hud == u.hud && t.maps == u.maps
            &&& t.bot_uuid == a.bot_uuid && t.entities == a.entities && t.players == a.players
            &&& t.scoreboard == a.scoreboard && t.boss_bars == a.boss_bars
            &&& t.terrain == a.terrain && t.ambience == a.ambience
        }),
{
}

proof fn place_stage(a: WorldView, b: WorldView, f: FrameView, p: GamePacket, now: u64)
    requires
        a.terrain == b.terrain,
        a.ambience == b.ambience,
    ensures
        ({
            let t = a.observe_place(f, p, now);
            let u = b.observe_place(f, p, now);
            &&& t.terrain == u.terrain && t.ambience == u.ambience
            &&& t.bot_uuid == a.bot_uuid && t.hud == a.hud && t.entities == a.entities
            &&& t.players == a.players && t.scoreboard == a.scoreboard
            &&& t.boss_bars == a.boss_bars && t.maps == a.maps
        }),
{
}

/// Each part of the world is changed by the packets that are about it, and by
/// no other.
pub proof fn parts_change_on_their_own(w: WorldView, f: FrameView, p: GamePacket, now: u64)
    requires
        !(p is Opaque),
    ensures
        ({
            let t = w.observe(f, p, now);
            &&& t.bot_uuid == w.bot_uuid
            &&& t.entities == w.observe_entity(f, p).entities
            &&& t.players == w.observe_social(f, p).players
            &&& t.scoreboard == w.observe_social(f, p).scoreboard
            &&& t.boss_bars == w.observe_social(f, p).boss_bars
            &&& t.hud == w.observe_entity(f, p).observe_inventory(f, p, now).hud
            &&& t.maps == w.observe_inventory(f, p, now).maps
            &&& t.terrain == w.observe_place(f, p, now).terrain
            &&& t.ambience == w.observe_place(f, p, now).ambience
        }),
{
    let a = w.observe_entity(f, p);
    entity_stage(w, f, p);
    let b = a.observe_social(f, p);
    social_stage(a, w, f, p);
    let c = b.observe_inventory(f, p, now);
    inventory_stage(b, a, f, p, now);
    inventory_maps(b, w, f, p, now);
    place_stage(c, w, f, p, now);
    assert(w.observe(f, p, now) == c.observe_place(f, p, now));
}

proof fn inventory_maps(a: WorldView, b: WorldView, f: FrameView, p: GamePacket, now: u64)
    requires
        a.maps == b.maps,
    ensures
        a.observe_inventory(f, p, now).maps == b.observe_inventory(f, p, now).maps,
{
}

} // verus!
