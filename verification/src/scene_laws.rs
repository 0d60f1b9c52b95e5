//! What becomes of what the server tells of scoreboards, the terrain and the
//! world at large, and what a fresh client is told of all of it.

use vstd::prelude::*;

use crate::ambience;
use crate::ambience::AmbienceView;
use crate::arrival;
use crate::bossbar;
use crate::clock;
use crate::entity_laws;
use crate::hud::HudView;
use crate::inventory_laws;
use crate::maps;
use crate::packet;
use crate::packet::{
    BlockPos, Border, GamePacket, ObjectiveMethod, PacketView, SectionBlock, TeamMethod,
};
use crate::plugin::FrameView;
use crate::scoreboard;
use crate::scoreboard::{ScoreboardView, TeamView};
use crate::snapshot::WorldView;
use crate::stages;
use crate::table;
use crate::terrain;
use crate::terrain::TerrainView;
use crate::views;
use crate::wire;

verus! {

// Scoreboards.

/// An objective has the parameters that came last for it, as an addition or as a
/// change, until it is removed; others are left alone.
pub proof fn objectives_are_as_they_were_told_last(
    w: WorldView,
    f: FrameView,
    p: GamePacket,
    now: u64,
    name: Seq<char>,
)
    requires
        !(p is Opaque),
    ensures
        entity_laws::found(w.observe(f, p, now).scoreboard.objectives, name) == (match p {
            GamePacket::SetObjective { name: of, method } if of@ == name => match method {
                ObjectiveMethod::Add(parameters) => Some(parameters@),
                ObjectiveMethod::Change(parameters) => Some(parameters@),
                ObjectiveMethod::Remove => None,
            },
            _ => entity_laws::found(w.scoreboard.objectives, name),
        }),
{
    stages::parts_change_on_their_own(w, f, p, now);
}

/// A slot displays what was told last for it: an objective, or nothing where the
/// name is empty or the objective was removed.
pub proof fn displays_are_as_they_were_told_last(
    w: WorldView,
    f: FrameView,
    p: GamePacket,
    now: u64,
    slot: u8,
)
    requires
        !(p is Opaque),
    ensures
        entity_laws::found(w.observe(f, p, now).scoreboard.displays, slot) == (match p {
            GamePacket::SetDisplayObjective { slot: of, name } if of == slot => if name@.len()
                == 0 {
                None
            } else {
                Some((name@, f))
            },
            GamePacket::SetObjective { name, method } if method is Remove
                && w.scoreboard.displays.contains_key(slot) && w.scoreboard.displays[slot].0
                == name@ => None,
            _ => entity_laws::found(w.scoreboard.displays, slot),
        }),
{
    stages::parts_change_on_their_own(w, f, p, now);
}

/// The score of an owner for an objective is what came last, until it is reset,
/// by itself or with all scores of the owner, or the objective is removed.
pub proof fn scores_are_as_they_were_told_last(
    w: WorldView,
    f: FrameView,
    p: GamePacket,
    now: u64,
    objective: Seq<char>,
    owner: Seq<char>,
)
    requires
        !(p is Opaque),
    ensures
        entity_laws::found(w.observe(f, p, now).scoreboard.scores, (objective, owner)) == (
        match p {
            GamePacket::SetScore { owner: who, objective: of } if who@ == owner && of@ == objective
                => Some(f),
            GamePacket::ResetScore { owner: who, objective: of } if who@ == owner && (
            of matches Some(one) ==> one@ == objective) => None,
            GamePacket::SetObjective { name, method } if method is Remove && name@ == objective =>
                None,
            _ => entity_laws::found(w.scoreboard.scores, (objective, owner)),
        }),
{
    stages::parts_change_on_their_own(w, f, p, now);
    let t = w.observe_social(f, p).scoreboard.scores;
    let k = (objective, owner);
    match p {
        GamePacket::SetScore { owner: who, objective: of } => {
            assert((of@, who@) == k <==> who@ == owner && of@ == objective);
        },
        GamePacket::ResetScore { owner: who, objective: of } => {
            if let Some(one) = of {
                assert((one@, who@) == k <==> who@ == owner && one@ == objective);
            }
        },
        _ => {},
    }
}

proof fn enlisted_holds(players: Map<Seq<char>, ()>, names: Seq<Seq<char>>, name: Seq<char>)
    ensures
        scoreboard::enlisted(players, names).contains_key(name) <==> players.contains_key(name)
            || names.contains(name),
    decreases names.len(),
{
    if names.len() > 0 {
        let less = names.drop_last();
        enlisted_holds(players, less, name);
        member_of_last(names, name);
    }
}

proof fn member_of_last(names: Seq<Seq<char>>, name: Seq<char>)
    requires
        names.len() > 0,
    ensures
        names.contains(name) <==> names.drop_last().contains(name) || names.last() == name,
{
    let less = names.drop_last();
    if less.contains(name) {
        let i = choose|i: int| 0 <= i < less.len() && less[i] == name;
        assert(names[i] == name);
    }
    if names.last() == name {
        assert(names[names.len() - 1] == name);
    }
    if names.contains(name) && names.last() != name {
        let i = choose|i: int| 0 <= i < names.len() && names[i] == name;
        assert(less[i] == name);
    }
}

proof fn dropped_holds(players: Map<Seq<char>, ()>, names: Seq<Seq<char>>, name: Seq<char>)
    ensures
        table::drop_all(players, names).contains_key(name) <==> players.contains_key(name)
            && !names.contains(name),
    decreases names.len(),
{
    if names.len() > 0 {
        dropped_holds(players, names.drop_last(), name);
        member_of_last(names, name);
    }
}

/// These names, as text.
pub open spec fn names(list: Vec<String>) -> Seq<Seq<char>> {
    views::views(list@)
}

/// A team has the members that it was made with or that joined it, until they
/// leave it, and the parameters that came last. It is there from when it is made
/// until it is removed; what is told of a team that was never made makes none.
pub proof fn teams_are_as_they_were_told_last(
    w: WorldView,
    f: FrameView,
    p: GamePacket,
    now: u64,
    name: Seq<char>,
    player: Seq<char>,
)
    requires
        !(p is Opaque),
    ensures
        ({
            let t = w.observe(f, p, now).scoreboard.teams;
            let known = w.scoreboard.teams.contains_key(name);
            let a = w.scoreboard.teams[name];
            let b = t[name];
            match p {
                GamePacket::SetPlayerTeam { name: of, method } if of@ == name => match method {
                    TeamMethod::Add { parameters, players } => {
                        &&& t.contains_key(name)
                        &&& b.parameters == parameters@
                        &&& b.players.contains_key(player) <==> names(players).contains(player)
                    },
                    TeamMethod::Remove => !t.contains_key(name),
                    TeamMethod::Change(parameters) => {
                        &&& t.contains_key(name) == known
                        &&& known ==> b.parameters == parameters@ && b.players == a.players
                    },
                    TeamMethod::Join(players) => {
                        &&& t.contains_key(name) == known
                        &&& known ==> b.parameters == a.parameters
                        &&& known ==> (b.players.contains_key(player) <==> a.players.contains_key(
                            player,
                        ) || names(players).contains(player))
                    },
                    TeamMethod::Leave(players) => {
                        &&& t.contains_key(name) == known
                        &&& known ==> b.parameters == a.parameters
                        &&& known ==> (b.players.contains_key(player) <==> a.players.contains_key(
                            player,
                        ) && !names(players).contains(player))
                    },
                },
                _ => entity_laws::found(t, name) == entity_laws::found(w.scoreboard.teams, name),
            }
        }),
{
    stages::parts_change_on_their_own(w, f, p, now);
    let a = w.scoreboard.teams[name];
    if let GamePacket::SetPlayerTeam { name: of, method } = p {
        match method {
            TeamMethod::Add { parameters, players } => {
                enlisted_holds(Map::empty(), names(players), player);
            },
            TeamMethod::Join(players) => {
                enlisted_holds(a.players, names(players), player);
            },
            TeamMethod::Leave(players) => {
                dropped_holds(a.players, names(players), player);
            },
            _ => {},
        }
    }
}

/// What is known of a scoreboard is finite.
pub open spec fn board_finite(b: ScoreboardView) -> bool {
    &&& b.objectives.dom().finite()
    &&& b.displays.dom().finite()
    &&& b.scores.dom().finite()
    &&& b.teams.dom().finite()
    &&& forall|name: Seq<char>| #[trigger]
        b.teams.contains_key(name) ==> b.teams[name].players.dom().finite()
}

/// One of these packets makes a team, with just these members.
pub open spec fn makes_team(r: Seq<PacketView>, name: Seq<char>, team: TeamView) -> bool {
    exists|k: int|
        0 <= k < r.len() && (#[trigger] r[k] matches PacketView::AddTeam {
            name: of,
            parameters,
            players,
        } && of == name && parameters == team.parameters && forall|player: Seq<char>| #[trigger]
            players.contains(player) <==> team.players.contains_key(player))
}

/// A fresh client is told the whole scoreboard: every objective, every team with
/// its members, what every slot displays, and every score; each once, and nothing
/// else.
pub proof fn the_whole_scoreboard_is_told(
    b: ScoreboardView,
    name: Seq<char>,
    slot: u8,
    owner: Seq<char>,
)
    requires
        board_finite(b),
    ensures
        ({
            let r = b.replay();
            &&& b.objectives.contains_key(name) ==> r.contains(
                PacketView::AddObjective { name, parameters: b.objectives[name] },
            )
            &&& b.teams.contains_key(name) ==> makes_team(r, name, b.teams[name])
            &&& b.displays.contains_key(slot) ==> r.contains(PacketView::Raw(b.displays[slot].1))
            &&& b.scores.contains_key((name, owner)) ==> r.contains(
                PacketView::Raw(b.scores[(name, owner)]),
            )
            &&& r.len() == b.objectives.dom().len() + b.teams.dom().len() + b.displays.dom().len()
                + b.scores.dom().len()
        }),
{
    lists_are_as_long_as_the_map::<String, Seq<u8>>(b.objectives);
    lists_are_as_long_as_the_map::<String, TeamView>(b.teams);
    lists_are_as_long_as_the_map::<u8, (Seq<char>, FrameView)>(b.displays);
    lists_are_as_long_as_the_map::<(String, String), FrameView>(b.scores);
    let r = b.replay();
    let x = b.objective_packets();
    let y = b.team_packets();
    let z = b.display_packets();
    let q = packet::raws(table::values_in_order::<(String, String), FrameView>(b.scores));
    if b.objectives.contains_key(name) {
        entity_laws::lists_hold_the_entries::<String, Seq<u8>>(b.objectives);
        let all = table::entries_in_order::<String, Seq<u8>>(b.objectives);
        assert(entity_laws::found(b.objectives, name) == Some(b.objectives[name]));
        assert(all.contains((name, b.objectives[name])));
        let i = choose|i: int| 0 <= i < all.len() && all[i] == (name, b.objectives[name]);
        assert(x[i] == (PacketView::AddObjective { name, parameters: b.objectives[name] }));
        assert(r[i] == x[i]);
    }
    if b.teams.contains_key(name) {
        entity_laws::lists_hold_the_entries::<String, TeamView>(b.teams);
        let all = table::entries_in_order::<String, TeamView>(b.teams);
        let team = b.teams[name];
        assert(entity_laws::found(b.teams, name) == Some(team));
        assert(all.contains((name, team)));
        let i = choose|i: int| 0 <= i < all.len() && all[i] == (name, team);
        table::in_order_lists::<String, ()>(team.players);
        let players = table::in_order::<String, ()>(team.players);
        assert(y[i] == (PacketView::AddTeam { name, parameters: team.parameters, players }));
        assert(r[x.len() + i] == y[i]);
        assert forall|player: Seq<char>| #[trigger]
            players.contains(player) <==> team.players.contains_key(player) by {
            assert(team.players.contains_key(player) <==> players.contains(player));
        }
    }
    if b.displays.contains_key(slot) {
        entity_laws::lists_hold_the_entries::<u8, (Seq<char>, FrameView)>(b.displays);
        let all = table::values_in_order::<u8, (Seq<char>, FrameView)>(b.displays);
        let i = choose|i: int| 0 <= i < all.len() && all[i] == b.displays[slot];
        assert(z[i] == PacketView::Raw(b.displays[slot].1));
        assert(r[x.len() + y.len() + i] == z[i]);
    }
    if b.scores.contains_key((name, owner)) {
        entity_laws::frames_told::<(String, String)>(b.scores, (name, owner));
        let i = choose|i: int| 0 <= i < q.len() && #[trigger] q[i] == PacketView::Raw(
            b.scores[(name, owner)],
        );
        assert(r[x.len() + y.len() + z.len() + i] == q[i]);
    }
}

// The terrain.

/// A block within a section stands where the section's place and its own say:
/// sixteen blocks to a section, in each direction.
pub proof fn blocks_stand_in_their_section(section: BlockPos, block: SectionBlock)
    requires
        block.x < 16,
        block.y < 16,
        block.z < 16,
        -0x0800_0000 <= section.x < 0x0800_0000,
        -0x0800_0000 <= section.y < 0x0800_0000,
        -0x0800_0000 <= section.z < 0x0800_0000,
    ensures
        ({
            let pos = terrain::placed(section, block);
            &&& pos.x == section.x * 16 + block.x
            &&& pos.y == section.y * 16 + block.y
            &&& pos.z == section.z * 16 + block.z
            &&& terrain::in_chunk(pos, section.x, section.z)
        }),
{
    let pos = terrain::placed(section, block);
    assert(pos.x == section.x * 16 + block.x);
    assert(pos.z == section.z * 16 + block.z);
    chunk_of(pos.x, section.x);
    chunk_of(pos.z, section.z);
}

proof fn chunk_of(n: i32, c: i32)
    requires
        c * 16 <= n < c * 16 + 16,
    ensures
        n >> 4 == c,
{
    assert(n >> 4 == c) by (bit_vector)
        requires
            c * 16 <= n < c * 16 + 16,
    ;
}

/// A block lies in the chunk of its coordinates, sixteen to a chunk, below zero
/// too.
pub proof fn blocks_lie_in_their_chunk(pos: BlockPos, x: i32, z: i32)
    requires
        x * 16 <= pos.x < x * 16 + 16,
        z * 16 <= pos.z < z * 16 + 16,
    ensures
        terrain::in_chunk(pos, x, z),
{
    chunk_of(pos.x, x);
    chunk_of(pos.z, z);
}

/// A block lies in no chunk but that of its coordinates.
pub proof fn blocks_lie_in_no_other_chunk(pos: BlockPos, x: i32, z: i32)
    requires
        terrain::in_chunk(pos, x, z),
    ensures
        x * 16 <= pos.x < x * 16 + 16,
        z * 16 <= pos.z < z * 16 + 16,
{
    bounds_of(pos.x, x);
    bounds_of(pos.z, z);
}

proof fn bounds_of(n: i32, c: i32)
    requires
        n >> 4 == c,
    ensures
        c * 16 <= n < c * 16 + 16,
{
    assert(c * 16 <= n < c * 16 + 16) by (bit_vector)
        requires
            n >> 4 == c,
    ;
}

/// The number of every change that is kept has been given out.
pub open spec fn numbered(t: TerrainView) -> bool {
    &&& forall|pos: BlockPos| #[trigger]
        t.updates.contains_key(pos) ==> t.updates[pos].0 <= t.sequence
    &&& forall|pos: BlockPos| #[trigger]
        t.block_entities.contains_key(pos) ==> t.block_entities[pos].0 <= t.sequence
}

/// A change gets a higher number than any before it, until the numbers run out;
/// a chunk that goes takes no number with it. So later changes are told later.
pub proof fn later_changes_have_higher_numbers(
    t: TerrainView,
    pos: BlockPos,
    other: BlockPos,
    packet: PacketView,
    x: i32,
    z: i32,
)
    requires
        numbered(t),
        t.sequence < u64::MAX,
    ensures
        numbered(TerrainView::empty()),
        numbered(t.forget_chunk(x, z)),
        numbered(t.change_block(pos, packet)),
        numbered(t.change_block_entity(pos, packet)),
        ({
            let u = t.change_block(pos, packet);
            &&& other != pos && u.updates.contains_key(other) ==> u.updates[other].0
                < u.updates[pos].0
            &&& u.block_entities.contains_key(other) ==> u.block_entities[other].0
                < u.updates[pos].0
        }),
        ({
            let u = t.change_block_entity(pos, packet);
            &&& other != pos && u.block_entities.contains_key(other) ==> u.block_entities[other].0
                < u.block_entities[pos].0
            &&& u.updates.contains_key(other) ==> u.updates[other].0 < u.block_entities[pos].0
        }),
        t.forget_chunk(x, z).sequence == t.sequence,
{
}

/// After the largest number the numbers start over.
pub proof fn numbers_start_over(t: TerrainView, pos: BlockPos, packet: PacketView)
    requires
        t.sequence == u64::MAX,
    ensures
        t.change_block(pos, packet).sequence == 0,
        t.change_block_entity(pos, packet).sequence == 0,
{
}

/// A chunk that goes takes nothing of another chunk with it.
pub proof fn other_chunks_keep_light_and_biomes(
    t: TerrainView,
    x: i32,
    z: i32,
    chunk: (i32, i32),
)
    requires
        chunk != (x, z),
    ensures
        entity_laws::found(t.forget_chunk(x, z).light, chunk) == entity_laws::found(
            t.light,
            chunk,
        ),
        entity_laws::found(t.forget_chunk(x, z).biomes, chunk) == entity_laws::found(
            t.biomes,
            chunk,
        ),
{
}

/// A block, or what it holds, is as it was told last, and counts as the last
/// change; other blocks are left alone. So are light and biomes of other chunks.
pub proof fn the_terrain_is_as_it_was_told_last(
    w: WorldView,
    f: FrameView,
    p: GamePacket,
    now: u64,
    at: BlockPos,
    chunk: (i32, i32),
)
    requires
        !(p is Opaque),
        !(p is SectionBlocksUpdate),
    ensures
        ({
            let a = w.terrain;
            let b = w.observe(f, p, now).terrain;
            let changes = p is BlockUpdate || p is BlockEntityData;
            &&& entity_laws::found(b.updates, at) == (match p {
                GamePacket::BlockUpdate { pos } if pos == at => Some(
                    (b.sequence, PacketView::Raw(f)),
                ),
                _ => entity_laws::found(a.updates, at),
            })
            &&& entity_laws::found(b.block_entities, at) == (match p {
                GamePacket::BlockEntityData { pos } if pos == at => Some(
                    (b.sequence, PacketView::Raw(f)),
                ),
                _ => entity_laws::found(a.block_entities, at),
            })
            &&& entity_laws::found(b.light, chunk) == (match p {
                GamePacket::LightUpdate { x, z } if (x, z) == chunk => Some(f),
                _ => entity_laws::found(a.light, chunk),
            })
            &&& entity_laws::found(b.biomes, chunk) == (match p {
                GamePacket::ChunksBiomes { chunks } if entity_laws::last_under(
                    views::views(chunks@),
                    chunk,
                ) is Some => entity_laws::last_under(views::views(chunks@), chunk),
                _ => entity_laws::found(a.biomes, chunk),
            })
            &&& changes && a.sequence < u64::MAX ==> b.sequence == a.sequence + 1
            &&& !changes ==> b.sequence == a.sequence
        }),
{
    stages::parts_change_on_their_own(w, f, p, now);
    if let GamePacket::ChunksBiomes { chunks } = p {
        entity_laws::put_values_are_found(w.terrain.biomes, views::views(chunks@), chunk);
    }
}

/// The last of some blocks of a section at a place.
pub open spec fn last_block_at(
    section: BlockPos,
    states: Seq<SectionBlock>,
    at: BlockPos,
) -> Option<u32>
    decreases states.len(),
{
    if states.len() == 0 {
        None
    } else if terrain::placed(section, states.last()) == at {
        Some(states.last().state)
    } else {
        last_block_at(section, states.drop_last(), at)
    }
}

/// A change of many blocks of a section changes each of them, to the state that
/// is given last for it, and no other block.
pub proof fn sections_change_block_by_block(
    t: TerrainView,
    section: BlockPos,
    states: Seq<SectionBlock>,
    at: BlockPos,
)
    ensures
        ({
            let u = t.change_section(section, states);
            &&& match last_block_at(section, states, at) {
                Some(state) => u.updates.contains_key(at) && u.updates[at].1 == (
                PacketView::BlockUpdate { pos: at, state }),
                None => entity_laws::found(u.updates, at) == entity_laws::found(t.updates, at),
            }
            &&& u.block_entities == t.block_entities && u.light == t.light && u.biomes == t.biomes
        }),
    decreases states.len(),
{
    if states.len() > 0 {
        sections_change_block_by_block(t, section, states.drop_last(), at);
    }
}

/// A frame that is read as a change of many blocks is taken as one.
pub proof fn section_changes_are_taken(
    w: WorldView,
    f: FrameView,
    now: u64,
    section: BlockPos,
    states: Vec<SectionBlock>,
)
    ensures
        w.observe(f, GamePacket::SectionBlocksUpdate { section, states }, now).terrain
            == w.terrain.change_section(section, states@),
{
    stages::parts_change_on_their_own(
        w,
        f,
        GamePacket::SectionBlocksUpdate { section, states },
        now,
    );
}

/// A chunk that is sent anew or forgotten takes its changes with it; so the
/// terrain holds no change of a chunk from before that chunk was sent. Other
/// frames leave the terrain alone.
pub proof fn chunks_take_their_changes_with_them(w: WorldView, f: FrameView, now: u64)
    ensures
        ({
            let t = w.observe(f, GamePacket::Opaque, now).terrain;
            let sent = f.packet_id == 45 && f.body.len() >= 8;
            let forgotten = f.packet_id == 37 && f.body.len() >= 8;
            &&& sent ==> t == w.terrain.forget_chunk(
                wire::signed(wire::be_u32(f.body, 0)),
                wire::signed(wire::be_u32(f.body, 4)),
            )
            &&& forgotten ==> t == w.terrain.forget_chunk(
                wire::signed(wire::be_u32(f.body, 4)),
                wire::signed(wire::be_u32(f.body, 0)),
            )
            &&& !sent && !forgotten ==> t == w.terrain
        }),
{
}

/// The chunks of some biome packets, one after the other.
pub open spec fn biomes_told(r: Seq<PacketView>) -> Seq<Seq<u8>>
    decreases r.len(),
{
    if r.len() == 0 {
        Seq::empty()
    } else {
        (match r[0] {
            PacketView::ChunksBiomes { chunks } => chunks,
            _ => Seq::empty(),
        }) + biomes_told(r.skip(1))
    }
}

/// The biomes of all chunks are told, in order, each once, in packets that are
/// not empty and not too large.
pub proof fn biomes_are_told_in_batches(chunks: Seq<Seq<u8>>)
    ensures
        biomes_told(TerrainView::biome_batches(chunks)) == chunks,
        forall|i: int|
            0 <= i < TerrainView::biome_batches(chunks).len() ==> (
            #[trigger] TerrainView::biome_batches(chunks)[i] matches PacketView::ChunksBiomes {
                chunks: some,
            } && 0 < some.len() <= 256),
    decreases chunks.len(),
{
    let r = TerrainView::biome_batches(chunks);
    if chunks.len() == 0 {
    } else if chunks.len() <= 256 {
        assert(r.skip(1) =~= Seq::<PacketView>::empty());
        assert(chunks + Seq::<Seq<u8>>::empty() =~= chunks);
        assert(biomes_told(r.skip(1)) =~= Seq::<Seq<u8>>::empty());
    } else {
        let rest = chunks.skip(256);
        biomes_are_told_in_batches(rest);
        let more = TerrainView::biome_batches(rest);
        assert(r.skip(1) =~= more);
        assert(chunks.take(256) + rest =~= chunks);
        assert forall|i: int| 0 <= i < r.len() implies (
        #[trigger] r[i] matches PacketView::ChunksBiomes { chunks: some } && 0 < some.len()
            <= 256) by {
            if i > 0 {
                assert(r[i] == more[i - 1]);
            }
        }
    }
}

/// What is known of the terrain is finite.
pub open spec fn terrain_finite(t: TerrainView) -> bool {
    &&& t.updates.dom().finite()
    &&& t.block_entities.dom().finite()
    &&& t.biomes.dom().finite()
    &&& t.light.dom().finite()
}

/// A fresh client is told all that changed in the terrain: biomes, light, every
/// changed block and what blocks hold.
pub proof fn the_whole_terrain_is_told(t: TerrainView, at: BlockPos, chunk: (i32, i32))
    requires
        terrain_finite(t),
        t.updates.dom().len() <= usize::MAX,
        t.block_entities.dom().len() <= usize::MAX,
    ensures
        ({
            let r = t.replay();
            &&& inventory_laws::holds_all(
                r,
                TerrainView::biome_batches(
                    table::values_in_order::<(i32, i32), Seq<u8>>(t.biomes),
                ),
            )
            &&& t.biomes.contains_key(chunk) ==> table::values_in_order::<(i32, i32), Seq<u8>>(
                t.biomes,
            ).contains(t.biomes[chunk])
            &&& t.light.contains_key(chunk) ==> r.contains(PacketView::Raw(t.light[chunk]))
            &&& inventory_laws::holds_all(r, t.changes())
        }),
{
    let a = TerrainView::biome_batches(table::values_in_order::<(i32, i32), Seq<u8>>(t.biomes));
    let b = packet::raws(table::values_in_order::<(i32, i32), FrameView>(t.light));
    let c = t.changes();
    let r = t.replay();
    entity_laws::lists_hold_the_entries::<(i32, i32), Seq<u8>>(t.biomes);
    inventory_laws::held_within(Seq::empty(), a, b + c);
    assert(r =~= Seq::<PacketView>::empty() + a + (b + c));
    inventory_laws::held_within(a + b, c, Seq::empty());
    assert(r =~= a + b + c + Seq::<PacketView>::empty());
    if t.light.contains_key(chunk) {
        entity_laws::frames_told::<(i32, i32)>(t.light, chunk);
        let i = choose|i: int| 0 <= i < b.len() && #[trigger] b[i] == PacketView::Raw(
            t.light[chunk],
        );
        assert(r[a.len() + i] == b[i]);
    }
}

/// A finite map lists as many keys as it has.
pub proof fn lists_are_as_long_as_the_map<K: table::Key, W>(m: Map<K::V, W>)
    requires
        m.dom().finite(),
    ensures
        table::in_order::<K, W>(m).len() == m.dom().len(),
{
    table::in_order_lists::<K, W>(m);
    let order = table::in_order::<K, W>(m);
    assert(order.no_duplicates()) by {
        assert forall|i: int, j: int|
            0 <= i < order.len() && 0 <= j < order.len() && i != j implies order[i] != order[j] by {
            K::below_irreflexive(order[i]);
            if i < j {
                assert(K::below(order[i], order[j]));
            } else {
                assert(K::below(order[j], order[i]));
            }
        }
    }
    order.unique_seq_to_set();
    assert(order.to_set() =~= m.dom()) by {
        assert forall|k: K::V| order.to_set().contains(k) <==> m.dom().contains(k) by {
            assert(m.contains_key(k) <==> order.contains(k));
        }
    }
}

/// Of two changes the one that carries the lower number is told first.
pub open spec fn told_before(r: Seq<PacketView>, a: (u64, PacketView), b: (u64, PacketView)) -> bool {
    exists|m: int, n: int|
        #![trigger r[m], r[n]]
        0 <= m < r.len() && 0 <= n < r.len() && r[m] == a.1 && r[n] == b.1 && (a.0 < b.0 ==> m < n)
            && (b.0 < a.0 ==> n < m)
}

proof fn places_told(
    a: Seq<(u64, PacketView)>,
    b: Seq<(u64, PacketView)>,
    x: arrival::Place,
    y: arrival::Place,
)
    requires
        arrival::places(a, b).contains_key(x),
        arrival::places(a, b).contains_key(y),
    ensures
        told_before(
            arrival::by_number(a, b),
            (x.0, place_holds(a, b, x)),
            (y.0, place_holds(a, b, y)),
        ),
{
    let m = arrival::places(a, b);
    arrival::places_finite(a, b);
    table::in_order_lists::<arrival::Place, ()>(m);
    let order = table::in_order::<arrival::Place, ()>(m);
    assert(order.contains(x) && order.contains(y));
    let p = choose|p: int| 0 <= p < order.len() && order[p] == x;
    let q = choose|q: int| 0 <= q < order.len() && order[q] == y;
    let r = arrival::by_number(a, b);
    assert(r[p] == place_holds(a, b, x));
    assert(r[q] == place_holds(a, b, y));
    if p < q {
        assert(<arrival::Place as table::Key>::below(order[p], order[q]));
    } else if q < p {
        assert(<arrival::Place as table::Key>::below(order[q], order[p]));
    }
}

/// What stands at a place.
spec fn place_holds(
    a: Seq<(u64, PacketView)>,
    b: Seq<(u64, PacketView)>,
    x: arrival::Place,
) -> PacketView {
    if x.1.0 == 0 {
        a[x.1.1 as int].1
    } else {
        b[x.1.1 as int].1
    }
}

/// Every change of a block, and of what a block holds, is told, and any two of
/// them in the order in which they came.
pub proof fn changes_of_blocks_are_told_in_order(t: TerrainView, at: BlockPos, other: BlockPos)
    requires
        t.updates.dom().finite(),
        t.block_entities.dom().finite(),
        t.updates.dom().len() <= usize::MAX,
        t.block_entities.dom().len() <= usize::MAX,
    ensures
        t.updates.contains_key(at) && t.updates.contains_key(other) ==> told_before(
            t.changes(),
            t.updates[at],
            t.updates[other],
        ),
        t.block_entities.contains_key(at) && t.block_entities.contains_key(other) ==> told_before(
            t.changes(),
            t.block_entities[at],
            t.block_entities[other],
        ),
        t.updates.contains_key(at) && t.block_entities.contains_key(other) ==> told_before(
            t.changes(),
            t.updates[at],
            t.block_entities[other],
        ),
{
    let a = table::values_in_order::<BlockPos, (u64, PacketView)>(t.updates);
    let b = table::values_in_order::<BlockPos, (u64, PacketView)>(t.block_entities);
    lists_are_as_long_as_the_map::<BlockPos, (u64, PacketView)>(t.updates);
    lists_are_as_long_as_the_map::<BlockPos, (u64, PacketView)>(t.block_entities);
    entity_laws::lists_hold_the_entries::<BlockPos, (u64, PacketView)>(t.updates);
    entity_laws::lists_hold_the_entries::<BlockPos, (u64, PacketView)>(t.block_entities);
    if t.updates.contains_key(at) {
        let i = choose|i: int| 0 <= i < a.len() && a[i] == t.updates[at];
        let x: arrival::Place = (a[i].0, (0u8, i as usize));
        assert(arrival::places(a, b).contains_key(x));
        if t.updates.contains_key(other) {
            let j = choose|j: int| 0 <= j < a.len() && a[j] == t.updates[other];
            let y: arrival::Place = (a[j].0, (0u8, j as usize));
            assert(arrival::places(a, b).contains_key(y));
            places_told(a, b, x, y);
        }
        if t.block_entities.contains_key(other) {
            let j = choose|j: int| 0 <= j < b.len() && b[j] == t.block_entities[other];
            let y: arrival::Place = (b[j].0, (1u8, j as usize));
            assert(arrival::places(a, b).contains_key(y));
            places_told(a, b, x, y);
        }
    }
    if t.block_entities.contains_key(at) && t.block_entities.contains_key(other) {
        let i = choose|i: int| 0 <= i < b.len() && b[i] == t.block_entities[at];
        let x: arrival::Place = (b[i].0, (1u8, i as usize));
        let j = choose|j: int| 0 <= j < b.len() && b[j] == t.block_entities[other];
        let y: arrival::Place = (b[j].0, (1u8, j as usize));
        assert(arrival::places(a, b).contains_key(x) && arrival::places(a, b).contains_key(y));
        places_told(a, b, x, y);
    }
}

/// The number of every slot change that is kept has been given out.
pub open spec fn slots_numbered(h: HudView) -> bool {
    forall|slot: u16| #[trigger] h.slots.contains_key(slot) ==> h.slots[slot].0 <= h.sequence
}

/// A slot change gets a higher number than any before it since the last full
/// content, until the numbers run out. So later changes are told later.
pub proof fn later_slot_changes_have_higher_numbers(
    h: HudView,
    container: i32,
    slot: u16,
    other: u16,
    item: Seq<u8>,
    items: Seq<Seq<u8>>,
    f: FrameView,
)
    requires
        slots_numbered(h),
        h.sequence < u64::MAX,
    ensures
        slots_numbered(HudView::empty()),
        slots_numbered(h.fill(container, items, f)),
        slots_numbered(h.put(container, slot, item, f)),
        container == 0 || container == -2 ==> ({
            let t = h.put(container, slot, item, f);
            other != slot && t.slots.contains_key(other) ==> t.slots[other].0 < t.slots[slot].0
        }),
{
}

/// Every slot change since the last full content is told, and any two of them in
/// the order in which they came.
pub proof fn slot_changes_are_told_in_order(h: HudView, slot: u16, other: u16)
    requires
        h.slots.dom().finite(),
        h.slots.dom().len() <= usize::MAX,
        h.slots.contains_key(slot),
        h.slots.contains_key(other),
    ensures
        told_before(h.slot_packets(), h.slots[slot], h.slots[other]),
{
    let a = table::values_in_order::<u16, (u64, PacketView)>(h.slots);
    let b = Seq::<(u64, PacketView)>::empty();
    lists_are_as_long_as_the_map::<u16, (u64, PacketView)>(h.slots);
    entity_laws::lists_hold_the_entries::<u16, (u64, PacketView)>(h.slots);
    let i = choose|i: int| 0 <= i < a.len() && a[i] == h.slots[slot];
    let x: arrival::Place = (a[i].0, (0u8, i as usize));
    let j = choose|j: int| 0 <= j < a.len() && a[j] == h.slots[other];
    let y: arrival::Place = (a[j].0, (0u8, j as usize));
    assert(arrival::places(a, b).contains_key(x) && arrival::places(a, b).contains_key(y));
    places_told(a, b, x, y);
}

// The world at large.

/// One for a frame that is there.
pub open spec fn one_if(f: Option<FrameView>) -> nat {
    if f is Some {
        1
    } else {
        0
    }
}

/// The border of a world of which the server has set none: as wide as the world,
/// round the origin, with the usual warnings.
pub open spec fn usual_border(now: u64) -> ambience::BorderState {
    ambience::BorderState {
        border: Border {
            center_x: 0,
            center_z: 0,
            old_size: 0x418c9c3700000000,
            new_size: 0x418c9c3700000000,
            lerp_millis: 0,
            absolute_max_size: 29999984,
            warning_blocks: 5,
            warning_time: 15,
        },
        started: now,
    }
}

/// The border is as it was told last: whole, or its centre, size or warnings
/// alone, with the rest as it was, or as usual where none was set. Only a new
/// size starts a resizing over.
pub proof fn the_border_is_as_it_was_told_last(
    w: WorldView,
    f: FrameView,
    p: GamePacket,
    now: u64,
)
    requires
        !(p is Opaque),
    ensures
        ({
            let a = match w.ambience.border {
                Some(b) => b,
                None => usual_border(now),
            };
            let t = w.observe(f, p, now).ambience;
            match p {
                GamePacket::InitializeBorder(border) => t.border == Some(
                    ambience::BorderState { border, started: now },
                ),
                GamePacket::SetBorderCenter { x, z } => t.border == Some(
                    ambience::BorderState {
                        border: Border { center_x: x, center_z: z, ..a.border },
                        started: a.started,
                    },
                ),
                GamePacket::SetBorderSize { size } => t.border == Some(
                    ambience::BorderState {
                        border: Border {
                            old_size: size,
                            new_size: size,
                            lerp_millis: 0,
                            ..a.border
                        },
                        started: now,
                    },
                ),
                GamePacket::SetBorderLerpSize { old_size, new_size, lerp_millis } => t.border
                    == Some(
                    ambience::BorderState {
                        border: Border { old_size, new_size, lerp_millis, ..a.border },
                        started: now,
                    },
                ),
                GamePacket::SetBorderWarningDelay { warning_delay } => t.border == Some(
                    ambience::BorderState {
                        border: Border { warning_time: warning_delay, ..a.border },
                        started: a.started,
                    },
                ),
                GamePacket::SetBorderWarningDistance { warning_blocks } => t.border == Some(
                    ambience::BorderState {
                        border: Border { warning_blocks, ..a.border },
                        started: a.started,
                    },
                ),
                _ => t.border == w.ambience.border,
            }
        }),
        ({
            let t = w.observe(f, p, now).ambience;
            &&& t.time == w.ambience.time && t.rain == w.ambience.rain
            &&& t.rain_level == w.ambience.rain_level && t.thunder_level
                == w.ambience.thunder_level
            &&& t.tab_list == w.ambience.tab_list && t.difficulty == w.ambience.difficulty
            &&& t.game_rules == w.ambience.game_rules
            &&& t.simulation_distance == w.ambience.simulation_distance
        }),
{
    stages::parts_change_on_their_own(w, f, p, now);
    border_stage(w, f, p, now);
}

proof fn border_stage(w: WorldView, f: FrameView, p: GamePacket, now: u64)
    ensures
        ({
            let t = w.observe_place(f, p, now).ambience;
            let a = w.ambience;
            &&& t == (match p {
                GamePacket::InitializeBorder(border) => a.set_border(border, now),
                GamePacket::SetBorderCenter { x, z } => a.center_border(x, z, now),
                GamePacket::SetBorderSize { size } => a.resize_border(size, size, 0, now),
                GamePacket::SetBorderLerpSize { old_size, new_size, lerp_millis } =>
                    a.resize_border(old_size, new_size, lerp_millis, now),
                GamePacket::SetBorderWarningDelay { warning_delay } => a.warn_time(
                    warning_delay,
                    now,
                ),
                GamePacket::SetBorderWarningDistance { warning_blocks } => a.warn_blocks(
                    warning_blocks,
                    now,
                ),
                _ => a,
            })
        }),
{
}

/// The border is told with the time that its resizing has taken, and what is
/// left of it. A world without one is told of none.
pub proof fn the_border_is_told_as_it_stands(a: AmbienceView, now: u64)
    ensures
        match a.border {
            Some(b) => {
                &&& a.border_packets(now).len() == 1
                &&& a.border_packets(now)[0] matches PacketView::InitializeBorder {
                    border,
                    elapsed_millis,
                    remaining_millis,
                } && {
                    &&& border == b.border
                    &&& elapsed_millis == clock::millis_since(b.started, now)
                    &&& remaining_millis + elapsed_millis == border.lerp_millis || (
                    elapsed_millis >= border.lerp_millis && remaining_millis == 0)
                }
            },
            None => a.border_packets(now).len() == 0,
        },
{
}

/// Difficulty, rules, simulation distance, border, time and weather are all
/// told, each as it was told last.
pub proof fn the_whole_setting_is_told(a: AmbienceView, now: u64)
    ensures
        ({
            let r = a.setting(now);
            &&& (a.difficulty matches Some(f) ==> r.contains(PacketView::Raw(f)))
            &&& (a.game_rules matches Some(f) ==> r.contains(PacketView::Raw(f)))
            &&& (a.simulation_distance matches Some(f) ==> r.contains(PacketView::Raw(f)))
            &&& inventory_laws::holds_all(r, a.border_packets(now))
            &&& (a.time matches Some(f) ==> r.last() == PacketView::Raw(f))
            &&& r.len() == one_if(a.difficulty) + one_if(a.game_rules) + one_if(
                a.simulation_distance,
            ) + a.border_packets(now).len() + one_if(a.time)
        }),
        ({
            let r = a.weather_packets();
            &&& (a.rain matches Some(f) ==> r.contains(PacketView::Raw(f)))
            &&& (a.rain_level matches Some(f) ==> r.contains(PacketView::Raw(f)))
            &&& (a.thunder_level matches Some(f) ==> r.contains(PacketView::Raw(f)))
            &&& r.len() == one_if(a.rain) + one_if(a.rain_level) + one_if(a.thunder_level)
        }),
{
    let r = a.setting(now);
    let x = packet::raw(a.difficulty);
    let y = packet::raw(a.game_rules);
    let z = packet::raw(a.simulation_distance);
    let b = a.border_packets(now);
    let t = packet::raw(a.time);
    inventory_laws::held_within(x + y + z, b, t);
    assert(r =~= x + y + z + b + t);
    if a.difficulty is Some {
        assert(r[0] == x[0]);
    }
    if a.game_rules is Some {
        assert(r[x.len() as int] == y[0]);
    }
    if a.simulation_distance is Some {
        assert(r[(x.len() + y.len()) as int] == z[0]);
    }
    let w = a.weather_packets();
    let u = packet::raw(a.rain);
    let v = packet::raw(a.rain_level);
    let q = packet::raw(a.thunder_level);
    if a.rain is Some {
        assert(w[0] == u[0]);
    }
    if a.rain_level is Some {
        assert(w[u.len() as int] == v[0]);
    }
    if a.thunder_level is Some {
        assert(w[(u.len() + v.len()) as int] == q[0]);
    }
}

/// A fresh viewer is told of every part of the world: the terrain, who is there,
/// the entities, the setting, the player's own state, experience, health, the
/// inventory, maps, cooldowns, scoreboards, the text round the tab list, boss
/// bars and the weather; and of nothing else.
pub proof fn every_part_of_the_world_is_told(w: WorldView, now: u64)
    ensures
        ({
            let r = w.replay(now);
            &&& inventory_laws::holds_all(r, w.terrain.replay())
            &&& inventory_laws::holds_all(r, w.players.replay())
            &&& inventory_laws::holds_all(r, w.entities.replay())
            &&& inventory_laws::holds_all(r, w.ambience.setting(now))
            &&& inventory_laws::holds_all(r, w.hud.self_packets())
            &&& inventory_laws::holds_all(r, packet::raw(w.hud.experience))
            &&& inventory_laws::holds_all(r, packet::raw(w.hud.health))
            &&& inventory_laws::holds_all(r, w.hud.inventory_packets())
            &&& inventory_laws::holds_all(r, maps::map_packets(w.maps))
            &&& inventory_laws::holds_all(r, w.hud.cooldown_packets(now))
            &&& inventory_laws::holds_all(r, w.scoreboard.replay())
            &&& inventory_laws::holds_all(r, packet::raw(w.ambience.tab_list))
            &&& inventory_laws::holds_all(r, bossbar::bar_packets(w.boss_bars))
            &&& inventory_laws::holds_all(r, w.ambience.weather_packets())
            &&& r.len() == w.terrain.replay().len() + w.players.replay().len()
                + w.entities.replay().len() + w.ambience.setting(now).len()
                + w.hud.self_packets().len() + one_if(w.hud.experience) + one_if(w.hud.health)
                + w.hud.inventory_packets().len() + maps::map_packets(w.maps).len()
                + w.hud.cooldown_packets(now).len() + w.scoreboard.replay().len() + one_if(
                w.ambience.tab_list,
            ) + bossbar::bar_packets(w.boss_bars).len() + w.ambience.weather_packets().len()
        }),
{
    let p0 = w.terrain.replay();
    let p1 = w.players.replay();
    let p2 = w.entities.replay();
    let p3 = w.ambience.setting(now);
    let p4 = w.hud.self_packets();
    let x = packet::raw(w.hud.experience);
    let y = packet::raw(w.hud.health);
    let p5 = x + y;
    let p6 = w.hud.inventory_packets();
    let p7 = maps::map_packets(w.maps);
    let p8 = w.hud.cooldown_packets(now);
    let p9 = w.scoreboard.replay();
    let p10 = packet::raw(w.ambience.tab_list);
    let p11 = bossbar::bar_packets(w.boss_bars);
    let p12 = w.ambience.weather_packets();
    let none = Seq::<PacketView>::empty();
    let s0 = p0;
    let s1 = s0 + p1;
    let s2 = s1 + p2;
    let s3 = s2 + p3;
    let s4 = s3 + p4;
    let s5 = s4 + p5;
    let s6 = s5 + p6;
    let s7 = s6 + p7;
    let s8 = s7 + p8;
    let s9 = s8 + p9;
    let s10 = s9 + p10;
    let s11 = s10 + p11;
    let s12 = s11 + p12;
    assert(s12 == w.replay(now));
    held_at_end(none, p0);
    assert(none + p0 =~= s0);
    held_at_end(s0, p1);
    held_at_end(s1, p2);
    held_at_end(s2, p3);
    held_at_end(s3, p4);
    held_at_end(s4, p5);
    held_in_part(s4, x, y);
    held_at_end(s5, p6);
    held_at_end(s6, p7);
    held_at_end(s7, p8);
    held_at_end(s8, p9);
    held_at_end(s9, p10);
    held_at_end(s10, p11);
    held_at_end(s11, p12);
    held_longer(s0, p1);
    held_longer(s1, p2);
    held_longer(s2, p3);
    held_longer(s3, p4);
    held_longer(s4, p5);
    held_longer(s5, p6);
    held_longer(s6, p7);
    held_longer(s7, p8);
    held_longer(s8, p9);
    held_longer(s9, p10);
    held_longer(s10, p11);
    held_longer(s11, p12);
}

proof fn held_at_end(a: Seq<PacketView>, b: Seq<PacketView>)
    ensures
        inventory_laws::holds_all(a + b, b),
{
    inventory_laws::held_within(a, b, Seq::empty());
    assert(a + b + Seq::<PacketView>::empty() =~= a + b);
}

proof fn held_in_part(a: Seq<PacketView>, x: Seq<PacketView>, y: Seq<PacketView>)
    ensures
        inventory_laws::holds_all(a + (x + y), x),
        inventory_laws::holds_all(a + (x + y), y),
{
    inventory_laws::held_within(a, x, y);
    assert(a + x + y =~= a + (x + y));
    held_at_end(a + x, y);
    assert((a + x) + y =~= a + (x + y));
}

/// What is held stays held when more follows.
proof fn held_longer(a: Seq<PacketView>, b: Seq<PacketView>)
    ensures
        forall|part: Seq<PacketView>| #[trigger]
            inventory_laws::holds_all(a, part) ==> inventory_laws::holds_all(a + b, part),
{
    assert forall|part: Seq<PacketView>| #[trigger]
        inventory_laws::holds_all(a, part) implies inventory_laws::holds_all(a + b, part) by {
        let at = choose|at: int|
            0 <= at && at + part.len() <= a.len() && #[trigger] a.subrange(at, at + part.len())
                == part;
        assert((a + b).subrange(at, at + part.len()) =~= a.subrange(at, at + part.len()));
    }
}

} // verus!
