//! What holds over any run of frames from the server.

use vstd::prelude::*;

use crate::bossbar;
use crate::cache::CacheView;
use crate::events::{ActionView, ClientId};
use crate::filing;
use crate::hud::HudView;
use crate::ids;
use crate::packet;
use crate::packet::{
    BlockPos, BossBarView, BossOperation, GamePacket, PacketView, PlayerInfoActions,
    PlayerInfoView,
};
use crate::plugin::FrameView;
use crate::reflect;
use crate::reflect::BotPose;
use crate::roster::RosterView;
use crate::session::{SessionOpts, SessionView};
use crate::session_laws;
use crate::snapshot::WorldView;
use crate::stages;
use crate::table;
use crate::table::Key;
use crate::views;
use crate::wire;

verus! {

/// A frame of the server, what it was read as, and when it came.
pub struct Arrived {
    pub frame: FrameView,
    pub packet: GamePacket,
    pub now: u64,
}

/// Each frame of a run was read as a packet of its own kind, or not at all.
pub open spec fn all_fit(run: Seq<Arrived>) -> bool {
    forall|i: int| 0 <= i < run.len() ==> packet::fits((#[trigger] run[i]).frame, run[i].packet)
}

/// The session after one more frame.
#[verifier::opaque]
pub open spec fn next(s: SessionView, a: Arrived) -> SessionView {
    s.on_upstream_frame(a.frame, a.packet, a.now)
}

/// The session after a run of frames.
pub open spec fn after(s: SessionView, run: Seq<Arrived>) -> SessionView
    decreases run.len(),
{
    if run.len() == 0 {
        s
    } else {
        next(after(s, run.drop_last()), run.last())
    }
}

/// The world after a run of frames of the game state.
pub open spec fn observed(w: WorldView, run: Seq<Arrived>) -> WorldView
    decreases run.len(),
{
    if run.len() == 0 {
        w
    } else {
        let a = run.last();
        observed(w, run.drop_last()).observe(a.frame, a.packet, a.now)
    }
}

/// Frame `i` of a run comes in the game state.
pub open spec fn in_game_at(s: SessionView, run: Seq<Arrived>, i: int) -> bool {
    after(s, run.take(i)).in_game()
}

/// What came before a frame of a run is the same whatever comes after it.
proof fn same_before(s: SessionView, run: Seq<Arrived>, i: int)
    requires
        0 <= i < run.len(),
    ensures
        run.drop_last().take(i) == run.take(i),
        in_game_at(s, run.drop_last(), i) == in_game_at(s, run, i),
{
    assert(run.drop_last().take(i) =~= run.take(i));
}

// Chunks.

/// Frame `i` brings the chunk `key`.
pub open spec fn brings(s: SessionView, run: Seq<Arrived>, i: int, key: (i32, i32)) -> bool {
    &&& in_game_at(s, run, i)
    &&& run[i].frame.packet_id == ids::CB_GAME_LEVEL_CHUNK_WITH_LIGHT
    &&& ids::chunk_at(run[i].frame.body) == Some(key)
}

/// Frame `i` takes the chunk `key` away: it is forgotten, or the dimension
/// changes, or the server reconfigures.
pub open spec fn takes(s: SessionView, run: Seq<Arrived>, i: int, key: (i32, i32)) -> bool {
    &&& in_game_at(s, run, i)
    &&& {
        ||| run[i].frame.packet_id == ids::CB_GAME_FORGET_LEVEL_CHUNK && ids::forgotten_chunk(
            run[i].frame.body,
        ) == Some(key)
        ||| run[i].frame.packet_id == ids::CB_GAME_RESPAWN
        ||| run[i].frame.packet_id == ids::CB_GAME_START_CONFIGURATION
    }
}

/// Frame `i` brings the chunk `key`, and no later frame brings it anew or takes
/// it away.
pub open spec fn brings_last(s: SessionView, run: Seq<Arrived>, i: int, key: (i32, i32)) -> bool {
    &&& 0 <= i < run.len()
    &&& brings(s, run, i, key)
    &&& forall|j: int|
        i < j < run.len() ==> !(#[trigger] brings(s, run, j, key)) && !takes(s, run, j, key)
}

/// A packet that brings the chunk `key`.
pub open spec fn is_chunk(p: PacketView, key: (i32, i32)) -> bool {
    p matches PacketView::Raw(f) && f.packet_id == ids::CB_GAME_LEVEL_CHUNK_WITH_LIGHT
        && ids::chunk_at(f.body) == Some(key)
}

/// One of these packets brings the chunk `key`, by this frame.
pub open spec fn one_chunk(r: Seq<PacketView>, key: (i32, i32), f: FrameView) -> bool {
    exists|k: int|
        0 <= k < r.len() && #[trigger] r[k] == PacketView::Raw(f) && forall|i: int|
            0 <= i < r.len() && is_chunk(#[trigger] r[i], key) ==> i == k
}

/// None of these packets brings the chunk `key`.
pub open spec fn no_chunk(r: Seq<PacketView>, key: (i32, i32)) -> bool {
    forall|i: int| 0 <= i < r.len() ==> !is_chunk(#[trigger] r[i], key)
}

/// What is kept for joining viewers is filed: each chunk stands under its own
/// coordinates, and there are no chunks elsewhere.
pub open spec fn cache_filed(c: CacheView) -> bool {
    &&& filing::filed(c.world)
    &&& filing::plain_option(c.login)
    &&& filing::plain_option(c.last_position)
    &&& filing::plain_option(c.respawn)
    &&& filing::plain_option(c.spawn_pos)
    &&& filing::plain_option(c.chunk_center)
    &&& filing::plain_option(c.chunk_radius)
    &&& c.chunks.dom().finite()
    &&& forall|key: (i32, i32)| #[trigger]
        c.chunks.contains_key(key) ==> c.chunks[key].packet_id
            == ids::CB_GAME_LEVEL_CHUNK_WITH_LIGHT && ids::chunk_at(c.chunks[key].body) == Some(
            key,
        )
}

/// The cache is filed at the start of a session, and holds no chunk.
pub proof fn a_session_starts_filed(
    id: ClientId,
    username: Seq<char>,
    uuid: u128,
    bot_uuid: u128,
    bot_name: Seq<char>,
    opts: SessionOpts,
)
    ensures
        ({
            let s = SessionView::started(id, username, uuid, bot_uuid, bot_name, opts);
            cache_filed(s.cache) && s.cache.chunks == Map::<(i32, i32), FrameView>::empty()
                && !s.forward_next_position
        }),
{
    filing::a_new_world_is_filed();
}

proof fn flush_keeps_cache(s: SessionView, order: Seq<ClientId>, n: int)
    ensures
        s.flush_first(order, n).cache == s.cache,
    decreases n,
{
    if n > 0 {
        flush_keeps_cache(s, order, n - 1);
    }
}

/// The cache after a frame.
spec fn next_cache(s: SessionView, a: Arrived) -> CacheView {
    let f = a.frame;
    if !s.in_game() {
        if f.packet_id == ids::CB_CONFIG_FINISH || f.packet_id == ids::CB_CONFIG_KEEP_ALIVE
            || f.packet_id == ids::CB_CONFIG_PING {
            s.cache
        } else {
            CacheView { config_frames: s.cache.config_frames.push(f), ..s.cache }
        }
    } else {
        let c = CacheView {
            world: s.cache.world.observe(f, a.packet, a.now),
            ..s.cache
        }.keep(f);
        if f.packet_id == ids::CB_GAME_LOGIN {
            match a.packet {
                GamePacket::Login { player_id, .. } => CacheView {
                    world: c.world.set_player_entity_id(player_id),
                    ..c
                },
                _ => c,
            }
        } else if f.packet_id == ids::CB_GAME_RESPAWN {
            c.on_respawn(
                f,
                match a.packet {
                    GamePacket::Respawn { data_to_keep } => data_to_keep,
                    _ => 0,
                },
            )
        } else if f.packet_id == ids::CB_GAME_START_CONFIGURATION {
            CacheView::empty(s.bot_uuid)
        } else {
            c
        }
    }
}

proof fn cache_follows(s: SessionView, a: Arrived)
    ensures
        next(s, a).cache == next_cache(s, a),
{
    reveal(next);
    let f = a.frame;
    let t = s.observe_clientbound(f, a.packet, a.now);
    assert(s.on_upstream_frame(f, a.packet, a.now).cache == t.cache);
    if s.in_game() && f.packet_id == ids::CB_GAME_LOGIN {
        let guarded = s.guard(f);
        let kept = SessionView {
            cache: CacheView {
                world: guarded.cache.world.observe(f, a.packet, a.now),
                ..guarded.cache
            }.keep(f),
            ..guarded
        };
        let (mode, player): (u8, Option<i32>) = match a.packet {
            GamePacket::Login { game_mode, player_id } => (game_mode, Some(player_id)),
            _ => (0, None),
        };
        let known = SessionView {
            real_game_mode: mode,
            real_player_id: player,
            cache: match player {
                Some(id) => CacheView {
                    world: kept.cache.world.set_player_entity_id(id),
                    ..kept.cache
                },
                None => kept.cache,
            },
            respawn_entity_pending: true,
            forward_next_position: true,
            ..kept
        };
        flush_keeps_cache(known, known.order(), known.order().len() as int);
        assert(t.cache == known.cache);
    }
}

proof fn keep_filed(c: CacheView, f: FrameView)
    requires
        cache_filed(c),
    ensures
        cache_filed(c.keep(f)),
{
    let d = c.keep(f);
    assert forall|key: (i32, i32)| #[trigger]
        d.chunks.contains_key(key) implies d.chunks[key].packet_id
        == ids::CB_GAME_LEVEL_CHUNK_WITH_LIGHT && ids::chunk_at(d.chunks[key].body) == Some(
        key,
    ) by {
        if !(f.packet_id == ids::CB_GAME_LEVEL_CHUNK_WITH_LIGHT && ids::chunk_at(f.body) == Some(
            key,
        )) {
            assert(c.chunks.contains_key(key));
        }
    }
}

/// A frame of the server leaves the cache filed.
pub proof fn the_cache_stays_filed(s: SessionView, a: Arrived)
    requires
        cache_filed(s.cache),
        packet::fits(a.frame, a.packet),
    ensures
        cache_filed(next(s, a).cache),
{
    cache_follows(s, a);
    filing::the_world_stays_filed(s.cache.world, a.frame, a.packet, a.now);
    filing::a_new_world_is_filed();
    if s.in_game() {
        let seen = CacheView {
            world: s.cache.world.observe(a.frame, a.packet, a.now),
            ..s.cache
        };
        keep_filed(seen, a.frame);
        let c = seen.keep(a.frame);
        assert(c.world == seen.world);
        let data_to_keep = match a.packet {
            GamePacket::Respawn { data_to_keep } => data_to_keep,
            _ => 0,
        };
        filing::a_new_dimension_is_filed(c.world, data_to_keep);
    }
}

/// What one frame does to one chunk.
proof fn chunk_step(s: SessionView, a: Arrived, key: (i32, i32))
    ensures
        ({
            let c = s.cache.chunks;
            let d = next(s, a).cache.chunks;
            let f = a.frame;
            if s.in_game() && f.packet_id == ids::CB_GAME_LEVEL_CHUNK_WITH_LIGHT && ids::chunk_at(
                f.body,
            ) == Some(key) {
                d.contains_key(key) && d[key] == f
            } else if s.in_game() && ((f.packet_id == ids::CB_GAME_FORGET_LEVEL_CHUNK
                && ids::forgotten_chunk(f.body) == Some(key)) || f.packet_id
                == ids::CB_GAME_RESPAWN || f.packet_id == ids::CB_GAME_START_CONFIGURATION) {
                !d.contains_key(key)
            } else {
                d.contains_key(key) == c.contains_key(key) && (c.contains_key(key) ==> d[key]
                    == c[key])
            }
        }),
{
    cache_follows(s, a);
}

/// What brought a chunk last did so whatever else came, as long as that does not
/// touch the chunk.
proof fn brought_before(s: SessionView, run: Seq<Arrived>, i: int, key: (i32, i32))
    requires
        run.len() > 0,
        0 <= i < run.len() - 1,
    ensures
        brings_last(s, run, i, key) <==> brings_last(s, run.drop_last(), i, key) && !brings(
            s,
            run,
            run.len() - 1,
            key,
        ) && !takes(s, run, run.len() - 1, key),
{
    let n = run.len() - 1;
    let before = run.drop_last();
    assert forall|j: int| 0 <= j < n implies #[trigger] brings(s, before, j, key) == brings(
        s,
        run,
        j,
        key,
    ) && takes(s, before, j, key) == takes(s, run, j, key) by {
        same_before(s, run, j);
        assert(before[j] == run[j]);
    }
    assert(brings(s, before, i, key) == brings(s, run, i, key));
    if brings_last(s, run, i, key) {
        assert forall|j: int| i < j < before.len() implies !(#[trigger] brings(s, before, j, key))
            && !takes(s, before, j, key) by {
            assert(!brings(s, run, j, key));
        }
        assert(!brings(s, run, n, key));
    }
    if brings_last(s, before, i, key) && !brings(s, run, n, key) && !takes(s, run, n, key) {
        assert forall|j: int| i < j < run.len() implies !(#[trigger] brings(s, run, j, key))
            && !takes(s, run, j, key) by {
            if j < n {
                assert(!brings(s, before, j, key));
            }
        }
    }
}

/// A chunk is kept at the end of a run if and only if the run brought it, and
/// did not take it away after that; it is kept as it came last.
pub proof fn the_latest_chunks_are_kept(s: SessionView, run: Seq<Arrived>, key: (i32, i32))
    requires
        !s.cache.chunks.contains_key(key),
    ensures
        forall|i: int| #[trigger]
            brings_last(s, run, i, key) ==> after(s, run).cache.chunks.contains_key(key) && after(
                s,
                run,
            ).cache.chunks[key] == run[i].frame,
        after(s, run).cache.chunks.contains_key(key) ==> exists|i: int|
            brings_last(s, run, i, key),
    decreases run.len(),
{
    if run.len() > 0 {
        let n = run.len() - 1;
        let before = run.drop_last();
        let t = after(s, before);
        the_latest_chunks_are_kept(s, before, key);
        chunk_step(t, run[n], key);
        assert(run.take(n) =~= before);
        assert(in_game_at(s, run, n) == t.in_game());
        let u = after(s, run).cache.chunks;
        assert(u == next(t, run[n]).cache.chunks);
        assert forall|i: int| #[trigger] brings_last(s, run, i, key) implies u.contains_key(key)
            && u[key] == run[i].frame by {
            if i < n {
                brought_before(s, run, i, key);
                assert(brings_last(s, before, i, key));
                assert(before[i] == run[i]);
            }
        }
        if u.contains_key(key) {
            if brings(s, run, n, key) {
                assert(brings_last(s, run, n, key));
            } else {
                let i = choose|i: int| brings_last(s, before, i, key);
                assert(!takes(s, run, n, key));
                brought_before(s, run, i, key);
                assert(brings_last(s, run, i, key));
            }
        }
    }
}

/// Of every chunk that is kept a joining viewer is sent one packet, and of no
/// other any.
pub proof fn a_chunk_is_replayed_once(c: CacheView, key: (i32, i32), now: u64)
    requires
        cache_filed(c),
    ensures
        c.chunks.contains_key(key) ==> one_chunk(c.join_packets(now), key, c.chunks[key]),
        !c.chunks.contains_key(key) ==> no_chunk(c.join_packets(now), key),
{
    let front = packet::raw(c.login) + packet::raw(c.respawn) + packet::raw(c.spawn_pos)
        + packet::raw(c.last_position) + seq![PacketView::Raw(ids::game_event(13, 0))]
        + packet::raw(c.chunk_radius) + packet::raw(c.chunk_center);
    let chunks = packet::raws(table::values_in_order::<(i32, i32), FrameView>(c.chunks));
    let world = c.world.replay(now);
    assert(c.join_packets(now) == front + chunks + world);
    assert forall|i: int| 0 <= i < front.len() implies !is_chunk(#[trigger] front[i], key) by {
        assert(filing::plain(front[i]));
    }
    assert forall|i: int| 0 <= i < world.len() implies !is_chunk(#[trigger] world[i], key) by {
        filing::the_replay_holds_no_chunks(c.world, now, i);
    }
    chunk_stands(c, front, world, key);
}

proof fn chunk_stands(
    c: CacheView,
    front: Seq<PacketView>,
    world: Seq<PacketView>,
    key: (i32, i32),
)
    requires
        cache_filed(c),
        forall|i: int| 0 <= i < front.len() ==> !is_chunk(#[trigger] front[i], key),
        forall|i: int| 0 <= i < world.len() ==> !is_chunk(#[trigger] world[i], key),
    ensures
        ({
            let r = front + packet::raws(
                table::values_in_order::<(i32, i32), FrameView>(c.chunks),
            ) + world;
            &&& c.chunks.contains_key(key) ==> one_chunk(r, key, c.chunks[key])
            &&& !c.chunks.contains_key(key) ==> no_chunk(r, key)
        }),
{
    let chunks = packet::raws(table::values_in_order::<(i32, i32), FrameView>(c.chunks));
    let r = front + chunks + world;
    let order = table::in_order::<(i32, i32), FrameView>(c.chunks);
    table::in_order_lists::<(i32, i32), FrameView>(c.chunks);
    let n = front.len() as int;
    assert forall|i: int| 0 <= i < r.len() && is_chunk(#[trigger] r[i], key) implies n <= i < n
        + chunks.len() && order[i - n] == key && c.chunks.contains_key(key) by {
        if i < n {
            assert(r[i] == front[i]);
        } else if i >= n + chunks.len() {
            assert(r[i] == world[i - n - chunks.len()]);
        } else {
            assert(r[i] == chunks[i - n]);
            assert(order.contains(order[i - n]));
            assert(c.chunks.contains_key(order[i - n]));
        }
    }
    if c.chunks.contains_key(key) {
        assert(order.contains(key));
        let j = choose|j: int| 0 <= j < order.len() && order[j] == key;
        assert(r[n + j] == chunks[j]);
        assert(r[n + j] == PacketView::Raw(c.chunks[key]));
        assert forall|i: int| 0 <= i < r.len() && is_chunk(#[trigger] r[i], key) implies i == n
            + j by {
            if i < n + j {
                assert(<(i32, i32) as Key>::below(order[i - n], order[j]));
            } else if i > n + j {
                assert(<(i32, i32) as Key>::below(order[j], order[i - n]));
            }
        }
    }
}

proof fn cache_filed_after(s: SessionView, run: Seq<Arrived>)
    requires
        cache_filed(s.cache),
        all_fit(run),
    ensures
        cache_filed(after(s, run).cache),
    decreases run.len(),
{
    if run.len() > 0 {
        let before = run.drop_last();
        assert forall|i: int| 0 <= i < before.len() implies packet::fits(
            (#[trigger] before[i]).frame,
            before[i].packet,
        ) by {
            assert(before[i] == run[i]);
        }
        cache_filed_after(s, before);
        assert(run.last() == run[run.len() - 1]);
        the_cache_stays_filed(after(s, before), run.last());
    }
}

/// Whatever the server sends, a viewer that joins then is sent each chunk that
/// the run brought last and did not take away after that, by one packet, the
/// one that brought it; it is sent no other chunk.
pub proof fn joining_viewers_get_the_latest_chunks(
    s: SessionView,
    run: Seq<Arrived>,
    key: (i32, i32),
    now: u64,
)
    requires
        cache_filed(s.cache),
        !s.cache.chunks.contains_key(key),
        all_fit(run),
    ensures
        forall|i: int| #[trigger]
            brings_last(s, run, i, key) ==> one_chunk(
                after(s, run).cache.join_packets(now),
                key,
                run[i].frame,
            ),
        (forall|i: int| !#[trigger] brings_last(s, run, i, key)) ==> no_chunk(
            after(s, run).cache.join_packets(now),
            key,
        ),
{
    the_latest_chunks_are_kept(s, run, key);
    cache_filed_after(s, run);
    a_chunk_is_replayed_once(after(s, run).cache, key, now);
}

// Frames of which the last one counts.

/// The kinds of frames that are kept whole, of which a joining viewer is sent
/// the last: Login, Respawn, the default spawn, the position, and the radius and
/// the centre of the loaded chunks.
pub open spec fn is_single(kind: u32) -> bool {
    kind == 49 || kind == 82 || kind == 97 || kind == 72 || kind == 95 || kind == 94
}

/// In the game state, a frame `id` makes an earlier frame of this kind stale: it
/// is of the same kind, or the server reconfigures; and what belongs to a
/// dimension, its spawn, the position in it and the centre of the loaded chunks,
/// is stale in the next.
pub open spec fn outdates(id: u32, kind: u32) -> bool {
    ||| id == kind
    ||| id == 118
    ||| id == 82 && (kind == 97 || kind == 72 || kind == 94)
}

/// Frame `j` of a run makes earlier frames of this kind stale.
pub open spec fn outdates_at(s: SessionView, run: Seq<Arrived>, j: int, kind: u32) -> bool {
    in_game_at(s, run, j) && outdates(run[j].frame.packet_id, kind)
}

/// Frame `i` of a run is the last of its kind, and is not stale.
pub open spec fn counts(s: SessionView, run: Seq<Arrived>, i: int, kind: u32) -> bool {
    &&& 0 <= i < run.len()
    &&& in_game_at(s, run, i)
    &&& run[i].frame.packet_id == kind
    &&& forall|j: int| i < j < run.len() ==> !#[trigger] outdates_at(s, run, j, kind)
}

/// Where the cache keeps the last frame of a kind.
spec fn kept_single(c: CacheView, kind: u32) -> Option<FrameView> {
    if kind == 49 {
        c.login
    } else if kind == 82 {
        c.respawn
    } else if kind == 97 {
        c.spawn_pos
    } else if kind == 72 {
        c.last_position
    } else if kind == 95 {
        c.chunk_radius
    } else if kind == 94 {
        c.chunk_center
    } else {
        None
    }
}

/// The cache holds nothing yet of what is kept whole.
pub open spec fn nothing_kept(c: CacheView) -> bool {
    &&& c.login is None && c.respawn is None && c.spawn_pos is None
    &&& c.last_position is None && c.chunk_radius is None && c.chunk_center is None
}

proof fn single_step(s: SessionView, a: Arrived, kind: u32)
    requires
        is_single(kind),
    ensures
        kept_single(next(s, a).cache, kind) == (if !s.in_game() {
            kept_single(s.cache, kind)
        } else if a.frame.packet_id == kind {
            Some(a.frame)
        } else if outdates(a.frame.packet_id, kind) {
            None
        } else {
            kept_single(s.cache, kind)
        }),
{
    cache_follows(s, a);
}

proof fn the_last_is_kept(s: SessionView, run: Seq<Arrived>, kind: u32)
    requires
        nothing_kept(s.cache),
        is_single(kind),
    ensures
        forall|i: int| #[trigger]
            counts(s, run, i, kind) ==> kept_single(after(s, run).cache, kind) == Some(
                run[i].frame,
            ),
        kept_single(after(s, run).cache, kind) is Some ==> exists|i: int|
            counts(s, run, i, kind),
    decreases run.len(),
{
    if run.len() > 0 {
        let n = run.len() - 1;
        let before = run.drop_last();
        let t = after(s, before);
        the_last_is_kept(s, before, kind);
        single_step(t, run[n], kind);
        assert(run.take(n) =~= before);
        assert(in_game_at(s, run, n) == t.in_game());
        assert forall|i: int| 0 <= i < n implies #[trigger] outdates_at(s, before, i, kind)
            == outdates_at(s, run, i, kind) && in_game_at(s, before, i) == in_game_at(
            s,
            run,
            i,
        ) by {
            same_before(s, run, i);
        }
        assert forall|i: int| #[trigger] counts(s, run, i, kind) implies kept_single(
            after(s, run).cache,
            kind,
        ) == Some(run[i].frame) by {
            if i < n {
                assert(outdates_at(s, before, i, kind) == outdates_at(s, run, i, kind));
                assert forall|j: int| i < j < before.len() implies !#[trigger] outdates_at(
                    s,
                    before,
                    j,
                    kind,
                ) by {
                    assert(!outdates_at(s, run, j, kind));
                }
                assert(counts(s, before, i, kind));
                assert(!outdates_at(s, run, n, kind));
            }
        }
        if kept_single(after(s, run).cache, kind) is Some {
            if t.in_game() && run[n].frame.packet_id == kind {
                assert(counts(s, run, n, kind));
            } else {
                let i = choose|i: int| counts(s, before, i, kind);
                assert(outdates_at(s, before, i, kind) == outdates_at(s, run, i, kind));
                assert forall|j: int| i < j < run.len() implies !#[trigger] outdates_at(
                    s,
                    run,
                    j,
                    kind,
                ) by {
                    if j < n {
                        assert(!outdates_at(s, before, j, kind));
                    }
                }
                assert(counts(s, run, i, kind));
            }
        }
    }
}

/// The place of a packet among those with which a client enters a world: who it
/// is, which dimension, where that has its spawn, where the client is, the wait
/// for chunks, and which chunks it may expect.
pub open spec fn entry_rank(p: PacketView) -> int {
    match p {
        PacketView::Raw(f) => if f.packet_id == 49 {
            0
        } else if f.packet_id == 82 {
            1
        } else if f.packet_id == 97 {
            2
        } else if f.packet_id == 72 {
            3
        } else if f.packet_id == 38 && f.body.len() > 0 && f.body[0] == 13 {
            4
        } else if f.packet_id == 95 {
            5
        } else if f.packet_id == 94 {
            6
        } else {
            -1
        },
        _ => -1,
    }
}

/// These packets take a client into a world, each of them once and in this
/// order.
pub open spec fn enters_in_order(r: Seq<PacketView>) -> bool {
    &&& forall|i: int| 0 <= i < r.len() ==> entry_rank(#[trigger] r[i]) >= 0
    &&& forall|i: int, j: int|
        0 <= i < j < r.len() ==> entry_rank(#[trigger] r[i]) < entry_rank(#[trigger] r[j])
}

spec fn ranked_below(r: Seq<PacketView>, k: int) -> bool {
    enters_in_order(r) && forall|i: int| 0 <= i < r.len() ==> entry_rank(#[trigger] r[i]) < k
}

proof fn ranked_next(r: Seq<PacketView>, o: Option<FrameView>, k: int)
    requires
        0 <= k,
        ranked_below(r, k),
        o matches Some(f) ==> entry_rank(PacketView::Raw(f)) == k,
    ensures
        ranked_below(r + packet::raw(o), k + 1),
        forall|x: PacketView| #[trigger]
            (r + packet::raw(o)).contains(x) <==> r.contains(x) || (o is Some && x
                == PacketView::Raw(o->0)),
{
    let t = r + packet::raw(o);
    if o is Some {
        assert(t =~= r.push(PacketView::Raw(o->0)));
        assert forall|x: PacketView| #[trigger] t.contains(x) <==> r.contains(x) || x
            == PacketView::Raw(o->0) by {
            if r.contains(x) {
                let i = choose|i: int| 0 <= i < r.len() && r[i] == x;
                assert(t[i] == x);
            }
            if x == PacketView::Raw(o->0) {
                assert(t[r.len() as int] == x);
            }
            if t.contains(x) && x != PacketView::Raw(o->0) {
                let i = choose|i: int| 0 <= i < t.len() && t[i] == x;
                assert(r[i] == x);
            }
        }
    } else {
        assert(t =~= r);
    }
}

/// These packets take a client into the world where a session is after a run:
/// in order, every frame that counts and no other, and the wait for chunks.
pub open spec fn takes_into_the_world(
    s: SessionView,
    run: Seq<Arrived>,
    r: Seq<PacketView>,
) -> bool {
    &&& enters_in_order(r)
    &&& forall|kind: u32, i: int|
        is_single(kind) && #[trigger] counts(s, run, i, kind) ==> r.contains(
            PacketView::Raw(run[i].frame),
        )
    &&& forall|k: int|
        0 <= k < r.len() ==> (#[trigger] r[k] matches PacketView::Raw(f) && (f.packet_id == 38
            || exists|i: int| counts(s, run, i, f.packet_id) && f == run[i].frame))
    &&& exists|k: int| 0 <= k < r.len() && entry_rank(#[trigger] r[k]) == 4
}

/// A viewer that joins is first taken into the world where the session is:
/// whatever the server sent before, it gets the last Login, the last Respawn,
/// the spawn, the position, and the radius and the centre of the loaded chunks,
/// each as it came last and only where it is not stale, in this order, with the
/// wait for chunks in between. Every chunk and all else of the world comes after
/// that.
#[verifier::rlimit(40)]
pub proof fn joining_viewers_enter_the_world_of_the_session(
    s: SessionView,
    run: Seq<Arrived>,
    now: u64,
)
    requires
        nothing_kept(s.cache),
    ensures
        exists|n: int|
            0 <= n <= after(s, run).cache.join_packets(now).len() && takes_into_the_world(
                s,
                run,
                #[trigger] after(s, run).cache.join_packets(now).take(n),
            ),
{
    let c = after(s, run).cache;
    let wait = ids::game_event(13, 0);
    assert forall|kind: u32| #[trigger] is_single(kind) implies (kept_single(
        c,
        kind,
    ) matches Some(f) ==> f.packet_id == kind && exists|i: int|
        counts(s, run, i, kind) && f == run[i].frame) by {
        the_last_is_kept(s, run, kind);
        if kept_single(c, kind) is Some {
            let i = choose|i: int| counts(s, run, i, kind);
            assert(counts(s, run, i, kind));
        }
    }
    entry_holds(c);
    let r = entry_packets(c);
    let n = r.len() as int;
    entry_comes_first(c, now);
    assert forall|kind: u32, i: int|
        is_single(kind) && #[trigger] counts(s, run, i, kind) implies r.contains(
        PacketView::Raw(run[i].frame),
    ) by {
        the_last_is_kept(s, run, kind);
        assert(kept_single(c, kind) == Some(run[i].frame));
    }
    assert forall|k: int| 0 <= k < r.len() implies (#[trigger] r[k] matches PacketView::Raw(f) && (
    f.packet_id == 38 || exists|i: int|
        counts(s, run, i, f.packet_id) && f == run[i].frame)) by {
        assert(r.contains(r[k]));
    }
    assert(r.contains(PacketView::Raw(wait)));
    let k = choose|k: int| 0 <= k < r.len() && r[k] == PacketView::Raw(wait);
    assert(entry_rank(r[k]) == 4);
    assert(takes_into_the_world(s, run, r));
    assert(after(s, run).cache.join_packets(now).take(n) == r);
}

#[verifier::opaque]
spec fn entry_packets(c: CacheView) -> Seq<PacketView> {
    packet::raw(c.login) + packet::raw(c.respawn) + packet::raw(c.spawn_pos) + packet::raw(
        c.last_position,
    ) + packet::raw(Some(ids::game_event(13, 0))) + packet::raw(c.chunk_radius) + packet::raw(
        c.chunk_center,
    )
}

proof fn entry_comes_first(c: CacheView, now: u64)
    ensures
        entry_packets(c).len() <= c.join_packets(now).len(),
        c.join_packets(now).take(entry_packets(c).len() as int) == entry_packets(c),
{
    reveal(entry_packets);
    let r = entry_packets(c);
    assert(packet::raw(Some(ids::game_event(13, 0))) =~= seq![
        PacketView::Raw(ids::game_event(13, 0)),
    ]);
    let rest = packet::raws(table::values_in_order::<(i32, i32), FrameView>(c.chunks));
    assert(c.join_packets(now) == r + rest + c.world.replay(now));
    assert(c.join_packets(now).take(r.len() as int) =~= r);
}

proof fn entry_holds(c: CacheView)
    requires
        forall|kind: u32| #[trigger]
            is_single(kind) ==> (kept_single(c, kind) matches Some(f) ==> f.packet_id == kind),
    ensures
        enters_in_order(entry_packets(c)),
        forall|x: PacketView| #[trigger]
            entry_packets(c).contains(x) <==> x == PacketView::Raw(ids::game_event(13, 0)) || (
            x matches PacketView::Raw(f) && is_single(f.packet_id) && kept_single(c, f.packet_id)
                == Some(f)),
{
    reveal(entry_packets);
    assert(is_single(49) && is_single(82) && is_single(97) && is_single(72) && is_single(95)
        && is_single(94));
    let wait = ids::game_event(13, 0);
    let r1 = packet::raw(c.login);
    let r2 = r1 + packet::raw(c.respawn);
    let r3 = r2 + packet::raw(c.spawn_pos);
    let r4 = r3 + packet::raw(c.last_position);
    let r5 = r4 + packet::raw(Some(wait));
    let r6 = r5 + packet::raw(c.chunk_radius);
    let r0 = Seq::<PacketView>::empty();
    assert(r0 + packet::raw(c.login) =~= r1);
    ranked_next(r0, c.login, 0);
    ranked_next(r1, c.respawn, 1);
    ranked_next(r2, c.spawn_pos, 2);
    ranked_next(r3, c.last_position, 3);
    assert(wait.body[0] == 13);
    ranked_next(r4, Some(wait), 4);
    ranked_next(r5, c.chunk_radius, 5);
    ranked_next(r6, c.chunk_center, 6);
    assert(entry_packets(c) == r6 + packet::raw(c.chunk_center));
    assert forall|x: PacketView| !r0.contains(x) by {}
}

/// A session in which the bot changed dimension shows that to every viewer that
/// joins: the last Respawn since the last reconfiguration is among what it is
/// sent, the Login before it and every position and every chunk after it.
pub proof fn joining_viewers_change_dimension_with_the_session(
    s: SessionView,
    run: Seq<Arrived>,
    i: int,
    now: u64,
)
    requires
        nothing_kept(s.cache),
        counts(s, run, i, 82),
    ensures
        ({
            let r = after(s, run).cache.join_packets(now);
            exists|k: int|
                0 <= k < r.len() && #[trigger] r[k] == PacketView::Raw(run[i].frame) && (forall|
                    l: int,
                |
                    counts(s, run, l, 49) ==> k == 1 && r[0] == PacketView::Raw(
                        (#[trigger] run[l]).frame,
                    )) && (forall|j: int|
                    0 <= j < r.len() && (#[trigger] r[j] matches PacketView::Raw(f) && (f.packet_id
                        == 72 || f.packet_id == 45)) ==> k < j)
        }),
{
    let c = after(s, run).cache;
    the_last_is_kept(s, run, 49);
    the_last_is_kept(s, run, 82);
    let r = c.join_packets(now);
    let a = packet::raw(c.login);
    let k = a.len() as int;
    assert(c.respawn == Some(run[i].frame));
    assert(r[k] == PacketView::Raw(run[i].frame));
    assert forall|l: int| counts(s, run, l, 49) implies k == 1 && r[0] == PacketView::Raw(
        (#[trigger] run[l]).frame,
    ) by {
        assert(kept_single(c, 49) == Some(run[l].frame));
        assert(r[0] == a[0]);
    }
    assert forall|j: int|
        0 <= j < r.len() && (#[trigger] r[j] matches PacketView::Raw(f) && (f.packet_id == 72
            || f.packet_id == 45)) implies k < j by {
        if j < k {
            assert(r[j] == a[j]);
            assert(kept_single(c, 49) is Some);
            let l = choose|l: int| counts(s, run, l, 49);
            assert(counts(s, run, l, 49));
        }
    }
}

// The configuration.

/// The frames of the configuration state that are to be sent again: all but the
/// end of it, keep-alives and pings. A reconfiguration starts over.
pub open spec fn configured(s: SessionView, run: Seq<Arrived>) -> Seq<FrameView>
    decreases run.len(),
{
    if run.len() == 0 {
        s.cache.config_frames
    } else {
        let before = configured(s, run.drop_last());
        let f = run.last().frame;
        if after(s, run.drop_last()).in_game() {
            if f.packet_id == 118 {
                Seq::empty()
            } else {
                before
            }
        } else if f.packet_id == 3 || f.packet_id == 4 || f.packet_id == 5 {
            before
        } else {
            before.push(f)
        }
    }
}

/// A client that attaches is configured as the session was: it is sent what the
/// server sent in the last configuration, in order, and then its end.
pub proof fn clients_are_configured_as_the_session_was(s: SessionView, run: Seq<Arrived>)
    ensures
        ({
            let r = after(s, run).cache.config_packets();
            let all = configured(s, run);
            &&& r.len() == all.len() + 1
            &&& forall|i: int| 0 <= i < all.len() ==> #[trigger] r[i] == PacketView::Raw(all[i])
            &&& r[all.len() as int] == PacketView::Raw(
                FrameView { packet_id: 3, body: Seq::empty() },
            )
        }),
    decreases run.len(),
{
    config_follows(s, run);
    let c = after(s, run).cache;
    let r = c.config_packets();
    assert forall|i: int| 0 <= i < c.config_frames.len() implies #[trigger] r[i]
        == PacketView::Raw(c.config_frames[i]) by {
        assert(packet::raws(c.config_frames)[i] == PacketView::Raw(c.config_frames[i]));
    }
}

proof fn config_follows(s: SessionView, run: Seq<Arrived>)
    ensures
        after(s, run).cache.config_frames == configured(s, run),
    decreases run.len(),
{
    if run.len() > 0 {
        config_follows(s, run.drop_last());
        cache_follows(after(s, run.drop_last()), run.last());
    }
}

/// The server moves a session into the game state by ending the configuration,
/// and out of it by starting one; nothing else does.
pub proof fn the_server_moves_the_session_on(s: SessionView, a: Arrived)
    ensures
        next(s, a).in_game() == (if s.in_game() {
            a.frame.packet_id != 118
        } else {
            a.frame.packet_id == 3
        }),
        !s.in_game() && a.frame.packet_id == 3 ==> !next(s, a).seen_first_game_frame,
{
    reveal(next);
    if s.in_game() && a.frame.packet_id == ids::CB_GAME_LOGIN {
        login_keeps(s, a);
    }
}

// The world of a session.

/// Nothing is known of a world.
pub open spec fn knows_nothing(w: WorldView) -> bool {
    &&& w.entities.entities.dom() == Set::<i32>::empty()
    &&& w.entities.passengers.dom() == Set::<i32>::empty()
    &&& w.entities.links.dom() == Set::<i32>::empty()
    &&& w.players.players.dom() == Set::<u128>::empty()
    &&& w.scoreboard.objectives.dom() == Set::<Seq<char>>::empty()
    &&& w.scoreboard.displays.dom() == Set::<u8>::empty()
    &&& w.scoreboard.scores.dom() == Set::<(Seq<char>, Seq<char>)>::empty()
    &&& w.scoreboard.teams.dom() == Set::<Seq<char>>::empty()
    &&& w.terrain.updates.dom() == Set::<BlockPos>::empty()
    &&& w.terrain.block_entities.dom() == Set::<BlockPos>::empty()
    &&& w.terrain.biomes.dom() == Set::<(i32, i32)>::empty()
    &&& w.terrain.light.dom() == Set::<(i32, i32)>::empty()
    &&& w.boss_bars.dom() == Set::<u128>::empty()
    &&& w.maps.dom() == Set::<u32>::empty()
    &&& w.ambience.border is None && w.ambience.time is None && w.ambience.tab_list is None
    &&& w.ambience.rain is None && w.ambience.rain_level is None
    &&& w.ambience.thunder_level is None && w.ambience.difficulty is None
    &&& w.ambience.game_rules is None && w.ambience.simulation_distance is None
    &&& w.hud.entity_id is None && w.hud.experience is None && w.hud.health is None
    &&& w.hud.content is None && w.hud.cursor is None && w.hud.selected == 0
    &&& w.hud.metadata.dom() == Set::<u8>::empty()
    &&& w.hud.attributes.dom() == Set::<u32>::empty()
    &&& w.hud.effects.dom() == Set::<u32>::empty()
    &&& w.hud.slots.dom() == Set::<u16>::empty()
    &&& w.hud.items.dom() == Set::<u32>::empty()
    &&& w.hud.cooldowns.dom() == Set::<u32>::empty()
}

proof fn empty_knows_nothing(bot: u128)
    ensures
        knows_nothing(WorldView::empty().set_bot_uuid(bot)),
{
    let w = WorldView::empty().set_bot_uuid(bot);
    assert(w.entities.entities.dom() =~= Set::<i32>::empty());
    assert(w.entities.passengers.dom() =~= Set::<i32>::empty());
    assert(w.entities.links.dom() =~= Set::<i32>::empty());
    assert(w.players.players.dom() =~= Set::<u128>::empty());
    assert(w.scoreboard.objectives.dom() =~= Set::<Seq<char>>::empty());
    assert(w.scoreboard.displays.dom() =~= Set::<u8>::empty());
    assert(w.scoreboard.scores.dom() =~= Set::<(Seq<char>, Seq<char>)>::empty());
    assert(w.scoreboard.teams.dom() =~= Set::<Seq<char>>::empty());
    assert(w.terrain.updates.dom() =~= Set::<BlockPos>::empty());
    assert(w.terrain.block_entities.dom() =~= Set::<BlockPos>::empty());
    assert(w.terrain.biomes.dom() =~= Set::<(i32, i32)>::empty());
    assert(w.terrain.light.dom() =~= Set::<(i32, i32)>::empty());
    assert(w.boss_bars.dom() =~= Set::<u128>::empty());
    assert(w.maps.dom() =~= Set::<u32>::empty());
    assert(w.hud.metadata.dom() =~= Set::<u8>::empty());
    assert(w.hud.attributes.dom() =~= Set::<u32>::empty());
    assert(w.hud.effects.dom() =~= Set::<u32>::empty());
    assert(w.hud.slots.dom() =~= Set::<u16>::empty());
    assert(w.hud.items.dom() =~= Set::<u32>::empty());
    assert(w.hud.cooldowns.dom() =~= Set::<u32>::empty());
}

/// In the game state a session's world takes in every frame of the server. A
/// Respawn changes the dimension after that, with what the server says is to be
/// kept; a Login tells the player's entity id; a reconfiguration leaves a world
/// of which nothing is known but the bot. Out of the game state the world stays.
#[verifier::rlimit(40)]
pub proof fn the_world_of_the_session_is_followed(s: SessionView, a: Arrived)
    ensures
        ({
            let w = s.cache.world;
            let seen = w.observe(a.frame, a.packet, a.now);
            let t = next(s, a).cache.world;
            let id = a.frame.packet_id;
            if !s.in_game() {
                t == w
            } else if id == 118 {
                knows_nothing(t) && t.bot_uuid == Some(s.bot_uuid)
            } else if id == 82 {
                t == seen.on_respawn(
                    match a.packet {
                        GamePacket::Respawn { data_to_keep } => data_to_keep,
                        _ => 0,
                    },
                )
            } else {
                &&& (a.packet matches GamePacket::Login { player_id, .. } && id == 49)
                    ==> t.hud.entity_id == Some(a.packet->player_id)
                &&& t == (WorldView {
                    hud: HudView { entity_id: t.hud.entity_id, ..seen.hud },
                    ..seen
                })
                &&& id != 49 ==> t == seen
            }
        }),
{
    cache_follows(s, a);
    empty_knows_nothing(s.bot_uuid);
}

/// What a viewer that joins is sent after it has entered the world is the kept
/// chunks, and after all of them everything that is known of the world.
pub proof fn the_world_follows_the_chunks(c: CacheView, now: u64)
    requires
        cache_filed(c),
    ensures
        ({
            let r = c.join_packets(now);
            exists|n: int|
                0 <= n <= r.len() && #[trigger] r.skip(n) == c.world.replay(now) && forall|i: int|
                    n <= i < r.len() ==> !(#[trigger] r[i] matches PacketView::Raw(f)
                        && f.packet_id == 45)
        }),
{
    let r = c.join_packets(now);
    let world = c.world.replay(now);
    let n = r.len() - world.len();
    assert(r.skip(n) =~= world);
    assert forall|i: int| n <= i < r.len() implies !(#[trigger] r[i] matches PacketView::Raw(f)
        && f.packet_id == 45) by {
        assert(r[i] == world[i - n]);
        filing::the_replay_holds_no_chunks(c.world, now, i - n);
    }
}

/// Of its own the proxy answers keep-alives and, with nobody in control,
/// teleports; to no other frame of the server does it say anything to the
/// server.
pub proof fn the_proxy_answers_nothing_else(s: SessionView, a: Arrived)
    requires
        session_laws::sound(s),
        !(s.in_game() && a.frame.packet_id == 44),
        !(s.in_game() && a.frame.packet_id == 72 && s.controller is None),
        !(!s.in_game() && a.frame.packet_id == 4),
    ensures
        session_laws::server_bound(next(s, a).outbox) == session_laws::server_bound(s.outbox),
{
    reveal(next);
    session_laws::answers_are_few(s, a.frame, a.packet, a.now);
}

// The session player.

proof fn flush_keeps_player(s: SessionView, order: Seq<ClientId>, n: int)
    ensures
        ({
            let t = s.flush_first(order, n);
            &&& t.real_game_mode == s.real_game_mode && t.abilities == s.abilities
            &&& t.real_player_id == s.real_player_id && t.pose == s.pose
            &&& t.upstream_state == s.upstream_state && t.controller == s.controller
            &&& t.respawn_entity_pending == s.respawn_entity_pending
            &&& t.bot_uuid == s.bot_uuid && t.bot_name == s.bot_name && t.opts == s.opts
            &&& t.controller_moved_recently == s.controller_moved_recently
        }),
    decreases n,
{
    if n > 0 {
        flush_keeps_player(s, order, n - 1);
    }
}

proof fn login_keeps(s: SessionView, a: Arrived)
    requires
        s.in_game(),
        a.frame.packet_id == ids::CB_GAME_LOGIN,
    ensures
        ({
            let t = s.observe_clientbound(a.frame, a.packet, a.now);
            &&& t.real_game_mode == (match a.packet {
                GamePacket::Login { game_mode, .. } => game_mode,
                _ => 0,
            })
            &&& t.real_player_id == (match a.packet {
                GamePacket::Login { player_id, .. } => Some(player_id),
                _ => None,
            })
            &&& t.abilities == s.abilities && t.pose == s.pose && t.in_game()
            &&& t.respawn_entity_pending && t.controller == s.controller
            &&& t.bot_uuid == s.bot_uuid && t.bot_name == s.bot_name && t.opts == s.opts
            &&& t.controller_moved_recently == s.controller_moved_recently
        }),
{
    let guarded = s.guard(a.frame);
    let kept = SessionView {
        cache: CacheView {
            world: guarded.cache.world.observe(a.frame, a.packet, a.now),
            ..guarded.cache
        }.keep(a.frame),
        ..guarded
    };
    let (mode, player): (u8, Option<i32>) = match a.packet {
        GamePacket::Login { game_mode, player_id } => (game_mode, Some(player_id)),
        _ => (0, None),
    };
    let known = SessionView {
        real_game_mode: mode,
        real_player_id: player,
        cache: match player {
            Some(id) => CacheView {
                world: kept.cache.world.set_player_entity_id(id),
                ..kept.cache
            },
            None => kept.cache,
        },
        respawn_entity_pending: true,
        forward_next_position: true,
        ..kept
    };
    assert(kept.on_login(a.packet) == known.flush_parked());
    flush_keeps_player(known, known.order(), known.order().len() as int);
}

/// The game mode that a frame gives the session player: a Login's, or that of
/// the game event for it.
pub open spec fn mode_given(a: Arrived) -> Option<u8> {
    if a.frame.packet_id == 49 {
        match a.packet {
            GamePacket::Login { game_mode, .. } => Some(game_mode),
            _ => Some(0),
        }
    } else if a.frame.packet_id == 38 && a.frame.body.len() >= 5 && a.frame.body[0] == 3 {
        Some(wire::float_to_byte(wire::be_u32(a.frame.body, 1)))
    } else {
        None
    }
}

/// One frame of the server changes of the session player what it speaks of, and
/// nothing else: the game mode, the abilities, the entity id, and the pose, which
/// a Respawn leaves without a place. Nobody gains or loses control by it, and
/// who the bot is stays.
#[verifier::rlimit(40)]
pub proof fn the_session_player_is_followed(s: SessionView, a: Arrived)
    ensures
        ({
            let t = next(s, a);
            let id = a.frame.packet_id;
            &&& t.controller == s.controller
            &&& t.bot_uuid == s.bot_uuid && t.bot_name == s.bot_name && t.opts == s.opts
            &&& t.controller_moved_recently == s.controller_moved_recently
            &&& s.in_game() ==> {
                &&& t.real_game_mode == (match mode_given(a) {
                    Some(mode) => mode,
                    None => s.real_game_mode,
                })
                &&& t.abilities == (if id == 64 {
                    Some(a.frame)
                } else {
                    s.abilities
                })
                &&& t.real_player_id == (if id == 49 {
                    match a.packet {
                        GamePacket::Login { player_id, .. } => Some(player_id),
                        _ => None,
                    }
                } else {
                    s.real_player_id
                })
                &&& t.pose == (if id == 72 {
                    reflect::server_teleport(s.pose, a.frame)
                } else if id == 82 {
                    BotPose { pos: None, look: s.pose.look, on_ground: s.pose.on_ground }
                } else {
                    s.pose
                })
                &&& t.respawn_entity_pending == (s.respawn_entity_pending || id == 49 || id == 82)
            }
            &&& !s.in_game() ==> {
                &&& t.real_game_mode == s.real_game_mode && t.abilities == s.abilities
                &&& t.real_player_id == s.real_player_id && t.pose == s.pose
                &&& t.respawn_entity_pending == s.respawn_entity_pending
            }
        }),
{
    reveal(next);
    if s.in_game() && a.frame.packet_id == ids::CB_GAME_LOGIN {
        login_keeps(s, a);
    }
}

/// The last value that the frames of the game state give.
pub open spec fn last_in_game<T>(
    s: SessionView,
    run: Seq<Arrived>,
    gives: spec_fn(Arrived) -> Option<T>,
) -> Option<T>
    decreases run.len(),
{
    if run.len() == 0 {
        None
    } else {
        match gives(run.last()) {
            Some(value) if after(s, run.drop_last()).in_game() => Some(value),
            _ => last_in_game(s, run.drop_last(), gives),
        }
    }
}

/// Whatever the server sends, the session knows the game mode that was given
/// last, and the last abilities.
pub proof fn the_last_mode_and_abilities_are_known(s: SessionView, run: Seq<Arrived>)
    ensures
        after(s, run).real_game_mode == (match last_in_game(s, run, |a: Arrived| mode_given(a)) {
            Some(mode) => mode,
            None => s.real_game_mode,
        }),
        after(s, run).abilities == (match last_in_game(
            s,
            run,
            |a: Arrived|
                if a.frame.packet_id == 64 {
                    Some(a.frame)
                } else {
                    None
                },
        ) {
            Some(f) => Some(f),
            None => s.abilities,
        }),
    decreases run.len(),
{
    if run.len() > 0 {
        the_last_mode_and_abilities_are_known(s, run.drop_last());
        the_session_player_is_followed(after(s, run.drop_last()), run.last());
    }
}

/// The first frame of the game state is to be a Login; another one is reported,
/// once.
pub proof fn stale_ids_are_reported(s: SessionView, a: Arrived)
    requires
        s.in_game(),
        !s.seen_first_game_frame,
        a.frame.packet_id != 49,
    ensures
        next(s, a).outbox.len() > s.outbox.len(),
        next(s, a).outbox[s.outbox.len() as int] == (ActionView::StaleIds {
            packet_id: a.frame.packet_id,
        }),
        next(s, a).seen_first_game_frame,
{
    reveal(next);
}

// Positions.

/// Frame `i` takes the session into a world: a Login or a Respawn.
pub open spec fn enters(s: SessionView, run: Seq<Arrived>, i: int) -> bool {
    in_game_at(s, run, i) && (run[i].frame.packet_id == ids::CB_GAME_LOGIN
        || run[i].frame.packet_id == ids::CB_GAME_RESPAWN)
}

/// Frame `i` is a position of the session player.
pub open spec fn places(s: SessionView, run: Seq<Arrived>, i: int) -> bool {
    in_game_at(s, run, i) && run[i].frame.packet_id == ids::CB_GAME_PLAYER_POSITION
}

/// No position has come since frame `j` took the session into a world.
pub open spec fn enters_unplaced(s: SessionView, run: Seq<Arrived>, j: int) -> bool {
    &&& 0 <= j < run.len()
    &&& enters(s, run, j)
    &&& forall|k: int| j < k < run.len() ==> !#[trigger] places(s, run, k)
}

proof fn sound_after(s: SessionView, run: Seq<Arrived>)
    requires
        session_laws::sound(s),
    ensures
        session_laws::sound(after(s, run)),
    decreases run.len(),
{
    if run.len() > 0 {
        sound_after(s, run.drop_last());
        let a = run.last();
        reveal(next);
        session_laws::upstream_frames_keep_it_sound(
            after(s, run.drop_last()),
            a.frame,
            a.packet,
            a.now,
        );
    }
}

proof fn owed_step(s: SessionView, a: Arrived)
    requires
        session_laws::sound(s),
    ensures
        ({
            let enters = s.in_game() && (a.frame.packet_id == ids::CB_GAME_LOGIN
                || a.frame.packet_id == ids::CB_GAME_RESPAWN);
            let comes = s.in_game() && a.frame.packet_id == ids::CB_GAME_PLAYER_POSITION;
            next(s, a).forward_next_position == (enters || (s.forward_next_position && !comes))
        }),
{
    reveal(next);
    session_laws::a_position_is_owed_in_a_new_world(s, a.frame, a.packet, a.now);
}

/// A position is owed to viewers at the end of a run if and only if the run
/// took the session into a world and no position has come since.
pub proof fn a_position_is_owed_since_the_last_world(s: SessionView, run: Seq<Arrived>)
    requires
        session_laws::sound(s),
        !s.forward_next_position,
    ensures
        after(s, run).forward_next_position <==> exists|j: int| enters_unplaced(s, run, j),
    decreases run.len(),
{
    if run.len() > 0 {
        let n = run.len() - 1;
        let before = run.drop_last();
        let t = after(s, before);
        let a = run.last();
        a_position_is_owed_since_the_last_world(s, before);
        sound_after(s, before);
        owed_step(t, a);
        assert(run.take(n) =~= before);
        assert(in_game_at(s, run, n) == t.in_game());
        assert forall|i: int| 0 <= i < n implies #[trigger] places(s, before, i) == places(
            s,
            run,
            i,
        ) && enters(s, before, i) == enters(s, run, i) by {
            same_before(s, run, i);
        }
        if after(s, run).forward_next_position {
            if enters(s, run, n) {
                assert(enters_unplaced(s, run, n));
            } else {
                let j = choose|j: int| enters_unplaced(s, before, j);
                assert(places(s, before, j) == places(s, run, j));
                assert forall|k: int| j < k < run.len() implies !#[trigger] places(s, run, k) by {
                    if k < n {
                        assert(!places(s, before, k));
                    }
                }
                assert(enters_unplaced(s, run, j));
            }
        }
        if exists|j: int| enters_unplaced(s, run, j) {
            let j = choose|j: int| enters_unplaced(s, run, j);
            if j < n {
                assert(places(s, before, j) == places(s, run, j));
                assert forall|k: int| j < k < before.len() implies !#[trigger] places(
                    s,
                    before,
                    k,
                ) by {
                    assert(!places(s, run, k));
                }
                assert(enters_unplaced(s, before, j));
                assert(!places(s, run, n));
            }
        }
    }
}

/// Viewers get exactly the first position after each Login or Respawn: the
/// position `a` that follows a run reaches a live viewer if and only if the run
/// took the session into a world and no position has come since.
pub proof fn viewers_get_the_first_position_in_each_world(
    s: SessionView,
    run: Seq<Arrived>,
    a: Arrived,
    v: ClientId,
)
    requires
        session_laws::sound(s),
        !s.forward_next_position,
        after(s, run).in_game(),
        after(s, run).views_live(v),
        a.frame.packet_id == ids::CB_GAME_PLAYER_POSITION,
    ensures
        session_laws::client_bound(after(s, run.push(a)).outbox, v) == (if exists|j: int|
            enters_unplaced(s, run, j) {
            session_laws::client_bound(after(s, run).outbox, v).push(PacketView::Raw(a.frame))
        } else {
            session_laws::client_bound(after(s, run).outbox, v)
        }),
{
    a_position_is_owed_since_the_last_world(s, run);
    sound_after(s, run);
    assert(run.push(a).drop_last() =~= run);
    reveal(next);
    session_laws::viewers_get_one_position(after(s, run), a.frame, a.packet, a.now, v);
}

// Boss bars.

/// The last of the values that the frames of a run give.
pub open spec fn last_given<T>(run: Seq<Arrived>, gives: spec_fn(Arrived) -> Option<T>) -> Option<T>
    decreases run.len(),
{
    if run.len() == 0 {
        None
    } else {
        match gives(run.last()) {
            Some(value) => Some(value),
            None => last_given(run.drop_last(), gives),
        }
    }
}

/// What a frame does to the boss bar `id`.
pub open spec fn bar_operation(a: Arrived, id: u128) -> Option<BossOperation> {
    match a.packet {
        GamePacket::BossEvent { id: other, operation } => if other == id {
            Some(operation)
        } else {
            None
        },
        _ => None,
    }
}

/// An addition says that the bar is there, a removal that it is not.
pub open spec fn bar_stands(id: u128) -> spec_fn(Arrived) -> Option<bool> {
    |a: Arrived|
        match bar_operation(a, id) {
            Some(BossOperation::Add(_)) => Some(true),
            Some(BossOperation::Remove) => Some(false),
            _ => None,
        }
}

pub open spec fn bar_name(id: u128) -> spec_fn(Arrived) -> Option<Seq<u8>> {
    |a: Arrived|
        match bar_operation(a, id) {
            Some(BossOperation::Add(bar)) => Some(bar.name@),
            Some(BossOperation::UpdateName(name)) => Some(name@),
            _ => None,
        }
}

pub open spec fn bar_progress(id: u128) -> spec_fn(Arrived) -> Option<u32> {
    |a: Arrived|
        match bar_operation(a, id) {
            Some(BossOperation::Add(bar)) => Some(bar.progress),
            Some(BossOperation::UpdateProgress(progress)) => Some(progress),
            _ => None,
        }
}

pub open spec fn bar_style(id: u128) -> spec_fn(Arrived) -> Option<(u8, u8)> {
    |a: Arrived|
        match bar_operation(a, id) {
            Some(BossOperation::Add(bar)) => Some((bar.color, bar.overlay)),
            Some(BossOperation::UpdateStyle { color, overlay }) => Some((color, overlay)),
            _ => None,
        }
}

pub open spec fn bar_properties(id: u128) -> spec_fn(Arrived) -> Option<u8> {
    |a: Arrived|
        match bar_operation(a, id) {
            Some(BossOperation::Add(bar)) => Some(bar.properties),
            Some(BossOperation::UpdateProperties(properties)) => Some(properties),
            _ => None,
        }
}

/// The bar that the frames of a run make up: of each field the last value.
pub open spec fn bar_of(run: Seq<Arrived>, id: u128) -> BossBarView {
    let (color, overlay) = last_given(run, bar_style(id))->0;
    BossBarView {
        name: last_given(run, bar_name(id))->0,
        progress: last_given(run, bar_progress(id))->0,
        color,
        overlay,
        properties: last_given(run, bar_properties(id))->0,
    }
}

#[verifier::rlimit(40)]
proof fn bars_step(w: WorldView, a: Arrived)
    ensures
        w.observe(a.frame, a.packet, a.now).boss_bars == (match a.packet {
            GamePacket::BossEvent { id, operation } => bossbar::operated(
                w.boss_bars,
                id,
                operation,
            ),
            _ => w.boss_bars,
        }),
{
    if !(a.packet is Opaque) {
        stages::parts_change_on_their_own(w, a.frame, a.packet, a.now);
    }
}

proof fn bars_follow(w: WorldView, run: Seq<Arrived>, id: u128)
    requires
        !w.boss_bars.contains_key(id),
    ensures
        observed(w, run).boss_bars.contains_key(id) <==> last_given(run, bar_stands(id)) == Some(
            true,
        ),
        observed(w, run).boss_bars.contains_key(id) ==> observed(w, run).boss_bars[id] == bar_of(
            run,
            id,
        ),
    decreases run.len(),
{
    if run.len() > 0 {
        let before = run.drop_last();
        bars_follow(w, before, id);
        bars_step(observed(w, before), run.last());
        let a = run.last();
        let bars = observed(w, before).boss_bars;
        match bar_operation(a, id) {
            None => {
                assert(bar_of(run, id) == bar_of(before, id));
            },
            Some(operation) => {
                assert(observed(w, run).boss_bars == bossbar::operated(bars, id, operation));
                if bars.contains_key(id) || operation is Add {
                    assert(!(operation is Remove) ==> observed(w, run).boss_bars[id] =~= bar_of(
                        run,
                        id,
                    ));
                }
            },
        }
    }
}

proof fn filed_after(w: WorldView, run: Seq<Arrived>)
    requires
        filing::filed(w),
        all_fit(run),
    ensures
        filing::filed(observed(w, run)),
    decreases run.len(),
{
    if run.len() > 0 {
        let before = run.drop_last();
        assert forall|i: int| 0 <= i < before.len() implies packet::fits(
            (#[trigger] before[i]).frame,
            before[i].packet,
        ) by {
            assert(before[i] == run[i]);
        }
        filed_after(w, before);
        let a = run.last();
        assert(a == run[run.len() - 1]);
        filing::the_world_stays_filed(observed(w, before), a.frame, a.packet, a.now);
    }
}

/// Whatever the server sends, a boss bar is replayed if and only if the last
/// addition or removal of it is an addition. It is then replayed by one packet,
/// an addition, each field of which has the last value that came for it.
/// Updates of a bar that is not there bring nothing.
pub proof fn boss_bars_are_replayed_as_they_stand(
    w: WorldView,
    run: Seq<Arrived>,
    id: u128,
    now: u64,
)
    requires
        filing::filed(w),
        !w.boss_bars.contains_key(id),
        all_fit(run),
    ensures
        ({
            let r = observed(w, run).replay(now);
            if last_given(run, bar_stands(id)) == Some(true) {
                exists|k: int|
                    0 <= k < r.len() && #[trigger] r[k] == (PacketView::AddBossBar {
                        id,
                        bar: bar_of(run, id),
                    }) && forall|i: int|
                        0 <= i < r.len() && filing::is_bar(#[trigger] r[i], id) ==> i == k
            } else {
                forall|i: int| 0 <= i < r.len() ==> !filing::is_bar(#[trigger] r[i], id)
            }
        }),
{
    bars_follow(w, run, id);
    filed_after(w, run);
    filing::a_bar_is_replayed_once(observed(w, run), id, now);
}

// The tab list.

/// An update that speaks of a player says that it is on the list, a removal that
/// it is not.
pub open spec fn player_stands(uuid: u128) -> spec_fn(Arrived) -> Option<bool> {
    |a: Arrived|
        match a.packet {
            GamePacket::PlayerInfoUpdate { entries, .. } => if exists|i: int|
                0 <= i < entries@.len() && (#[trigger] entries@[i])@.profile.uuid == uuid {
                Some(true)
            } else {
                None
            },
            GamePacket::PlayerInfoRemove { profiles } => if profiles@.contains(uuid) {
                Some(false)
            } else {
                None
            },
            _ => None,
        }
}

proof fn updated_players(
    p: RosterView,
    actions: PlayerInfoActions,
    entries: Seq<PlayerInfoView>,
    uuid: u128,
)
    ensures
        p.update_all(actions, entries).players.contains_key(uuid) <==> p.players.contains_key(uuid)
            || exists|i: int|
            0 <= i < entries.len() && (#[trigger] entries[i]).profile.uuid == uuid,
    decreases entries.len(),
{
    if entries.len() > 0 {
        let before = entries.drop_last();
        updated_players(p, actions, before, uuid);
        assert(entries.last() == entries[entries.len() - 1]);
        assert(forall|i: int| 0 <= i < before.len() ==> #[trigger] before[i] == entries[i]);
        assert(forall|i: int| 0 <= i < before.len() ==> #[trigger] entries[i] == before[i]);
    }
}

proof fn removed_players<W>(m: Map<u128, W>, profiles: Seq<u128>, uuid: u128)
    ensures
        table::drop_all(m, profiles).contains_key(uuid) <==> m.contains_key(uuid)
            && !profiles.contains(uuid),
    decreases profiles.len(),
{
    if profiles.len() > 0 {
        let before = profiles.drop_last();
        removed_players(m, before, uuid);
        assert(profiles =~= before.push(profiles.last()));
        assert(profiles.contains(uuid) <==> before.contains(uuid) || uuid == profiles.last()) by {
            if before.contains(uuid) {
                let i = choose|i: int| 0 <= i < before.len() && before[i] == uuid;
                assert(profiles[i] == uuid);
            }
            if uuid == profiles.last() {
                assert(profiles[profiles.len() - 1] == uuid);
            }
        }
    }
}

#[verifier::rlimit(40)]
proof fn players_step(w: WorldView, a: Arrived, uuid: u128)
    ensures
        w.observe(a.frame, a.packet, a.now).players.players.contains_key(uuid) == (
        match player_stands(uuid)(a) {
            Some(there) => there,
            None => w.players.players.contains_key(uuid),
        }),
{
    if !(a.packet is Opaque) {
        stages::parts_change_on_their_own(w, a.frame, a.packet, a.now);
    }
    match a.packet {
        GamePacket::PlayerInfoUpdate { actions, entries } => {
            let all = views::views(entries@);
            updated_players(w.players, actions, all, uuid);
            assert(forall|i: int| 0 <= i < all.len() ==> #[trigger] all[i] == entries@[i]@);
            if exists|i: int| 0 <= i < entries@.len() && (#[trigger] entries@[i])@.profile.uuid
                == uuid {
                let i = choose|i: int|
                    0 <= i < entries@.len() && (#[trigger] entries@[i])@.profile.uuid == uuid;
                assert(all[i].profile.uuid == uuid);
            }
        },
        GamePacket::PlayerInfoRemove { profiles } => {
            removed_players(w.players.players, profiles@, uuid);
        },
        _ => {},
    }
}

/// A player is on the tab list at the end of a run if and only if the last update
/// or removal that speaks of it is an update.
pub proof fn players_are_listed_until_removed(w: WorldView, run: Seq<Arrived>, uuid: u128)
    requires
        !w.players.players.contains_key(uuid),
    ensures
        observed(w, run).players.players.contains_key(uuid) <==> last_given(
            run,
            player_stands(uuid),
        ) == Some(true),
    decreases run.len(),
{
    if run.len() > 0 {
        players_are_listed_until_removed(w, run.drop_last(), uuid);
        players_step(observed(w, run.drop_last()), run.last(), uuid);
    }
}

/// Whatever the server sends, the tab list is replayed by one packet, before
/// every spawn of an entity, or by none where nobody is on it. It holds one
/// entry for each player, without signatures and without a chat session.
pub proof fn the_tab_list_is_replayed_as_it_stands(w: WorldView, run: Seq<Arrived>, now: u64)
    requires
        filing::filed(w),
        all_fit(run),
    ensures
        ({
            let t = observed(w, run);
            if t.players.players.dom().len() == 0 {
                filing::no_tab_list(t.replay(now))
            } else {
                &&& filing::one_tab_list(t.replay(now), t.players.replay()[0])
                &&& filing::lists_players(t.players.replay()[0], t.players.players)
            }
        }),
{
    filed_after(w, run);
    let t = observed(w, run);
    filing::the_tab_list_is_replayed_once(t, now);
    if t.players.players.dom().len() > 0 {
        filing::the_tab_list_is_complete(t.players);
    }
}

} // verus!
