//! The join cache: what a client needs to enter a running session.
//!
//! Chunks are kept raw, by their coordinates. A client does not leave its
//! loading screen before the chunk under its feet has arrived, so replaying
//! them is part of joining. Everything else of the world is in the
//! [`WorldSnapshot`].

use vstd::prelude::*;

use crate::ids;
use crate::packet;
use crate::packet::{GamePacket, Packet, PacketView};
use crate::plugin::{Frame, FrameView};
use crate::snapshot::{WorldSnapshot, WorldView};
use crate::table;
use crate::table::Table;
use crate::views;
use crate::views::group_views;

verus! {

broadcast use group_views;

/// What a late viewer is sent.
pub struct JoinCache {
    config_frames: Vec<Frame>,
    login: Option<Frame>,
    last_position: Option<Frame>,
    respawn: Option<Frame>,
    spawn_pos: Option<Frame>,
    chunk_center: Option<Frame>,
    chunk_radius: Option<Frame>,
    chunks: Table<(i32, i32), Frame>,
    world: WorldSnapshot,
}

/// What a [`JoinCache`] holds.
#[verifier::ext_equal]
pub struct CacheView {
    pub config_frames: Seq<FrameView>,
    pub login: Option<FrameView>,
    pub last_position: Option<FrameView>,
    pub respawn: Option<FrameView>,
    pub spawn_pos: Option<FrameView>,
    pub chunk_center: Option<FrameView>,
    pub chunk_radius: Option<FrameView>,
    pub chunks: Map<(i32, i32), FrameView>,
    pub world: WorldView,
}

impl View for JoinCache {
    type V = CacheView;

    closed spec fn view(&self) -> CacheView {
        CacheView {
            config_frames: views::views(self.config_frames@),
            login: views::seen(self.login),
            last_position: views::seen(self.last_position),
            respawn: views::seen(self.respawn),
            spawn_pos: views::seen(self.spawn_pos),
            chunk_center: views::seen(self.chunk_center),
            chunk_radius: views::seen(self.chunk_radius),
            chunks: self.chunks@,
            world: self.world@,
        }
    }
}

impl CacheView {
    /// An empty cache for the session of the bot with this uuid.
    pub open spec fn empty(bot_uuid: u128) -> CacheView {
        CacheView {
            config_frames: Seq::empty(),
            login: None,
            last_position: None,
            respawn: None,
            spawn_pos: None,
            chunk_center: None,
            chunk_radius: None,
            chunks: Map::empty(),
            world: WorldView::empty().set_bot_uuid(bot_uuid),
        }
    }

    /// The dimension changed: what belongs to the old one is stale.
    pub open spec fn on_respawn(self, respawn: FrameView, data_to_keep: u8) -> CacheView {
        CacheView {
            respawn: Some(respawn),
            last_position: None,
            spawn_pos: None,
            chunk_center: None,
            chunks: Map::empty(),
            world: self.world.on_respawn(data_to_keep),
            ..self
        }
    }

    /// A frame of the game state, as far as the cache keeps it whole.
    pub open spec fn keep(self, f: FrameView) -> CacheView {
        if f.packet_id == ids::CB_GAME_LOGIN {
            CacheView { login: Some(f), ..self }
        } else if f.packet_id == ids::CB_GAME_PLAYER_POSITION {
            CacheView { last_position: Some(f), ..self }
        } else if f.packet_id == ids::CB_GAME_SET_DEFAULT_SPAWN_POSITION {
            CacheView { spawn_pos: Some(f), ..self }
        } else if f.packet_id == ids::CB_GAME_SET_CHUNK_CACHE_CENTER {
            CacheView { chunk_center: Some(f), ..self }
        } else if f.packet_id == ids::CB_GAME_SET_CHUNK_CACHE_RADIUS {
            CacheView { chunk_radius: Some(f), ..self }
        } else if f.packet_id == ids::CB_GAME_LEVEL_CHUNK_WITH_LIGHT {
            match ids::chunk_at(f.body) {
                Some(key) => CacheView { chunks: self.chunks.insert(key, f), ..self },
                None => self,
            }
        } else if f.packet_id == ids::CB_GAME_FORGET_LEVEL_CHUNK {
            match ids::forgotten_chunk(f.body) {
                Some(key) => CacheView { chunks: self.chunks.remove(key), ..self },
                None => self,
            }
        } else {
            self
        }
    }

    /// What takes a client from the login into the game state.
    pub open spec fn config_packets(self) -> Seq<PacketView> {
        packet::raws(self.config_frames).push(
            PacketView::Raw(FrameView { packet_id: ids::CB_CONFIG_FINISH, body: Seq::empty() }),
        )
    }

    /// What shows the world to a client that has just entered the game state:
    /// who it is, where it is, the handshake for chunks, the chunks, and the
    /// world snapshot.
    pub open spec fn join_packets(self, now: u64) -> Seq<PacketView> {
        packet::raw(self.login) + packet::raw(self.respawn) + packet::raw(self.spawn_pos)
            + packet::raw(self.last_position) + seq![PacketView::Raw(ids::game_event(13, 0))]
            + packet::raw(self.chunk_radius) + packet::raw(self.chunk_center) + packet::raws(
            table::values_in_order::<(i32, i32), FrameView>(self.chunks),
        ) + self.world.replay(now)
    }
}

impl JoinCache {
    /// An empty cache for the session of the bot with this uuid.
    pub fn new(bot_uuid: u128) -> (r: JoinCache)
        ensures
            r@ == CacheView::empty(bot_uuid),
    {
        let mut world: WorldSnapshot = WorldSnapshot::new();
        world.set_bot_uuid(bot_uuid);
        let r: JoinCache = JoinCache {
            config_frames: Vec::new(),
            login: None,
            last_position: None,
            respawn: None,
            spawn_pos: None,
            chunk_center: None,
            chunk_radius: None,
            chunks: Table::new(),
            world,
        };
        proof {
            assert(r@ =~= CacheView::empty(bot_uuid));
        }
        r
    }

    /// The world snapshot.
    pub fn world(&self) -> (r: &WorldSnapshot)
        ensures
            r@ == self@.world,
    {
        &self.world
    }

    /// Whether the session has reached the game state.
    pub fn has_login(&self) -> (r: bool)
        ensures
            r == (self@.login is Some),
    {
        self.login.is_some()
    }

    /// Keeps a frame of the configuration state.
    pub fn keep_config(&mut self, f: &Frame)
        ensures
            final(self)@ == (CacheView {
                config_frames: old(self)@.config_frames.push(f@),
                ..old(self)@
            }),
    {
        self.config_frames.push(f.clone());
    }

    /// Lets the snapshot take in a frame of the game state.
    pub fn observe(&mut self, f: &Frame, p: &GamePacket, now: u64)
        ensures
            final(self)@ == (CacheView {
                world: old(self)@.world.observe(f@, *p, now),
                ..old(self)@
            }),
    {
        self.world.observe(f, p, now);
    }

    /// Records the player entity's id.
    pub fn set_player_entity_id(&mut self, id: i32)
        ensures
            final(self)@ == (CacheView {
                world: old(self)@.world.set_player_entity_id(id),
                ..old(self)@
            }),
    {
        self.world.set_player_entity_id(id);
    }

    /// Keeps a frame of the game state, where it is one to keep whole.
    pub fn keep(&mut self, f: &Frame)
        ensures
            final(self)@ == old(self)@.keep(f@),
    {
        let id: u32 = f.packet_id;
        if id == ids::CB_GAME_LOGIN {
            self.login = Some(f.clone());
        } else if id == ids::CB_GAME_PLAYER_POSITION {
            self.last_position = Some(f.clone());
        } else if id == ids::CB_GAME_SET_DEFAULT_SPAWN_POSITION {
            self.spawn_pos = Some(f.clone());
        } else if id == ids::CB_GAME_SET_CHUNK_CACHE_CENTER {
            self.chunk_center = Some(f.clone());
        } else if id == ids::CB_GAME_SET_CHUNK_CACHE_RADIUS {
            self.chunk_radius = Some(f.clone());
        } else if id == ids::CB_GAME_LEVEL_CHUNK_WITH_LIGHT {
            if let Some(key) = ids::chunk_key(f.body.as_slice()) {
                self.chunks.insert(key, f.clone());
            }
        } else if id == ids::CB_GAME_FORGET_LEVEL_CHUNK {
            if let Some(key) = ids::forget_chunk_key(f.body.as_slice()) {
                let _ = self.chunks.remove(&key);
            }
        }
    }

    /// The dimension changed.
    pub fn on_respawn(&mut self, respawn: &Frame, data_to_keep: u8)
        ensures
            final(self)@ == old(self)@.on_respawn(respawn@, data_to_keep),
    {
        self.respawn = Some(respawn.clone());
        self.last_position = None;
        self.spawn_pos = None;
        self.chunk_center = None;
        self.chunks.clear();
        self.world.on_respawn(data_to_keep);
    }

    /// What takes a client from the login into the game state.
    pub fn config_replay(&self) -> (r: Vec<Packet>)
        ensures
            views::views(r@) == self@.config_packets(),
    {
        let mut q: Vec<Packet> = Vec::new();
        packet::queue_frames(&mut q, &self.config_frames);
        q.push(Packet::Raw(ids::finish_config_frame()));
        proof {
            assert(views::views(q@) =~= self@.config_packets());
        }
        q
    }

    /// What shows the world to a client that has just entered the game state.
    pub fn join_frames(&self, now: u64) -> (r: Vec<Packet>)
        ensures
            views::views(r@) == self@.join_packets(now),
    {
        let mut q: Vec<Packet> = Vec::new();
        packet::queue_frame(&mut q, &self.login);
        packet::queue_frame(&mut q, &self.respawn);
        packet::queue_frame(&mut q, &self.spawn_pos);
        packet::queue_frame(&mut q, &self.last_position);
        let ghost placed = views::views(q@);
        q.push(Packet::Raw(ids::wait_for_chunks_frame()));
        proof {
            assert(views::views(q@) =~= placed + seq![PacketView::Raw(ids::game_event(13, 0))]);
        }
        packet::queue_frame(&mut q, &self.chunk_radius);
        packet::queue_frame(&mut q, &self.chunk_center);
        packet::queue_table(&mut q, &self.chunks);
        packet::queue_all(&mut q, self.world.replay(now));
        proof {
            assert(views::views(q@) =~= self@.join_packets(now));
        }
        q
    }
}

} // verus!
