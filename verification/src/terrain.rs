//! Changes to the terrain since its chunks were sent.
//!
//! Chunks themselves are cached as whole frames. What changes in them
//! afterwards is kept here: one latest change per block and per block entity,
//! one biome section and one light update per chunk. A long-running contraption
//! thus takes no more room than the blocks that it touches.

use vstd::prelude::*;

use crate::arrival;
use crate::packet;
use crate::packet::{BlockPos, Packet, PacketView, SectionBlock};
use crate::plugin::{Frame, FrameView};
use crate::table;
use crate::table::Table;
use crate::views;
use crate::views::group_views;
use crate::wire;

verus! {

broadcast use group_views;

/// How many chunks one biome packet carries at most.
pub const BIOME_BATCH: usize = 256;

/// Changes to the terrain.
pub struct Terrain {
    updates: Table<BlockPos, (u64, Packet)>,
    block_entities: Table<BlockPos, (u64, Packet)>,
    sequence: u64,
    biomes: Table<(i32, i32), Vec<u8>>,
    light: Table<(i32, i32), Frame>,
}

/// What a [`Terrain`] holds. Every change carries the number that it had in
/// the order of arrival.
#[verifier::ext_equal]
pub struct TerrainView {
    pub updates: Map<BlockPos, (u64, PacketView)>,
    pub block_entities: Map<BlockPos, (u64, PacketView)>,
    pub sequence: u64,
    pub biomes: Map<(i32, i32), Seq<u8>>,
    pub light: Map<(i32, i32), FrameView>,
}

/// The block lies in the chunk with these coordinates.
pub open spec fn in_chunk(pos: BlockPos, x: i32, z: i32) -> bool {
    pos.x >> 4 == x && pos.z >> 4 == z
}

/// The changes outside a chunk.
pub open spec fn outside(x: i32, z: i32) -> spec_fn(BlockPos, (u64, PacketView)) -> bool {
    |pos: BlockPos, change: (u64, PacketView)| !in_chunk(pos, x, z)
}

/// The low thirty-two bits of `n`, as a signed number.
pub open spec fn wrapped(n: int) -> i32 {
    wire::signed((n % 0x1_0000_0000) as u32)
}

/// Where a block of a section stands in the world.
pub open spec fn placed(section: BlockPos, block: SectionBlock) -> BlockPos {
    BlockPos {
        x: wrapped(section.x * 16 + block.x),
        y: wrapped(section.y * 16 + block.y),
        z: wrapped(section.z * 16 + block.z),
    }
}

impl TerrainView {
    pub open spec fn empty() -> TerrainView {
        TerrainView {
            updates: Map::empty(),
            block_entities: Map::empty(),
            sequence: 0,
            biomes: Map::empty(),
            light: Map::empty(),
        }
    }

    /// A chunk was sent anew or forgotten: what changed in it is stale.
    pub open spec fn forget_chunk(self, x: i32, z: i32) -> TerrainView {
        TerrainView {
            updates: table::kept(self.updates, outside(x, z)),
            block_entities: table::kept(self.block_entities, outside(x, z)),
            sequence: self.sequence,
            biomes: self.biomes.remove((x, z)),
            light: self.light.remove((x, z)),
        }
    }

    pub open spec fn set_biomes(self, chunks: Seq<((i32, i32), Seq<u8>)>) -> TerrainView {
        TerrainView { biomes: table::put_all(self.biomes, chunks), ..self }
    }

    pub open spec fn set_light(self, x: i32, z: i32, frame: FrameView) -> TerrainView {
        TerrainView { light: self.light.insert((x, z), frame), ..self }
    }

    pub open spec fn change_block(self, pos: BlockPos, packet: PacketView) -> TerrainView {
        TerrainView {
            sequence: arrival::next_number(self.sequence),
            updates: self.updates.insert(pos, (arrival::next_number(self.sequence), packet)),
            ..self
        }
    }

    pub open spec fn change_block_entity(self, pos: BlockPos, packet: PacketView) -> TerrainView {
        TerrainView {
            sequence: arrival::next_number(self.sequence),
            block_entities: self.block_entities.insert(
                pos,
                (arrival::next_number(self.sequence), packet),
            ),
            ..self
        }
    }

    /// Each block of a section changes on its own.
    pub open spec fn change_section(
        self,
        section: BlockPos,
        states: Seq<SectionBlock>,
    ) -> TerrainView
        decreases states.len(),
    {
        if states.len() == 0 {
            self
        } else {
            let pos = placed(section, states.last());
            self.change_section(section, states.drop_last()).change_block(
                pos,
                PacketView::BlockUpdate { pos, state: states.last().state },
            )
        }
    }

    /// The biome packets for `chunks`, a full batch at a time.
    pub open spec fn biome_batches(chunks: Seq<Seq<u8>>) -> Seq<PacketView>
        decreases chunks.len(),
    {
        if chunks.len() == 0 {
            Seq::empty()
        } else if chunks.len() <= BIOME_BATCH {
            seq![PacketView::ChunksBiomes { chunks }]
        } else {
            seq![PacketView::ChunksBiomes { chunks: chunks.take(BIOME_BATCH as int) }]
                + Self::biome_batches(chunks.skip(BIOME_BATCH as int))
        }
    }

    /// The block changes and block entity changes in the order of arrival.
    pub open spec fn changes(self) -> Seq<PacketView> {
        arrival::by_number(
            table::values_in_order::<BlockPos, (u64, PacketView)>(self.updates),
            table::values_in_order::<BlockPos, (u64, PacketView)>(self.block_entities),
        )
    }

    /// What brings a fresh client's chunks up to date: biomes, light, blocks.
    pub open spec fn replay(self) -> Seq<PacketView> {
        Self::biome_batches(table::values_in_order::<(i32, i32), Seq<u8>>(self.biomes))
            + packet::raws(table::values_in_order::<(i32, i32), FrameView>(self.light))
            + self.changes()
    }
}

fn wrap(n: i64) -> (r: i32)
    requires
        -0x10_0000_0000 <= n <= 0x10_0000_0000,
    ensures
        r == wrapped(n as int),
{
    wire::to_signed(((n + 0x100_0000_0000) % 0x1_0000_0000) as u32)
}

fn place(section: &BlockPos, block: &SectionBlock) -> (r: BlockPos)
    ensures
        r == placed(*section, *block),
{
    BlockPos {
        x: wrap(section.x as i64 * 16 + block.x as i64),
        y: wrap(section.y as i64 * 16 + block.y as i64),
        z: wrap(section.z as i64 * 16 + block.z as i64),
    }
}

impl View for Terrain {
    type V = TerrainView;

    closed spec fn view(&self) -> TerrainView {
        TerrainView {
            updates: self.updates@,
            block_entities: self.block_entities@,
            sequence: self.sequence,
            biomes: self.biomes@,
            light: self.light@,
        }
    }
}

impl Terrain {
    /// No changes.
    pub fn new() -> (r: Terrain)
        ensures
            r@ == TerrainView::empty(),
    {
        Terrain {
            updates: Table::new(),
            block_entities: Table::new(),
            sequence: 0,
            biomes: Table::new(),
            light: Table::new(),
        }
    }

    /// Drops what changed in a chunk.
    pub fn forget_chunk(&mut self, x: i32, z: i32)
        ensures
            final(self)@ == old(self)@.forget_chunk(x, z),
    {
        let test = |pos: &BlockPos, change: &(u64, Packet)| -> (keep: bool)
            ensures
                keep == !in_chunk(*pos, x, z),
            { !(pos.x >> 4 == x && pos.z >> 4 == z) };
        self.updates.retain(test, Ghost(outside(x, z)));
        let test = |pos: &BlockPos, change: &(u64, Packet)| -> (keep: bool)
            ensures
                keep == !in_chunk(*pos, x, z),
            { !(pos.x >> 4 == x && pos.z >> 4 == z) };
        self.block_entities.retain(test, Ghost(outside(x, z)));
        let key: (i32, i32) = (x, z);
        let _ = self.biomes.remove(&key);
        let _ = self.light.remove(&key);
    }

    /// Keeps the biomes of some chunks.
    pub fn set_biomes(&mut self, chunks: &Vec<((i32, i32), Vec<u8>)>)
        ensures
            final(self)@ == old(self)@.set_biomes(views::views(chunks@)),
    {
        self.biomes.put_each(chunks);
    }

    /// Keeps the light update of a chunk.
    pub fn set_light(&mut self, x: i32, z: i32, frame: &Frame)
        ensures
            final(self)@ == old(self)@.set_light(x, z, frame@),
    {
        self.light.insert((x, z), frame.clone());
    }

    /// Keeps the latest change of a block.
    pub fn change_block(&mut self, pos: BlockPos, packet: Packet)
        ensures
            final(self)@ == old(self)@.change_block(pos, packet@),
    {
        self.sequence = arrival::number_after(self.sequence);
        self.updates.insert(pos, (self.sequence, packet));
    }

    /// Keeps the latest change of a block entity.
    pub fn change_block_entity(&mut self, pos: BlockPos, packet: Packet)
        ensures
            final(self)@ == old(self)@.change_block_entity(pos, packet@),
    {
        self.sequence = arrival::number_after(self.sequence);
        self.block_entities.insert(pos, (self.sequence, packet));
    }

    /// Keeps the latest change of each block of a section update.
    pub fn change_section(&mut self, section: &BlockPos, states: &Vec<SectionBlock>)
        ensures
            final(self)@ == old(self)@.change_section(*section, states@),
    {
        let ghost start = self@;
        let mut i: usize = 0;
        proof {
            assert(states@.take(0) =~= Seq::<SectionBlock>::empty());
        }
        while i < states.len()
            invariant
                i <= states.len(),
                self@ == start.change_section(*section, states@.take(i as int)),
            decreases states.len() - i,
        {
            let pos: BlockPos = place(section, &states[i]);
            self.change_block(pos, Packet::BlockUpdate { pos, state: states[i].state });
            proof {
                let next = states@.take(i + 1);
                assert(next.drop_last() =~= states@.take(i as int));
                assert(next.last() == states@[i as int]);
            }
            i = i + 1;
        }
        proof {
            assert(states@.take(i as int) =~= states@);
        }
    }

    /// The dimension changed: there is nothing left to change.
    pub fn clear(&mut self)
        ensures
            final(self)@ == TerrainView::empty(),
    {
        *self = Terrain::new();
    }

    fn queue_biomes(&self, queue: &mut Vec<Packet>)
        ensures
            views::views(final(queue)@) == views::views(old(queue)@) + TerrainView::biome_batches(
                table::values_in_order::<(i32, i32), Seq<u8>>(self@.biomes),
            ),
    {
        let n: usize = self.biomes.len();
        let ghost all = table::values_in_order::<(i32, i32), Seq<u8>>(self.biomes@);
        let ghost before = views::views(queue@);
        let mut i: usize = 0;
        proof {
            assert(all.skip(0) =~= all);
        }
        while i < n
            invariant
                i <= n,
                n == all.len(),
                all == table::values_in_order::<(i32, i32), Seq<u8>>(self.biomes@),
                n == table::in_order::<(i32, i32), Seq<u8>>(self.biomes@).len(),
                views::views(queue@) + TerrainView::biome_batches(all.skip(i as int)) == before
                    + TerrainView::biome_batches(all),
            decreases n - i,
        {
            let ghost from = i as int;
            let ghost sent = views::views(queue@);
            let end: usize = if n - i <= BIOME_BATCH {
                n
            } else {
                i + BIOME_BATCH
            };
            let mut chunks: Vec<Vec<u8>> = Vec::new();
            while i < end
                invariant
                    0 <= from <= i <= end <= n,
                    n == table::in_order::<(i32, i32), Seq<u8>>(self.biomes@).len(),
                    all == table::values_in_order::<(i32, i32), Seq<u8>>(self.biomes@),
                    views::views(chunks@) == all.subrange(from, i as int),
                decreases end - i,
            {
                chunks.push(packet::copy_bytes(self.biomes.value_at(i)));
                proof {
                    assert(all.subrange(from, i + 1) =~= all.subrange(from, i as int).push(
                        all[i as int],
                    ));
                }
                i = i + 1;
            }
            queue.push(Packet::ChunksBiomes { chunks });
            proof {
                let rest = all.skip(from);
                let view = PacketView::ChunksBiomes { chunks: all.subrange(from, i as int) };
                assert(all.skip(i as int) =~= rest.skip(i - from));
                if rest.len() <= BIOME_BATCH {
                    assert(all.subrange(from, i as int) =~= rest);
                    assert(TerrainView::biome_batches(all.skip(i as int)) =~= Seq::<
                        PacketView,
                    >::empty());
                    assert(sent.push(view) + Seq::<PacketView>::empty() =~= sent + seq![view]);
                } else {
                    assert(all.subrange(from, i as int) =~= rest.take(BIOME_BATCH as int));
                    assert(sent.push(view) + TerrainView::biome_batches(all.skip(i as int)) =~= sent
                        + (seq![view] + TerrainView::biome_batches(all.skip(i as int))));
                }
            }
        }
        proof {
            assert(TerrainView::biome_batches(all.skip(n as int)) =~= Seq::<PacketView>::empty());
            assert(views::views(queue@) + Seq::<PacketView>::empty() =~= views::views(queue@));
        }
    }

    fn queue_changes(&self, queue: &mut Vec<Packet>)
        ensures
            views::views(final(queue)@) == views::views(old(queue)@) + self@.changes(),
    {
        arrival::queue_by_number(queue, &self.updates, &self.block_entities);
    }

    /// Queues what brings a fresh client's chunks up to date.
    pub fn queue_replay(&self, queue: &mut Vec<Packet>)
        ensures
            views::views(final(queue)@) == views::views(old(queue)@) + self@.replay(),
    {
        let ghost before = views::views(queue@);
        self.queue_biomes(queue);
        packet::queue_table(queue, &self.light);
        self.queue_changes(queue);
        proof {
            assert(views::views(queue@) =~= before + self@.replay());
        }
    }
}

} // verus!
