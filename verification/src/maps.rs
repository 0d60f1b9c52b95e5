//! Item maps.
//!
//! The server sends a map as patches. They are painted onto one canvas per
//! map, so that a fresh client gets the whole map at once.

use vstd::prelude::*;

use crate::packet;
use crate::packet::{MapPatch, Packet, PacketView};
use crate::table;
use crate::table::Table;
use crate::views;
use crate::views::group_views;

verus! {

broadcast use group_views;

/// How many cells a map has: 128 rows of 128.
pub const MAP_CELLS: usize = 16384;

/// One map.
pub struct MapState {
    scale: u8,
    locked: bool,
    decorations: Option<Vec<u8>>,
    colors: Vec<u8>,
    has_colors: bool,
}

/// What a [`MapState`] holds.
#[verifier::ext_equal]
pub struct MapView {
    pub scale: u8,
    pub locked: bool,
    pub decorations: Option<Seq<u8>>,
    pub colors: Seq<u8>,
    pub has_colors: bool,
}

impl View for MapState {
    type V = MapView;

    closed spec fn view(&self) -> MapView {
        MapView {
            scale: self.scale,
            locked: self.locked,
            decorations: views::seen(self.decorations),
            colors: self.colors@,
            has_colors: self.has_colors,
        }
    }
}

/// The color that a patch holds for cell `i` of a map stands at this index.
pub open spec fn patch_index(patch: MapPatch, i: int) -> int {
    (i / 128 - patch.start_y) * patch.width + (i % 128 - patch.start_x)
}

/// The patch holds a color for cell `i` of a map.
pub open spec fn covers(patch: MapPatch, i: int) -> bool {
    &&& 0 <= i < MAP_CELLS
    &&& patch.start_x <= i % 128 < patch.start_x + patch.width
    &&& patch.start_y <= i / 128 < patch.start_y + patch.height
    &&& patch_index(patch, i) < patch.map_colors@.len()
}

/// The colors after a patch was painted on.
pub open spec fn painted(colors: Seq<u8>, patch: MapPatch) -> Seq<u8> {
    Seq::new(
        MAP_CELLS as nat,
        |i: int|
            if covers(patch, i) {
                patch.map_colors@[patch_index(patch, i)]
            } else {
                colors[i]
            },
    )
}

impl MapView {
    /// A map of which nothing was painted yet.
    pub open spec fn blank() -> MapView {
        MapView {
            scale: 0,
            locked: false,
            decorations: None,
            colors: Seq::new(MAP_CELLS as nat, |i: int| 0u8),
            has_colors: false,
        }
    }

    /// The map after an update: decorations and colors stay where the update
    /// brings none.
    pub open spec fn updated(
        self,
        scale: u8,
        locked: bool,
        decorations: Option<Seq<u8>>,
        patch: Option<MapPatch>,
    ) -> MapView {
        MapView {
            scale,
            locked,
            decorations: match decorations {
                Some(d) => Some(d),
                None => self.decorations,
            },
            colors: match patch {
                Some(patch) => painted(self.colors, patch),
                None => self.colors,
            },
            has_colors: match patch {
                Some(patch) => self.has_colors || exists|i: int| covers(patch, i),
                None => self.has_colors,
            },
        }
    }
}

/// The maps after an update of one of them.
pub open spec fn map_updated(
    maps: Map<u32, MapView>,
    map_id: u32,
    scale: u8,
    locked: bool,
    decorations: Option<Seq<u8>>,
    patch: Option<MapPatch>,
) -> Map<u32, MapView> {
    let known = if maps.contains_key(map_id) {
        maps[map_id]
    } else {
        MapView::blank()
    };
    maps.insert(map_id, known.updated(scale, locked, decorations, patch))
}

/// Each map, whole.
pub open spec fn map_packets(maps: Map<u32, MapView>) -> Seq<PacketView> {
    let all = table::entries_in_order::<u32, MapView>(maps);
    Seq::new(
        all.len(),
        |i: int|
            PacketView::MapItemData {
                map_id: all[i].0,
                scale: all[i].1.scale,
                locked: all[i].1.locked,
                decorations: all[i].1.decorations,
                colors: if all[i].1.has_colors {
                    Some(all[i].1.colors)
                } else {
                    None
                },
            },
    )
}

/// Patches that cover different cells may come in either order.
pub proof fn disjoint_patches_commute(colors: Seq<u8>, a: MapPatch, b: MapPatch)
    requires
        forall|i: int| !(#[trigger] covers(a, i) && covers(b, i)),
    ensures
        painted(painted(colors, a), b) == painted(painted(colors, b), a),
{
    assert(painted(painted(colors, a), b) =~= painted(painted(colors, b), a));
}

/// Cells that a patch was to paint before its row `row`, column `column`.
spec fn reached(patch: MapPatch, i: int, row: int, column: int) -> bool {
    i / 128 - patch.start_y < row || (i / 128 - patch.start_y == row && i % 128 - patch.start_x
        < column)
}

/// The colors once a patch was painted up to its row `row`, column `column`.
spec fn painted_to(
    colors: Seq<u8>,
    patch: MapPatch,
    row: int,
    column: int,
) -> Seq<u8> {
    Seq::new(
        MAP_CELLS as nat,
        |i: int|
            if covers(patch, i) && reached(patch, i, row, column) {
                patch.map_colors@[patch_index(patch, i)]
            } else {
                colors[i]
            },
    )
}

spec fn touched_to(patch: MapPatch, row: int, column: int) -> bool {
    exists|i: int| #[trigger] covers(patch, i) && reached(patch, i, row, column)
}

/// Paints a patch; tells whether it covered any cell.
fn paint(colors: &mut Vec<u8>, patch: &MapPatch) -> (touched: bool)
    requires
        old(colors)@.len() == MAP_CELLS,
    ensures
        final(colors)@ == painted(old(colors)@, *patch),
        touched == exists|i: int| covers(*patch, i),
{
    let ghost start = colors@;
    let width: usize = patch.width as usize;
    let height: usize = patch.height as usize;
    let start_x: usize = patch.start_x as usize;
    let start_y: usize = patch.start_y as usize;
    let mut touched: bool = false;
    let mut row: usize = 0;
    proof {
        assert(colors@ =~= painted_to(start, *patch, 0, 0));
    }
    while row < height
        invariant
            row <= height,
            width == patch.width,
            height == patch.height,
            start_x == patch.start_x,
            start_y == patch.start_y,
            start.len() == MAP_CELLS,
            colors@ == painted_to(start, *patch, row as int, 0),
            touched == touched_to(*patch, row as int, 0),
        decreases height - row,
    {
        let mut column: usize = 0;
        while column < width
            invariant
                row < height,
                column <= width,
                width == patch.width,
                height == patch.height,
                start_x == patch.start_x,
                start_y == patch.start_y,
                start.len() == MAP_CELLS,
                colors@ == painted_to(start, *patch, row as int, column as int),
                touched == touched_to(*patch, row as int, column as int),
            decreases width - column,
        {
            let ghost before = colors@;
            let ghost was = touched;
            assert(0 <= row * width <= 65025) by (nonlinear_arith)
                requires
                    row <= 255,
                    width <= 255,
            ;
            let index: usize = row * width + column;
            let x: usize = start_x + column;
            let y: usize = start_y + row;
            if index < patch.map_colors.len() && x < 128 && y < 128 {
                let cell: usize = y * 128 + x;
                colors.set(cell, patch.map_colors[index]);
                touched = true;
                proof {
                    assert(cell as int / 128 == y && cell as int % 128 == x);
                    assert(patch_index(*patch, cell as int) == index);
                    assert(covers(*patch, cell as int));
                    assert(reached(*patch, cell as int, row as int, column + 1));
                    assert forall|i: int| 0 <= i < MAP_CELLS implies colors@[i] == #[trigger] painted_to(
                        start,
                        *patch,
                        row as int,
                        column + 1,
                    )[i] by {
                        if i == cell {
                        } else {
                            assert(before[i] == painted_to(
                                start,
                                *patch,
                                row as int,
                                column as int,
                            )[i]);
                            if reached(*patch, i, row as int, column + 1) && !reached(
                                *patch,
                                i,
                                row as int,
                                column as int,
                            ) {
                                assert(i / 128 == y && i % 128 == x);
                                assert(i == y * 128 + x);
                            }
                        }
                    }
                    assert(colors@ =~= painted_to(start, *patch, row as int, column + 1));
                }
            } else {
                proof {
                    assert forall|i: int|
                        covers(*patch, i) && reached(*patch, i, row as int, column + 1) implies reached(
                        *patch,
                        i,
                        row as int,
                        column as int,
                    ) by {
                        if !reached(*patch, i, row as int, column as int) {
                            assert(i / 128 == y && i % 128 == x);
                            assert(patch_index(*patch, i) == index);
                        }
                    }
                    assert(colors@ =~= painted_to(start, *patch, row as int, column + 1));
                    if touched_to(*patch, row as int, column + 1) {
                        let i = choose|i: int| #[trigger]
                            covers(*patch, i) && reached(*patch, i, row as int, column + 1);
                        assert(covers(*patch, i) && reached(
                            *patch,
                            i,
                            row as int,
                            column as int,
                        ));
                    }
                    if touched_to(*patch, row as int, column as int) {
                        let i = choose|i: int| #[trigger]
                            covers(*patch, i) && reached(*patch, i, row as int, column as int);
                        assert(covers(*patch, i) && reached(*patch, i, row as int, column + 1));
                    }
                }
            }
            column = column + 1;
        }
        proof {
            assert forall|i: int| covers(*patch, i) implies reached(*patch, i, row as int, width as int)
                == reached(*patch, i, row + 1, 0) by {}
            assert(colors@ =~= painted_to(start, *patch, row + 1, 0));
            if touched_to(*patch, row as int, width as int) {
                let i = choose|i: int| #[trigger]
                    covers(*patch, i) && reached(*patch, i, row as int, width as int);
                assert(covers(*patch, i) && reached(*patch, i, row + 1, 0));
            }
            if touched_to(*patch, row + 1, 0) {
                let i = choose|i: int| #[trigger]
                    covers(*patch, i) && reached(*patch, i, row + 1, 0);
                assert(covers(*patch, i) && reached(*patch, i, row as int, width as int));
            }
        }
        row = row + 1;
    }
    proof {
        assert forall|i: int| covers(*patch, i) implies reached(*patch, i, row as int, 0) by {}
        assert(colors@ =~= painted(start, *patch));
        if exists|i: int| covers(*patch, i) {
            let i = choose|i: int| covers(*patch, i);
            assert(covers(*patch, i) && reached(*patch, i, row as int, 0));
        }
    }
    touched
}

impl MapState {
    #[verifier::type_invariant]
    spec fn whole(self) -> bool {
        self.colors@.len() == MAP_CELLS
    }

    fn blank() -> (r: MapState)
        ensures
            r@ == MapView::blank(),
    {
        let mut colors: Vec<u8> = Vec::new();
        colors.resize(MAP_CELLS, 0);
        let r: MapState = MapState {
            scale: 0,
            locked: false,
            decorations: None,
            colors,
            has_colors: false,
        };
        proof {
            assert(r@.colors =~= MapView::blank().colors);
        }
        r
    }

    fn updated(
        self,
        scale: u8,
        locked: bool,
        decorations: &Option<Vec<u8>>,
        patch: &Option<MapPatch>,
    ) -> (r: MapState)
        ensures
            r@ == self@.updated(scale, locked, views::seen(*decorations), *patch),
    {
        proof {
            use_type_invariant(&self);
        }
        let mut colors: Vec<u8> = self.colors;
        let mut has_colors: bool = self.has_colors;
        if let Some(patch) = patch {
            if paint(&mut colors, patch) {
                has_colors = true;
            }
        }
        MapState {
            scale,
            locked,
            decorations: match decorations {
                Some(d) => Some(packet::copy_bytes(d)),
                None => self.decorations,
            },
            colors,
            has_colors,
        }
    }
}

/// The maps that the player has seen.
pub struct Maps {
    maps: Table<u32, MapState>,
}

impl View for Maps {
    type V = Map<u32, MapView>;

    closed spec fn view(&self) -> Map<u32, MapView> {
        self.maps@
    }
}

impl Maps {
    /// No maps.
    pub fn new() -> (r: Maps)
        ensures
            r@ == Map::<u32, MapView>::empty(),
    {
        Maps { maps: Table::new() }
    }

    /// A map was updated.
    pub fn update(
        &mut self,
        map_id: u32,
        scale: u8,
        locked: bool,
        decorations: &Option<Vec<u8>>,
        patch: &Option<MapPatch>,
    )
        ensures
            final(self)@ == map_updated(
                old(self)@,
                map_id,
                scale,
                locked,
                views::seen(*decorations),
                *patch,
            ),
    {
        let ghost before = self@;
        let known: MapState = match self.maps.remove(&map_id) {
            Some(known) => known,
            None => MapState::blank(),
        };
        self.maps.insert(map_id, known.updated(scale, locked, decorations, patch));
        proof {
            assert(self@ =~= map_updated(
                before,
                map_id,
                scale,
                locked,
                views::seen(*decorations),
                *patch,
            ));
        }
    }

    /// Queues each map, whole.
    pub fn queue_replay(&self, queue: &mut Vec<Packet>)
        ensures
            views::views(final(queue)@) == views::views(old(queue)@) + map_packets(self@),
    {
        let ghost before = views::views(queue@);
        let ghost all = map_packets(self@);
        let n: usize = self.maps.len();
        let mut i: usize = 0;
        proof {
            assert(before =~= before + all.take(0));
        }
        while i < n
            invariant
                i <= n,
                n == table::in_order::<u32, MapView>(self.maps@).len(),
                all == map_packets(self@),
                views::views(queue@) == before + all.take(i as int),
            decreases n - i,
        {
            let map: &MapState = self.maps.value_at(i);
            queue.push(
                Packet::MapItemData {
                    map_id: *self.maps.key_at(i),
                    scale: map.scale,
                    locked: map.locked,
                    decorations: packet::copy_optional(&map.decorations),
                    colors: if map.has_colors {
                        Some(packet::copy_bytes(&map.colors))
                    } else {
                        None
                    },
                },
            );
            proof {
                assert((before + all.take(i as int)).push(all[i as int]) =~= before + all.take(
                    i + 1,
                ));
            }
            i = i + 1;
        }
        proof {
            assert(all.take(i as int) =~= all);
        }
    }
}

} // verus!
