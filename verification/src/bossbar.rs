//! Boss bars.
//!
//! A bar is kept from its addition on, with every update applied. A client
//! that joins in the middle of a fight never saw the addition and fails on a
//! bare update, so each bar is replayed as one addition.

use vstd::prelude::*;

use crate::packet;
use crate::packet::{BossBar, BossBarView, BossOperation, Packet, PacketView};
use crate::table;
use crate::table::Table;
use crate::views;
use crate::views::group_views;

verus! {

broadcast use group_views;

/// The boss bars on screen.
pub struct BossBars {
    bars: Table<u128, BossBar>,
}

impl View for BossBars {
    type V = Map<u128, BossBarView>;

    closed spec fn view(&self) -> Map<u128, BossBarView> {
        self.bars@
    }
}

/// Changes a known bar; an update of a bar that was never added is dropped,
/// since an addition cannot be made up from it.
pub open spec fn update_bar(
    bars: Map<u128, BossBarView>,
    id: u128,
    to: BossBarView,
) -> Map<u128, BossBarView> {
    if bars.contains_key(id) {
        bars.insert(id, to)
    } else {
        bars
    }
}

/// The bars after an operation.
pub open spec fn operated(
    bars: Map<u128, BossBarView>,
    id: u128,
    operation: BossOperation,
) -> Map<u128, BossBarView> {
    match operation {
        BossOperation::Add(bar) => bars.insert(id, bar@),
        BossOperation::Remove => bars.remove(id),
        BossOperation::UpdateProgress(progress) => update_bar(
            bars,
            id,
            BossBarView { progress, ..bars[id] },
        ),
        BossOperation::UpdateName(name) => update_bar(
            bars,
            id,
            BossBarView { name: name@, ..bars[id] },
        ),
        BossOperation::UpdateStyle { color, overlay } => update_bar(
            bars,
            id,
            BossBarView { color, overlay, ..bars[id] },
        ),
        BossOperation::UpdateProperties(properties) => update_bar(
            bars,
            id,
            BossBarView { properties, ..bars[id] },
        ),
    }
}

/// Each bar, added anew.
pub open spec fn bar_packets(bars: Map<u128, BossBarView>) -> Seq<PacketView> {
    let all = table::entries_in_order::<u128, BossBarView>(bars);
    Seq::new(all.len(), |i: int| PacketView::AddBossBar { id: all[i].0, bar: all[i].1 })
}

/// A bar that was never added stays away whatever updates come for it.
pub proof fn orphan_updates_are_ignored(
    bars: Map<u128, BossBarView>,
    id: u128,
    operation: BossOperation,
)
    requires
        !bars.contains_key(id),
        !(operation is Add),
    ensures
        operated(bars, id, operation) == bars,
{
    assert(bars.remove(id) =~= bars);
}

/// A bar that was added and then renamed is replayed as an addition under its
/// last name.
pub proof fn renamed_bar_is_replayed_as_addition(
    bars: Map<u128, BossBarView>,
    id: u128,
    bar: BossBar,
    name: Vec<u8>,
)
    requires
        bars.dom().finite(),
    ensures
        ({
            let after = operated(
                operated(bars, id, BossOperation::Add(bar)),
                id,
                BossOperation::UpdateName(name),
            );
            bar_packets(after).contains(
                PacketView::AddBossBar { id, bar: BossBarView { name: name@, ..bar@ } },
            )
        }),
{
    let after = operated(
        operated(bars, id, BossOperation::Add(bar)),
        id,
        BossOperation::UpdateName(name),
    );
    bars_are_replayed(after, id);
}

/// Every bar is replayed, as an addition.
pub proof fn bars_are_replayed(bars: Map<u128, BossBarView>, id: u128)
    requires
        bars.dom().finite(),
    ensures
        bars.contains_key(id) ==> bar_packets(bars).contains(
            PacketView::AddBossBar { id, bar: bars[id] },
        ),
        !bars.contains_key(id) ==> forall|i: int|
            0 <= i < bar_packets(bars).len() ==> !(#[trigger] bar_packets(bars)[i] matches PacketView::AddBossBar {
                id: other,
                ..
            } && other == id),
{
    table::in_order_lists::<u128, BossBarView>(bars);
    let order = table::in_order::<u128, BossBarView>(bars);
    let packets = bar_packets(bars);
    if bars.contains_key(id) {
        assert(order.contains(id));
        let i = choose|i: int| 0 <= i < order.len() && order[i] == id;
        assert(packets[i] == PacketView::AddBossBar { id, bar: bars[id] });
    } else {
        assert forall|i: int| 0 <= i < packets.len() implies !(#[trigger] packets[i] matches PacketView::AddBossBar {
            id: other,
            ..
        } && other == id) by {
            assert(order.contains(order[i]));
            assert(bars.contains_key(order[i]));
        }
    }
}

impl BossBars {
    /// No bars.
    pub fn new() -> (r: BossBars)
        ensures
            r@ == Map::<u128, BossBarView>::empty(),
    {
        BossBars { bars: Table::new() }
    }

    /// Something happened to a bar.
    pub fn operate(&mut self, id: u128, operation: &BossOperation)
        ensures
            final(self)@ == operated(old(self)@, id, *operation),
    {
        let ghost before = self@;
        match operation {
            BossOperation::Add(bar) => {
                self.bars.insert(id, bar.clone());
            },
            BossOperation::Remove => {
                let _ = self.bars.remove(&id);
            },
            BossOperation::UpdateProgress(progress) => {
                if let Some(bar) = self.bars.remove(&id) {
                    self.bars.insert(id, BossBar { progress: *progress, ..bar });
                }
            },
            BossOperation::UpdateName(name) => {
                if let Some(bar) = self.bars.remove(&id) {
                    self.bars.insert(id, BossBar { name: packet::copy_bytes(name), ..bar });
                }
            },
            BossOperation::UpdateStyle { color, overlay } => {
                if let Some(bar) = self.bars.remove(&id) {
                    self.bars.insert(id, BossBar { color: *color, overlay: *overlay, ..bar });
                }
            },
            BossOperation::UpdateProperties(properties) => {
                if let Some(bar) = self.bars.remove(&id) {
                    self.bars.insert(id, BossBar { properties: *properties, ..bar });
                }
            },
        }
        proof {
            assert(self@ =~= operated(before, id, *operation));
        }
    }

    /// Queues each bar as an addition.
    pub fn queue_replay(&self, queue: &mut Vec<Packet>)
        ensures
            views::views(final(queue)@) == views::views(old(queue)@) + bar_packets(self@),
    {
        let ghost before = views::views(queue@);
        let ghost all = bar_packets(self@);
        let n: usize = self.bars.len();
        let mut i: usize = 0;
        proof {
            assert(before =~= before + all.take(0));
        }
        while i < n
            invariant
                i <= n,
                n == table::in_order::<u128, BossBarView>(self.bars@).len(),
                all == bar_packets(self@),
                views::views(queue@) == before + all.take(i as int),
            decreases n - i,
        {
            queue.push(
                Packet::AddBossBar {
                    id: *self.bars.key_at(i),
                    bar: self.bars.value_at(i).clone(),
                },
            );
            proof {
                assert((before + all.take(i as int)).push(all[i as int]) =~= before + all.take(
                    i + 1,
                ));
            }
            i = i + 1;
        }
        proof {
            assert(all.take(i as int) =~= all);
        }
    }
}

} // verus!
