//! Things that are kept with a number telling when they came.
//!
//! Numbers count up, one per arrival, and start over at 0 after the largest
//! one.

use vstd::prelude::*;

use crate::packet::{Packet, PacketView};
use crate::table;
use crate::table::{Key, Table};
use crate::views;
use crate::views::group_views;

verus! {

broadcast use group_views;

/// The number after `n`; after the largest one comes 0.
pub open spec fn next_number(n: u64) -> u64 {
    if n == u64::MAX {
        0
    } else {
        (n + 1) as u64
    }
}

/// The exec form of [`next_number`].
pub fn number_after(n: u64) -> (r: u64)
    ensures
        r == next_number(n),
{
    if n == u64::MAX {
        0
    } else {
        n + 1
    }
}

/// Where a change stands: the number it carries, which of two lists it is in,
/// and its index there.
pub type Place = (u64, (u8, usize));

/// The places of the changes in two lists.
pub open spec fn places(
    a: Seq<(u64, PacketView)>,
    b: Seq<(u64, PacketView)>,
) -> Map<Place, ()> {
    Map::new(
        |k: Place|
            (k.1.0 == 0 && k.1.1 < a.len() && a[k.1.1 as int].0 == k.0) || (k.1.0 == 1 && k.1.1
                < b.len() && b[k.1.1 as int].0 == k.0),
        |k: Place| (),
    )
}

/// The changes of two lists, by the number they carry; changes with the same
/// number stay in the order in which they stand.
pub open spec fn by_number(
    a: Seq<(u64, PacketView)>,
    b: Seq<(u64, PacketView)>,
) -> Seq<PacketView> {
    let order = table::in_order::<Place, ()>(places(a, b));
    Seq::new(
        order.len(),
        |i: int|
            if order[i].1.0 == 0 {
                a[order[i].1.1 as int].1
            } else {
                b[order[i].1.1 as int].1
            },
    )
}

/// The places of two lists of changes are finitely many.
pub proof fn places_finite(a: Seq<(u64, PacketView)>, b: Seq<(u64, PacketView)>)
    ensures
        places(a, b).dom().finite(),
    decreases a.len() + b.len(),
{
    if b.len() > 0 {
        let c = b.drop_last();
        places_finite(a, c);
        let last = (b.last().0, (1u8, (b.len() - 1) as usize));
        assert forall|k: Place| #[trigger] places(a, b).dom().contains(k) implies places(
            a,
            c,
        ).dom().insert(last).contains(k) by {
            if k.1.0 == 1 && k.1.1 < c.len() {
                assert(c[k.1.1 as int] == b[k.1.1 as int]);
            }
        }
        vstd::set_lib::lemma_set_subset_finite(
            places(a, c).dom().insert(last),
            places(a, b).dom(),
        );
    } else if a.len() > 0 {
        let c = a.drop_last();
        places_finite(c, b);
        let last = (a.last().0, (0u8, (a.len() - 1) as usize));
        assert forall|k: Place| #[trigger] places(a, b).dom().contains(k) implies places(
            c,
            b,
        ).dom().insert(last).contains(k) by {
            if k.1.0 == 0 && k.1.1 < c.len() {
                assert(c[k.1.1 as int] == a[k.1.1 as int]);
            }
        }
        vstd::set_lib::lemma_set_subset_finite(
            places(c, b).dom().insert(last),
            places(a, b).dom(),
        );
    } else {
        assert(places(a, b).dom() =~= Set::<Place>::empty());
    }
}

/// Nothing comes out that is in neither list.
pub proof fn by_number_is_listed(
    a: Seq<(u64, PacketView)>,
    b: Seq<(u64, PacketView)>,
    i: int,
)
    requires
        0 <= i < by_number(a, b).len(),
    ensures
        exists|k: int|
            #![trigger a[k]]
            #![trigger b[k]]
            (0 <= k < a.len() && by_number(a, b)[i] == a[k].1) || (0 <= k < b.len() && by_number(
                a,
                b,
            )[i] == b[k].1),
{
    places_finite(a, b);
    table::in_order_lists::<Place, ()>(places(a, b));
    let order = table::in_order::<Place, ()>(places(a, b));
    assert(order.contains(order[i]));
    assert(places(a, b).contains_key(order[i]));
    let k = order[i].1.1 as int;
    if order[i].1.0 == 0 {
        assert(by_number(a, b)[i] == a[k].1);
    } else {
        assert(by_number(a, b)[i] == b[k].1);
    }
}

/// Queues the packets of two tables by the number they carry.
pub fn queue_by_number<K: Key>(
    queue: &mut Vec<Packet>,
    first: &Table<K, (u64, Packet)>,
    second: &Table<K, (u64, Packet)>,
)
    ensures
        views::views(final(queue)@) == views::views(old(queue)@) + by_number(
            table::values_in_order::<K, (u64, PacketView)>(first@),
            table::values_in_order::<K, (u64, PacketView)>(second@),
        ),
{
    let ghost a = table::values_in_order::<K, (u64, PacketView)>(first@);
    let ghost b = table::values_in_order::<K, (u64, PacketView)>(second@);
    let ghost before = views::views(queue@);
    let ghost none = Seq::<(u64, PacketView)>::empty();
    let mut keys: Table<Place, ()> = Table::new();
    let n: usize = first.len();
    let mut i: usize = 0;
    proof {
        assert(places(a.take(0), none) =~= Map::<Place, ()>::empty());
    }
    while i < n
        invariant
            i <= n,
            n == table::in_order::<K, (u64, PacketView)>(first@).len(),
            a == table::values_in_order::<K, (u64, PacketView)>(first@),
            none == Seq::<(u64, PacketView)>::empty(),
            keys@ == places(a.take(i as int), none),
        decreases n - i,
    {
        keys.insert((first.value_at(i).0, (0, i)), ());
        proof {
            assert(places(a.take(i as int), none).insert((a[i as int].0, (0u8, i)), ())
                =~= places(a.take(i + 1), none));
        }
        i = i + 1;
    }
    let m: usize = second.len();
    let mut j: usize = 0;
    proof {
        assert(a.take(n as int) =~= a);
        assert(b.take(0) =~= none);
    }
    while j < m
        invariant
            j <= m,
            m == table::in_order::<K, (u64, PacketView)>(second@).len(),
            b == table::values_in_order::<K, (u64, PacketView)>(second@),
            keys@ == places(a, b.take(j as int)),
        decreases m - j,
    {
        keys.insert((second.value_at(j).0, (1, j)), ());
        proof {
            assert(places(a, b.take(j as int)).insert((b[j as int].0, (1u8, j)), ())
                =~= places(a, b.take(j + 1)));
        }
        j = j + 1;
    }
    proof {
        assert(b.take(m as int) =~= b);
    }
    let ghost all = by_number(a, b);
    let total: usize = keys.len();
    let mut k: usize = 0;
    proof {
        assert(before =~= before + all.take(0));
    }
    while k < total
        invariant
            k <= total,
            total == all.len(),
            total == table::in_order::<Place, ()>(keys@).len(),
            keys@ == places(a, b),
            all == by_number(a, b),
            a == table::values_in_order::<K, (u64, PacketView)>(first@),
            b == table::values_in_order::<K, (u64, PacketView)>(second@),
            views::views(queue@) == before + all.take(k as int),
        decreases total - k,
    {
        let place: &Place = keys.key_at(k);
        let packet: Packet = if place.1.0 == 0 {
            first.value_at(place.1.1).1.clone()
        } else {
            second.value_at(place.1.1).1.clone()
        };
        queue.push(packet);
        proof {
            assert((before + all.take(k as int)).push(all[k as int]) =~= before + all.take(
                k + 1,
            ));
        }
        k = k + 1;
    }
    proof {
        assert(all.take(k as int) =~= all);
    }
}

} // verus!
