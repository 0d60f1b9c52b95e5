//! The tab list: one merged entry per player.

use vstd::prelude::*;

use crate::packet::{
    Packet, PacketView, PlayerInfoActions, PlayerInfoEntry, PlayerInfoView, Profile, ProfileView,
    Property, PropertyView,
};
use crate::packet;
use crate::table;
use crate::table::Table;
use crate::text;
use crate::views;
use crate::views::group_views;

verus! {

broadcast use group_views;

/// The players on the tab list.
pub struct Roster {
    players: Table<u128, PlayerInfoEntry>,
}

/// What a [`Roster`] holds, by uuid.
#[verifier::ext_equal]
pub struct RosterView {
    pub players: Map<u128, PlayerInfoView>,
}

/// A property without its signature.
pub open spec fn unsigned_property(p: PropertyView) -> PropertyView {
    PropertyView { signature: None, ..p }
}

/// An entry whose properties carry no signatures. A client on an offline-mode
/// connection cannot check them, and drops a skin whose signature is empty;
/// without one it uses the skin unsigned.
pub open spec fn stripped(e: PlayerInfoView) -> PlayerInfoView {
    PlayerInfoView {
        profile: ProfileView {
            properties: Seq::new(
                e.profile.properties.len(),
                |i: int| unsigned_property(e.profile.properties[i]),
            ),
            ..e.profile
        },
        ..e
    }
}

/// What is known of a player after an update: the parts that the update
/// carries are taken from it. Chat sessions are never kept.
pub open spec fn merged(
    known: PlayerInfoView,
    entry: PlayerInfoView,
    actions: PlayerInfoActions,
) -> PlayerInfoView {
    PlayerInfoView {
        profile: if actions.add_player {
            entry.profile
        } else {
            known.profile
        },
        chat_session: None,
        game_mode: if actions.update_game_mode {
            entry.game_mode
        } else {
            known.game_mode
        },
        listed: if actions.update_listed {
            entry.listed
        } else {
            known.listed
        },
        latency: if actions.update_latency {
            entry.latency
        } else {
            known.latency
        },
        display_name: if actions.update_display_name {
            entry.display_name
        } else {
            known.display_name
        },
        list_order: if actions.update_list_order {
            entry.list_order
        } else {
            known.list_order
        },
        update_hat: if actions.update_hat {
            entry.update_hat
        } else {
            known.update_hat
        },
    }
}

/// The parts of an entry that are replayed. The list order and the hat stay
/// out: the encoder announces them without writing them, and no client can
/// read the result.
pub open spec fn replayed_actions() -> PlayerInfoActions {
    PlayerInfoActions {
        add_player: true,
        initialize_chat: false,
        update_game_mode: true,
        update_listed: true,
        update_latency: true,
        update_display_name: true,
        update_list_order: false,
        update_hat: false,
    }
}

impl RosterView {
    pub open spec fn empty() -> RosterView {
        RosterView { players: Map::empty() }
    }

    pub open spec fn update(self, actions: PlayerInfoActions, entry: PlayerInfoView) -> RosterView {
        let uuid = entry.profile.uuid;
        let known = if self.players.contains_key(uuid) {
            self.players[uuid]
        } else {
            entry
        };
        RosterView { players: self.players.insert(uuid, merged(known, entry, actions)) }
    }

    pub open spec fn update_all(
        self,
        actions: PlayerInfoActions,
        entries: Seq<PlayerInfoView>,
    ) -> RosterView
        decreases entries.len(),
    {
        if entries.len() == 0 {
            self
        } else {
            self.update_all(actions, entries.drop_last()).update(actions, entries.last())
        }
    }

    pub open spec fn remove_all(self, profiles: Seq<u128>) -> RosterView {
        RosterView { players: table::drop_all(self.players, profiles) }
    }

    /// The first of the players from position `n` on with this name, whatever
    /// its case.
    pub open spec fn named_from(self, name: Seq<char>, n: int) -> Option<u128>
        decreases table::in_order::<u128, PlayerInfoView>(self.players).len() - n,
    {
        let order = table::in_order::<u128, PlayerInfoView>(self.players);
        if n < 0 || n >= order.len() {
            None
        } else if text::same_text(self.players[order[n]].profile.name, name) {
            Some(self.players[order[n]].profile.uuid)
        } else {
            self.named_from(name, n + 1)
        }
    }

    /// The player with this name, whatever its case; the one with the lowest
    /// uuid where there are several.
    pub open spec fn named(self, name: Seq<char>) -> Option<u128> {
        self.named_from(name, 0)
    }

    /// The tab list for a fresh client: one packet with every entry, without
    /// signatures, or nothing where there is no entry.
    pub open spec fn replay(self) -> Seq<PacketView> {
        let all = table::values_in_order::<u128, PlayerInfoView>(self.players);
        if self.players == Map::<u128, PlayerInfoView>::empty() {
            Seq::empty()
        } else {
            seq![
                PacketView::PlayerInfoUpdate {
                    actions: replayed_actions(),
                    entries: Seq::new(all.len(), |i: int| stripped(all[i])),
                },
            ]
        }
    }

    /// Every entry stands under its own uuid.
    pub open spec fn keyed(self) -> bool {
        forall|uuid: u128| #[trigger]
            self.players.contains_key(uuid) ==> self.players[uuid].profile.uuid == uuid
    }
}

/// Updates keep every entry under its own uuid.
pub proof fn updates_keep_keys(
    roster: RosterView,
    actions: PlayerInfoActions,
    entries: Seq<PlayerInfoView>,
)
    requires
        roster.keyed(),
    ensures
        roster.update_all(actions, entries).keyed(),
    decreases entries.len(),
{
    if entries.len() > 0 {
        updates_keep_keys(roster, actions, entries.drop_last());
    }
}

impl View for Roster {
    type V = RosterView;

    closed spec fn view(&self) -> RosterView {
        RosterView { players: self.players@ }
    }
}

/// A copy of an entry whose properties carry no signatures.
pub fn strip_signatures(entry: &PlayerInfoEntry) -> (r: PlayerInfoEntry)
    ensures
        r@ == stripped(entry@),
{
    let old: &Vec<Property> = &entry.profile.properties;
    let mut properties: Vec<Property> = Vec::new();
    let ghost all = stripped(entry@).profile.properties;
    let mut i: usize = 0;
    while i < old.len()
        invariant
            i <= old.len(),
            *old == entry.profile.properties,
            all == stripped(entry@).profile.properties,
            views::views(properties@) == all.take(i as int),
        decreases old.len() - i,
    {
        properties.push(
            Property { name: old[i].name.clone(), value: old[i].value.clone(), signature: None },
        );
        proof {
            assert(all.take(i + 1) =~= all.take(i as int).push(all[i as int]));
        }
        i = i + 1;
    }
    proof {
        assert(all.take(i as int) =~= all);
    }
    let r: PlayerInfoEntry = PlayerInfoEntry {
        profile: Profile { uuid: entry.profile.uuid, name: entry.profile.name.clone(), properties },
        chat_session: packet::copy_optional(&entry.chat_session),
        game_mode: entry.game_mode,
        listed: entry.listed,
        latency: entry.latency,
        display_name: packet::copy_optional(&entry.display_name),
        list_order: entry.list_order,
        update_hat: entry.update_hat,
    };
    proof {
        assert(r@ =~= stripped(entry@));
    }
    r
}

fn merge(
    known: PlayerInfoEntry,
    entry: &PlayerInfoEntry,
    actions: &PlayerInfoActions,
) -> (r: PlayerInfoEntry)
    ensures
        r@ == merged(known@, entry@, *actions),
{
    PlayerInfoEntry {
        profile: if actions.add_player {
            entry.profile.clone()
        } else {
            known.profile
        },
        chat_session: None,
        game_mode: if actions.update_game_mode {
            entry.game_mode
        } else {
            known.game_mode
        },
        listed: if actions.update_listed {
            entry.listed
        } else {
            known.listed
        },
        latency: if actions.update_latency {
            entry.latency
        } else {
            known.latency
        },
        display_name: if actions.update_display_name {
            packet::copy_optional(&entry.display_name)
        } else {
            known.display_name
        },
        list_order: if actions.update_list_order {
            entry.list_order
        } else {
            known.list_order
        },
        update_hat: if actions.update_hat {
            entry.update_hat
        } else {
            known.update_hat
        },
    }
}

impl Roster {
    /// No players.
    pub fn new() -> (r: Roster)
        ensures
            r@ == RosterView::empty(),
    {
        Roster { players: Table::new() }
    }

    /// Entries were added or changed.
    pub fn update_all(&mut self, actions: &PlayerInfoActions, entries: &Vec<PlayerInfoEntry>)
        ensures
            final(self)@ == old(self)@.update_all(*actions, views::views(entries@)),
    {
        let ghost start = self@;
        let ghost all = views::views(entries@);
        let mut i: usize = 0;
        proof {
            assert(all.take(0) =~= Seq::<PlayerInfoView>::empty());
        }
        while i < entries.len()
            invariant
                i <= entries.len(),
                all == views::views(entries@),
                self@ == start.update_all(*actions, all.take(i as int)),
            decreases entries.len() - i,
        {
            let ghost before = self@;
            let uuid: u128 = entries[i].profile.uuid;
            let known: PlayerInfoEntry = match self.players.remove(&uuid) {
                Some(known) => known,
                None => entries[i].clone(),
            };
            self.players.insert(uuid, merge(known, &entries[i], actions));
            proof {
                assert(self@ =~= before.update(*actions, all[i as int]));
                assert(all.take(i + 1).drop_last() =~= all.take(i as int));
                assert(all.take(i + 1).last() == all[i as int]);
            }
            i = i + 1;
        }
        proof {
            assert(all.take(i as int) =~= all);
        }
    }

    /// Players left.
    pub fn remove_all(&mut self, profiles: &Vec<u128>)
        ensures
            final(self)@ == old(self)@.remove_all(profiles@),
    {
        let ghost start = self@;
        let mut i: usize = 0;
        proof {
            assert(profiles@.take(0) =~= Seq::<u128>::empty());
        }
        while i < profiles.len()
            invariant
                i <= profiles.len(),
                self@ == start.remove_all(profiles@.take(i as int)),
            decreases profiles.len() - i,
        {
            let _ = self.players.remove(&profiles[i]);
            proof {
                assert(profiles@.take(i + 1).drop_last() =~= profiles@.take(i as int));
                assert(profiles@.take(i + 1).last() == profiles@[i as int]);
            }
            i = i + 1;
        }
        proof {
            assert(profiles@.take(i as int) =~= profiles@);
        }
    }

    /// The player with a name, whatever its case.
    pub fn named(&self, name: &str) -> (r: Option<u128>)
        ensures
            r == self@.named(name@),
    {
        let n: usize = self.players.len();
        let mut i: usize = 0;
        while i < n
            invariant
                i <= n,
                n == table::in_order::<u128, PlayerInfoView>(self.players@).len(),
                self@.named(name@) == self@.named_from(name@, i as int),
            decreases n - i,
        {
            let entry: &PlayerInfoEntry = self.players.value_at(i);
            if text::same(entry.profile.name.as_str(), name) {
                return Some(entry.profile.uuid);
            }
            i = i + 1;
        }
        None
    }

    /// The name of the player with a uuid.
    pub fn name_of(&self, uuid: u128) -> (r: Option<&str>)
        ensures
            match r {
                Some(name) => self@.players.contains_key(uuid) && name@
                    == self@.players[uuid].profile.name,
                None => !self@.players.contains_key(uuid),
            },
    {
        match self.players.get(&uuid) {
            Some(entry) => Some(entry.profile.name.as_str()),
            None => None,
        }
    }

    /// Queues the tab list for a fresh client.
    pub fn queue_replay(&self, queue: &mut Vec<Packet>)
        ensures
            views::views(final(queue)@) == views::views(old(queue)@) + self@.replay(),
    {
        let ghost before = views::views(queue@);
        let n: usize = self.players.len();
        if n > 0 {
            let ghost values = table::values_in_order::<u128, PlayerInfoView>(self.players@);
            let ghost all = Seq::new(values.len(), |i: int| stripped(values[i]));
            let mut entries: Vec<PlayerInfoEntry> = Vec::new();
            let mut i: usize = 0;
            while i < n
                invariant
                    i <= n,
                    n == table::in_order::<u128, PlayerInfoView>(self.players@).len(),
                    values == table::values_in_order::<u128, PlayerInfoView>(self.players@),
                    all == Seq::new(values.len(), |i: int| stripped(values[i])),
                    views::views(entries@) == all.take(i as int),
                decreases n - i,
            {
                entries.push(strip_signatures(self.players.value_at(i)));
                proof {
                    assert(all.take(i + 1) =~= all.take(i as int).push(all[i as int]));
                }
                i = i + 1;
            }
            proof {
                assert(all.take(i as int) =~= all);
            }
            queue.push(
                Packet::PlayerInfoUpdate {
                    actions: PlayerInfoActions {
                        add_player: true,
                        initialize_chat: false,
                        update_game_mode: true,
                        update_listed: true,
                        update_latency: true,
                        update_display_name: true,
                        update_list_order: false,
                        update_hat: false,
                    },
                    entries,
                },
            );
        }
        proof {
            assert(views::views(queue@) =~= before + self@.replay());
        }
    }
}

} // verus!
