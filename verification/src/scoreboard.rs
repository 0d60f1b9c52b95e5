//! Objectives, where they are displayed, their scores, and teams.
//!
//! Every objective is kept as the addition that creates it, also where the
//! server last changed it: a client that never saw the objective ignores a
//! change. An addition and a change carry the same parameters, so nothing is
//! lost.

use vstd::prelude::*;
use vstd::string::StrSliceExecFns;

use crate::packet;
use crate::packet::{Packet, PacketView};
use crate::plugin::{Frame, FrameView};
use crate::table;
use crate::table::Table;
use crate::views;
use crate::views::group_views;

verus! {

broadcast use group_views;

/// A team: its parameters, encoded, and its members.
pub struct Team {
    parameters: Vec<u8>,
    players: Table<String, ()>,
}

/// What a [`Team`] holds.
#[verifier::ext_equal]
pub struct TeamView {
    pub parameters: Seq<u8>,
    pub players: Map<Seq<char>, ()>,
}

impl View for Team {
    type V = TeamView;

    closed spec fn view(&self) -> TeamView {
        TeamView { parameters: self.parameters@, players: self.players@ }
    }
}

/// The scoreboard of a world.
pub struct Scoreboard {
    objectives: Table<String, Vec<u8>>,
    displays: Table<u8, (String, Frame)>,
    scores: Table<(String, String), Frame>,
    teams: Table<String, Team>,
}

/// What a [`Scoreboard`] holds. Scores are kept by objective and owner.
#[verifier::ext_equal]
pub struct ScoreboardView {
    pub objectives: Map<Seq<char>, Seq<u8>>,
    pub displays: Map<u8, (Seq<char>, FrameView)>,
    pub scores: Map<(Seq<char>, Seq<char>), FrameView>,
    pub teams: Map<Seq<char>, TeamView>,
}

/// The scores of other objectives.
pub open spec fn score_elsewhere(name: Seq<char>) -> spec_fn(
    (Seq<char>, Seq<char>),
    FrameView,
) -> bool {
    |key: (Seq<char>, Seq<char>), frame: FrameView| key.0 != name
}

/// The scores of other owners.
pub open spec fn score_of_others(owner: Seq<char>) -> spec_fn(
    (Seq<char>, Seq<char>),
    FrameView,
) -> bool {
    |key: (Seq<char>, Seq<char>), frame: FrameView| key.1 != owner
}

/// The displays of other objectives.
pub open spec fn display_elsewhere(name: Seq<char>) -> spec_fn(
    u8,
    (Seq<char>, FrameView),
) -> bool {
    |slot: u8, display: (Seq<char>, FrameView)| display.0 != name
}

/// The members after some more joined.
pub open spec fn enlisted(players: Map<Seq<char>, ()>, names: Seq<Seq<char>>) -> Map<Seq<char>, ()>
    decreases names.len(),
{
    if names.len() == 0 {
        players
    } else {
        enlisted(players, names.drop_last()).insert(names.last(), ())
    }
}

impl ScoreboardView {
    pub open spec fn empty() -> ScoreboardView {
        ScoreboardView {
            objectives: Map::empty(),
            displays: Map::empty(),
            scores: Map::empty(),
            teams: Map::empty(),
        }
    }

    pub open spec fn set_objective(self, name: Seq<char>, parameters: Seq<u8>) -> ScoreboardView {
        ScoreboardView { objectives: self.objectives.insert(name, parameters), ..self }
    }

    /// An objective is gone, with its scores and displays.
    pub open spec fn remove_objective(self, name: Seq<char>) -> ScoreboardView {
        ScoreboardView {
            objectives: self.objectives.remove(name),
            scores: table::kept(self.scores, score_elsewhere(name)),
            displays: table::kept(self.displays, display_elsewhere(name)),
            ..self
        }
    }

    /// A slot shows an objective or, where the name is empty, nothing.
    pub open spec fn display(self, slot: u8, name: Seq<char>, frame: FrameView) -> ScoreboardView {
        ScoreboardView {
            displays: if name.len() == 0 {
                self.displays.remove(slot)
            } else {
                self.displays.insert(slot, (name, frame))
            },
            ..self
        }
    }

    pub open spec fn set_score(
        self,
        objective: Seq<char>,
        owner: Seq<char>,
        frame: FrameView,
    ) -> ScoreboardView {
        ScoreboardView { scores: self.scores.insert((objective, owner), frame), ..self }
    }

    /// One score of an owner is gone, or all of them.
    pub open spec fn reset_score(
        self,
        owner: Seq<char>,
        objective: Option<Seq<char>>,
    ) -> ScoreboardView {
        ScoreboardView {
            scores: match objective {
                Some(objective) => self.scores.remove((objective, owner)),
                None => table::kept(self.scores, score_of_others(owner)),
            },
            ..self
        }
    }

    pub open spec fn add_team(
        self,
        name: Seq<char>,
        parameters: Seq<u8>,
        players: Seq<Seq<char>>,
    ) -> ScoreboardView {
        ScoreboardView {
            teams: self.teams.insert(
                name,
                TeamView { parameters, players: enlisted(Map::empty(), players) },
            ),
            ..self
        }
    }

    pub open spec fn remove_team(self, name: Seq<char>) -> ScoreboardView {
        ScoreboardView { teams: self.teams.remove(name), ..self }
    }

    /// Changes a known team; others stay unknown.
    pub open spec fn update_team(self, name: Seq<char>, to: TeamView) -> ScoreboardView {
        if self.teams.contains_key(name) {
            ScoreboardView { teams: self.teams.insert(name, to), ..self }
        } else {
            self
        }
    }

    pub open spec fn change_team(self, name: Seq<char>, parameters: Seq<u8>) -> ScoreboardView {
        self.update_team(name, TeamView { parameters, ..self.teams[name] })
    }

    pub open spec fn join_team(self, name: Seq<char>, players: Seq<Seq<char>>) -> ScoreboardView {
        self.update_team(
            name,
            TeamView {
                players: enlisted(self.teams[name].players, players),
                ..self.teams[name]
            },
        )
    }

    pub open spec fn leave_team(self, name: Seq<char>, players: Seq<Seq<char>>) -> ScoreboardView {
        self.update_team(
            name,
            TeamView {
                players: table::drop_all(self.teams[name].players, players),
                ..self.teams[name]
            },
        )
    }

    /// Each objective, created anew.
    pub open spec fn objective_packets(self) -> Seq<PacketView> {
        let all = table::entries_in_order::<String, Seq<u8>>(self.objectives);
        Seq::new(
            all.len(),
            |i: int| PacketView::AddObjective { name: all[i].0, parameters: all[i].1 },
        )
    }

    /// Each team, created anew with its members in order.
    pub open spec fn team_packets(self) -> Seq<PacketView> {
        let all = table::entries_in_order::<String, TeamView>(self.teams);
        Seq::new(
            all.len(),
            |i: int|
                PacketView::AddTeam {
                    name: all[i].0,
                    parameters: all[i].1.parameters,
                    players: table::in_order::<String, ()>(all[i].1.players),
                },
        )
    }

    /// What each slot displays.
    pub open spec fn display_packets(self) -> Seq<PacketView> {
        let all = table::values_in_order::<u8, (Seq<char>, FrameView)>(self.displays);
        Seq::new(all.len(), |i: int| PacketView::Raw(all[i].1))
    }

    /// What shows the scoreboard to a fresh client. What others refer to comes
    /// first: objectives, teams, displays, scores.
    pub open spec fn replay(self) -> Seq<PacketView> {
        self.objective_packets() + self.team_packets() + self.display_packets() + packet::raws(
            table::values_in_order::<(String, String), FrameView>(self.scores),
        )
    }
}

impl View for Scoreboard {
    type V = ScoreboardView;

    closed spec fn view(&self) -> ScoreboardView {
        ScoreboardView {
            objectives: self.objectives@,
            displays: self.displays@,
            scores: self.scores@,
            teams: self.teams@,
        }
    }
}

fn enlist(players: &mut Table<String, ()>, names: &Vec<String>)
    ensures
        final(players)@ == enlisted(old(players)@, views::views(names@)),
{
    let ghost start = players@;
    let ghost all = views::views(names@);
    let mut i: usize = 0;
    proof {
        assert(all.take(0) =~= Seq::<Seq<char>>::empty());
    }
    while i < names.len()
        invariant
            i <= names.len(),
            all == views::views(names@),
            players@ == enlisted(start, all.take(i as int)),
        decreases names.len() - i,
    {
        players.insert(names[i].clone(), ());
        proof {
            assert(all.take(i + 1).drop_last() =~= all.take(i as int));
            assert(all.take(i + 1).last() == all[i as int]);
        }
        i = i + 1;
    }
    proof {
        assert(all.take(i as int) =~= all);
    }
}

fn discharge(players: &mut Table<String, ()>, names: &Vec<String>)
    ensures
        final(players)@ == table::drop_all(old(players)@, views::views(names@)),
{
    let ghost start = players@;
    let ghost all = views::views(names@);
    let mut i: usize = 0;
    proof {
        assert(all.take(0) =~= Seq::<Seq<char>>::empty());
    }
    while i < names.len()
        invariant
            i <= names.len(),
            all == views::views(names@),
            players@ == table::drop_all(start, all.take(i as int)),
        decreases names.len() - i,
    {
        let _ = players.remove(&names[i]);
        proof {
            assert(all.take(i + 1).drop_last() =~= all.take(i as int));
            assert(all.take(i + 1).last() == all[i as int]);
        }
        i = i + 1;
    }
    proof {
        assert(all.take(i as int) =~= all);
    }
}

impl Team {
    fn members(&self) -> (r: Vec<String>)
        ensures
            views::views(r@) == table::in_order::<String, ()>(self@.players),
    {
        let n: usize = self.players.len();
        let ghost all = table::in_order::<String, ()>(self.players@);
        let mut r: Vec<String> = Vec::new();
        let mut i: usize = 0;
        proof {
            assert(all.take(0) =~= Seq::<Seq<char>>::empty());
        }
        while i < n
            invariant
                i <= n,
                n == all.len(),
                all == table::in_order::<String, ()>(self.players@),
                views::views(r@) == all.take(i as int),
            decreases n - i,
        {
            r.push(self.players.key_at(i).clone());
            proof {
                assert(all.take(i + 1) =~= all.take(i as int).push(all[i as int]));
            }
            i = i + 1;
        }
        proof {
            assert(all.take(i as int) =~= all);
        }
        r
    }
}

impl Scoreboard {
    /// Nothing on the board.
    pub fn new() -> (r: Scoreboard)
        ensures
            r@ == ScoreboardView::empty(),
    {
        Scoreboard {
            objectives: Table::new(),
            displays: Table::new(),
            scores: Table::new(),
            teams: Table::new(),
        }
    }

    /// An objective was added or changed.
    pub fn set_objective(&mut self, name: &String, parameters: &Vec<u8>)
        ensures
            final(self)@ == old(self)@.set_objective(name@, parameters@),
    {
        self.objectives.insert(name.clone(), packet::copy_bytes(parameters));
    }

    /// An objective was removed.
    pub fn remove_objective(&mut self, name: &String)
        ensures
            final(self)@ == old(self)@.remove_objective(name@),
    {
        let _ = self.objectives.remove(name);
        let test = |key: &(String, String), frame: &Frame| -> (keep: bool)
            ensures
                keep == (key.0@ != name@),
            { !(key.0 == *name) };
        self.scores.retain(test, Ghost(score_elsewhere(name@)));
        let test = |slot: &u8, display: &(String, Frame)| -> (keep: bool)
            ensures
                keep == (display.0@ != name@),
            { !(display.0 == *name) };
        self.displays.retain(test, Ghost(display_elsewhere(name@)));
    }

    /// A display slot was set or cleared.
    pub fn display(&mut self, slot: u8, name: &String, frame: &Frame)
        ensures
            final(self)@ == old(self)@.display(slot, name@, frame@),
    {
        if name.as_str().unicode_len() == 0 {
            let _ = self.displays.remove(&slot);
        } else {
            self.displays.insert(slot, (name.clone(), frame.clone()));
        }
    }

    /// A score was set.
    pub fn set_score(&mut self, objective: &String, owner: &String, frame: &Frame)
        ensures
            final(self)@ == old(self)@.set_score(objective@, owner@, frame@),
    {
        self.scores.insert((objective.clone(), owner.clone()), frame.clone());
    }

    /// Scores were reset.
    pub fn reset_score(&mut self, owner: &String, objective: &Option<String>)
        ensures
            final(self)@ == old(self)@.reset_score(owner@, views::seen(*objective)),
    {
        match objective {
            Some(objective) => {
                let key: (String, String) = (objective.clone(), owner.clone());
                let _ = self.scores.remove(&key);
            },
            None => {
                let test = |key: &(String, String), frame: &Frame| -> (keep: bool)
                    ensures
                        keep == (key.1@ != owner@),
                    { !(key.1 == *owner) };
                self.scores.retain(test, Ghost(score_of_others(owner@)));
            },
        }
    }

    /// A team was created.
    pub fn add_team(&mut self, name: &String, parameters: &Vec<u8>, players: &Vec<String>)
        ensures
            final(self)@ == old(self)@.add_team(name@, parameters@, views::views(players@)),
    {
        let mut members: Table<String, ()> = Table::new();
        enlist(&mut members, players);
        self.teams.insert(
            name.clone(),
            Team { parameters: packet::copy_bytes(parameters), players: members },
        );
    }

    /// A team was removed.
    pub fn remove_team(&mut self, name: &String)
        ensures
            final(self)@ == old(self)@.remove_team(name@),
    {
        let _ = self.teams.remove(name);
    }

    /// The parameters of a team changed.
    pub fn change_team(&mut self, name: &String, parameters: &Vec<u8>)
        ensures
            final(self)@ == old(self)@.change_team(name@, parameters@),
    {
        let ghost before = self@;
        if let Some(team) = self.teams.remove(name) {
            self.teams.insert(
                name.clone(),
                Team { parameters: packet::copy_bytes(parameters), players: team.players },
            );
        }
        proof {
            assert(self@ =~= before.change_team(name@, parameters@));
        }
    }

    /// Players joined a team.
    pub fn join_team(&mut self, name: &String, players: &Vec<String>)
        ensures
            final(self)@ == old(self)@.join_team(name@, views::views(players@)),
    {
        let ghost before = self@;
        if let Some(team) = self.teams.remove(name) {
            let mut members: Table<String, ()> = team.players;
            enlist(&mut members, players);
            self.teams.insert(
                name.clone(),
                Team { parameters: team.parameters, players: members },
            );
        }
        proof {
            assert(self@ =~= before.join_team(name@, views::views(players@)));
        }
    }

    /// Players left a team.
    pub fn leave_team(&mut self, name: &String, players: &Vec<String>)
        ensures
            final(self)@ == old(self)@.leave_team(name@, views::views(players@)),
    {
        let ghost before = self@;
        if let Some(team) = self.teams.remove(name) {
            let mut members: Table<String, ()> = team.players;
            discharge(&mut members, players);
            self.teams.insert(
                name.clone(),
                Team { parameters: team.parameters, players: members },
            );
        }
        proof {
            assert(self@ =~= before.leave_team(name@, views::views(players@)));
        }
    }

    fn queue_objectives(&self, queue: &mut Vec<Packet>)
        ensures
            views::views(final(queue)@) == views::views(old(queue)@) + self@.objective_packets(),
    {
        let ghost before = views::views(queue@);
        let ghost all = self@.objective_packets();
        let n: usize = self.objectives.len();
        let mut i: usize = 0;
        proof {
            assert(before =~= before + all.take(0));
        }
        while i < n
            invariant
                i <= n,
                n == table::in_order::<String, Seq<u8>>(self.objectives@).len(),
                all == self@.objective_packets(),
                views::views(queue@) == before + all.take(i as int),
            decreases n - i,
        {
            queue.push(
                Packet::AddObjective {
                    name: self.objectives.key_at(i).clone(),
                    parameters: packet::copy_bytes(self.objectives.value_at(i)),
                },
            );
            proof {
                assert((before + all.take(i as int)).push(all[i as int]) =~= before + all.take(
                    i + 1,
                ));
            }
            i = i + 1;
        }
        proof {
            assert(all.take(i as int) =~= all);
        }
    }

    fn queue_teams(&self, queue: &mut Vec<Packet>)
        ensures
            views::views(final(queue)@) == views::views(old(queue)@) + self@.team_packets(),
    {
        let ghost before = views::views(queue@);
        let ghost all = self@.team_packets();
        let n: usize = self.teams.len();
        let mut i: usize = 0;
        proof {
            assert(before =~= before + all.take(0));
        }
        while i < n
            invariant
                i <= n,
                n == table::in_order::<String, TeamView>(self.teams@).len(),
                all == self@.team_packets(),
                views::views(queue@) == before + all.take(i as int),
            decreases n - i,
        {
            let team: &Team = self.teams.value_at(i);
            queue.push(
                Packet::AddTeam {
                    name: self.teams.key_at(i).clone(),
                    parameters: packet::copy_bytes(&team.parameters),
                    players: team.members(),
                },
            );
            proof {
                assert((before + all.take(i as int)).push(all[i as int]) =~= before + all.take(
                    i + 1,
                ));
            }
            i = i + 1;
        }
        proof {
            assert(all.take(i as int) =~= all);
        }
    }

    fn queue_displays(&self, queue: &mut Vec<Packet>)
        ensures
            views::views(final(queue)@) == views::views(old(queue)@) + self@.display_packets(),
    {
        let ghost before = views::views(queue@);
        let ghost all = self@.display_packets();
        let n: usize = self.displays.len();
        let mut i: usize = 0;
        proof {
            assert(before =~= before + all.take(0));
        }
        while i < n
            invariant
                i <= n,
                n == table::in_order::<u8, (Seq<char>, FrameView)>(self.displays@).len(),
                all == self@.display_packets(),
                views::views(queue@) == before + all.take(i as int),
            decreases n - i,
        {
            queue.push(Packet::Raw(self.displays.value_at(i).1.clone()));
            proof {
                assert((before + all.take(i as int)).push(all[i as int]) =~= before + all.take(
                    i + 1,
                ));
            }
            i = i + 1;
        }
        proof {
            assert(all.take(i as int) =~= all);
        }
    }

    /// Queues what shows the scoreboard to a fresh client.
    pub fn queue_replay(&self, queue: &mut Vec<Packet>)
        ensures
            views::views(final(queue)@) == views::views(old(queue)@) + self@.replay(),
    {
        let ghost before = views::views(queue@);
        self.queue_objectives(queue);
        self.queue_teams(queue);
        self.queue_displays(queue);
        packet::queue_table(queue, &self.scores);
        proof {
            assert(views::views(queue@) =~= before + self@.replay());
        }
    }
}

} // verus!
