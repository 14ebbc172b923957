//! The coordinator's state: the one place where the world is changed. Each
//! command is applied whole, in the order in which it arrives, and answered
//! with the events to send.

use crate::protocol::{
    level_info_packet, move_to_packet, player_join_packet, ClientCommand, ClientEvent, Command,
};
use crate::vec2::Vec2;
use crate::world::{
    lemma_joiners, lemma_sends_whatever_the_order, lists, move_packet, near, newcomer, Delivery,
    Player, World, COMBAT_GROUP, REACH_SQUARED,
};
use std::collections::{HashMap, HashSet};
use vstd::prelude::*;
use vstd::std_specs::hash::*;
use vstd::std_specs::iter::IteratorSpec;

verus! {

broadcast use vstd::std_specs::hash::group_hash_axioms;

/// Why a command was not carried out.
#[derive(Debug, Clone, Copy, PartialEq, Eq, Structural)]
pub enum CoordinatorError {
    /// The command speaks for a player who is not connected.
    MissingPlayer,
}

/// One event and the player to whose connection it goes.
#[derive(Debug, Clone, PartialEq, Eq)]
pub struct Outgoing {
    pub to: u64,
    pub event: ClientCommand,
}

impl View for Outgoing {
    type V = Delivery;

    open spec fn view(&self) -> Delivery {
        Delivery { to: self.to, event: self.event@ }
    }
}

/// The deliveries that a list of outgoing events stands for.
pub open spec fn events(out: Seq<Outgoing>) -> Seq<Delivery> {
    out.map_values(|o: Outgoing| o@)
}

/// The players gathered in one group.
#[derive(Debug)]
pub struct CombatGroup {
    members: HashSet<u64>,
}

impl View for CombatGroup {
    type V = Set<u64>;

    closed spec fn view(&self) -> Set<u64> {
        self.members@
    }
}

/// The authoritative state, owned by the coordinator alone.
#[derive(Debug)]
pub struct GameState {
    players: HashMap<u64, Player>,
    groups: HashMap<u64, CombatGroup>,
    seed: u64,
}

impl View for GameState {
    type V = World;

    closed spec fn view(&self) -> World {
        World {
            players: self.players@,
            groups: Map::new(
                |g: u64| self.groups@.contains_key(g),
                |g: u64| self.groups@[g]@,
            ),
            seed: self.seed,
        }
    }
}

/// Whether two points are less than 3 apart.
pub fn is_near(a: &Vec2<i32>, b: &Vec2<i32>) -> (r: bool)
    ensures
        r == near(*a, *b),
{
    a.distance_squared(b) < REACH_SQUARED
}

impl GameState {
    /// Whether the state is one that the coordinator can have reached.
    pub open spec fn wf(&self) -> bool {
        self@.wf()
    }

    /// The state before anyone has connected.
    pub fn new(seed: u64) -> (state: GameState)
        ensures
            state.wf(),
            state@ == World::initial(seed),
    {
        let state = GameState { players: HashMap::new(), groups: HashMap::new(), seed };
        assert(state@.groups =~= Map::empty());
        state
    }

    /// The seed of this world.
    pub fn seed(&self) -> (seed: u64)
        ensures
            seed == self@.seed,
    {
        self.seed
    }

    /// How many players are connected.
    pub fn player_count(&self) -> (n: usize)
        ensures
            n == self@.players.len(),
    {
        self.players.len()
    }

    /// The player with this identifier, if connected.
    pub fn player(&self, id: u64) -> (p: Option<Player>)
        ensures
            match p {
                Some(player) => self@.players.contains_key(id) && player == self@.players[id],
                None => !self@.players.contains_key(id),
            },
    {
        match self.players.get(&id) {
            Some(p) => Some(*p),
            None => None,
        }
    }

    /// Whether `id` is a member of `group`.
    pub fn is_member(&self, group: u64, id: u64) -> (r: bool)
        ensures
            r == (self@.groups.contains_key(group) && self@.groups[group].contains(id)),
    {
        match self.groups.get(&group) {
            Some(g) => g.members.contains(&id),
            None => false,
        }
    }

    /// The identifiers of the connected players, in the order in which the
    /// map hands them out.
    pub fn player_ids(&self) -> (ids: Vec<u64>)
        ensures
            lists(ids@, self@.players.dom()),
    {
        let mut ids: Vec<u64> = Vec::new();
        let keys = self.players.keys();
        for k in it: keys
            invariant
                ids@ == it.seq().unref().take(it.index() as int),
        {
            ids.push(*k);
        }
        proof {
            let all = spec_keys_iter(&self.players).remaining();
            assert(ids@ == all.unref());
        }
        ids
    }

    /// Registers player `id` at the origin and answers with the world seed
    /// and one announcement for each player who was there before.
    pub fn add_player(&mut self, id: u64) -> (out: Vec<Outgoing>)
        requires
            old(self).wf(),
        ensures
            final(self).wf(),
            final(self)@ == old(self)@.step(id, Command::AddPlayer),
            old(self)@.sends(id, Command::AddPlayer, events(out@)),
    {
        let ghost before = self@;
        let ids = self.player_ids();
        let mut out: Vec<Outgoing> = Vec::new();
        out.push(Outgoing { to: id, event: ClientCommand::Packets(level_info_packet(self.seed)) });
        let ghost first = events(out@);
        let mut i: usize = 0;
        while i < ids.len()
            invariant
                i <= ids@.len(),
                self@ == before,
                before.wf(),
                lists(ids@, before.players.dom()),
                events(out@) == first + before.announcements(id, ids@.take(i as int)),
            decreases ids@.len() - i,
        {
            let k = ids[i];
            proof {
                assert(ids@.take(i + 1).drop_last() == ids@.take(i as int));
            }
            if k != id {
                let turn = match self.players.get(&k) {
                    Some(p) => p.turn,
                    None => 0,
                };
                let ghost earlier = events(out@);
                out.push(
                    Outgoing { to: id, event: ClientCommand::Packets(player_join_packet(k, turn)) },
                );
                assert(events(out@) == earlier.push(out@.last()@));
            }
            i += 1;
        }
        self.players.insert(id, newcomer_player(id));
        proof {
            assert(ids@.take(i as int) == ids@);
            assert(self@.groups == before.groups);
            assert(events(out@) == before.replies(id, Command::AddPlayer, ids@));
        }
        out
    }

    /// Removes player `id`. Nobody is told.
    pub fn timeout_player(&mut self, id: u64)
        requires
            old(self).wf(),
        ensures
            final(self).wf(),
            final(self)@ == old(self)@.step(id, Command::TimeoutPlayer),
    {
        let ghost before = self@;
        self.players.remove(&id);
        assert(self@.groups == before.groups);
    }

    /// Counts one more finished turn for player `id` and tells that player
    /// the new count.
    pub fn done(&mut self, id: u64) -> (r: Result<Vec<Outgoing>, CoordinatorError>)
        requires
            old(self).wf(),
            old(self)@.in_range(id, Command::Done(0)),
        ensures
            final(self).wf(),
            final(self)@ == old(self)@.step(id, Command::Done(0)),
            match r {
                Ok(out) => old(self)@.players.contains_key(id) && events(out@) == old(
                    self,
                )@.replies(id, Command::Done(0), Seq::empty()),
                Err(e) => e == CoordinatorError::MissingPlayer && !old(self)@.players.contains_key(
                    id,
                ),
            },
    {
        let ghost before = self@;
        let player = match self.players.get(&id) {
            Some(p) => *p,
            None => {
                return Err(CoordinatorError::MissingPlayer);
            },
        };
        let turn = player.turn + 1;
        self.players.insert(
            id,
            Player {
                id: player.id,
                position: player.position,
                moved: player.moved,
                turn,
                group: player.group,
            },
        );
        let mut out: Vec<Outgoing> = Vec::new();
        out.push(Outgoing { to: id, event: ClientCommand::Turn(turn) });
        assert(self@.groups == before.groups);
        Ok(out)
    }

    /// Moves player `id` to (`x`, `y`), tells every connected player of the
    /// move, and then gathers into the combat group every other player who
    /// is less than 3 away from there and in no group yet, telling each so.
    pub fn move_to(&mut self, id: u64, x: i32, y: i32) -> (r: Result<
        Vec<Outgoing>,
        CoordinatorError,
    >)
        requires
            old(self).wf(),
        ensures
            final(self).wf(),
            final(self)@ == old(self)@.step(id, Command::MoveTo(x, y)),
            match r {
                Ok(out) => old(self)@.players.contains_key(id) && old(self)@.sends(
                    id,
                    Command::MoveTo(x, y),
                    events(out@),
                ),
                Err(e) => e == CoordinatorError::MissingPlayer && !old(self)@.players.contains_key(
                    id,
                ),
            },
    {
        let ghost before = self@;
        let mover = match self.players.get(&id) {
            Some(p) => *p,
            None => {
                return Err(CoordinatorError::MissingPlayer);
            },
        };
        let ids = self.player_ids();
        let target = Vec2 { x, y };
        let packet = move_to_packet(id, x, y);
        let mut out: Vec<Outgoing> = Vec::new();
        let mut i: usize = 0;
        while i < ids.len()
            invariant
                i <= ids@.len(),
                move_packet(id, x, y) == ClientEvent::Packets(packet@),
                events(out@) == World::fan_out(ids@.take(i as int), move_packet(id, x, y)),
            decreases ids@.len() - i,
        {
            let bytes = packet.clone();
            let ghost earlier = events(out@);
            out.push(Outgoing { to: ids[i], event: ClientCommand::Packets(bytes) });
            proof {
                assert(events(out@) == earlier.push(out@.last()@));
            }
            i += 1;
        }
        let joined = self.nearby_ungrouped(id, x, y, &ids);
        let ghost told = events(out@);
        proof {
            assert(ids@.take(i as int) == ids@);
            lemma_joiners(before, id, x, y, ids@);
        }
        self.players.insert(
            id,
            Player {
                id: mover.id,
                position: target,
                moved: true,
                turn: mover.turn,
                group: mover.group,
            },
        );
        if joined.len() > 0 {
            let ghost base = self.players@;
            let ghost others = self.groups@.remove(COMBAT_GROUP);
            let mut group = match self.groups.remove(&COMBAT_GROUP) {
                Some(g) => g,
                None => CombatGroup { members: HashSet::new() },
            };
            let ghost members = group.members@;
            let mut j: usize = 0;
            while j < joined.len()
                invariant
                    j <= joined@.len(),
                    joined@.no_duplicates(),
                    forall|k: u64| #[trigger]
                        joined@.contains(k) ==> k != id && base.contains_key(k) && base[k]
                            == before.players[k],
                    self.groups@ == others,
                    self.seed == before.seed,
                    self.players@.dom() == base.dom(),
                    forall|k: u64| #[trigger]
                        base.contains_key(k) ==> self.players@[k] == if joined@.take(
                            j as int,
                        ).contains(k) {
                            Player { group: Some(COMBAT_GROUP), ..base[k] }
                        } else {
                            base[k]
                        },
                    group.members@ == members.union(joined@.take(j as int).to_set()),
                    events(out@) == told + World::fan_out(
                        joined@.take(j as int),
                        ClientEvent::JoinGroup(COMBAT_GROUP),
                    ),
                decreases joined@.len() - j,
            {
                let k = joined[j];
                proof {
                    assert(joined@.contains(k));
                    assert forall|q: u64|
                        joined@.take(j + 1).contains(q) <==> (joined@.take(j as int).contains(q)
                            || q == k) by {
                        assert(joined@.take(j + 1)[j as int] == k);
                    }
                }
                let player = match self.players.get(&k) {
                    Some(p) => *p,
                    None => newcomer_player(k),
                };
                self.players.insert(
                    k,
                    Player {
                        id: player.id,
                        position: player.position,
                        moved: player.moved,
                        turn: player.turn,
                        group: Some(COMBAT_GROUP),
                    },
                );
                group.members.insert(k);
                let ghost earlier = events(out@);
                out.push(Outgoing { to: k, event: ClientCommand::JoinGroup(COMBAT_GROUP) });
                proof {
                    assert(events(out@) == earlier.push(out@.last()@));
                }
                j += 1;
            }
            self.groups.insert(COMBAT_GROUP, group);
            proof {
                assert(joined@.take(j as int) == joined@);
                assert(before.joins(id, x, y, joined@[0])) by {
                    assert(joined@.contains(joined@[0]));
                }
                assert(self@.groups[COMBAT_GROUP] =~= before.gathered(id, x, y));
                assert(self@.groups =~= before.after_move(id, x, y).groups);
                assert(self@.players =~= before.after_move(id, x, y).players);
            }
        } else {
            proof {
                assert forall|k: u64| !before.joins(id, x, y, k) by {
                    if before.joins(id, x, y, k) {
                        assert(joined@.contains(k));
                    }
                }
                assert(self@.players =~= before.after_move(id, x, y).players);
            }
        }
        proof {
            assert(events(out@) == before.replies(id, Command::MoveTo(x, y), ids@));
        }
        Ok(out)
    }

    /// The players of `ids`, other than `mover`, who are less than 3 away
    /// from (`x`, `y`) and in no group, in the order of `ids`.
    fn nearby_ungrouped(&self, mover: u64, x: i32, y: i32, ids: &Vec<u64>) -> (joined: Vec<u64>)
        requires
            forall|i: int| 0 <= i < ids@.len() ==> self@.players.contains_key(#[trigger] ids@[i]),
        ensures
            joined@ == self@.joiners(mover, x, y, ids@),
    {
        let target = Vec2 { x, y };
        let mut joined: Vec<u64> = Vec::new();
        let mut i: usize = 0;
        while i < ids.len()
            invariant
                i <= ids@.len(),
                target == (Vec2 { x, y }),
                forall|i: int|
                    0 <= i < ids@.len() ==> self@.players.contains_key(#[trigger] ids@[i]),
                joined@ == self@.joiners(mover, x, y, ids@.take(i as int)),
            decreases ids@.len() - i,
        {
            let k = ids[i];
            proof {
                assert(ids@.take(i + 1).drop_last() == ids@.take(i as int));
            }
            if k != mover {
                match self.players.get(&k) {
                    Some(p) => {
                        if p.group.is_none() && is_near(&p.position, &target) {
                            joined.push(k);
                        }
                    },
                    None => {},
                }
            }
            i += 1;
        }
        proof {
            assert(ids@.take(i as int) == ids@);
        }
        joined
    }

    /// Applies one command of player `id` and answers with the events to
    /// send, each with the player to whose connection it goes.
    pub fn apply(&mut self, id: u64, command: Command) -> (r: Result<
        Vec<Outgoing>,
        CoordinatorError,
    >)
        requires
            old(self).wf(),
            old(self)@.in_range(id, command),
        ensures
            final(self).wf(),
            final(self)@ == old(self)@.step(id, command),
            match r {
                Ok(out) => old(self)@.accepts(id, command) && old(self)@.sends(
                    id,
                    command,
                    events(out@),
                ),
                Err(e) => e == CoordinatorError::MissingPlayer && !old(self)@.accepts(id, command),
            },
    {
        let ghost before = self@;
        proof {
            if !(command is AddPlayer) && !(command is MoveTo) {
                lemma_sends_whatever_the_order(before, id, command);
            }
        }
        match command {
            Command::Wait => Ok(nothing()),
            Command::AddPlayer => Ok(self.add_player(id)),
            Command::TimeoutPlayer => {
                self.timeout_player(id);
                Ok(nothing())
            },
            Command::MoveTo(x, y) => self.move_to(id, x, y),
            Command::Done(_) => self.done(id),
        }
    }
}

/// No events at all.
fn nothing() -> (out: Vec<Outgoing>)
    ensures
        events(out@) == Seq::<Delivery>::empty(),
{
    let out: Vec<Outgoing> = Vec::new();
    assert(events(out@) =~= Seq::<Delivery>::empty());
    out
}

/// A player as it is right after joining.
pub fn newcomer_player(id: u64) -> (p: Player)
    ensures
        p == newcomer(id),
{
    Player { id, position: Vec2 { x: 0, y: 0 }, moved: false, turn: 0, group: None }
}

} // verus!
