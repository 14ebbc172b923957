//! The world as the coordinator sees it, as a mathematical model: who is
//! connected, who is grouped with whom, and what each command does to it.

use crate::codec::packet_encoding;
use crate::protocol::{
    level_info_values, move_to_values, player_join_values, ClientEvent, Command,
};
use crate::vec2::Vec2;
use vstd::prelude::*;

verus! {

/// The one combat group into which nearby players are gathered.
pub const COMBAT_GROUP: u64 = 0;

/// Players closer than 3 are near: this is 3 squared.
pub const REACH_SQUARED: u128 = 9;

/// One connected player.
#[derive(Debug, Clone, Copy)]
pub struct Player {
    pub id: u64,
    pub position: Vec2<i32>,
    /// Set when the player moves.
    pub moved: bool,
    pub turn: i64,
    pub group: Option<u64>,
}

/// The world: players by identifier, group members by group, and the seed.
pub struct World {
    pub players: Map<u64, Player>,
    pub groups: Map<u64, Set<u64>>,
    pub seed: u64,
}

/// One event on its way to one player's connection.
pub struct Delivery {
    pub to: u64,
    pub event: ClientEvent,
}

/// A player as it is right after joining: at the origin, at turn 0, in no group.
pub open spec fn newcomer(id: u64) -> Player {
    Player { id, position: Vec2 { x: 0, y: 0 }, moved: false, turn: 0, group: None }
}

/// Whether two points are less than 3 apart.
pub open spec fn near(a: Vec2<i32>, b: Vec2<i32>) -> bool {
    a.dist_sq(b) < REACH_SQUARED
}

/// Whether `order` names each identifier of `ids` exactly once.
pub open spec fn lists(order: Seq<u64>, ids: Set<u64>) -> bool {
    order.no_duplicates() && order.to_set() == ids
}

/// The packet that tells everyone of a move.
pub open spec fn move_packet(id: u64, x: i32, y: i32) -> ClientEvent {
    ClientEvent::Packets(packet_encoding(move_to_values(id, x, y)))
}

impl World {
    /// The world before anyone has connected.
    pub open spec fn initial(seed: u64) -> World {
        World { players: Map::empty(), groups: Map::empty(), seed }
    }

    /// What holds of every world that the coordinator reaches: each player
    /// is filed under its own identifier, no turn is negative, a player with
    /// a group is a member of that group, and there is no group but the
    /// combat group.
    pub open spec fn wf(self) -> bool {
        &&& self.players.dom().finite()
        &&& forall|g: u64| #[trigger] self.groups.contains_key(g) ==> g == COMBAT_GROUP
        &&& forall|id: u64| #[trigger]
            self.players.contains_key(id) ==> {
                &&& self.players[id].id == id
                &&& self.players[id].turn >= 0
                &&& match self.players[id].group {
                    Some(g) => self.groups.contains_key(g) && self.groups[g].contains(id),
                    None => true,
                }
            }
    }

    /// Whether a move of `mover` to (`x`, `y`) brings player `k` into the
    /// combat group: `k` is another connected player, less than 3 away from
    /// there, and in no group yet.
    pub open spec fn joins(self, mover: u64, x: i32, y: i32, k: u64) -> bool {
        &&& k != mover
        &&& self.players.contains_key(k)
        &&& near(self.players[k].position, Vec2 { x, y })
        &&& self.players[k].group is None
    }

    /// Whether the command can be carried out: a move or a finished turn
    /// needs its player.
    pub open spec fn accepts(self, id: u64, command: Command) -> bool {
        match command {
            Command::MoveTo(_, _) | Command::Done(_) => self.players.contains_key(id),
            _ => true,
        }
    }

    /// Whether the command stays inside the range of the turn counter.
    pub open spec fn in_range(self, id: u64, command: Command) -> bool {
        command is Done && self.players.contains_key(id) ==> self.players[id].turn < i64::MAX
    }

    /// The members of the combat group after a move of `mover` to (`x`, `y`).
    pub open spec fn gathered(self, mover: u64, x: i32, y: i32) -> Set<u64> {
        let before = if self.groups.contains_key(COMBAT_GROUP) {
            self.groups[COMBAT_GROUP]
        } else {
            Set::empty()
        };
        Set::new(|k: u64| before.contains(k) || self.joins(mover, x, y, k))
    }

    /// The world after a move of `mover` to (`x`, `y`).
    pub open spec fn after_move(self, mover: u64, x: i32, y: i32) -> World {
        World {
            players: Map::new(
                |k: u64| self.players.contains_key(k),
                |k: u64|
                    if k == mover {
                        Player { position: Vec2 { x, y }, moved: true, ..self.players[k] }
                    } else if self.joins(mover, x, y, k) {
                        Player { group: Some(COMBAT_GROUP), ..self.players[k] }
                    } else {
                        self.players[k]
                    },
            ),
            groups: if exists|k: u64| self.joins(mover, x, y, k) {
                self.groups.insert(COMBAT_GROUP, self.gathered(mover, x, y))
            } else {
                self.groups
            },
            seed: self.seed,
        }
    }

    /// The world after the command of player `id`. A command that cannot be
    /// carried out changes nothing.
    pub open spec fn step(self, id: u64, command: Command) -> World {
        match command {
            Command::Wait => self,
            Command::AddPlayer => World { players: self.players.insert(id, newcomer(id)), ..self },
            Command::TimeoutPlayer => World { players: self.players.remove(id), ..self },
            Command::MoveTo(x, y) => if self.players.contains_key(id) {
                self.after_move(id, x, y)
            } else {
                self
            },
            Command::Done(_) => if self.players.contains_key(id) {
                World {
                    players: self.players.insert(
                        id,
                        Player { turn: (self.players[id].turn + 1) as i64, ..self.players[id] },
                    ),
                    ..self
                }
            } else {
                self
            },
        }
    }

    /// One announcement to `id` for each player of `order` other than `id`
    /// itself, in that order.
    pub open spec fn announcements(self, id: u64, order: Seq<u64>) -> Seq<Delivery>
        decreases order.len(),
    {
        if order.len() == 0 {
            Seq::empty()
        } else {
            let earlier = self.announcements(id, order.drop_last());
            let k = order.last();
            if k != id {
                earlier.push(
                    Delivery {
                        to: id,
                        event: ClientEvent::Packets(
                            packet_encoding(player_join_values(k, self.players[k].turn)),
                        ),
                    },
                )
            } else {
                earlier
            }
        }
    }

    /// The same event to each player of `order`, in that order.
    pub open spec fn fan_out(order: Seq<u64>, event: ClientEvent) -> Seq<Delivery> {
        Seq::new(order.len(), |i: int| Delivery { to: order[i], event })
    }

    /// The players of `order` whom a move of `mover` to (`x`, `y`) brings
    /// into the combat group, in that order.
    pub open spec fn joiners(self, mover: u64, x: i32, y: i32, order: Seq<u64>) -> Seq<u64>
        decreases order.len(),
    {
        if order.len() == 0 {
            Seq::empty()
        } else {
            let earlier = self.joiners(mover, x, y, order.drop_last());
            if self.joins(mover, x, y, order.last()) {
                earlier.push(order.last())
            } else {
                earlier
            }
        }
    }

    /// What the coordinator sends in answer to the command of player `id`,
    /// where `order` is the order in which it walks the players.
    pub open spec fn replies(self, id: u64, command: Command, order: Seq<u64>) -> Seq<Delivery> {
        match command {
            Command::Wait | Command::TimeoutPlayer => Seq::empty(),
            Command::AddPlayer => seq![
                Delivery {
                    to: id,
                    event: ClientEvent::Packets(packet_encoding(level_info_values(self.seed))),
                },
            ] + self.announcements(id, order),
            Command::MoveTo(x, y) => if self.players.contains_key(id) {
                Self::fan_out(order, move_packet(id, x, y)) + Self::fan_out(
                    self.joiners(id, x, y, order),
                    ClientEvent::JoinGroup(COMBAT_GROUP),
                )
            } else {
                Seq::empty()
            },
            Command::Done(_) => if self.players.contains_key(id) {
                seq![
                    Delivery {
                        to: id,
                        event: ClientEvent::Turn((self.players[id].turn + 1) as i64),
                    },
                ]
            } else {
                Seq::empty()
            },
        }
    }

    /// Whether `out` is what the coordinator may send in answer to the
    /// command: the replies for some order in which the players can be walked.
    pub open spec fn sends(self, id: u64, command: Command, out: Seq<Delivery>) -> bool {
        exists|order: Seq<u64>|
            lists(order, self.players.dom()) && out == #[trigger] self.replies(id, command, order)
    }
}

/// Who joins on a move: exactly the players of `order` for whom `joins`
/// holds, none of them twice.
pub proof fn lemma_joiners(w: World, mover: u64, x: i32, y: i32, order: Seq<u64>)
    ensures
        forall|k: u64| #[trigger]
            w.joiners(mover, x, y, order).contains(k) <==> order.contains(k) && w.joins(
                mover,
                x,
                y,
                k,
            ),
        order.no_duplicates() ==> w.joiners(mover, x, y, order).no_duplicates(),
    decreases order.len(),
{
    if order.len() > 0 {
        let init = order.drop_last();
        let last = order.last();
        let earlier = w.joiners(mover, x, y, init);
        lemma_joiners(w, mover, x, y, init);
        assert forall|k: u64| #[trigger]
            w.joiners(mover, x, y, order).contains(k) <==> order.contains(k) && w.joins(
                mover,
                x,
                y,
                k,
            ) by {
            assert(order == init.push(last));
            if w.joins(mover, x, y, last) {
                assert(earlier.push(last)[earlier.len() as int] == last);
                if earlier.contains(k) {
                    let i = choose|i: int| 0 <= i < earlier.len() && earlier[i] == k;
                    assert(earlier.push(last)[i] == k);
                }
            }
        }
        if order.no_duplicates() && earlier.contains(last) {
            let i = choose|i: int| 0 <= i < init.len() && init[i] == last;
            assert(order[i] == order[order.len() - 1]);
        }
    }
}

/// The identifiers of a finite set can be listed, each exactly once.
pub proof fn lemma_listing_exists(ids: Set<u64>)
    requires
        ids.finite(),
    ensures
        exists|order: Seq<u64>| lists(order, ids),
    decreases ids.len(),
{
    if ids.len() == 0 {
        let order = Seq::<u64>::empty();
        assert(order.to_set() =~= ids);
        assert(lists(order, ids));
    } else {
        let x = ids.choose();
        lemma_listing_exists(ids.remove(x));
        let rest = choose|order: Seq<u64>| lists(order, ids.remove(x));
        let order = rest.push(x);
        assert forall|k: u64| order.to_set().contains(k) <==> ids.contains(k) by {
            if ids.contains(k) {
                if k == x {
                    assert(order[rest.len() as int] == k);
                } else {
                    let i = choose|i: int| 0 <= i < rest.len() && rest[i] == k;
                    assert(order[i] == k);
                }
            }
        }
        assert(order.to_set() =~= ids);
        assert(lists(order, ids));
    }
}

/// Where the answer does not depend on the order in which the players are
/// walked, it is an answer that the coordinator may send.
pub proof fn lemma_sends_whatever_the_order(w: World, id: u64, command: Command)
    requires
        w.players.dom().finite(),
        !(command is AddPlayer),
        command is MoveTo ==> !w.players.contains_key(id),
    ensures
        w.sends(id, command, w.replies(id, command, Seq::empty())),
{
    lemma_listing_exists(w.players.dom());
    let order = choose|order: Seq<u64>| lists(order, w.players.dom());
    assert(w.replies(id, command, order) == w.replies(id, command, Seq::empty()));
}

} // verus!
