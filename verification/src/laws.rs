//! What holds of the coordinator over whole runs of commands.

use crate::codec::packet_encoding;
use crate::protocol::{level_info_values, ClientEvent, Command};
use crate::vec2::Vec2;
use crate::world::{lemma_joiners, lists, move_packet, near, Delivery, World, COMBAT_GROUP};
use vstd::prelude::*;

verus! {

/// The events that go to player `p`, in the order in which they are sent.
pub open spec fn inbox(p: u64, out: Seq<Delivery>) -> Seq<ClientEvent>
    decreases out.len(),
{
    if out.len() == 0 {
        Seq::empty()
    } else {
        let earlier = inbox(p, out.drop_last());
        if out.last().to == p {
            earlier.push(out.last().event)
        } else {
            earlier
        }
    }
}

/// The world after a run of commands, each with the player it comes from.
pub open spec fn run(w: World, commands: Seq<(u64, Command)>) -> World
    decreases commands.len(),
{
    if commands.len() == 0 {
        w
    } else {
        run(w, commands.drop_last()).step(commands.last().0, commands.last().1)
    }
}

/// How many of the commands register a player.
pub open spec fn adds(commands: Seq<(u64, Command)>) -> nat
    decreases commands.len(),
{
    if commands.len() == 0 {
        0
    } else {
        adds(commands.drop_last()) + if commands.last().1 is AddPlayer {
            1nat
        } else {
            0nat
        }
    }
}

/// How many of the commands remove a player.
pub open spec fn removes(commands: Seq<(u64, Command)>) -> nat
    decreases commands.len(),
{
    if commands.len() == 0 {
        0
    } else {
        removes(commands.drop_last()) + if commands.last().1 is TimeoutPlayer {
            1nat
        } else {
            0nat
        }
    }
}

/// Whether a run registers only players who are not connected and removes
/// only players who are.
pub open spec fn orderly(w: World, commands: Seq<(u64, Command)>) -> bool {
    forall|i: int|
        0 <= i < commands.len() ==> {
            let here = #[trigger] run(w, commands.take(i));
            let (id, command) = commands[i];
            &&& command is AddPlayer ==> !here.players.contains_key(id)
            &&& command is TimeoutPlayer ==> here.players.contains_key(id)
        }
}

/// Over any run of registrations and removals in which no identifier is
/// registered while connected and none is removed while absent, the number
/// of connected players grows by the registrations less the removals.
pub proof fn lemma_player_count(w: World, commands: Seq<(u64, Command)>)
    requires
        w.players.dom().finite(),
        forall|i: int|
            0 <= i < commands.len() ==> (#[trigger] commands[i]).1 is AddPlayer
                || commands[i].1 is TimeoutPlayer,
        orderly(w, commands),
    ensures
        run(w, commands).players.dom().finite(),
        run(w, commands).players.len() + removes(commands) == w.players.len() + adds(commands),
    decreases commands.len(),
{
    if commands.len() > 0 {
        let earlier = commands.drop_last();
        assert forall|i: int| 0 <= i < earlier.len() implies {
            let here = #[trigger] run(w, earlier.take(i));
            let (id, command) = earlier[i];
            &&& command is AddPlayer ==> !here.players.contains_key(id)
            &&& command is TimeoutPlayer ==> here.players.contains_key(id)
        } by {
            assert(earlier.take(i) == commands.take(i));
        }
        assert forall|i: int| 0 <= i < earlier.len() implies (#[trigger] earlier[i]).1 is AddPlayer
            || earlier[i].1 is TimeoutPlayer by {}
        lemma_player_count(w, earlier);
    }
}

/// A finished turn adds one to the turn counter of the player who reports
/// it, and changes nothing else: every other player stays as it was, and so
/// do the groups.
pub proof fn lemma_done_counts_one_turn(w: World, id: u64, turn: i64)
    requires
        w.players.contains_key(id),
        w.players[id].turn < i64::MAX,
    ensures
        w.step(id, Command::Done(turn)).players[id].turn == w.players[id].turn + 1,
        w.step(id, Command::Done(turn)).players.dom() == w.players.dom(),
        forall|other: u64|
            other != id && w.players.contains_key(other) ==> #[trigger] w.step(
                id,
                Command::Done(turn),
            ).players[other] == w.players[other],
        w.step(id, Command::Done(turn)).groups == w.groups,
{
}

/// The events to `p` in two batches sent one after the other.
pub proof fn lemma_inbox_concat(p: u64, first: Seq<Delivery>, second: Seq<Delivery>)
    ensures
        inbox(p, first + second) == inbox(p, first) + inbox(p, second),
    decreases second.len(),
{
    if second.len() > 0 {
        lemma_inbox_concat(p, first, second.drop_last());
        assert((first + second).drop_last() == first + second.drop_last());
    }
}

/// Of one event sent to each player of a list without repetitions, a player
/// on the list gets one, and a player off the list none.
pub proof fn lemma_inbox_fan_out(p: u64, order: Seq<u64>, event: ClientEvent)
    requires
        order.no_duplicates(),
    ensures
        inbox(p, World::fan_out(order, event)) == if order.contains(p) {
            seq![event]
        } else {
            Seq::<ClientEvent>::empty()
        },
    decreases order.len(),
{
    let out = World::fan_out(order, event);
    if order.len() > 0 {
        let init = order.drop_last();
        lemma_inbox_fan_out(p, init, event);
        assert(out.drop_last() == World::fan_out(init, event));
        if order.last() != p && order.contains(p) {
            let i = choose|i: int| 0 <= i < order.len() && order[i] == p;
            assert(init[i] == p);
        }
    }
}

/// What a connected player gets on a move: the packet that tells of the
/// move, and after it the call into the combat group exactly if that player
/// is another one, less than 3 away from where the move ends, and in no
/// group. The mover itself gets the packet alone.
pub proof fn lemma_move_inbox(w: World, mover: u64, x: i32, y: i32, out: Seq<Delivery>, p: u64)
    requires
        w.players.contains_key(mover),
        w.players.contains_key(p),
        w.sends(mover, Command::MoveTo(x, y), out),
    ensures
        inbox(p, out) == if w.joins(mover, x, y, p) {
            seq![move_packet(mover, x, y), ClientEvent::JoinGroup(COMBAT_GROUP)]
        } else {
            seq![move_packet(mover, x, y)]
        },
{
    let order = choose|order: Seq<u64>|
        lists(order, w.players.dom()) && out == #[trigger] w.replies(
            mover,
            Command::MoveTo(x, y),
            order,
        );
    let told = World::fan_out(order, move_packet(mover, x, y));
    let joined = w.joiners(mover, x, y, order);
    let called = World::fan_out(joined, ClientEvent::JoinGroup(COMBAT_GROUP));
    lemma_joiners(w, mover, x, y, order);
    lemma_inbox_concat(p, told, called);
    lemma_inbox_fan_out(p, order, move_packet(mover, x, y));
    lemma_inbox_fan_out(p, joined, ClientEvent::JoinGroup(COMBAT_GROUP));
}

/// A move never calls a player into the combat group who is 3 or more away
/// from where it ends, nor one who has a group already.
pub proof fn lemma_far_players_stay(
    w: World,
    mover: u64,
    x: i32,
    y: i32,
    out: Seq<Delivery>,
    p: u64,
)
    requires
        w.players.contains_key(mover),
        w.players.contains_key(p),
        w.sends(mover, Command::MoveTo(x, y), out),
        !near(w.players[p].position, Vec2 { x, y }) || w.players[p].group is Some,
    ensures
        inbox(p, out) == seq![move_packet(mover, x, y)],
        w.step(mover, Command::MoveTo(x, y)).players[p].group == w.players[p].group,
{
    lemma_move_inbox(w, mover, x, y, out, p);
}

/// Two players in no group, `b` less than 3 away from where `a` moves and
/// then moving to a point less than 3 away from `a`: each is called into the
/// combat group by the other's move, both into the same group.
pub proof fn lemma_pair_is_grouped(
    w: World,
    a: u64,
    b: u64,
    to_a: Vec2<i32>,
    to_b: Vec2<i32>,
    out_a: Seq<Delivery>,
    out_b: Seq<Delivery>,
)
    requires
        a != b,
        w.players.contains_key(a),
        w.players.contains_key(b),
        w.players[a].group is None,
        w.players[b].group is None,
        near(w.players[b].position, to_a),
        near(to_a, to_b),
        w.sends(a, Command::MoveTo(to_a.x, to_a.y), out_a),
        w.step(a, Command::MoveTo(to_a.x, to_a.y)).sends(
            b,
            Command::MoveTo(to_b.x, to_b.y),
            out_b,
        ),
    ensures
        inbox(b, out_a) == seq![
            move_packet(a, to_a.x, to_a.y),
            ClientEvent::JoinGroup(COMBAT_GROUP),
        ],
        inbox(a, out_b) == seq![
            move_packet(b, to_b.x, to_b.y),
            ClientEvent::JoinGroup(COMBAT_GROUP),
        ],
        ({
            let end = w.step(a, Command::MoveTo(to_a.x, to_a.y)).step(
                b,
                Command::MoveTo(to_b.x, to_b.y),
            );
            end.players[a].group == Some(COMBAT_GROUP) && end.players[b].group == Some(
                COMBAT_GROUP,
            )
        }),
{
    let mid = w.step(a, Command::MoveTo(to_a.x, to_a.y));
    lemma_move_inbox(w, a, to_a.x, to_a.y, out_a, b);
    lemma_move_inbox(mid, b, to_b.x, to_b.y, out_b, a);
}

/// How many of the events are packets.
pub open spec fn packets_in(events: Seq<ClientEvent>) -> nat
    decreases events.len(),
{
    if events.len() == 0 {
        0
    } else {
        packets_in(events.drop_last()) + if events.last() is Packets {
            1nat
        } else {
            0nat
        }
    }
}

/// Whether `outs` holds, command by command, what the coordinator may send
/// in answer to a run of commands that starts in `w`.
pub open spec fn answers(w: World, commands: Seq<(u64, Command)>, outs: Seq<Seq<Delivery>>) -> bool {
    &&& outs.len() == commands.len()
    &&& forall|i: int|
        0 <= i < commands.len() ==> (#[trigger] run(w, commands.take(i))).sends(
            commands[i].0,
            commands[i].1,
            outs[i],
        )
}

/// How many packets go to player `p` over all the answers.
pub open spec fn packets_received(p: u64, outs: Seq<Seq<Delivery>>) -> nat
    decreases outs.len(),
{
    if outs.len() == 0 {
        0
    } else {
        packets_received(p, outs.drop_last()) + packets_in(inbox(p, outs.last()))
    }
}

/// Over a run of moves by connected players, the same players stay
/// connected, and each of them gets exactly one packet for each move: as
/// many packets as there are moves, the packet of each move first among the
/// events of its answer.
pub proof fn lemma_fan_out_count(
    w: World,
    commands: Seq<(u64, Command)>,
    outs: Seq<Seq<Delivery>>,
    p: u64,
)
    requires
        w.players.contains_key(p),
        forall|i: int|
            0 <= i < commands.len() ==> (#[trigger] commands[i]).1 is MoveTo
                && w.players.contains_key(commands[i].0),
        answers(w, commands, outs),
    ensures
        run(w, commands).players.dom() == w.players.dom(),
        packets_received(p, outs) == commands.len(),
        forall|i: int|
            0 <= i < commands.len() ==> packets_in(inbox(p, #[trigger] outs[i])) == 1 && (
            commands[i].1 matches Command::MoveTo(x, y) ==> inbox(p, outs[i])[0] == move_packet(
                commands[i].0,
                x,
                y,
            )),
    decreases commands.len(),
{
    if commands.len() > 0 {
        let n = commands.len() - 1;
        let earlier = commands.drop_last();
        let before = outs.drop_last();
        assert forall|i: int| 0 <= i < earlier.len() implies (#[trigger] run(
            w,
            earlier.take(i),
        )).sends(earlier[i].0, earlier[i].1, before[i]) by {
            assert(earlier.take(i) == commands.take(i));
        }
        lemma_fan_out_count(w, earlier, before, p);
        let here = run(w, earlier);
        let (mover, command) = commands[n];
        match command {
            Command::MoveTo(x, y) => {
                lemma_move_inbox(here, mover, x, y, outs[n], p);
                reveal_with_fuel(packets_in, 3);
            },
            _ => {},
        }
        assert forall|i: int| 0 <= i < commands.len() implies packets_in(
            inbox(p, #[trigger] outs[i]),
        ) == 1 && (commands[i].1 matches Command::MoveTo(x, y) ==> inbox(p, outs[i])[0]
            == move_packet(commands[i].0, x, y)) by {
            if i < n {
                assert(before[i] == outs[i]);
            }
        }
    }
}

/// The announcements on joining all go to the newcomer, one for each listed
/// player other than the newcomer itself.
pub proof fn lemma_announcements(w: World, id: u64, order: Seq<u64>)
    requires
        order.no_duplicates(),
    ensures
        forall|i: int|
            0 <= i < w.announcements(id, order).len() ==> (#[trigger] w.announcements(
                id,
                order,
            )[i]).to == id,
        w.announcements(id, order).len() + (if order.contains(id) {
            1nat
        } else {
            0nat
        }) == order.len(),
    decreases order.len(),
{
    if order.len() > 0 {
        let init = order.drop_last();
        lemma_announcements(w, id, init);
        if order.last() != id && order.contains(id) {
            let i = choose|i: int| 0 <= i < order.len() && order[i] == id;
            assert(init[i] == id);
        }
    }
}

/// A batch of events that all go to one player is that player's inbox, and
/// nobody else gets anything of it.
pub proof fn lemma_inbox_of_one(p: u64, to: u64, out: Seq<Delivery>)
    requires
        forall|i: int| 0 <= i < out.len() ==> (#[trigger] out[i]).to == to,
    ensures
        inbox(p, out).len() == if p == to {
            out.len()
        } else {
            0
        },
        p == to ==> forall|i: int|
            0 <= i < out.len() ==> (#[trigger] inbox(p, out)[i]) == out[i].event,
    decreases out.len(),
{
    if out.len() > 0 {
        lemma_inbox_of_one(p, to, out.drop_last());
    }
}

/// On joining, the newcomer is told the world seed first and then of each
/// player who was connected before, once; nobody else is told anything.
pub proof fn lemma_join_tells_the_newcomer_alone(w: World, id: u64, out: Seq<Delivery>, p: u64)
    requires
        w.players.dom().finite(),
        w.sends(id, Command::AddPlayer, out),
    ensures
        p != id ==> inbox(p, out) == Seq::<ClientEvent>::empty(),
        inbox(id, out).len() == 1 + w.players.dom().remove(id).len(),
        inbox(id, out)[0] == ClientEvent::Packets(packet_encoding(level_info_values(w.seed))),
{
    let order = choose|order: Seq<u64>|
        lists(order, w.players.dom()) && out == #[trigger] w.replies(
            id,
            Command::AddPlayer,
            order,
        );
    lemma_announcements(w, id, order);
    lemma_inbox_of_one(p, id, out);
    lemma_inbox_of_one(id, id, out);
    order.unique_seq_to_set();
}

} // verus!
