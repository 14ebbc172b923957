//! Opcodes, the commands that connections hand to the coordinator, the events
//! that the coordinator hands back, and the packets built from them.

use crate::codec::{
    array_len_encoding, body_encoding, fits_frame, lemma_values_encoding_len, make_packet,
    packet_encoding,
};
use vstd::prelude::*;

verus! {

/// Colour hint sent with every announcement of an existing player.
pub const COLOR_HINT: u64 = 0xffffff;

/// The first integer of a packet.
#[derive(Debug, Clone, Copy, PartialEq, Eq, Structural)]
pub enum NetCmd {
    /// Client to server: an explicit turn without a move.
    Pass,
    /// Server to client: the identifier of this connection's player.
    YouAre,
    /// Server to client: turn progression.
    Turn,
    /// Client to server: where to move; server to client: who moved where.
    MoveTo,
    /// Server to client: a player that was already there on joining.
    PlayerJoin,
    /// Reserved: a player left.
    PlayerLeave,
    /// Server to client: the world seed.
    LevelInfo,
    /// Reserved.
    PlaceTile,
}

impl NetCmd {
    /// The number that stands for this opcode on the wire.
    pub open spec fn code(self) -> u64 {
        match self {
            NetCmd::Pass => 0,
            NetCmd::YouAre => 1,
            NetCmd::Turn => 2,
            NetCmd::MoveTo => 3,
            NetCmd::PlayerJoin => 4,
            NetCmd::PlayerLeave => 5,
            NetCmd::LevelInfo => 6,
            NetCmd::PlaceTile => 7,
        }
    }

    /// The number that stands for this opcode on the wire.
    pub fn to_u64(self) -> (code: u64)
        ensures
            code == self.code(),
    {
        match self {
            NetCmd::Pass => 0,
            NetCmd::YouAre => 1,
            NetCmd::Turn => 2,
            NetCmd::MoveTo => 3,
            NetCmd::PlayerJoin => 4,
            NetCmd::PlayerLeave => 5,
            NetCmd::LevelInfo => 6,
            NetCmd::PlaceTile => 7,
        }
    }

    /// The opcode that `code` stands for, if any.
    pub fn from_code(code: i64) -> (op: Option<NetCmd>)
        ensures
            match op {
                Some(c) => c.code() == code,
                None => !(0 <= code <= 7),
            },
    {
        if code == 0 {
            Some(NetCmd::Pass)
        } else if code == 1 {
            Some(NetCmd::YouAre)
        } else if code == 2 {
            Some(NetCmd::Turn)
        } else if code == 3 {
            Some(NetCmd::MoveTo)
        } else if code == 4 {
            Some(NetCmd::PlayerJoin)
        } else if code == 5 {
            Some(NetCmd::PlayerLeave)
        } else if code == 6 {
            Some(NetCmd::LevelInfo)
        } else if code == 7 {
            Some(NetCmd::PlaceTile)
        } else {
            None
        }
    }
}

/// What a connection asks of the coordinator. The player it speaks for
/// travels beside the command, not inside it.
#[derive(Debug, Clone, Copy, PartialEq, Eq, Structural)]
pub enum Command {
    /// Declines to move this turn; changes nothing.
    Wait,
    /// Registers the player.
    AddPlayer,
    /// The connection is gone; removes the player.
    TimeoutPlayer,
    /// Moves the player to the given coordinates.
    MoveTo(i32, i32),
    /// The player finished the given turn.
    Done(i64),
}

/// What the coordinator sends to one connection.
#[derive(Debug, Clone, PartialEq, Eq)]
pub enum ClientCommand {
    /// Bytes to write to the client as they are.
    Packets(Vec<u8>),
    /// The player now belongs to the group with this identifier.
    JoinGroup(u64),
    /// The player's turn counter.
    Turn(i64),
}

/// A `ClientCommand` with its bytes as a sequence.
pub enum ClientEvent {
    Packets(Seq<u8>),
    JoinGroup(u64),
    Turn(i64),
}

impl View for ClientCommand {
    type V = ClientEvent;

    open spec fn view(&self) -> ClientEvent {
        match self {
            ClientCommand::Packets(bytes) => ClientEvent::Packets(bytes@),
            ClientCommand::JoinGroup(group) => ClientEvent::JoinGroup(*group),
            ClientCommand::Turn(turn) => ClientEvent::Turn(*turn),
        }
    }
}

/// A coordinate as it travels in a packet: itself where it is not negative,
/// else its two's complement in 64 bits.
pub open spec fn wire_coord(c: i32) -> u64 {
    if c >= 0 {
        c as u64
    } else {
        (c + 0x1_0000_0000_0000_0000) as u64
    }
}

/// A coordinate as it travels in a packet.
pub fn coord_to_wire(c: i32) -> (w: u64)
    ensures
        w == wire_coord(c),
{
    if c >= 0 {
        c as u64
    } else {
        u64::MAX - ((-(c as i64) - 1) as u64)
    }
}

/// The integers of "you are player `id`".
pub open spec fn you_are_values(id: u64) -> Seq<u64> {
    seq![NetCmd::YouAre.code(), id]
}

/// The integers of "player `id` moved to (`x`, `y`)".
pub open spec fn move_to_values(id: u64, x: i32, y: i32) -> Seq<u64> {
    seq![NetCmd::MoveTo.code(), id, wire_coord(x), wire_coord(y)]
}

/// The integers of "player `id`, at turn `turn`, was here before you".
pub open spec fn player_join_values(id: u64, turn: i64) -> Seq<u64> {
    seq![NetCmd::PlayerJoin.code(), id, turn as u64, COLOR_HINT]
}

/// The integers of "the world seed is `seed`".
pub open spec fn level_info_values(seed: u64) -> Seq<u64> {
    seq![NetCmd::LevelInfo.code(), seed]
}

/// A handful of integers always fits a frame.
pub proof fn lemma_short_fits(values: Seq<u64>)
    requires
        values.len() <= 7000,
    ensures
        fits_frame(values),
{
    lemma_values_encoding_len(values);
    reveal_with_fuel(crate::codec::be_bytes, 5);
}

/// The packet that tells a connection which player it is.
pub fn you_are_packet(id: u64) -> (packet: Vec<u8>)
    ensures
        packet@ == packet_encoding(you_are_values(id)),
{
    let values = [NetCmd::YouAre.to_u64(), id];
    proof {
        lemma_short_fits(values@);
    }
    make_packet(values.as_slice())
}

/// The packet that tells of a move.
pub fn move_to_packet(id: u64, x: i32, y: i32) -> (packet: Vec<u8>)
    ensures
        packet@ == packet_encoding(move_to_values(id, x, y)),
{
    let values = [NetCmd::MoveTo.to_u64(), id, coord_to_wire(x), coord_to_wire(y)];
    proof {
        lemma_short_fits(values@);
    }
    make_packet(values.as_slice())
}

/// The packet that announces a player who was there before.
pub fn player_join_packet(id: u64, turn: i64) -> (packet: Vec<u8>)
    requires
        turn >= 0,
    ensures
        packet@ == packet_encoding(player_join_values(id, turn)),
{
    let values = [NetCmd::PlayerJoin.to_u64(), id, turn as u64, COLOR_HINT];
    proof {
        lemma_short_fits(values@);
    }
    make_packet(values.as_slice())
}

/// The packet that carries the world seed.
pub fn level_info_packet(seed: u64) -> (packet: Vec<u8>)
    ensures
        packet@ == packet_encoding(level_info_values(seed)),
{
    let values = [NetCmd::LevelInfo.to_u64(), seed];
    proof {
        lemma_short_fits(values@);
    }
    make_packet(values.as_slice())
}

/// The command that a client's packet stands for: a move for `MoveTo` with
/// two arguments (each cut to 32 bits), `Wait` for `Pass`, none for anything
/// else.
pub open spec fn command_of(values: Seq<i64>) -> Option<Command> {
    if values.len() >= 1 && values[0] == NetCmd::Pass.code() {
        Some(Command::Wait)
    } else if values.len() >= 3 && values[0] == NetCmd::MoveTo.code() {
        Some(Command::MoveTo(values[1] as i32, values[2] as i32))
    } else {
        None
    }
}

/// Reads a client's packet as a command.
pub fn interpret(values: &[i64]) -> (command: Option<Command>)
    ensures
        command == command_of(values@),
{
    if values.len() == 0 {
        return None;
    }
    match NetCmd::from_code(values[0]) {
        Some(NetCmd::Pass) => Some(Command::Wait),
        Some(NetCmd::MoveTo) => {
            if values.len() >= 3 {
                let x = #[verifier::truncate] (values[1] as i32);
                let y = #[verifier::truncate] (values[2] as i32);
                Some(Command::MoveTo(x, y))
            } else {
                None
            }
        },
        _ => None,
    }
}

} // verus!
