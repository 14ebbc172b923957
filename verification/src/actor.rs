//! One connection's decisions: what to do with an event from the coordinator,
//! with bytes from the client, and with a failed read or write. The caller
//! owns the socket and the channels and carries the decisions out.

use crate::codec::{
    announced_len, body_decoding, decode_packet, holds_frame, packet_encoding, split_frame,
};
use crate::protocol::{
    command_of, interpret, you_are_packet, you_are_values, ClientCommand, ClientEvent, Command,
};
use vstd::prelude::*;

verus! {

/// What a connection knows of itself.
#[derive(Debug, Clone, Copy, PartialEq, Eq, Structural)]
pub struct Actor {
    /// The player this connection speaks for.
    pub id: u64,
    /// The last turn counter that the coordinator told.
    pub turn: i64,
    /// The group whose broadcasts this connection listens to.
    pub group: Option<u64>,
    /// Whether the connection is still served.
    pub running: bool,
}

/// What the caller is to do next.
#[derive(Debug, Clone, PartialEq, Eq)]
pub enum ActorAction {
    /// Nothing.
    Nothing,
    /// Write these bytes to the client.
    Write(Vec<u8>),
    /// Listen to the broadcasts of this group from now on.
    Listen(u64),
    /// Hand this command to the coordinator.
    Report(Command),
}

/// An `ActorAction` with its bytes as a sequence.
pub enum Action {
    Nothing,
    Write(Seq<u8>),
    Listen(u64),
    Report(Command),
}

impl View for ActorAction {
    type V = Action;

    open spec fn view(&self) -> Action {
        match self {
            ActorAction::Nothing => Action::Nothing,
            ActorAction::Write(bytes) => Action::Write(bytes@),
            ActorAction::Listen(group) => Action::Listen(*group),
            ActorAction::Report(command) => Action::Report(*command),
        }
    }
}

impl Actor {
    /// The connection of player `id` as it starts.
    pub open spec fn fresh(id: u64) -> Actor {
        Actor { id, turn: 0, group: None, running: true }
    }

    /// The connection after an event from the coordinator: a group to join
    /// or a turn counter is remembered.
    pub open spec fn after_unicast(self, event: ClientEvent) -> Actor {
        if !self.running {
            self
        } else {
            match event {
                ClientEvent::Packets(_) => self,
                ClientEvent::JoinGroup(group) => Actor { group: Some(group), ..self },
                ClientEvent::Turn(turn) => Actor { turn, ..self },
            }
        }
    }

    /// What to do on an event from the coordinator: bytes are written as
    /// they are unless there are none, a group is listened to.
    pub open spec fn unicast_action(self, event: ClientEvent) -> Action {
        if !self.running {
            Action::Nothing
        } else {
            match event {
                ClientEvent::Packets(bytes) => if bytes.len() > 0 {
                    Action::Write(bytes)
                } else {
                    Action::Nothing
                },
                ClientEvent::JoinGroup(group) => Action::Listen(group),
                ClientEvent::Turn(_) => Action::Nothing,
            }
        }
    }

    /// What to do with the body of a packet from the client: report the
    /// command it stands for; drop a body that is malformed or stands for none.
    pub open spec fn frame_action(self, body: Seq<u8>) -> Action {
        if !self.running {
            Action::Nothing
        } else {
            match body_decoding(body) {
                Some(values) => match command_of(values) {
                    Some(command) => Action::Report(command),
                    None => Action::Nothing,
                },
                None => Action::Nothing,
            }
        }
    }

    /// The connection after a read or a write has failed: it is over.
    pub open spec fn after_failure(self) -> Actor {
        Actor { running: false, ..self }
    }

    /// What to do after a read or a write has failed: report the player as
    /// timed out, once.
    pub open spec fn failure_action(self) -> Action {
        if self.running {
            Action::Report(Command::TimeoutPlayer)
        } else {
            Action::Nothing
        }
    }

    /// The connection after looking at the bytes received and not yet used.
    pub open spec fn after_stream(self, pending: Seq<u8>, closed: bool) -> Actor {
        if self.running && !holds_frame(pending) && closed {
            self.after_failure()
        } else {
            self
        }
    }

    /// What to do with the bytes received and not yet used: act on the first
    /// packet if it is all there; give up if the stream closed before that;
    /// else wait for more.
    pub open spec fn stream_action(self, pending: Seq<u8>, closed: bool) -> Action {
        if !self.running {
            Action::Nothing
        } else if holds_frame(pending) {
            self.frame_action(pending.subrange(2, 2 + announced_len(pending) as int))
        } else if closed {
            self.failure_action()
        } else {
            Action::Nothing
        }
    }

    /// How many of the bytes received are used up: the whole first packet,
    /// prefix and announced length, or nothing.
    pub open spec fn stream_consumed(self, pending: Seq<u8>) -> nat {
        if self.running && holds_frame(pending) {
            2 + announced_len(pending)
        } else {
            0
        }
    }

    /// Starts the connection of player `id`.
    pub fn new(id: u64) -> (actor: Actor)
        ensures
            actor == Actor::fresh(id),
    {
        Actor { id, turn: 0, group: None, running: true }
    }

    /// What a connection does before it serves: it registers its player
    /// with the coordinator, then tells the client which player it is.
    pub open spec fn opening_actions(self) -> Seq<Action> {
        seq![
            Action::Report(Command::AddPlayer),
            Action::Write(packet_encoding(you_are_values(self.id))),
        ]
    }

    /// What to do before serving, in this order.
    pub fn opening(&self) -> (actions: Vec<ActorAction>)
        ensures
            actions@.map_values(|a: ActorAction| a@) == self.opening_actions(),
    {
        let mut actions: Vec<ActorAction> = Vec::new();
        actions.push(ActorAction::Report(Command::AddPlayer));
        actions.push(ActorAction::Write(you_are_packet(self.id)));
        actions
    }

    /// Takes an event from the coordinator.
    pub fn on_unicast(&mut self, event: ClientCommand) -> (action: ActorAction)
        ensures
            *final(self) == old(self).after_unicast(event@),
            action@ == old(self).unicast_action(event@),
    {
        if !self.running {
            return ActorAction::Nothing;
        }
        match event {
            ClientCommand::Packets(bytes) => {
                if bytes.len() > 0 {
                    ActorAction::Write(bytes)
                } else {
                    ActorAction::Nothing
                }
            },
            ClientCommand::JoinGroup(group) => {
                self.group = Some(group);
                ActorAction::Listen(group)
            },
            ClientCommand::Turn(turn) => {
                self.turn = turn;
                ActorAction::Nothing
            },
        }
    }

    /// Takes the body of one packet from the client.
    pub fn on_frame(&self, body: &[u8]) -> (action: ActorAction)
        ensures
            action@ == self.frame_action(body@),
    {
        if !self.running {
            return ActorAction::Nothing;
        }
        match decode_packet(body) {
            Ok(values) => match interpret(values.as_slice()) {
                Some(command) => ActorAction::Report(command),
                None => ActorAction::Nothing,
            },
            Err(_) => ActorAction::Nothing,
        }
    }

    /// Takes the failure of a read or a write.
    pub fn on_failure(&mut self) -> (action: ActorAction)
        ensures
            *final(self) == old(self).after_failure(),
            action@ == old(self).failure_action(),
    {
        let was_running = self.running;
        self.running = false;
        if was_running {
            ActorAction::Report(Command::TimeoutPlayer)
        } else {
            ActorAction::Nothing
        }
    }

    /// Looks at the bytes received from the client and not yet used, and at
    /// whether the stream has closed behind them. Answers with what to do
    /// and with how many bytes are used up.
    pub fn on_stream(&mut self, pending: &[u8], closed: bool) -> (r: (ActorAction, usize))
        ensures
            *final(self) == old(self).after_stream(pending@, closed),
            r.0@ == old(self).stream_action(pending@, closed),
            r.1 == old(self).stream_consumed(pending@),
    {
        if !self.running {
            return (ActorAction::Nothing, 0);
        }
        match split_frame(pending) {
            Ok((body, consumed)) => (self.on_frame(body), consumed),
            Err(_) => {
                if closed {
                    (self.on_failure(), 0)
                } else {
                    (ActorAction::Nothing, 0)
                }
            },
        }
    }
}

} // verus!
