use server::actor::{Actor, ActorAction};
use server::codec::make_packet;
use server::protocol::{you_are_packet, ClientCommand, Command};

#[test]
fn a_connection_starts_by_registering_and_greeting() {
    let actor = Actor::new(7);
    assert_eq!(actor, Actor { id: 7, turn: 0, group: None, running: true });
    assert_eq!(
        actor.opening(),
        vec![ActorAction::Report(Command::AddPlayer), ActorAction::Write(you_are_packet(7))]
    );
    assert_eq!(you_are_packet(7), vec![0x00, 0x03, 0x92, 0x01, 0x07]);
}

#[test]
fn packets_from_the_coordinator_are_written_as_they_are() {
    let mut actor = Actor::new(1);
    let action = actor.on_unicast(ClientCommand::Packets(vec![1, 2, 3]));
    assert_eq!(action, ActorAction::Write(vec![1, 2, 3]));
    assert_eq!(actor, Actor::new(1));
}

#[test]
fn empty_packets_are_not_written() {
    let mut actor = Actor::new(1);
    assert_eq!(actor.on_unicast(ClientCommand::Packets(vec![])), ActorAction::Nothing);
}

#[test]
fn a_group_is_listened_to_and_remembered() {
    let mut actor = Actor::new(1);
    assert_eq!(actor.on_unicast(ClientCommand::JoinGroup(0)), ActorAction::Listen(0));
    assert_eq!(actor.group, Some(0));
    assert_eq!(actor.on_unicast(ClientCommand::JoinGroup(4)), ActorAction::Listen(4));
    assert_eq!(actor.group, Some(4));
}

#[test]
fn a_turn_is_remembered() {
    let mut actor = Actor::new(1);
    assert_eq!(actor.on_unicast(ClientCommand::Turn(12)), ActorAction::Nothing);
    assert_eq!(actor.turn, 12);
    assert!(actor.running);
}

#[test]
fn a_move_packet_is_reported() {
    let actor = Actor::new(1);
    let packet = make_packet(&[3, 10, 20]);
    assert_eq!(actor.on_frame(&packet[2..]), ActorAction::Report(Command::MoveTo(10, 20)));
}

#[test]
fn a_pass_packet_is_reported_as_wait() {
    let actor = Actor::new(1);
    assert_eq!(actor.on_frame(&[0x91, 0x00]), ActorAction::Report(Command::Wait));
}

#[test]
fn other_packets_are_dropped() {
    let actor = Actor::new(1);
    assert_eq!(actor.on_frame(&[0x92, 0x02, 0x05]), ActorAction::Nothing);
    assert_eq!(actor.on_frame(&[0x91, 0x63]), ActorAction::Nothing);
    assert_eq!(actor.on_frame(&[0x90]), ActorAction::Nothing);
    assert_eq!(actor.on_frame(&[0x92, 0x03, 0x01]), ActorAction::Nothing);
}

#[test]
fn malformed_bodies_are_dropped_and_the_connection_stays() {
    let mut actor = Actor::new(1);
    assert_eq!(actor.on_frame(&[0xc0]), ActorAction::Nothing);
    assert_eq!(actor.on_frame(&[0x93, 0x03, 0x01]), ActorAction::Nothing);
    let stream = [0x00, 0x02, 0xc1, 0xc1, 0x00, 0x02, 0x91, 0x00];
    assert_eq!(actor.on_stream(&stream, false), (ActorAction::Nothing, 4));
    assert!(actor.running);
    assert_eq!(actor.on_stream(&stream[4..], false), (ActorAction::Report(Command::Wait), 4));
}

#[test]
fn a_failure_reports_the_timeout_once() {
    let mut actor = Actor::new(3);
    assert_eq!(actor.on_failure(), ActorAction::Report(Command::TimeoutPlayer));
    assert!(!actor.running);
    assert_eq!(actor.on_failure(), ActorAction::Nothing);
}

#[test]
fn a_stopped_connection_does_nothing() {
    let mut actor = Actor::new(3);
    actor.on_failure();
    let stopped = actor;
    assert_eq!(actor.on_unicast(ClientCommand::Packets(vec![1])), ActorAction::Nothing);
    assert_eq!(actor.on_unicast(ClientCommand::Turn(5)), ActorAction::Nothing);
    assert_eq!(actor.on_unicast(ClientCommand::JoinGroup(0)), ActorAction::Nothing);
    assert_eq!(actor.on_frame(&[0x91, 0x00]), ActorAction::Nothing);
    assert_eq!(actor.on_stream(&[0x00, 0x02, 0x91, 0x00], true), (ActorAction::Nothing, 0));
    assert_eq!(actor, stopped);
}

#[test]
fn a_whole_packet_in_the_stream_is_used_up() {
    let mut actor = Actor::new(1);
    let mut stream = make_packet(&[3, 1, 2]);
    let whole = stream.len();
    stream.extend_from_slice(&[0x00, 0x09]);
    assert_eq!(
        actor.on_stream(&stream, false),
        (ActorAction::Report(Command::MoveTo(1, 2)), whole)
    );
    assert_eq!(actor.on_stream(&stream[whole..], false), (ActorAction::Nothing, 0));
    assert!(actor.running);
}

#[test]
fn a_part_of_a_packet_waits_for_the_rest() {
    let mut actor = Actor::new(1);
    assert_eq!(actor.on_stream(&[], false), (ActorAction::Nothing, 0));
    assert_eq!(actor.on_stream(&[0x00], false), (ActorAction::Nothing, 0));
    assert_eq!(actor.on_stream(&[0x00, 0x05, 1, 2, 3], false), (ActorAction::Nothing, 0));
    assert!(actor.running);
}

#[test]
fn a_stream_that_closes_inside_a_packet_times_the_player_out() {
    let mut actor = Actor::new(1);
    let stream = [0x00, 0x05, 0x95, 0x03, 0x01];
    assert_eq!(
        actor.on_stream(&stream, true),
        (ActorAction::Report(Command::TimeoutPlayer), 0)
    );
    assert!(!actor.running);
}

#[test]
fn a_stream_that_closes_after_a_packet_hands_it_over_first() {
    let mut actor = Actor::new(1);
    let stream = [0x00, 0x02, 0x91, 0x00];
    assert_eq!(actor.on_stream(&stream, true), (ActorAction::Report(Command::Wait), 4));
    assert!(actor.running);
    assert_eq!(actor.on_stream(&[], true), (ActorAction::Report(Command::TimeoutPlayer), 0));
    assert!(!actor.running);
}
