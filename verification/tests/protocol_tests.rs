use server::codec::decode_packet;
use server::protocol::{
    coord_to_wire, interpret, level_info_packet, move_to_packet, player_join_packet,
    you_are_packet, Command, NetCmd, COLOR_HINT,
};

#[test]
fn opcodes_have_their_numbers() {
    assert_eq!(NetCmd::Pass.to_u64(), 0);
    assert_eq!(NetCmd::YouAre.to_u64(), 1);
    assert_eq!(NetCmd::Turn.to_u64(), 2);
    assert_eq!(NetCmd::MoveTo.to_u64(), 3);
    assert_eq!(NetCmd::PlayerJoin.to_u64(), 4);
    assert_eq!(NetCmd::PlayerLeave.to_u64(), 5);
    assert_eq!(NetCmd::LevelInfo.to_u64(), 6);
    assert_eq!(NetCmd::PlaceTile.to_u64(), 7);
}

#[test]
fn opcodes_are_found_by_number() {
    assert_eq!(NetCmd::from_code(0), Some(NetCmd::Pass));
    assert_eq!(NetCmd::from_code(3), Some(NetCmd::MoveTo));
    assert_eq!(NetCmd::from_code(7), Some(NetCmd::PlaceTile));
    assert_eq!(NetCmd::from_code(8), None);
    assert_eq!(NetCmd::from_code(-1), None);
    assert_eq!(NetCmd::from_code(259), None);
    for code in 0..8 {
        assert_eq!(NetCmd::from_code(code).unwrap().to_u64(), code as u64);
    }
}

#[test]
fn you_are_packet_carries_the_identifier() {
    assert_eq!(you_are_packet(0), vec![0x00, 0x03, 0x92, 0x01, 0x00]);
    assert_eq!(you_are_packet(300), vec![0x00, 0x05, 0x92, 0x01, 0xcd, 0x01, 0x2c]);
}

#[test]
fn level_info_packet_carries_the_seed() {
    assert_eq!(level_info_packet(42), vec![0x00, 0x03, 0x92, 0x06, 0x2a]);
}

#[test]
fn player_join_packet_carries_identifier_turn_and_colour() {
    assert_eq!(COLOR_HINT, 0xffffff);
    assert_eq!(
        player_join_packet(0, 0),
        vec![0x00, 0x09, 0x94, 0x04, 0x00, 0x00, 0xce, 0x00, 0xff, 0xff, 0xff]
    );
    assert_eq!(decode_packet(&player_join_packet(7, 9)[2..]), Ok(vec![4, 7, 9, 0xffffff]));
}

#[test]
fn move_to_packet_carries_mover_and_target() {
    assert_eq!(move_to_packet(1, 2, 3), vec![0x00, 0x05, 0x94, 0x03, 0x01, 0x02, 0x03]);
    assert_eq!(decode_packet(&move_to_packet(5, 1000, 70000)[2..]), Ok(vec![3, 5, 1000, 70000]));
}

#[test]
fn negative_coordinates_travel_as_twos_complement() {
    assert_eq!(coord_to_wire(0), 0);
    assert_eq!(coord_to_wire(i32::MAX), 0x7fff_ffff);
    assert_eq!(coord_to_wire(-1), u64::MAX);
    assert_eq!(coord_to_wire(i32::MIN), 0xffff_ffff_8000_0000);
    assert_eq!(
        move_to_packet(0, -1, 0),
        vec![
            0x00, 0x0d, 0x94, 0x03, 0x00, 0xcf, 0xff, 0xff, 0xff, 0xff, 0xff, 0xff, 0xff, 0xff,
            0x00
        ]
    );
}

#[test]
fn interpret_reads_a_move() {
    assert_eq!(interpret(&[3, 10, 20]), Some(Command::MoveTo(10, 20)));
    assert_eq!(interpret(&[3, -4, 5, 99]), Some(Command::MoveTo(-4, 5)));
}

#[test]
fn interpret_cuts_coordinates_to_32_bits() {
    assert_eq!(interpret(&[3, 0x1_0000_0005, -0x1_0000_0000]), Some(Command::MoveTo(5, 0)));
    assert_eq!(interpret(&[3, 0x8000_0000, 0]), Some(Command::MoveTo(i32::MIN, 0)));
}

#[test]
fn interpret_reads_a_pass() {
    assert_eq!(interpret(&[0]), Some(Command::Wait));
    assert_eq!(interpret(&[0, 1, 2]), Some(Command::Wait));
}

#[test]
fn interpret_drops_everything_else() {
    assert_eq!(interpret(&[]), None);
    assert_eq!(interpret(&[2, 5]), None);
    assert_eq!(interpret(&[1, 0]), None);
    assert_eq!(interpret(&[4, 1, 2, 3]), None);
    assert_eq!(interpret(&[8]), None);
    assert_eq!(interpret(&[-1]), None);
    assert_eq!(interpret(&[259, 1, 2]), None);
}

#[test]
fn interpret_drops_a_move_without_both_coordinates() {
    assert_eq!(interpret(&[3]), None);
    assert_eq!(interpret(&[3, 1]), None);
}
