use server::codec::{
    body_len, decode_packet, make_packet, split_frame, try_make_packet, FrameError, MAX_BODY_LEN,
};

#[test]
fn make_packet_of_small_values_is_prefix_header_and_fixints() {
    assert_eq!(make_packet(&[1, 0]), vec![0x00, 0x03, 0x92, 0x01, 0x00]);
    assert_eq!(make_packet(&[3, 1, 2, 127]), vec![0x00, 0x05, 0x94, 0x03, 0x01, 0x02, 0x7f]);
}

#[test]
fn make_packet_of_nothing_is_an_empty_array() {
    assert_eq!(make_packet(&[]), vec![0x00, 0x01, 0x90]);
}

#[test]
fn make_packet_picks_the_shortest_unsigned_form() {
    assert_eq!(make_packet(&[128]), vec![0x00, 0x03, 0x91, 0xcc, 0x80]);
    assert_eq!(make_packet(&[255]), vec![0x00, 0x03, 0x91, 0xcc, 0xff]);
    assert_eq!(make_packet(&[256]), vec![0x00, 0x04, 0x91, 0xcd, 0x01, 0x00]);
    assert_eq!(make_packet(&[65535]), vec![0x00, 0x04, 0x91, 0xcd, 0xff, 0xff]);
    assert_eq!(make_packet(&[65536]), vec![0x00, 0x06, 0x91, 0xce, 0x00, 0x01, 0x00, 0x00]);
    assert_eq!(
        make_packet(&[0xffff_ffff]),
        vec![0x00, 0x06, 0x91, 0xce, 0xff, 0xff, 0xff, 0xff]
    );
    assert_eq!(
        make_packet(&[0x1_0000_0000]),
        vec![0x00, 0x0a, 0x91, 0xcf, 0x00, 0x00, 0x00, 0x01, 0x00, 0x00, 0x00, 0x00]
    );
    assert_eq!(
        make_packet(&[0x0102_0304_0506_0708]),
        vec![0x00, 0x0a, 0x91, 0xcf, 0x01, 0x02, 0x03, 0x04, 0x05, 0x06, 0x07, 0x08]
    );
}

#[test]
fn make_packet_uses_a_two_byte_count_from_sixteen_elements() {
    let values: Vec<u64> = (0..16).collect();
    let packet = make_packet(&values);
    assert_eq!(packet.len(), 2 + 3 + 16);
    assert_eq!(&packet[..5], &[0x00, 0x13, 0xdc, 0x00, 0x10]);
    assert_eq!(decode_packet(&packet[2..]), Ok((0..16).collect::<Vec<i64>>()));
}

#[test]
fn make_packet_length_prefix_is_big_endian() {
    let values: Vec<u64> = vec![0; 300];
    let packet = make_packet(&values);
    assert_eq!(packet.len(), 2 + 3 + 300);
    assert_eq!(&packet[..2], &[0x01, 0x2f]);
}

#[test]
fn decode_packet_reads_back_what_make_packet_wrote() {
    let values: Vec<u64> = vec![
        3,
        0,
        127,
        128,
        255,
        256,
        65535,
        65536,
        0xffff_ffff,
        0x1_0000_0000,
        (1u64 << 53) - 1,
        i64::MAX as u64,
    ];
    let packet = make_packet(&values);
    let expected: Vec<i64> = values.iter().map(|v| *v as i64).collect();
    assert_eq!(decode_packet(&packet[2..]), Ok(expected));
}

#[test]
fn decode_packet_accepts_every_integer_format() {
    assert_eq!(decode_packet(&[0x91, 0xff]), Ok(vec![-1]));
    assert_eq!(decode_packet(&[0x91, 0xe0]), Ok(vec![-32]));
    assert_eq!(decode_packet(&[0x91, 0xd0, 0x80]), Ok(vec![-128]));
    assert_eq!(decode_packet(&[0x91, 0xd0, 0x7f]), Ok(vec![127]));
    assert_eq!(decode_packet(&[0x91, 0xd1, 0xff, 0xfe]), Ok(vec![-2]));
    assert_eq!(decode_packet(&[0x91, 0xd2, 0x80, 0x00, 0x00, 0x00]), Ok(vec![-2147483648]));
    assert_eq!(
        decode_packet(&[0x91, 0xd3, 0x80, 0x00, 0x00, 0x00, 0x00, 0x00, 0x00, 0x00]),
        Ok(vec![i64::MIN])
    );
    assert_eq!(decode_packet(&[0x91, 0xcc, 0x05]), Ok(vec![5]));
    assert_eq!(
        decode_packet(&[0x91, 0xcf, 0x7f, 0xff, 0xff, 0xff, 0xff, 0xff, 0xff, 0xff]),
        Ok(vec![i64::MAX])
    );
}

#[test]
fn decode_packet_reads_long_array_headers() {
    assert_eq!(decode_packet(&[0xdc, 0x00, 0x02, 0x01, 0x02]), Ok(vec![1, 2]));
    assert_eq!(decode_packet(&[0xdd, 0x00, 0x00, 0x00, 0x01, 0x2a]), Ok(vec![42]));
}

#[test]
fn decode_packet_ignores_bytes_after_the_last_element() {
    assert_eq!(decode_packet(&[0x91, 0x07, 0xc0, 0xff]), Ok(vec![7]));
}

#[test]
fn decode_packet_rejects_a_header_that_is_no_array() {
    assert_eq!(decode_packet(&[]), Err(FrameError::Malformed));
    assert_eq!(decode_packet(&[0x01]), Err(FrameError::Malformed));
    assert_eq!(decode_packet(&[0x81, 0x01, 0x02]), Err(FrameError::Malformed));
    assert_eq!(decode_packet(&[0xc0]), Err(FrameError::Malformed));
    assert_eq!(decode_packet(&[0xdc, 0x00]), Err(FrameError::Malformed));
}

#[test]
fn decode_packet_rejects_fewer_elements_than_declared() {
    assert_eq!(decode_packet(&[0x92, 0x01]), Err(FrameError::Malformed));
    assert_eq!(decode_packet(&[0x91, 0xcd, 0x01]), Err(FrameError::Malformed));
    assert_eq!(decode_packet(&[0xdd, 0xff, 0xff, 0xff, 0xff, 0x01]), Err(FrameError::Malformed));
}

#[test]
fn decode_packet_rejects_elements_that_are_no_integers() {
    assert_eq!(decode_packet(&[0x91, 0xc0]), Err(FrameError::Malformed));
    assert_eq!(decode_packet(&[0x91, 0xa1, 0x61]), Err(FrameError::Malformed));
    assert_eq!(decode_packet(&[0x92, 0x01, 0x90]), Err(FrameError::Malformed));
}

#[test]
fn decode_packet_rejects_an_unsigned_value_beyond_i64() {
    assert_eq!(
        decode_packet(&[0x91, 0xcf, 0x80, 0x00, 0x00, 0x00, 0x00, 0x00, 0x00, 0x00]),
        Err(FrameError::Malformed)
    );
}

#[test]
fn split_frame_takes_exactly_the_announced_bytes() {
    let stream = [0x00, 0x03, 0x92, 0x01, 0x00, 0xaa, 0xbb];
    let (body, consumed) = split_frame(&stream).unwrap();
    assert_eq!(body, &[0x92, 0x01, 0x00]);
    assert_eq!(consumed, 5);
}

#[test]
fn split_frame_does_not_look_at_the_body() {
    let stream = [0x00, 0x04, 0xff, 0xc1, 0x00, 0x90, 0x00, 0x01, 0x90];
    let (body, consumed) = split_frame(&stream).unwrap();
    assert_eq!(body, &[0xff, 0xc1, 0x00, 0x90]);
    assert_eq!(consumed, 6);
    let (next, used) = split_frame(&stream[consumed..]).unwrap();
    assert_eq!(next, &[0x90]);
    assert_eq!(used, 3);
}

#[test]
fn split_frame_of_an_empty_body() {
    assert_eq!(split_frame(&[0x00, 0x00]), Ok((&[][..], 2)));
}

#[test]
fn split_frame_reports_a_short_stream() {
    assert_eq!(split_frame(&[]), Err(FrameError::Truncated));
    assert_eq!(split_frame(&[0x00]), Err(FrameError::Truncated));
    assert_eq!(split_frame(&[0x00, 0x05, 0x01, 0x02, 0x03]), Err(FrameError::Truncated));
}

#[test]
fn split_frame_splits_what_make_packet_wrote() {
    let mut stream = make_packet(&[3, 10, 20]);
    stream.extend_from_slice(&[0x00]);
    let (body, consumed) = split_frame(&stream).unwrap();
    assert_eq!(consumed, stream.len() - 1);
    assert_eq!(decode_packet(body), Ok(vec![3, 10, 20]));
}

#[test]
fn body_len_is_big_endian() {
    assert_eq!(body_len(0, 0), 0);
    assert_eq!(body_len(0, 5), 5);
    assert_eq!(body_len(1, 0), 256);
    assert_eq!(body_len(0xff, 0xff), MAX_BODY_LEN);
}

#[test]
fn try_make_packet_frames_what_fits() {
    assert_eq!(try_make_packet(&[1, 0]), Some(vec![0x00, 0x03, 0x92, 0x01, 0x00]));
    let values: Vec<u64> = vec![0; 65532];
    let packet = try_make_packet(&values).unwrap();
    assert_eq!(packet.len(), 2 + 65535);
    assert_eq!(&packet[..5], &[0xff, 0xff, 0xdc, 0xff, 0xfc]);
}

#[test]
fn try_make_packet_refuses_a_body_beyond_the_prefix() {
    let values: Vec<u64> = vec![0; 65533];
    assert_eq!(try_make_packet(&values), None);
    let wide: Vec<u64> = vec![u64::MAX; 8000];
    assert_eq!(try_make_packet(&wide), None);
    let many: Vec<u64> = vec![1; 70000];
    assert_eq!(try_make_packet(&many), None);
}
