use tpscube_core::common::{Move, TimedMove};
use tpscube_core::moyu::{decode_turns, turn_reports_readable, StampedMove};
use tpscube_core::wcu::{
    decode_moves, decode_timer_event, PacketError, TimerEvent, WCUCubeVersion1Cipher,
    WCUCubeVersion2Cipher,
};

#[test]
fn first_version_key_adds_the_identifier_backwards() {
    let id = [0x01, 0x02, 0x03, 0x04, 0x05, 0xff];
    let cipher = WCUCubeVersion1Cipher::new(0, &id).unwrap();
    assert_eq!(
        cipher.device_key,
        [
            0xc5, 0xcf, 0x19, 0xe2, 0x51, 0x6f, 0x13, 0xb6, 0x77, 0x0d, 0xe6, 0x59, 0x3a, 0xaf,
            0xba, 0xa2
        ]
    );
    let cipher = WCUCubeVersion1Cipher::new(1, &[0, 0, 0, 0, 0, 0, 9]).unwrap();
    assert_eq!(
        cipher.device_key,
        [
            0x43, 0xe2, 0x5b, 0xd6, 0x7d, 0xdc, 0x78, 0xd8, 0x07, 0x60, 0xa3, 0xda, 0x82, 0x3c,
            0x01, 0xf1
        ]
    );
}

#[test]
fn first_version_key_needs_a_known_version_and_six_bytes() {
    assert!(WCUCubeVersion1Cipher::new(2, &[0; 6]).is_none());
    assert!(WCUCubeVersion1Cipher::new(0, &[0; 5]).is_none());
    assert!(WCUCubeVersion1Cipher::new(1, &[0; 6]).is_some());
}

#[test]
fn second_version_key_adds_modulo_255() {
    let cipher = WCUCubeVersion2Cipher::new(&[0xcf, 0x30, 0x16, 0x00, 0x12, 0xf0]);
    // 0x15 + 0xf0 = 261 = 255 + 6; 0x77 + 0x12; 0x3a + 0; 0x5c + 0x16; 0x67 + 0x30;
    // 0x0e + 0xcf.
    assert_eq!(
        cipher.device_key,
        [
            0x06, 0x89, 0x3a, 0x72, 0x97, 0xdd, 0x2d, 0x1f, 0x17, 0x67, 0x2a, 0x13, 0x9b, 0x67,
            0x52, 0x57
        ]
    );
    // 0x11 + 0xf0 = 257 = 255 + 2; 0x23 + 0x12; 0x26; 0x25 + 0x16; 0x86 + 0x30;
    // 0x2a + 0xcf.
    assert_eq!(
        cipher.device_iv,
        [
            0x02, 0x35, 0x26, 0x3b, 0xb6, 0xf9, 0x2c, 0x3b, 0x55, 0x06, 0x7f, 0x31, 0x7e, 0x67,
            0x21, 0x57
        ]
    );
}

#[test]
fn second_version_sum_of_255_is_zero() {
    let cipher = WCUCubeVersion2Cipher::new(&[0, 0, 0, 0, 0, 0xea]);
    assert_eq!(cipher.device_key[0], 0);
    let cipher = WCUCubeVersion2Cipher::new(&[0, 0, 0, 0, 0, 0xe9]);
    assert_eq!(cipher.device_key[0], 0xfe);
}

fn move_packet(count: u8, last_six: [u8; 6]) -> Vec<u8> {
    let mut packet = vec![0u8; 12];
    packet.push(count);
    packet.extend_from_slice(&last_six);
    packet
}

fn time_packet(count: u8, times: [u16; 9]) -> Vec<u8> {
    let mut packet = vec![count];
    for time in times {
        packet.push((time & 0xff) as u8);
        packet.push((time >> 8) as u8);
    }
    packet
}

#[test]
fn new_moves_are_the_last_of_the_packet() {
    let moves = move_packet(10, [0, 1, 2, 3, 8, 17]);
    let times = time_packet(10, [1, 2, 3, 4, 5, 6, 7, 0x1234, 300]);
    assert_eq!(
        decode_moves(&moves, &times, 8),
        Ok(vec![TimedMove::new(Move::Fp, 0x1234), TimedMove::new(Move::Bp, 300)])
    );
    assert_eq!(decode_moves(&moves, &times, 10), Ok(vec![]));
    let all = decode_moves(&moves, &times, 4).unwrap();
    assert_eq!(
        all,
        vec![
            TimedMove::new(Move::U, 4),
            TimedMove::new(Move::U2, 5),
            TimedMove::new(Move::Up, 6),
            TimedMove::new(Move::R, 7),
            TimedMove::new(Move::Fp, 0x1234),
            TimedMove::new(Move::Bp, 300),
        ]
    );
}

#[test]
fn move_numbers_name_the_eighteen_moves() {
    let expected = [
        Move::U,
        Move::U2,
        Move::Up,
        Move::R,
        Move::R2,
        Move::Rp,
        Move::F,
        Move::F2,
        Move::Fp,
        Move::D,
        Move::D2,
        Move::Dp,
        Move::L,
        Move::L2,
        Move::Lp,
        Move::B,
        Move::B2,
        Move::Bp,
    ];
    for number in 0..18u8 {
        let moves = move_packet(1, [0, 0, 0, 0, 0, number]);
        let times = time_packet(1, [0, 0, 0, 0, 0, 0, 0, 0, 77]);
        assert_eq!(
            decode_moves(&moves, &times, 0),
            Ok(vec![TimedMove::new(expected[number as usize], 77)])
        );
    }
}

#[test]
fn move_counts_wrap_around() {
    let moves = move_packet(1, [0, 0, 0, 0, 3, 6]);
    let times = time_packet(1, [0, 0, 0, 0, 0, 0, 0, 10, 20]);
    assert_eq!(
        decode_moves(&moves, &times, 255),
        Ok(vec![TimedMove::new(Move::R, 10), TimedMove::new(Move::F, 20)])
    );
}

#[test]
fn move_packets_that_cannot_be_read() {
    let moves = move_packet(10, [0, 1, 2, 3, 18, 17]);
    let times = time_packet(10, [0; 9]);
    assert_eq!(decode_moves(&moves, &times, 3), Err(PacketError::MoveBufferExceeded));
    assert_eq!(decode_moves(&moves, &times, 11), Err(PacketError::MoveBufferExceeded));
    assert_eq!(decode_moves(&moves, &times, 8), Err(PacketError::InvalidMove));
    assert_eq!(decode_moves(&moves, &times, 9), Ok(vec![TimedMove::new(Move::Bp, 0)]));
    // The times are those of the moves 3 to 11: the move 9 has the place 7, and the
    // packet of moves ends one move later than the packet of times.
    let late = time_packet(9, [0; 9]);
    assert_eq!(decode_moves(&moves, &late, 9), Err(PacketError::TimestampMissing));
    // The times are those of the moves 11 to 19: none for the move 9.
    let early = time_packet(20, [0; 9]);
    assert_eq!(decode_moves(&moves, &early, 9), Err(PacketError::TimestampMissing));
}

#[test]
fn timer_reports() {
    assert_eq!(decode_timer_event(&[0, 0, 0, 1]), Some(TimerEvent::TimerReady));
    assert_eq!(decode_timer_event(&[0, 0, 0, 2]), Some(TimerEvent::TimerStartCancel));
    assert_eq!(decode_timer_event(&[0, 0, 0, 3]), Some(TimerEvent::TimerStarted));
    assert_eq!(decode_timer_event(&[0, 0, 0, 6]), Some(TimerEvent::HandsOnTimer));
    assert_eq!(decode_timer_event(&[0, 0, 0, 5]), None);
    assert_eq!(decode_timer_event(&[0, 0, 0, 0]), None);
    assert_eq!(decode_timer_event(&[0, 0, 1]), None);
    assert_eq!(decode_timer_event(&[]), None);
}

#[test]
fn timer_time_in_milliseconds() {
    // 1 minute, 23 seconds, 456 milliseconds.
    assert_eq!(
        decode_timer_event(&[0, 0, 0, 4, 1, 23, 0xc8, 0x01]),
        Some(TimerEvent::TimerFinished(83456))
    );
    assert_eq!(decode_timer_event(&[0, 0, 0, 4, 1, 23, 0xc8]), None);
    assert_eq!(
        decode_timer_event(&[0, 0, 0, 4, 255, 255, 0xff, 0xff, 9]),
        Some(TimerEvent::TimerFinished(255 * 60000 + 255 * 1000 + 65535))
    );
}

fn report(stamp: u32, face: u8, direction: u8) -> [u8; 6] {
    [
        (stamp >> 16) as u8,
        (stamp >> 24) as u8,
        stamp as u8,
        (stamp >> 8) as u8,
        face,
        direction,
    ]
}

fn packet(reports: &[[u8; 6]]) -> Vec<u8> {
    let mut value = vec![reports.len() as u8];
    for r in reports {
        value.extend_from_slice(r);
    }
    value
}

#[test]
fn a_quarter_turn_is_complete_past_its_half() {
    let mut rotations = [0i8; 6];
    // Four ninths of a quarter turn of the top face: no move yet.
    let value = packet(&[report(1, 5, 36), report(2, 5, 36), report(3, 5, 36), report(4, 5, 36)]);
    assert_eq!(decode_turns(&value, &mut rotations), Some(vec![]));
    assert_eq!(rotations, [0, 0, 0, 0, 0, 4]);
    // The fifth completes it.
    let value = packet(&[report(0x0102_0304, 5, 36)]);
    assert_eq!(
        decode_turns(&value, &mut rotations),
        Some(vec![StampedMove { mv: Move::U, stamp: 0x0102_0304 }])
    );
    assert_eq!(rotations, [0, 0, 0, 0, 0, 5]);
    // And back.
    let value = packet(&[report(7, 5, 220)]);
    assert_eq!(
        decode_turns(&value, &mut rotations),
        Some(vec![StampedMove { mv: Move::Up, stamp: 7 }])
    );
    assert_eq!(rotations, [0, 0, 0, 0, 0, 4]);
}

#[test]
fn rotations_are_counted_modulo_nine() {
    let mut rotations = [0i8; 6];
    // Backwards from rest: eight ninths, which is past the half, but no forward
    // turn was made.
    let value = packet(&[report(1, 0, 220)]);
    assert_eq!(decode_turns(&value, &mut rotations), Some(vec![]));
    assert_eq!(rotations, [8, 0, 0, 0, 0, 0]);
    // Forward again over the rest: the sum is nine, which is no less than five and
    // no more than four, so nothing is reported.
    let value = packet(&[report(2, 0, 36)]);
    assert_eq!(decode_turns(&value, &mut rotations), Some(vec![]));
    assert_eq!(rotations, [0, 0, 0, 0, 0, 0]);
    // Down from eight to four: a counter-clockwise turn of the bottom face.
    let mut rotations = [8i8, 0, 0, 0, 0, 0];
    let value = packet(&[
        report(1, 0, 220),
        report(2, 0, 220),
        report(3, 0, 220),
        report(4, 0, 220),
    ]);
    assert_eq!(
        decode_turns(&value, &mut rotations),
        Some(vec![StampedMove { mv: Move::Dp, stamp: 4 }])
    );
    assert_eq!(rotations, [4, 0, 0, 0, 0, 0]);
}

#[test]
fn face_numbers_of_turn_reports() {
    let faces = [Move::D, Move::L, Move::B, Move::R, Move::F, Move::U];
    for face in 0..6u8 {
        let mut rotations = [4i8; 6];
        let value = packet(&[report(9, face, 36)]);
        assert_eq!(
            decode_turns(&value, &mut rotations),
            Some(vec![StampedMove { mv: faces[face as usize], stamp: 9 }])
        );
        assert_eq!(rotations[face as usize], 5);
    }
}

#[test]
fn directions_round_towards_zero() {
    let mut rotations = [4i8; 6];
    // 35 and -35 are no step; 72 is two steps; 128 as a signed byte is -128: three
    // steps back.
    let value = packet(&[report(1, 0, 35), report(2, 1, 221), report(3, 2, 72), report(4, 3, 128)]);
    assert_eq!(
        decode_turns(&value, &mut rotations),
        Some(vec![StampedMove { mv: Move::B, stamp: 3 }])
    );
    assert_eq!(rotations, [4, 4, 6, 1, 4, 4]);
}

#[test]
fn turn_packets_that_cannot_be_read() {
    let mut rotations = [1i8, 2, 3, 4, 5, 6];
    assert_eq!(decode_turns(&[], &mut rotations), None);
    let mut short = packet(&[report(1, 0, 36), report(2, 1, 36)]);
    short.pop();
    assert!(!turn_reports_readable(&short));
    assert_eq!(decode_turns(&short, &mut rotations), None);
    let unknown = packet(&[report(1, 0, 36), report(2, 6, 36)]);
    assert!(!turn_reports_readable(&unknown));
    assert_eq!(decode_turns(&unknown, &mut rotations), None);
    assert_eq!(rotations, [1, 2, 3, 4, 5, 6]);
    assert_eq!(decode_turns(&[0], &mut rotations), Some(vec![]));
    assert!(turn_reports_readable(&[0, 1, 2, 3]));
}
