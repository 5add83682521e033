use tpscube_core::common::{Color, Corner, CornerPiece, Move, TimedMove};
use tpscube_core::cube3x3x3::{Cube3x3x3, Edge3x3x3, EdgePiece3x3x3};
use tpscube_core::facelet::InvalidCubeState;
use tpscube_core::messages::{
    battery_percentage, decode_message_colors, device_identifier, decode_moves_message, decode_state_message,
    message_move_count, state_move_count, MessageKind,
};
use tpscube_core::wcu::{
    device_kind, DeviceKind, PacketError, VersionError, WCUCubeVersion2Cipher,
};

const SOLVED: &str = "UUUUUUUUURRRRRRRRRFFFFFFFFFDDDDDDDDDLLLLLLLLLBBBBBBBBB";
/// The facelets after a clockwise turn of the right face, faces in the order
/// U, R, F, D, L, B.
const AFTER_R: &str = "UUFUUFUUFRRRRRRRRRFFDFFDFFDDDBDDBDDBLLLLLLLLLUBBUBBUBB";

fn set_bits(value: &mut [u8], start: usize, count: usize, number: u32) {
    for i in 0..count {
        let bit = start + i;
        if number & (1 << (count - 1 - i)) != 0 {
            value[bit / 8] |= 1 << (7 - bit % 8);
        }
    }
}

fn state_message(facelets: &str, count: u8) -> Vec<u8> {
    let numbers = [2, 5, 0, 3, 4, 1];
    let mut value = vec![0u8; 20];
    value[0] = 163;
    for (i, number) in numbers.iter().enumerate() {
        for place in 0..9 {
            if place == 4 {
                continue;
            }
            let j = if place < 4 { place } else { place - 1 };
            let letter = facelets.as_bytes()[i * 9 + place] as char;
            let color = "FBUDLR.".find(letter).unwrap() as u32;
            set_bits(&mut value, 8 + number * 24 + j * 3, 3, color);
        }
    }
    value[19] = count;
    value
}

fn letter(color: Color) -> char {
    match color {
        Color::White => 'U',
        Color::Green => 'F',
        Color::Red => 'R',
        Color::Blue => 'B',
        Color::Orange => 'L',
        Color::Yellow => 'D',
    }
}

fn facelets(cube: &Cube3x3x3) -> String {
    let faces = cube.as_faces();
    let stickers = faces.stickers();
    // Top, right, front, bottom, left, back.
    [0, 2, 1, 5, 4, 3]
        .iter()
        .flat_map(|face| (0..9).map(move |place| letter(stickers[face * 9 + place])))
        .collect()
}

#[test]
fn message_kinds_and_their_bytes() {
    for kind in [
        MessageKind::Info,
        MessageKind::State,
        MessageKind::Battery,
        MessageKind::Moves,
        MessageKind::Gyro,
    ] {
        assert_eq!(MessageKind::from_code(kind.code()), Some(kind));
    }
    assert_eq!(MessageKind::State.code(), 163);
    assert_eq!(MessageKind::Moves.code(), 165);
    assert_eq!(MessageKind::from_code(10), None);
    assert_eq!(MessageKind::from_code(162), None);
    let mut request = [0u8; 20];
    request[0] = 161;
    assert_eq!(MessageKind::Info.request(), request);
}

#[test]
fn the_message_of_the_solved_cube() {
    let value = state_message(SOLVED, 7);
    assert_eq!(decode_state_message(&value), Ok(Cube3x3x3::new()));
    assert_eq!(state_move_count(&value), 7);
    assert_eq!(facelets(&Cube3x3x3::new()), SOLVED);
}

#[test]
fn the_message_after_a_turn_of_the_right_face() {
    let mut cube = Cube3x3x3::new();
    cube.do_move(Move::R);
    assert_eq!(facelets(&cube), AFTER_R);
    assert_eq!(decode_state_message(&state_message(AFTER_R, 0)), Ok(cube));
}

#[test]
fn messages_of_scrambled_cubes() {
    let moves = [
        Move::R,
        Move::Up,
        Move::F2,
        Move::L,
        Move::D,
        Move::Bp,
        Move::U2,
        Move::Rp,
        Move::F,
        Move::Lp,
        Move::B2,
        Move::Dp,
    ];
    let mut cube = Cube3x3x3::new();
    for mv in moves {
        cube.do_move(mv);
        let value = state_message(&facelets(&cube), 3);
        assert_eq!(decode_state_message(&value), Ok(cube));
        let colors = decode_message_colors(&value).unwrap();
        assert_eq!(&colors, cube.as_faces().stickers());
    }
}

#[test]
fn state_messages_that_describe_no_cube() {
    let unknown = SOLVED.replacen('R', ".", 1);
    assert_eq!(decode_state_message(&state_message(&unknown, 0)), Err(PacketError::InvalidColor));
    assert_eq!(decode_message_colors(&state_message(&unknown, 0)), None);
    let mut seven = state_message(SOLVED, 0);
    seven[19 - 1] |= 7;
    assert_eq!(decode_state_message(&seven), Err(PacketError::InvalidColor));
    // The last sticker of the top face shows the bottom: no corner has both.
    let mut odd = String::from(SOLVED);
    odd.replace_range(8..9, "D");
    assert_eq!(
        decode_state_message(&state_message(&odd, 0)),
        Err(PacketError::InvalidCubeState(InvalidCubeState::UnknownCorner(Corner::URF)))
    );
    // An edge with the top twice.
    let mut odd = String::from(SOLVED);
    odd.replace_range(10..11, "U");
    assert_eq!(
        decode_state_message(&state_message(&odd, 0)),
        Err(PacketError::InvalidCubeState(InvalidCubeState::UnknownEdge(Edge3x3x3::UR)))
    );
}

#[test]
fn state_messages_of_states_that_no_moves_reach() {
    let solved = Cube3x3x3::new();
    let mut corners = [CornerPiece { piece: Corner::URF, orientation: 0 }; 8];
    let mut edges = [EdgePiece3x3x3 { piece: Edge3x3x3::UR, orientation: 0 }; 12];
    for i in 0..8 {
        corners[i] = solved.corner_piece(Corner::from_index(i).unwrap());
    }
    for i in 0..12 {
        edges[i] = solved.edge_piece(Edge3x3x3::from_index(i).unwrap());
    }
    let mut twisted = corners;
    twisted[3].orientation = 1;
    let cube = Cube3x3x3::from_corners_and_edges(twisted, edges);
    assert_eq!(
        decode_state_message(&state_message(&facelets(&cube), 0)),
        Err(PacketError::UnreachableState)
    );
    let mut flipped = edges;
    flipped[11].orientation = 1;
    let cube = Cube3x3x3::from_corners_and_edges(corners, flipped);
    assert_eq!(
        decode_state_message(&state_message(&facelets(&cube), 0)),
        Err(PacketError::UnreachableState)
    );
    let mut doubled = corners;
    doubled[0] = doubled[1];
    let cube = Cube3x3x3::from_corners_and_edges(doubled, edges);
    assert_eq!(
        decode_state_message(&state_message(&facelets(&cube), 0)),
        Err(PacketError::UnreachableState)
    );
}

/// A message of moves, the latest move first. The message has room for the times
/// of five moves before the count of moves.
fn moves_message(count: u8, latest_first: &[(u32, u32)]) -> Vec<u8> {
    let mut value = vec![0u8; 20];
    value[0] = 165;
    value[11] = count;
    for (i, (number, time)) in latest_first.iter().enumerate() {
        set_bits(&mut value, 96 + i * 5, 5, *number);
        if i < 5 {
            set_bits(&mut value, 8 + i * 16, 16, *time);
        }
    }
    value
}

#[test]
fn new_moves_come_in_the_order_in_which_they_were_made() {
    let value = moves_message(9, &[(0, 100), (5, 0xabcd), (11, 3), (6, 4), (8, 5), (2, 0), (4, 0)]);
    assert_eq!(message_move_count(&value), 9);
    assert_eq!(decode_moves_message(&value, 9), Ok(vec![]));
    assert_eq!(decode_moves_message(&value, 8), Ok(vec![TimedMove::new(Move::F, 100)]));
    assert_eq!(
        decode_moves_message(&value, 6),
        Ok(vec![
            TimedMove::new(Move::Rp, 3),
            TimedMove::new(Move::Up, 0xabcd),
            TimedMove::new(Move::F, 100),
        ])
    );
    assert_eq!(
        decode_moves_message(&value, 2),
        // The times of the sixth and the seventh move are read from the bits of the
        // count and of the move numbers.
        Ok(vec![
            TimedMove::new(Move::U, 22116),
            TimedMove::new(Move::B, 2305),
            TimedMove::new(Move::L, 5),
            TimedMove::new(Move::D, 4),
            TimedMove::new(Move::Rp, 3),
            TimedMove::new(Move::Up, 0xabcd),
            TimedMove::new(Move::F, 100),
        ])
    );
}

#[test]
fn move_numbers_of_messages() {
    let expected = [
        Move::F,
        Move::Fp,
        Move::B,
        Move::Bp,
        Move::U,
        Move::Up,
        Move::D,
        Move::Dp,
        Move::L,
        Move::Lp,
        Move::R,
        Move::Rp,
    ];
    for number in 0..12 {
        let value = moves_message(1, &[(number, 65535)]);
        assert_eq!(
            decode_moves_message(&value, 0),
            Ok(vec![TimedMove::new(expected[number as usize], 65535)])
        );
    }
}

#[test]
fn messages_of_moves_that_cannot_be_read() {
    let value = moves_message(9, &[(0, 1), (12, 2), (31, 3)]);
    assert_eq!(decode_moves_message(&value, 1), Err(PacketError::MoveBufferExceeded));
    assert_eq!(decode_moves_message(&value, 10), Err(PacketError::MoveBufferExceeded));
    assert_eq!(decode_moves_message(&value, 7), Err(PacketError::InvalidMove));
    assert_eq!(decode_moves_message(&value, 6), Err(PacketError::InvalidMove));
    assert_eq!(decode_moves_message(&value, 8), Ok(vec![TimedMove::new(Move::F, 1)]));
    let wrapped = moves_message(1, &[(4, 10), (6, 20)]);
    assert_eq!(
        decode_moves_message(&wrapped, 255),
        Ok(vec![TimedMove::new(Move::D, 20), TimedMove::new(Move::U, 10)])
    );
}

#[test]
fn the_charge_of_the_battery() {
    assert_eq!(battery_percentage(&[164, 87, 0, 0]), 87);
    assert_eq!(battery_percentage(&[164, 255]), 255);
}

#[test]
fn the_identifier_in_the_name_of_a_device() {
    assert_eq!(
        device_identifier(b"WCU_MY32_1A2b"),
        Some([0xcf, 0x30, 0x16, 0x00, 0x1a, 0x2b])
    );
    assert_eq!(
        device_identifier(b"WCU_MY32_00FFand more"),
        Some([0xcf, 0x30, 0x16, 0x00, 0x00, 0xff])
    );
    assert_eq!(
        device_identifier(b"WCU_MY32_+9+c"),
        Some([0xcf, 0x30, 0x16, 0x00, 0x09, 0x0c])
    );
    assert_eq!(device_identifier(b"WCU_MY32_1A2"), None);
    assert_eq!(device_identifier(b"WCU_MY32_1G2b"), None);
    assert_eq!(device_identifier(b"WCU_MY32_1A-2"), None);
    assert_eq!(device_identifier(b"WCU_MY32_1A2+"), None);
    assert_eq!(device_identifier(b"WCU_MY32_ 12b"), None);
    assert_eq!(device_identifier(b""), None);
}

#[test]
fn hexadecimal_bytes_as_the_standard_library_reads_them() {
    for text in ["00", "7f", "F0", "+a", "a+", "-1", " 1", "g0", "0x", "++", "zz", "@A", "`a"] {
        let mut name = b"WCU_MY32_00".to_vec();
        name.extend_from_slice(text.as_bytes());
        let expected = u8::from_str_radix(text, 16).ok();
        assert_eq!(device_identifier(&name).map(|mac| mac[5]), expected);
        assert_eq!(device_identifier(&name).is_some(), expected.is_some());
    }
}

#[test]
fn the_cipher_of_a_named_device() {
    let mac = device_identifier(b"WCU_MY32_12F0").unwrap();
    let cipher = WCUCubeVersion2Cipher::new(&mac);
    assert_eq!(cipher.device_key[..6], [0x06, 0x89, 0x3a, 0x72, 0x97, 0xdd]);
}

#[test]
fn devices_by_their_version() {
    assert_eq!(device_kind(&[1, 0, 0]), Ok(DeviceKind::Cube(0)));
    assert_eq!(device_kind(&[1, 1, 9, 9]), Ok(DeviceKind::Cube(1)));
    assert_eq!(device_kind(&[2, 0, 0]), Ok(DeviceKind::SmartTimer));
    assert_eq!(device_kind(&[1, 2, 0]), Err(VersionError::Unsupported(1, 2)));
    assert_eq!(device_kind(&[2, 1, 0]), Err(VersionError::Unsupported(2, 1)));
    assert_eq!(device_kind(&[0, 0, 0]), Err(VersionError::Unsupported(0, 0)));
    assert_eq!(device_kind(&[1, 0]), Err(VersionError::Invalid));
    assert_eq!(device_kind(&[]), Err(VersionError::Invalid));
}
