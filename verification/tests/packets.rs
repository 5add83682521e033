use tpscube_core::common::{Corner, Move};
use tpscube_core::cube3x3x3::Cube3x3x3;
use tpscube_core::facelet::InvalidCubeState;
use tpscube_core::wcu::{
    decode_cube_state, extract_bits, PacketError, WCUCubeVersion1Cipher, WCUCubeVersion2Cipher,
};

const KEY: [u8; 16] = [
    0x00, 0x01, 0x02, 0x03, 0x04, 0x05, 0x06, 0x07, 0x08, 0x09, 0x0a, 0x0b, 0x0c, 0x0d, 0x0e, 0x0f,
];
const PLAIN: [u8; 16] = [
    0x00, 0x11, 0x22, 0x33, 0x44, 0x55, 0x66, 0x77, 0x88, 0x99, 0xaa, 0xbb, 0xcc, 0xdd, 0xee, 0xff,
];
const CIPHER: [u8; 16] = [
    0x69, 0xc4, 0xe0, 0xd8, 0x6a, 0x7b, 0x04, 0x30, 0xd8, 0xcd, 0xb7, 0x80, 0x70, 0xb4, 0xc5, 0x5a,
];
const IV: [u8; 16] = [
    0x11, 0x23, 0x26, 0x25, 0x86, 0x2a, 0x2c, 0x3b, 0x55, 0x06, 0x7f, 0x31, 0x7e, 0x67, 0x21, 0x57,
];

const SOLVED_PACKET: [u8; 18] = [
    0x00, 0x00, 0x24, 0x00, 0x49, 0x92, 0x24, 0x49, 0x6d, 0x92, 0xdb, 0xb6, 0x49, 0x92, 0xb6, 0x24,
    0x6d, 0xdb,
];

fn twice(block: &[u8; 16]) -> Vec<u8> {
    let mut both = block.to_vec();
    both.extend_from_slice(block);
    both
}

fn masked(block: &[u8; 16]) -> [u8; 16] {
    let mut out = *block;
    for i in 0..16 {
        out[i] ^= IV[i];
    }
    out
}

#[test]
fn first_version_decrypts_both_ends() {
    let cipher = WCUCubeVersion1Cipher { device_key: KEY };
    assert_eq!(cipher.decrypt(&twice(&CIPHER)), Ok(twice(&PLAIN)));
    let mut long = CIPHER.to_vec();
    long.extend_from_slice(&[1, 2, 3, 4, 5]);
    long.extend_from_slice(&CIPHER);
    let mut expected = PLAIN.to_vec();
    expected.extend_from_slice(&[1, 2, 3, 4, 5]);
    expected.extend_from_slice(&PLAIN);
    assert_eq!(cipher.decrypt(&long), Ok(expected));
    let mut short = vec![0u8; 4];
    short.extend_from_slice(&CIPHER);
    let plain = cipher.decrypt(&short).unwrap();
    assert_eq!(plain.len(), 20);
    assert_eq!(&plain[16..], &PLAIN[12..]);
    assert_ne!(&plain[..16], &short[..16]);
}

#[test]
fn packets_of_one_block_are_too_short() {
    let first = WCUCubeVersion1Cipher { device_key: KEY };
    let second = WCUCubeVersion2Cipher {
        device_key: KEY,
        device_iv: IV,
    };
    assert_eq!(first.decrypt(&CIPHER), Err(PacketError::TooShort));
    assert_eq!(first.decrypt(&[]), Err(PacketError::TooShort));
    assert_eq!(second.decrypt(&CIPHER), Err(PacketError::TooShort));
    assert_eq!(second.encrypt(&PLAIN), Err(PacketError::TooShort));
    assert!(first.decrypt(&[0u8; 17]).is_ok());
    assert!(second.decrypt(&[0u8; 17]).is_ok());
    assert!(second.encrypt(&[0u8; 17]).is_ok());
}

#[test]
fn second_version_masks_with_the_initial_vector() {
    let cipher = WCUCubeVersion2Cipher {
        device_key: KEY,
        device_iv: IV,
    };
    let masked_plain = masked(&PLAIN);
    assert_eq!(cipher.decrypt(&twice(&CIPHER)), Ok(twice(&masked_plain)));
    assert_eq!(cipher.encrypt(&twice(&masked_plain)), Ok(twice(&CIPHER)));
}

#[test]
fn second_version_round_trip() {
    let cipher = WCUCubeVersion2Cipher {
        device_key: KEY,
        device_iv: IV,
    };
    for len in [17usize, 20, 31, 32, 33, 40] {
        let packet: Vec<u8> = (0..len).map(|i| (i * 37 + 11) as u8).collect();
        let sent = cipher.encrypt(&packet).unwrap();
        assert_eq!(sent.len(), len);
        assert_ne!(sent, packet);
        assert_eq!(cipher.decrypt(&sent), Ok(packet));
    }
}

#[test]
fn bits_of_a_packet() {
    let data = [0b1010_0000u8, 0xff, 0x12, 0x34, 0x56];
    assert_eq!(extract_bits(&data, 0, 0), 0);
    assert_eq!(extract_bits(&data, 0, 1), 1);
    assert_eq!(extract_bits(&data, 1, 1), 0);
    assert_eq!(extract_bits(&data, 0, 3), 0b101);
    assert_eq!(extract_bits(&data, 4, 8), 0b0000_1111);
    assert_eq!(extract_bits(&data, 8, 8), 255);
    assert_eq!(extract_bits(&data, 16, 16), 0x1234);
    assert_eq!(extract_bits(&data, 8, 32), 0xff12_3456);
    assert_eq!(extract_bits(&data, 0, 40), 0xff12_3456);
    assert_eq!(extract_bits(&data, 39, 1), 0);
    assert_eq!(extract_bits(&data, 38, 2), 0b10);
}

#[test]
fn the_packet_of_the_solved_cube() {
    assert_eq!(decode_cube_state(&SOLVED_PACKET), Ok(Cube3x3x3::new()));
    let mut longer = SOLVED_PACKET.to_vec();
    longer.extend_from_slice(&[9, 9, 9]);
    assert_eq!(decode_cube_state(&longer), Ok(Cube3x3x3::new()));
}

#[test]
fn packets_that_describe_no_cube() {
    let mut packet = SOLVED_PACKET;
    packet[1] = 0xe0;
    assert_eq!(decode_cube_state(&packet), Err(PacketError::InvalidColor));
    let mut packet = SOLVED_PACKET;
    packet[16] |= 0x07;
    assert_eq!(decode_cube_state(&packet), Err(PacketError::InvalidColor));
    assert_eq!(
        decode_cube_state(&[0u8; 18]),
        Err(PacketError::InvalidCubeState(
            InvalidCubeState::UnknownCorner(Corner::URF)
        ))
    );
}

#[test]
fn a_packet_after_a_turn_of_the_top_face() {
    let mut cube = Cube3x3x3::new();
    cube.do_move(Move::U);
    let faces = cube.as_faces();
    let order = [0usize, 2, 1, 5, 4, 3];
    let numbers = [0u32, 2, 1, 5, 4, 3];
    let mut packet = [0u8; 18];
    for (number, face) in order.iter().enumerate() {
        let mut word: u32 = 0;
        for place in 0..9 {
            if place == 4 {
                continue;
            }
            let color = faces.color_by_idx(face * 9 + place);
            let shown = (0..6)
                .find(|f| {
                    tpscube_core::CubeFace::from_index(*f).unwrap().color() == color
                })
                .unwrap();
            word = (word << 3) | numbers[shown];
        }
        packet[(number * 3) ^ 1] = (word >> 16) as u8;
        packet[(number * 3 + 1) ^ 1] = (word >> 8) as u8;
        packet[(number * 3 + 2) ^ 1] = word as u8;
    }
    assert_eq!(decode_cube_state(&packet), Ok(cube));
}
