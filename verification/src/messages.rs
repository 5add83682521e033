use crate::common::{Color, CubeFace, Move, TimedMove};
use crate::cube3x3x3::{decodes_to, Cube3x3x3, Pieces3x3x3};
use crate::laws::lemma_decoding_unique;
use crate::wcu::{bits_value, extract_bits, state_of_colors, sticker_place, PacketError};
use vstd::prelude::*;

verus! {

/// The kinds of messages of the second version of the protocol.
#[derive(Clone, Copy, Debug, PartialEq, Eq, Structural)]
pub enum MessageKind {
    Info,
    State,
    Battery,
    Moves,
    Gyro,
}

impl MessageKind {
    /// The first byte of a message of this kind.
    pub open spec fn spec_code(self) -> u8 {
        match self {
            MessageKind::Info => 161,
            MessageKind::State => 163,
            MessageKind::Battery => 164,
            MessageKind::Moves => 165,
            MessageKind::Gyro => 171,
        }
    }

    pub fn code(self) -> (r: u8)
        ensures
            r == self.spec_code(),
    {
        match self {
            MessageKind::Info => 161,
            MessageKind::State => 163,
            MessageKind::Battery => 164,
            MessageKind::Moves => 165,
            MessageKind::Gyro => 171,
        }
    }

    /// The kind of the messages that begin with a byte, if there is one.
    pub fn from_code(code: u8) -> (r: Option<MessageKind>)
        ensures
            match r {
                Some(kind) => kind.spec_code() == code,
                None => forall|kind: MessageKind| kind.spec_code() != code,
            },
    {
        match code {
            161 => Some(MessageKind::Info),
            163 => Some(MessageKind::State),
            164 => Some(MessageKind::Battery),
            165 => Some(MessageKind::Moves),
            171 => Some(MessageKind::Gyro),
            _ => None,
        }
    }

    /// The message that asks the cube for a message of this kind, before it is
    /// encrypted: the byte of the kind and 19 bytes of zero.
    pub fn request(self) -> (r: [u8; 20])
        ensures
            r@[0] == self.spec_code(),
            forall|i: int| 1 <= i < 20 ==> r@[i] == 0,
    {
        let mut message: [u8; 20] = [0;20];
        message[0] = self.code();
        message
    }
}

/// A number of at most 8 bits is below 256.
pub proof fn lemma_bits_bound(data: Seq<u8>, start: int, count: nat)
    requires
        count <= 8,
    ensures
        bits_value(data, start, count) < 256,
        count <= 5 ==> bits_value(data, start, count) < 32,
        count <= 3 ==> bits_value(data, start, count) < 8,
    decreases count,
{
    if count > 0 {
        lemma_bits_bound(data, start, (count - 1) as nat);
        let before = bits_value(data, start, (count - 1) as nat);
        lemma_one_more_bit(before);
        if count == 1 {
            assert(before == 0);
        } else if count == 2 {
            lemma_bits_bound(data, start, 1);
            lemma_one_more_bit(bits_value(data, start, 0));
            assert(bits_value(data, start, 0) == 0);
        } else if count == 3 {
            lemma_bits_bound(data, start, 2);
            lemma_bits_bound(data, start, 1);
            lemma_one_more_bit(bits_value(data, start, 1));
            lemma_one_more_bit(bits_value(data, start, 0));
            assert(bits_value(data, start, 0) == 0);
        } else if count <= 5 {
            lemma_bits_bound(data, start, 3);
            if count == 5 {
                lemma_one_more_bit(bits_value(data, start, 3));
            }
        } else {
            lemma_bits_bound(data, start, 5);
            if count >= 7 {
                lemma_one_more_bit(bits_value(data, start, 5));
            }
            if count == 8 {
                lemma_one_more_bit(bits_value(data, start, 6));
            }
        }
    }
}

/// One more bit at the low end doubles the room that a number needs.
proof fn lemma_one_more_bit(x: u32)
    by (bit_vector)
    ensures
        x == 0 ==> (x << 1) == 0 && ((x << 1) | 1) == 1,
        x < 2 ==> (x << 1) < 4 && ((x << 1) | 1) < 4,
        x < 4 ==> (x << 1) < 8 && ((x << 1) | 1) < 8,
        x < 8 ==> (x << 1) < 16 && ((x << 1) | 1) < 16,
        x < 16 ==> (x << 1) < 32 && ((x << 1) | 1) < 32,
        x < 32 ==> (x << 1) < 64 && ((x << 1) | 1) < 64,
        x < 64 ==> (x << 1) < 128 && ((x << 1) | 1) < 128,
        x < 128 ==> (x << 1) < 256 && ((x << 1) | 1) < 256,
{
}

/// The move that a move number of the second version of the protocol names.
pub open spec fn message_move(number: int) -> Move {
    if number == 0 {
        Move::F
    } else if number == 1 {
        Move::Fp
    } else if number == 2 {
        Move::B
    } else if number == 3 {
        Move::Bp
    } else if number == 4 {
        Move::U
    } else if number == 5 {
        Move::Up
    } else if number == 6 {
        Move::D
    } else if number == 7 {
        Move::Dp
    } else if number == 8 {
        Move::L
    } else if number == 9 {
        Move::Lp
    } else if number == 10 {
        Move::R
    } else {
        Move::Rp
    }
}

/// The move with a move number of the protocol.
fn move_of_number(number: usize) -> (r: Move)
    requires
        number < 12,
    ensures
        r == message_move(number as int),
{
    match number {
        0 => Move::F,
        1 => Move::Fp,
        2 => Move::B,
        3 => Move::Bp,
        4 => Move::U,
        5 => Move::Up,
        6 => Move::D,
        7 => Move::Dp,
        8 => Move::L,
        9 => Move::Lp,
        10 => Move::R,
        _ => Move::Rp,
    }
}

/// The count of moves in a message of moves: the twelfth byte.
pub open spec fn moves_counted(value: Seq<u8>) -> u8 {
    bits_value(value, 88, 8) as u8
}

/// Number of moves that a message of moves reports beyond those that were known;
/// counts wrap around.
pub open spec fn fresh_move_count(value: Seq<u8>, last_move_count: u8) -> int {
    vstd::wrapping::u8_specs::wrapping_sub(moves_counted(value), last_move_count) as int
}

/// The `i`-th move of a message of moves, the latest move being the first: five
/// bits for the move and sixteen for its time.
pub open spec fn message_timed_move(value: Seq<u8>, i: int) -> TimedMove {
    TimedMove {
        mv: message_move(bits_value(value, 96 + i * 5, 5) as int),
        time: bits_value(value, 8 + i * 16, 16),
    }
}

/// Whether the `i`-th move of a message of moves has a move number that names a
/// move.
pub open spec fn message_move_known(value: Seq<u8>, i: int) -> bool {
    bits_value(value, 96 + i * 5, 5) < 12
}

/// The count of moves in a message of moves.
pub fn message_move_count(value: &[u8]) -> (r: u8)
    requires
        value@.len() >= 12,
    ensures
        r == moves_counted(value@),
{
    proof {
        lemma_bits_bound(value@, 88, 8);
    }
    let n = value.len();
    extract_bits(value, 88, 8) as u8
}

/// Reads the moves that a decrypted message of moves reports beyond those that were
/// known, in the order in which they were made. The message must hold at least 17
/// bytes. Fails where more than seven moves are new, and where one of them has a
/// move number that names no move.
pub fn decode_moves_message(value: &[u8], last_move_count: u8) -> (r: Result<
    Vec<TimedMove>,
    PacketError,
>)
    requires
        value@.len() >= 17,
    ensures
        match r {
            Ok(moves) => {
                &&& fresh_move_count(value@, last_move_count) <= 7
                &&& moves@.len() == fresh_move_count(value@, last_move_count)
                &&& forall|j: int|
                    0 <= j < moves@.len() ==> message_move_known(value@, moves@.len() - 1 - j)
                        && #[trigger] moves@[j] == message_timed_move(
                        value@,
                        moves@.len() - 1 - j,
                    )
            },
            Err(PacketError::MoveBufferExceeded) => fresh_move_count(value@, last_move_count) > 7,
            Err(PacketError::InvalidMove) => fresh_move_count(value@, last_move_count) <= 7
                && exists|i: int|
                0 <= i < fresh_move_count(value@, last_move_count) && !#[trigger] message_move_known(
                    value@,
                    i,
                ),
            Err(_) => false,
        },
{
    let n = value.len();
    let move_count = message_move_count(value).wrapping_sub(last_move_count) as usize;
    if move_count > 7 {
        return Err(PacketError::MoveBufferExceeded);
    }
    let mut moves: Vec<TimedMove> = Vec::new();
    let mut j: usize = 0;
    while j < move_count
        invariant
            j <= move_count,
            move_count <= 7,
            n == value@.len(),
            n >= 17,
            move_count == fresh_move_count(value@, last_move_count),
            moves@.len() == j,
            forall|k: int|
                0 <= k < j ==> message_move_known(value@, move_count - 1 - k)
                    && #[trigger] moves@[k] == message_timed_move(value@, move_count - 1 - k),
        decreases move_count - j,
    {
        let i = (move_count - 1) - j;
        proof {
            lemma_bits_bound(value@, 96 + i * 5, 5);
        }
        let move_num = extract_bits(value, 96 + i * 5, 5) as usize;
        let move_time = extract_bits(value, 8 + i * 16, 16);
        if move_num >= 12 {
            assert(!message_move_known(value@, i as int));
            return Err(PacketError::InvalidMove);
        }
        moves.push(TimedMove::new(move_of_number(move_num), move_time));
        j += 1;
    }
    Ok(moves)
}

/// The face that a face number of the second version of the protocol names.
pub open spec fn message_face(number: int) -> CubeFace {
    if number == 0 {
        CubeFace::Front
    } else if number == 1 {
        CubeFace::Back
    } else if number == 2 {
        CubeFace::Top
    } else if number == 3 {
        CubeFace::Bottom
    } else if number == 4 {
        CubeFace::Left
    } else {
        CubeFace::Right
    }
}

/// The face number of the protocol that names the face at a place of the face
/// order.
pub open spec fn message_face_number(face: int) -> int {
    if face == 0 {
        2
    } else if face == 1 {
        0
    } else if face == 2 {
        5
    } else if face == 3 {
        1
    } else if face == 4 {
        4
    } else {
        3
    }
}

/// The color number of a sticker of a face in a message of the state: the faces
/// follow the first byte with three bytes each, and a sticker has three bits. The
/// center is not in the message; the stickers are numbered without it.
pub open spec fn message_sticker(value: Seq<u8>, face: int, i: int) -> u32 {
    bits_value(value, 8 + face * 24 + i * 3, 3)
}

/// Whether every sticker of a message of the state has a color number below 6.
pub open spec fn message_known(value: Seq<u8>) -> bool {
    forall|face: int, i: int|
        0 <= face < 6 && 0 <= i < 8 ==> #[trigger] message_sticker(value, face, i) < 6
}

/// The color of a place of the color array that a message of the state describes:
/// the centers have the colors of their faces, and the other stickers the color of
/// the face with the number in the message.
pub open spec fn message_color(value: Seq<u8>, k: int) -> Color {
    let face = message_face_number(k / 9);
    let place = k % 9;
    if place == 4 {
        message_face(face).spec_color()
    } else {
        message_face(
            message_sticker(
                value,
                face,
                if place < 4 {
                    place
                } else {
                    place - 1
                },
            ) as int,
        ).spec_color()
    }
}

/// The color array that a message of the state describes.
pub open spec fn message_colors(value: Seq<u8>) -> Seq<Color> {
    Seq::new(54, |k: int| message_color(value, k))
}

/// The face with a face number of the protocol.
fn face_of_number(face: usize) -> (r: CubeFace)
    requires
        face < 6,
    ensures
        r == message_face(face as int),
        message_face_number(r.spec_index()) == face,
{
    match face {
        0 => CubeFace::Front,
        1 => CubeFace::Back,
        2 => CubeFace::Top,
        3 => CubeFace::Bottom,
        4 => CubeFace::Left,
        _ => CubeFace::Right,
    }
}

/// Decodes the stickers of one face of a message of the state into the color array.
/// Returns whether every sticker of the face has a color number below 6; the other
/// faces of the color array stay as they are.
fn decode_message_face(state: &mut [Color; 54], value: &[u8], face: usize) -> (r: bool)
    requires
        face < 6,
        value@.len() >= 19,
    ensures
        r <==> forall|i: int| 0 <= i < 8 ==> #[trigger] message_sticker(value@, face as int, i) < 6,
        forall|k: int|
            0 <= k < 54 && message_face_number(k / 9) != face ==> #[trigger] final(state)@[k]
                == old(state)@[k],
        r ==> forall|k: int|
            0 <= k < 54 && message_face_number(k / 9) == face ==> #[trigger] final(state)@[k]
                == message_color(value@, k),
{
    let n = value.len();
    let target = face_of_number(face);
    let start = target.index() * 9;
    state[start + 4] = target.color();
    let mut i: usize = 0;
    while i < 8
        invariant
            i <= 8,
            face < 6,
            n == value@.len(),
            n >= 19,
            start == target.spec_index() * 9,
            start <= 45,
            target == message_face(face as int),
            forall|j: int| 0 <= j < i ==> #[trigger] message_sticker(value@, face as int, j) < 6,
            forall|k: int|
                0 <= k < 54 && !(start <= k < start + 9) ==> #[trigger] state@[k] == old(state)@[k],
            state@[start + 4] == target.spec_color(),
            forall|j: int|
                0 <= j < i ==> state@[start + sticker_place(j)] == message_face(
                    #[trigger] message_sticker(value@, face as int, j) as int,
                ).spec_color(),
        decreases 8 - i,
    {
        let color_idx = extract_bits(value, 8 + face * 24 + i * 3, 3);
        assert(color_idx == message_sticker(value@, face as int, i as int));
        if color_idx >= 6 {
            proof {
                assert forall|k: int|
                    0 <= k < 54 && message_face_number(k / 9) != face implies #[trigger] state@[k]
                    == old(state)@[k] by {
                    assert(!(start <= k < start + 9));
                }
            }
            return false;
        }
        let place = if i < 4 {
            i
        } else {
            i + 1
        };
        state[start + place] = face_of_number(color_idx as usize).color();
        i += 1;
    }
    proof {
        assert forall|k: int|
            0 <= k < 54 && message_face_number(k / 9) != face implies #[trigger] state@[k] == old(
            state,
        )@[k] by {
            assert(!(start <= k < start + 9));
        }
        assert forall|k: int|
            0 <= k < 54 && message_face_number(k / 9) == face implies #[trigger] state@[k]
            == message_color(value@, k) by {
            assert(k / 9 == target.spec_index());
            let place = k % 9;
            assert(k == start + place);
            if place != 4 {
                let j = if place < 4 {
                    place
                } else {
                    place - 1
                };
                assert(sticker_place(j) == place);
                assert(state@[start + sticker_place(j)] == message_face(
                    message_sticker(value@, face as int, j) as int,
                ).spec_color());
            }
        }
    }
    true
}

/// Reads the color array that a message of the state describes, if every sticker
/// has a color number that names a color.
pub fn decode_message_colors(value: &[u8]) -> (r: Option<[Color; 54]>)
    requires
        value@.len() >= 19,
    ensures
        r is Some <==> message_known(value@),
        r matches Some(state) ==> state@ == message_colors(value@),
{
    let mut state: [Color; 54] = [Color::White;54];
    let mut face: usize = 0;
    while face < 6
        invariant
            face <= 6,
            value@.len() >= 19,
            forall|f: int, i: int|
                0 <= f < face && 0 <= i < 8 ==> #[trigger] message_sticker(value@, f, i) < 6,
            forall|k: int|
                0 <= k < 54 && message_face_number(k / 9) < face ==> #[trigger] state@[k]
                    == message_color(value@, k),
        decreases 6 - face,
    {
        let ghost before = state@;
        if !decode_message_face(&mut state, value, face) {
            return None;
        }
        proof {
            assert forall|k: int|
                0 <= k < 54 && message_face_number(k / 9) < face + 1 implies #[trigger] state@[k]
                == message_color(value@, k) by {
                if message_face_number(k / 9) != face {
                    assert(state@[k] == before[k]);
                }
            }
        }
        face += 1;
    }
    proof {
        assert(state@ =~= message_colors(value@));
    }
    Some(state)
}

/// Decodes the cube state in a decrypted message of the state. The message must
/// hold at least 19 bytes. Fails where a sticker has a color number that names no
/// color, where the colors are not those of pieces, and where the pieces are not
/// those of a state that legal moves reach.
pub fn decode_state_message(value: &[u8]) -> (r: Result<Cube3x3x3, PacketError>)
    requires
        value@.len() >= 19,
    ensures
        match r {
            Ok(cube) => {
                &&& message_known(value@)
                &&& decodes_to(message_colors(value@), cube@)
                &&& cube@.valid()
            },
            Err(PacketError::InvalidColor) => !message_known(value@),
            Err(PacketError::InvalidCubeState(_)) => message_known(value@) && forall|
                p: Pieces3x3x3,
            | !#[trigger] decodes_to(message_colors(value@), p),
            Err(PacketError::UnreachableState) => message_known(value@) && forall|p: Pieces3x3x3| #[trigger]
                decodes_to(message_colors(value@), p) ==> !p.valid(),
            Err(_) => false,
        },
{
    let state = match decode_message_colors(value) {
        Some(state) => state,
        None => {
            return Err(PacketError::InvalidColor);
        },
    };
    let cube = state_of_colors(state)?;
    if !cube.is_valid() {
        proof {
            assert forall|p: Pieces3x3x3| #[trigger]
                decodes_to(message_colors(value@), p) implies !p.valid() by {
                lemma_decoding_unique(message_colors(value@), p, cube@);
            }
        }
        return Err(PacketError::UnreachableState);
    }
    Ok(cube)
}

/// The count of moves in a message of the state, from which the messages of moves
/// go on: the twentieth byte.
pub open spec fn state_counted(value: Seq<u8>) -> u8 {
    bits_value(value, 152, 8) as u8
}

/// The count of moves in a message of the state.
pub fn state_move_count(value: &[u8]) -> (r: u8)
    requires
        value@.len() >= 20,
    ensures
        r == state_counted(value@),
{
    proof {
        lemma_bits_bound(value@, 152, 8);
    }
    let n = value.len();
    extract_bits(value, 152, 8) as u8
}

/// The charge of the battery in a message of the battery, in percent: the second
/// byte.
pub fn battery_percentage(value: &[u8]) -> (r: u32)
    requires
        value@.len() >= 2,
    ensures
        r == bits_value(value@, 8, 8),
{
    let n = value.len();
    extract_bits(value, 8, 8)
}

/// The number that a character stands for as a hexadecimal digit, if it is one.
pub open spec fn hex_digit(c: u8) -> Option<u8> {
    if 48 <= c <= 57 {
        Some((c - 48) as u8)
    } else if 97 <= c <= 102 {
        Some((c - 87) as u8)
    } else if 65 <= c <= 70 {
        Some((c - 55) as u8)
    } else {
        None
    }
}

/// The byte that two characters spell in hexadecimal digits, if they spell one: two
/// digits, or a plus sign and one digit.
pub open spec fn hex_byte(high: u8, low: u8) -> Option<u8> {
    match hex_digit(low) {
        Some(ones) => if high == 43 {
            Some(ones)
        } else {
            match hex_digit(high) {
                Some(sixteens) => Some((sixteens * 16 + ones) as u8),
                None => None,
            }
        },
        None => None,
    }
}

/// The identifier of the device with a given name, from which its key is derived:
/// four bytes that all devices share, and two that the tenth to thirteenth
/// characters of the name spell in hexadecimal digits.
pub open spec fn identifier_of_name(name: Seq<u8>) -> Option<Seq<u8>> {
    if name.len() < 13 {
        None
    } else {
        match (hex_byte(name[9], name[10]), hex_byte(name[11], name[12])) {
            (Some(a), Some(b)) => Some(seq![0xcfu8, 0x30, 0x16, 0x00, a, b]),
            _ => None,
        }
    }
}

fn digit_of(c: u8) -> (r: Option<u8>)
    ensures
        r == hex_digit(c),
{
    if 48 <= c && c <= 57 {
        Some(c - 48)
    } else if 97 <= c && c <= 102 {
        Some(c - 87)
    } else if 65 <= c && c <= 70 {
        Some(c - 55)
    } else {
        None
    }
}

fn byte_of(high: u8, low: u8) -> (r: Option<u8>)
    ensures
        r == hex_byte(high, low),
{
    match digit_of(low) {
        Some(ones) => {
            if high == 43 {
                Some(ones)
            } else {
                match digit_of(high) {
                    Some(sixteens) => Some(sixteens * 16 + ones),
                    None => None,
                }
            }
        },
        None => None,
    }
}

/// The identifier of the device with a given name, if the name holds one.
pub fn device_identifier(name: &[u8]) -> (r: Option<[u8; 6]>)
    ensures
        match r {
            Some(mac) => identifier_of_name(name@) == Some(mac@),
            None => identifier_of_name(name@) is None,
        },
{
    if name.len() < 13 {
        return None;
    }
    match (byte_of(name[9], name[10]), byte_of(name[11], name[12])) {
        (Some(a), Some(b)) => {
            let mac: [u8; 6] = [0xcf, 0x30, 0x16, 0x00, a, b];
            assert(mac@ =~= seq![0xcfu8, 0x30, 0x16, 0x00, a, b]);
            Some(mac)
        },
        _ => None,
    }
}

} // verus!
