use crate::common::{Color, CubeFace, Move, TimedMove};
use crate::cube3x3x3::{decodes_to, Cube3x3x3, Cube3x3x3Faces};
use crate::facelet::InvalidCubeState;
use aes::cipher::generic_array::GenericArray;
use aes::cipher::{BlockDecrypt, BlockEncrypt};
use aes::{Aes128, Block, NewBlockCipher};
use vstd::prelude::*;

verus! {

/// The block that AES-128 decrypts a block of 16 bytes to under a key of 16 bytes.
pub uninterp spec fn aes128_decrypted(key: Seq<u8>, block: Seq<u8>) -> Seq<u8>;

/// The block that AES-128 encrypts a block of 16 bytes to under a key of 16 bytes.
pub uninterp spec fn aes128_encrypted(key: Seq<u8>, block: Seq<u8>) -> Seq<u8>;

/// Decrypts one block: makes the cipher with `Aes128::new` from the key and calls
/// `decrypt_block` on a copy of the block. The claim is that the result is the value
/// that AES-128 decryption has for this key and block, whatever it is.
#[verifier::external_body]
#[allow(deprecated)]
fn decrypt_block(key: &[u8; 16], block: &[u8; 16]) -> (r: [u8; 16])
    ensures
        r@ == aes128_decrypted(key@, block@),
{
    let aes = Aes128::new(GenericArray::from_slice(key));
    let mut data = Block::clone_from_slice(block);
    aes.decrypt_block(&mut data);
    let mut out = [0u8; 16];
    out.copy_from_slice(&data);
    out
}

/// Encrypts one block: makes the cipher with `Aes128::new` from the key and calls
/// `encrypt_block` on a copy of the block. The claim is that the result is the value
/// that AES-128 encryption has for this key and block, whatever it is.
#[verifier::external_body]
#[allow(deprecated)]
fn encrypt_block(key: &[u8; 16], block: &[u8; 16]) -> (r: [u8; 16])
    ensures
        r@ == aes128_encrypted(key@, block@),
{
    let aes = Aes128::new(GenericArray::from_slice(key));
    let mut data = Block::clone_from_slice(block);
    aes.encrypt_block(&mut data);
    let mut out = [0u8; 16];
    out.copy_from_slice(&data);
    out
}

/// Why a packet of a smart cube cannot be read.
#[derive(Clone, Copy, Debug, PartialEq, Eq, Structural)]
pub enum PacketError {
    /// The packet is not longer than one block of the cipher.
    TooShort,
    /// A sticker has a color number that names no color.
    InvalidColor,
    /// The colors are not those of a cube state.
    InvalidCubeState(InvalidCubeState),
    /// More moves were made since the last packet than a packet holds.
    MoveBufferExceeded,
    /// The packet of times holds no time for a move.
    TimestampMissing,
    /// A move number names no move.
    InvalidMove,
    /// The colors are those of pieces that no legal moves bring together.
    UnreachableState,
}

/// The bytes with the 16 bytes from `offset` on replaced by a block.
pub open spec fn with_block(value: Seq<u8>, offset: int, block: Seq<u8>) -> Seq<u8> {
    value.subrange(0, offset) + block + value.subrange(offset + 16, value.len() as int)
}

/// Two blocks combined byte by byte with exclusive or.
pub open spec fn xored(a: Seq<u8>, b: Seq<u8>) -> Seq<u8> {
    Seq::new(16, |i: int| a[i] ^ b[i])
}

/// A packet of the first version of the protocol, decrypted: first the last 16
/// bytes are decrypted in place, then the first 16 bytes of the result, which may
/// overlap them.
pub open spec fn decrypted_v1(key: Seq<u8>, value: Seq<u8>) -> Seq<u8> {
    let offset = value.len() - 16;
    let middle = with_block(
        value,
        offset,
        aes128_decrypted(key, value.subrange(offset, value.len() as int)),
    );
    with_block(middle, 0, aes128_decrypted(key, middle.subrange(0, 16)))
}

/// A packet of the second version of the protocol, decrypted: as in the first
/// version, with every decrypted block combined with the initial vector.
pub open spec fn decrypted_v2(key: Seq<u8>, iv: Seq<u8>, value: Seq<u8>) -> Seq<u8> {
    let offset = value.len() - 16;
    let middle = with_block(
        value,
        offset,
        xored(aes128_decrypted(key, value.subrange(offset, value.len() as int)), iv),
    );
    with_block(middle, 0, xored(aes128_decrypted(key, middle.subrange(0, 16)), iv))
}

/// A packet of the second version of the protocol, encrypted: first the first 16
/// bytes are combined with the initial vector and encrypted in place, then the last
/// 16 bytes of the result, which may overlap them.
pub open spec fn encrypted_v2(key: Seq<u8>, iv: Seq<u8>, value: Seq<u8>) -> Seq<u8> {
    let offset = value.len() - 16;
    let middle = with_block(value, 0, aes128_encrypted(key, xored(value.subrange(0, 16), iv)));
    with_block(
        middle,
        offset,
        aes128_encrypted(key, xored(middle.subrange(offset, middle.len() as int), iv)),
    )
}

/// Copies the 16 bytes from `offset` on.
fn block_at(value: &Vec<u8>, offset: usize) -> (r: [u8; 16])
    requires
        offset + 16 <= value@.len(),
    ensures
        r@ == value@.subrange(offset as int, offset + 16),
{
    let mut block = [0u8;16];
    let n = value.len();
    let mut i: usize = 0;
    while i < 16
        invariant
            i <= 16,
            offset + 16 <= value@.len(),
            value@.len() == n,
            forall|k: int| 0 <= k < i ==> block@[k] == value@[offset + k],
        decreases 16 - i,
    {
        block[i] = value[offset + i];
        i += 1;
    }
    assert(block@ =~= value@.subrange(offset as int, offset + 16));
    block
}

/// Replaces the 16 bytes from `offset` on by a block.
fn replace_block(value: &Vec<u8>, offset: usize, block: &[u8; 16]) -> (r: Vec<u8>)
    requires
        offset + 16 <= value@.len(),
    ensures
        r@ == with_block(value@, offset as int, block@),
{
    let mut out: Vec<u8> = Vec::new();
    let mut i: usize = 0;
    while i < value.len()
        invariant
            i <= value@.len(),
            offset + 16 <= value@.len(),
            out@.len() == i,
            forall|k: int| 0 <= k < i ==> out@[k] == with_block(value@, offset as int, block@)[k],
        decreases value@.len() - i,
    {
        if i >= offset && i - offset < 16 {
            out.push(block[i - offset]);
        } else {
            out.push(value[i]);
        }
        i += 1;
    }
    assert(out@ =~= with_block(value@, offset as int, block@));
    out
}

/// Combines two blocks byte by byte with exclusive or.
fn xor_block(a: &[u8; 16], b: &[u8; 16]) -> (r: [u8; 16])
    ensures
        r@ == xored(a@, b@),
{
    let mut out = [0u8;16];
    let mut i: usize = 0;
    while i < 16
        invariant
            i <= 16,
            forall|k: int| 0 <= k < i ==> out@[k] == a@[k] ^ b@[k],
        decreases 16 - i,
    {
        out[i] = a[i] ^ b[i];
        i += 1;
    }
    assert(out@ =~= xored(a@, b@));
    out
}

/// Copies bytes into a vector.
fn to_vec(value: &[u8]) -> (r: Vec<u8>)
    ensures
        r@ == value@,
{
    let mut out: Vec<u8> = Vec::new();
    let mut i: usize = 0;
    while i < value.len()
        invariant
            i <= value@.len(),
            out@ == value@.take(i as int),
        decreases value@.len() - i,
    {
        out.push(value[i]);
        proof {
            assert(value@.take(i + 1) =~= value@.take(i as int).push(value@[i as int]));
        }
        i += 1;
    }
    assert(value@.take(value@.len() as int) =~= value@);
    out
}

/// The cipher of the first version of the protocol.
#[derive(Clone, Copy, Debug)]
pub struct WCUCubeVersion1Cipher {
    pub device_key: [u8; 16],
}

/// The cipher of the second version of the protocol.
#[derive(Clone, Copy, Debug)]
pub struct WCUCubeVersion2Cipher {
    pub device_key: [u8; 16],
    pub device_iv: [u8; 16],
}

impl WCUCubeVersion1Cipher {
    /// Decrypts a packet. A packet must be longer than one block of the cipher.
    pub fn decrypt(&self, value: &[u8]) -> (r: Result<Vec<u8>, PacketError>)
        ensures
            match r {
                Ok(plain) => value@.len() > 16 && plain@ == decrypted_v1(
                    self.device_key@,
                    value@,
                ),
                Err(error) => value@.len() <= 16 && error == PacketError::TooShort,
            },
    {
        if value.len() <= 16 {
            return Err(PacketError::TooShort);
        }
        let value = to_vec(value);
        let offset = value.len() - 16;
        let end_plain = decrypt_block(&self.device_key, &block_at(&value, offset));
        let middle = replace_block(&value, offset, &end_plain);
        let start_plain = decrypt_block(&self.device_key, &block_at(&middle, 0));
        Ok(replace_block(&middle, 0, &start_plain))
    }
}

impl WCUCubeVersion2Cipher {
    /// Decrypts a packet. A packet must be longer than one block of the cipher.
    pub fn decrypt(&self, value: &[u8]) -> (r: Result<Vec<u8>, PacketError>)
        ensures
            match r {
                Ok(plain) => value@.len() > 16 && plain@ == decrypted_v2(
                    self.device_key@,
                    self.device_iv@,
                    value@,
                ),
                Err(error) => value@.len() <= 16 && error == PacketError::TooShort,
            },
    {
        if value.len() <= 16 {
            return Err(PacketError::TooShort);
        }
        let value = to_vec(value);
        let offset = value.len() - 16;
        let end_plain = xor_block(
            &decrypt_block(&self.device_key, &block_at(&value, offset)),
            &self.device_iv,
        );
        let middle = replace_block(&value, offset, &end_plain);
        let start_plain = xor_block(
            &decrypt_block(&self.device_key, &block_at(&middle, 0)),
            &self.device_iv,
        );
        Ok(replace_block(&middle, 0, &start_plain))
    }

    /// Encrypts a packet. A packet must be longer than one block of the cipher.
    pub fn encrypt(&self, value: &[u8]) -> (r: Result<Vec<u8>, PacketError>)
        ensures
            match r {
                Ok(cipher) => value@.len() > 16 && cipher@ == encrypted_v2(
                    self.device_key@,
                    self.device_iv@,
                    value@,
                ),
                Err(error) => value@.len() <= 16 && error == PacketError::TooShort,
            },
    {
        if value.len() <= 16 {
            return Err(PacketError::TooShort);
        }
        let value = to_vec(value);
        let start_cipher = encrypt_block(
            &self.device_key,
            &xor_block(&block_at(&value, 0), &self.device_iv),
        );
        let middle = replace_block(&value, 0, &start_cipher);
        let offset = middle.len() - 16;
        let end_cipher = encrypt_block(
            &self.device_key,
            &xor_block(&block_at(&middle, offset), &self.device_iv),
        );
        Ok(replace_block(&middle, offset, &end_cipher))
    }
}

/// Whether a bit of a packet is set. Bit 0 is the highest bit of the first byte.
pub open spec fn bit_set(data: Seq<u8>, bit: int) -> bool {
    data[bit / 8] & (1u8 << ((7 - bit % 8) as u8)) != 0
}

/// The number that `count` bits of a packet from bit `start` on spell, the first bit
/// being the highest. Bits that do not fit into 32 bits are lost at the high end.
pub open spec fn bits_value(data: Seq<u8>, start: int, count: nat) -> u32
    decreases count,
{
    if count == 0 {
        0
    } else {
        let before = bits_value(data, start, (count - 1) as nat);
        if bit_set(data, start + count - 1) {
            (before << 1) | 1
        } else {
            before << 1
        }
    }
}

/// Reads `count` bits of a packet from bit `start` on as a number.
pub fn extract_bits(data: &[u8], start: usize, count: usize) -> (r: u32)
    requires
        start + count <= data@.len() * 8,
        start + count <= usize::MAX,
    ensures
        r == bits_value(data@, start as int, count as nat),
{
    let mut result: u32 = 0;
    let mut i: usize = 0;
    while i < count
        invariant
            i <= count,
            start + count <= data@.len() * 8,
            start + count <= usize::MAX,
            result == bits_value(data@, start as int, i as nat),
        decreases count - i,
    {
        let bit = start + i;
        result = result << 1;
        if data[bit / 8] & (1u8 << ((7 - (bit % 8)) as u8)) != 0 {
            result = result | 1;
        }
        i += 1;
    }
    result
}

/// The face that a face number of the first version of the protocol names.
pub open spec fn packet_face(face: int) -> CubeFace {
    if face == 0 {
        CubeFace::Top
    } else if face == 1 {
        CubeFace::Right
    } else if face == 2 {
        CubeFace::Front
    } else if face == 3 {
        CubeFace::Bottom
    } else if face == 4 {
        CubeFace::Left
    } else {
        CubeFace::Back
    }
}

/// The three bytes of a face in a packet of the first version of the protocol, as
/// one number. The bytes of a packet come in pairs that are exchanged.
pub open spec fn face_word(data: Seq<u8>, face: int) -> u32 {
    ((data[((face * 3) as usize ^ 1) as int] as u32) << 16) | ((data[((face * 3 + 1) as usize
        ^ 1) as int] as u32) << 8) | (data[((face * 3 + 2) as usize ^ 1) as int] as u32)
}

/// The color number of a sticker of a face in a packet: three bits of the number of
/// the face, the first sticker in the highest bits. The center is not in the
/// packet; the stickers are numbered without it.
pub open spec fn sticker_number(data: Seq<u8>, face: int, i: int) -> u32 {
    (face_word(data, face) >> ((3 * (7 - i)) as u32)) & 7
}

/// Whether every sticker of a packet has a color number below 6.
pub open spec fn colors_known(data: Seq<u8>) -> bool {
    forall|face: int, i: int|
        0 <= face < 6 && 0 <= i < 8 ==> #[trigger] sticker_number(data, face, i) < 6
}

/// The color of a place of the color array that a packet of the first version of
/// the protocol describes: the centers have the colors of their faces, and the
/// other stickers the color with the number in the packet.
pub open spec fn packet_color(data: Seq<u8>, k: int) -> Color {
    let face = packet_face_number(k / 9);
    let place = k % 9;
    if place == 4 {
        packet_face(face).spec_color()
    } else {
        packet_face(
            sticker_number(
                data,
                face,
                if place < 4 {
                    place
                } else {
                    place - 1
                },
            ) as int,
        ).spec_color()
    }
}

/// The place within its face of the sticker with a number of the packet: the
/// numbers leave out the center.
pub open spec fn sticker_place(i: int) -> int {
    if i < 4 {
        i
    } else {
        i + 1
    }
}

/// The face number of the protocol that names the face at a place of the face
/// order.
pub open spec fn packet_face_number(face: int) -> int {
    if face == 0 {
        0
    } else if face == 1 {
        2
    } else if face == 2 {
        1
    } else if face == 3 {
        5
    } else if face == 4 {
        4
    } else {
        3
    }
}

/// The color array that a packet of the first version of the protocol describes.
pub open spec fn packet_colors(data: Seq<u8>) -> Seq<Color> {
    Seq::new(54, |k: int| packet_color(data, k))
}

/// The face with a face number of the protocol.
fn face_of_number(face: usize) -> (r: CubeFace)
    requires
        face < 6,
    ensures
        r == packet_face(face as int),
        packet_face_number(r.spec_index()) == face,
{
    match face {
        0 => CubeFace::Top,
        1 => CubeFace::Right,
        2 => CubeFace::Front,
        3 => CubeFace::Bottom,
        4 => CubeFace::Left,
        _ => CubeFace::Back,
    }
}

/// Exchanging a number with its neighbor in a pair does not lead out of the first 18
/// numbers.
proof fn lemma_pair_in_range(i: usize)
    by (bit_vector)
    requires
        i < 18,
    ensures
        (i ^ 1) < 18,
{
}

/// Decodes the stickers of one face of a packet of the first version of the
/// protocol into the color array. Returns whether every sticker of the face has a
/// color number below 6; where one has not, the color array holds no more than it
/// did.
fn decode_face(state: &mut [Color; 54], data: &[u8], face: usize) -> (r: bool)
    requires
        face < 6,
        data@.len() >= 18,
    ensures
        r <==> forall|i: int| 0 <= i < 8 ==> #[trigger] sticker_number(data@, face as int, i) < 6,
        forall|k: int|
            0 <= k < 54 && packet_face_number(k / 9) != face ==> #[trigger] final(state)@[k]
                == old(state)@[k],
        r ==> forall|k: int|
            0 <= k < 54 && packet_face_number(k / 9) == face ==> #[trigger] final(state)@[k]
                == packet_color(data@, k),
{
    let target = face_of_number(face);
    let start = target.index() * 9;
    proof {
        lemma_pair_in_range((face * 3) as usize);
        lemma_pair_in_range((face * 3 + 1) as usize);
        lemma_pair_in_range((face * 3 + 2) as usize);
    }
    let face_data = ((data[(face * 3) ^ 1] as u32) << 16) | ((data[((face * 3) + 1) ^ 1] as u32)
        << 8) | data[((face * 3) + 2) ^ 1] as u32;
    assert(face_data == face_word(data@, face as int));
    state[start + 4] = target.color();
    let mut i: usize = 0;
    while i < 8
        invariant
            i <= 8,
            face < 6,
            start == target.spec_index() * 9,
            start <= 45,
            target == packet_face(face as int),
            face_data == face_word(data@, face as int),
            forall|j: int| 0 <= j < i ==> #[trigger] sticker_number(data@, face as int, j) < 6,
            forall|k: int|
                0 <= k < 54 && !(start <= k < start + 9) ==> #[trigger] state@[k] == old(state)@[k],
            state@[start + 4] == target.spec_color(),
            forall|j: int|
                0 <= j < i ==> state@[start + sticker_place(j)] == packet_face(
                    #[trigger] sticker_number(data@, face as int, j) as int,
                ).spec_color(),
        decreases 8 - i,
    {
        let color_idx = (face_data >> ((3 * (7 - i)) as u32)) & 7;
        assert(color_idx == sticker_number(data@, face as int, i as int));
        if color_idx >= 6 {
            proof {
                assert forall|k: int|
                    0 <= k < 54 && packet_face_number(k / 9) != face implies #[trigger] state@[k]
                    == old(state)@[k] by {
                    assert(!(start <= k < start + 9));
                }
            }
            return false;
        }
        let place = if i < 4 {
            i
        } else {
            i + 1
        };
        state[start + place] = face_of_number(color_idx as usize).color();
        i += 1;
    }
    proof {
        assert forall|k: int|
            0 <= k < 54 && packet_face_number(k / 9) != face implies #[trigger] state@[k] == old(state)@[k] by {
            assert(!(start <= k < start + 9));
        }
        assert forall|k: int|
            0 <= k < 54 && packet_face_number(k / 9) == face implies #[trigger] state@[k]
            == packet_color(data@, k) by {
            assert(k / 9 == target.spec_index());
            let place = k % 9;
            assert(k == start + place);
            if place != 4 {
                let j = if place < 4 {
                    place
                } else {
                    place - 1
                };
                assert(sticker_place(j) == place);
                assert(state@[start + sticker_place(j)] == packet_face(
                    sticker_number(data@, face as int, j) as int,
                ).spec_color());
            }
        }
    }
    true
}

/// Decodes the cube state in a packet of the first version of the protocol. The
/// packet must hold at least 18 bytes. Fails where a sticker has a color number
/// that names no color, and where the colors are not those of a cube state.
pub fn decode_cube_state(data: &[u8]) -> (r: Result<Cube3x3x3, PacketError>)
    requires
        data@.len() >= 18,
    ensures
        match r {
            Ok(cube) => colors_known(data@) && decodes_to(packet_colors(data@), cube@),
            Err(PacketError::InvalidColor) => !colors_known(data@),
            Err(PacketError::InvalidCubeState(_)) => colors_known(data@) && forall|
                p: crate::cube3x3x3::Pieces3x3x3,
            | !#[trigger] decodes_to(packet_colors(data@), p),
            Err(_) => false,
        },
{
    let mut state: [Color; 54] = [Color::White;54];
    let mut face: usize = 0;
    while face < 6
        invariant
            face <= 6,
            data@.len() >= 18,
            forall|f: int, i: int|
                0 <= f < face && 0 <= i < 8 ==> #[trigger] sticker_number(data@, f, i) < 6,
            forall|k: int|
                0 <= k < 54 && packet_face_number(k / 9) < face ==> #[trigger] state@[k]
                    == packet_color(data@, k),
        decreases 6 - face,
    {
        let ghost before = state@;
        if !decode_face(&mut state, data, face) {
            return Err(PacketError::InvalidColor);
        }
        proof {
            assert forall|k: int|
                0 <= k < 54 && packet_face_number(k / 9) < face + 1 implies #[trigger] state@[k]
                == packet_color(data@, k) by {
                if packet_face_number(k / 9) != face {
                    assert(state@[k] == before[k]);
                }
            }
        }
        face += 1;
    }
    proof {
        assert(state@ =~= packet_colors(data@));
    }
    state_of_colors(state)
}

/// The cube state that a color array shows, if it shows one.
pub fn state_of_colors(state: [Color; 54]) -> (r: Result<Cube3x3x3, PacketError>)
    ensures
        match r {
            Ok(cube) => decodes_to(state@, cube@),
            Err(PacketError::InvalidCubeState(_)) => forall|p: crate::cube3x3x3::Pieces3x3x3|
                !#[trigger] decodes_to(state@, p),
            Err(_) => false,
        },
{
    match Cube3x3x3Faces::from_colors(state).as_pieces() {
        Ok(cube) => Ok(cube),
        Err(error) => {
            proof {
                assert forall|p: crate::cube3x3x3::Pieces3x3x3| !#[trigger] decodes_to(
                    state@,
                    p,
                ) by {
                    if decodes_to(state@, p) {
                        crate::laws::lemma_shown_everywhere(state@, p);
                    }
                }
            }
            Err(PacketError::InvalidCubeState(error))
        },
    }
}

/// The keys of the first version of the protocol, before the device identifier is
/// added, by the minor version of the device.
pub open spec fn base_key_v1(minor_version: int) -> Seq<u8> {
    if minor_version == 0 {
        seq![
            0xc6u8, 0xca, 0x15, 0xdf, 0x4f, 0x6e, 0x13, 0xb6, 0x77, 0x0d, 0xe6, 0x59, 0x3a, 0xaf, 0xba,
            0xa2,
        ]
    } else {
        seq![
            0x43u8, 0xe2, 0x5b, 0xd6, 0x7d, 0xdc, 0x78, 0xd8, 0x07, 0x60, 0xa3, 0xda, 0x82, 0x3c, 0x01,
            0xf1,
        ]
    }
}

/// The key of a device of the first version of the protocol: the first six bytes of
/// the base key, each with a byte of the device identifier added, the last byte of
/// the identifier first; sums wrap around.
pub open spec fn device_key_v1(minor_version: int, device_id: Seq<u8>) -> Seq<u8> {
    Seq::new(
        16,
        |i: int|
            if i < 6 {
                vstd::wrapping::u8_specs::wrapping_add(
                    base_key_v1(minor_version)[i],
                    device_id[5 - i],
                )
            } else {
                base_key_v1(minor_version)[i]
            },
    )
}

/// The key of the second version of the protocol, before the device identifier is
/// added.
pub open spec fn base_key_v2() -> Seq<u8> {
    seq![
        0x15u8, 0x77, 0x3a, 0x5c, 0x67, 0x0e, 0x2d, 0x1f, 0x17, 0x67, 0x2a, 0x13, 0x9b, 0x67, 0x52,
        0x57,
    ]
}

/// The initial vector of the second version of the protocol, before the device
/// identifier is added.
pub open spec fn base_iv_v2() -> Seq<u8> {
    seq![
        0x11u8, 0x23, 0x26, 0x25, 0x86, 0x2a, 0x2c, 0x3b, 0x55, 0x06, 0x7f, 0x31, 0x7e, 0x67, 0x21,
        0x57,
    ]
}

/// A key or initial vector of a device of the second version of the protocol: the
/// first six bytes of the base, each with a byte of the device identifier added
/// modulo 255, the last byte of the identifier first.
pub open spec fn device_bytes_v2(base: Seq<u8>, mac: Seq<u8>) -> Seq<u8> {
    Seq::new(
        16,
        |i: int|
            if i < 6 {
                ((base[i] + mac[5 - i]) % 255) as u8
            } else {
                base[i]
            },
    )
}

impl WCUCubeVersion1Cipher {
    /// Derives the key of a device from its minor version and its identifier. There
    /// are keys for the minor versions 0 and 1, and the identifier must hold at
    /// least six bytes.
    pub fn new(minor_version: u8, device_id: &[u8]) -> (r: Option<Self>)
        ensures
            r is Some <==> minor_version < 2 && device_id@.len() >= 6,
            r matches Some(cipher) ==> cipher.device_key@ == device_key_v1(
                minor_version as int,
                device_id@,
            ),
    {
        if minor_version >= 2 || device_id.len() < 6 {
            return None;
        }
        let mut key: [u8; 16] = if minor_version == 0 {
            [
                0xc6, 0xca, 0x15, 0xdf, 0x4f, 0x6e, 0x13, 0xb6, 0x77, 0x0d, 0xe6, 0x59, 0x3a, 0xaf,
                0xba, 0xa2,
            ]
        } else {
            [
                0x43, 0xe2, 0x5b, 0xd6, 0x7d, 0xdc, 0x78, 0xd8, 0x07, 0x60, 0xa3, 0xda, 0x82, 0x3c,
                0x01, 0xf1,
            ]
        };
        assert(key@ =~= base_key_v1(minor_version as int));
        let mut i: usize = 0;
        while i < 6
            invariant
                i <= 6,
                device_id@.len() >= 6,
                forall|k: int|
                    0 <= k < i ==> #[trigger] key@[k] == device_key_v1(
                        minor_version as int,
                        device_id@,
                    )[k],
                forall|k: int|
                    i <= k < 16 ==> #[trigger] key@[k] == base_key_v1(minor_version as int)[k],
            decreases 6 - i,
        {
            key[i] = key[i].wrapping_add(device_id[5 - i]);
            i += 1;
        }
        assert(key@ =~= device_key_v1(minor_version as int, device_id@));
        Some(WCUCubeVersion1Cipher { device_key: key })
    }
}

/// Adds the bytes of a device identifier to the first six bytes of a base.
fn add_identifier(base: [u8; 16], mac: &[u8; 6]) -> (r: [u8; 16])
    ensures
        r@ == device_bytes_v2(base@, mac@),
{
    let mut out = base;
    let mut i: usize = 0;
    while i < 6
        invariant
            i <= 6,
            forall|k: int| 0 <= k < i ==> #[trigger] out@[k] == device_bytes_v2(base@, mac@)[k],
            forall|k: int| i <= k < 16 ==> #[trigger] out@[k] == base@[k],
        decreases 6 - i,
    {
        out[i] = ((out[i] as u16 + mac[5 - i] as u16) % 255) as u8;
        i += 1;
    }
    assert(out@ =~= device_bytes_v2(base@, mac@));
    out
}

impl WCUCubeVersion2Cipher {
    /// Derives the key and the initial vector of a device from the six bytes of its
    /// identifier.
    pub fn new(mac: &[u8; 6]) -> (r: Self)
        ensures
            r.device_key@ == device_bytes_v2(base_key_v2(), mac@),
            r.device_iv@ == device_bytes_v2(base_iv_v2(), mac@),
    {
        let key: [u8; 16] = [
            0x15, 0x77, 0x3a, 0x5c, 0x67, 0x0e, 0x2d, 0x1f, 0x17, 0x67, 0x2a, 0x13, 0x9b, 0x67, 0x52,
            0x57,
        ];
        let iv: [u8; 16] = [
            0x11, 0x23, 0x26, 0x25, 0x86, 0x2a, 0x2c, 0x3b, 0x55, 0x06, 0x7f, 0x31, 0x7e, 0x67, 0x21,
            0x57,
        ];
        assert(key@ =~= base_key_v2());
        assert(iv@ =~= base_iv_v2());
        WCUCubeVersion2Cipher { device_key: add_identifier(key, mac), device_iv: add_identifier(iv, mac) }
    }
}

/// The move that a move number of the first version of the protocol names.
pub open spec fn packet_move(number: int) -> Move {
    if number == 0 {
        Move::U
    } else if number == 1 {
        Move::U2
    } else if number == 2 {
        Move::Up
    } else if number == 3 {
        Move::R
    } else if number == 4 {
        Move::R2
    } else if number == 5 {
        Move::Rp
    } else if number == 6 {
        Move::F
    } else if number == 7 {
        Move::F2
    } else if number == 8 {
        Move::Fp
    } else if number == 9 {
        Move::D
    } else if number == 10 {
        Move::D2
    } else if number == 11 {
        Move::Dp
    } else if number == 12 {
        Move::L
    } else if number == 13 {
        Move::L2
    } else if number == 14 {
        Move::Lp
    } else if number == 15 {
        Move::B
    } else if number == 16 {
        Move::B2
    } else {
        Move::Bp
    }
}

/// The move with a move number of the protocol.
fn move_of_number(number: usize) -> (r: Move)
    requires
        number < 18,
    ensures
        r == packet_move(number as int),
{
    match number {
        0 => Move::U,
        1 => Move::U2,
        2 => Move::Up,
        3 => Move::R,
        4 => Move::R2,
        5 => Move::Rp,
        6 => Move::F,
        7 => Move::F2,
        8 => Move::Fp,
        9 => Move::D,
        10 => Move::D2,
        11 => Move::Dp,
        12 => Move::L,
        13 => Move::L2,
        14 => Move::Lp,
        15 => Move::B,
        16 => Move::B2,
        _ => Move::Bp,
    }
}

/// Number of moves that a packet of moves reports beyond those that were known: the
/// count in the packet less the last known count; counts wrap around.
pub open spec fn new_move_count(move_data: Seq<u8>, last_move_count: u8) -> int {
    vstd::wrapping::u8_specs::wrapping_sub(move_data[12], last_move_count) as int
}

/// The move number of the `j`-th new move in a packet of moves, which holds the last
/// six moves.
pub open spec fn new_move_number(move_data: Seq<u8>, last_move_count: u8, j: int) -> int {
    move_data[13 + (6 - new_move_count(move_data, last_move_count)) + j] as int
}

/// The place of the time of the `j`-th new move in a packet of times, which holds
/// the times of the last nine moves.
pub open spec fn time_place(timing: Seq<u8>, last_move_count: u8, j: int) -> int {
    vstd::wrapping::u8_specs::wrapping_sub(
        vstd::wrapping::u8_specs::wrapping_add(last_move_count, j as u8),
        vstd::wrapping::u8_specs::wrapping_sub(timing[0], 9),
    ) as int
}

/// The time of the `j`-th new move: two bytes of the packet of times, the low byte
/// first.
pub open spec fn new_move_time(timing: Seq<u8>, last_move_count: u8, j: int) -> u32 {
    (timing[time_place(timing, last_move_count, j) * 2 + 1] as u32) | ((timing[time_place(
        timing,
        last_move_count,
        j,
    ) * 2 + 2] as u32) << 8)
}

/// Why the `j`-th new move cannot be read, if it cannot.
pub open spec fn new_move_error(
    move_data: Seq<u8>,
    timing: Seq<u8>,
    last_move_count: u8,
    j: int,
) -> Option<PacketError> {
    if time_place(timing, last_move_count, j) >= 9 {
        Some(PacketError::TimestampMissing)
    } else if new_move_number(move_data, last_move_count, j) >= 18 {
        Some(PacketError::InvalidMove)
    } else {
        None
    }
}

/// The `j`-th new move with its time.
pub open spec fn new_move(
    move_data: Seq<u8>,
    timing: Seq<u8>,
    last_move_count: u8,
    j: int,
) -> TimedMove {
    TimedMove {
        mv: packet_move(new_move_number(move_data, last_move_count, j)),
        time: new_move_time(timing, last_move_count, j),
    }
}

/// Reads the `j`-th new move of a packet of moves and its time.
fn decode_move(move_data: &[u8], timing: &[u8], last_move_count: u8, j: usize) -> (r: Result<
    TimedMove,
    PacketError,
>)
    requires
        move_data@.len() >= 19,
        timing@.len() >= 19,
        new_move_count(move_data@, last_move_count) <= 6,
        j < new_move_count(move_data@, last_move_count),
    ensures
        match r {
            Ok(timed) => new_move_error(move_data@, timing@, last_move_count, j as int) is None
                && timed == new_move(move_data@, timing@, last_move_count, j as int),
            Err(error) => new_move_error(move_data@, timing@, last_move_count, j as int) == Some(
                error,
            ),
        },
{
    let move_count = move_data[12].wrapping_sub(last_move_count) as usize;
    let move_num = move_data[13 + (6 - move_count) + j] as usize;
    let place = last_move_count.wrapping_add(j as u8).wrapping_sub(timing[0].wrapping_sub(9));
    if place >= 9 {
        return Err(PacketError::TimestampMissing);
    }
    let low = timing[place as usize * 2 + 1] as u32;
    let high = timing[place as usize * 2 + 2] as u32;
    if move_num >= 18 {
        return Err(PacketError::InvalidMove);
    }
    Ok(TimedMove::new(move_of_number(move_num), low | (high << 8)))
}

/// Reads the moves that a packet of moves and a packet of times of the first version
/// of the protocol report beyond those that were known. Both packets must hold at
/// least 19 bytes. Fails where more than six moves are new, and at the first new
/// move that has no time or no known move number.
pub fn decode_moves(move_data: &[u8], timing: &[u8], last_move_count: u8) -> (r: Result<
    Vec<TimedMove>,
    PacketError,
>)
    requires
        move_data@.len() >= 19,
        timing@.len() >= 19,
    ensures
        match r {
            Ok(moves) => {
                &&& new_move_count(move_data@, last_move_count) <= 6
                &&& moves@.len() == new_move_count(move_data@, last_move_count)
                &&& forall|j: int|
                    0 <= j < moves@.len() ==> new_move_error(
                        move_data@,
                        timing@,
                        last_move_count,
                        j,
                    ) is None && #[trigger] moves@[j] == new_move(
                        move_data@,
                        timing@,
                        last_move_count,
                        j,
                    )
            },
            Err(error) => if new_move_count(move_data@, last_move_count) > 6 {
                error == PacketError::MoveBufferExceeded
            } else {
                exists|j: int|
                    0 <= j < new_move_count(move_data@, last_move_count) && #[trigger] new_move_error(
                        move_data@,
                        timing@,
                        last_move_count,
                        j,
                    ) == Some(error) && forall|k: int|
                        0 <= k < j ==> #[trigger] new_move_error(
                            move_data@,
                            timing@,
                            last_move_count,
                            k,
                        ) is None
            },
        },
{
    let move_count = move_data[12].wrapping_sub(last_move_count) as usize;
    if move_count > 6 {
        return Err(PacketError::MoveBufferExceeded);
    }
    let mut moves: Vec<TimedMove> = Vec::new();
    let mut j: usize = 0;
    while j < move_count
        invariant
            j <= move_count,
            move_count <= 6,
            move_data@.len() >= 19,
            timing@.len() >= 19,
            move_count == new_move_count(move_data@, last_move_count),
            moves@.len() == j,
            forall|k: int|
                0 <= k < j ==> #[trigger] new_move_error(move_data@, timing@, last_move_count, k)
                    is None,
            forall|k: int|
                0 <= k < j ==> #[trigger] moves@[k] == new_move(
                    move_data@,
                    timing@,
                    last_move_count,
                    k,
                ),
        decreases move_count - j,
    {
        match decode_move(move_data, timing, last_move_count, j) {
            Ok(timed) => {
                moves.push(timed);
            },
            Err(error) => {
                assert(new_move_error(move_data@, timing@, last_move_count, j as int) == Some(
                    error,
                ));
                return Err(error);
            },
        }
        j += 1;
    }
    Ok(moves)
}

/// What a smart timer reports.
#[derive(Clone, Copy, Debug, PartialEq, Eq, Structural)]
pub enum TimerEvent {
    TimerReady,
    TimerStartCancel,
    TimerStarted,
    /// The timer has stopped at a time in milliseconds.
    TimerFinished(u32),
    HandsOnTimer,
}

/// The time in milliseconds in a report of a stopped timer: minutes, seconds and
/// two bytes of milliseconds, the low byte first.
pub open spec fn timer_time(value: Seq<u8>) -> int {
    value[4] * 60000 + value[5] * 1000 + (((value[7] as u32) << 8) | (value[6] as u32))
}

/// What a report of a smart timer says, if it says anything: the fourth byte tells
/// the kind of the event, and a stopped timer sends its time in four bytes more.
pub open spec fn timer_event(value: Seq<u8>) -> Option<TimerEvent> {
    if value.len() < 4 {
        None
    } else if value[3] == 1 {
        Some(TimerEvent::TimerReady)
    } else if value[3] == 2 {
        Some(TimerEvent::TimerStartCancel)
    } else if value[3] == 3 {
        Some(TimerEvent::TimerStarted)
    } else if value[3] == 4 && value.len() >= 8 {
        Some(TimerEvent::TimerFinished(timer_time(value) as u32))
    } else if value[3] == 6 {
        Some(TimerEvent::HandsOnTimer)
    } else {
        None
    }
}

/// Two bytes as a number are below 65536.
proof fn lemma_two_bytes(high: u8, low: u8)
    by (bit_vector)
    ensures
        (((high as u32) << 8) | (low as u32)) < 0x10000,
{
}

/// Reads a report of a smart timer.
pub fn decode_timer_event(value: &[u8]) -> (r: Option<TimerEvent>)
    ensures
        r == timer_event(value@),
{
    if value.len() < 4 {
        return None;
    }
    match value[3] {
        1 => Some(TimerEvent::TimerReady),
        2 => Some(TimerEvent::TimerStartCancel),
        3 => Some(TimerEvent::TimerStarted),
        4 => {
            if value.len() >= 8 {
                let min = value[4] as u32;
                let sec = value[5] as u32;
                proof {
                    lemma_two_bytes(value[7], value[6]);
                }
                let msec = ((value[7] as u32) << 8) | (value[6] as u32);
                Some(TimerEvent::TimerFinished(min * 60000 + sec * 1000 + msec))
            } else {
                None
            }
        },
        6 => Some(TimerEvent::HandsOnTimer),
        _ => None,
    }
}

/// The devices of the first version of the protocol.
#[derive(Clone, Copy, Debug, PartialEq, Eq, Structural)]
pub enum DeviceKind {
    /// A cube, with its minor version.
    Cube(u8),
    SmartTimer,
}

/// Why the version that a device reports names no device.
#[derive(Clone, Copy, Debug, PartialEq, Eq, Structural)]
pub enum VersionError {
    /// The report has fewer than three bytes.
    Invalid,
    /// No device with this major and minor version is supported.
    Unsupported(u8, u8),
}

/// The device that reports a version: the versions 1.0 and 1.1 are cubes, the
/// version 2.0 is a smart timer.
pub open spec fn kind_of_version(version: Seq<u8>) -> Result<DeviceKind, VersionError> {
    if version.len() < 3 {
        Err(VersionError::Invalid)
    } else if version[0] == 1 && version[1] <= 1 {
        Ok(DeviceKind::Cube(version[1]))
    } else if version[0] == 2 && version[1] == 0 {
        Ok(DeviceKind::SmartTimer)
    } else {
        Err(VersionError::Unsupported(version[0], version[1]))
    }
}

/// Tells the device from the version that it reports.
pub fn device_kind(version: &[u8]) -> (r: Result<DeviceKind, VersionError>)
    ensures
        r == kind_of_version(version@),
{
    if version.len() < 3 {
        return Err(VersionError::Invalid);
    }
    let major = version[0];
    let minor = version[1];
    if major == 1 && minor <= 1 {
        Ok(DeviceKind::Cube(minor))
    } else if major == 2 && minor == 0 {
        Ok(DeviceKind::SmartTimer)
    } else {
        Err(VersionError::Unsupported(major, minor))
    }
}

} // verus!
