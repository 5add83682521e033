use crate::common::{CubeFace, Move};
use vstd::prelude::*;

verus! {

/// A move with the time at which the cube reported it, in 65536ths of a second.
#[derive(Clone, Copy, Debug, PartialEq, Eq, Structural)]
pub struct StampedMove {
    pub mv: Move,
    pub stamp: u32,
}

/// The face that a face number of a turn report names.
pub open spec fn report_face(number: int) -> CubeFace {
    if number == 0 {
        CubeFace::Bottom
    } else if number == 1 {
        CubeFace::Left
    } else if number == 2 {
        CubeFace::Back
    } else if number == 3 {
        CubeFace::Right
    } else if number == 4 {
        CubeFace::Front
    } else {
        CubeFace::Top
    }
}

/// Number of ninths of a quarter turn that a byte of a turn report stands for: the
/// byte as a signed number, over 36, rounded towards zero.
pub open spec fn report_direction(byte: u8) -> int {
    if byte < 128 {
        byte as int / 36
    } else {
        -((256 - byte as int) / 36)
    }
}

/// Where the `i`-th report of a packet of turn reports begins; a report has six
/// bytes, and the first byte of the packet is the number of reports.
pub open spec fn report_start(i: int) -> int {
    1 + i * 6
}

/// The time in the `i`-th report of a packet.
pub open spec fn report_stamp(value: Seq<u8>, i: int) -> u32 {
    ((value[report_start(i) + 1] as u32) << 24) | ((value[report_start(i)] as u32) << 16) | ((
    value[report_start(i) + 3] as u32) << 8) | (value[report_start(i) + 2] as u32)
}

/// Whether a packet of turn reports is complete and each report names a face.
pub open spec fn reports_readable(value: Seq<u8>) -> bool {
    &&& value.len() >= 1
    &&& value.len() >= 1 + value[0] * 6
    &&& forall|i: int| 0 <= i < value[0] ==> #[trigger] value[report_start(i) + 4] < 6
}

/// Whether each face is between zero and eight ninths of a quarter turn away from
/// its rest.
pub open spec fn rotations_wf(rotations: Seq<i8>) -> bool {
    &&& rotations.len() == 6
    &&& forall|f: int| 0 <= f < 6 ==> 0 <= #[trigger] rotations[f] < 9
}

/// How far a face is from its rest after a turn: ninths of a quarter turn are
/// counted modulo nine.
pub open spec fn rotation_after(rotation: int, direction: int) -> int {
    (rotation + direction + 9) % 9
}

/// The quarter turn that a face has completed by a turn, if any: clockwise where it
/// passes from the lower half of a quarter turn into the upper, counter-clockwise
/// where it passes back.
pub open spec fn turn_completed(rotation: int, direction: int) -> Option<int> {
    if rotation >= 5 && rotation + direction <= 4 {
        Some(-1int)
    } else if rotation <= 4 && rotation + direction >= 5 {
        Some(1int)
    } else {
        None
    }
}

/// How far the faces are from their rest after the first `n` reports of a packet.
pub open spec fn rotations_after(value: Seq<u8>, rotations: Seq<i8>, n: nat) -> Seq<i8>
    decreases n,
{
    if n == 0 {
        rotations
    } else {
        let before = rotations_after(value, rotations, (n - 1) as nat);
        let face = value[report_start(n - 1) + 4] as int;
        before.update(
            face,
            rotation_after(
                before[face] as int,
                report_direction(value[report_start(n - 1) + 5]),
            ) as i8,
        )
    }
}

/// The moves that the first `n` reports of a packet complete.
pub open spec fn moves_reported(value: Seq<u8>, rotations: Seq<i8>, n: nat) -> Seq<StampedMove>
    decreases n,
{
    if n == 0 {
        Seq::empty()
    } else {
        let before = rotations_after(value, rotations, (n - 1) as nat);
        let face = value[report_start(n - 1) + 4] as int;
        let earlier = moves_reported(value, rotations, (n - 1) as nat);
        match turn_completed(before[face] as int, report_direction(value[report_start(n - 1) + 5])) {
            Some(rotation) => earlier.push(
                StampedMove {
                    mv: Move::of(report_face(face), rotation),
                    stamp: report_stamp(value, n - 1),
                },
            ),
            None => earlier,
        }
    }
}

/// The rotations stay well formed over the reports of a readable packet.
pub proof fn lemma_rotations_after_wf(value: Seq<u8>, rotations: Seq<i8>, n: nat)
    requires
        reports_readable(value),
        rotations_wf(rotations),
        n <= value[0],
    ensures
        rotations_wf(rotations_after(value, rotations, n)),
    decreases n,
{
    if n > 0 {
        lemma_rotations_after_wf(value, rotations, (n - 1) as nat);
        let before = rotations_after(value, rotations, (n - 1) as nat);
        let face = value[report_start(n - 1) + 4] as int;
        assert(0 <= face < 6);
        let after = rotations_after(value, rotations, n);
        assert forall|f: int| 0 <= f < 6 implies 0 <= #[trigger] after[f] < 9 by {
            assert(0 <= before[f] < 9);
        }
    }
}

/// The face with a face number of a turn report.
fn face_of_number(number: u8) -> (r: CubeFace)
    requires
        number < 6,
    ensures
        r == report_face(number as int),
{
    match number {
        0 => CubeFace::Bottom,
        1 => CubeFace::Left,
        2 => CubeFace::Back,
        3 => CubeFace::Right,
        4 => CubeFace::Front,
        _ => CubeFace::Top,
    }
}

/// The direction that a byte of a turn report stands for.
fn direction_of(byte: u8) -> (r: i8)
    ensures
        r == report_direction(byte),
        -3 <= r <= 3,
{
    if byte < 128 {
        (byte / 36) as i8
    } else {
        let back: u8 = ((256 - byte as u16) / 36) as u8;
        -(back as i8)
    }
}

/// Whether a packet of turn reports is complete and each report names a face.
pub fn turn_reports_readable(value: &[u8]) -> (r: bool)
    ensures
        r == reports_readable(value@),
{
    if value.len() < 1 {
        return false;
    }
    let count = value[0] as usize;
    if value.len() < 1 + count * 6 {
        return false;
    }
    let mut i: usize = 0;
    while i < count
        invariant
            i <= count,
            count == value@[0],
            value@.len() >= 1 + count * 6,
            forall|k: int| 0 <= k < i ==> #[trigger] value@[report_start(k) + 4] < 6,
        decreases count - i,
    {
        if value[1 + i * 6 + 4] >= 6 {
            assert(!(value@[report_start(i as int) + 4] < 6));
            return false;
        }
        i += 1;
    }
    true
}

/// The time in the report that begins at `start`.
fn stamp_at(value: &[u8], start: usize) -> (r: u32)
    requires
        start + 6 <= value@.len(),
    ensures
        r == ((value@[start + 1] as u32) << 24) | ((value@[start as int] as u32) << 16) | ((
        value@[start + 3] as u32) << 8) | (value@[start + 2] as u32),
{
    let n = value.len();
    assert(start + 6 <= n);
    ((value[start + 1] as u32) << 24) | ((value[start] as u32) << 16) | ((value[start + 3] as u32)
        << 8) | (value[start + 2] as u32)
}

/// Follows one turn report: moves the face that it names, and says which quarter
/// turn this completes, if any.
fn follow_report(value: &[u8], face_rotations: &mut [i8; 6], Ghost(start): Ghost<Seq<i8>>, i: usize) -> (r:
    Option<StampedMove>)
    requires
        reports_readable(value@),
        i < value@[0],
        rotations_wf(start),
        old(face_rotations)@ == rotations_after(value@, start, i as nat),
    ensures
        final(face_rotations)@ == rotations_after(value@, start, (i + 1) as nat),
        moves_reported(value@, start, (i + 1) as nat) == match r {
            Some(stamped) => moves_reported(value@, start, i as nat).push(stamped),
            None => moves_reported(value@, start, i as nat),
        },
{
    proof {
        lemma_rotations_after_wf(value@, start, i as nat);
    }
    let offset = 1 + i * 6;
    assert(offset == report_start(i as int));
    assert(value@[report_start(i as int) + 4] < 6);
    let face = value[offset + 4];
    let direction = direction_of(value[offset + 5]);
    let old_rotation = face_rotations[face as usize];
    assert(0 <= old_rotation < 9);
    let new_rotation = old_rotation + direction;
    face_rotations[face as usize] = (new_rotation + 9) % 9;
    assert(face_rotations@ =~= rotations_after(value@, start, (i + 1) as nat));
    if old_rotation >= 5 && new_rotation <= 4 {
        let mv = Move::from_face_and_rotation(face_of_number(face), -1);
        Some(StampedMove { mv: mv.unwrap(), stamp: stamp_at(value, offset) })
    } else if old_rotation <= 4 && new_rotation >= 5 {
        let mv = Move::from_face_and_rotation(face_of_number(face), 1);
        Some(StampedMove { mv: mv.unwrap(), stamp: stamp_at(value, offset) })
    } else {
        None
    }
}

/// Follows the turn reports of a packet: moves the faces as the reports say, and
/// returns the moves that this completes, each with the time of its report. A packet
/// that is incomplete, or that names a face that does not exist, changes nothing.
pub fn decode_turns(value: &[u8], face_rotations: &mut [i8; 6]) -> (r: Option<Vec<StampedMove>>)
    requires
        rotations_wf(old(face_rotations)@),
    ensures
        r is Some <==> reports_readable(value@),
        r is None ==> final(face_rotations)@ == old(face_rotations)@,
        r matches Some(moves) ==> {
            &&& final(face_rotations)@ == rotations_after(
                value@,
                old(face_rotations)@,
                value@[0] as nat,
            )
            &&& moves@ == moves_reported(value@, old(face_rotations)@, value@[0] as nat)
        },
        rotations_wf(final(face_rotations)@),
{
    if !turn_reports_readable(value) {
        return None;
    }
    let ghost start = face_rotations@;
    let count = value[0] as usize;
    let mut moves: Vec<StampedMove> = Vec::new();
    let mut i: usize = 0;
    while i < count
        invariant
            i <= count,
            count == value@[0],
            reports_readable(value@),
            rotations_wf(start),
            face_rotations@ == rotations_after(value@, start, i as nat),
            moves@ == moves_reported(value@, start, i as nat),
        decreases count - i,
    {
        match follow_report(value, face_rotations, Ghost(start), i) {
            Some(stamped) => {
                moves.push(stamped);
            },
            None => {},
        }
        i += 1;
    }
    proof {
        lemma_rotations_after_wf(value@, start, count as nat);
    }
    Some(moves)
}

} // verus!
