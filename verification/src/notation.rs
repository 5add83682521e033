use crate::common::{CubeFace, Move};
use vstd::prelude::*;

verus! {

/// Appends a character to a string: calls `String::push`, which adds the character
/// at the end and changes nothing else.
#[verifier::external_body]
pub(crate) fn push_char(s: &mut String, c: char)
    ensures
        final(s)@ == old(s)@.push(c),
{
    s.push(c);
}

/// The letter that names a face in the notation of moves.
pub open spec fn face_letter(face: CubeFace) -> char {
    match face {
        CubeFace::Top => 'U',
        CubeFace::Front => 'F',
        CubeFace::Right => 'R',
        CubeFace::Back => 'B',
        CubeFace::Left => 'L',
        CubeFace::Bottom => 'D',
    }
}

/// The notation of a move: the letter of its face, followed by `'` for a quarter
/// turn counter-clockwise, by `2` for a half turn, and by nothing for a quarter
/// turn clockwise.
pub open spec fn notation(mv: Move) -> Seq<char> {
    if mv.spec_rotation() == 1 {
        seq![face_letter(mv.spec_face())]
    } else if mv.spec_rotation() == 2 {
        seq![face_letter(mv.spec_face()), '2']
    } else {
        seq![face_letter(mv.spec_face()), '\'']
    }
}

/// The notation of a sequence of moves: the notations of the moves, each followed
/// by a space but the last.
pub open spec fn sequence_notation(moves: Seq<Move>) -> Seq<char>
    decreases moves.len(),
{
    if moves.len() == 0 {
        Seq::<char>::empty()
    } else if moves.len() == 1 {
        notation(moves[0])
    } else {
        sequence_notation(moves.drop_last()) + seq![' '] + notation(moves.last())
    }
}

/// The face that a letter names.
pub fn face_of_letter(c: char) -> (r: Option<CubeFace>)
    ensures
        match r {
            Some(face) => face_letter(face) == c,
            None => forall|face: CubeFace| face_letter(face) != c,
        },
{
    if c == 'U' {
        Some(CubeFace::Top)
    } else if c == 'F' {
        Some(CubeFace::Front)
    } else if c == 'R' {
        Some(CubeFace::Right)
    } else if c == 'B' {
        Some(CubeFace::Back)
    } else if c == 'L' {
        Some(CubeFace::Left)
    } else if c == 'D' {
        Some(CubeFace::Bottom)
    } else {
        None
    }
}

/// The letter of a face.
pub fn letter_of_face(face: CubeFace) -> (r: char)
    ensures
        r == face_letter(face),
{
    match face {
        CubeFace::Top => 'U',
        CubeFace::Front => 'F',
        CubeFace::Right => 'R',
        CubeFace::Back => 'B',
        CubeFace::Left => 'L',
        CubeFace::Bottom => 'D',
    }
}

/// Appends the notation of a move to a string.
pub fn append_move(s: &mut String, mv: Move)
    ensures
        final(s)@ == old(s)@ + notation(mv),
{
    push_char(s, letter_of_face(mv.face()));
    let rotation = mv.rotation();
    if rotation == 2 {
        push_char(s, '2');
    } else if rotation == -1 {
        push_char(s, '\'');
    }
    assert(s@ =~= old(s)@ + notation(mv));
}

impl Move {
    /// Writes the move in the notation of moves.
    pub fn to_string(&self) -> (r: String)
        ensures
            r@ == notation(*self),
    {
        let mut s = String::new();
        append_move(&mut s, *self);
        assert(s@ =~= notation(*self));
        s
    }

    /// Reads a move in the notation of moves. Any other text names no move.
    pub fn from_notation(s: &str) -> (r: Option<Move>)
        ensures
            match r {
                Some(mv) => s@ == notation(mv),
                None => forall|mv: Move| s@ != notation(mv),
            },
    {
        let n = s.unicode_len();
        if n == 0 || n > 2 {
            assert forall|mv: Move| s@ != notation(mv) by {
                assert(notation(mv).len() == 1 || notation(mv).len() == 2);
            }
            return None;
        }
        let face = match face_of_letter(s.get_char(0)) {
            Some(face) => face,
            None => {
                assert forall|mv: Move| s@ != notation(mv) by {
                    assert(notation(mv)[0] == face_letter(mv.spec_face()));
                }
                return None;
            },
        };
        let rotation: i32 = if n == 1 {
            1
        } else {
            let suffix = s.get_char(1);
            if suffix == '2' {
                2
            } else if suffix == '\'' {
                -1
            } else {
                assert forall|mv: Move| s@ != notation(mv) by {
                    if notation(mv).len() == 2 {
                        assert(notation(mv)[1] == '2' || notation(mv)[1] == '\'');
                    }
                }
                return None;
            }
        };
        match Move::from_face_and_rotation(face, rotation) {
            Some(mv) => {
                assert(mv.spec_face() == face && mv.spec_rotation() == rotation);
                assert(s@ =~= notation(mv));
                Some(mv)
            },
            None => None,
        }
    }
}

/// Writes a sequence of moves in the notation of moves, with a space between two
/// moves.
pub fn moves_to_string(moves: &Vec<Move>) -> (r: String)
    ensures
        r@ == sequence_notation(moves@),
{
    let mut s = String::new();
    let mut i: usize = 0;
    while i < moves.len()
        invariant
            i <= moves.len(),
            s@ == sequence_notation(moves@.take(i as int)),
        decreases moves.len() - i,
    {
        if i > 0 {
            push_char(&mut s, ' ');
        }
        append_move(&mut s, moves[i]);
        proof {
            let next = moves@.take(i + 1);
            assert(next.drop_last() =~= moves@.take(i as int));
            assert(next.last() == moves@[i as int]);
            if i == 0 {
                assert(next[0] == moves@[0]);
                assert(s@ =~= notation(moves@[0]));
            } else {
                assert(s@ =~= sequence_notation(moves@.take(i as int)) + seq![' '] + notation(
                    moves@[i as int],
                ));
            }
        }
        i += 1;
    }
    proof {
        assert(moves@.take(moves.len() as int) =~= moves@);
    }
    s
}

} // verus!
