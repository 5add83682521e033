use crate::common::Color;
use crate::cube2x2x2::{Cube2x2x2, Cube2x2x2Faces};
use crate::cube3x3x3::{Cube3x3x3, Cube3x3x3Faces};
use crate::notation::push_char;
use vstd::prelude::*;

verus! {

/// The letter that stands for a color in the picture of a cube.
pub open spec fn color_letter(color: Color) -> char {
    match color {
        Color::White => 'W',
        Color::Green => 'G',
        Color::Red => 'R',
        Color::Blue => 'B',
        Color::Orange => 'O',
        Color::Yellow => 'Y',
    }
}

/// The face that covers column `x` and row `y` of the unfolded picture of a cube of
/// size `n`, and -1 where no face does.
pub open spec fn net_face(n: int, x: int, y: int) -> int {
    let column = x / n;
    let row = y / n;
    if row == 0 && column == 1 {
        0
    } else if row == 2 && column == 1 {
        5
    } else if row == 1 && column == 0 {
        4
    } else if row == 1 && column == 1 {
        1
    } else if row == 1 && column == 2 {
        2
    } else if row == 1 && column == 3 {
        3
    } else {
        -1
    }
}

/// The character at column `x` and row `y` of the unfolded picture: the letter of
/// the color of the sticker there, and a blank where there is no sticker.
pub open spec fn net_char(f: Seq<Color>, n: int, x: int, y: int) -> char {
    let face = net_face(n, x, y);
    if face < 0 {
        ' '
    } else {
        color_letter(f[face * n * n + (y % n) * n + x % n])
    }
}

/// The unfolded picture of a cube of size `n` as text: `3 * n` lines of
/// `4 * n + 1` characters, each ended by a line feed.
pub open spec fn net_text(f: Seq<Color>, n: int) -> Seq<char> {
    Seq::new(
        (3 * n * (4 * n + 2)) as nat,
        |i: int|
            if i % (4 * n + 2) == 4 * n + 1 {
                '\n'
            } else {
                net_char(f, n, i % (4 * n + 2), i / (4 * n + 2))
            },
    )
}

/// The colors of a cube of size `n` by face, row and column.
pub open spec fn colors_by_face(f: Seq<Color>, n: int, r: Seq<Vec<Vec<Color>>>) -> bool {
    &&& r.len() == 6
    &&& forall|face: int| 0 <= face < 6 ==> (#[trigger] r[face])@.len() == n
    &&& forall|face: int, row: int|
        0 <= face < 6 && 0 <= row < n ==> (#[trigger] r[face]@[row])@.len() == n
    &&& forall|face: int, row: int, col: int|
        0 <= face < 6 && 0 <= row < n && 0 <= col < n ==> (#[trigger] r[face]@[row]@[col]) == f[face
            * n * n + row * n + col]
}

/// The letter of a color.
fn letter(color: Color) -> (r: char)
    ensures
        r == color_letter(color),
{
    match color {
        Color::White => 'W',
        Color::Green => 'G',
        Color::Red => 'R',
        Color::Blue => 'B',
        Color::Orange => 'O',
        Color::Yellow => 'Y',
    }
}

/// Index of a sticker in the colors of a cube of size `n`.
fn sticker_index(n: usize, face: usize, row: usize, col: usize) -> (r: usize)
    requires
        2 <= n <= 3,
        face < 6,
        row < n,
        col < n,
    ensures
        r == face * n * n + row * n + col,
        r < 6 * n * n,
{
    if n == 2 {
        face * 4 + row * 2 + col
    } else {
        face * 9 + row * 3 + col
    }
}

/// The face that covers a place of the unfolded picture.
fn face_at(n: usize, x: usize, y: usize) -> (r: Option<usize>)
    requires
        2 <= n <= 3,
        x < 4 * n + 1,
        y < 3 * n,
    ensures
        match r {
            Some(face) => face == net_face(n as int, x as int, y as int) && face < 6,
            None => net_face(n as int, x as int, y as int) < 0,
        },
{
    let column = x / n;
    let row = y / n;
    if row == 0 && column == 1 {
        Some(0)
    } else if row == 2 && column == 1 {
        Some(5)
    } else if row == 1 && column == 0 {
        Some(4)
    } else if row == 1 && column == 1 {
        Some(1)
    } else if row == 1 && column == 2 {
        Some(2)
    } else if row == 1 && column == 3 {
        Some(3)
    } else {
        None
    }
}

/// Draws the unfolded picture of the colors of a cube of size `n`.
fn draw(state: &[Color], n: usize) -> (r: String)
    requires
        2 <= n <= 3,
        state@.len() == 6 * n * n,
    ensures
        r@ == net_text(state@, n as int),
{
    let width = 4 * n + 2;
    let mut s = String::new();
    let mut y: usize = 0;
    while y < 3 * n
        invariant
            2 <= n <= 3,
            width == 4 * n + 2,
            state@.len() == 6 * n * n,
            y <= 3 * n,
            s@.len() == y * width,
            forall|i: int| 0 <= i < s@.len() ==> s@[i] == net_text(state@, n as int)[i],
        decreases 3 * n - y,
    {
        let mut x: usize = 0;
        while x < 4 * n + 1
            invariant
                2 <= n <= 3,
                width == 4 * n + 2,
                state@.len() == 6 * n * n,
                y < 3 * n,
                x <= 4 * n + 1,
                s@.len() == y * width + x,
                forall|i: int| 0 <= i < s@.len() ==> s@[i] == net_text(state@, n as int)[i],
            decreases 4 * n + 1 - x,
        {
            let c = match face_at(n, x, y) {
                Some(face) => letter(state[sticker_index(n, face, y % n, x % n)]),
                None => ' ',
            };
            proof {
                let i = y * width + x;
                assert(i % (width as int) == x && i / (width as int) == y) by (nonlinear_arith)
                    requires
                        i == y * width + x,
                        0 <= x < width,
                        y >= 0,
                        width > 0,
                ;
                assert(i < 3 * n * width) by (nonlinear_arith)
                    requires
                        i == y * width + x,
                        x < width,
                        y < 3 * n,
                ;
            }
            push_char(&mut s, c);
            x += 1;
        }
        proof {
            let i = y * width + x;
            assert(i % (width as int) == x && i / (width as int) == y) by (nonlinear_arith)
                requires
                    i == y * width + x,
                    0 <= x < width,
                    y >= 0,
                    width > 0,
            ;
            assert(i < 3 * n * width) by (nonlinear_arith)
                requires
                    i == y * width + x,
                    x < width,
                    y < 3 * n,
            ;
            assert((y + 1) * width == y * width + width) by (nonlinear_arith);
        }
        push_char(&mut s, '\n');
        y += 1;
    }
    proof {
        assert(3 * n * (4 * n + 2) == (3 * n) * width) by (nonlinear_arith)
            requires
                width == 4 * n + 2,
        ;
        assert(s@ =~= net_text(state@, n as int));
    }
    s
}

/// Collects the colors of a cube of size `n` by face, row and column.
fn collect(state: &[Color], n: usize) -> (r: Vec<Vec<Vec<Color>>>)
    requires
        2 <= n <= 3,
        state@.len() == 6 * n * n,
    ensures
        colors_by_face(state@, n as int, r@),
{
    let mut faces: Vec<Vec<Vec<Color>>> = Vec::new();
    let mut face: usize = 0;
    while face < 6
        invariant
            2 <= n <= 3,
            state@.len() == 6 * n * n,
            face <= 6,
            faces@.len() == face,
            forall|a: int| 0 <= a < face ==> (#[trigger] faces@[a])@.len() == n,
            forall|a: int, b: int|
                0 <= a < face && 0 <= b < n ==> (#[trigger] faces@[a]@[b])@.len() == n,
            forall|a: int, b: int, c: int|
                0 <= a < face && 0 <= b < n && 0 <= c < n ==> (#[trigger] faces@[a]@[b]@[c])
                    == state@[a * n * n + b * n + c],
        decreases 6 - face,
    {
        let mut rows: Vec<Vec<Color>> = Vec::new();
        let mut row: usize = 0;
        while row < n
            invariant
                2 <= n <= 3,
                state@.len() == 6 * n * n,
                face < 6,
                row <= n,
                rows@.len() == row,
                forall|b: int| 0 <= b < row ==> (#[trigger] rows@[b])@.len() == n,
                forall|b: int, c: int|
                    0 <= b < row && 0 <= c < n ==> (#[trigger] rows@[b]@[c]) == state@[face * n * n
                        + b * n + c],
            decreases n - row,
        {
            let mut cols: Vec<Color> = Vec::new();
            let mut col: usize = 0;
            while col < n
                invariant
                    2 <= n <= 3,
                    state@.len() == 6 * n * n,
                    face < 6,
                    row < n,
                    col <= n,
                    cols@.len() == col,
                    forall|c: int|
                        0 <= c < col ==> (#[trigger] cols@[c]) == state@[face * n * n + row * n
                            + c],
                decreases n - col,
            {
                cols.push(state[sticker_index(n, face, row, col)]);
                col += 1;
            }
            rows.push(cols);
            row += 1;
        }
        faces.push(rows);
        face += 1;
    }
    faces
}

impl Cube3x3x3Faces {
    /// The colors by face, in the order of `CubeFace`, by row and by column.
    pub fn colors(&self) -> (r: Vec<Vec<Vec<Color>>>)
        ensures
            colors_by_face(self@, 3, r@),
    {
        collect(self.stickers().as_slice(), 3)
    }

    /// The unfolded picture of the cube as text: the top face above the front face,
    /// the bottom face below it, the left face to its left, and the right and the
    /// back face to its right.
    pub fn to_string(&self) -> (r: String)
        ensures
            r@ == net_text(self@, 3),
    {
        draw(self.stickers().as_slice(), 3)
    }
}

impl Cube2x2x2Faces {
    /// The colors by face, in the order of `CubeFace`, by row and by column.
    pub fn colors(&self) -> (r: Vec<Vec<Vec<Color>>>)
        ensures
            colors_by_face(self@, 2, r@),
    {
        collect(self.stickers().as_slice(), 2)
    }

    /// The unfolded picture of the cube as text.
    pub fn to_string(&self) -> (r: String)
        ensures
            r@ == net_text(self@, 2),
    {
        draw(self.stickers().as_slice(), 2)
    }
}

impl Cube3x3x3 {
    /// The colors by face, in the order of `CubeFace`, by row and by column.
    pub fn colors(&self) -> (r: Vec<Vec<Vec<Color>>>)
        requires
            self@.wf(),
        ensures
            colors_by_face(self@.faces(), 3, r@),
    {
        self.as_faces().colors()
    }

    /// The unfolded picture of the cube as text.
    pub fn to_string(&self) -> (r: String)
        requires
            self@.wf(),
        ensures
            r@ == net_text(self@.faces(), 3),
    {
        self.as_faces().to_string()
    }
}

impl Cube2x2x2 {
    /// The colors by face, in the order of `CubeFace`, by row and by column.
    pub fn colors(&self) -> (r: Vec<Vec<Vec<Color>>>)
        requires
            crate::corner::corners_wf(self@),
        ensures
            colors_by_face(crate::facelet::small_faces_of(self@), 2, r@),
    {
        self.as_faces().colors()
    }

    /// The unfolded picture of the cube as text.
    pub fn to_string(&self) -> (r: String)
        requires
            crate::corner::corners_wf(self@),
        ensures
            r@ == net_text(crate::facelet::small_faces_of(self@), 2),
    {
        self.as_faces().to_string()
    }
}

} // verus!
