//! The canvas that the view draws its layers onto.

use vstd::prelude::*;
use crate::utils::Pos;

verus! {

/// A rectangle of characters that layers are drawn onto, one after another.
pub struct Canvas {
    lines: Vec<Vec<char>>,
    width: usize,
    height: usize,
}

impl Canvas {
    /// Every row is there, and has every column.
    pub closed spec fn wf(&self) -> bool {
        &&& self.lines@.len() == self.height
        &&& forall|y: int| 0 <= y < self.height ==> (#[trigger] self.lines@[y])@.len() == self.width
    }

    /// The number of columns.
    pub closed spec fn columns(&self) -> int {
        self.width as int
    }

    /// The number of rows.
    pub closed spec fn rows(&self) -> int {
        self.height as int
    }

    /// The character in column `x` of row `y`.
    pub closed spec fn at(&self, x: int, y: int) -> char {
        self.lines@[y]@[x]
    }

    /// The coordinate that a layer is asked about for column `x` of row `y`.
    pub open spec fn spot(x: int, y: int) -> Pos {
        Pos { x: x as i32, y: y as i32 }
    }

    /// A canvas of the given size, filled with spaces.
    pub fn new(width: usize, height: usize) -> (canvas: Canvas)
        ensures
            canvas.wf(),
            canvas.columns() == width,
            canvas.rows() == height,
            forall|x: int, y: int|
                0 <= x < width && 0 <= y < height ==> #[trigger] canvas.at(x, y) == ' ',
    {
        let mut lines: Vec<Vec<char>> = Vec::new();
        let mut y: usize = 0;
        while y < height
            invariant
                y <= height,
                lines@.len() == y,
                forall|j: int| 0 <= j < y ==> (#[trigger] lines@[j])@.len() == width,
                forall|i: int, j: int| 0 <= i < width && 0 <= j < y ==> #[trigger] lines@[j]@[i] == ' ',
            decreases height - y,
        {
            let mut line: Vec<char> = Vec::new();
            let mut x: usize = 0;
            while x < width
                invariant
                    x <= width,
                    line@.len() == x,
                    forall|i: int| 0 <= i < x ==> #[trigger] line@[i] == ' ',
                decreases width - x,
            {
                line.push(' ');
                x = x + 1;
            }
            lines.push(line);
            y = y + 1;
        }
        Canvas { lines, width, height }
    }

    /// The number of columns.
    pub fn width(&self) -> (w: usize)
        ensures
            w == self.columns(),
    {
        self.width
    }

    /// The number of rows.
    pub fn height(&self) -> (h: usize)
        ensures
            h == self.rows(),
    {
        self.height
    }

    /// The characters of row `y`, from left to right.
    pub fn line(&self, y: usize) -> (line: &Vec<char>)
        requires
            self.wf(),
            y < self.rows(),
        ensures
            line@.len() == self.columns(),
            forall|x: int| 0 <= x < self.columns() ==> #[trigger] line@[x] == self.at(x, y as int),
    {
        &self.lines[y]
    }

    /// Draws a layer: asks `f` about every place of the canvas, and puts the
    /// character that it names there. Where `f` names none, what was drawn
    /// before shows through.
    pub fn layer<F: Fn(Pos) -> Option<char>>(&mut self, f: F)
        requires
            old(self).wf(),
            forall|x: int, y: int|
                0 <= x < old(self).columns() && 0 <= y < old(self).rows() ==> call_requires(
                    f,
                    (#[trigger] Self::spot(x, y),),
                ),
        ensures
            final(self).wf(),
            final(self).columns() == old(self).columns(),
            final(self).rows() == old(self).rows(),
            forall|x: int, y: int|
                0 <= x < old(self).columns() && 0 <= y < old(self).rows() ==> drawn(
                    f,
                    Self::spot(x, y),
                    old(self).at(x, y),
                    #[trigger] final(self).at(x, y),
                ),
    {
        let mut y: usize = 0;
        while y < self.height
            invariant
                self.wf(),
                self.width == old(self).width,
                self.height == old(self).height,
                y <= self.height,
                forall|i: int, j: int|
                    0 <= i < self.width && 0 <= j < self.height ==> call_requires(
                        f,
                        (#[trigger] Self::spot(i, j),),
                    ),
                forall|i: int, j: int|
                    0 <= i < self.width && 0 <= j < y ==> drawn(
                        f,
                        Self::spot(i, j),
                        old(self).at(i, j),
                        #[trigger] self.at(i, j),
                    ),
                forall|i: int, j: int|
                    0 <= i < self.width && y <= j < self.height ==> #[trigger] self.at(i, j) == old(
                        self,
                    ).at(i, j),
            decreases self.height - y,
        {
            let mut x: usize = 0;
            while x < self.width
                invariant
                    self.wf(),
                    self.width == old(self).width,
                    self.height == old(self).height,
                    y < self.height,
                    x <= self.width,
                    forall|i: int, j: int|
                        0 <= i < self.width && 0 <= j < self.height ==> call_requires(
                            f,
                            (#[trigger] Self::spot(i, j),),
                        ),
                    forall|i: int, j: int|
                        0 <= i < self.width && 0 <= j < y ==> drawn(
                            f,
                            Self::spot(i, j),
                            old(self).at(i, j),
                            #[trigger] self.at(i, j),
                        ),
                    forall|i: int|
                        0 <= i < x ==> drawn(
                            f,
                            Self::spot(i, y as int),
                            old(self).at(i, y as int),
                            #[trigger] self.at(i, y as int),
                        ),
                    forall|i: int|
                        x <= i < self.width ==> #[trigger] self.at(i, y as int) == old(self).at(
                            i,
                            y as int,
                        ),
                    forall|i: int, j: int|
                        0 <= i < self.width && y < j < self.height ==> #[trigger] self.at(i, j) == old(
                            self,
                        ).at(i, j),
                decreases self.width - x,
            {
                assert(call_requires(f, (Self::spot(x as int, y as int),)));
                let ghost before = *self;
                let found = f(Pos { x: #[verifier::truncate] (x as i32), y: #[verifier::truncate] (y as i32) });
                if let Some(ch) = found {
                    self.lines[y][x] = ch;
                }
                proof {
                    assert(call_ensures(f, (Self::spot(x as int, y as int),), found));
                    assert(drawn(
                        f,
                        Self::spot(x as int, y as int),
                        old(self).at(x as int, y as int),
                        self.at(x as int, y as int),
                    ));
                    assert forall|i: int, j: int|
                        0 <= i < self.width && 0 <= j < self.height && !(i == x && j == y) implies #[trigger] self.at(
                        i,
                        j,
                    ) == before.at(i, j) by {}
                }
                x = x + 1;
            }
            y = y + 1;
        }
    }
}

/// Whether `after` is what a place shows once the layer `f` was drawn over
/// `before`: the character that `f` named for the place, or `before` where it
/// named none.
pub open spec fn drawn<F: Fn(Pos) -> Option<char>>(f: F, spot: Pos, before: char, after: char) -> bool {
    exists|found: Option<char>| #[trigger]
        call_ensures(f, (spot,), found) && after == match found {
            Some(ch) => ch,
            None => before,
        }
}

} // verus!
