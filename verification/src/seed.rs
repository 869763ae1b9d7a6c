//! The text form of a seed.

use vstd::prelude::*;
use crate::utils::Pos;

verus! {

/// The row in which character number `i` of a seed text stands: the number
/// of line ends before it.
pub open spec fn row_of(text: Seq<char>, i: int) -> int
    decreases i,
{
    if i <= 0 {
        0
    } else if text[i - 1] == '\n' {
        row_of(text, i - 1) + 1
    } else {
        row_of(text, i - 1)
    }
}

/// The column in which character number `i` of a seed text stands: the
/// number of characters between it and the line end before it.
pub open spec fn column_of(text: Seq<char>, i: int) -> int
    decreases i,
{
    if i <= 0 || text[i - 1] == '\n' {
        0
    } else {
        column_of(text, i - 1) + 1
    }
}

/// The cells that the first `n` characters of a seed text mark as alive, in
/// the order of the text: one for each `#`, at its column and row.
pub open spec fn seed_cells(text: Seq<char>, n: int) -> Seq<Pos>
    decreases n,
{
    if n <= 0 {
        Seq::empty()
    } else if text[n - 1] == '#' {
        seed_cells(text, n - 1).push(
            Pos { x: column_of(text, n - 1) as i32, y: row_of(text, n - 1) as i32 },
        )
    } else {
        seed_cells(text, n - 1)
    }
}

/// Rows and columns count characters of the text, so neither passes its
/// length.
pub proof fn lemma_row_column_bound(text: Seq<char>, i: int)
    requires
        0 <= i,
    ensures
        0 <= row_of(text, i) <= i,
        0 <= column_of(text, i) <= i,
    decreases i,
{
    if i > 0 {
        lemma_row_column_bound(text, i - 1);
    }
}

/// Reads a seed: a grid of characters, one row per line, in which `#` marks
/// an alive cell and every other character a dead one. Rows and columns are
/// counted from 0 at the top left.
pub fn deserialize(text: &str) -> (cells: Vec<Pos>)
    requires
        text@.len() <= i32::MAX,
    ensures
        cells@ == seed_cells(text@, text@.len() as int),
{
    let mut result: Vec<Pos> = Vec::new();
    let mut x: i32 = 0;
    let mut y: i32 = 0;
    for c in it: text.chars()
        invariant
            it.seq() == text@,
            text@.len() <= i32::MAX,
            x == column_of(text@, it.index()),
            y == row_of(text@, it.index()),
            result@ == seed_cells(text@, it.index()),
    {
        proof {
            lemma_row_column_bound(text@, it.index());
        }
        if c == '#' {
            result.push(Pos { x, y });
            x = x + 1;
        } else if c == '\n' {
            x = 0;
            y = y + 1;
        } else {
            x = x + 1;
        }
    }
    result
}

} // verus!
