//! Lines and columns as a function of the bytes that precede an offset.

use crate::classify::NEWLINE;
use crate::token::Position;
use vstd::prelude::*;

verus! {

/// The line of offset `i`: one more than the number of line feeds before it.
pub open spec fn line_at(src: Seq<u8>, i: int) -> int
    decreases i,
{
    if i <= 0 {
        1
    } else if src[i - 1] == NEWLINE {
        line_at(src, i - 1) + 1
    } else {
        line_at(src, i - 1)
    }
}

/// The column of offset `i`: one more than the number of bytes between the
/// last line feed before `i` (or the start of the source) and `i`.
pub open spec fn col_at(src: Seq<u8>, i: int) -> int
    decreases i,
{
    if i <= 0 || src[i - 1] == NEWLINE {
        1
    } else {
        col_at(src, i - 1) + 1
    }
}

/// The position of offset `i` in `src`.
pub open spec fn position_at(src: Seq<u8>, i: int) -> Position {
    Position { line: line_at(src, i) as usize, col: col_at(src, i) as usize }
}

/// Whether position `a` comes before position `b` in reading order.
pub open spec fn precedes(a: Position, b: Position) -> bool {
    a.line < b.line || (a.line == b.line && a.col < b.col)
}

/// Lines and columns start at 1 and grow by at most one per byte.
pub proof fn lemma_position_bounds(src: Seq<u8>, i: int)
    requires
        0 <= i,
    ensures
        1 <= line_at(src, i) <= i + 1,
        1 <= col_at(src, i) <= i + 1,
    decreases i,
{
    if i > 0 {
        lemma_position_bounds(src, i - 1);
    }
}

/// Over bytes that hold no line feed the line stays and the column grows
/// by one per byte.
pub proof fn lemma_position_within_line(src: Seq<u8>, i: int, j: int)
    requires
        0 <= i <= j,
        forall|k: int| i <= k < j ==> #[trigger] src[k] != NEWLINE,
    ensures
        line_at(src, j) == line_at(src, i),
        col_at(src, j) == col_at(src, i) + (j - i),
    decreases j - i,
{
    if i < j {
        lemma_position_within_line(src, i, j - 1);
    }
}

/// A later offset has a later position: the line never shrinks, and on the
/// same line the column grows.
pub proof fn lemma_position_increases(src: Seq<u8>, i: int, j: int)
    requires
        0 <= i < j,
    ensures
        line_at(src, i) < line_at(src, j) || (line_at(src, i) == line_at(src, j) && col_at(
            src,
            i,
        ) < col_at(src, j)),
    decreases j - i,
{
    lemma_position_bounds(src, j - 1);
    if i < j - 1 {
        lemma_position_increases(src, i, j - 1);
    }
}

} // verus!
