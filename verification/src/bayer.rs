//! Bayer threshold matrices for the ordered dither.
//!
//! The tables hold each cell's rank, row major. The ordered dither reads a
//! rank `r` of an `n`x`n` table as the threshold `r / (n * n)`.

use vstd::prelude::*;

verus! {

/// Supported Bayer matrix sizes.
#[derive(Debug, Clone, Copy, PartialEq, Eq, Structural)]
pub enum BayerSize {
    Two,
    Four,
    Eight,
}

/// The side length a size stands for.
pub open spec fn spec_side(size: BayerSize) -> nat {
    match size {
        BayerSize::Two => 2,
        BayerSize::Four => 4,
        BayerSize::Eight => 8,
    }
}

/// The size a side length names, falling back to four for anything else.
pub open spec fn spec_from_side(side: u32) -> BayerSize {
    if side == 2 {
        BayerSize::Two
    } else if side == 8 {
        BayerSize::Eight
    } else {
        BayerSize::Four
    }
}

impl BayerSize {
    /// The side length, in cells.
    pub fn side(self) -> (n: usize)
        ensures
            n == spec_side(self),
    {
        match self {
            BayerSize::Two => 2,
            BayerSize::Four => 4,
            BayerSize::Eight => 8,
        }
    }

    /// Reads a side length back into a size. Anything but 2, 4 or 8 is four.
    pub fn from_side_or_default(side: u32) -> (size: BayerSize)
        ensures
            size == spec_from_side(side),
    {
        match side {
            2 => BayerSize::Two,
            8 => BayerSize::Eight,
            _ => BayerSize::Four,
        }
    }
}

impl Default for BayerSize {
    fn default() -> (size: BayerSize)
        ensures
            size == BayerSize::Four,
    {
        BayerSize::Four
    }
}

/// Reads a Bayer side length back into a size, the way a settings form stores it. Anything but 2, 4 or 8 is four.
pub fn bayer_from_side(side: u32) -> (size: BayerSize)
    ensures
        size == spec_from_side(side),
{
    BayerSize::from_side_or_default(side)
}

/// Every side a size can have reads back into that size.
pub proof fn lemma_side_round_trips(size: BayerSize)
    ensures
        spec_from_side(spec_side(size) as u32) == size,
{
}

/// The rank table for a size, row major.
pub open spec fn spec_table(size: BayerSize) -> Seq<u8> {
    match size {
        BayerSize::Two => seq![0u8, 2, 3, 1],
        BayerSize::Four => seq![0u8, 8, 2, 10, 12, 4, 14, 6, 3, 11, 1, 9, 15, 7, 13, 5],
        BayerSize::Eight => seq![
            0u8, 32, 8, 40, 2, 34, 10, 42,
            48, 16, 56, 24, 50, 18, 58, 26,
            12, 44, 4, 36, 14, 46, 6, 38,
            60, 28, 52, 20, 62, 30, 54, 22,
            3, 35, 11, 43, 1, 33, 9, 41,
            51, 19, 59, 27, 49, 17, 57, 25,
            15, 47, 7, 39, 13, 45, 5, 37,
            63, 31, 55, 23, 61, 29, 53, 21,
        ],
    }
}

/// Where each rank sits in the table for a size: the inverse of [`spec_table`].
pub open spec fn spec_positions(size: BayerSize) -> Seq<int> {
    match size {
        BayerSize::Two => seq![0int, 3, 1, 2],
        BayerSize::Four => seq![0int, 10, 2, 8, 5, 15, 7, 13, 1, 11, 3, 9, 4, 14, 6, 12],
        BayerSize::Eight => seq![
            0int, 36, 4, 32, 18, 54, 22, 50,
            2, 38, 6, 34, 16, 52, 20, 48,
            9, 45, 13, 41, 27, 63, 31, 59,
            11, 47, 15, 43, 25, 61, 29, 57,
            1, 37, 5, 33, 19, 55, 23, 51,
            3, 39, 7, 35, 17, 53, 21, 49,
            8, 44, 12, 40, 26, 62, 30, 58,
            10, 46, 14, 42, 24, 60, 28, 56,
        ],
    }
}

/// Every rank table is a permutation: its `side * side` ranks are all below `side * side` and no two are equal, so
/// each rank from zero up appears exactly once and the thresholds they become cover `[0, 1)` evenly.
#[verifier::rlimit(100)]
pub proof fn lemma_ranks_are_a_permutation(size: BayerSize)
    ensures
        spec_table(size).len() == spec_side(size) * spec_side(size),
        forall|i: int|
            0 <= i < spec_table(size).len() ==> #[trigger] spec_table(size)[i] < spec_side(size) * spec_side(size),
        forall|i: int, j: int|
            0 <= i < j < spec_table(size).len() ==> #[trigger] spec_table(size)[i] != #[trigger] spec_table(size)[j],
{
    let table = spec_table(size);
    let positions = spec_positions(size);
    assert forall|i: int| 0 <= i < table.len() implies table[i] < spec_side(size) * spec_side(size)
        && positions[table[i] as int] == i by {
        if i < 8 {
        } else if i < 16 {
        } else if i < 24 {
        } else if i < 32 {
        } else if i < 40 {
        } else if i < 48 {
        } else if i < 56 {
        } else {
        }
    }
}

/// The rank table for a size: `side * side` ranks, row major.
pub fn ranks(size: BayerSize) -> (table: Vec<u8>)
    ensures
        table@ == spec_table(size),
        table@.len() == spec_side(size) * spec_side(size),
{
    let table: Vec<u8> = match size {
        BayerSize::Two => vec![0u8, 2, 3, 1],
        BayerSize::Four => vec![0u8, 8, 2, 10, 12, 4, 14, 6, 3, 11, 1, 9, 15, 7, 13, 5],
        BayerSize::Eight => vec![
            0u8, 32, 8, 40, 2, 34, 10, 42,
            48, 16, 56, 24, 50, 18, 58, 26,
            12, 44, 4, 36, 14, 46, 6, 38,
            60, 28, 52, 20, 62, 30, 54, 22,
            3, 35, 11, 43, 1, 33, 9, 41,
            51, 19, 59, 27, 49, 17, 57, 25,
            15, 47, 7, 39, 13, 45, 5, 37,
            63, 31, 55, 23, 61, 29, 53, 21,
        ],
    };
    proof {
        assert(table@ =~= spec_table(size));
    }
    table
}

} // verus!
