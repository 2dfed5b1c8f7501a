//! Scan orders of transform coefficients.
use vstd::prelude::*;

verus! {

/// Zigzag scan of a 4x4 block (row-major positions).
pub const ZIGZAG_4X4: [usize; 16] = [0, 1, 4, 8, 5, 2, 3, 6, 9, 12, 13, 10, 7, 11, 14, 15];

/// Zigzag scan of an 8x8 block (row-major positions).
pub const ZIGZAG: [usize; 64] = [
    0, 1, 8, 16, 9, 2, 3, 10, 17, 24, 32, 25, 18, 11, 4, 5, 12, 19, 26, 33, 40, 48, 41, 34, 27,
    20, 13, 6, 7, 14, 21, 28, 35, 42, 49, 56, 57, 50, 43, 36, 29, 22, 15, 23, 30, 37, 44, 51, 58,
    59, 52, 45, 38, 31, 39, 46, 53, 60, 61, 54, 47, 55, 62, 63,
];

/// The place of each row-major position in the zigzag scan.
pub const ZIGZAG_PLACE: [usize; 64] = [
    0, 1, 5, 6, 14, 15, 27, 28, 2, 4, 7, 13, 16, 26, 29, 42, 3, 8, 12, 17, 25, 30, 41, 43, 9, 11,
    18, 24, 31, 40, 44, 53, 10, 19, 23, 32, 39, 45, 52, 54, 20, 22, 33, 38, 46, 51, 55, 60, 21,
    34, 37, 47, 50, 56, 59, 61, 35, 36, 48, 49, 57, 58, 62, 63,
];

/// The scan starts at position 0, and every position has a place in it.
pub proof fn zigzag_visits_every_position(p: int)
    requires
        0 <= p < 64,
    ensures
        0 <= ZIGZAG_PLACE@[p] < 64,
        ZIGZAG@[ZIGZAG_PLACE@[p] as int] == p,
        ZIGZAG@[0] == 0,
        p > 0 ==> ZIGZAG_PLACE@[p] > 0,
{
}

/// Every entry of the scan is a position, and only the first is position 0.
pub proof fn zigzag_entries(i: int)
    requires
        0 <= i < 64,
    ensures
        0 <= ZIGZAG@[i] < 64,
        i > 0 ==> ZIGZAG@[i] > 0,
{
}

/// The scan goes from one diagonal to the next: each step moves to a neighbour on the same diagonal
/// or on the following one, down the odd diagonals and up the even ones.
pub proof fn zigzag_runs_along_diagonals(i: int)
    requires
        0 <= i < 63,
    ensures
        ({
            let (r, c) = (ZIGZAG@[i] as int / 8, ZIGZAG@[i] as int % 8);
            let (s, d) = (ZIGZAG@[i + 1] as int / 8, ZIGZAG@[i + 1] as int % 8);
            ||| (r + c) % 2 == 1 && s == r + 1 && d == c - 1
            ||| (r + c) % 2 == 0 && s == r - 1 && d == c + 1
            ||| (r + c) % 2 == 1 && c == 0 && r < 7 && s == r + 1 && d == c
            ||| (r + c) % 2 == 1 && r == 7 && s == r && d == c + 1
            ||| (r + c) % 2 == 0 && r == 0 && c < 7 && s == r && d == c + 1
            ||| (r + c) % 2 == 0 && c == 7 && s == r + 1 && d == c
        }),
{
}

/// The scan of small blocks does the same.
pub proof fn small_zigzag_runs_along_diagonals(i: int)
    requires
        0 <= i < 15,
    ensures
        ZIGZAG_4X4@[0] == 0,
        ({
            let (r, c) = (ZIGZAG_4X4@[i] as int / 4, ZIGZAG_4X4@[i] as int % 4);
            let (s, d) = (ZIGZAG_4X4@[i + 1] as int / 4, ZIGZAG_4X4@[i + 1] as int % 4);
            ||| (r + c) % 2 == 1 && s == r + 1 && d == c - 1
            ||| (r + c) % 2 == 0 && s == r - 1 && d == c + 1
            ||| (r + c) % 2 == 1 && c == 0 && r < 3 && s == r + 1 && d == c
            ||| (r + c) % 2 == 1 && r == 3 && s == r && d == c + 1
            ||| (r + c) % 2 == 0 && r == 0 && c < 3 && s == r && d == c + 1
            ||| (r + c) % 2 == 0 && c == 3 && s == r + 1 && d == c
        }),
{
}

} // verus!
