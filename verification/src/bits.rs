//! Squares of the 8x8 board as bits of a `u64`, and the bit-level facts the
//! rules rest on.
//!
//! The square in row `r` and column `c` (both `0..8`, row 0 at the top,
//! column 0 = A at the left) is bit `63 - (8 * r + c)`: the most significant
//! bit is the top-left square, the least significant bit the bottom-right.
use vstd::prelude::*;

verus! {

/// A bit mask where column A is 0 and other columns are 1.
pub const NOT_A_COLUMN: u64 = 0x7f7f7f7f7f7f7f7f;

/// A bit mask where column H is 0 and other columns are 1.
pub const NOT_H_COLUMN: u64 = 0xfefefefefefefefe;

/// Whether bit `i` of `x` is set.
pub open spec fn bit(x: u64, i: u64) -> bool {
    (x >> i) & 1u64 == 1u64
}

/// Whether `(r, c)` is a square of the board.
pub open spec fn in_board(r: int, c: int) -> bool {
    0 <= r < 8 && 0 <= c < 8
}

/// The index of square `(r, c)` counted from the top-left square.
pub open spec fn square_index(r: int, c: int) -> int {
    8 * r + c
}

/// The bit that stands for square `(r, c)`.
pub open spec fn square_bit(r: int, c: int) -> u64 {
    (63 - (8 * r + c)) as u64
}

/// Whether the plane `x` holds a disk on square `(r, c)` (false off the board).
pub open spec fn at(x: u64, r: int, c: int) -> bool {
    in_board(r, c) && bit(x, square_bit(r, c))
}

/// The row reached from row `r` after `j` steps in direction `d`.
///
/// The eight directions, numbered as the shifts of the bitboard move disks:
/// 0 right, 1 left, 2 down, 3 up, 4 right down, 5 left down, 6 right up,
/// 7 left up. A negative `j` walks backwards.
pub open spec fn step_r(d: int, r: int, j: int) -> int {
    if d == 2 || d == 4 || d == 5 {
        r + j
    } else if d == 3 || d == 6 || d == 7 {
        r - j
    } else {
        r
    }
}

/// The column reached from column `c` after `j` steps in direction `d`.
pub open spec fn step_c(d: int, c: int, j: int) -> int {
    if d == 0 || d == 4 || d == 6 {
        c + j
    } else if d == 1 || d == 5 || d == 7 {
        c - j
    } else {
        c
    }
}

/// The direction opposite to `d`.
pub open spec fn opposite_dir(d: int) -> int {
    if d == 0 {
        1
    } else if d == 1 {
        0
    } else if d == 2 {
        3
    } else if d == 3 {
        2
    } else if d == 4 {
        7
    } else if d == 7 {
        4
    } else if d == 5 {
        6
    } else {
        5
    }
}

pub proof fn lemma_opposite_dir(d: int, r: int, c: int, j: int)
    requires
        0 <= d < 8,
    ensures
        0 <= opposite_dir(d) < 8,
        opposite_dir(opposite_dir(d)) == d,
        step_r(opposite_dir(d), r, j) == step_r(d, r, -j),
        step_c(opposite_dir(d), c, j) == step_c(d, c, -j),
{
}

/// Eight or more steps in one direction always leave the board.
pub proof fn lemma_long_walk_leaves(d: int, r: int, c: int, j: int)
    requires
        0 <= d < 8,
        in_board(r, c),
        j >= 8 || j <= -8,
    ensures
        !in_board(step_r(d, r, j), step_c(d, c, j)),
{
}

proof fn lemma_bit_and(a: u64, b: u64, i: u64)
    by (bit_vector)
    ensures
        ((a & b) >> i) & 1u64 == 1u64 <==> ((a >> i) & 1u64 == 1u64 && (b >> i) & 1u64 == 1u64),
{
}

proof fn lemma_bit_or(a: u64, b: u64, i: u64)
    by (bit_vector)
    ensures
        ((a | b) >> i) & 1u64 == 1u64 <==> ((a >> i) & 1u64 == 1u64 || (b >> i) & 1u64 == 1u64),
{
}

proof fn lemma_bit_xor(a: u64, b: u64, i: u64)
    by (bit_vector)
    ensures
        ((a ^ b) >> i) & 1u64 == 1u64 <==> ((a >> i) & 1u64 == 1u64) != ((b >> i) & 1u64
            == 1u64),
{
}

proof fn lemma_bit_not(a: u64, i: u64)
    by (bit_vector)
    requires
        i < 64,
    ensures
        ((!a) >> i) & 1u64 == 1u64 <==> !((a >> i) & 1u64 == 1u64),
{
}

/// Square-wise meaning of `&`, `|`, `^` and `!` on planes.
pub proof fn lemma_at_ops(a: u64, b: u64, r: int, c: int)
    ensures
        at(a & b, r, c) == (at(a, r, c) && at(b, r, c)),
        at(a | b, r, c) == (at(a, r, c) || at(b, r, c)),
        at(a ^ b, r, c) == (in_board(r, c) && at(a, r, c) != at(b, r, c)),
        at(!a, r, c) == (in_board(r, c) && !at(a, r, c)),
{
    let i = square_bit(r, c);
    lemma_bit_and(a, b, i);
    lemma_bit_or(a, b, i);
    lemma_bit_xor(a, b, i);
    if in_board(r, c) {
        lemma_bit_not(a, i);
    }
}

/// Square-wise meaning of `&`, `|`, `^` and `!` on planes, on every square.
pub proof fn lemma_at_ops_all(a: u64, b: u64)
    ensures
        forall|r: int, c: int| #[trigger] at(a & b, r, c) == (at(a, r, c) && at(b, r, c)),
        forall|r: int, c: int| #[trigger] at(a | b, r, c) == (at(a, r, c) || at(b, r, c)),
        forall|r: int, c: int|
            #[trigger] at(a ^ b, r, c) == (in_board(r, c) && at(a, r, c) != at(b, r, c)),
        forall|r: int, c: int| #[trigger] at(!a, r, c) == (in_board(r, c) && !at(a, r, c)),
{
    assert forall|r: int, c: int| #[trigger] at(a & b, r, c) == (at(a, r, c) && at(b, r, c)) by {
        lemma_at_ops(a, b, r, c);
    }
    assert forall|r: int, c: int| #[trigger] at(a | b, r, c) == (at(a, r, c) || at(b, r, c)) by {
        lemma_at_ops(a, b, r, c);
    }
    assert forall|r: int, c: int|
        #[trigger] at(a ^ b, r, c) == (in_board(r, c) && at(a, r, c) != at(b, r, c)) by {
        lemma_at_ops(a, b, r, c);
    }
    assert forall|r: int, c: int| #[trigger] at(!a, r, c) == (in_board(r, c) && !at(a, r, c)) by {
        lemma_at_ops(a, b, r, c);
    }
}

proof fn lemma_low_bits_step(x: u64, n: u64)
    by (bit_vector)
    requires
        1 <= n < 64,
        x & ((((1u64 << (n - 1u64) as u64) - 1u64) as u64) | (1u64 << (n - 1u64) as u64)) == 0u64,
        (x >> n) & 1u64 != 1u64,
    ensures
        x & ((((1u64 << n) - 1u64) as u64) | (1u64 << n)) == 0u64,
{
}

proof fn lemma_low_bits_base(x: u64)
    by (bit_vector)
    requires
        (x >> 0u64) & 1u64 != 1u64,
    ensures
        x & ((((1u64 << 0u64) - 1u64) as u64) | (1u64 << 0u64)) == 0u64,
{
}

proof fn lemma_low_bits_full(x: u64)
    by (bit_vector)
    requires
        x & ((((1u64 << 63u64) - 1u64) as u64) | (1u64 << 63u64)) == 0u64,
    ensures
        x == 0u64,
{
}

proof fn lemma_low_bits_zero(x: u64, n: u64)
    requires
        n < 64,
        forall|i: u64| i <= n ==> !#[trigger] bit(x, i),
    ensures
        x & ((((1u64 << n) - 1u64) as u64) | (1u64 << n)) == 0u64,
    decreases n,
{
    if n == 0 {
        assert(!bit(x, 0));
        lemma_low_bits_base(x);
    } else {
        lemma_low_bits_zero(x, (n - 1) as u64);
        assert(!bit(x, n));
        lemma_low_bits_step(x, n);
    }
}

proof fn lemma_bit_set_nonzero(x: u64, i: u64)
    by (bit_vector)
    requires
        (x >> i) & 1u64 == 1u64,
    ensures
        x != 0u64,
{
}

proof fn lemma_zero_no_bit(i: u64)
    by (bit_vector)
    ensures
        (0u64 >> i) & 1u64 != 1u64,
{
}

/// A plane is empty exactly when it holds no disk on any square.
pub proof fn lemma_zero_iff_no_square(x: u64)
    ensures
        x == 0 <==> forall|r: int, c: int| in_board(r, c) ==> !#[trigger] at(x, r, c),
{
    if forall|r: int, c: int| in_board(r, c) ==> !#[trigger] at(x, r, c) {
        assert forall|i: u64| i <= 63 implies !#[trigger] bit(x, i) by {
            let r = (63 - i) / 8;
            let c = (63 - i) % 8;
            assert(in_board(r, c));
            assert(square_bit(r, c) == i);
            assert(!at(x, r, c));
        }
        lemma_low_bits_zero(x, 63);
        lemma_low_bits_full(x);
    }
    if x == 0 {
        assert forall|r: int, c: int| in_board(r, c) implies !#[trigger] at(x, r, c) by {
            lemma_zero_no_bit(square_bit(r, c));
        }
    }
}

/// A plane holding a disk on some square is not empty.
pub proof fn lemma_at_nonzero(x: u64, r: int, c: int)
    requires
        at(x, r, c),
    ensures
        x != 0,
{
    lemma_bit_set_nonzero(x, square_bit(r, c));
}

proof fn lemma_single_bit(i: u64, j: u64)
    by (bit_vector)
    requires
        i < 64,
        j < 64,
    ensures
        ((1u64 << i) >> j) & 1u64 == 1u64 <==> i == j,
{
}

/// The plane with one disk, on square `(r, c)`.
pub open spec fn single(r: int, c: int) -> u64 {
    (1u64 << square_bit(r, c))
}

/// `single(r, c)` holds a disk on `(r, c)` and nowhere else.
pub proof fn lemma_single(r: int, c: int)
    requires
        in_board(r, c),
    ensures
        forall|r2: int, c2: int| #[trigger] at(single(r, c), r2, c2) <==> (r2 == r && c2 == c),
{
    assert forall|r2: int, c2: int| #[trigger] at(single(r, c), r2, c2) <==> (r2 == r && c2
        == c) by {
        if in_board(r2, c2) {
            lemma_single_bit(square_bit(r, c), square_bit(r2, c2));
        }
    }
}

proof fn lemma_shift0(x: u64, r: u64, c: u64)
    by (bit_vector)
    requires
        r < 8,
        c < 8,
    ensures
        (((x >> 1u64) & 0x7f7f7f7f7f7f7f7fu64) >> ((63u64 - (8u64 * r + c)) as u64)) & 1u64
            == if c == 0 {
            0u64
        } else {
            (x >> ((63u64 - (8u64 * r + c - 1u64)) as u64)) & 1u64
        },
{
}

proof fn lemma_shift1(x: u64, r: u64, c: u64)
    by (bit_vector)
    requires
        r < 8,
        c < 8,
    ensures
        (((x << 1u64) & 0xfefefefefefefefeu64) >> ((63u64 - (8u64 * r + c)) as u64)) & 1u64
            == if c == 7 {
            0u64
        } else {
            (x >> ((63u64 - (8u64 * r + c + 1u64)) as u64)) & 1u64
        },
{
}

proof fn lemma_shift2(x: u64, r: u64, c: u64)
    by (bit_vector)
    requires
        r < 8,
        c < 8,
    ensures
        ((x >> 8u64) >> ((63u64 - (8u64 * r + c)) as u64)) & 1u64 == if r == 0 {
            0u64
        } else {
            (x >> ((63u64 - (8u64 * (r - 1u64) + c)) as u64)) & 1u64
        },
{
}

proof fn lemma_shift3(x: u64, r: u64, c: u64)
    by (bit_vector)
    requires
        r < 8,
        c < 8,
    ensures
        ((x << 8u64) >> ((63u64 - (8u64 * r + c)) as u64)) & 1u64 == if r == 7 {
            0u64
        } else {
            (x >> ((63u64 - (8u64 * (r + 1u64) + c)) as u64)) & 1u64
        },
{
}

proof fn lemma_shift4(x: u64, r: u64, c: u64)
    by (bit_vector)
    requires
        r < 8,
        c < 8,
    ensures
        (((x >> 9u64) & 0x7f7f7f7f7f7f7f7fu64) >> ((63u64 - (8u64 * r + c)) as u64)) & 1u64
            == if r == 0 || c == 0 {
            0u64
        } else {
            (x >> ((63u64 - (8u64 * (r - 1u64) + c - 1u64)) as u64)) & 1u64
        },
{
}

proof fn lemma_shift5(x: u64, r: u64, c: u64)
    by (bit_vector)
    requires
        r < 8,
        c < 8,
    ensures
        (((x >> 7u64) & 0xfefefefefefefefeu64) >> ((63u64 - (8u64 * r + c)) as u64)) & 1u64
            == if r == 0 || c == 7 {
            0u64
        } else {
            (x >> ((63u64 - (8u64 * (r - 1u64) + c + 1u64)) as u64)) & 1u64
        },
{
}

proof fn lemma_shift6(x: u64, r: u64, c: u64)
    by (bit_vector)
    requires
        r < 8,
        c < 8,
    ensures
        (((x << 7u64) & 0x7f7f7f7f7f7f7f7fu64) >> ((63u64 - (8u64 * r + c)) as u64)) & 1u64
            == if r == 7 || c == 0 {
            0u64
        } else {
            (x >> ((63u64 - (8u64 * (r + 1u64) + c - 1u64)) as u64)) & 1u64
        },
{
}

proof fn lemma_shift7(x: u64, r: u64, c: u64)
    by (bit_vector)
    requires
        r < 8,
        c < 8,
    ensures
        (((x << 9u64) & 0xfefefefefefefefeu64) >> ((63u64 - (8u64 * r + c)) as u64)) & 1u64
            == if r == 7 || c == 7 {
            0u64
        } else {
            (x >> ((63u64 - (8u64 * (r + 1u64) + c + 1u64)) as u64)) & 1u64
        },
{
}

/// Moves every disk of plane `x` one step in direction `d`; disks that would
/// leave the board (or wrap around to the other edge) disappear.
pub fn shift_dir(x: u64, d: u8) -> (res: u64)
    requires
        d < 8,
    ensures
        forall|r: int, c: int|
            in_board(r, c) ==> (#[trigger] at(res, r, c) <==> at(
                x,
                step_r(d as int, r, -1),
                step_c(d as int, c, -1),
            )),
{
    let res = if d == 0 {
        (x >> 1) & NOT_A_COLUMN
    } else if d == 1 {
        (x << 1) & NOT_H_COLUMN
    } else if d == 2 {
        x >> 8
    } else if d == 3 {
        x << 8
    } else if d == 4 {
        (x >> 9) & NOT_A_COLUMN
    } else if d == 5 {
        (x >> 7) & NOT_H_COLUMN
    } else if d == 6 {
        (x << 7) & NOT_A_COLUMN
    } else {
        (x << 9) & NOT_H_COLUMN
    };
    proof {
        assert forall|r: int, c: int| in_board(r, c) implies (#[trigger] at(res, r, c) <==> at(
            x,
            step_r(d as int, r, -1),
            step_c(d as int, c, -1),
        )) by {
            let ru = r as u64;
            let cu = c as u64;
            if d == 0 {
                lemma_shift0(x, ru, cu);
            } else if d == 1 {
                lemma_shift1(x, ru, cu);
            } else if d == 2 {
                lemma_shift2(x, ru, cu);
            } else if d == 3 {
                lemma_shift3(x, ru, cu);
            } else if d == 4 {
                lemma_shift4(x, ru, cu);
            } else if d == 5 {
                lemma_shift5(x, ru, cu);
            } else if d == 6 {
                lemma_shift6(x, ru, cu);
            } else {
                lemma_shift7(x, ru, cu);
            }
        }
    }
    res
}

proof fn lemma_xor_zero_eq(a: u64, b: u64)
    by (bit_vector)
    requires
        a ^ b == 0u64,
    ensures
        a == b,
{
}

/// Planes holding disks on the same squares are equal.
pub proof fn lemma_planes_eq(a: u64, b: u64)
    requires
        forall|r: int, c: int| in_board(r, c) ==> #[trigger] at(a, r, c) == at(b, r, c),
    ensures
        a == b,
{
    lemma_at_ops_all(a, b);
    lemma_zero_iff_no_square(a ^ b);
    assert forall|r: int, c: int| in_board(r, c) implies !#[trigger] at(a ^ b, r, c) by {
        assert(at(a, r, c) == at(b, r, c));
    }
    lemma_xor_zero_eq(a, b);
}

} // verus!
