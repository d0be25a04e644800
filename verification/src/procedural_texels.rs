use vstd::prelude::*;

verus! {

/// Value of channel `c` (0 = red, 1 = green, 2 = blue, 3 = alpha) of the
/// texel at row `i`, column `j` of the checker board: black on even
/// squares, white on odd ones, always opaque.
pub open spec fn checker_byte(i: int, j: int, c: int) -> u8 {
    if c == 3 {
        255
    } else if (i + j) % 2 == 0 {
        0
    } else {
        255
    }
}

/// Position of channel `c` of the texel at row `i`, column `j` in a
/// row-major RGBA buffer of `size` texels per row.
pub open spec fn texel_offset(size: int, i: int, j: int, c: int) -> int {
    4 * (i * size + j) + c
}

proof fn lemma_offset_bounds(size: int, i: int, j: int, c: int)
    requires
        0 <= i < size,
        0 <= j < size,
        0 <= c < 4,
    ensures
        4 * (i * size + j) <= texel_offset(size, i, j, c) < 4 * (i * size + j) + 4,
        4 * (i * size + j) + 4 <= 4 * size * size,
{
    assert(4 * (i * size + j) + 4 <= 4 * size * size) by (nonlinear_arith)
        requires
            0 <= i < size,
            0 <= j < size,
    ;
}

/// RGBA texels of a `size` x `size` checker board, row by row.
pub fn checker(size: usize) -> (v: Vec<u8>)
    requires
        4 * size * size <= usize::MAX,
    ensures
        v@.len() == 4 * size * size,
        forall|i: int, j: int, c: int|
            0 <= i < size && 0 <= j < size && 0 <= c < 4 ==> v@[texel_offset(size as int, i, j, c)]
                == checker_byte(i, j, c),
{
    let mut v: Vec<u8> = Vec::new();
    let mut i: usize = 0;
    while i < size
        invariant
            0 <= i <= size,
            4 * size * size <= usize::MAX,
            v@.len() == 4 * (i * size),
            forall|a: int, b: int, c: int|
                0 <= a < i && 0 <= b < size && 0 <= c < 4 ==> v@[texel_offset(size as int, a, b, c)]
                    == checker_byte(a, b, c),
        decreases size - i,
    {
        let mut j: usize = 0;
        while j < size
            invariant
                0 <= i < size,
                0 <= j <= size,
                4 * size * size <= usize::MAX,
                v@.len() == 4 * (i * size + j),
                forall|a: int, b: int, c: int|
                    0 <= a < size && 0 <= b < size && 0 <= c < 4 && (a < i || (a == i && b < j))
                        ==> v@[texel_offset(size as int, a, b, c)] == checker_byte(a, b, c),
            decreases size - j,
        {
            proof {
                lemma_offset_bounds(size as int, i as int, j as int, 0);
            }
            assert(i + j <= 4 * size * size) by (nonlinear_arith)
                requires
                    0 <= i < size,
                    0 <= j < size,
            ;
            let ghost before = v@;
            let black = (i + j) % 2 == 0;
            if black {
                v.push(0);
                v.push(0);
                v.push(0);
            } else {
                v.push(255);
                v.push(255);
                v.push(255);
            }
            v.push(255);
            proof {
                assert forall|a: int, b: int, c: int|
                    0 <= a < size && 0 <= b < size && 0 <= c < 4 && (a < i || (a == i && b < j
                        + 1)) implies v@[texel_offset(size as int, a, b, c)] == checker_byte(
                    a,
                    b,
                    c,
                ) by {
                    if a == i && b == j {
                        assert(texel_offset(size as int, a, b, c) == before.len() + c);
                    } else {
                        assert(a * size + b < i * size + j) by (nonlinear_arith)
                            requires
                                0 <= b < size,
                                0 <= j < size,
                                a < i || (a == i && b < j),
                        ;
                        assert(texel_offset(size as int, a, b, c) < before.len());
                    }
                }
            }
            j = j + 1;
        }
        proof {
            assert((i + 1) * size == i * size + size) by (nonlinear_arith);
        }
        i = i + 1;
    }
    assert(4 * (size * size) == 4 * size * size) by (nonlinear_arith);
    v
}

/// Neighbouring squares of the checker board have opposite colours, and
/// every texel is opaque black or opaque white.
pub proof fn law_checker_alternates(i: int, j: int, c: int)
    requires
        0 <= i,
        0 <= j,
        0 <= c < 3,
    ensures
        checker_byte(i, j, c) != checker_byte(i, j + 1, c),
        checker_byte(i, j, c) != checker_byte(i + 1, j, c),
        checker_byte(i, j, c) == 0 || checker_byte(i, j, c) == 255,
        checker_byte(i, j, 3) == 255,
{
}

} // verus!
