//! A 3x5 bitmap font for the decimal digits.

use vstd::prelude::*;

verus! {

/// Row `i` (top to bottom, `0 <= i < 5`) of digit `d`'s 3-pixel-wide glyph,
/// encoded as a 3-bit value: 4 lights the left column, 2 the middle, 1 the
/// right.
pub open spec fn glyph_row(d: int, i: int) -> u32 {
    if d == 0 {
        if i == 0 { 7 } else if i == 1 { 5 } else if i == 2 { 5 } else if i == 3 { 5 } else { 7 }
    } else if d == 1 {
        if i == 0 { 2 } else if i == 1 { 6 } else if i == 2 { 2 } else if i == 3 { 2 } else { 7 }
    } else if d == 2 {
        if i == 0 { 7 } else if i == 1 { 1 } else if i == 2 { 7 } else if i == 3 { 4 } else { 7 }
    } else if d == 3 {
        if i == 0 { 7 } else if i == 1 { 1 } else if i == 2 { 7 } else if i == 3 { 1 } else { 7 }
    } else if d == 4 {
        if i == 0 { 5 } else if i == 1 { 5 } else if i == 2 { 7 } else if i == 3 { 1 } else { 1 }
    } else if d == 5 {
        if i == 0 { 7 } else if i == 1 { 4 } else if i == 2 { 7 } else if i == 3 { 1 } else { 7 }
    } else if d == 6 {
        if i == 0 { 7 } else if i == 1 { 4 } else if i == 2 { 7 } else if i == 3 { 5 } else { 7 }
    } else if d == 7 {
        if i == 0 { 7 } else if i == 1 { 1 } else if i == 2 { 1 } else if i == 3 { 1 } else { 1 }
    } else if d == 8 {
        if i == 0 { 7 } else if i == 1 { 5 } else if i == 2 { 7 } else if i == 3 { 5 } else { 7 }
    } else {
        if i == 0 { 7 } else if i == 1 { 5 } else if i == 2 { 7 } else if i == 3 { 1 } else { 7 }
    }
}

/// Whether the glyph for digit `d` lights the cell in row `i`, column `j`.
pub open spec fn glyph_lit(d: int, i: int, j: int) -> bool {
    &&& 0 <= i < 5
    &&& 0 <= j < 3
    &&& (glyph_row(d, i) as int / (if j == 0 { 4int } else if j == 1 { 2int } else { 1int })) % 2
        == 1
}

/// Executable twin of [`glyph_row`].
pub fn glyph_row_at(d: u32, i: u32) -> (r: u32)
    requires
        d < 10,
        i < 5,
    ensures
        r == glyph_row(d as int, i as int),
        r < 8,
{
    let rows: [u32; 5] = if d == 0 {
        [7, 5, 5, 5, 7]
    } else if d == 1 {
        [2, 6, 2, 2, 7]
    } else if d == 2 {
        [7, 1, 7, 4, 7]
    } else if d == 3 {
        [7, 1, 7, 1, 7]
    } else if d == 4 {
        [5, 5, 7, 1, 1]
    } else if d == 5 {
        [7, 4, 7, 1, 7]
    } else if d == 6 {
        [7, 4, 7, 5, 7]
    } else if d == 7 {
        [7, 1, 1, 1, 1]
    } else if d == 8 {
        [7, 5, 7, 5, 7]
    } else {
        [7, 5, 7, 1, 7]
    };
    rows[i as usize]
}

/// Executable twin of [`glyph_lit`].
pub fn glyph_lit_at(d: u32, i: u32, j: u32) -> (r: bool)
    requires
        d < 10,
        i < 5,
        j < 3,
    ensures
        r == glyph_lit(d as int, i as int, j as int),
{
    let row = glyph_row_at(d, i);
    let divisor: u32 = if j == 0 {
        4
    } else if j == 1 {
        2
    } else {
        1
    };
    (row / divisor) % 2 == 1
}

/// The base-10 digits of `n`, most significant first.
pub open spec fn digits(n: nat) -> Seq<u32>
    decreases n,
{
    if n < 10 {
        seq![n as u32]
    } else {
        digits(n / 10).push((n % 10) as u32)
    }
}

/// Extracts the decimal digits of `n`, most significant first.
pub fn to_digits(n: u32) -> (r: Vec<u32>)
    ensures
        r@ == digits(n as nat),
        forall|k: int| 0 <= k < r@.len() ==> r@[k] < 10,
{
    let mut v: Vec<u32> = Vec::new();
    let mut m: u32 = n;
    v.insert(0, m % 10);
    m = m / 10;
    proof {
        if m > 0 {
            assert(digits(n as nat) =~= digits(m as nat) + v@);
        }
    }
    while m > 0
        invariant
            digits(n as nat) == if m > 0 {
                digits(m as nat) + v@
            } else {
                v@
            },
            v@.len() >= 1,
            forall|k: int| 0 <= k < v@.len() ==> v@[k] < 10,
        decreases m,
    {
        let ghost v_old = v@;
        let ghost m_old: u32 = m;
        v.insert(0, m % 10);
        m = m / 10;
        proof {
            assert(v@ =~= seq![(m_old % 10) as u32] + v_old);
            if m > 0 {
                assert(digits(m_old as nat) =~= digits(m as nat) + seq![(m_old % 10) as u32]);
                assert(digits(m as nat) + v@ =~= (digits(m as nat) + seq![(m_old % 10) as u32])
                    + v_old);
            } else {
                assert(digits(m_old as nat) =~= seq![(m_old % 10) as u32]);
            }
        }
    }
    proof {
        lemma_digits_bounded(n as nat);
    }
    v
}

/// Ten to the `k`-th power.
pub open spec fn pow10(k: nat) -> nat
    decreases k,
{
    if k == 0 {
        1
    } else {
        10 * pow10((k - 1) as nat)
    }
}

/// A number below `10^k` has at most `k` decimal digits.
pub proof fn lemma_digits_len_bound(n: nat, k: nat)
    requires
        1 <= k,
        n < pow10(k),
    ensures
        digits(n).len() <= k,
    decreases k,
{
    if n < 10 {
    } else {
        assert(pow10(k) == 10 * pow10((k - 1) as nat));
        if k == 1 {
            assert(pow10(1nat) == 10 * pow10(0nat));
            assert(false);
        }
        vstd::arithmetic::div_mod::lemma_fundamental_div_mod(n as int, 10);
        assert(n / 10 < pow10((k - 1) as nat)) by (nonlinear_arith)
            requires
                n < 10 * pow10((k - 1) as nat),
                n == 10 * (n as int / 10) + n as int % 10,
                0 <= n as int % 10 < 10,
        ;
        lemma_digits_len_bound(n / 10, (k - 1) as nat);
    }
}

/// Every digit produced by [`digits`] is below 10.
pub proof fn lemma_digits_bounded(n: nat)
    ensures
        forall|k: int| 0 <= k < digits(n).len() ==> digits(n)[k] < 10,
    decreases n,
{
    if n >= 10 {
        lemma_digits_bounded(n / 10);
        assert forall|k: int| 0 <= k < digits(n).len() implies digits(n)[k] < 10 by {
            if k < digits(n / 10).len() {
                assert(digits(n)[k] == digits(n / 10)[k]);
            }
        }
    }
}

} // verus!
