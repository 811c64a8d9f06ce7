//! Integer square roots, for checking that a board size is a perfect square.

use vstd::prelude::*;

verus! {

/// `n` is a perfect square: some non-negative `s` has `s * s == n`.
pub open spec fn is_square(n: int) -> bool {
    exists|s: int| 0 <= s && #[trigger] (s * s) == n
}

/// The non-negative square root of a perfect square.
pub open spec fn sqrt_of(n: int) -> int {
    choose|s: int| 0 <= s && #[trigger] (s * s) == n
}

/// Squaring is injective on the non-negative integers.
pub proof fn lemma_square_injective(a: int, b: int)
    requires
        0 <= a,
        0 <= b,
        a * a == b * b,
    ensures
        a == b,
{
    assert(a == b) by (nonlinear_arith)
        requires
            0 <= a,
            0 <= b,
            a * a == b * b,
    ;
}

/// `sqrt_of(n)` is the one non-negative root of a perfect square `n`.
pub proof fn lemma_sqrt_of(n: int)
    requires
        is_square(n),
    ensures
        0 <= sqrt_of(n),
        sqrt_of(n) * sqrt_of(n) == n,
        forall|s: int| 0 <= s && #[trigger] (s * s) == n ==> s == sqrt_of(n),
{
    assert(0 <= sqrt_of(n) && sqrt_of(n) * sqrt_of(n) == n);
    assert forall|s: int| 0 <= s && #[trigger] (s * s) == n implies s == sqrt_of(n) by {
        lemma_square_injective(s, sqrt_of(n));
    }
}

/// Integer square root: returns `Some(s)` with `s * s == n` exactly when `n`
/// is a perfect square, and `None` otherwise.
pub fn int_sqrt(n: u16) -> (r: Option<u16>)
    ensures
        r is Some <==> is_square(n as int),
        r matches Some(s) ==> s as int * s as int == n as int && s as int == sqrt_of(n as int),
{
    let mut s: u32 = 0;
    while s * s < n as u32
        invariant
            s <= 256,
            s * s <= 0x1_0000,
            forall|t: int| 0 <= t < s ==> #[trigger] (t * t) < n as int,
        decreases 256 - s,
    {
        proof {
            assert(s < 256) by (nonlinear_arith)
                requires
                    s * s < n as u32,
                    n <= 0xffff,
                    s <= 256,
            ;
            assert((s + 1) * (s + 1) <= 0x1_0000) by (nonlinear_arith)
                requires
                    s < 256,
            ;
        }
        s = s + 1;
    }
    if s * s == n as u32 {
        proof {
            assert(is_square(n as int));
            lemma_sqrt_of(n as int);
        }
        Some(s as u16)
    } else {
        proof {
            assert forall|t: int| 0 <= t implies #[trigger] (t * t) != n as int by {
                if t < s {
                    assert(t * t < n as int);
                } else {
                    assert(t * t >= s * s) by (nonlinear_arith)
                        requires
                            t >= s,
                            s >= 0,
                    ;
                }
            }
        }
        None
    }
}

} // verus!
