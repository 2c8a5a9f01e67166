use vstd::arithmetic::div_mod::{lemma_fundamental_div_mod, lemma_mod_bound};
use vstd::prelude::*;

verus! {

/// `d` divides `n` (over the mathematical integers).
pub open spec fn divides(d: int, n: int) -> bool {
    exists|k: int| n == #[trigger] (d * k)
}

/// `d` is a common divisor of `a` and `b`.
pub open spec fn common_divisor(d: int, a: int, b: int) -> bool {
    divides(d, a) && divides(d, b)
}

proof fn lemma_divides_self(n: int)
    ensures
        divides(n, n),
{
    assert(n == n * 1);
}

proof fn lemma_divides_zero(d: int)
    ensures
        divides(d, 0),
{
    assert(0 == d * 0);
}

/// Taking `b` modulo `a` neither adds nor removes common divisors.
proof fn lemma_mod_keeps_common_divisors(a: int, b: int, d: int)
    requires
        1 <= a,
        0 <= b,
    ensures
        common_divisor(d, a, b) <==> common_divisor(d, a, b % a),
{
    lemma_fundamental_div_mod(b, a);
    if common_divisor(d, a, b) {
        let ka = choose|k: int| a == #[trigger] (d * k);
        let kb = choose|k: int| b == #[trigger] (d * k);
        assert(b % a == d * (kb - (b / a) * ka)) by (nonlinear_arith)
            requires
                a == d * ka,
                b == d * kb,
                b == a * (b / a) + b % a,
        ;
    }
    if common_divisor(d, a, b % a) {
        let ka = choose|k: int| a == #[trigger] (d * k);
        let km = choose|k: int| b % a == #[trigger] (d * k);
        assert(b == d * (km + (b / a) * ka)) by (nonlinear_arith)
            requires
                a == d * ka,
                b % a == d * km,
                b == a * (b / a) + b % a,
        ;
    }
}

/// The greatest common divisor of `a` and `b`, by Euclid's algorithm.
///
/// The result divides both inputs, and every common divisor of the inputs
/// divides the result — which, with `r >= 1`, pins the result down to the
/// greatest of the common divisors.
pub fn gcd(a: u64, b: u64) -> (r: u64)
    requires
        a >= 1,
        b >= 1,
    ensures
        r >= 1,
        divides(r as int, a as int),
        divides(r as int, b as int),
        forall|d: int| common_divisor(d, a as int, b as int) ==> divides(d, r as int),
{
    let ghost a0 = a as int;
    let ghost b0 = b as int;
    let mut a = a;
    let mut b = b;
    proof {
        lemma_divides_self(a0);
        lemma_divides_self(b0);
    }
    while b != 0
        invariant
            1 <= a,
            forall|d: int|
                #[trigger] common_divisor(d, a as int, b as int) <==> common_divisor(d, a0, b0),
        decreases b,
    {
        if a > b {
            let t = a;
            a = b;
            b = t;
            assert(forall|d: int|
                #[trigger] common_divisor(d, a as int, b as int) <==> common_divisor(
                    d,
                    b as int,
                    a as int,
                ));
        }
        let ghost bi = b as int;
        b = b % a;
        proof {
            lemma_mod_bound(bi, a as int);
            assert forall|d: int|
                #[trigger] common_divisor(d, a as int, b as int) <==> common_divisor(
                    d,
                    a as int,
                    bi,
                ) by {
                lemma_mod_keeps_common_divisors(a as int, bi, d);
            }
        }
    }
    proof {
        lemma_divides_self(a as int);
        lemma_divides_zero(a as int);
        assert(common_divisor(a as int, a as int, 0));
        assert forall|d: int| common_divisor(d, a0, b0) implies divides(d, a as int) by {
            assert(common_divisor(d, a as int, 0));
        }
    }
    a
}

} // verus!
