//! Greatest common divisors, used to bring an aspect ratio to lowest terms.
use vstd::prelude::*;
use vstd::arithmetic::div_mod::{lemma_fundamental_div_mod, lemma_fundamental_div_mod_converse};

verus! {

/// The greatest common divisor, by Euclid's recursion.
pub open spec fn gcd_spec(a: nat, b: nat) -> nat
    decreases b,
{
    if b == 0 {
        a
    } else {
        gcd_spec(b, a % b)
    }
}

/// `d` divides `m`.
pub open spec fn divides(d: int, m: int) -> bool {
    m % d == 0
}

proof fn lemma_multiple(m: int, d: int, k: int)
    requires
        d > 0,
        m == k * d,
    ensures
        divides(d, m),
{
    lemma_fundamental_div_mod_converse(m, d, k, 0);
}

/// The common divisors of `a` and `b` are those of `b` and `a % b`.
proof fn lemma_common_divisors_step(a: int, b: int, d: int)
    requires
        a >= 0,
        b > 0,
        d > 0,
    ensures
        (divides(d, a) && divides(d, b)) <==> (divides(d, b) && divides(d, a % b)),
{
    lemma_fundamental_div_mod(a, b);
    lemma_fundamental_div_mod(a, d);
    lemma_fundamental_div_mod(b, d);
    lemma_fundamental_div_mod(a % b, d);
    let q = a / b;
    if divides(d, a) && divides(d, b) {
        let i = a / d;
        let j = b / d;
        assert(a % b == (i - j * q) * d) by (nonlinear_arith)
            requires
                a == d * i,
                b == d * j,
                a == b * q + a % b,
        ;
        lemma_multiple(a % b, d, i - j * q);
    }
    if divides(d, b) && divides(d, a % b) {
        let j = b / d;
        let k = (a % b) / d;
        assert(a == (j * q + k) * d) by (nonlinear_arith)
            requires
                b == d * j,
                a % b == d * k,
                a == b * q + a % b,
        ;
        lemma_multiple(a, d, j * q + k);
    }
}

/// The gcd divides both arguments, and every common divisor divides the gcd.
pub proof fn lemma_gcd_is_greatest(a: nat, b: nat, d: int)
    requires
        a > 0 || b > 0,
        d > 0,
    ensures
        gcd_spec(a, b) > 0,
        divides(gcd_spec(a, b) as int, a as int),
        divides(gcd_spec(a, b) as int, b as int),
        divides(d, a as int) && divides(d, b as int) ==> divides(d, gcd_spec(a, b) as int),
    decreases b,
{
    if b == 0 {
        lemma_multiple(0, a as int, 0);
        lemma_multiple(a as int, a as int, 1);
    } else {
        lemma_gcd_is_greatest(b, a % b, d);
        let g = gcd_spec(a, b) as int;
        lemma_common_divisors_step(a as int, b as int, g);
        lemma_common_divisors_step(a as int, b as int, d);
    }
}

/// The gcd of a number with itself is that number.
pub proof fn lemma_gcd_self(a: nat)
    ensures
        gcd_spec(a, a) == a,
{
    if a > 0 {
        assert(a % a == 0) by {
            lemma_multiple(a as int, a as int, 1);
        }
        assert(gcd_spec(a, 0) == a);
    }
}

/// The gcd of one and any positive number is one, in either order.
pub proof fn lemma_gcd_one(n: nat)
    requires
        n > 0,
    ensures
        gcd_spec(1, n) == 1,
        gcd_spec(n, 1) == 1,
{
    assert(n % 1 == 0) by {
        lemma_multiple(n as int, 1, n as int);
    }
    assert(gcd_spec(1, 0) == 1);
    assert(gcd_spec(n, 1) == gcd_spec(1, 0));
    if n > 1 {
        lemma_fundamental_div_mod_converse(1, n as int, 0, 1);
        assert(gcd_spec(1, n) == gcd_spec(n, 1));
    } else {
        assert(gcd_spec(1, 1) == gcd_spec(1, 0));
    }
}

/// The gcd does not depend on the order of its arguments.
pub proof fn lemma_gcd_commutes(a: nat, b: nat)
    requires
        a > 0,
        b > 0,
    ensures
        gcd_spec(a, b) == gcd_spec(b, a),
{
    if a < b {
        lemma_fundamental_div_mod_converse(a as int, b as int, 0, a as int);
        assert(gcd_spec(a, b) == gcd_spec(b, a));
    } else if b < a {
        lemma_fundamental_div_mod_converse(b as int, a as int, 0, b as int);
        assert(gcd_spec(b, a) == gcd_spec(a, b));
    }
}

/// Scaling both arguments scales the gcd: `gcd(k * a, k * b) == k * gcd(a, b)`.
pub proof fn lemma_gcd_scales(a: nat, b: nat, k: nat)
    requires
        k > 0,
    ensures
        gcd_spec(k * a, k * b) == k * gcd_spec(a, b),
    decreases b,
{
    if b == 0 {
        assert(k * b == 0) by (nonlinear_arith)
            requires
                b == 0,
        ;
    } else {
        let q = a / b;
        let m = a % b;
        lemma_fundamental_div_mod(a as int, b as int);
        assert(k * a == q * (k * b) + k * m && 0 <= k * m < k * b) by (nonlinear_arith)
            requires
                a == b * q + m,
                0 <= m < b,
                k > 0,
        ;
        lemma_fundamental_div_mod_converse((k * a) as int, (k * b) as int, q as int, (k * m) as int);
        assert(k * b > 0) by (nonlinear_arith)
            requires
                k > 0,
                b > 0,
        ;
        lemma_gcd_scales(b, m, k);
    }
}

/// Returns the greatest common divisor of two positive numbers (iteratively).
pub fn gcd(a: u32, b: u32) -> (r: u32)
    requires
        a > 0,
        b > 0,
    ensures
        r == gcd_spec(a as nat, b as nat),
        r > 0,
        divides(r as int, a as int),
        divides(r as int, b as int),
        forall|d: int| d > 0 && divides(d, a as int) && divides(d, b as int) ==> divides(d, r as int),
{
    proof {
        let g = gcd_spec(a as nat, b as nat) as int;
        lemma_gcd_is_greatest(a as nat, b as nat, 1);
        assert forall|d: int| d > 0 && divides(d, a as int) && divides(d, b as int) implies divides(
            d,
            g,
        ) by {
            lemma_gcd_is_greatest(a as nat, b as nat, d);
        }
    }
    if a == b {
        proof {
            lemma_gcd_self(a as nat);
        }
        return a;
    } else if a == 1 || b == 1 {
        proof {
            lemma_gcd_one(a as nat);
            lemma_gcd_one(b as nat);
        }
        return 1;
    } else if a == 2 && b % 2 == 0 {
        proof {
            assert(b % 2 == 0 && (b as nat) % 2 == 0);
            assert(gcd_spec(b as nat, 0) == b);
            assert(gcd_spec(2, 0) == 2);
            assert(gcd_spec(b as nat, 2) == gcd_spec(2, 0));
            lemma_gcd_commutes(2, b as nat);
        }
        return 2;
    } else if b == 2 && a % 2 == 0 {
        proof {
            assert(gcd_spec(2, 0) == 2);
            assert(gcd_spec(a as nat, 2) == gcd_spec(2, 0));
        }
        return 2;
    }
    let (mut x, mut y) = if a > b {
        (a, b)
    } else {
        (b, a)
    };
    proof {
        lemma_gcd_commutes(a as nat, b as nat);
    }
    let mut rem: u32 = x % y;
    while rem > 0
        invariant
            y > 0,
            rem == x % y,
            gcd_spec(x as nat, y as nat) == gcd_spec(a as nat, b as nat),
        decreases y,
    {
        proof {
            assert(gcd_spec(x as nat, y as nat) == gcd_spec(y as nat, rem as nat));
        }
        x = y;
        y = rem;
        rem = x % y;
    }
    proof {
        assert(gcd_spec(x as nat, y as nat) == gcd_spec(y as nat, 0));
    }
    y
}

} // verus!
