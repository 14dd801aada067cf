use vstd::prelude::*;
use vstd::arithmetic::power::pow;

verus! {

/// Whether a value fits in an `i64`.
pub open spec fn fits_i64(x: int) -> bool {
    i64::MIN <= x <= i64::MAX
}

/// Whether square-and-multiply from accumulator `res`, base `a` and
/// exponent `n` keeps every product it forms inside `i64`: at each step
/// the accumulator times the base when the low bit is set, and the square
/// of the base, which is formed on every step, the last one included.
pub open spec fn powi_fits(a: int, n: nat, res: int) -> bool
    decreases n,
{
    if n == 0 {
        true
    } else {
        let r2 = if n % 2 == 1 { res * a } else { res };
        &&& fits_i64(r2)
        &&& fits_i64(a * a)
        &&& powi_fits(a * a, n / 2, r2)
    }
}

/// The power of a square is the power of twice the exponent.
proof fn lemma_pow_square(a: int, m: nat)
    ensures
        pow(a * a, m) == pow(a, 2 * m),
    decreases m,
{
    reveal(pow);
    if m > 0 {
        lemma_pow_square(a, (m - 1) as nat);
        assert(pow(a, 2 * m) == a * pow(a, (2 * m - 1) as nat));
        assert(pow(a, (2 * m - 1) as nat) == a * pow(a, (2 * m - 2) as nat));
        assert(((2 * m - 2) as nat) == 2 * ((m - 1) as nat));
        assert(pow(a * a, m) == (a * a) * pow(a * a, (m - 1) as nat));
        assert(a * (a * pow(a, (2 * m - 2) as nat)) == (a * a) * pow(a, (2 * m - 2) as nat)) by (nonlinear_arith);
    }
}

/// One step of square-and-multiply keeps `res * a^n` unchanged.
proof fn lemma_powi_step(a: int, n: nat, res: int)
    requires
        n > 0,
    ensures
        (if n % 2 == 1 { res * a } else { res }) * pow(a * a, n / 2) == res * pow(a, n),
{
    reveal(pow);
    lemma_pow_square(a, n / 2);
    if n % 2 == 1 {
        assert(n == 2 * (n / 2) + 1);
        assert(pow(a, n) == a * pow(a, (n - 1) as nat));
        assert(((n - 1) as nat) == 2 * (n / 2));
        assert((res * a) * pow(a, 2 * (n / 2)) == res * (a * pow(a, 2 * (n / 2)))) by (nonlinear_arith);
    } else {
        assert(n == 2 * (n / 2));
    }
}

/// `a` raised to the power `n`, by square-and-multiply.
///
/// A negative exponent never reaches zero by halving, and a product that
/// leaves `i64` overflows, so `n` is non-negative and every product the
/// method forms fits (`powi_fits`); the result is then `a` to the `n`.
pub fn powi(a: i64, n: i64) -> (r: i64)
    requires
        n >= 0,
        powi_fits(a as int, n as nat, 1),
    ensures
        r == pow(a as int, n as nat),
{
    let mut a = a;
    let mut n = n;
    let mut res: i64 = 1;
    let ghost a0: int = a as int;
    let ghost n0: nat = n as nat;
    proof {
        reveal(pow);
        assert(pow(a0, n0) == 1 * pow(a0, n0));
    }
    while n != 0
        invariant
            n >= 0,
            powi_fits(a as int, n as nat, res as int),
            res * pow(a as int, n as nat) == pow(a0, n0),
        decreases n,
    {
        proof {
            lemma_powi_step(a as int, n as nat, res as int);
        }
        let bit = n & 1;
        assert(bit == n % 2) by (bit_vector)
            requires n >= 0, bit == n & 1;
        if bit != 0 {
            res = res * a;
        }
        a = a * a;
        let half = n >> 1;
        assert(half == n / 2) by (bit_vector)
            requires n >= 0, half == n >> 1;
        n = half;
    }
    proof {
        reveal(pow);
    }
    res
}

} // verus!
