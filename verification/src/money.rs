//! Exact decimal amounts.
//!
//! A decimal number arrives as its two stored parts (`mantissa`, `scale`),
//! meaning `mantissa / 10^scale`.  Inside the library amounts are fixed-point
//! integers: prices, sizes, positions and settlement values are counted in
//! hundredths ("cents"), balances, order values, credits and fees in
//! ten-thousandths ("money units").  A price times a size is then exactly a
//! money amount, with no rounding anywhere.
use vstd::prelude::*;

verus! {

/// Largest mantissa magnitude a stored decimal can carry (2^96 - 1).
pub const MAX_MANTISSA: i128 = 79228162514264337593543950335;

/// Largest scale a stored decimal can carry.
pub const MAX_SCALE: u32 = 28;

/// Money units per cent.
pub const CENTS_TO_MONEY: i128 = 100;

/// A decimal number given by its parts: the value is `mantissa / 10^scale`.
#[derive(Clone, Copy, Debug)]
pub struct DecimalParts {
    pub mantissa: i128,
    pub scale: u32,
}

pub open spec fn pow10(n: nat) -> int
    decreases n,
{
    if n == 0 {
        1
    } else {
        10 * pow10((n - 1) as nat)
    }
}

/// The parts are those of a representable decimal.
pub open spec fn wf_parts(p: DecimalParts) -> bool {
    &&& p.scale <= MAX_SCALE
    &&& -MAX_MANTISSA <= p.mantissa <= MAX_MANTISSA
}

/// The value of a decimal, counted in units of 10^-28.
pub open spec fn value28(p: DecimalParts) -> int {
    p.mantissa * pow10((MAX_SCALE - p.scale) as nat)
}

/// Strip trailing zeros from the mantissa, lowering the scale; zero becomes
/// `0` with scale 0.
pub open spec fn normalize_spec(m: int, s: nat) -> (int, nat)
    decreases s,
{
    if s == 0 {
        (m, 0)
    } else if m % 10 != 0 {
        (m, s)
    } else {
        normalize_spec(m / 10, (s - 1) as nat)
    }
}

pub open spec fn normalized(p: DecimalParts) -> DecimalParts {
    DecimalParts {
        mantissa: normalize_spec(p.mantissa as int, p.scale as nat).0 as i128,
        scale: normalize_spec(p.mantissa as int, p.scale as nat).1 as u32,
    }
}

pub proof fn lemma_pow10_positive(n: nat)
    ensures
        pow10(n) >= 1,
    decreases n,
{
    if n > 0 {
        lemma_pow10_positive((n - 1) as nat);
    }
}

pub proof fn lemma_pow10_add(a: nat, b: nat)
    ensures
        pow10(a + b) == pow10(a) * pow10(b),
    decreases a,
{
    if a > 0 {
        lemma_pow10_add((a - 1) as nat, b);
        assert(pow10(a + b) == 10 * pow10((a - 1 + b) as nat));
        assert(10 * (pow10((a - 1) as nat) * pow10(b)) == (10 * pow10((a - 1) as nat)) * pow10(b))
            by (nonlinear_arith);
    }
}

proof fn lemma_normalize_step(m: int, s: nat)
    requires
        0 < s <= MAX_SCALE,
        m % 10 == 0,
    ensures
        (m / 10) * pow10((MAX_SCALE - (s - 1)) as nat) == m * pow10((MAX_SCALE - s) as nat),
{
    let k = (MAX_SCALE - s) as nat;
    assert(pow10(k + 1) == 10 * pow10(k));
    assert(m == (m / 10) * 10);
    assert((m / 10) * (10 * pow10(k)) == ((m / 10) * 10) * pow10(k)) by (nonlinear_arith);
}

} // verus!

verus! {

pub proof fn lemma_normalize_value(m: int, s: nat)
    requires
        s <= MAX_SCALE,
    ensures
        normalize_spec(m, s).1 <= s,
        normalize_spec(m, s).0 * pow10((MAX_SCALE - normalize_spec(m, s).1) as nat) == m * pow10(
            (MAX_SCALE - s) as nat,
        ),
        normalize_spec(m, s).1 == 0 || normalize_spec(m, s).0 % 10 != 0,
        m >= 0 ==> 0 <= normalize_spec(m, s).0 <= m,
        m <= 0 ==> m <= normalize_spec(m, s).0 <= 0,
    decreases s,
{
    if s > 0 && m % 10 == 0 {
        lemma_normalize_step(m, s);
        lemma_normalize_value(m / 10, (s - 1) as nat);
    }
}

/// Stripping trailing zeros keeps a decimal's value counted in units of
/// 10^-k, for any `k` at least its scale, and keeps the mantissa's sign.
pub proof fn lemma_normalized_scaled_value(p: DecimalParts, k: nat)
    requires
        wf_parts(p),
        p.scale <= k <= MAX_SCALE,
    ensures
        wf_parts(normalized(p)),
        normalized(p).scale <= p.scale,
        scaled_value(normalized(p), k) == scaled_value(p, k),
        p.mantissa > 0 ==> normalized(p).mantissa > 0,
        p.mantissa >= 0 ==> 0 <= normalized(p).mantissa <= p.mantissa,
        p.mantissa <= 0 ==> p.mantissa <= normalized(p).mantissa <= 0,
{
    let m = p.mantissa as int;
    let s = p.scale as nat;
    lemma_normalize_value(m, s);
    let nm = normalize_spec(m, s).0;
    let ns = normalize_spec(m, s).1;
    assert(normalized(p).mantissa == nm);
    assert(normalized(p).scale == ns);
    let c = pow10((MAX_SCALE - k) as nat);
    lemma_pow10_positive((MAX_SCALE - k) as nat);
    lemma_pow10_add((k - ns) as nat, (MAX_SCALE - k) as nat);
    lemma_pow10_add((k - s) as nat, (MAX_SCALE - k) as nat);
    assert(((k - ns) as nat + (MAX_SCALE - k) as nat) as nat == (MAX_SCALE - ns) as nat);
    assert(((k - s) as nat + (MAX_SCALE - k) as nat) as nat == (MAX_SCALE - s) as nat);
    let x = nm * pow10((k - ns) as nat);
    let y = m * pow10((k - s) as nat);
    assert(x * c == nm * pow10((MAX_SCALE - ns) as nat)) by (nonlinear_arith)
        requires
            x == nm * pow10((k - ns) as nat),
            pow10((MAX_SCALE - ns) as nat) == pow10((k - ns) as nat) * c,
    ;
    assert(y * c == m * pow10((MAX_SCALE - s) as nat)) by (nonlinear_arith)
        requires
            y == m * pow10((k - s) as nat),
            pow10((MAX_SCALE - s) as nat) == pow10((k - s) as nat) * c,
    ;
    assert(x == y) by (nonlinear_arith)
        requires
            x * c == y * c,
            c >= 1,
    ;
    if m > 0 {
        lemma_pow10_positive((MAX_SCALE - s) as nat);
        lemma_pow10_positive((MAX_SCALE - ns) as nat);
        assert(m * pow10((MAX_SCALE - s) as nat) > 0) by (nonlinear_arith)
            requires
                m > 0,
                pow10((MAX_SCALE - s) as nat) >= 1,
        ;
        assert(nm != 0);
    }
}

/// Strip trailing zeros (the decimal crate's `normalize`): the value is kept.
pub fn normalize(p: DecimalParts) -> (r: DecimalParts)
    requires
        wf_parts(p),
    ensures
        r == normalized(p),
        wf_parts(r),
        value28(r) == value28(p),
        r.scale <= p.scale,
        r.scale == 0 || r.mantissa % 10 != 0,
{
    proof {
        lemma_normalize_value(p.mantissa as int, p.scale as nat);
    }
    let mut m = p.mantissa;
    let mut s = p.scale;
    while s > 0 && m % 10 == 0
        invariant
            normalize_spec(m as int, s as nat) == normalize_spec(p.mantissa as int, p.scale as nat),
            s <= p.scale,
            p.mantissa >= 0 ==> 0 <= m <= p.mantissa,
            p.mantissa <= 0 ==> p.mantissa <= m <= 0,
        decreases s,
    {
        m = m / 10;
        s = s - 1;
    }
    DecimalParts { mantissa: m, scale: s }
}

} // verus!

verus! {

/// The value of a decimal with at most `k` places, counted in units of 10^-k.
pub open spec fn scaled_value(p: DecimalParts, k: nat) -> int {
    p.mantissa * pow10((k - p.scale) as nat)
}

proof fn lemma_scaled_value(p: DecimalParts, k: nat)
    requires
        wf_parts(p),
        p.scale <= k <= MAX_SCALE,
    ensures
        scaled_value(p, k) * pow10((MAX_SCALE - k) as nat) == value28(p),
        -MAX_MANTISSA * pow10(k) <= scaled_value(p, k) <= MAX_MANTISSA * pow10(k),
{
    let a = (k - p.scale) as nat;
    let b = (MAX_SCALE - k) as nat;
    lemma_pow10_add(a, b);
    assert((a + b) as nat == (MAX_SCALE - p.scale) as nat);
    assert(p.mantissa * (pow10(a) * pow10(b)) == (p.mantissa * pow10(a)) * pow10(b))
        by (nonlinear_arith);
    lemma_pow10_positive(a);
    lemma_pow10_positive(p.scale as nat);
    lemma_pow10_add(a, p.scale as nat);
    assert(pow10(a) <= pow10(k)) by (nonlinear_arith)
        requires
            pow10(k) == pow10(a) * pow10(p.scale as nat),
            pow10(p.scale as nat) >= 1,
            pow10(a) >= 1,
    ;
    assert(-MAX_MANTISSA * pow10(a) <= p.mantissa * pow10(a) <= MAX_MANTISSA * pow10(a))
        by (nonlinear_arith)
        requires
            -MAX_MANTISSA <= p.mantissa <= MAX_MANTISSA,
            pow10(a) >= 1,
    ;
    assert(MAX_MANTISSA * pow10(a) <= MAX_MANTISSA * pow10(k)) by (nonlinear_arith)
        requires
            pow10(a) <= pow10(k),
    ;
}

/// Count a decimal with at most `k <= 4` places in units of 10^-k.
pub fn to_scaled(p: DecimalParts, k: u32) -> (r: i128)
    requires
        wf_parts(p),
        p.scale <= k <= 4,
    ensures
        r == scaled_value(p, k as nat),
        r * pow10((MAX_SCALE - k) as nat) == value28(p),
{
    proof {
        lemma_scaled_value(p, k as nat);
        assert(pow10(4) == 10000) by {
            reveal_with_fuel(pow10, 5);
        }
        lemma_pow10_positive(k as nat);
        lemma_pow10_add(k as nat, (4 - k) as nat);
        lemma_pow10_positive((4 - k) as nat);
        assert(pow10(k as nat) <= 10000) by (nonlinear_arith)
            requires
                pow10(4) == pow10(k as nat) * pow10((4 - k) as nat),
                pow10(4) == 10000,
                pow10((4 - k) as nat) >= 1,
                pow10(k as nat) >= 1,
        ;
        assert(MAX_MANTISSA * pow10(k as nat) <= MAX_MANTISSA * 10000) by (nonlinear_arith)
            requires
                pow10(k as nat) <= 10000,
        ;
    }
    let mut r = p.mantissa;
    let mut s = p.scale;
    assert(pow10(0) == 1);
    while s < k
        invariant
            p.scale <= s <= k,
            r == p.mantissa * pow10((s - p.scale) as nat),
            -MAX_MANTISSA * pow10((s - p.scale) as nat) <= r <= MAX_MANTISSA * pow10(
                (s - p.scale) as nat,
            ),
            scaled_value(p, k as nat) == p.mantissa * pow10((k - p.scale) as nat),
            -MAX_MANTISSA * pow10(k as nat) <= scaled_value(p, k as nat) <= MAX_MANTISSA
                * pow10(k as nat),
            pow10(k as nat) <= 10000,
        decreases k - s,
    {
        proof {
            let e = (s - p.scale) as nat;
            assert(pow10(e + 1) == 10 * pow10(e));
            assert(p.mantissa * (10 * pow10(e)) == 10 * (p.mantissa * pow10(e)))
                by (nonlinear_arith);
            lemma_pow10_positive(e);
            lemma_pow10_add(e + 1, (k - s - 1) as nat);
            lemma_pow10_positive((k - s - 1) as nat);
            lemma_pow10_add((k - p.scale) as nat, p.scale as nat);
            lemma_pow10_positive(p.scale as nat);
            assert(pow10(e + 1) <= pow10(k as nat)) by (nonlinear_arith)
                requires
                    pow10((k - p.scale) as nat) == pow10(e + 1) * pow10((k - s - 1) as nat),
                    pow10(k as nat) == pow10((k - p.scale) as nat) * pow10(p.scale as nat),
                    pow10((k - s - 1) as nat) >= 1,
                    pow10(p.scale as nat) >= 1,
                    pow10(e + 1) >= 1,
            ;
            assert(-MAX_MANTISSA * pow10(e + 1) <= 10 * r <= MAX_MANTISSA * pow10(e + 1))
                by (nonlinear_arith)
                requires
                    -MAX_MANTISSA * pow10(e) <= r <= MAX_MANTISSA * pow10(e),
                    pow10(e + 1) == 10 * pow10(e),
            ;
            assert(MAX_MANTISSA * pow10(e + 1) <= MAX_MANTISSA * 10000) by (nonlinear_arith)
                requires
                    pow10(e + 1) <= pow10(k as nat),
                    pow10(k as nat) <= 10000,
            ;
            assert(pow10(e + 1) <= 10000);
            assert(MAX_MANTISSA * 10000 < i128::MAX);
            assert(-MAX_MANTISSA * pow10(e + 1) >= -MAX_MANTISSA * 10000) by (nonlinear_arith)
                requires
                    pow10(e + 1) <= 10000,
            ;
            assert(i128::MIN <= 10 * r <= i128::MAX);
        }
        r = r * 10;
        s = s + 1;
    }
    r
}

} // verus!

verus! {

/// Bound on cent quantities (prices, sizes, positions) the arithmetic is
/// proved for; far above any price or size an order may carry.
pub const CENTS_LIMIT: i128 = 1_000_000_000_000_000;

/// Bound on money quantities (balances, values, credits); the decimal type
/// itself cannot hold values this large.
pub const MONEY_LIMIT: i128 = 10_000_000_000_000_000_000_000_000_000_000;

pub open spec fn cents_ok(x: int) -> bool {
    -CENTS_LIMIT <= x <= CENTS_LIMIT
}

pub open spec fn money_ok(x: int) -> bool {
    -MONEY_LIMIT <= x <= MONEY_LIMIT
}

pub proof fn lemma_cents_product(a: int, b: int)
    requires
        cents_ok(a),
        -2 * CENTS_LIMIT <= b <= 2 * CENTS_LIMIT,
    ensures
        -2 * CENTS_LIMIT * CENTS_LIMIT <= a * b <= 2 * CENTS_LIMIT * CENTS_LIMIT,
{
    assert(-2 * CENTS_LIMIT * CENTS_LIMIT <= a * b <= 2 * CENTS_LIMIT * CENTS_LIMIT)
        by (nonlinear_arith)
        requires
            -CENTS_LIMIT <= a <= CENTS_LIMIT,
            -2 * CENTS_LIMIT <= b <= 2 * CENTS_LIMIT,
            CENTS_LIMIT > 0,
    ;
}

/// A decimal of at most `k <= 2` places, counted in units of 10^-k: not
/// below its mantissa when that is not negative, positive when the mantissa
/// is, and at most 100 times the mantissa's bound.
pub proof fn lemma_scaled_value_bounded(p: DecimalParts, k: nat)
    requires
        wf_parts(p),
        p.scale <= k <= 2,
    ensures
        p.mantissa >= 0 ==> p.mantissa <= scaled_value(p, k),
        p.mantissa <= 1_000_000_000_000 ==> scaled_value(p, k) <= 100_000_000_000_000,
        p.mantissa > 0 ==> scaled_value(p, k) > 0,
        -MAX_MANTISSA * 100 <= scaled_value(p, k) <= MAX_MANTISSA * 100,
{
    let e = (k - p.scale) as nat;
    lemma_pow10_positive(e);
    assert(pow10(e) <= 100) by {
        reveal_with_fuel(pow10, 3);
    }
    assert(p.mantissa <= 1_000_000_000_000 ==> p.mantissa * pow10(e) <= 100_000_000_000_000)
        by (nonlinear_arith)
        requires
            1 <= pow10(e) <= 100,
    ;
    assert(p.mantissa > 0 ==> p.mantissa * pow10(e) > 0) by (nonlinear_arith)
        requires
            1 <= pow10(e),
    ;
    assert(p.mantissa >= 0 ==> p.mantissa <= p.mantissa * pow10(e)) by (nonlinear_arith)
        requires
            1 <= pow10(e),
    ;
    assert(-MAX_MANTISSA * 100 <= p.mantissa * pow10(e) <= MAX_MANTISSA * 100)
        by (nonlinear_arith)
        requires
            1 <= pow10(e) <= 100,
            -MAX_MANTISSA <= p.mantissa <= MAX_MANTISSA,
    ;
}

} // verus!
