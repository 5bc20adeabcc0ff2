use vstd::prelude::*;

verus! {

/// A frame rate as a reduced fraction.
#[derive(Debug, Clone, Copy, PartialEq, Eq, Structural)]
pub struct Fps {
    pub num: u32,
    pub den: u32,
}

/// Why a frame rate was rejected.
#[derive(Debug, Clone, Copy, PartialEq, Eq, Structural)]
pub enum FpsError {
    ZeroNum,
    ZeroDen,
}

impl FpsError {
    /// The error's description.
    pub fn message(&self) -> (s: String)
        ensures
            s@ == fps_error_text(*self),
    {
        match self {
            FpsError::ZeroNum => "fps num must be > 0".to_owned(),
            FpsError::ZeroDen => "fps den must be > 0".to_owned(),
        }
    }
}

/// The description of each frame-rate error.
pub open spec fn fps_error_text(e: FpsError) -> Seq<char> {
    match e {
        FpsError::ZeroNum => "fps num must be > 0"@,
        FpsError::ZeroDen => "fps den must be > 0"@,
    }
}

/// Greatest common divisor (Euclid).
pub open spec fn gcd_spec(a: nat, b: nat) -> nat
    decreases b,
{
    if b == 0 { a } else { gcd_spec(b, a % b) }
}

/// `d` divides `n`.
pub open spec fn divides(d: nat, n: nat) -> bool {
    exists|k: nat| #[trigger] (k * d) == n
}

proof fn lemma_gcd_divides(a: nat, b: nat)
    requires
        a > 0 || b > 0,
    ensures
        gcd_spec(a, b) > 0,
        a % gcd_spec(a, b) == 0,
        b % gcd_spec(a, b) == 0,
    decreases b,
{
    if b == 0 {
        vstd::arithmetic::div_mod::lemma_mod_multiples_basic(1, a as int);
    } else {
        lemma_gcd_divides(b, a % b);
        let g = gcd_spec(b, a % b) as int;
        let ai = a as int;
        let bi = b as int;
        let r = (a % b) as int;
        vstd::arithmetic::div_mod::lemma_fundamental_div_mod(bi, g);
        vstd::arithmetic::div_mod::lemma_fundamental_div_mod(r, g);
        vstd::arithmetic::div_mod::lemma_fundamental_div_mod(ai, bi);
        let bb = bi / g;
        let rr = r / g;
        let q = ai / bi;
        assert(ai == (bb * q + rr) * g) by (nonlinear_arith)
            requires
                bi == g * bb,
                r == g * rr,
                ai == bi * q + r,
        ;
        vstd::arithmetic::div_mod::lemma_mod_multiples_basic(bb * q + rr, g);
    }
}

/// Any common divisor of `a` and `b` divides their gcd.
proof fn lemma_common_divisor_divides_gcd(a: nat, b: nat, d: nat)
    requires
        d > 0,
        a % d == 0,
        b % d == 0,
    ensures
        gcd_spec(a, b) % d == 0,
    decreases b,
{
    if b != 0 {
        let ai = a as int;
        let bi = b as int;
        let di = d as int;
        vstd::arithmetic::div_mod::lemma_fundamental_div_mod(ai, di);
        vstd::arithmetic::div_mod::lemma_fundamental_div_mod(bi, di);
        vstd::arithmetic::div_mod::lemma_fundamental_div_mod(ai, bi);
        let aa = ai / di;
        let bb = bi / di;
        let q = ai / bi;
        assert(ai % bi == (aa - bb * q) * di) by (nonlinear_arith)
            requires
                ai == di * aa,
                bi == di * bb,
                ai == bi * q + ai % bi,
        ;
        vstd::arithmetic::div_mod::lemma_mod_multiples_basic(aa - bb * q, di);
        lemma_common_divisor_divides_gcd(b, a % b, d);
    }
}

/// The gcd of two positive values, as `gcd` returns it.
pub open spec fn gcd_u32(a: u32, b: u32) -> u32 {
    let g = gcd_spec(a as nat, b as nat);
    if g == 0 { 1 } else { g as u32 }
}

proof fn lemma_gcd_le(a: nat, b: nat)
    ensures
        b > 0 ==> gcd_spec(a, b) <= b,
        b == 0 ==> gcd_spec(a, b) == a,
    decreases b,
{
    if b > 0 {
        lemma_gcd_le(b, a % b);
        if a % b > 0 {
            assert(gcd_spec(b, a % b) <= a % b);
        } else {
            assert(gcd_spec(b, 0) == b);
        }
    }
}

fn gcd(a: u32, b: u32) -> (g: u32)
    ensures
        g == gcd_u32(a, b),
{
    let mut a = a;
    let mut b = b;
    let ghost a0 = a;
    let ghost b0 = b;
    while b != 0
        invariant
            gcd_spec(a as nat, b as nat) == gcd_spec(a0 as nat, b0 as nat),
        decreases b,
    {
        let t = b;
        b = a % b;
        a = t;
    }
    proof {
        lemma_gcd_le(a0 as nat, b0 as nat);
        lemma_gcd_le(a as nat, 0);
    }
    if a == 0 { 1 } else { a }
}

impl Fps {
    /// The fraction `num/den` in lowest terms; zero numerator or denominator
    /// is rejected, numerator first.
    pub fn new(num: u32, den: u32) -> (r: Result<Fps, FpsError>)
        ensures
            num == 0 ==> r == Err::<Fps, FpsError>(FpsError::ZeroNum),
            num != 0 && den == 0 ==> r == Err::<Fps, FpsError>(FpsError::ZeroDen),
            num != 0 && den != 0 ==> r == Ok::<Fps, FpsError>(
                Fps { num: num / gcd_u32(num, den), den: den / gcd_u32(num, den) },
            ),
    {
        if num == 0 {
            return Err(FpsError::ZeroNum);
        }
        if den == 0 {
            return Err(FpsError::ZeroDen);
        }
        let g = gcd(num, den);
        proof {
            lemma_gcd_divides(num as nat, den as nat);
            lemma_gcd_le(num as nat, den as nat);
        }
        Ok(Fps { num: num / g, den: den / g })
    }

    /// The rate `fps/1`.
    pub fn from_int(fps: u32) -> (r: Result<Fps, FpsError>)
        ensures
            fps == 0 ==> r == Err::<Fps, FpsError>(FpsError::ZeroNum),
            fps != 0 ==> r == Ok::<Fps, FpsError>(Fps { num: fps, den: 1 }),
    {
        proof {
            lemma_gcd_le(fps as nat, 1);
            lemma_gcd_divides(fps as nat, 1);
        }
        Self::new(fps, 1)
    }
}

/// The default rate, 25/1.
pub open spec fn default_fps() -> Fps {
    Fps { num: 25, den: 1 }
}

impl Default for Fps {
    fn default() -> (r: Self)
        ensures
            r == default_fps(),
    {
        Fps { num: 25, den: 1 }
    }
}

/// A rate built by `Fps::new` keeps the ratio it was given, and is in lowest
/// terms: any common divisor of its numerator and denominator is 1.
pub proof fn lemma_fps_new_reduced(num: u32, den: u32, d: nat)
    requires
        num != 0,
        den != 0,
        d > 0,
        (num / gcd_u32(num, den)) as nat % d == 0,
        (den / gcd_u32(num, den)) as nat % d == 0,
    ensures
        (num / gcd_u32(num, den)) as int * den as int == (den / gcd_u32(num, den)) as int * num as int,
        d == 1,
{
    let g = gcd_spec(num as nat, den as nat);
    lemma_gcd_divides(num as nat, den as nat);
    lemma_gcd_le(num as nat, den as nat);
    assert(gcd_u32(num, den) == g as u32);
    let n1 = num as nat / g;
    let d1 = den as nat / g;
    assert(n1 * g == num && d1 * g == den) by (nonlinear_arith)
        requires
            num as nat % g == 0,
            den as nat % g == 0,
            g > 0,
            n1 == num as nat / g,
            d1 == den as nat / g,
    ;
    assert(n1 * den == d1 * num) by (nonlinear_arith)
        requires
            n1 * g == num,
            d1 * g == den,
    ;
    // g * d divides both num and den, so it divides g, forcing d == 1
    let gd = g * d;
    assert(num as nat % gd == 0 && den as nat % gd == 0) by (nonlinear_arith)
        requires
            n1 % d == 0,
            d1 % d == 0,
            n1 * g == num,
            d1 * g == den,
            gd == g * d,
            d > 0,
            g > 0,
    {
        assert(n1 == (n1 / d) * d);
        assert(num == ((n1 / d)) * gd);
        assert(d1 == (d1 / d) * d);
        assert(den == ((d1 / d)) * gd);
    }
    assert(gd > 0) by (nonlinear_arith)
        requires
            g > 0,
            d > 0,
            gd == g * d,
    ;
    lemma_common_divisor_divides_gcd(num as nat, den as nat, gd);
    assert(d == 1) by (nonlinear_arith)
        requires
            g % gd == 0,
            gd == g * d,
            g > 0,
            d > 0,
    {
        assert(g >= gd);
    }
}

} // verus!
