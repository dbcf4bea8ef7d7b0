//! The BabyBear prime field and its quadratic extension `F[X]/(X^2 - 11)`.
use vstd::prelude::*;
use vstd::arithmetic::div_mod::*;

verus! {

/// The prime `15 * 2^27 + 1`.
pub const MODULUS: u64 = 2013265921;

/// The non-residue defining the extension: `X^2 = EXT_W`.
pub const EXT_W: u64 = 11;

pub open spec fn p() -> int {
    MODULUS as int
}

pub open spec fn fadd(a: int, b: int) -> int {
    (a + b) % p()
}

pub open spec fn fsub(a: int, b: int) -> int {
    (a - b) % p()
}

pub open spec fn fmul(a: int, b: int) -> int {
    (a * b) % p()
}

pub open spec fn fneg(a: int) -> int {
    (-a) % p()
}

/// `a` is a canonical representative of a residue.
pub open spec fn canon(a: int) -> bool {
    0 <= a < p()
}

/// `a` has a multiplicative inverse modulo `p`.
pub open spec fn finvertible(a: int) -> bool {
    exists|y: int| fmul(a, y) == 1
}

/// A canonical value is its own residue.
pub proof fn lemma_canon_mod(a: int)
    requires
        canon(a),
    ensures
        a % p() == a,
{
    lemma_small_mod(a as nat, p() as nat);
}

/// A common divisor `g > 1` of `a` and `p` rules out an inverse of `a`.
proof fn lemma_common_divisor_blocks_inverse(a: int, g: int)
    requires
        g > 1,
        a % g == 0,
        p() % g == 0,
    ensures
        !finvertible(a),
{
    assert forall|y: int| fmul(a, y) != 1 by {
        if fmul(a, y) == 1 {
            lemma_fundamental_div_mod(a * y, p());
            lemma_fundamental_div_mod(a, g);
            lemma_fundamental_div_mod(p(), g);
            let s = a / g;
            let u = p() / g;
            let w = (a * y) / p();
            assert(a * y == p() * w + 1);
            assert(a == g * s);
            assert(p() == g * u);
            assert(g * (s * y - u * w) == 1) by (nonlinear_arith)
                requires
                    a * y == p() * w + 1,
                    a == g * s,
                    p() == g * u,
            ;
            assert(false) by (nonlinear_arith)
                requires
                    g * (s * y - u * w) == 1,
                    g > 1,
            ;
        }
    }
}

/// An element of the base field, stored as any `u32` and read modulo `p`.
#[derive(Clone, Copy, Debug, Eq)]
pub struct Felt {
    pub val: u32,
}

/// Elements are equal when their residues are, whatever the stored values.
impl PartialEq for Felt {
    fn eq(&self, o: &Felt) -> (r: bool) {
        self.value() == o.value()
    }
}

impl vstd::std_specs::cmp::PartialEqSpecImpl for Felt {
    open spec fn obeys_eq_spec() -> bool {
        true
    }

    open spec fn eq_spec(&self, o: &Felt) -> bool {
        self@ == o@
    }
}

impl View for Felt {
    type V = int;

    open spec fn view(&self) -> int {
        (self.val as int) % p()
    }
}

impl Felt {
    /// The residue of `x`.
    pub fn new(x: u32) -> (r: Felt)
        ensures
            r@ == (x as int) % p(),
            r.val as int == r@,
    {
        Felt { val: (x as u64 % MODULUS) as u32 }
    }

    pub fn zero() -> (r: Felt)
        ensures
            r@ == 0,
            r.val == 0,
    {
        Felt { val: 0 }
    }

    pub fn one() -> (r: Felt)
        ensures
            r@ == 1,
            r.val == 1,
    {
        proof {
            lemma_canon_mod(1);
        }
        Felt { val: 1 }
    }

    /// `1` for true, `0` for false.
    pub fn from_bool(b: bool) -> (r: Felt)
        ensures
            r@ == (if b { 1int } else { 0int }),
            r.val as int == r@,
    {
        proof {
            lemma_canon_mod(1);
            lemma_canon_mod(0);
        }
        if b {
            Felt { val: 1 }
        } else {
            Felt { val: 0 }
        }
    }

    /// The canonical representative, in `[0, p)`.
    pub fn value(&self) -> (r: u32)
        ensures
            r as int == self@,
    {
        (self.val as u64 % MODULUS) as u32
    }

    pub fn add(self, o: Felt) -> (r: Felt)
        ensures
            r@ == fadd(self@, o@),
            r.val as int == r@,
    {
        let a = self.val as u64 % MODULUS;
        let b = o.val as u64 % MODULUS;
        proof {
            lemma_add_mod_noop(self.val as int, o.val as int, p());
        }
        Felt { val: ((a + b) % MODULUS) as u32 }
    }

    pub fn sub(self, o: Felt) -> (r: Felt)
        ensures
            r@ == fsub(self@, o@),
            r.val as int == r@,
    {
        let a = self.val as u64 % MODULUS;
        let b = o.val as u64 % MODULUS;
        proof {
            lemma_mod_add_multiples_vanish(a - b, p());
        }
        Felt { val: ((a + MODULUS - b) % MODULUS) as u32 }
    }

    pub fn neg(self) -> (r: Felt)
        ensures
            r@ == fneg(self@),
            r.val as int == r@,
    {
        let a = self.val as u64 % MODULUS;
        proof {
            lemma_mod_add_multiples_vanish(-a, p());
        }
        Felt { val: ((MODULUS - a) % MODULUS) as u32 }
    }

    /// The multiplicative inverse, by the extended Euclidean algorithm on
    /// `(p, self)`; `None` exactly when none exists (only for zero, `p` being
    /// prime).
    pub fn inverse(self) -> (r: Option<Felt>)
        ensures
            match r {
                Some(y) => fmul(self@, y@) == 1 && y.val as int == y@,
                None => !finvertible(self@),
            },
    {
        let a: u64 = self.val as u64 % MODULUS;
        let ghost ai = a as int;
        let mut r0: u64 = MODULUS;
        let mut r1: u64 = a;
        let mut t0: u64 = 0;
        let mut t1: u64 = 1;
        let ghost mut k0: int = -1;
        let ghost mut k1: int = 0;
        proof {
            assert(t0 * ai - r0 == k0 * p());
            assert(t1 * ai - r1 == k1 * p());
        }
        while r1 != 0
            invariant
                0 < r0 <= MODULUS,
                r1 < r0,
                t0 < MODULUS,
                t1 < MODULUS,
                ai == self@,
                0 <= ai < p(),
                t0 * ai - r0 == k0 * p(),
                t1 * ai - r1 == k1 * p(),
                forall|d: int|
                    d > 0 && #[trigger] (r0 as int % d) == 0 && r1 as int % d == 0 ==> p() % d == 0
                        && ai % d == 0,
            decreases r1,
        {
            let q: u64 = r0 / r1;
            let r2: u64 = r0 % r1;
            let qm: u64 = q % MODULUS;
            assert(qm * t1 < 0x4000_0000_0000_0000) by (nonlinear_arith)
                requires
                    qm < MODULUS,
                    t1 < MODULUS,
            ;
            let m: u64 = (qm * t1) % MODULUS;
            let e: u64 = t0 + MODULUS - m;
            let t2: u64 = e % MODULUS;
            proof {
                lemma_fundamental_div_mod(r0 as int, r1 as int);
                lemma_fundamental_div_mod(q as int, p());
                lemma_fundamental_div_mod(qm * t1, p());
                lemma_fundamental_div_mod(e as int, p());
                let f = q as int / p();
                let c = (qm * t1) as int / p();
                let ee = e as int / p();
                let qq = r0 as int / r1 as int;
                assert(qq == q);
                assert(r0 == r1 * q + r2);
                assert(t2 == t0 - q * t1 + p() * (f * t1 + 1 + c - ee)) by (nonlinear_arith)
                    requires
                        q == p() * f + qm,
                        qm * t1 == p() * c + m,
                        e == p() * ee + t2,
                        e == t0 + p() - m,
                ;
                let kk = f * t1 + 1 + c - ee;
                assert(t2 * ai - r2 == (k0 - q * k1 + kk * ai) * p()) by (nonlinear_arith)
                    requires
                        t2 == t0 - q * t1 + p() * kk,
                        r0 == r1 * q + r2,
                        t0 * ai - r0 == k0 * p(),
                        t1 * ai - r1 == k1 * p(),
                ;
                let nk = k0 - q * k1 + kk * ai;
                k0 = k1;
                k1 = nk;
                assert forall|d: int|
                    d > 0 && #[trigger] (r1 as int % d) == 0 && r2 as int % d == 0 implies p() % d
                        == 0 && ai % d == 0 by {
                    lemma_fundamental_div_mod(r1 as int, d);
                    lemma_fundamental_div_mod(r2 as int, d);
                    let x = r1 as int / d;
                    let y = r2 as int / d;
                    assert(r0 == d * (x * q + y)) by (nonlinear_arith)
                        requires
                            r0 == r1 * q + r2,
                            r1 == d * x,
                            r2 == d * y,
                    ;
                    lemma_mod_multiples_basic(x * q + y, d);
                    assert((x * q + y) * d == d * (x * q + y)) by (nonlinear_arith);
                };
            }
            r0 = r1;
            r1 = r2;
            t0 = t1;
            t1 = t2;
        }
        proof {
            lemma_mod_self_0(r0 as int);
            assert(r0 as int % r0 as int == 0);
            assert(0int % (r0 as int) == 0);
        }
        if r0 == 1 {
            proof {
                assert(ai * t0 == k0 * p() + 1) by (nonlinear_arith)
                    requires
                        t0 * ai - 1 == k0 * p(),
                ;
                lemma_fundamental_div_mod_converse_mod(ai * t0, p(), k0, 1);
                lemma_canon_mod(t0 as int);
            }
            Some(Felt { val: t0 as u32 })
        } else {
            proof {
                lemma_common_divisor_blocks_inverse(ai, r0 as int);
            }
            None
        }
    }

    pub fn mul(self, o: Felt) -> (r: Felt)
        ensures
            r@ == fmul(self@, o@),
            r.val as int == r@,
    {
        let a = self.val as u64 % MODULUS;
        let b = o.val as u64 % MODULUS;
        assert(a * b < 0x4000_0000_0000_0000) by (nonlinear_arith)
            requires
                a < MODULUS,
                b < MODULUS,
        ;
        proof {
            lemma_mod_twice(a * b, p());
            lemma_mod_pos_bound(a * b, p());
        }
        Felt { val: ((a * b) % MODULUS) as u32 }
    }
}

/// `a` and `b` are congruent modulo `p`.
pub open spec fn cong(a: int, b: int) -> bool {
    a % p() == b % p()
}

pub proof fn lemma_cong_mod(a: int)
    ensures
        cong(a % p(), a),
{
    lemma_mod_twice(a, p());
}

pub proof fn lemma_cong_add(a: int, b: int, c: int, d: int)
    requires
        cong(a, b),
        cong(c, d),
    ensures
        cong(a + c, b + d),
{
    lemma_add_mod_noop(a, c, p());
    lemma_add_mod_noop(b, d, p());
}

pub proof fn lemma_cong_sub(a: int, b: int, c: int, d: int)
    requires
        cong(a, b),
        cong(c, d),
    ensures
        cong(a - c, b - d),
{
    lemma_sub_mod_noop(a, c, p());
    lemma_sub_mod_noop(b, d, p());
}

pub proof fn lemma_cong_mul(a: int, b: int, c: int, d: int)
    requires
        cong(a, b),
        cong(c, d),
    ensures
        cong(a * c, b * d),
{
    lemma_mul_mod_noop(a, c, p());
    lemma_mul_mod_noop(b, d, p());
}

/// The coefficient of `X^2` reduced: `X^2 = w()`.
pub open spec fn w() -> int {
    EXT_W as int
}

/// An extension element `c0 + c1 X` as its pair of coefficients.
pub type ExtSpec = (int, int);

pub open spec fn ecanon(x: ExtSpec) -> bool {
    canon(x.0) && canon(x.1)
}

pub open spec fn ezero() -> ExtSpec {
    (0, 0)
}

pub open spec fn eone() -> ExtSpec {
    (1, 0)
}

pub open spec fn ebase(a: int) -> ExtSpec {
    (a % p(), 0)
}

pub open spec fn eadd(x: ExtSpec, y: ExtSpec) -> ExtSpec {
    (fadd(x.0, y.0), fadd(x.1, y.1))
}

pub open spec fn esub(x: ExtSpec, y: ExtSpec) -> ExtSpec {
    (fsub(x.0, y.0), fsub(x.1, y.1))
}

pub open spec fn emul(x: ExtSpec, y: ExtSpec) -> ExtSpec {
    ((x.0 * y.0 + w() * (x.1 * y.1)) % p(), (x.0 * y.1 + x.1 * y.0) % p())
}

/// `x` has a multiplicative inverse in the extension.
pub open spec fn einvertible(x: ExtSpec) -> bool {
    exists|y: ExtSpec| emul(x, y) == eone()
}

/// The inverse of an invertible element (it is unique, see
/// `lemma_inverse_unique`).
pub open spec fn einv(x: ExtSpec) -> ExtSpec {
    choose|y: ExtSpec| ecanon(y) && emul(x, y) == eone()
}

/// The norm `c0^2 - w c1^2`, before reduction.
pub open spec fn norm(x: ExtSpec) -> int {
    x.0 * x.0 - w() * (x.1 * x.1)
}

proof fn lemma_mul_add_r(a: int, b: int, c: int)
    ensures
        (a + b) * c == a * c + b * c,
{
    assert((a + b) * c == a * c + b * c) by (nonlinear_arith);
}

proof fn lemma_mul_add_l(a: int, b: int, c: int)
    ensures
        a * (b + c) == a * b + a * c,
{
    assert(a * (b + c) == a * b + a * c) by (nonlinear_arith);
}

proof fn lemma_mul_assoc3(a: int, b: int, c: int)
    ensures
        (a * b) * c == a * (b * c),
{
    assert((a * b) * c == a * (b * c)) by (nonlinear_arith);
}

proof fn lemma_mul_w(a: int, b: int)
    ensures
        (w() * a) * b == w() * (a * b),
        a * (w() * b) == w() * (a * b),
{
    assert((11 * a) * b == 11 * (a * b)) by (nonlinear_arith);
    assert(a * (11 * b) == 11 * (a * b)) by (nonlinear_arith);
}

proof fn lemma_poly_assoc(x0: int, x1: int, y0: int, y1: int, z0: int, z1: int)
    ensures
        (x0 * y0 + w() * (x1 * y1)) * z0 + w() * ((x0 * y1 + x1 * y0) * z1) == x0 * (y0 * z0
            + w() * (y1 * z1)) + w() * (x1 * (y0 * z1 + y1 * z0)),
        (x0 * y0 + w() * (x1 * y1)) * z1 + (x0 * y1 + x1 * y0) * z0 == x0 * (y0 * z1 + y1 * z0)
            + x1 * (y0 * z0 + w() * (y1 * z1)),
{
    assert(w() == 11);
    let a = x0 * y0;
    let b = x1 * y1;
    let c = x0 * y1;
    let d = x1 * y0;
    let e = y0 * z0;
    let f = y1 * z1;
    let g = y0 * z1;
    let h = y1 * z0;
    lemma_mul_add_r(a, w() * b, z0);
    lemma_mul_w(b, z0);
    lemma_mul_add_r(c, d, z1);
    lemma_mul_add_l(x0, e, w() * f);
    lemma_mul_w(x0, f);
    lemma_mul_add_l(x1, g, h);
    lemma_mul_assoc3(x0, y0, z0);
    lemma_mul_assoc3(x1, y1, z0);
    lemma_mul_assoc3(x0, y1, z1);
    lemma_mul_assoc3(x1, y0, z1);
    assert((a + w() * b) * z0 == x0 * e + w() * (x1 * h));
    assert((c + d) * z1 == x0 * f + x1 * g);
    assert(x0 * (e + w() * f) == x0 * e + w() * (x0 * f));
    assert(x1 * (g + h) == x1 * g + x1 * h);
    lemma_mul_add_r(a, w() * b, z1);
    lemma_mul_w(b, z1);
    lemma_mul_add_r(c, d, z0);
    lemma_mul_add_l(x0, g, h);
    lemma_mul_add_l(x1, e, w() * f);
    lemma_mul_w(x1, f);
    lemma_mul_assoc3(x0, y0, z1);
    lemma_mul_assoc3(x1, y1, z1);
    lemma_mul_assoc3(x0, y1, z0);
    lemma_mul_assoc3(x1, y0, z0);
}

proof fn lemma_poly_distrib(x0: int, x1: int, y0: int, y1: int, z0: int, z1: int, k: int)
    ensures
        x0 * (y0 + z0) + k * (x1 * (y1 + z1)) == (x0 * y0 + k * (x1 * y1)) + (x0 * z0 + k * (x1
            * z1)),
        x0 * (y1 + z1) + x1 * (y0 + z0) == (x0 * y1 + x1 * y0) + (x0 * z1 + x1 * z0),
{
    assert(x0 * (y0 + z0) + k * (x1 * (y1 + z1)) == (x0 * y0 + k * (x1 * y1)) + (x0 * z0 + k * (
    x1 * z1))) by (nonlinear_arith);
    assert(x0 * (y1 + z1) + x1 * (y0 + z0) == (x0 * y1 + x1 * y0) + (x0 * z1 + x1 * z0))
        by (nonlinear_arith);
}

proof fn lemma_poly_norm(x0: int, x1: int, y0: int, y1: int)
    ensures
        (x0 * y0 + w() * (x1 * y1)) * (x0 * y0 + w() * (x1 * y1)) - w() * ((x0 * y1 + x1 * y0) * (
        x0 * y1 + x1 * y0)) == (x0 * x0 - w() * (x1 * x1)) * (y0 * y0 - w() * (y1 * y1)),
{
    assert(w() == 11);
    let a = x0 * y0;
    let b = x1 * y1;
    let c = x0 * y1;
    let d = x1 * y0;
    let xx0 = x0 * x0;
    let xx1 = x1 * x1;
    let yy0 = y0 * y0;
    let yy1 = y1 * y1;
    assert(a * a == xx0 * yy0) by (nonlinear_arith)
        requires
            a == x0 * y0,
            xx0 == x0 * x0,
            yy0 == y0 * y0,
    ;
    assert(b * b == xx1 * yy1) by (nonlinear_arith)
        requires
            b == x1 * y1,
            xx1 == x1 * x1,
            yy1 == y1 * y1,
    ;
    assert(c * c == xx0 * yy1) by (nonlinear_arith)
        requires
            c == x0 * y1,
            xx0 == x0 * x0,
            yy1 == y1 * y1,
    ;
    assert(d * d == xx1 * yy0) by (nonlinear_arith)
        requires
            d == x1 * y0,
            xx1 == x1 * x1,
            yy0 == y0 * y0,
    ;
    assert(a * b == c * d) by (nonlinear_arith)
        requires
            a == x0 * y0,
            b == x1 * y1,
            c == x0 * y1,
            d == x1 * y0,
    ;
    assert((a + 11 * b) * (a + 11 * b) == a * a + 22 * (a * b) + 121 * (b * b))
        by (nonlinear_arith);
    assert((c + d) * (c + d) == c * c + 2 * (c * d) + d * d) by (nonlinear_arith);
    assert((xx0 - 11 * xx1) * (yy0 - 11 * yy1) == xx0 * yy0 - 11 * (xx0 * yy1) - 11 * (xx1 * yy0)
        + 121 * (xx1 * yy1)) by (nonlinear_arith);
}

proof fn lemma_poly_conj(x0: int, x1: int, n: int, k: int)
    ensures
        x0 * (x0 * n) + k * (x1 * ((-x1) * n)) == (x0 * x0 - k * (x1 * x1)) * n,
        x0 * ((-x1) * n) + x1 * (x0 * n) == 0,
{
    assert(x0 * (x0 * n) + k * (x1 * ((-x1) * n)) == (x0 * x0 - k * (x1 * x1)) * n)
        by (nonlinear_arith);
    assert(x0 * ((-x1) * n) + x1 * (x0 * n) == 0) by (nonlinear_arith);
}

proof fn lemma_canon_w()
    ensures
        w() % p() == w(),
{
    lemma_canon_mod(w());
}

pub proof fn lemma_eadd_assoc(x: ExtSpec, y: ExtSpec, z: ExtSpec)
    ensures
        eadd(eadd(x, y), z) == eadd(x, eadd(y, z)),
{
    lemma_cong_mod(x.0 + y.0);
    lemma_cong_mod(y.0 + z.0);
    lemma_cong_add(fadd(x.0, y.0), x.0 + y.0, z.0, z.0);
    lemma_cong_add(x.0, x.0, fadd(y.0, z.0), y.0 + z.0);
    assert((x.0 + y.0) + z.0 == x.0 + (y.0 + z.0));
    lemma_cong_mod(x.1 + y.1);
    lemma_cong_mod(y.1 + z.1);
    lemma_cong_add(fadd(x.1, y.1), x.1 + y.1, z.1, z.1);
    lemma_cong_add(x.1, x.1, fadd(y.1, z.1), y.1 + z.1);
    assert((x.1 + y.1) + z.1 == x.1 + (y.1 + z.1));
}

pub proof fn lemma_eadd_zero(x: ExtSpec)
    requires
        ecanon(x),
    ensures
        eadd(x, ezero()) == x,
        eadd(ezero(), x) == x,
{
    lemma_canon_mod(x.0);
    lemma_canon_mod(x.1);
}

pub proof fn lemma_emul_comm(x: ExtSpec, y: ExtSpec)
    ensures
        emul(x, y) == emul(y, x),
{
    assert(x.0 * y.0 + w() * (x.1 * y.1) == y.0 * x.0 + w() * (y.1 * x.1)) by (nonlinear_arith);
    assert(x.0 * y.1 + x.1 * y.0 == y.0 * x.1 + y.1 * x.0) by (nonlinear_arith);
}

pub proof fn lemma_emul_one(x: ExtSpec)
    requires
        ecanon(x),
    ensures
        emul(x, eone()) == x,
        emul(eone(), x) == x,
{
    lemma_canon_mod(x.0);
    lemma_canon_mod(x.1);
    assert(x.0 * 1 == x.0);
    assert(x.1 * 1 == x.1);
    assert(x.1 * 0 == 0);
    assert(x.0 * 0 == 0);
    assert(w() * 0 == 0);
    lemma_emul_comm(x, eone());
}

pub proof fn lemma_emul_zero(x: ExtSpec)
    ensures
        emul(x, ezero()) == ezero(),
        emul(ezero(), x) == ezero(),
{
    lemma_canon_mod(0);
    assert(x.1 * 0 == 0);
    assert(x.0 * 0 == 0);
    assert(w() * 0 == 0);
    lemma_emul_comm(x, ezero());
}

/// Reducing the coefficients of either factor first does not change a product.
proof fn lemma_emul_cong(x: ExtSpec, xr: ExtSpec, y: ExtSpec, yr: ExtSpec)
    requires
        cong(x.0, xr.0),
        cong(x.1, xr.1),
        cong(y.0, yr.0),
        cong(y.1, yr.1),
    ensures
        emul(x, y) == emul(xr, yr),
{
    lemma_cong_mul(x.0, xr.0, y.0, yr.0);
    lemma_cong_mul(x.1, xr.1, y.1, yr.1);
    lemma_cong_mul(w(), w(), x.1 * y.1, xr.1 * yr.1);
    lemma_cong_add(x.0 * y.0, xr.0 * yr.0, w() * (x.1 * y.1), w() * (xr.1 * yr.1));
    lemma_cong_mul(x.0, xr.0, y.1, yr.1);
    lemma_cong_mul(x.1, xr.1, y.0, yr.0);
    lemma_cong_add(x.0 * y.1, xr.0 * yr.1, x.1 * y.0, xr.1 * yr.0);
}

pub proof fn lemma_emul_assoc(x: ExtSpec, y: ExtSpec, z: ExtSpec)
    ensures
        emul(emul(x, y), z) == emul(x, emul(y, z)),
{
    let u = emul(x, y);
    let v = emul(y, z);
    let ur = (x.0 * y.0 + w() * (x.1 * y.1), x.0 * y.1 + x.1 * y.0);
    let vr = (y.0 * z.0 + w() * (y.1 * z.1), y.0 * z.1 + y.1 * z.0);
    lemma_cong_mod(ur.0);
    lemma_cong_mod(ur.1);
    lemma_cong_mod(vr.0);
    lemma_cong_mod(vr.1);
    lemma_emul_cong(u, ur, z, z);
    lemma_emul_cong(x, x, v, vr);
    lemma_poly_assoc(x.0, x.1, y.0, y.1, z.0, z.1);
}

pub proof fn lemma_emul_distrib(x: ExtSpec, y: ExtSpec, z: ExtSpec)
    ensures
        emul(x, eadd(y, z)) == eadd(emul(x, y), emul(x, z)),
        emul(eadd(y, z), x) == eadd(emul(y, x), emul(z, x)),
{
    let s = eadd(y, z);
    let sr = (y.0 + z.0, y.1 + z.1);
    lemma_cong_mod(sr.0);
    lemma_cong_mod(sr.1);
    lemma_emul_cong(x, x, s, sr);
    let a = x.0 * y.0 + w() * (x.1 * y.1);
    let b = x.0 * z.0 + w() * (x.1 * z.1);
    let c = x.0 * y.1 + x.1 * y.0;
    let d = x.0 * z.1 + x.1 * z.0;
    lemma_cong_mod(a);
    lemma_cong_mod(b);
    lemma_cong_mod(c);
    lemma_cong_mod(d);
    lemma_cong_add(a % p(), a, b % p(), b);
    lemma_cong_add(c % p(), c, d % p(), d);
    lemma_poly_distrib(x.0, x.1, y.0, y.1, z.0, z.1, w());
    lemma_emul_comm(s, x);
    lemma_emul_comm(y, x);
    lemma_emul_comm(z, x);
}

/// An element has at most one canonical inverse.
pub proof fn lemma_inverse_unique(x: ExtSpec, y: ExtSpec, z: ExtSpec)
    requires
        ecanon(y),
        ecanon(z),
        emul(x, y) == eone(),
        emul(x, z) == eone(),
    ensures
        y == z,
{
    lemma_emul_one(y);
    lemma_emul_one(z);
    lemma_emul_assoc(y, x, z);
    lemma_emul_comm(y, x);
}

/// An element and its negation embed to opposite extension elements.
pub proof fn lemma_ebase_neg(m: int)
    ensures
        eadd(ebase(m), ebase(fneg(m))) == ezero(),
{
    lemma_cong_mod(m);
    lemma_cong_mod(-m);
    lemma_cong_mod(fneg(m));
    lemma_cong_add(m % p(), m, fneg(m) % p(), -m);
    assert(m + -m == 0);
    lemma_canon_mod(0);
}

/// Subtracting what was added gives back the canonical addend.
pub proof fn lemma_esub_eadd(a: ExtSpec, c: ExtSpec)
    requires
        ecanon(c),
    ensures
        esub(eadd(a, c), a) == c,
{
    lemma_cong_mod(a.0 + c.0);
    lemma_cong_mod(a.1 + c.1);
    lemma_cong_sub(fadd(a.0, c.0), a.0 + c.0, a.0, a.0);
    lemma_cong_sub(fadd(a.1, c.1), a.1 + c.1, a.1, a.1);
    assert(a.0 + c.0 - a.0 == c.0);
    assert(a.1 + c.1 - a.1 == c.1);
    lemma_canon_mod(c.0);
    lemma_canon_mod(c.1);
}

/// Sums and products are canonical.
pub proof fn lemma_results_canon(x: ExtSpec, y: ExtSpec)
    ensures
        ecanon(emul(x, y)),
        ecanon(eadd(x, y)),
        ecanon(esub(x, y)),
        ecanon(eone()),
        ecanon(ezero()),
{
    lemma_mod_bound(x.0 * y.0 + w() * (x.1 * y.1), p());
    lemma_mod_bound(x.0 * y.1 + x.1 * y.0, p());
    lemma_mod_bound(x.0 + y.0, p());
    lemma_mod_bound(x.1 + y.1, p());
    lemma_mod_bound(x.0 - y.0, p());
    lemma_mod_bound(x.1 - y.1, p());
}

pub proof fn lemma_ebase_canon(a: int)
    ensures
        ecanon(ebase(a)),
{
    lemma_mod_bound(a, p());
}

/// An invertible element's `einv` is a canonical inverse.
pub proof fn lemma_einv(x: ExtSpec)
    requires
        einvertible(x),
    ensures
        ecanon(einv(x)),
        emul(x, einv(x)) == eone(),
        emul(einv(x), x) == eone(),
{
    let y = choose|y: ExtSpec| emul(x, y) == eone();
    let yr = (y.0 % p(), y.1 % p());
    lemma_cong_mod(y.0);
    lemma_cong_mod(y.1);
    lemma_emul_cong(x, x, yr, y);
    lemma_mod_bound(y.0, p());
    lemma_mod_bound(y.1, p());
    assert(ecanon(yr) && emul(x, yr) == eone());
    lemma_emul_comm(x, einv(x));
}

/// The norm is multiplicative up to congruence.
proof fn lemma_norm_mul(x: ExtSpec, y: ExtSpec)
    ensures
        cong(norm(emul(x, y)), norm(x) * norm(y)),
{
    let u = emul(x, y);
    let u0 = x.0 * y.0 + w() * (x.1 * y.1);
    let u1 = x.0 * y.1 + x.1 * y.0;
    lemma_cong_mod(u0);
    lemma_cong_mod(u1);
    lemma_cong_mul(u.0, u0, u.0, u0);
    lemma_cong_mul(u.1, u1, u.1, u1);
    lemma_cong_mul(w(), w(), u.1 * u.1, u1 * u1);
    lemma_cong_sub(u.0 * u.0, u0 * u0, w() * (u.1 * u.1), w() * (u1 * u1));
    lemma_poly_norm(x.0, x.1, y.0, y.1);
}

/// An element of the extension field `F[X]/(X^2 - 11)`.
#[derive(Clone, Copy, Debug, PartialEq, Eq)]
pub struct ExtFelt {
    pub c0: Felt,
    pub c1: Felt,
}

impl View for ExtFelt {
    type V = ExtSpec;

    open spec fn view(&self) -> ExtSpec {
        (self.c0@, self.c1@)
    }
}

impl ExtFelt {
    pub fn zero() -> (r: ExtFelt)
        ensures
            r@ == ezero(),
    {
        ExtFelt { c0: Felt::zero(), c1: Felt::zero() }
    }

    pub fn one() -> (r: ExtFelt)
        ensures
            r@ == eone(),
    {
        ExtFelt { c0: Felt::one(), c1: Felt::zero() }
    }

    /// The embedding of the base field.
    pub fn from_base(b: Felt) -> (r: ExtFelt)
        ensures
            r@ == ebase(b@),
    {
        proof {
            lemma_mod_twice(b.val as int, p());
        }
        ExtFelt { c0: b, c1: Felt::zero() }
    }

    pub fn new(c0: u32, c1: u32) -> (r: ExtFelt)
        ensures
            r@ == ((c0 as int) % p(), (c1 as int) % p()),
    {
        ExtFelt { c0: Felt::new(c0), c1: Felt::new(c1) }
    }

    /// Equality of the elements, whatever the stored representatives.
    pub fn equals(&self, o: &ExtFelt) -> (r: bool)
        ensures
            r == (self@ == o@),
    {
        self.c0.value() == o.c0.value() && self.c1.value() == o.c1.value()
    }

    pub fn add(self, o: ExtFelt) -> (r: ExtFelt)
        ensures
            r@ == eadd(self@, o@),
    {
        ExtFelt { c0: self.c0.add(o.c0), c1: self.c1.add(o.c1) }
    }

    pub fn sub(self, o: ExtFelt) -> (r: ExtFelt)
        ensures
            r@ == esub(self@, o@),
    {
        ExtFelt { c0: self.c0.sub(o.c0), c1: self.c1.sub(o.c1) }
    }

    pub fn mul(self, o: ExtFelt) -> (r: ExtFelt)
        ensures
            r@ == emul(self@, o@),
    {
        let wf = Felt { val: EXT_W as u32 };
        let ghost x = self@;
        let ghost y = o@;
        let p00 = self.c0.mul(o.c0);
        let p11 = self.c1.mul(o.c1);
        let wp11 = wf.mul(p11);
        let c0 = p00.add(wp11);
        let c1 = self.c0.mul(o.c1).add(self.c1.mul(o.c0));
        proof {
            lemma_canon_w();
            lemma_cong_mod(x.0 * y.0);
            lemma_cong_mod(x.1 * y.1);
            lemma_cong_mod(w() * p11@);
            lemma_cong_mul(w(), w(), p11@, x.1 * y.1);
            lemma_cong_add(p00@, x.0 * y.0, wp11@, w() * (x.1 * y.1));
            lemma_cong_mod(x.0 * y.1);
            lemma_cong_mod(x.1 * y.0);
            lemma_cong_add((x.0 * y.1) % p(), x.0 * y.1, (x.1 * y.0) % p(), x.1 * y.0);
        }
        ExtFelt { c0, c1 }
    }

    /// The multiplicative inverse, through the norm: `(c0 - c1 X) / N`;
    /// `None` exactly when `self` has no inverse.
    pub fn inverse(self) -> (r: Option<ExtFelt>)
        ensures
            match r {
                Some(y) => emul(self@, y@) == eone() && y@ == einv(self@),
                None => !einvertible(self@),
            },
    {
        let ghost x = self@;
        let wf = Felt { val: EXT_W as u32 };
        let sq0 = self.c0.mul(self.c0);
        let sq1 = self.c1.mul(self.c1);
        let wsq1 = wf.mul(sq1);
        let n = sq0.sub(wsq1);
        proof {
            lemma_canon_w();
            lemma_cong_mod(x.0 * x.0);
            lemma_cong_mod(x.1 * x.1);
            lemma_cong_mod(w() * sq1@);
            lemma_cong_mul(w(), w(), sq1@, x.1 * x.1);
            lemma_cong_sub(sq0@, x.0 * x.0, wsq1@, w() * (x.1 * x.1));
            lemma_cong_mod(sq0@ - wsq1@);
            assert(cong(n@, norm(x)));
        }
        match n.inverse() {
            Some(ni) => {
                let nb = self.c1.neg();
                let y = ExtFelt { c0: self.c0.mul(ni), c1: nb.mul(ni) };
                proof {
                    let yr = (x.0 * ni@, (-x.1) * ni@);
                    lemma_cong_mod(x.0 * ni@);
                    lemma_cong_mod(nb@ * ni@);
                    lemma_cong_mod(-x.1);
                    lemma_cong_mul(nb@, -x.1, ni@, ni@);
                    lemma_emul_cong(x, x, y@, yr);
                    lemma_poly_conj(x.0, x.1, ni@, w());
                    lemma_cong_mul(norm(x), n@, ni@, ni@);
                    lemma_canon_mod(0);
                    assert(emul(x, y@) == eone());
                    let e = einv(x);
                    assert(ecanon(y@));
                    assert(ecanon(e) && emul(x, e) == eone());
                    lemma_inverse_unique(x, y@, e);
                }
                Some(y)
            },
            None => {
                proof {
                    if einvertible(x) {
                        let y = choose|y: ExtSpec| emul(x, y) == eone();
                        lemma_norm_mul(x, y);
                        lemma_canon_mod(1);
                        assert(norm(eone()) == 1) by (nonlinear_arith);
                        lemma_cong_mul(n@, norm(x), norm(y), norm(y));
                        assert(fmul(n@, norm(y)) == 1);
                    }
                }
                None
            },
        }
    }
}

} // verus!
