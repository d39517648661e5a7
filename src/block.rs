use vstd::prelude::*;
use vstd::math::abs;
use vstd::arithmetic::div_mod::{lemma_fundamental_div_mod, lemma_mod_pos_bound};

verus! {

/// The largest mass a block may have, so that the elastic-collision
/// numerators fit in 128 bits.
pub const MAX_MASS: u64 = 4611686018427387904;

/// One block on the line: its left edge, velocity, mass and width.
#[derive(Clone, Copy, Debug, Default, PartialEq, Eq)]
pub struct Block {
    pub pos: i64,
    pub vel: i64,
    pub mass: u64,
    pub size: u64,
}

/// `n / d` rounded toward zero, for `d > 0`.
pub open spec fn div_toward_zero(n: int, d: int) -> int {
    if n >= 0 {
        n / d
    } else {
        -((-n) / d)
    }
}

/// Saturates a velocity into the symmetric range `[-i64::MAX, i64::MAX]`.
pub open spec fn clamp_vel(x: int) -> int {
    if x > i64::MAX {
        i64::MAX as int
    } else if x < -(i64::MAX as int) {
        -(i64::MAX as int)
    } else {
        x
    }
}

/// Saturates a position into the range of `i64`.
pub open spec fn clamp_pos(x: int) -> int {
    if x > i64::MAX {
        i64::MAX as int
    } else if x < i64::MIN {
        i64::MIN as int
    } else {
        x
    }
}

impl Block {
    /// A block the collision rules accept: positive mass no larger than
    /// `MAX_MASS`, and a velocity whose negation is representable.
    pub open spec fn wf(self) -> bool {
        0 < self.mass <= MAX_MASS && self.vel >= -(i64::MAX as int)
    }

    /// Right edge of the occupied interval.
    pub open spec fn right_edge(self) -> int {
        self.pos + self.size
    }

    /// `(m1 + m2) * v1'` for the exact elastic outcome of `self` hitting `other`.
    pub open spec fn elastic_numerator(self, other: Block) -> int {
        (self.mass - other.mass) * self.vel + 2 * other.mass * other.vel
    }

    /// Velocity of `self` after an elastic collision with `other`, both
    /// taken before the collision, rounded toward zero and saturated.
    pub open spec fn bounced_vel(self, other: Block) -> int {
        clamp_vel(div_toward_zero(self.elastic_numerator(other), self.mass + other.mass))
    }

    pub open spec fn with_vel(self, v: int) -> Block {
        Block { pos: self.pos, vel: v as i64, mass: self.mass, size: self.size }
    }

    /// The block after meeting a wall at `wall_pos`: reversed if it has reached it.
    pub open spec fn reflected(self, wall_pos: int) -> Block {
        if self.pos <= wall_pos {
            self.with_vel(-self.vel)
        } else {
            self
        }
    }

    /// The block after moving for `dt` time units.
    pub open spec fn moved(self, dt: int) -> Block {
        Block {
            pos: clamp_pos(self.pos + self.vel * dt) as i64,
            vel: self.vel,
            mass: self.mass,
            size: self.size,
        }
    }

    pub fn new(pos: i64, vel: i64, mass: u64, size: u64) -> (r: Block)
        ensures
            r == (Block { pos, vel, mass, size }),
    {
        Block { pos, vel, mass, size }
    }

    /// Whether the block meets `wf`.
    pub fn is_valid(&self) -> (r: bool)
        ensures
            r == self.wf(),
    {
        0 < self.mass && self.mass <= MAX_MASS && self.vel >= -i64::MAX
    }

    /// Moves the block by `vel * dt`, saturating at the bounds of `i64`.
    pub fn update_pos(&mut self, dt: u64)
        ensures
            *final(self) == old(self).moved(dt as int),
    {
        let v = self.vel as i128;
        let t = dt as i128;
        assert(-0x8000_0000_0000_0000 * 0xffff_ffff_ffff_ffff <= v * t
            <= 0x7fff_ffff_ffff_ffff * 0xffff_ffff_ffff_ffff) by (nonlinear_arith)
            requires
                -0x8000_0000_0000_0000 <= v <= 0x7fff_ffff_ffff_ffff,
                0 <= t <= 0xffff_ffff_ffff_ffff,
        ;
        let p = self.pos as i128 + v * t;
        self.pos = if p > i64::MAX as i128 {
            i64::MAX
        } else if p < i64::MIN as i128 {
            i64::MIN
        } else {
            p as i64
        };
    }

    /// Post-collision velocity of `self` against `other`, from both
    /// pre-collision velocities: `((m1 - m2) * v1 + 2 * m2 * v2) / (m1 + m2)`.
    pub fn bounce(&self, other: &Block) -> (r: i64)
        requires
            self.wf(),
            other.wf(),
        ensures
            r == self.bounced_vel(*other),
            r >= -(i64::MAX as int),
    {
        let m1 = self.mass as i128;
        let m2 = other.mass as i128;
        let v1 = self.vel as i128;
        let v2 = other.vel as i128;
        assert(-0x4000_0000_0000_0000 * 0x8000_0000_0000_0000 <= (m1 - m2) * v1
            <= 0x4000_0000_0000_0000 * 0x8000_0000_0000_0000) by (nonlinear_arith)
            requires
                -0x4000_0000_0000_0000 <= m1 - m2 <= 0x4000_0000_0000_0000,
                -0x8000_0000_0000_0000 <= v1 <= 0x8000_0000_0000_0000,
        ;
        assert(-0x8000_0000_0000_0000 * 0x8000_0000_0000_0000 <= (2 * m2) * v2
            <= 0x8000_0000_0000_0000 * 0x8000_0000_0000_0000) by (nonlinear_arith)
            requires
                0 <= 2 * m2 <= 0x8000_0000_0000_0000,
                -0x8000_0000_0000_0000 <= v2 <= 0x8000_0000_0000_0000,
        ;
        let num: i128 = (m1 - m2) * v1 + (2 * m2) * v2;
        let total: u128 = (m1 + m2) as u128;
        let q: i128 = if num >= 0 {
            ((num as u128) / total) as i128
        } else {
            -(((-num) as u128 / total) as i128)
        };
        assert(num == self.elastic_numerator(*other)) by (nonlinear_arith)
            requires
                num == (m1 - m2) * v1 + (2 * m2) * v2,
                m1 == self.mass,
                m2 == other.mass,
                v1 == self.vel,
                v2 == other.vel,
        ;
        if q > i64::MAX as i128 {
            i64::MAX
        } else if q < -(i64::MAX as i128) {
            -i64::MAX
        } else {
            q as i64
        }
    }

    /// Reverses the velocity if the left edge has reached or passed
    /// `wall_pos`, and says whether it did.
    pub fn hit_wall(&mut self, wall_pos: i64) -> (r: bool)
        requires
            old(self).vel >= -(i64::MAX as int),
        ensures
            r == (old(self).pos <= wall_pos),
            *final(self) == old(self).reflected(wall_pos as int),
            final(self).vel == old(self).vel || final(self).vel == -old(self).vel,
            abs(final(self).vel as int) == abs(old(self).vel as int),
    {
        if self.pos <= wall_pos {
            self.vel = -self.vel;
            true
        } else {
            false
        }
    }
}

/// Momentum of the pair.
pub open spec fn momentum(a: Block, b: Block) -> int {
    a.mass * a.vel + b.mass * b.vel
}

/// Twice the kinetic energy of the pair.
pub open spec fn energy(a: Block, b: Block) -> int {
    a.mass * a.vel * a.vel + b.mass * b.vel * b.vel
}

/// Neither rounded post-collision velocity needed saturating.
pub open spec fn unsaturated(a: Block, b: Block) -> bool {
    let m = a.mass + b.mass;
    -(i64::MAX as int) <= div_toward_zero(a.elastic_numerator(b), m) <= i64::MAX
        && -(i64::MAX as int) <= div_toward_zero(b.elastic_numerator(a), m) <= i64::MAX
}

proof fn lemma_numerator_centre_of_mass(m1: int, v1: int, m2: int, v2: int)
    ensures
        (m1 - m2) * v1 + 2 * m2 * v2 == 2 * (m1 * v1 + m2 * v2) - (m1 + m2) * v1,
{
    assert((m1 - m2) * v1 == m1 * v1 - m2 * v1) by (nonlinear_arith);
    assert((m1 + m2) * v1 == m1 * v1 + m2 * v1) by (nonlinear_arith);
    assert(2 * m2 * v2 == 2 * (m2 * v2)) by (nonlinear_arith);
}

proof fn lemma_ring_momentum(m1: int, v1: int, m2: int, v2: int)
    ensures
        m1 * ((m1 - m2) * v1 + 2 * m2 * v2) + m2 * ((m2 - m1) * v2 + 2 * m1 * v1) == (m1 + m2)
            * (m1 * v1 + m2 * v2),
{
    let p = m1 * v1 + m2 * v2;
    let m = m1 + m2;
    lemma_numerator_centre_of_mass(m1, v1, m2, v2);
    lemma_numerator_centre_of_mass(m2, v2, m1, v1);
    assert(m1 * (2 * p - m * v1) == 2 * p * m1 - m * (m1 * v1)) by (nonlinear_arith);
    assert(m2 * (2 * p - m * v2) == 2 * p * m2 - m * (m2 * v2)) by (nonlinear_arith);
    assert(2 * p * m1 + 2 * p * m2 == 2 * p * m) by (nonlinear_arith)
        requires
            m == m1 + m2,
    ;
    assert(m * (m1 * v1) + m * (m2 * v2) == m * p) by (nonlinear_arith)
        requires
            p == m1 * v1 + m2 * v2,
    ;
    assert(2 * p * m - m * p == m * p) by (nonlinear_arith);
}

proof fn lemma_square_term(mi: int, p: int, m: int, v: int)
    ensures
        mi * (2 * p - m * v) * (2 * p - m * v) == 4 * (p * p) * mi - 4 * (p * m) * (mi * v) + (m
            * m) * (mi * v * v),
{
    let w = m * v;
    assert((2 * p - w) * (2 * p - w) == 4 * (p * p) - 4 * (p * w) + w * w) by (nonlinear_arith);
    assert(mi * (2 * p - w) * (2 * p - w) == mi * ((2 * p - w) * (2 * p - w))) by (
    nonlinear_arith);
    assert(mi * (4 * (p * p) - 4 * (p * w) + w * w) == 4 * (p * p) * mi - 4 * (mi * (p * w)) + mi
        * (w * w)) by (nonlinear_arith);
    assert(mi * (p * w) == (p * m) * (mi * v)) by (nonlinear_arith)
        requires
            w == m * v,
    ;
    assert(mi * (w * w) == (m * m) * (mi * v * v)) by (nonlinear_arith)
        requires
            w == m * v,
    ;
    assert(4 * (p * m) * (mi * v) == 4 * ((p * m) * (mi * v))) by (nonlinear_arith);
    assert(mi * (4 * (p * p)) == 4 * (p * p) * mi) by (nonlinear_arith);
}

proof fn lemma_ring_energy(m1: int, v1: int, m2: int, v2: int)
    ensures
        m1 * ((m1 - m2) * v1 + 2 * m2 * v2) * ((m1 - m2) * v1 + 2 * m2 * v2) + m2 * ((m2 - m1)
            * v2 + 2 * m1 * v1) * ((m2 - m1) * v2 + 2 * m1 * v1) == (m1 + m2) * (m1 + m2) * (m1
            * v1 * v1 + m2 * v2 * v2),
{
    let p = m1 * v1 + m2 * v2;
    let m = m1 + m2;
    let pp = p * p;
    let pm = p * m;
    let mm = m * m;
    lemma_numerator_centre_of_mass(m1, v1, m2, v2);
    lemma_numerator_centre_of_mass(m2, v2, m1, v1);
    assert(m2 * v2 + m1 * v1 == p);
    assert(m2 + m1 == m);
    lemma_square_term(m1, p, m, v1);
    lemma_square_term(m2, p, m, v2);
    assert(4 * pp * m1 + 4 * pp * m2 == 4 * pp * m) by (nonlinear_arith)
        requires
            m == m1 + m2,
    ;
    assert(4 * pm * (m1 * v1) + 4 * pm * (m2 * v2) == 4 * pm * p) by (nonlinear_arith)
        requires
            p == m1 * v1 + m2 * v2,
    ;
    assert(4 * pp * m == 4 * pm * p) by (nonlinear_arith)
        requires
            pp == p * p,
            pm == p * m,
    ;
    assert(mm * (m1 * v1 * v1) + mm * (m2 * v2 * v2) == mm * (m1 * v1 * v1 + m2 * v2 * v2)) by (
    nonlinear_arith);
}

/// The exact elastic outcome conserves momentum and kinetic energy: with
/// `M = m1 + m2` and the exact velocities `A / M` and `B / M`,
/// `m1 * A + m2 * B == M * p` and `m1 * A^2 + m2 * B^2 == M^2 * e`.
pub proof fn lemma_elastic_formula_conserves(a: Block, b: Block)
    ensures
        a.mass * a.elastic_numerator(b) + b.mass * b.elastic_numerator(a) == (a.mass + b.mass)
            * momentum(a, b),
        a.mass * a.elastic_numerator(b) * a.elastic_numerator(b) + b.mass * b.elastic_numerator(a)
            * b.elastic_numerator(a) == (a.mass + b.mass) * (a.mass + b.mass) * energy(a, b),
{
    lemma_ring_momentum(a.mass as int, a.vel as int, b.mass as int, b.vel as int);
    lemma_ring_energy(a.mass as int, a.vel as int, b.mass as int, b.vel as int);
}

/// Rounding toward zero leaves a remainder smaller than the divisor, of the
/// dividend's sign.
pub proof fn lemma_div_toward_zero_remainder(n: int, d: int)
    requires
        d > 0,
    ensures
        n >= 0 ==> 0 <= n - d * div_toward_zero(n, d) < d,
        n < 0 ==> -d < n - d * div_toward_zero(n, d) <= 0,
        n >= 0 ==> div_toward_zero(n, d) >= 0,
        n < 0 ==> div_toward_zero(n, d) <= 0,
{
    if n >= 0 {
        lemma_fundamental_div_mod(n, d);
        lemma_mod_pos_bound(n, d);
        assert(n / d >= 0) by (nonlinear_arith)
            requires
                n == d * (n / d) + n % d,
                0 <= n % d < d,
                n >= 0,
                d > 0,
        ;
    } else {
        lemma_fundamental_div_mod(-n, d);
        lemma_mod_pos_bound(-n, d);
        assert((-n) / d >= 0) by (nonlinear_arith)
            requires
                -n == d * ((-n) / d) + (-n) % d,
                0 <= (-n) % d < d,
                -n >= 0,
                d > 0,
        ;
        assert(d * (-((-n) / d)) == -(d * ((-n) / d))) by (nonlinear_arith);
    }
}

/// Rounding each post-collision velocity toward zero moves the total
/// momentum by less than the total mass (one velocity unit per mass unit).
pub proof fn lemma_bounce_momentum(a: Block, b: Block)
    requires
        a.wf(),
        b.wf(),
        unsaturated(a, b),
    ensures
        abs(a.mass * a.bounced_vel(b) + b.mass * b.bounced_vel(a) - momentum(a, b)) < a.mass
            + b.mass,
{
    let m = a.mass + b.mass;
    let na = a.elastic_numerator(b);
    let nb = b.elastic_numerator(a);
    let qa = div_toward_zero(na, m);
    let qb = div_toward_zero(nb, m);
    lemma_div_toward_zero_remainder(na, m);
    lemma_div_toward_zero_remainder(nb, m);
    lemma_elastic_formula_conserves(a, b);
    let ra = na - m * qa;
    let rb = nb - m * qb;
    let p = momentum(a, b);
    let p2 = a.mass * qa + b.mass * qb;
    assert(-m < ra < m && -m < rb < m);
    assert(m * p2 == m * p - (a.mass * ra + b.mass * rb)) by (nonlinear_arith)
        requires
            a.mass * na + b.mass * nb == m * p,
            ra == na - m * qa,
            rb == nb - m * qb,
            p2 == a.mass * qa + b.mass * qb,
            m == a.mass + b.mass,
    ;
    assert(abs(p2 - p) < m) by (nonlinear_arith)
        requires
            m * p2 == m * p - (a.mass * ra + b.mass * rb),
            -m < ra < m,
            -m < rb < m,
            a.mass > 0,
            b.mass > 0,
            m == a.mass + b.mass,
    ;
}

proof fn lemma_rounded_energy_term(mi: int, m: int, n: int, q: int)
    requires
        mi > 0,
        m > 0,
        n >= 0 ==> 0 <= n - m * q < m,
        n < 0 ==> -m < n - m * q <= 0,
        n >= 0 ==> q >= 0,
        n < 0 ==> q <= 0,
    ensures
        0 <= mi * n * n - m * m * (mi * q * q),
        mi * n * n - m * m * (mi * q * q) < 2 * m * m * (mi * abs(q) + mi),
{
    let r = n - m * q;
    let s = m * q;
    assert(m * m * (mi * q * q) == mi * (s * s)) by (nonlinear_arith)
        requires
            s == m * q,
    ;
    assert(mi * n * n - mi * (s * s) == mi * (r * (2 * n - r))) by (nonlinear_arith)
        requires
            s == n - r,
    ;
    if n >= 0 {
        assert(0 <= mi * (r * (2 * n - r)) < 2 * m * m * (mi * q + mi)) by (nonlinear_arith)
            requires
                mi > 0,
                m > 0,
                0 <= r < m,
                r == n - m * q,
                q >= 0,
        ;
    } else {
        assert(0 <= mi * (r * (2 * n - r)) < 2 * m * m * (mi * (-q) + mi)) by (nonlinear_arith)
            requires
                mi > 0,
                m > 0,
                -m < r <= 0,
                r == n - m * q,
                q <= 0,
        ;
    }
}

/// Rounding each post-collision velocity toward zero never adds kinetic
/// energy, and removes less than `2 * (m1 * |v1'| + m2 * |v2'| + m1 + m2)`
/// of twice the kinetic energy.
pub proof fn lemma_bounce_energy(a: Block, b: Block)
    requires
        a.wf(),
        b.wf(),
        unsaturated(a, b),
    ensures
        energy(a.with_vel(a.bounced_vel(b)), b.with_vel(b.bounced_vel(a))) <= energy(a, b),
        energy(a, b) - energy(a.with_vel(a.bounced_vel(b)), b.with_vel(b.bounced_vel(a))) < 2 * (
        a.mass * abs(a.bounced_vel(b)) + b.mass * abs(b.bounced_vel(a)) + a.mass + b.mass),
{
    let m = a.mass + b.mass;
    let na = a.elastic_numerator(b);
    let nb = b.elastic_numerator(a);
    let qa = div_toward_zero(na, m);
    let qb = div_toward_zero(nb, m);
    lemma_div_toward_zero_remainder(na, m);
    lemma_div_toward_zero_remainder(nb, m);
    lemma_elastic_formula_conserves(a, b);
    lemma_rounded_energy_term(a.mass as int, m, na, qa);
    lemma_rounded_energy_term(b.mass as int, m, nb, qb);
    let e = energy(a, b);
    let e2 = a.mass * qa * qa + b.mass * qb * qb;
    let t = a.mass * abs(qa) + a.mass + b.mass * abs(qb) + b.mass;
    assert(energy(a.with_vel(a.bounced_vel(b)), b.with_vel(b.bounced_vel(a))) == e2);
    let d = m * m * e - m * m * e2;
    assert(d == (a.mass * na * na - m * m * (a.mass * qa * qa)) + (b.mass * nb * nb - m * m * (
    b.mass * qb * qb))) by (nonlinear_arith)
        requires
            a.mass * na * na + b.mass * nb * nb == m * m * e,
            e2 == a.mass * qa * qa + b.mass * qb * qb,
            d == m * m * e - m * m * e2,
    ;
    assert(2 * m * m * (a.mass * abs(qa) + a.mass) + 2 * m * m * (b.mass * abs(qb) + b.mass) == 2
        * m * m * t) by (nonlinear_arith)
        requires
            t == a.mass * abs(qa) + a.mass + b.mass * abs(qb) + b.mass,
    ;
    assert(0 <= e - e2 < 2 * t) by (nonlinear_arith)
        requires
            d == m * m * e - m * m * e2,
            0 <= d,
            d < 2 * m * m * t,
            m > 0,
    ;
}

/// Blocks of equal mass exchange their velocities.
pub proof fn lemma_equal_mass_exchange(a: Block, b: Block)
    requires
        a.wf(),
        b.wf(),
        a.mass == b.mass,
    ensures
        a.bounced_vel(b) == b.vel,
        b.bounced_vel(a) == a.vel,
{
    let m = a.mass as int;
    assert(a.elastic_numerator(b) == (2 * m) * b.vel) by (nonlinear_arith)
        requires
            a.mass == m,
            b.mass == m,
    ;
    assert(b.elastic_numerator(a) == (2 * m) * a.vel) by (nonlinear_arith)
        requires
            a.mass == m,
            b.mass == m,
    ;
    lemma_exact_quotient(b.vel as int, 2 * m);
    lemma_exact_quotient(a.vel as int, 2 * m);
}

proof fn lemma_exact_quotient(v: int, d: int)
    requires
        d > 0,
    ensures
        div_toward_zero(d * v, d) == v,
{
    lemma_div_toward_zero_remainder(d * v, d);
    let q = div_toward_zero(d * v, d);
    assert(q == v) by (nonlinear_arith)
        requires
            d > 0,
            d * v >= 0 ==> 0 <= d * v - d * q < d,
            d * v < 0 ==> -d < d * v - d * q <= 0,
    ;
}

} // verus!
