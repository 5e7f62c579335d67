//! A small path-tracing renderer, verified with Verus.
//!
//! The scene geometry and all colour arithmetic are carried out in a
//! fixed-point representation of the reals: a scalar is an `i64` holding
//! the intended value times [`fx::ONE`].  Every arithmetic step of the
//! pipeline — vector algebra, ray evaluation, the quadratic sphere
//! intersection, nearest-hit selection over a scene, and the camera's
//! jittered sampling with recursive diffuse shading — is specified
//! exactly over that representation and proved against its
//! specification, so a render is a mathematical function of the camera,
//! the scene and the random seed.

pub mod camera;
pub mod fx;
pub mod hit;
pub mod ray;
pub mod rng;
pub mod sphere;

use vstd::prelude::*;

verus! {

use crate::fx::{
    fx_div, fx_div_s, fx_mul, fx_mul_s, fx_sqrt, fx_sqrt_s, i64_fits, iabs, lemma_fx_div_bound,
    lemma_fx_mul_bound, lemma_sign_cases, lemma_sqrt_floor_mono, lemma_sqrt_floor_unique,
    COORD_MAX, ONE,
};
use vstd::string::StringExecFns;

/// Mathematical view of a [`Vec3`]: the three components as unbounded
/// integers (raw fixed-point units).
pub struct Vec3s {
    pub x: int,
    pub y: int,
    pub z: int,
}

/// A three-component vector of fixed-point scalars; also used for
/// points in space and for colours.
#[derive(Clone, Copy, Debug, PartialEq, Eq, Structural)]
pub struct Vec3 {
    pub x: i64,
    pub y: i64,
    pub z: i64,
}

/// A location in space.
pub type Point3 = Vec3;

/// A colour with red, green and blue components; the range from black
/// to full intensity is `0 ..= ONE`.
pub type Colour = Vec3;

impl View for Vec3 {
    type V = Vec3s;

    open spec fn view(&self) -> Vec3s {
        Vec3s { x: self.x as int, y: self.y as int, z: self.z as int }
    }
}

/// Component-wise sum.
pub open spec fn v_add(a: Vec3s, b: Vec3s) -> Vec3s {
    Vec3s { x: a.x + b.x, y: a.y + b.y, z: a.z + b.z }
}

/// Component-wise difference.
pub open spec fn v_sub(a: Vec3s, b: Vec3s) -> Vec3s {
    Vec3s { x: a.x - b.x, y: a.y - b.y, z: a.z - b.z }
}

/// Component-wise negation.
pub open spec fn v_neg(a: Vec3s) -> Vec3s {
    Vec3s { x: -a.x, y: -a.y, z: -a.z }
}

/// Component-wise fixed-point product.
pub open spec fn v_mul(a: Vec3s, b: Vec3s) -> Vec3s {
    Vec3s { x: fx_mul_s(a.x, b.x), y: fx_mul_s(a.y, b.y), z: fx_mul_s(a.z, b.z) }
}

/// Component-wise fixed-point quotient.
pub open spec fn v_div(a: Vec3s, b: Vec3s) -> Vec3s {
    Vec3s { x: fx_div_s(a.x, b.x), y: fx_div_s(a.y, b.y), z: fx_div_s(a.z, b.z) }
}

/// The vector scaled by the fixed-point scalar `t`.
pub open spec fn v_scale(t: int, a: Vec3s) -> Vec3s {
    Vec3s { x: fx_mul_s(t, a.x), y: fx_mul_s(t, a.y), z: fx_mul_s(t, a.z) }
}

/// The vector divided by the fixed-point scalar `t`.
pub open spec fn v_div_t(a: Vec3s, t: int) -> Vec3s {
    Vec3s { x: fx_div_s(a.x, t), y: fx_div_s(a.y, t), z: fx_div_s(a.z, t) }
}

/// Fixed-point dot product, summed left to right.
pub open spec fn v_dot(a: Vec3s, b: Vec3s) -> int {
    fx_mul_s(a.x, b.x) + fx_mul_s(a.y, b.y) + fx_mul_s(a.z, b.z)
}

/// Fixed-point cross product.
pub open spec fn v_cross(a: Vec3s, b: Vec3s) -> Vec3s {
    Vec3s {
        x: fx_mul_s(a.y, b.z) - fx_mul_s(a.z, b.y),
        y: fx_mul_s(a.z, b.x) - fx_mul_s(a.x, b.z),
        z: fx_mul_s(a.x, b.y) - fx_mul_s(a.y, b.x),
    }
}

/// Squared length: the dot product of a vector with itself.
pub open spec fn v_len_sq(a: Vec3s) -> int {
    v_dot(a, a)
}

/// Fixed-point length.
pub open spec fn v_len(a: Vec3s) -> int {
    fx_sqrt_s(v_len_sq(a))
}

/// The vector rescaled to unit length by dividing each component by
/// the length.
pub open spec fn v_unit(a: Vec3s) -> Vec3s {
    v_div_t(a, v_len(a))
}

/// Every component within the coordinate range of the library.
pub open spec fn v_in_range(a: Vec3s) -> bool {
    iabs(a.x) <= COORD_MAX as int && iabs(a.y) <= COORD_MAX as int && iabs(a.z) <= COORD_MAX as int
}

/// Every component within twice the unit scale: the loose range in
/// which a normalized vector is accepted.
pub open spec fn v_unitish(a: Vec3s) -> bool {
    iabs(a.x) <= 2 * (ONE as int) && iabs(a.y) <= 2 * (ONE as int) && iabs(a.z) <= 2 * (ONE as int)
}

/// A fixed-point square is never negative.
pub proof fn lemma_fx_square_nonneg(x: int)
    ensures
        0 <= fx_mul_s(x, x),
{
    lemma_sign_cases(x, x);
    vstd::arithmetic::div_mod::lemma_div_is_ordered(0, iabs(x * x), 65536);
}

/// The squared length of a vector is never negative.
pub proof fn lemma_len_sq_nonneg(a: Vec3s)
    ensures
        0 <= v_len_sq(a),
{
    lemma_fx_square_nonneg(a.x);
    lemma_fx_square_nonneg(a.y);
    lemma_fx_square_nonneg(a.z);
}

impl Vec3 {
    /// A vector from its three components.
    pub fn new(x: i64, y: i64, z: i64) -> (r: Self)
        ensures
            r@ == (Vec3s { x: x as int, y: y as int, z: z as int }),
    {
        Self { x, y, z }
    }

    /// Component-wise sum.
    pub fn add(self, rhs: Vec3) -> (r: Vec3)
        requires
            i64_fits(self@.x + rhs@.x),
            i64_fits(self@.y + rhs@.y),
            i64_fits(self@.z + rhs@.z),
        ensures
            r@ == v_add(self@, rhs@),
    {
        Self { x: self.x + rhs.x, y: self.y + rhs.y, z: self.z + rhs.z }
    }

    /// Component-wise sum, in place.
    pub fn add_assign(&mut self, rhs: Vec3)
        requires
            i64_fits(old(self)@.x + rhs@.x),
            i64_fits(old(self)@.y + rhs@.y),
            i64_fits(old(self)@.z + rhs@.z),
        ensures
            final(self)@ == v_add(old(self)@, rhs@),
    {
        self.x = self.x + rhs.x;
        self.y = self.y + rhs.y;
        self.z = self.z + rhs.z;
    }

    /// Component-wise difference.
    pub fn sub(self, rhs: Vec3) -> (r: Vec3)
        requires
            i64_fits(self@.x - rhs@.x),
            i64_fits(self@.y - rhs@.y),
            i64_fits(self@.z - rhs@.z),
        ensures
            r@ == v_sub(self@, rhs@),
    {
        Self { x: self.x - rhs.x, y: self.y - rhs.y, z: self.z - rhs.z }
    }

    /// Component-wise difference, in place.
    pub fn sub_assign(&mut self, rhs: Vec3)
        requires
            i64_fits(old(self)@.x - rhs@.x),
            i64_fits(old(self)@.y - rhs@.y),
            i64_fits(old(self)@.z - rhs@.z),
        ensures
            final(self)@ == v_sub(old(self)@, rhs@),
    {
        self.x = self.x - rhs.x;
        self.y = self.y - rhs.y;
        self.z = self.z - rhs.z;
    }

    /// Negation.
    pub fn neg(self) -> (r: Vec3)
        requires
            i64_fits(-self@.x),
            i64_fits(-self@.y),
            i64_fits(-self@.z),
        ensures
            r@ == v_neg(self@),
    {
        Self { x: -self.x, y: -self.y, z: -self.z }
    }

    /// Component-wise fixed-point product.
    pub fn mul(self, rhs: Vec3) -> (r: Vec3)
        requires
            i64_fits(fx_mul_s(self@.x, rhs@.x)),
            i64_fits(fx_mul_s(self@.y, rhs@.y)),
            i64_fits(fx_mul_s(self@.z, rhs@.z)),
        ensures
            r@ == v_mul(self@, rhs@),
    {
        Self { x: fx_mul(self.x, rhs.x), y: fx_mul(self.y, rhs.y), z: fx_mul(self.z, rhs.z) }
    }

    /// Component-wise fixed-point product, in place.
    pub fn mul_assign(&mut self, rhs: Vec3)
        requires
            i64_fits(fx_mul_s(old(self)@.x, rhs@.x)),
            i64_fits(fx_mul_s(old(self)@.y, rhs@.y)),
            i64_fits(fx_mul_s(old(self)@.z, rhs@.z)),
        ensures
            final(self)@ == v_mul(old(self)@, rhs@),
    {
        self.x = fx_mul(self.x, rhs.x);
        self.y = fx_mul(self.y, rhs.y);
        self.z = fx_mul(self.z, rhs.z);
    }

    /// Component-wise fixed-point quotient.
    pub fn div(self, rhs: Vec3) -> (r: Vec3)
        requires
            rhs@.x != 0 && rhs@.y != 0 && rhs@.z != 0,
            i64_fits(fx_div_s(self@.x, rhs@.x)),
            i64_fits(fx_div_s(self@.y, rhs@.y)),
            i64_fits(fx_div_s(self@.z, rhs@.z)),
        ensures
            r@ == v_div(self@, rhs@),
    {
        Self { x: fx_div(self.x, rhs.x), y: fx_div(self.y, rhs.y), z: fx_div(self.z, rhs.z) }
    }

    /// Component-wise fixed-point quotient, in place.
    pub fn div_assign(&mut self, rhs: Vec3)
        requires
            rhs@.x != 0 && rhs@.y != 0 && rhs@.z != 0,
            i64_fits(fx_div_s(old(self)@.x, rhs@.x)),
            i64_fits(fx_div_s(old(self)@.y, rhs@.y)),
            i64_fits(fx_div_s(old(self)@.z, rhs@.z)),
        ensures
            final(self)@ == v_div(old(self)@, rhs@),
    {
        self.x = fx_div(self.x, rhs.x);
        self.y = fx_div(self.y, rhs.y);
        self.z = fx_div(self.z, rhs.z);
    }

    /// The vector scaled by the fixed-point scalar `t`.
    pub fn mul_t(self, t: i64) -> (r: Vec3)
        requires
            i64_fits(fx_mul_s(t as int, self@.x)),
            i64_fits(fx_mul_s(t as int, self@.y)),
            i64_fits(fx_mul_s(t as int, self@.z)),
        ensures
            r@ == v_scale(t as int, self@),
    {
        Self { x: fx_mul(t, self.x), y: fx_mul(t, self.y), z: fx_mul(t, self.z) }
    }

    /// The vector scaled by the fixed-point scalar `t`, in place.
    pub fn mul_assign_t(&mut self, t: i64)
        requires
            i64_fits(fx_mul_s(t as int, old(self)@.x)),
            i64_fits(fx_mul_s(t as int, old(self)@.y)),
            i64_fits(fx_mul_s(t as int, old(self)@.z)),
        ensures
            final(self)@ == v_scale(t as int, old(self)@),
    {
        self.x = fx_mul(t, self.x);
        self.y = fx_mul(t, self.y);
        self.z = fx_mul(t, self.z);
    }

    /// The vector divided by the fixed-point scalar `t`.
    pub fn div_t(self, t: i64) -> (r: Vec3)
        requires
            t != 0,
            i64_fits(fx_div_s(self@.x, t as int)),
            i64_fits(fx_div_s(self@.y, t as int)),
            i64_fits(fx_div_s(self@.z, t as int)),
        ensures
            r@ == v_div_t(self@, t as int),
    {
        Self { x: fx_div(self.x, t), y: fx_div(self.y, t), z: fx_div(self.z, t) }
    }

    /// The vector divided by the fixed-point scalar `t`, in place.
    pub fn div_assign_t(&mut self, t: i64)
        requires
            t != 0,
            i64_fits(fx_div_s(old(self)@.x, t as int)),
            i64_fits(fx_div_s(old(self)@.y, t as int)),
            i64_fits(fx_div_s(old(self)@.z, t as int)),
        ensures
            final(self)@ == v_div_t(old(self)@, t as int),
    {
        self.x = fx_div(self.x, t);
        self.y = fx_div(self.y, t);
        self.z = fx_div(self.z, t);
    }

    /// Fixed-point cross product.
    pub fn cross(self, other: Vec3) -> (r: Vec3)
        requires
            i64_fits(fx_mul_s(self@.y, other@.z)),
            i64_fits(fx_mul_s(self@.z, other@.y)),
            i64_fits(fx_mul_s(self@.z, other@.x)),
            i64_fits(fx_mul_s(self@.x, other@.z)),
            i64_fits(fx_mul_s(self@.x, other@.y)),
            i64_fits(fx_mul_s(self@.y, other@.x)),
            i64_fits(fx_mul_s(self@.y, other@.z) - fx_mul_s(self@.z, other@.y)),
            i64_fits(fx_mul_s(self@.z, other@.x) - fx_mul_s(self@.x, other@.z)),
            i64_fits(fx_mul_s(self@.x, other@.y) - fx_mul_s(self@.y, other@.x)),
        ensures
            r@ == v_cross(self@, other@),
    {
        Self {
            x: fx_mul(self.y, other.z) - fx_mul(self.z, other.y),
            y: fx_mul(self.z, other.x) - fx_mul(self.x, other.z),
            z: fx_mul(self.x, other.y) - fx_mul(self.y, other.x),
        }
    }

    /// Fixed-point squared length.
    pub fn length_squared(&self) -> (r: i64)
        requires
            i64_fits(fx_mul_s(self@.x, self@.x)),
            i64_fits(fx_mul_s(self@.y, self@.y)),
            i64_fits(fx_mul_s(self@.z, self@.z)),
            i64_fits(v_len_sq(self@)),
        ensures
            r == v_len_sq(self@),
            0 <= r,
    {
        proof {
            lemma_fx_square_nonneg(self@.x);
            lemma_fx_square_nonneg(self@.y);
            lemma_fx_square_nonneg(self@.z);
        }
        fx_mul(self.x, self.x) + fx_mul(self.y, self.y) + fx_mul(self.z, self.z)
    }

    /// Fixed-point length: the square root of the squared length.
    pub fn length(&self) -> (r: i64)
        requires
            i64_fits(fx_mul_s(self@.x, self@.x)),
            i64_fits(fx_mul_s(self@.y, self@.y)),
            i64_fits(fx_mul_s(self@.z, self@.z)),
            i64_fits(v_len_sq(self@)),
        ensures
            r == v_len(self@),
            0 <= r,
    {
        fx_sqrt(self.length_squared())
    }

    /// Is every component within the coordinate range of the library?
    pub fn in_range(&self) -> (r: bool)
        ensures
            r == v_in_range(self@),
    {
        -50331648 <= self.x && self.x <= 50331648 && -50331648 <= self.y && self.y <= 50331648
            && -50331648 <= self.z && self.z <= 50331648
    }

    /// Is every component within twice the unit scale?
    pub fn unitish(&self) -> (r: bool)
        ensures
            r == v_unitish(self@),
    {
        -131072 <= self.x && self.x <= 131072 && -131072 <= self.y && self.y <= 131072 && -131072
            <= self.z && self.z <= 131072
    }
}

/// The vector scaled by the fixed-point scalar `t`, scalar first.
pub fn scalar_mul(t: i64, v: Vec3) -> (r: Vec3)
    requires
        i64_fits(fx_mul_s(t as int, v@.x)),
        i64_fits(fx_mul_s(t as int, v@.y)),
        i64_fits(fx_mul_s(t as int, v@.z)),
    ensures
        r@ == v_scale(t as int, v@),
{
    v.mul_t(t)
}

/// The vector divided by the fixed-point scalar `t`, scalar first.
pub fn scalar_div(t: i64, v: Vec3) -> (r: Vec3)
    requires
        t != 0,
        i64_fits(fx_div_s(v@.x, t as int)),
        i64_fits(fx_div_s(v@.y, t as int)),
        i64_fits(fx_div_s(v@.z, t as int)),
    ensures
        r@ == v_div_t(v@, t as int),
{
    v.div_t(t)
}

/// Fixed-point dot product.
pub fn dot(left: &Vec3, right: &Vec3) -> (r: i64)
    requires
        i64_fits(fx_mul_s(left@.x, right@.x)),
        i64_fits(fx_mul_s(left@.y, right@.y)),
        i64_fits(fx_mul_s(left@.z, right@.z)),
        i64_fits(fx_mul_s(left@.x, right@.x) + fx_mul_s(left@.y, right@.y)),
        i64_fits(v_dot(left@, right@)),
    ensures
        r == v_dot(left@, right@),
{
    fx_mul(left.x, right.x) + fx_mul(left.y, right.y) + fx_mul(left.z, right.z)
}

/// The vector rescaled to unit length.
pub fn unit_vector(v: &Vec3) -> (r: Vec3)
    requires
        v_in_range(v@),
        1 <= v_len_sq(v@),
    ensures
        r@ == v_unit(v@),
{
    proof {
        lemma_fx_mul_bound(v@.x, v@.x, COORD_MAX as int, COORD_MAX as int);
        lemma_fx_mul_bound(v@.y, v@.y, COORD_MAX as int, COORD_MAX as int);
        lemma_fx_mul_bound(v@.z, v@.z, COORD_MAX as int, COORD_MAX as int);
        lemma_fx_square_nonneg(v@.x);
        lemma_fx_square_nonneg(v@.y);
        lemma_fx_square_nonneg(v@.z);
    }
    let ls = v.length_squared();
    let len = fx_sqrt(ls);
    proof {
        lemma_sqrt_floor_unique(65536, 256);
        assert(65536int <= (ls as int) * (ONE as int)) by (nonlinear_arith)
            requires
                1 <= ls,
        ;
        lemma_sqrt_floor_mono(65536, (ls as int) * (ONE as int));
        lemma_fx_div_bound(v@.x, len as int, COORD_MAX as int);
        lemma_fx_div_bound(v@.y, len as int, COORD_MAX as int);
        lemma_fx_div_bound(v@.z, len as int, COORD_MAX as int);
    }
    v.div_t(len)
}

/// The decimal digit character for `d`.
pub open spec fn digit_char(d: int) -> char {
    if d == 0 {
        '0'
    } else if d == 1 {
        '1'
    } else if d == 2 {
        '2'
    } else if d == 3 {
        '3'
    } else if d == 4 {
        '4'
    } else if d == 5 {
        '5'
    } else if d == 6 {
        '6'
    } else if d == 7 {
        '7'
    } else if d == 8 {
        '8'
    } else {
        '9'
    }
}

/// The decimal text of `n`, which is at most three digits long.
pub open spec fn dec_seq(n: int) -> Seq<char>
    recommends
        0 <= n <= 255,
{
    if n < 10 {
        seq![digit_char(n)]
    } else if n < 100 {
        seq![digit_char(n / 10), digit_char(n % 10)]
    } else {
        seq![digit_char(n / 100), digit_char((n / 10) % 10), digit_char(n % 10)]
    }
}

/// The byte a colour component quantizes to: the component clamped to
/// the fixed-point range of `0` to `999 / 1000`, then scaled by 256,
/// truncating.
pub open spec fn byte_of(c: int) -> int {
    let clamped = if c < 0 {
        0int
    } else if c > 65470 {
        65470int
    } else {
        c
    };
    clamped / 256
}

/// The text triple of a colour: the three quantized bytes in decimal,
/// separated by single spaces.
pub open spec fn colour_line_s(c: Vec3s) -> Seq<char> {
    dec_seq(byte_of(c.x)) + seq![' '] + dec_seq(byte_of(c.y)) + seq![' '] + dec_seq(byte_of(c.z))
}

/// The one-character text of a decimal digit.
fn digit_str(d: u64) -> (r: &'static str)
    requires
        d < 10,
    ensures
        r@ == seq![digit_char(d as int)],
{
    if d == 0 {
        proof {
            reveal_strlit("0");
            assert("0"@ =~= seq![digit_char(0)]);
        }
        "0"
    } else if d == 1 {
        proof {
            reveal_strlit("1");
            assert("1"@ =~= seq![digit_char(1)]);
        }
        "1"
    } else if d == 2 {
        proof {
            reveal_strlit("2");
            assert("2"@ =~= seq![digit_char(2)]);
        }
        "2"
    } else if d == 3 {
        proof {
            reveal_strlit("3");
            assert("3"@ =~= seq![digit_char(3)]);
        }
        "3"
    } else if d == 4 {
        proof {
            reveal_strlit("4");
            assert("4"@ =~= seq![digit_char(4)]);
        }
        "4"
    } else if d == 5 {
        proof {
            reveal_strlit("5");
            assert("5"@ =~= seq![digit_char(5)]);
        }
        "5"
    } else if d == 6 {
        proof {
            reveal_strlit("6");
            assert("6"@ =~= seq![digit_char(6)]);
        }
        "6"
    } else if d == 7 {
        proof {
            reveal_strlit("7");
            assert("7"@ =~= seq![digit_char(7)]);
        }
        "7"
    } else if d == 8 {
        proof {
            reveal_strlit("8");
            assert("8"@ =~= seq![digit_char(8)]);
        }
        "8"
    } else {
        proof {
            reveal_strlit("9");
            assert("9"@ =~= seq![digit_char(9)]);
        }
        "9"
    }
}

/// Append the decimal text of `n` to `out`.
fn push_dec(out: &mut String, n: u64)
    requires
        n <= 255,
    ensures
        final(out)@ == old(out)@ + dec_seq(n as int),
{
    if n >= 100 {
        out.append(digit_str(n / 100));
        out.append(digit_str((n / 10) % 10));
        out.append(digit_str(n % 10));
        proof {
            assert(out@ =~= old(out)@ + dec_seq(n as int));
        }
    } else if n >= 10 {
        out.append(digit_str(n / 10));
        out.append(digit_str(n % 10));
        proof {
            assert(out@ =~= old(out)@ + dec_seq(n as int));
        }
    } else {
        out.append(digit_str(n));
        proof {
            assert(out@ =~= old(out)@ + dec_seq(n as int));
        }
    }
}

/// The byte a colour component quantizes to; see [`byte_of`].
fn colour_byte(c: i64) -> (b: u64)
    ensures
        b == byte_of(c as int),
        b <= 255,
{
    let clamped: i64 = if c < 0 {
        0
    } else if c > 65470 {
        65470
    } else {
        c
    };
    proof {
        vstd::arithmetic::div_mod::lemma_div_is_ordered(clamped as int, 65470, 256);
        vstd::arithmetic::div_mod::lemma_div_is_ordered(0, clamped as int, 256);
    }
    (clamped as u64) / 256
}

impl Vec3 {
    /// The quantized text triple of a colour: each component clamped
    /// to the range from zero to `999 / 1000` of full intensity, then
    /// scaled by 256 (truncating, not rounding), written as three
    /// decimal numbers separated by spaces.
    pub fn write_colour(&self) -> (s: String)
        ensures
            s@ == colour_line_s(self@),
    {
        let mut out = String::new();
        push_dec(&mut out, colour_byte(self.x));
        out.append(" ");
        push_dec(&mut out, colour_byte(self.y));
        out.append(" ");
        push_dec(&mut out, colour_byte(self.z));
        proof {
            reveal_strlit(" ");
            assert(" "@ =~= seq![' ']);
            assert(out@ =~= colour_line_s(self@));
        }
        out
    }
}

/// The direction a hemisphere draw yields: up to `attempts` rejection
/// samples are taken from the cube of side two; the first candidate
/// that lies inside the unit ball (and not too close to the origin) is
/// normalized and flipped onto the hemisphere around `normal`.  When
/// every attempt is rejected the draw falls back to the normal itself.
pub open spec fn hemi_s(normal: Vec3s, s: u64, attempts: nat) -> (Vec3s, u64)
    decreases attempts,
{
    if attempts == 0 {
        (normal, s)
    } else {
        let s1 = crate::rng::rng_next_s(s);
        let s2 = crate::rng::rng_next_s(s1);
        let s3 = crate::rng::rng_next_s(s2);
        let cand = Vec3s {
            x: 2 * crate::rng::rng_draw_s(s1) - 65536,
            y: 2 * crate::rng::rng_draw_s(s2) - 65536,
            z: 2 * crate::rng::rng_draw_s(s3) - 65536,
        };
        let ls = v_len_sq(cand);
        if 1 <= ls && ls <= 65536 {
            let u = v_unit(cand);
            if v_unitish(u) {
                if v_dot(u, normal) > 0 {
                    (u, s3)
                } else {
                    (v_neg(u), s3)
                }
            } else {
                hemi_s(normal, s3, (attempts - 1) as nat)
            }
        } else {
            hemi_s(normal, s3, (attempts - 1) as nat)
        }
    }
}

/// A random direction on the hemisphere around `normal`: rejection
/// sampling from the cube, normalized, flipped to the side of the
/// normal; see [`hemi_s`].
pub fn random_on_hemisphere(normal: &Vec3, rng: &mut crate::rng::Rng) -> (r: Vec3)
    requires
        v_unitish(normal@),
    ensures
        r@ == hemi_s(normal@, old(rng).state, 16).0,
        final(rng).state == hemi_s(normal@, old(rng).state, 16).1,
        v_unitish(r@),
{
    let mut k: usize = 0;
    while k < 16
        invariant
            k <= 16,
            v_unitish(normal@),
            hemi_s(normal@, old(rng).state, 16) == hemi_s(normal@, rng.state, (16 - k) as nat),
        decreases 16 - k,
    {
        let d1 = rng.next16();
        let d2 = rng.next16();
        let d3 = rng.next16();
        let cand = Vec3::new(
            2 * (d1 as i64) - 65536,
            2 * (d2 as i64) - 65536,
            2 * (d3 as i64) - 65536,
        );
        proof {
            lemma_fx_mul_bound(cand@.x, cand@.x, 65536, 65536);
            lemma_fx_mul_bound(cand@.y, cand@.y, 65536, 65536);
            lemma_fx_mul_bound(cand@.z, cand@.z, 65536, 65536);
            lemma_fx_square_nonneg(cand@.x);
            lemma_fx_square_nonneg(cand@.y);
            lemma_fx_square_nonneg(cand@.z);
        }
        let ls = cand.length_squared();
        if 1 <= ls && ls <= 65536 {
            let u = unit_vector(&cand);
            if u.unitish() {
                proof {
                    lemma_fx_mul_bound(u@.x, normal@.x, 131072, 131072);
                    lemma_fx_mul_bound(u@.y, normal@.y, 131072, 131072);
                    lemma_fx_mul_bound(u@.z, normal@.z, 131072, 131072);
                }
                let d = dot(&u, normal);
                if d > 0 {
                    return u;
                } else {
                    return u.neg();
                }
            }
        }
        k = k + 1;
    }
    *normal
}

/// Double negation is the identity.
pub proof fn lemma_neg_neg(a: Vec3s)
    ensures
        v_neg(v_neg(a)) == a,
{
}

/// Adding and then subtracting the same vector is the identity.
pub proof fn lemma_add_sub(a: Vec3s, b: Vec3s)
    ensures
        v_sub(v_add(a, b), b) == a,
{
}

/// Scaling by a whole-unit scalar and dividing by the same scalar is
/// the identity.
pub proof fn lemma_scale_div(a: Vec3s, m: int)
    requires
        m != 0,
    ensures
        v_div_t(v_scale(m * (ONE as int), a), m * (ONE as int)) == a,
{
    lemma_scale_div_component(a.x, m);
    lemma_scale_div_component(a.y, m);
    lemma_scale_div_component(a.z, m);
}

proof fn lemma_scale_div_component(x: int, m: int)
    requires
        m != 0,
    ensures
        fx_div_s(fx_mul_s(m * 65536, x), m * 65536) == x,
{
    assert((m * 65536) * x == (m * x) * 65536) by (nonlinear_arith);
    crate::fx::lemma_tdiv_exact(m * x, 65536);
    assert(fx_mul_s(m * 65536, x) == m * x);
    assert((m * x) * 65536 == x * (m * 65536)) by (nonlinear_arith);
    crate::fx::lemma_tdiv_exact(x, m * 65536);
}

/// The dot product is symmetric.
pub proof fn lemma_dot_comm(a: Vec3s, b: Vec3s)
    ensures
        v_dot(a, b) == v_dot(b, a),
{
    assert(a.x * b.x == b.x * a.x);
    assert(a.y * b.y == b.y * a.y);
    assert(a.z * b.z == b.z * a.z);
}

/// The squared length of a vector is its dot product with itself.
pub proof fn lemma_len_sq_is_dot(a: Vec3s)
    ensures
        v_len_sq(a) == v_dot(a, a),
{
}

/// The parameter of the nearest intersection of a ray with a sphere,
/// over the fixed-point model, and minus one when the ray misses or
/// its direction has zero fixed-point length.
pub open spec fn hit_sphere_s(centre: Vec3s, radius: int, r: crate::ray::RayS) -> int {
    let oc = v_sub(centre, r.origin);
    let a = v_len_sq(r.direction);
    if a == 0 {
        -65536int
    } else {
        let h = v_dot(r.direction, oc);
        let c = v_len_sq(oc) - fx_mul_s(radius, radius);
        let disc = fx_mul_s(h, h) - fx_mul_s(a, c);
        if disc < 0 {
            -65536int
        } else {
            fx_div_s(h - fx_sqrt_s(disc), a)
        }
    }
}

/// The parameter of the nearest intersection of `r` with the sphere
/// of the given centre and radius, or minus one when there is none:
/// the early standalone form of the intersection test, kept alongside
/// the record-producing one.
pub fn hit_sphere(centre: &Point3, radius: i64, r: &crate::ray::Ray) -> (t: i64)
    requires
        v_in_range(centre@),
        v_in_range(r@.origin),
        v_in_range(r@.direction),
        iabs(radius as int) <= COORD_MAX as int,
    ensures
        t == hit_sphere_s(centre@, radius as int, r@),
{
    let ghost dv = r@.direction;
    let ghost ocv = v_sub(centre@, r@.origin);
    proof {
        lemma_fx_mul_bound(dv.x, dv.x, 50331648, 50331648);
        lemma_fx_mul_bound(dv.y, dv.y, 50331648, 50331648);
        lemma_fx_mul_bound(dv.z, dv.z, 50331648, 50331648);
        lemma_fx_square_nonneg(dv.x);
        lemma_fx_square_nonneg(dv.y);
        lemma_fx_square_nonneg(dv.z);
        lemma_fx_mul_bound(dv.x, ocv.x, 50331648, 100663296);
        lemma_fx_mul_bound(dv.y, ocv.y, 50331648, 100663296);
        lemma_fx_mul_bound(dv.z, ocv.z, 50331648, 100663296);
        lemma_fx_mul_bound(ocv.x, ocv.x, 100663296, 100663296);
        lemma_fx_mul_bound(ocv.y, ocv.y, 100663296, 100663296);
        lemma_fx_mul_bound(ocv.z, ocv.z, 100663296, 100663296);
        lemma_fx_square_nonneg(ocv.x);
        lemma_fx_square_nonneg(ocv.y);
        lemma_fx_square_nonneg(ocv.z);
        lemma_fx_mul_bound(radius as int, radius as int, 50331648, 50331648);
        lemma_fx_square_nonneg(radius as int);
    }
    let oc = centre.sub(r.origin);
    let a = r.direction.length_squared();
    if a == 0 {
        return -65536;
    }
    let h = dot(&r.direction, &oc);
    let c = oc.length_squared() - fx_mul(radius, radius);
    proof {
        lemma_fx_mul_bound(h as int, h as int, 231928233984, 231928233984);
        lemma_fx_square_nonneg(h as int);
        lemma_fx_mul_bound(a as int, c as int, 115964116992, 502511173632);
    }
    let disc = fx_mul(h, h) - fx_mul(a, c);
    if disc < 0 {
        return -65536;
    }
    let sqrtd = fx_sqrt(disc);
    proof {
        crate::fx::lemma_sqrt_floor_le((disc as int) * 65536, 400000000000);
        lemma_fx_div_bound((h - sqrtd) as int, a as int, 631928233984);
    }
    fx_div(h - sqrtd, a)
}

} // verus!
