use vstd::prelude::*;
use vstd::arithmetic::div_mod::lemma_fundamental_div_mod_converse;
use vstd::arithmetic::power2::{pow2, lemma_pow2_unfold, lemma_pow2_pos, lemma2_to64};

use crate::variant::Geocode;

verus! {

/// Index of the cell that holds offset `d` when a span of width `w` is
/// bisected `b` times. Cells are half-open on the left, `(i*w, (i+1)*w]`
/// in units of `w / 2^b`, except the first, which also holds `0`: a point on
/// a midpoint belongs to the lower half.
pub open spec fn cell_index(d: int, w: int, b: nat) -> int {
    if d <= 0 {
        0
    } else {
        (d * pow2(b) - 1) / w
    }
}

/// The bit that the `m`-th bisection of an axis yields: 1 for the upper half.
pub open spec fn axis_bit(d: int, w: int, m: nat) -> nat {
    (cell_index(d, w, m + 1) % 2) as nat
}

/// `r` is how far offset `d` lies past the lower edge of its cell after `m`
/// bisections, measured in units of `w / 2^m`.
pub open spec fn zoomed(d: int, w: int, m: nat, r: int) -> bool {
    &&& r == d * pow2(m) - cell_index(d, w, m) * w
    &&& d == 0 ==> r == 0
    &&& d > 0 ==> 0 < r <= w
}

/// Before any bisection the offset is its own remainder.
pub proof fn lemma_zoomed_start(d: int, w: int)
    requires
        0 <= d <= w,
        w > 0,
    ensures
        zoomed(d, w, 0, d),
{
    lemma2_to64();
    if d > 0 {
        assert(d * pow2(0) == d);
        lemma_fundamental_div_mod_converse(d - 1, w, 0, d - 1);
    }
}

/// One bisection: the upper half is taken exactly when `2r > w`.
pub proof fn lemma_zoomed_step(d: int, w: int, m: nat, r: int)
    requires
        d >= 0,
        w > 0,
        zoomed(d, w, m, r),
    ensures
        cell_index(d, w, m + 1) == 2 * cell_index(d, w, m) + (if 2 * r > w { 1int } else { 0 }),
        axis_bit(d, w, m) == (if 2 * r > w { 1nat } else { 0 }),
        zoomed(d, w, m + 1, if 2 * r > w { 2 * r - w } else { 2 * r }),
        cell_index(d, w, m) >= 0,
{
    lemma_pow2_unfold(m + 1);
    lemma_pow2_pos(m);
    let p = pow2(m) as int;
    let a = d * p;
    assert(d * pow2(m + 1) == 2 * a) by (nonlinear_arith)
        requires
            pow2(m + 1) == 2 * p,
            a == d * p,
    ;
    if d > 0 {
        assert(a >= 1) by (nonlinear_arith)
            requires
                d > 0,
                p > 0,
                a == d * p,
        ;
        let q = cell_index(d, w, m);
        assert(q >= 0) by {
            vstd::arithmetic::div_mod::lemma_div_pos_is_pos(a - 1, w);
        }
        if 2 * r > w {
            assert(2 * a - 1 == (2 * q + 1) * w + (2 * r - w - 1)) by (nonlinear_arith)
                requires
                    r == a - q * w,
            ;
            lemma_fundamental_div_mod_converse(2 * a - 1, w, 2 * q + 1, 2 * r - w - 1);
            assert(2 * r - w == 2 * a - (2 * q + 1) * w) by (nonlinear_arith)
                requires
                    r == a - q * w,
            ;
        } else {
            assert(2 * a - 1 == (2 * q) * w + (2 * r - 1)) by (nonlinear_arith)
                requires
                    r == a - q * w,
            ;
            lemma_fundamental_div_mod_converse(2 * a - 1, w, 2 * q, 2 * r - 1);
            assert(2 * r == 2 * a - (2 * q) * w) by (nonlinear_arith)
                requires
                    r == a - q * w,
            ;
        }
    } else {
        assert(d * pow2(m + 1) == 0);
    }
}

/// After any number of bisections the remainder is well defined.
pub proof fn lemma_zoomed_all(d: int, w: int, m: nat)
    requires
        0 <= d <= w,
        w > 0,
    ensures
        zoomed(d, w, m, d * pow2(m) - cell_index(d, w, m) * w),
    decreases m,
{
    if m == 0 {
        lemma_zoomed_start(d, w);
    } else {
        let k = (m - 1) as nat;
        lemma_zoomed_all(d, w, k);
        lemma_zoomed_step(d, w, k, d * pow2(k) - cell_index(d, w, k) * w);
    }
}

/// Each bisection appends its bit to the cell index.
pub proof fn lemma_cell_index_step(d: int, w: int, m: nat)
    requires
        0 <= d <= w,
        w > 0,
    ensures
        cell_index(d, w, m + 1) == 2 * cell_index(d, w, m) + axis_bit(d, w, m),
        axis_bit(d, w, m) <= 1,
{
    lemma_zoomed_all(d, w, m);
    lemma_zoomed_step(d, w, m, d * pow2(m) - cell_index(d, w, m) * w);
}

impl Geocode {
    /// Offset of `x` from the lower x bound.
    pub open spec fn x_offset(self, x: int) -> int {
        x - self.spec_bounds().min_x
    }

    /// Offset of `y` from the lower y bound.
    pub open spec fn y_offset(self, y: int) -> int {
        y - self.spec_bounds().min_y
    }

    pub open spec fn x_span(self) -> int {
        self.spec_bounds().max_x - self.spec_bounds().min_x
    }

    pub open spec fn y_span(self) -> int {
        self.spec_bounds().max_y - self.spec_bounds().min_y
    }

    /// Whether `(x, y)` lies in the bounding rectangle, edges included.
    pub open spec fn contains(self, x: int, y: int) -> bool {
        &&& self.spec_bounds().min_x <= x <= self.spec_bounds().max_x
        &&& self.spec_bounds().min_y <= y <= self.spec_bounds().max_y
    }

    /// Bit `k` of the continuous bisection stream: even bits refine x, odd
    /// bits refine y.
    pub open spec fn stream_bit(self, x: int, y: int, k: nat) -> nat {
        if k % 2 == 0 {
            axis_bit(self.x_offset(x), self.x_span(), k / 2)
        } else {
            axis_bit(self.y_offset(y), self.y_span(), k / 2)
        }
    }

    /// The `len` stream bits from `start` on, read as a binary number,
    /// first bit most significant.
    pub open spec fn stream_value(self, x: int, y: int, start: nat, len: nat) -> nat
        decreases len,
    {
        if len == 0 {
            0
        } else {
            2 * self.stream_value(x, y, start, (len - 1) as nat) + self.stream_bit(
                x,
                y,
                (start + len - 1) as nat,
            )
        }
    }

    /// The bit pattern of the `j`-th output symbol.
    pub open spec fn symbol(self, x: int, y: int, j: nat) -> nat {
        self.stream_value(x, y, j * self.spec_bits_per_symbol(), self.spec_bits_per_symbol())
    }

    /// A run of `len` stream bits is below `2^len`.
    pub proof fn lemma_stream_value_bound(self, x: int, y: int, start: nat, len: nat)
        ensures
            self.stream_value(x, y, start, len) < pow2(len),
        decreases len,
    {
        if len == 0 {
            lemma2_to64();
        } else {
            lemma_pow2_unfold(len);
            self.lemma_stream_value_bound(x, y, start, (len - 1) as nat);
            assert(self.stream_bit(x, y, (start + len - 1) as nat) <= 1);
        }
    }

    /// Bit `i` of a run of `len` stream bits, counted from the most
    /// significant, is stream bit `start + i`.
    pub proof fn lemma_stream_value_bit(self, x: int, y: int, start: nat, len: nat, i: nat)
        requires
            i < len,
        ensures
            (self.stream_value(x, y, start, len) as int / pow2((len - 1 - i) as nat) as int) % 2
                == self.stream_bit(x, y, start + i),
        decreases len,
    {
        let v = self.stream_value(x, y, start, len) as int;
        let u = self.stream_value(x, y, start, (len - 1) as nat) as int;
        let b = self.stream_bit(x, y, (start + len - 1) as nat) as int;
        assert(b <= 1);
        assert(v == 2 * u + b);
        if i == len - 1 {
            lemma2_to64();
            vstd::arithmetic::div_mod::lemma_fundamental_div_mod_converse(v, 2, u, b);
            assert(((len - 1 - i) as nat) == 0);
            assert(v / pow2(0) as int == v);
        } else {
            let e = (len - 2 - i) as nat;
            lemma_pow2_unfold(e + 1);
            lemma_pow2_pos(e);
            assert(((len - 1 - i) as nat) == e + 1);
            vstd::arithmetic::div_mod::lemma_fundamental_div_mod_converse(v, 2, u, b);
            vstd::arithmetic::div_mod::lemma_div_denominator(v, 2, pow2(e) as int);
            assert(2 * pow2(e) == pow2(e + 1));
            assert(v / pow2(e + 1) as int == u / pow2(e) as int);
            self.lemma_stream_value_bit(x, y, start, (len - 1) as nat, i);
            assert((((len - 1) as nat) - 1 - i) as nat == e);
        }
    }

    /// The code of `(x, y)` with `precision` symbols.
    pub open spec fn code(self, x: int, y: int, precision: nat) -> Seq<char> {
        Seq::new(precision, |j: int| self.alphabet()[self.symbol(x, y, j as nat) as int])
    }
}

} // verus!
