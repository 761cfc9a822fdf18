use vstd::prelude::*;
use vstd::arithmetic::power2::{pow2, lemma_pow2_strictly_increases, lemma2_to64};

use crate::cells::{cell_index, lemma_cell_index_step, lemma_zoomed_all, lemma_zoomed_step};
use crate::decode::Cell;
use crate::encode::OutOfRangeError;
use crate::variant::Geocode;

verus! {

impl Geocode {
    /// Whether the closed rectangle of `cell` holds `(x, y)`.
    pub open spec fn cell_holds(self, cell: Cell, x: int, y: int) -> bool {
        &&& cell.x_index * self.x_span() <= self.x_offset(x) * pow2(cell.x_bits as nat)
        &&& self.x_offset(x) * pow2(cell.x_bits as nat) <= (cell.x_index + 1) * self.x_span()
        &&& cell.y_index * self.y_span() <= self.y_offset(y) * pow2(cell.y_bits as nat)
        &&& self.y_offset(y) * pow2(cell.y_bits as nat) <= (cell.y_index + 1) * self.y_span()
    }

    /// Every symbol of a code is a symbol of the alphabet, and stands for
    /// the bits it was made from.
    proof fn lemma_code_digits(self, x: int, y: int, precision: nat, j: int)
        requires
            0 <= j < precision,
        ensures
            self.alphabet().contains(self.code(x, y, precision)[j]),
            self.digit(self.code(x, y, precision)[j]) == self.symbol(x, y, j as nat),
    {
        self.lemma_alphabet();
        let s = self.symbol(x, y, j as nat) as int;
        self.lemma_stream_value_bound(
            x,
            y,
            (j * self.spec_bits_per_symbol()) as nat,
            self.spec_bits_per_symbol(),
        );
        let c = self.code(x, y, precision)[j];
        assert(c == self.alphabet()[s]);
        let k = self.digit(c);
        assert(0 <= k < self.alphabet().len() && self.alphabet()[k] == c);
    }

    /// Reading a code's bit stream back gives the stream it was made from.
    proof fn lemma_code_bit(self, x: int, y: int, precision: nat, k: nat)
        requires
            k < precision * self.spec_bits_per_symbol(),
        ensures
            self.code_bit(self.code(x, y, precision), k) == self.stream_bit(x, y, k),
    {
        let bits = self.spec_bits_per_symbol();
        self.lemma_alphabet();
        let j = k / bits;
        let i = k % bits;
        assert(k == j * bits + i && i < bits && j < precision) by (nonlinear_arith)
            requires
                bits > 0,
                j == k / bits,
                i == k % bits,
                k < precision * bits,
        ;
        self.lemma_code_digits(x, y, precision, j as int);
        self.lemma_stream_value_bit(x, y, j * bits, bits, i);
    }

    /// The bits of one axis in a code spell that axis's cell index.
    proof fn lemma_axis_value(self, x: int, y: int, precision: nat, axis: nat, m: nat)
        requires
            self.contains(x, y),
            axis <= 1,
            2 * m + axis <= precision * self.spec_bits_per_symbol() + 1,
        ensures
            self.axis_value(self.code(x, y, precision), axis, m) == (if axis == 0 {
                cell_index(self.x_offset(x), self.x_span(), m)
            } else {
                cell_index(self.y_offset(y), self.y_span(), m)
            }),
            self.axis_value(self.code(x, y, precision), axis, m) < pow2(m),
        decreases m,
    {
        if m == 0 {
            lemma2_to64();
            let dx = self.x_offset(x);
            let dy = self.y_offset(y);
            if dx > 0 {
                vstd::arithmetic::div_mod::lemma_fundamental_div_mod_converse(dx - 1, self.x_span(), 0, dx - 1);
            }
            if dy > 0 {
                vstd::arithmetic::div_mod::lemma_fundamental_div_mod_converse(dy - 1, self.y_span(), 0, dy - 1);
            }
        } else {
            let k = (m - 1) as nat;
            self.lemma_axis_value(x, y, precision, axis, k);
            self.lemma_code_bit(x, y, precision, 2 * k + axis);
            vstd::arithmetic::power2::lemma_pow2_unfold(m);
            if axis == 0 {
                assert((2 * k + axis) % 2 == 0 && (2 * k + axis) / 2 == k);
                lemma_cell_index_step(self.x_offset(x), self.x_span(), k);
            } else {
                assert((2 * k + axis) % 2 == 1 && (2 * k + axis) / 2 == k);
                lemma_cell_index_step(self.y_offset(y), self.y_span(), k);
            }
        }
    }

    /// After `b` bisections the cell index holds the point.
    proof fn lemma_cell_index_holds(d: int, w: int, b: nat)
        requires
            0 <= d <= w,
            w > 0,
        ensures
            cell_index(d, w, b) * w <= d * pow2(b) <= (cell_index(d, w, b) + 1) * w,
    {
        lemma_zoomed_all(d, w, b);
        let c = cell_index(d, w, b);
        assert((c + 1) * w == c * w + w) by (nonlinear_arith);
    }

    /// Round trip: decoding the code of a point in range gives the cell of
    /// that point, which holds it and whose sides are the resolution of the
    /// code's precision.
    pub proof fn lemma_round_trip(self, x: int, y: int, precision: nat)
        requires
            self.contains(x, y),
            self.x_bits(precision) <= 64,
        ensures
            self.is_code(self.code(x, y, precision)),
            self.cell_holds(self.decode_cell(self.code(x, y, precision)), x, y),
            self.decode_cell(self.code(x, y, precision)).x_bits == self.spec_intervals(
                precision,
            ).0.halvings,
            self.decode_cell(self.code(x, y, precision)).y_bits == self.spec_intervals(
                precision,
            ).1.halvings,
            self.x_span() == self.spec_intervals(precision).0.span,
            self.y_span() == self.spec_intervals(precision).1.span,
    {
        let code = self.code(x, y, precision);
        assert forall|i: int| 0 <= i < code.len() implies self.alphabet().contains(
            #[trigger] code[i],
        ) by {
            self.lemma_code_digits(x, y, precision, i);
        }
        let xb = self.x_bits(precision);
        let yb = self.y_bits(precision);
        self.lemma_axis_value(x, y, precision, 0, xb);
        self.lemma_axis_value(x, y, precision, 1, yb);
        lemma2_to64();
        if xb < 64 {
            lemma_pow2_strictly_increases(xb, 64);
        }
        if yb < 64 {
            lemma_pow2_strictly_increases(yb, 64);
        }
        Self::lemma_cell_index_holds(self.x_offset(x), self.x_span(), xb);
        Self::lemma_cell_index_holds(self.y_offset(y), self.y_span(), yb);
    }

    /// Tie-break: a bisection whose midpoint falls exactly on the point
    /// sends the point to the lower half; a point strictly above it goes to
    /// the upper half. Bit `k` bisects the cell that the first `k` bits chose.
    pub proof fn lemma_midpoint_goes_low(self, x: int, y: int, k: nat)
        requires
            self.contains(x, y),
        ensures
            ({
                let (d, w) = if k % 2 == 0 {
                    (self.x_offset(x), self.x_span())
                } else {
                    (self.y_offset(y), self.y_span())
                };
                let mid = (2 * cell_index(d, w, k / 2) + 1) * w;
                &&& d * pow2(k / 2 + 1) == mid ==> self.stream_bit(x, y, k) == 0
                &&& d * pow2(k / 2 + 1) > mid ==> self.stream_bit(x, y, k) == 1
            }),
    {
        let (d, w) = if k % 2 == 0 {
            (self.x_offset(x), self.x_span())
        } else {
            (self.y_offset(y), self.y_span())
        };
        let m = k / 2;
        lemma_zoomed_all(d, w, m);
        let r = d * pow2(m) - cell_index(d, w, m) * w;
        lemma_zoomed_step(d, w, m, r);
        vstd::arithmetic::power2::lemma_pow2_unfold(m + 1);
        assert(d * pow2(m + 1) == 2 * (d * pow2(m))) by (nonlinear_arith)
            requires
                pow2(m + 1) == 2 * pow2(m),
        ;
    }

    /// Range validation: encoding fails exactly when a coordinate lies
    /// strictly outside the bounds; coordinates on the edges are accepted.
    pub proof fn lemma_range_validation(self, x: int, y: int, precision: nat)
        ensures
            self.encode_result(x, y, precision) is Err <==> (x < self.spec_bounds().min_x || x
                > self.spec_bounds().max_x || y < self.spec_bounds().min_y || y
                > self.spec_bounds().max_y),
    {
    }

    /// Length: a successful encoding has exactly `precision` symbols.
    pub proof fn lemma_code_length(self, x: int, y: int, precision: nat)
        ensures
            self.encode_result(x, y, precision) matches Ok(s) ==> s.len() == precision,
    {
    }

    /// Determinism: any two results that `encode` may give for the same
    /// inputs are equal.
    pub proof fn lemma_encode_deterministic(
        self,
        x: i64,
        y: i64,
        precision: usize,
        r1: Result<String, OutOfRangeError>,
        r2: Result<String, OutOfRangeError>,
    )
        requires
            self.encode_produced(x, y, precision, r1),
            self.encode_produced(x, y, precision, r2),
        ensures
            r1 is Ok <==> r2 is Ok,
            r1 matches Ok(s1) ==> r2 matches Ok(s2) && s1@ == s2@,
            r1 matches Err(e1) ==> r2 matches Err(e2) && e1 == e2,
    {
    }
}

} // verus!
