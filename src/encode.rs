use vstd::prelude::*;
use vstd::arithmetic::power2::{pow2, lemma_pow2_unfold, lemma_pow2_strictly_increases, lemma2_to64};

use crate::cells::{lemma_zoomed_start, lemma_zoomed_step, zoomed};
use crate::variant::{Bounds, Geocode};

verus! {

/// A coordinate outside the variant's bounding rectangle.
#[derive(Clone, Copy, Debug, PartialEq, Eq, Structural)]
pub struct OutOfRangeError {
    pub x: i64,
    pub y: i64,
    pub bounds: Bounds,
}

/// Relies on String::push: it appends one character at the end.
#[verifier::external_body]
fn push_char(s: &mut String, c: char)
    ensures
        final(s)@ == old(s)@.push(c),
{
    s.push(c);
}

impl Geocode {
    /// What `encode` returns, on the view of its string.
    pub open spec fn encode_result(self, x: int, y: int, precision: nat) -> Result<
        Seq<char>,
        OutOfRangeError,
    > {
        if self.contains(x, y) {
            Ok(self.code(x, y, precision))
        } else {
            Err(OutOfRangeError { x: x as i64, y: y as i64, bounds: self.spec_bounds() })
        }
    }

    /// Whether `r` is what `encode` returns for these inputs.
    pub open spec fn encode_produced(
        self,
        x: i64,
        y: i64,
        precision: usize,
        r: Result<String, OutOfRangeError>,
    ) -> bool {
        match r {
            Ok(s) => self.encode_result(x as int, y as int, precision as nat) == Ok::<
                Seq<char>,
                OutOfRangeError,
            >(s@),
            Err(e) => self.encode_result(x as int, y as int, precision as nat) == Err::<
                Seq<char>,
                OutOfRangeError,
            >(e),
        }
    }

    /// Encodes `(x, y)`, in fixed-point steps, as `precision` symbols.
    /// A precision of zero gives the empty string.
    ///
    /// Each bit halves the working rectangle, on x for even bits and on y for
    /// odd ones, and is 1 when the point lies strictly above the midpoint.
    /// The rectangle is kept implicitly: `rx` is the point's distance from
    /// the lower x edge scaled by `2^bits`, so the midpoint test `x > mid`
    /// reads `2 * rx > wx`, in exact integer arithmetic.
    pub fn encode(&self, x: i64, y: i64, precision: usize) -> (r: Result<String, OutOfRangeError>)
        ensures
            self.encode_produced(x, y, precision, r),
    {
        let b = self.bounds();
        if x < b.min_x || x > b.max_x || y < b.min_y || y > b.max_y {
            return Err(OutOfRangeError { x, y, bounds: b });
        }
        let bits = self.bits_per_symbol();
        let wx: u64 = (b.max_x - b.min_x) as u64;
        let wy: u64 = (b.max_y - b.min_y) as u64;
        let mut rx: u64 = (x - b.min_x) as u64;
        let mut ry: u64 = (y - b.min_y) as u64;
        let ghost dx: int = self.x_offset(x as int);
        let ghost dy: int = self.y_offset(y as int);
        let ghost mut xs: nat = 0;
        let ghost mut ys: nat = 0;
        proof {
            lemma_zoomed_start(dx, wx as int);
            lemma_zoomed_start(dy, wy as int);
            self.lemma_alphabet();
        }
        let mut on_x = true;
        let mut out = String::new();
        let mut j: usize = 0;
        while j < precision
            invariant
                j <= precision,
                b == self.spec_bounds(),
                self.contains(x as int, y as int),
                bits == self.spec_bits_per_symbol(),
                wx == self.x_span(),
                wy == self.y_span(),
                dx == self.x_offset(x as int),
                dy == self.y_offset(y as int),
                xs == (j * bits + 1) / 2,
                ys == (j * bits) / 2,
                on_x == ((j * bits) % 2 == 0),
                zoomed(dx, wx as int, xs, rx as int),
                zoomed(dy, wy as int, ys, ry as int),
                out@ == self.code(x as int, y as int, j as nat),
                self.alphabet().len() == pow2(bits as nat),
            decreases precision - j,
        {
            let ghost start: nat = (j * bits) as nat;
            proof {
                lemma2_to64();
                self.lemma_alphabet();
            }
            let mut hash: usize = 0;
            let mut t: usize = 0;
            while t < bits
                invariant
                    t <= bits,
                    j < precision,
                    b == self.spec_bounds(),
                    self.contains(x as int, y as int),
                    bits == self.spec_bits_per_symbol(),
                    wx == self.x_span(),
                    wy == self.y_span(),
                    dx == self.x_offset(x as int),
                    dy == self.y_offset(y as int),
                    start == j * bits,
                    xs == (start + t + 1) / 2,
                    ys == (start + t) / 2,
                    on_x == ((start + t) % 2 == 0),
                    zoomed(dx, wx as int, xs, rx as int),
                    zoomed(dy, wy as int, ys, ry as int),
                    hash == self.stream_value(x as int, y as int, start, t as nat),
                    hash < pow2(t as nat) <= pow2(bits as nat) <= 32,
                    out@ == self.code(x as int, y as int, j as nat),
                    self.alphabet().len() == pow2(bits as nat),
                decreases bits - t,
            {
                proof {
                    lemma_pow2_unfold((t + 1) as nat);
                    if t + 1 < bits {
                        lemma_pow2_strictly_increases((t + 1) as nat, bits as nat);
                    }
                }
                if on_x {
                    proof {
                        lemma_zoomed_step(dx, wx as int, xs, rx as int);
                    }
                    if rx > wx - rx {
                        hash = hash * 2 + 1;
                        rx = rx + rx - wx;
                    } else {
                        hash = hash * 2;
                        rx = rx + rx;
                    }
                    proof {
                        xs = xs + 1;
                    }
                } else {
                    proof {
                        lemma_zoomed_step(dy, wy as int, ys, ry as int);
                    }
                    if ry > wy - ry {
                        hash = hash * 2 + 1;
                        ry = ry + ry - wy;
                    } else {
                        hash = hash * 2;
                        ry = ry + ry;
                    }
                    proof {
                        ys = ys + 1;
                    }
                }
                on_x = !on_x;
                t = t + 1;
            }
            let c = self.symbol_char(hash);
            push_char(&mut out, c);
            proof {
                assert((j + 1) * bits == j * bits + bits) by (nonlinear_arith);
                assert(out@ =~= self.code(x as int, y as int, (j + 1) as nat));
            }
            j = j + 1;
        }
        Ok(out)
    }
}

} // verus!
