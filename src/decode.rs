use vstd::prelude::*;
use vstd::string::*;
use vstd::arithmetic::power2::{
    pow2,
    lemma_pow2_unfold,
    lemma_pow2_pos,
    lemma_pow2_strictly_increases,
    lemma2_to64,
};

use crate::variant::Geocode;

verus! {

/// A cell of the variant's rectangle: the `x_index`-th of the `2^x_bits`
/// equal slices along x, crossed with the `y_index`-th of the `2^y_bits`
/// slices along y, counted from the lower bounds.
#[derive(Clone, Copy, Debug, PartialEq, Eq, Structural)]
pub struct Cell {
    pub x_index: u64,
    pub y_index: u64,
    pub x_bits: usize,
    pub y_bits: usize,
}

/// A code holds a character that is not a symbol of the variant.
#[derive(Clone, Copy, Debug, PartialEq, Eq, Structural)]
pub struct DecodeError {
    /// Position of the first such character, counted in characters.
    pub position: usize,
    pub symbol: char,
}

impl Geocode {
    /// The bit pattern that symbol `c` stands for.
    pub open spec fn digit(self, c: char) -> int {
        choose|i: int| 0 <= i < self.alphabet().len() && self.alphabet()[i] == c
    }

    /// Whether every character of `code` is a symbol of the variant.
    pub open spec fn is_code(self, code: Seq<char>) -> bool {
        forall|i: int| 0 <= i < code.len() ==> self.alphabet().contains(#[trigger] code[i])
    }

    /// Bit `k` of the bisection stream that `code` spells out.
    pub open spec fn code_bit(self, code: Seq<char>, k: nat) -> nat {
        let bits = self.spec_bits_per_symbol();
        ((self.digit(code[(k / bits) as int]) / pow2((bits - 1 - k % bits) as nat) as int)
            % 2) as nat
    }

    /// The first `m` bits of one axis in `code`, first bit most significant;
    /// `axis` is 0 for x and 1 for y.
    pub open spec fn axis_value(self, code: Seq<char>, axis: nat, m: nat) -> nat
        decreases m,
    {
        if m == 0 {
            0
        } else {
            2 * self.axis_value(code, axis, (m - 1) as nat) + self.code_bit(
                code,
                (2 * (m - 1) + axis) as nat,
            )
        }
    }

    /// The cell that a code names.
    pub open spec fn decode_cell(self, code: Seq<char>) -> Cell {
        let xb = self.x_bits(code.len());
        let yb = self.y_bits(code.len());
        Cell {
            x_index: self.axis_value(code, 0, xb) as u64,
            y_index: self.axis_value(code, 1, yb) as u64,
            x_bits: xb as usize,
            y_bits: yb as usize,
        }
    }

    /// The position and bit pattern of symbol `c`, if it is one.
    fn digit_of(&self, c: char) -> (r: Option<usize>)
        ensures
            r matches Some(i) ==> i < self.alphabet().len() && i == self.digit(c),
            r is None <==> !self.alphabet().contains(c),
    {
        proof {
            self.lemma_alphabet();
        }
        let n: usize = self.alphabet_len();
        let mut i: usize = 0;
        while i < n
            invariant
                n == self.alphabet().len(),
                i <= n,
                self.alphabet().no_duplicates(),
                forall|j: int| 0 <= j < i ==> self.alphabet()[j] != c,
            decreases n - i,
        {
            if self.symbol_char(i) == c {
                assert(i == self.digit(c)) by {
                    let k = self.digit(c);
                    assert(0 <= k < self.alphabet().len() && self.alphabet()[k] == c);
                }
                return Some(i);
            }
            i = i + 1;
        }
        None
    }

    /// Decodes `value` into the cell it names: the exact inverse of
    /// `encode`, replaying the same x-first alternation of bits.
    pub fn decode(&self, value: &str) -> (r: Result<Cell, DecodeError>)
        requires
            self.x_bits(value@.len()) <= 64,
        ensures
            r is Ok <==> self.is_code(value@),
            r matches Ok(cell) ==> cell == self.decode_cell(value@),
            r matches Err(e) ==> {
                &&& e.position < value@.len()
                &&& e.symbol == value@[e.position as int]
                &&& !self.alphabet().contains(e.symbol)
                &&& forall|i: int| 0 <= i < e.position ==> self.alphabet().contains(value@[i])
            },
    {
        let n = value.unicode_len();
        let bits = self.bits_per_symbol();
        proof {
            self.lemma_alphabet();
            lemma2_to64();
        }
        let top: usize = self.alphabet_len() / 2;
        let mut x_index: u64 = 0;
        let mut y_index: u64 = 0;
        let mut xs: usize = 0;
        let mut ys: usize = 0;
        let mut on_x = true;
        let mut i: usize = 0;
        while i < n
            invariant
                n == value@.len(),
                i <= n,
                bits == self.spec_bits_per_symbol(),
                2 <= bits <= 5,
                top == pow2((bits - 1) as nat),
                self.x_bits(n as nat) <= 64,
                forall|j: int| 0 <= j < i ==> self.alphabet().contains(value@[j]),
                xs == (i * bits + 1) / 2,
                ys == (i * bits) / 2,
                on_x == ((i * bits) % 2 == 0),
                x_index == self.axis_value(value@, 0, xs as nat),
                y_index == self.axis_value(value@, 1, ys as nat),
                x_index < pow2(xs as nat),
                y_index < pow2(ys as nat),
            decreases n - i,
        {
            let c = value.get_char(i);
            let d = match self.digit_of(c) {
                Some(d) => d,
                None => {
                    return Err(DecodeError { position: i, symbol: c });
                },
            };
            let ghost start: nat = (i * bits) as nat;
            proof {
                assert(i * bits + bits == (i + 1) * bits) by (nonlinear_arith);
                assert(self.x_bits((i + 1) as nat) <= self.x_bits(n as nat)) by {
                    assert((i + 1) * bits <= n * bits) by (nonlinear_arith)
                        requires
                            i + 1 <= n,
                    ;
                }
            }
            let mut unit: usize = top;
            let mut t: usize = 0;
            while t < bits
                invariant
                    n == value@.len(),
                    i < n,
                    c == value@[i as int],
                    d == self.digit(c),
                    bits == self.spec_bits_per_symbol(),
                    2 <= bits <= 5,
                    start == i * bits,
                    t <= bits,
                    t < bits ==> unit == pow2((bits - 1 - t) as nat),
                    (start + bits + 1) / 2 <= 64,
                    xs == (start + t + 1) / 2,
                    ys == (start + t) / 2,
                    on_x == ((start + t) % 2 == 0),
                    x_index == self.axis_value(value@, 0, xs as nat),
                    y_index == self.axis_value(value@, 1, ys as nat),
                    x_index < pow2(xs as nat),
                    y_index < pow2(ys as nat),
                decreases bits - t,
            {
                proof {
                    lemma2_to64();
                    lemma_pow2_pos((bits - 1 - t) as nat);
                }
                let bit: u64 = ((d / unit) % 2) as u64;
                proof {
                    let k: nat = (start + t) as nat;
                    assert(k / (bits as nat) == i && k % (bits as nat) == t) by (nonlinear_arith)
                        requires
                            k == i * bits + t,
                            t < bits,
                            bits > 0,
                    ;
                    assert(bit == self.code_bit(value@, k));
                    lemma_pow2_unfold((xs + 1) as nat);
                    lemma_pow2_unfold((ys + 1) as nat);
                    if t + 1 < bits {
                        lemma_pow2_unfold((bits - 1 - t) as nat);
                    }
                }
                if on_x {
                    proof {
                        assert(xs + 1 <= 64);
                        if xs + 1 < 64 {
                            lemma_pow2_strictly_increases((xs + 1) as nat, 64);
                        }
                        assert(2 * xs == start + t);
                    }
                    x_index = x_index * 2 + bit;
                    xs = xs + 1;
                } else {
                    proof {
                        assert(ys + 1 <= 64);
                        if ys + 1 < 64 {
                            lemma_pow2_strictly_increases((ys + 1) as nat, 64);
                        }
                        assert(2 * ys + 1 == start + t);
                    }
                    y_index = y_index * 2 + bit;
                    ys = ys + 1;
                }
                on_x = !on_x;
                unit = unit / 2;
                t = t + 1;
            }
            i = i + 1;
        }
        Ok(Cell { x_index, y_index, x_bits: xs, y_bits: ys })
    }
}

} // verus!
