use vstd::prelude::*;

use crate::variant::Geocode;

verus! {

/// A length of `span / 2^halvings` fixed-point steps: the side of a cell
/// after `halvings` bisections of a side of `span` steps.
#[derive(Clone, Copy, Debug, PartialEq, Eq, Structural)]
pub struct Resolution {
    pub span: u64,
    pub halvings: usize,
}

impl Geocode {
    /// Bisections of the x axis in a code of `precision` symbols: the bit
    /// stream starts on x and alternates, so x gets the odd bit left over.
    pub open spec fn x_bits(self, precision: nat) -> nat {
        (precision * self.spec_bits_per_symbol() + 1) / 2
    }

    /// Bisections of the y axis in a code of `precision` symbols.
    pub open spec fn y_bits(self, precision: nat) -> nat {
        (precision * self.spec_bits_per_symbol()) / 2
    }

    /// Width and height of a cell at `precision` symbols.
    pub open spec fn spec_intervals(self, precision: nat) -> (Resolution, Resolution) {
        (
            Resolution { span: self.x_span() as u64, halvings: self.x_bits(precision) as usize },
            Resolution { span: self.y_span() as u64, halvings: self.y_bits(precision) as usize },
        )
    }

    /// Width and height of the cell that a code of `precision` symbols names,
    /// without needing a coordinate.
    pub fn get_intervals(&self, precision: usize) -> (r: (Resolution, Resolution))
        requires
            precision * self.spec_bits_per_symbol() <= usize::MAX,
        ensures
            r == self.spec_intervals(precision as nat),
    {
        let b = self.bounds();
        let total: usize = precision * self.bits_per_symbol();
        let x_span: u64 = (b.max_x - b.min_x) as u64;
        let y_span: u64 = (b.max_y - b.min_y) as u64;
        (
            Resolution { span: x_span, halvings: total / 2 + total % 2 },
            Resolution { span: y_span, halvings: total / 2 },
        )
    }
}

} // verus!
