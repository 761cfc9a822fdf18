use vstd::prelude::*;
use vstd::string::*;
use vstd::arithmetic::power2::{pow2, lemma2_to64};

verus! {

/// Coordinates are fixed-point integers: one unit of the variant's reference
/// frame (a degree, a metre) is this many steps.
pub const STEPS_PER_UNIT: i64 = 1_000_000_000;

/// Largest longitude magnitude, 180 degrees.
pub const LONGITUDE_LIMIT: i64 = 180_000_000_000;

/// Largest latitude magnitude, 90 degrees.
pub const LATITUDE_LIMIT: i64 = 90_000_000_000;

/// Half the side of the Web Mercator square, 20037508.342789248 metres.
pub const MERCATOR_LIMIT: i64 = 20_037_508_342_789_248;

/// The supported encoding schemes.
#[derive(Clone, Copy, Debug, PartialEq, Eq, Structural)]
pub enum Geocode {
    /// Base-32 geohash over longitude / latitude.
    Geohash,
    /// Base-16 geohash over longitude / latitude.
    Geohash16,
    /// Base-4 quad tiles over Web Mercator metres.
    QuadTile,
}

/// The addressable rectangle of a variant, in fixed-point steps.
#[derive(Clone, Copy, Debug, PartialEq, Eq, Structural)]
pub struct Bounds {
    pub min_x: i64,
    pub max_x: i64,
    pub min_y: i64,
    pub max_y: i64,
}

impl Geocode {
    pub open spec fn spec_bounds(self) -> Bounds {
        match self {
            Geocode::Geohash | Geocode::Geohash16 => Bounds {
                min_x: (-LONGITUDE_LIMIT) as i64,
                max_x: LONGITUDE_LIMIT,
                min_y: (-LATITUDE_LIMIT) as i64,
                max_y: LATITUDE_LIMIT,
            },
            Geocode::QuadTile => Bounds {
                min_x: (-MERCATOR_LIMIT) as i64,
                max_x: MERCATOR_LIMIT,
                min_y: (-MERCATOR_LIMIT) as i64,
                max_y: MERCATOR_LIMIT,
            },
        }
    }

    pub open spec fn spec_bits_per_symbol(self) -> nat {
        match self {
            Geocode::Geohash => 5,
            Geocode::Geohash16 => 4,
            Geocode::QuadTile => 2,
        }
    }

    /// The output symbols; a symbol's index is the bit pattern it stands for.
    pub open spec fn alphabet(self) -> Seq<char> {
        match self {
            Geocode::Geohash => "0123456789bcdefghjkmnpqrstuvwxyz"@,
            Geocode::Geohash16 => "0123456789abcdef"@,
            Geocode::QuadTile => "2031"@,
        }
    }

    pub open spec fn spec_epsg_code(self) -> u32 {
        match self {
            Geocode::Geohash | Geocode::Geohash16 => 4326,
            Geocode::QuadTile => 3857,
        }
    }

    /// The alphabet has one symbol for each bit pattern of a symbol's width,
    /// and no symbol twice.
    pub proof fn lemma_alphabet(self)
        ensures
            self.alphabet().len() == pow2(self.spec_bits_per_symbol()),
            self.alphabet().no_duplicates(),
            2 <= self.spec_bits_per_symbol() <= 5,
            pow2(self.spec_bits_per_symbol()) <= 32,
    {
        reveal_strlit("0123456789bcdefghjkmnpqrstuvwxyz");
        reveal_strlit("0123456789abcdef");
        reveal_strlit("2031");
        lemma2_to64();
    }

    /// The variant's bounding rectangle.
    pub fn bounds(&self) -> (r: Bounds)
        ensures
            r == self.spec_bounds(),
    {
        match self {
            Geocode::Geohash | Geocode::Geohash16 => Bounds {
                min_x: -LONGITUDE_LIMIT,
                max_x: LONGITUDE_LIMIT,
                min_y: -LATITUDE_LIMIT,
                max_y: LATITUDE_LIMIT,
            },
            Geocode::QuadTile => Bounds {
                min_x: -MERCATOR_LIMIT,
                max_x: MERCATOR_LIMIT,
                min_y: -MERCATOR_LIMIT,
                max_y: MERCATOR_LIMIT,
            },
        }
    }

    /// Number of bisection bits folded into one output symbol.
    pub fn bits_per_symbol(&self) -> (r: usize)
        ensures
            r == self.spec_bits_per_symbol(),
    {
        match self {
            Geocode::Geohash => 5,
            Geocode::Geohash16 => 4,
            Geocode::QuadTile => 2,
        }
    }

    /// The identifier of the reference frame the bounds are expressed in.
    pub fn get_epsg_code(&self) -> (r: u32)
        ensures
            r == self.spec_epsg_code(),
    {
        match self {
            Geocode::Geohash | Geocode::Geohash16 => 4326,
            Geocode::QuadTile => 3857,
        }
    }

    /// Number of symbols in the alphabet.
    pub fn alphabet_len(&self) -> (r: usize)
        ensures
            r == self.alphabet().len(),
    {
        proof {
            reveal_strlit("0123456789bcdefghjkmnpqrstuvwxyz");
            reveal_strlit("0123456789abcdef");
            reveal_strlit("2031");
        }
        match self {
            Geocode::Geohash => 32,
            Geocode::Geohash16 => 16,
            Geocode::QuadTile => 4,
        }
    }

    /// The symbol that stands for the bit pattern `i`.
    pub fn symbol_char(&self, i: usize) -> (c: char)
        requires
            i < self.alphabet().len(),
        ensures
            c == self.alphabet()[i as int],
    {
        match self {
            Geocode::Geohash => {
                proof {
                    reveal_strlit("0123456789bcdefghjkmnpqrstuvwxyz");
                }
                "0123456789bcdefghjkmnpqrstuvwxyz".get_char(i)
            },
            Geocode::Geohash16 => {
                proof {
                    reveal_strlit("0123456789abcdef");
                }
                "0123456789abcdef".get_char(i)
            },
            Geocode::QuadTile => {
                proof {
                    reveal_strlit("2031");
                }
                "2031".get_char(i)
            },
        }
    }
}

} // verus!
