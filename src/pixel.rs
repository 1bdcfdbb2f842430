//! The cell-pair encoder: one glyph cell holding two logical pixels.
use vstd::prelude::*;

verus! {

/// Both halves on.
pub const FULL_C: char = '\u{2588}';

/// Only the lower half on.
pub const LOWER_C: char = '\u{2584}';

/// Only the upper half on.
pub const UPPER_C: char = '\u{2580}';

/// Both halves off.
pub const EMPTY_C: char = ' ';

/// One glyph cell: the logical pixel of an even row (`upper`) above the
/// logical pixel of the following odd row (`lower`).
#[derive(Debug, Clone, Copy, PartialEq, Eq, Structural)]
pub struct DuoPixel {
    pub upper: bool,
    pub lower: bool,
}

/// The glyph that shows a cell pair.
pub open spec fn glyph(p: DuoPixel) -> char {
    if p.upper && p.lower {
        FULL_C
    } else if p.upper {
        UPPER_C
    } else if p.lower {
        LOWER_C
    } else {
        EMPTY_C
    }
}

/// The cell pair that a glyph shows, for the four glyphs of the encoder.
pub open spec fn cell_of_glyph(c: char) -> Option<DuoPixel> {
    if c == FULL_C {
        Some(DuoPixel { upper: true, lower: true })
    } else if c == UPPER_C {
        Some(DuoPixel { upper: true, lower: false })
    } else if c == LOWER_C {
        Some(DuoPixel { upper: false, lower: true })
    } else if c == EMPTY_C {
        Some(DuoPixel { upper: false, lower: false })
    } else {
        None
    }
}

/// A cell pair with both halves switched.
pub open spec fn flipped(p: DuoPixel) -> DuoPixel {
    DuoPixel { upper: !p.upper, lower: !p.lower }
}

impl DuoPixel {
    pub fn new(upper: bool, lower: bool) -> (r: DuoPixel)
        ensures
            r == (DuoPixel { upper, lower }),
    {
        DuoPixel { upper, lower }
    }

    /// The glyph that shows this cell pair.
    pub fn to_char(&self) -> (c: char)
        ensures
            c == glyph(*self),
    {
        match (self.lower, self.upper) {
            (true, true) => FULL_C,
            (false, true) => UPPER_C,
            (true, false) => LOWER_C,
            (false, false) => EMPTY_C,
        }
    }

    /// The cell pair shown by `c`, or `None` when `c` is none of the four glyphs.
    pub fn from_char(c: char) -> (r: Option<DuoPixel>)
        ensures
            r == cell_of_glyph(c),
    {
        if c == FULL_C {
            Some(DuoPixel { upper: true, lower: true })
        } else if c == UPPER_C {
            Some(DuoPixel { upper: true, lower: false })
        } else if c == LOWER_C {
            Some(DuoPixel { upper: false, lower: true })
        } else if c == EMPTY_C {
            Some(DuoPixel { upper: false, lower: false })
        } else {
            None
        }
    }

    /// This cell pair with both halves switched.
    pub fn flip(&self) -> (r: DuoPixel)
        ensures
            r == flipped(*self),
    {
        DuoPixel { upper: !self.upper, lower: !self.lower }
    }
}

/// Decoding a glyph gives back the cell pair it was encoded from, and the
/// four cell pairs have four distinct glyphs.
pub proof fn lemma_glyph_round_trip(p: DuoPixel, q: DuoPixel)
    ensures
        cell_of_glyph(glyph(p)) == Some(p),
        glyph(p) == glyph(q) ==> p == q,
{
}

impl From<(bool, bool)> for DuoPixel {
    fn from(value: (bool, bool)) -> (r: DuoPixel) {
        DuoPixel { upper: value.0, lower: value.1 }
    }
}

impl vstd::std_specs::convert::FromSpecImpl<(bool, bool)> for DuoPixel {
    open spec fn obeys_from_spec() -> bool {
        true
    }

    open spec fn from_spec(value: (bool, bool)) -> DuoPixel {
        DuoPixel { upper: value.0, lower: value.1 }
    }
}

impl From<DuoPixel> for (bool, bool) {
    fn from(p: DuoPixel) -> (r: (bool, bool)) {
        (p.upper, p.lower)
    }
}

impl vstd::std_specs::convert::FromSpecImpl<DuoPixel> for (bool, bool) {
    open spec fn obeys_from_spec() -> bool {
        true
    }

    open spec fn from_spec(p: DuoPixel) -> (bool, bool) {
        (p.upper, p.lower)
    }
}

impl From<DuoPixel> for char {
    fn from(p: DuoPixel) -> (r: char) {
        p.to_char()
    }
}

impl vstd::std_specs::convert::FromSpecImpl<DuoPixel> for char {
    open spec fn obeys_from_spec() -> bool {
        true
    }

    open spec fn from_spec(p: DuoPixel) -> char {
        glyph(p)
    }
}

} // verus!
