//! A physical row: one line of glyph cells, carrying two logical rows.
use vstd::prelude::*;

use crate::pixel::{glyph, DuoPixel};

verus! {

/// A left-to-right sequence of cell pairs.
#[derive(Debug, Clone)]
pub struct Row(pub Vec<DuoPixel>);

impl View for Row {
    type V = Seq<DuoPixel>;

    open spec fn view(&self) -> Seq<DuoPixel> {
        self.0@
    }
}

/// Cell pairs built position by position from two logical rows, as long as
/// the shorter of them.
pub open spec fn zip_cells(upper: Seq<bool>, lower: Seq<bool>) -> Seq<DuoPixel> {
    let n = if upper.len() <= lower.len() {
        upper.len()
    } else {
        lower.len()
    };
    Seq::new(n, |j: int| DuoPixel { upper: upper[j], lower: lower[j] })
}

/// The logical row held in the upper halves.
pub open spec fn uppers(cells: Seq<DuoPixel>) -> Seq<bool> {
    cells.map_values(|p: DuoPixel| p.upper)
}

/// The logical row held in the lower halves.
pub open spec fn lowers(cells: Seq<DuoPixel>) -> Seq<bool> {
    cells.map_values(|p: DuoPixel| p.lower)
}

/// The glyphs of a row, left to right.
pub open spec fn line_of(cells: Seq<DuoPixel>) -> Seq<char> {
    cells.map_values(|p: DuoPixel| glyph(p))
}

/// Relies on String::push: the character is appended at the end.
#[verifier::external_body]
pub(crate) fn push_char(s: &mut String, c: char)
    ensures
        final(s)@ == old(s)@.push(c),
{
    s.push(c)
}

impl Row {
    /// The row whose upper halves come from `upper` and lower halves from
    /// `lower`; a longer input is cut to the length of the shorter.
    pub fn from_halves(upper: &Vec<bool>, lower: &Vec<bool>) -> (r: Row)
        ensures
            r@ == zip_cells(upper@, lower@),
    {
        let n: usize = if upper.len() <= lower.len() {
            upper.len()
        } else {
            lower.len()
        };
        let mut cells: Vec<DuoPixel> = Vec::with_capacity(n);
        let mut j: usize = 0;
        while j < n
            invariant
                n <= upper.len(),
                n <= lower.len(),
                j <= n,
                cells@ == zip_cells(upper@, lower@).take(j as int),
                n == zip_cells(upper@, lower@).len(),
            decreases n - j,
        {
            cells.push(DuoPixel { upper: upper[j], lower: lower[j] });
            j = j + 1;
            assert(cells@ =~= zip_cells(upper@, lower@).take(j as int));
        }
        assert(cells@ =~= zip_cells(upper@, lower@));
        Row(cells)
    }

    /// The number of cell pairs.
    pub fn len(&self) -> (r: usize)
        ensures
            r == self@.len(),
    {
        self.0.len()
    }

    /// The two logical rows that this row carries: the upper halves, then
    /// the lower halves.
    pub fn to_halves(&self) -> (r: (Vec<bool>, Vec<bool>))
        ensures
            r.0@ == uppers(self@),
            r.1@ == lowers(self@),
    {
        let mut up: Vec<bool> = Vec::with_capacity(self.0.len());
        let mut low: Vec<bool> = Vec::with_capacity(self.0.len());
        let mut j: usize = 0;
        while j < self.0.len()
            invariant
                j <= self@.len(),
                up@ == uppers(self@).take(j as int),
                low@ == lowers(self@).take(j as int),
            decreases self@.len() - j,
        {
            up.push(self.0[j].upper);
            low.push(self.0[j].lower);
            j = j + 1;
            assert(up@ =~= uppers(self@).take(j as int));
            assert(low@ =~= lowers(self@).take(j as int));
        }
        assert(up@ =~= uppers(self@));
        assert(low@ =~= lowers(self@));
        (up, low)
    }

    /// The row as one line of glyphs, without a line break.
    pub fn to_text(&self) -> (r: String)
        ensures
            r@ == line_of(self@),
    {
        let mut s = String::new();
        let mut j: usize = 0;
        while j < self.0.len()
            invariant
                j <= self@.len(),
                s@ == line_of(self@).take(j as int),
            decreases self@.len() - j,
        {
            let c = self.0[j].to_char();
            push_char(&mut s, c);
            j = j + 1;
            assert(s@ =~= line_of(self@).take(j as int));
        }
        assert(s@ =~= line_of(self@));
        s
    }

    /// Whether both rows hold the same cell pairs in the same order.
    pub fn same_cells(&self, other: &Row) -> (r: bool)
        ensures
            r == (self@ == other@),
    {
        if self.0.len() != other.0.len() {
            return false;
        }
        let mut j: usize = 0;
        while j < self.0.len()
            invariant
                self@.len() == other@.len(),
                j <= self@.len(),
                forall|k: int| 0 <= k < j ==> self@[k] == other@[k],
            decreases self@.len() - j,
        {
            if self.0[j] != other.0[j] {
                return false;
            }
            j = j + 1;
        }
        assert(self@ =~= other@);
        true
    }
}

impl PartialEq for Row {
    fn eq(&self, other: &Row) -> (r: bool) {
        self.same_cells(other)
    }
}

impl vstd::std_specs::cmp::PartialEqSpecImpl for Row {
    open spec fn obeys_eq_spec() -> bool {
        true
    }

    open spec fn eq_spec(&self, other: &Row) -> bool {
        self@ == other@
    }
}

impl From<Row> for (Vec<bool>, Vec<bool>) {
    fn from(row: Row) -> (r: (Vec<bool>, Vec<bool>))
        ensures
            r.0@ == uppers(row@),
            r.1@ == lowers(row@),
    {
        row.to_halves()
    }
}

impl vstd::std_specs::convert::FromSpecImpl<Row> for (Vec<bool>, Vec<bool>) {
    open spec fn obeys_from_spec() -> bool {
        false
    }

    open spec fn from_spec(row: Row) -> (Vec<bool>, Vec<bool>) {
        arbitrary()
    }
}

impl From<Row> for String {
    fn from(row: Row) -> (r: String)
        ensures
            r@ == line_of(row@),
    {
        row.to_text()
    }
}

impl vstd::std_specs::convert::FromSpecImpl<Row> for String {
    open spec fn obeys_from_spec() -> bool {
        false
    }

    open spec fn from_spec(row: Row) -> String {
        arbitrary()
    }
}

impl From<(Vec<bool>, Vec<bool>)> for Row {
    fn from(value: (Vec<bool>, Vec<bool>)) -> (r: Row)
        ensures
            r@ == zip_cells(value.0@, value.1@),
    {
        Row::from_halves(&value.0, &value.1)
    }
}

impl vstd::std_specs::convert::FromSpecImpl<(Vec<bool>, Vec<bool>)> for Row {
    open spec fn obeys_from_spec() -> bool {
        false
    }

    open spec fn from_spec(value: (Vec<bool>, Vec<bool>)) -> Row {
        arbitrary()
    }
}

} // verus!
