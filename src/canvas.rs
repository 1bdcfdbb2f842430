//! The grid engine: a canvas of logical pixels stored as physical rows of
//! cell pairs.
//!
//! Logical pixel `(x, y)` lives in physical row `y / 2`, column `x`: in the
//! upper half of the cell when `y` is even, in the lower half when it is odd.
use vstd::prelude::*;

use crate::pixel::{flipped, DuoPixel};
use crate::row::{line_of, push_char, Row};
use crate::text::{lemma_deep_view_push, line_to_states, lines_of, split_lines, text_matrix};

verus! {

/// The width of a grid of cell pairs: the length of its first row, 0 when
/// it has no row.
pub open spec fn width(g: Seq<Seq<DuoPixel>>) -> nat {
    if g.len() == 0 {
        0
    } else {
        g[0].len()
    }
}

/// All rows of the grid have the same length.
pub open spec fn rectangular(g: Seq<Seq<DuoPixel>>) -> bool {
    forall|i: int| 0 <= i < g.len() ==> #[trigger] g[i].len() == width(g)
}

/// The logical height of a grid: two logical rows per physical row.
pub open spec fn height(g: Seq<Seq<DuoPixel>>) -> nat {
    2 * g.len()
}

/// `(x, y)` addresses a logical pixel of the grid.
pub open spec fn in_bounds(g: Seq<Seq<DuoPixel>>, x: int, y: int) -> bool {
    0 <= x < width(g) && 0 <= y < height(g)
}

/// The half of a cell pair that logical row `y` occupies.
pub open spec fn half(p: DuoPixel, y: int) -> bool {
    if y % 2 == 0 {
        p.upper
    } else {
        p.lower
    }
}

/// A cell pair with the half of logical row `y` set to `state`.
pub open spec fn with_half(p: DuoPixel, y: int, state: bool) -> DuoPixel {
    if y % 2 == 0 {
        DuoPixel { upper: state, lower: p.lower }
    } else {
        DuoPixel { upper: p.upper, lower: state }
    }
}

/// The state of logical pixel `(x, y)`.
pub open spec fn pixel_at(g: Seq<Seq<DuoPixel>>, x: int, y: int) -> bool {
    half(g[y / 2][x], y)
}

/// The grid with logical pixel `(x, y)` set to `state` and nothing else changed.
pub open spec fn set_pixel(g: Seq<Seq<DuoPixel>>, x: int, y: int, state: bool) -> Seq<
    Seq<DuoPixel>,
> {
    g.update(y / 2, g[y / 2].update(x, with_half(g[y / 2][x], y, state)))
}

/// The grid with logical pixel `(x, y)` switched and nothing else changed.
pub open spec fn flip_pixel(g: Seq<Seq<DuoPixel>>, x: int, y: int) -> Seq<Seq<DuoPixel>> {
    set_pixel(g, x, y, !pixel_at(g, x, y))
}

/// The grid with every logical pixel switched.
pub open spec fn invert_all(g: Seq<Seq<DuoPixel>>) -> Seq<Seq<DuoPixel>> {
    g.map_values(|r: Seq<DuoPixel>| r.map_values(|p: DuoPixel| flipped(p)))
}

/// The length of the shortest row of a logical matrix, 0 when it has no row.
pub open spec fn min_width(m: Seq<Seq<bool>>) -> nat
    decreases m.len(),
{
    if m.len() == 0 {
        0
    } else if m.len() == 1 {
        m[0].len()
    } else {
        let w = min_width(m.drop_last());
        if m.last().len() < w {
            m.last().len()
        } else {
            w
        }
    }
}

/// The lower source of physical row `i`, column `j`: logical row `2i + 1`,
/// or an off pixel where the matrix has an odd number of rows.
pub open spec fn lower_source(m: Seq<Seq<bool>>, i: int, j: int) -> bool {
    if 2 * i + 1 < m.len() {
        m[2 * i + 1][j]
    } else {
        false
    }
}

/// The grid of cell pairs that a logical matrix folds into: logical rows
/// `2i` and `2i + 1` make physical row `i`, an odd last row is paired with
/// an all-off row, and every row is cut to the shortest row of the matrix.
pub open spec fn fold_rows(m: Seq<Seq<bool>>) -> Seq<Seq<DuoPixel>> {
    Seq::new(
        ((m.len() + 1) / 2) as nat,
        |i: int|
            Seq::new(
                min_width(m),
                |j: int| DuoPixel { upper: m[2 * i][j], lower: lower_source(m, i, j) },
            ),
    )
}

/// The logical matrix that a grid of cell pairs holds, two logical rows for
/// each physical row.
pub open spec fn unfold_rows(g: Seq<Seq<DuoPixel>>) -> Seq<Seq<bool>> {
    Seq::new(
        2 * g.len(),
        |y: int| Seq::new(g[y / 2].len(), |x: int| half(g[y / 2][x], y)),
    )
}

/// The text of a grid: each physical row as a line of glyphs ended by a
/// line break.
pub open spec fn text_of(g: Seq<Seq<DuoPixel>>) -> Seq<char>
    decreases g.len(),
{
    if g.len() == 0 {
        Seq::empty()
    } else {
        text_of(g.drop_last()) + line_of(g.last()).push('\n')
    }
}

/// A drawing canvas: physical rows of cell pairs, all of one length.
#[derive(Debug, Clone)]
pub struct Canvas(Vec<Row>);

impl View for Canvas {
    type V = Seq<Seq<DuoPixel>>;

    closed spec fn view(&self) -> Seq<Seq<DuoPixel>> {
        views_of(self.0@)
    }
}

/// The cell pairs of each row.
spec fn views_of(rows: Seq<Row>) -> Seq<Seq<DuoPixel>> {
    rows.map_values(|r: Row| r@)
}

/// No row of a matrix is shorter than its shortest row.
proof fn lemma_min_width_bound(m: Seq<Seq<bool>>, i: int)
    requires
        0 <= i < m.len(),
    ensures
        min_width(m) <= m[i].len(),
    decreases m.len(),
{
    if m.len() > 1 && i < m.len() - 1 {
        lemma_min_width_bound(m.drop_last(), i);
    }
}

/// The shortest row of a matrix whose rows all have length `w` has length `w`.
proof fn lemma_min_width_uniform(m: Seq<Seq<bool>>, w: nat)
    requires
        m.len() > 0,
        forall|i: int| 0 <= i < m.len() ==> #[trigger] m[i].len() == w,
    ensures
        min_width(m) == w,
    decreases m.len(),
{
    if m.len() > 1 {
        lemma_min_width_uniform(m.drop_last(), w);
    }
}

impl Canvas {
    /// Every physical row has the same length.
    pub open spec fn wf(&self) -> bool {
        rectangular(self@)
    }

    /// The canvas that a logical matrix folds into (see [`fold_rows`]).
    ///
    /// Ragged input is cut: every row of the canvas is as long as the
    /// shortest row of `m`.
    pub fn from_matrix(m: &Vec<Vec<bool>>) -> (r: Canvas)
        ensures
            r.wf(),
            r@ == fold_rows(m.deep_view()),
    {
        let ghost mm = m.deep_view();
        let n: usize = m.len();
        let mut w: usize = 0;
        if n > 0 {
            w = m[0].len();
            let mut k: usize = 1;
            while k < n
                invariant
                    n == m.len(),
                    mm == m.deep_view(),
                    1 <= k <= n,
                    w == min_width(mm.take(k as int)),
                decreases n - k,
            {
                assert(mm.take(k as int + 1).drop_last() =~= mm.take(k as int));
                if m[k].len() < w {
                    w = m[k].len();
                }
                k = k + 1;
            }
            assert(mm.take(n as int) =~= mm);
        }
        let ghost g = fold_rows(mm);
        let mut rows: Vec<Row> = Vec::new();
        let mut i: usize = 0;
        while i < n - i
            invariant
                n == m.len(),
                mm == m.deep_view(),
                w == min_width(mm),
                g == fold_rows(mm),
                2 * i <= n + 1,
                rows@.len() == i,
                views_of(rows@) == g.take(i as int),
            decreases n - i,
        {
            assert(i < g.len());
            let row = fold_pair(m, i, w);
            let ghost before = rows@;
            rows.push(row);
            proof {
                assert forall|k: int| 0 <= k < i implies #[trigger] rows@[k]@ == g[k] by {
                    assert(views_of(before)[k] == g.take(i as int)[k]);
                }
            }
            i = i + 1;
            assert(views_of(rows@) =~= g.take(i as int));
        }
        assert(i == g.len());
        assert(views_of(rows@) =~= g);
        Canvas(rows)
    }

    /// A canvas of `width` by `height` logical pixels, all off. An odd
    /// `height` is rounded up to the next even number of logical rows.
    pub fn new(width: usize, height: usize) -> (r: Canvas)
        ensures
            r.wf(),
            r@ == Seq::new(
                ((height + 1) / 2) as nat,
                |i: int|
                    Seq::new(
                        if height == 0 {
                            0
                        } else {
                            width as nat
                        },
                        |j: int| DuoPixel { upper: false, lower: false },
                    ),
            ),
    {
        let m = blank_matrix(width, height);
        let r = Canvas::from_matrix(&m);
        proof {
            let mm = m.deep_view();
            if height > 0 {
                lemma_min_width_uniform(mm, width as nat);
            }
            assert(r@ =~~= Seq::new(
                ((height + 1) / 2) as nat,
                |i: int|
                    Seq::new(
                        if height == 0 {
                            0
                        } else {
                            width as nat
                        },
                        |j: int| DuoPixel { upper: false, lower: false },
                    ),
            ));
        }
        r
    }

    /// The logical matrix that this canvas holds: two rows for each physical
    /// row, the upper halves first.
    pub fn to_matrix(&self) -> (r: Vec<Vec<bool>>)
        ensures
            r.deep_view() == unfold_rows(self@),
    {
        let ghost target = unfold_rows(self@);
        let mut m: Vec<Vec<bool>> = Vec::new();
        let mut i: usize = 0;
        while i < self.0.len()
            invariant
                i <= self@.len(),
                target == unfold_rows(self@),
                m@.len() == 2 * i,
                m.deep_view() == target.take(2 * i as int),
            decreases self@.len() - i,
        {
            let (up, low) = self.0[i].to_halves();
            let ghost before = m@;
            m.push(up);
            m.push(low);
            assert(m.deep_view()[2 * i as int] =~= up@);
            assert(m.deep_view()[2 * i + 1] =~= low@);
            assert(forall|k: int| 0 <= k < 2 * i ==> m.deep_view()[k] == before[k].deep_view());
            i = i + 1;
            assert(m.deep_view() =~~= target.take(2 * i as int)) by {
                assert(target[2 * i - 2] =~= up@);
                assert(target[2 * i - 1] =~= low@);
            }
        }
        assert(m.deep_view() =~~= target);
        m
    }

    /// The canvas as text: one line of glyphs per physical row, each ended
    /// by a line break; the empty string for a canvas without rows.
    pub fn to_string(&self) -> (r: String)
        ensures
            r@ == text_of(self@),
    {
        let mut s = String::new();
        let mut i: usize = 0;
        while i < self.0.len()
            invariant
                i <= self@.len(),
                s@ == text_of(self@.take(i as int)),
            decreases self@.len() - i,
        {
            let line = self.0[i].to_text();
            s.append(line.as_str());
            push_char(&mut s, '\n');
            assert(self@.take(i + 1).drop_last() =~= self@.take(i as int));
            i = i + 1;
        }
        assert(self@.take(i as int) =~= self@);
        s
    }

    /// A new canvas with every logical pixel switched.
    pub fn inverted(&self) -> (r: Canvas)
        requires
            self.wf(),
        ensures
            r.wf(),
            r@ == invert_all(self@),
    {
        let ghost target = invert_all(self@);
        let mut rows: Vec<Row> = Vec::with_capacity(self.0.len());
        let mut i: usize = 0;
        while i < self.0.len()
            invariant
                i <= self@.len(),
                target == invert_all(self@),
                rows@.len() == i,
                forall|k: int| 0 <= k < i ==> #[trigger] rows@[k]@ == target[k],
            decreases self@.len() - i,
        {
            let row = &self.0[i];
            let mut cells: Vec<DuoPixel> = Vec::with_capacity(row.0.len());
            let mut j: usize = 0;
            while j < row.0.len()
                invariant
                    i < self@.len(),
                    row@ == self@[i as int],
                    target == invert_all(self@),
                    j <= row@.len(),
                    cells@ == target[i as int].take(j as int),
                decreases row@.len() - j,
            {
                cells.push(row.0[j].flip());
                j = j + 1;
                assert(cells@ =~= target[i as int].take(j as int));
            }
            assert(cells@ =~= target[i as int]);
            rows.push(Row(cells));
            i = i + 1;
        }
        assert(views_of(rows@) =~= target);
        Canvas(rows)
    }

    /// Switches every logical pixel in place.
    pub fn invert(&mut self)
        requires
            old(self).wf(),
        ensures
            final(self).wf(),
            final(self)@ == invert_all(old(self)@),
    {
        *self = self.inverted();
    }

    /// The canvas drawn by a text: each line is a logical row, and each
    /// character a pixel, off where it is `inactive` and on otherwise (on
    /// for `active` and for any character that is neither).
    pub fn parse(str_pic: &str, active: char, inactive: char) -> (r: Canvas)
        ensures
            r.wf(),
            r@ == fold_rows(text_matrix(str_pic@, active, inactive)),
    {
        let lines = split_lines(str_pic);
        let ghost target = text_matrix(str_pic@, active, inactive);
        let mut m: Vec<Vec<bool>> = Vec::with_capacity(lines.len());
        let mut k: usize = 0;
        while k < lines.len()
            invariant
                lines.deep_view() == lines_of(str_pic@),
                target == text_matrix(str_pic@, active, inactive),
                k <= lines@.len(),
                m@.len() == k,
                m.deep_view() == target.take(k as int),
            decreases lines@.len() - k,
        {
            let states = line_to_states(&lines[k], active, inactive);
            assert(lines@[k as int]@ =~= lines.deep_view()[k as int]);
            let ghost old_m = m;
            let ghost pushed = states;
            m.push(states);
            proof {
                lemma_deep_view_push(old_m, m, pushed);
                assert(pushed.deep_view() =~= pushed@);
            }
            k = k + 1;
            assert(m.deep_view() =~= target.take(k as int));
        }
        assert(m.deep_view() =~= target);
        Canvas::from_matrix(&m)
    }

    /// The physical rows, top to bottom.
    pub fn rows(&self) -> (r: &Vec<Row>)
        ensures
            r@.len() == self@.len(),
            forall|i: int| 0 <= i < r@.len() ==> #[trigger] r@[i]@ == self@[i],
    {
        &self.0
    }

    /// The physical rows, top to bottom, taken out of the canvas.
    pub fn into_rows(self) -> (r: Vec<Row>)
        ensures
            r@.len() == self@.len(),
            forall|i: int| 0 <= i < r@.len() ==> #[trigger] r@[i]@ == self@[i],
    {
        self.0
    }

    /// Whether both canvases hold the same physical rows.
    pub fn same_rows(&self, other: &Canvas) -> (r: bool)
        ensures
            r == (self@ == other@),
    {
        if self.0.len() != other.0.len() {
            return false;
        }
        let mut i: usize = 0;
        while i < self.0.len()
            invariant
                self@.len() == other@.len(),
                i <= self@.len(),
                forall|k: int| 0 <= k < i ==> self@[k] == other@[k],
            decreases self@.len() - i,
        {
            if !self.0[i].same_cells(&other.0[i]) {
                assert(self@[i as int] != other@[i as int]);
                return false;
            }
            i = i + 1;
        }
        assert(self@ =~= other@);
        true
    }

    /// Whether `(x, y)` addresses a logical pixel of this canvas.
    fn in_range(&self, x: usize, y: usize) -> (r: bool)
        requires
            self.wf(),
        ensures
            r == in_bounds(self@, x as int, y as int),
    {
        y / 2 < self.0.len() && x < self.0[0].0.len()
    }

    /// A canvas with the same cell pairs.
    fn duplicate(&self) -> (r: Canvas)
        ensures
            r@ == self@,
    {
        let mut rows: Vec<Row> = Vec::with_capacity(self.0.len());
        let mut i: usize = 0;
        while i < self.0.len()
            invariant
                i <= self.0@.len(),
                rows@.len() == i,
                forall|k: int| 0 <= k < i ==> #[trigger] rows@[k]@ == self.0@[k]@,
            decreases self.0@.len() - i,
        {
            rows.push(Row(self.0[i].0.clone()));
            assert(rows@[i as int]@ =~= self.0@[i as int]@);
            i = i + 1;
        }
        assert(views_of(rows@) =~= views_of(self.0@));
        Canvas(rows)
    }

    /// Sets the half of a cell pair that logical pixel `(x, y)` occupies.
    fn put_pixel(&mut self, x: usize, y: usize, state: bool)
        requires
            old(self).wf(),
            in_bounds(old(self)@, x as int, y as int),
        ensures
            final(self).wf(),
            final(self)@ == set_pixel(old(self)@, x as int, y as int, state),
    {
        let yi = y / 2;
        assert(self@[yi as int].len() == width(self@));
        let cell = self.0[yi].0[x];
        let new_cell = if y % 2 == 0 {
            DuoPixel { upper: state, lower: cell.lower }
        } else {
            DuoPixel { upper: cell.upper, lower: state }
        };
        self.put_cell(x, yi, new_cell);
    }

    /// Replaces the cell pair at column `x` of physical row `yi`.
    fn put_cell(&mut self, x: usize, yi: usize, cell: DuoPixel)
        requires
            old(self).wf(),
            yi < old(self)@.len(),
            x < width(old(self)@),
        ensures
            final(self).wf(),
            final(self)@ == old(self)@.update(yi as int, old(self)@[yi as int].update(x as int, cell)),
    {
        let ghost g = self@;
        assert(g[yi as int].len() == width(g));
        self.0[yi].0.set(x, cell);
        assert(views_of(self.0@) =~= g.update(yi as int, g[yi as int].update(x as int, cell)));
        assert(width(self@) == width(g));
    }

    /// Replaces the cell pair that holds logical pixel `(x, y)` (physical
    /// row `y / 2`, column `x`) with `pixel`, and returns the cell pair that
    /// was there; `None`, with the canvas unchanged, when `(x, y)` is out of
    /// bounds. Like every other coordinate here, `y` counts logical rows.
    pub fn mut_set_duopixel(&mut self, x: usize, y: usize, pixel: DuoPixel) -> (r: Option<
        DuoPixel,
    >)
        requires
            old(self).wf(),
        ensures
            final(self).wf(),
            in_bounds(old(self)@, x as int, y as int) ==> r == Some(
                old(self)@[y as int / 2][x as int],
            ) && final(self)@ == old(self)@.update(
                y as int / 2,
                old(self)@[y as int / 2].update(x as int, pixel),
            ),
            !in_bounds(old(self)@, x as int, y as int) ==> r is None && final(self)@ == old(
                self,
            )@,
    {
        if !self.in_range(x, y) {
            return None;
        }
        assert(self@[y as int / 2].len() == width(self@));
        let previous = self.0[y / 2].0[x];
        self.put_cell(x, y / 2, pixel);
        Some(previous)
    }

    /// The cell pair that holds logical pixel `(x, y)`, or `None` when
    /// `(x, y)` is out of bounds.
    pub fn get_duopixel(&self, x: usize, y: usize) -> (r: Option<DuoPixel>)
        requires
            self.wf(),
        ensures
            r == (if in_bounds(self@, x as int, y as int) {
                Some(self@[y as int / 2][x as int])
            } else {
                None
            }),
    {
        if !self.in_range(x, y) {
            return None;
        }
        assert(self@[y as int / 2].len() == width(self@));
        Some(self.0[y / 2].0[x])
    }

    /// The state of logical pixel `(x, y)`, or `None` when it is out of bounds.
    pub fn get(&self, x: usize, y: usize) -> (r: Option<bool>)
        requires
            self.wf(),
        ensures
            r == (if in_bounds(self@, x as int, y as int) {
                Some(pixel_at(self@, x as int, y as int))
            } else {
                None
            }),
    {
        match self.get_duopixel(x, y) {
            Some(p) => Some(if y % 2 == 0 { p.upper } else { p.lower }),
            None => None,
        }
    }

    /// Sets logical pixel `(x, y)` to `state` in place and returns a copy of
    /// the result; `None`, with the canvas unchanged, when `(x, y)` is out of
    /// bounds.
    pub fn mut_set(&mut self, x: usize, y: usize, state: bool) -> (r: Option<Canvas>)
        requires
            old(self).wf(),
        ensures
            final(self).wf(),
            in_bounds(old(self)@, x as int, y as int) ==> final(self)@ == set_pixel(
                old(self)@,
                x as int,
                y as int,
                state,
            ) && r is Some && r->0.wf() && r->0@ == final(self)@,
            !in_bounds(old(self)@, x as int, y as int) ==> r is None && final(self)@ == old(
                self,
            )@,
    {
        if !self.in_range(x, y) {
            return None;
        }
        self.put_pixel(x, y, state);
        Some(self.duplicate())
    }

    /// A new canvas with logical pixel `(x, y)` set to `state`, or `None`
    /// when `(x, y)` is out of bounds.
    pub fn set(&self, x: usize, y: usize, state: bool) -> (r: Option<Canvas>)
        requires
            self.wf(),
        ensures
            in_bounds(self@, x as int, y as int) ==> r is Some && r->0.wf() && r->0@
                == set_pixel(self@, x as int, y as int, state),
            !in_bounds(self@, x as int, y as int) ==> r is None,
    {
        if !self.in_range(x, y) {
            return None;
        }
        let mut c = self.duplicate();
        c.put_pixel(x, y, state);
        Some(c)
    }

    /// Switches logical pixel `(x, y)` in place and returns a copy of the
    /// result; `None`, with the canvas unchanged, when `(x, y)` is out of
    /// bounds.
    pub fn mut_invert_pixel(&mut self, x: usize, y: usize) -> (r: Option<Canvas>)
        requires
            old(self).wf(),
        ensures
            final(self).wf(),
            in_bounds(old(self)@, x as int, y as int) ==> final(self)@ == flip_pixel(
                old(self)@,
                x as int,
                y as int,
            ) && r is Some && r->0.wf() && r->0@ == final(self)@,
            !in_bounds(old(self)@, x as int, y as int) ==> r is None && final(self)@ == old(
                self,
            )@,
    {
        match self.get(x, y) {
            Some(state) => self.mut_set(x, y, !state),
            None => None,
        }
    }

    /// A new canvas with logical pixel `(x, y)` switched, or `None` when
    /// `(x, y)` is out of bounds.
    pub fn invert_pixel(&self, x: usize, y: usize) -> (r: Option<Canvas>)
        requires
            self.wf(),
        ensures
            in_bounds(self@, x as int, y as int) ==> r is Some && r->0.wf() && r->0@
                == flip_pixel(self@, x as int, y as int),
            !in_bounds(self@, x as int, y as int) ==> r is None,
    {
        match self.get(x, y) {
            Some(state) => self.set(x, y, !state),
            None => None,
        }
    }
}

impl PartialEq for Canvas {
    fn eq(&self, other: &Canvas) -> (r: bool) {
        self.same_rows(other)
    }
}

impl vstd::std_specs::cmp::PartialEqSpecImpl for Canvas {
    open spec fn obeys_eq_spec() -> bool {
        true
    }

    open spec fn eq_spec(&self, other: &Canvas) -> bool {
        self@ == other@
    }
}

impl From<Vec<Vec<bool>>> for Canvas {
    fn from(m: Vec<Vec<bool>>) -> (r: Canvas)
        ensures
            r.wf(),
            r@ == fold_rows(m.deep_view()),
    {
        Canvas::from_matrix(&m)
    }
}

impl vstd::std_specs::convert::FromSpecImpl<Vec<Vec<bool>>> for Canvas {
    open spec fn obeys_from_spec() -> bool {
        false
    }

    open spec fn from_spec(m: Vec<Vec<bool>>) -> Canvas {
        arbitrary()
    }
}

impl From<Canvas> for String {
    fn from(c: Canvas) -> (r: String)
        ensures
            r@ == text_of(c@),
    {
        c.to_string()
    }
}

impl vstd::std_specs::convert::FromSpecImpl<Canvas> for String {
    open spec fn obeys_from_spec() -> bool {
        false
    }

    open spec fn from_spec(c: Canvas) -> String {
        arbitrary()
    }
}

impl From<Canvas> for Vec<Vec<bool>> {
    fn from(c: Canvas) -> (r: Vec<Vec<bool>>)
        ensures
            r.deep_view() == unfold_rows(c@),
    {
        c.to_matrix()
    }
}

impl vstd::std_specs::convert::FromSpecImpl<Canvas> for Vec<Vec<bool>> {
    open spec fn obeys_from_spec() -> bool {
        false
    }

    open spec fn from_spec(c: Canvas) -> Vec<Vec<bool>> {
        arbitrary()
    }
}

impl From<Canvas> for Vec<Row> {
    fn from(c: Canvas) -> (r: Vec<Row>)
        ensures
            r@.len() == c@.len(),
            forall|i: int| 0 <= i < r@.len() ==> #[trigger] r@[i]@ == c@[i],
    {
        c.into_rows()
    }
}

impl vstd::std_specs::convert::FromSpecImpl<Canvas> for Vec<Row> {
    open spec fn obeys_from_spec() -> bool {
        false
    }

    open spec fn from_spec(c: Canvas) -> Vec<Row> {
        arbitrary()
    }
}

/// A matrix of `height` rows of `width` off pixels.
pub open spec fn blank(width: nat, height: nat) -> Seq<Seq<bool>> {
    Seq::new(height, |i: int| Seq::new(width, |j: int| false))
}

/// A matrix of `height` rows of `width` off pixels.
fn blank_matrix(width: usize, height: usize) -> (r: Vec<Vec<bool>>)
    ensures
        r.deep_view() == blank(width as nat, height as nat),
{
    let mut row: Vec<bool> = Vec::with_capacity(width);
    let mut j: usize = 0;
    while j < width
        invariant
            j <= width,
            row@ == blank(j as nat, 1)[0],
        decreases width - j,
    {
        row.push(false);
        j = j + 1;
        assert(row@ =~= blank(j as nat, 1)[0]);
    }
    let mut m: Vec<Vec<bool>> = Vec::with_capacity(height);
    let mut i: usize = 0;
    while i < height
        invariant
            i <= height,
            row@ == blank(width as nat, 1)[0],
            m@.len() == i,
            m.deep_view() == blank(width as nat, i as nat),
        decreases height - i,
    {
        let copy = row.clone();
        assert(copy@ =~= row@);
        let ghost before = m.deep_view();
        m.push(copy);
        assert(m.deep_view()[i as int] =~= row@);
        assert forall|k: int| 0 <= k <= i implies #[trigger] m.deep_view()[k] == blank(
            width as nat,
            (i + 1) as nat,
        )[k] by {
            if k < i {
                assert(m.deep_view()[k] == before[k]);
            }
        }
        assert(m.deep_view() =~= blank(width as nat, (i + 1) as nat));
        i = i + 1;
    }
    m
}

/// Physical row `i` of the canvas that `m` folds into, `w` being the width of
/// its shortest row.
fn fold_pair(m: &Vec<Vec<bool>>, i: usize, w: usize) -> (r: Row)
    requires
        2 * i < m.len(),
        w == min_width(m.deep_view()),
    ensures
        r@ == fold_rows(m.deep_view())[i as int],
{
    let ghost mm = m.deep_view();
    let ghost target = fold_rows(mm)[i as int];
    let upper = &m[2 * i];
    let has_lower = m.len() - 2 * i > 1;
    proof {
        lemma_min_width_bound(mm, 2 * i as int);
        if has_lower {
            lemma_min_width_bound(mm, 2 * i as int + 1);
        }
    }
    let mut cells: Vec<DuoPixel> = Vec::with_capacity(w);
    let mut j: usize = 0;
    while j < w
        invariant
            mm == m.deep_view(),
            2 * i < m.len(),
            upper@ == mm[2 * i as int],
            has_lower == (2 * i + 1 < m.len()),
            w <= upper@.len(),
            has_lower ==> w <= mm[2 * i as int + 1].len(),
            w == min_width(mm),
            target == fold_rows(mm)[i as int],
            j <= w,
            cells@ == target.take(j as int),
        decreases w - j,
    {
        let lower = if has_lower {
            m[2 * i + 1][j]
        } else {
            false
        };
        cells.push(DuoPixel { upper: upper[j], lower });
        j = j + 1;
        assert(cells@ =~= target.take(j as int));
    }
    assert(cells@ =~= target);
    Row(cells)
}


/// Folding a matrix with an even number of rows, all of one width, and
/// reading the logical matrix back out of the cell pairs gives the matrix
/// again.
pub proof fn lemma_round_trip(m: Seq<Seq<bool>>)
    requires
        m.len() % 2 == 0,
        forall|i: int| 0 <= i < m.len() ==> #[trigger] m[i].len() == m[0].len(),
    ensures
        unfold_rows(fold_rows(m)) == m,
{
    if m.len() > 0 {
        lemma_min_width_uniform(m, m[0].len());
    }
    let g = fold_rows(m);
    let u = unfold_rows(g);
    assert forall|y: int| 0 <= y < m.len() implies #[trigger] u[y] == m[y] by {
        assert(y / 2 < g.len());
        if y % 2 == 0 {
            assert(2 * (y / 2) == y);
        } else {
            assert(2 * (y / 2) + 1 == y);
        }
        assert(u[y] =~= m[y]);
    }
    assert(u =~= m);
}

/// Rebuilding a canvas from the logical matrix it holds gives the same
/// cell pairs.
pub proof fn lemma_rebuild(g: Seq<Seq<DuoPixel>>)
    requires
        rectangular(g),
    ensures
        fold_rows(unfold_rows(g)) == g,
{
    let u = unfold_rows(g);
    if g.len() > 0 {
        assert forall|y: int| 0 <= y < u.len() implies #[trigger] u[y].len() == width(g) by {
            assert(g[y / 2].len() == width(g));
        }
        lemma_min_width_uniform(u, width(g));
    }
    let f = fold_rows(u);
    assert forall|i: int| 0 <= i < g.len() implies #[trigger] f[i] == g[i] by {
        assert((2 * i) / 2 == i);
        assert((2 * i + 1) / 2 == i);
        assert(g[i].len() == width(g));
        assert(f[i] =~= g[i]);
    }
    assert(f =~= g);
}

/// A matrix with an odd number of rows folds as if an all-off row as wide
/// as its first row were appended, so the lower halves of the last
/// physical row are all off.
pub proof fn lemma_odd_padding(m: Seq<Seq<bool>>)
    requires
        m.len() % 2 == 1,
    ensures
        fold_rows(m) == fold_rows(m.push(blank(m[0].len(), 1)[0])),
        forall|j: int|
            0 <= j < fold_rows(m).last().len() ==> !(#[trigger] fold_rows(m).last()[j]).lower,
{
    let pad = blank(m[0].len(), 1)[0];
    let p = m.push(pad);
    assert(p.drop_last() =~= m);
    lemma_min_width_bound(m, 0);
    assert(min_width(p) == min_width(m));
    let a = fold_rows(m);
    let b = fold_rows(p);
    assert forall|i: int| 0 <= i < a.len() implies #[trigger] a[i] == b[i] by {
        assert(a[i] =~= b[i]);
    }
    assert(a =~= b);
}

/// Inverting every pixel twice gives the canvas back.
pub proof fn lemma_invert_twice(g: Seq<Seq<DuoPixel>>)
    ensures
        invert_all(invert_all(g)) == g,
{
    let h = invert_all(invert_all(g));
    assert forall|i: int| 0 <= i < g.len() implies #[trigger] h[i] == g[i] by {
        assert(h[i] =~= g[i]);
    }
    assert(h =~= g);
}

/// Switching one pixel changes its state, and switching it again gives the
/// canvas back.
pub proof fn lemma_flip_pixel_twice(g: Seq<Seq<DuoPixel>>, x: int, y: int)
    requires
        rectangular(g),
        in_bounds(g, x, y),
    ensures
        pixel_at(flip_pixel(g, x, y), x, y) == !pixel_at(g, x, y),
        flip_pixel(flip_pixel(g, x, y), x, y) == g,
{
    assert(g[y / 2].len() == width(g));
    let h = flip_pixel(flip_pixel(g, x, y), x, y);
    assert(h[y / 2] =~= g[y / 2]);
    assert(h =~= g);
}

/// Setting one pixel gives it the new state and leaves every other pixel
/// as it was.
pub proof fn lemma_set_then_get(
    g: Seq<Seq<DuoPixel>>,
    x: int,
    y: int,
    state: bool,
    x2: int,
    y2: int,
)
    requires
        rectangular(g),
        in_bounds(g, x, y),
        in_bounds(g, x2, y2),
    ensures
        pixel_at(set_pixel(g, x, y, state), x2, y2) == if x2 == x && y2 == y {
            state
        } else {
            pixel_at(g, x2, y2)
        },
{
    assert(g[y / 2].len() == width(g));
    assert(g[y2 / 2].len() == width(g));
}

} // verus!
