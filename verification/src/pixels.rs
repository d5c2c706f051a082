use vstd::prelude::*;
use crate::color::{Color, TermColorSupport, escape_sequence};
use crate::text::code_char;

verus! {

/// A grid of characters, each with a colour, stored row by row.
pub struct Pixels {
    /// Width and height.
    pub size: (usize, usize),
    chars: Vec<u8>,
    colors: Vec<Color>,
}

/// Cell `(x, y)` of a grid `w` wide lies at index `y * w + x`.
pub open spec fn cell_index(w: int, x: int, y: int) -> int {
    y * w + x
}

proof fn lemma_cell_in_grid(w: int, h: int, x: int, y: int)
    requires
        0 <= x < w,
        0 <= y < h,
    ensures
        0 <= cell_index(w, x, y) < w * h,
{
    assert(0 <= y * w + x < w * h) by (nonlinear_arith)
        requires 0 <= x < w, 0 <= y < h;
}

proof fn lemma_cell_injective(w: int, x1: int, y1: int, x2: int, y2: int)
    requires
        0 <= x1 < w,
        0 <= x2 < w,
        0 <= y1,
        0 <= y2,
        cell_index(w, x1, y1) == cell_index(w, x2, y2),
    ensures
        x1 == x2,
        y1 == y2,
{
    assert(y1 == y2) by (nonlinear_arith)
        requires 0 <= x1 < w, 0 <= x2 < w, 0 <= y1, 0 <= y2, y1 * w + x1 == y2 * w + x2;
}


/// Where the top-left corner of `to_comp` lands when `to_comp` is centred
/// at `position`.
pub open spec fn comp_origin(to_comp: &Pixels, position: (i32, i32)) -> (int, int) {
    (position.0 - to_comp.width() / 2, position.1 - to_comp.height() / 2)
}

/// Cell `(x, y)` of the target lies under a non-blank cell of `to_comp`
/// centred at `position`.
pub open spec fn comp_covers(to_comp: &Pixels, position: (i32, i32), x: int, y: int) -> bool {
    let o = comp_origin(to_comp, position);
    to_comp.in_grid(x - o.0, y - o.1) && to_comp.char_at(x - o.0, y - o.1) != 32u8
}

/// The cell of `to_comp` (centred at `position`) that lies over `(x, y)`.
pub open spec fn comp_source(to_comp: &Pixels, position: (i32, i32), x: int, y: int) -> (int, int) {
    let o = comp_origin(to_comp, position);
    (x - o.0, y - o.1)
}

/// The escape sequence written before column `x` of row `y`: at the first
/// column and wherever the colour differs from the column before; nothing
/// on a terminal without colours.
pub open spec fn color_change_text(p: &Pixels, y: int, x: int, support: TermColorSupport) -> Seq<char> {
    if x == 0 || p.color_at(x, y) != p.color_at(x - 1, y) {
        match escape_sequence(p.color_at(x, y)@, support) {
            Some(e) => e,
            None => Seq::empty(),
        }
    } else {
        Seq::empty()
    }
}

/// The text of the first `n` columns of row `y`.
pub open spec fn row_text(p: &Pixels, y: int, support: TermColorSupport, n: int) -> Seq<char>
    decreases n,
{
    if n <= 0 {
        Seq::empty()
    } else {
        row_text(p, y, support, n - 1) + color_change_text(p, y, n - 1, support)
            + seq![code_char(p.char_at(n - 1, y) as int)]
    }
}

/// Row `y` as written to the terminal: its cells with their colours, then
/// a colour reset and a line break.
pub open spec fn line_text(p: &Pixels, y: int, support: TermColorSupport) -> Seq<char> {
    row_text(p, y, support, p.width()) + "\x1b[0m\n"@
}

/// The character that stands for intensity step `i`: `mapping[i]`, or the
/// last character of `mapping` past its end.
pub open spec fn intensity_char_of(mapping: Seq<u8>, i: int) -> u8 {
    if i < mapping.len() {
        mapping[i]
    } else {
        mapping[mapping.len() - 1]
    }
}

/// The character that stands for intensity step `i` (see `intensity_char_of`).
pub fn intensity_char(mapping: &[u8], i: usize) -> (c: u8)
    requires
        mapping@.len() > 0,
    ensures
        c == intensity_char_of(mapping@, i as int),
        i < mapping@.len() ==> c == mapping@[i as int],
        i >= mapping@.len() ==> c == mapping@[mapping@.len() - 1],
{
    let last = mapping[mapping.len() - 1];
    if i < mapping.len() {
        mapping[i]
    } else {
        last
    }
}

/// Reading a cell after `set_char` there gives the character written, and
/// every other cell keeps its character.
pub proof fn lemma_read_after_set_char(p: &Pixels, q: &Pixels, x: int, y: int, c: u8)
    requires
        p.wf(),
        p.in_grid(x, y),
        q.dims() == p.dims(),
        q.chars_view() == p.chars_view().update(cell_index(p.width(), x, y), c),
    ensures
        q.char_at(x, y) == c,
        forall|x2: int, y2: int| p.in_grid(x2, y2) && (x2 != x || y2 != y) ==> #[trigger] q.char_at(x2, y2) == p.char_at(x2, y2),
{
    lemma_cell_in_grid(p.width(), p.height(), x, y);
    assert forall|x2: int, y2: int| p.in_grid(x2, y2) && (x2 != x || y2 != y) implies #[trigger] q.char_at(x2, y2) == p.char_at(x2, y2) by {
        lemma_cell_in_grid(p.width(), p.height(), x2, y2);
        if cell_index(p.width(), x2, y2) == cell_index(p.width(), x, y) {
            lemma_cell_injective(p.width(), x2, y2, x, y);
        }
    }
}

/// Reading a cell after `set_color` there gives the colour written, and
/// every other cell keeps its colour.
pub proof fn lemma_read_after_set_color(p: &Pixels, q: &Pixels, x: int, y: int, c: Color)
    requires
        p.wf(),
        p.in_grid(x, y),
        q.dims() == p.dims(),
        q.colors_view() == p.colors_view().update(cell_index(p.width(), x, y), c),
    ensures
        q.color_at(x, y) == c,
        forall|x2: int, y2: int| p.in_grid(x2, y2) && (x2 != x || y2 != y) ==> #[trigger] q.color_at(x2, y2) == p.color_at(x2, y2),
{
    lemma_cell_in_grid(p.width(), p.height(), x, y);
    assert forall|x2: int, y2: int| p.in_grid(x2, y2) && (x2 != x || y2 != y) implies #[trigger] q.color_at(x2, y2) == p.color_at(x2, y2) by {
        lemma_cell_in_grid(p.width(), p.height(), x2, y2);
        if cell_index(p.width(), x2, y2) == cell_index(p.width(), x, y) {
            lemma_cell_injective(p.width(), x2, y2, x, y);
        }
    }
}

/// Drawing a grid that holds only blanks covers no cell, so `comp` leaves
/// the target as it was.
pub proof fn lemma_blank_comp_covers_nothing(to_comp: &Pixels, position: (i32, i32), x: int, y: int)
    requires
        forall|i: int, j: int| to_comp.in_grid(i, j) ==> #[trigger] to_comp.char_at(i, j) == 32u8,
    ensures
        !comp_covers(to_comp, position, x, y),
{
    let s = comp_source(to_comp, position, x, y);
    if to_comp.in_grid(s.0, s.1) {
        assert(to_comp.char_at(s.0, s.1) == 32u8);
    }
}

/// `to_comp` centred at `position` puts its cell `(j, i)` over target cell
/// `(position.0 - width / 2 + j, position.1 - height / 2 + i)`: a target cell
/// is covered exactly when that cell of `to_comp` exists and is not blank.
pub proof fn lemma_comp_geometry(to_comp: &Pixels, position: (i32, i32), x: int, y: int)
    ensures
        comp_source(to_comp, position, x, y) == (x - (position.0 - to_comp.width() / 2), y - (position.1 - to_comp.height() / 2)),
        comp_covers(to_comp, position, x, y) <==> (
            0 <= x - (position.0 - to_comp.width() / 2) < to_comp.width()
            && 0 <= y - (position.1 - to_comp.height() / 2) < to_comp.height()
            && to_comp.chars_view()[(y - (position.1 - to_comp.height() / 2)) * to_comp.width() + (x - (position.0 - to_comp.width() / 2))] != 32u8),
{
}

/// A cell of the grid is its entry at index `y * width + x`.
pub proof fn lemma_cell_layout(p: &Pixels, x: int, y: int)
    ensures
        p.char_at(x, y) == p.chars_view()[y * p.width() + x],
        p.color_at(x, y) == p.colors_view()[y * p.width() + x],
{
}

/// A cell whose colour is that of the cell before it adds only its
/// character to the row text: no escape sequence is written.
pub proof fn lemma_row_text_same_color(p: &Pixels, y: int, support: TermColorSupport, j: int)
    requires
        1 <= j,
        p.color_at(j, y) == p.color_at(j - 1, y),
    ensures
        row_text(p, y, support, j + 1) == row_text(p, y, support, j) + seq![(p.chars_view()[y * p.width() + j] as int) as char],
{
    assert(color_change_text(p, y, j, support) =~= Seq::<char>::empty());
    assert(row_text(p, y, support, j + 1) =~= row_text(p, y, support, j) + seq![(p.chars_view()[y * p.width() + j] as int) as char]);
}

/// On a true-colour terminal, the first cell of a row and every cell whose
/// colour differs from the cell before it are preceded by the escape
/// sequence of its colour.
pub proof fn lemma_row_text_color_change(p: &Pixels, y: int, j: int)
    requires
        0 <= j,
        j == 0 || p.color_at(j, y) != p.color_at(j - 1, y),
    ensures
        row_text(p, y, TermColorSupport::TrueColor, j + 1) == row_text(p, y, TermColorSupport::TrueColor, j)
            + escape_sequence(p.color_at(j, y)@, TermColorSupport::TrueColor)->0
            + seq![(p.chars_view()[y * p.width() + j] as int) as char],
{
}

/// On a terminal without colours, the text of the first `n` columns of row
/// `y` is the characters of cells `(0, y) .. (n - 1, y)`, in order.
pub proof fn lemma_row_text_without_color(p: &Pixels, y: int, n: int)
    requires
        0 <= n,
    ensures
        row_text(p, y, TermColorSupport::NoColor, n) == Seq::new(n as nat, |j: int| (p.chars_view()[y * p.width() + j] as int) as char),
    decreases n,
{
    if n > 0 {
        lemma_row_text_without_color(p, y, n - 1);
        assert(color_change_text(p, y, n - 1, TermColorSupport::NoColor) =~= Seq::<char>::empty());
        assert(row_text(p, y, TermColorSupport::NoColor, n) =~= Seq::new(n as nat, |j: int| (p.chars_view()[y * p.width() + j] as int) as char));
    } else {
        assert(row_text(p, y, TermColorSupport::NoColor, n) =~= Seq::new(n as nat, |j: int| (p.chars_view()[y * p.width() + j] as int) as char));
    }
}

/// Whatever the colour support, the text of the first `j + 1` columns of row
/// `y` ends with the character of cell `(j, y)`, and extends the text of the
/// first `j` columns.
pub proof fn lemma_row_text_ends_with_cell(p: &Pixels, y: int, support: TermColorSupport, j: int)
    requires
        0 <= j,
    ensures
        row_text(p, y, support, j + 1).last() == (p.chars_view()[y * p.width() + j] as int) as char,
        row_text(p, y, support, j).is_prefix_of(row_text(p, y, support, j + 1)),
{
    let a = row_text(p, y, support, j);
    let b = row_text(p, y, support, j + 1);
    assert(b == a + color_change_text(p, y, j, support) + seq![code_char(p.char_at(j, y) as int)]);
    assert forall|k: int| 0 <= k < a.len() implies a[k] == b[k] by {}
}

impl Pixels {
    /// Width and height.
    pub closed spec fn dims(&self) -> (usize, usize) {
        self.size
    }

    /// Width and height.
    pub fn get_size(&self) -> (s: (usize, usize))
        ensures
            s == self.dims(),
    {
        self.size
    }

    pub open spec fn width(&self) -> int {
        self.dims().0 as int
    }

    pub open spec fn height(&self) -> int {
        self.dims().1 as int
    }

    /// The characters, row by row.
    pub closed spec fn chars_view(&self) -> Seq<u8> {
        self.chars@
    }

    /// The colours, row by row.
    pub closed spec fn colors_view(&self) -> Seq<Color> {
        self.colors@
    }

    /// Both layers hold one entry per cell.
    pub open spec fn wf(&self) -> bool {
        &&& self.width() * self.height() <= usize::MAX
        &&& self.chars_view().len() == self.width() * self.height()
        &&& self.colors_view().len() == self.width() * self.height()
    }

    pub open spec fn in_grid(&self, x: int, y: int) -> bool {
        0 <= x < self.width() && 0 <= y < self.height()
    }

    pub open spec fn char_at(&self, x: int, y: int) -> u8 {
        self.chars_view()[cell_index(self.width(), x, y)]
    }

    pub open spec fn color_at(&self, x: int, y: int) -> Color {
        self.colors_view()[cell_index(self.width(), x, y)]
    }

    /// A grid of the given size, blank (spaces) and white.
    pub fn new(size: (usize, usize)) -> (p: Pixels)
        requires
            size.0 * size.1 <= usize::MAX,
        ensures
            p.dims() == size,
            p.wf(),
            forall|k: int| 0 <= k < size.0 * size.1 ==> #[trigger] p.chars_view()[k] == 32u8,
            forall|k: int| 0 <= k < size.0 * size.1 ==> (#[trigger] p.colors_view()[k])@ == (255u8, 255u8, 255u8),
    {
        let n = size.0 * size.1;
        let white = Color::new_rgb(255, 255, 255);
        let mut chars: Vec<u8> = Vec::new();
        let mut colors: Vec<Color> = Vec::new();
        let mut k: usize = 0;
        while k < n
            invariant
                k <= n,
                chars@.len() == k,
                colors@.len() == k,
                white@ == (255u8, 255u8, 255u8),
                forall|i: int| 0 <= i < k ==> #[trigger] chars@[i] == 32u8,
                forall|i: int| 0 <= i < k ==> #[trigger] colors@[i] == white,
            decreases n - k,
        {
            chars.push(32u8);
            colors.push(white);
            k = k + 1;
        }
        Pixels { size, chars, colors }
    }

    /// Writes a character at index `position.1 * width + position.0`.
    pub fn set_char(&mut self, position: (usize, usize), character: u8)
        requires
            old(self).wf(),
            position.1 * old(self).width() + position.0 < old(self).width() * old(self).height(),
        ensures
            final(self).dims() == old(self).dims(),
            final(self).chars_view() == old(self).chars_view().update(
                cell_index(old(self).width(), position.0 as int, position.1 as int),
                character,
            ),
            final(self).colors_view() == old(self).colors_view(),
    {
        let i = position.1 * self.size.0 + position.0;
        self.chars.set(i, character);
    }

    /// Writes a colour at index `position.1 * width + position.0`.
    pub fn set_color(&mut self, position: (usize, usize), color: Color)
        requires
            old(self).wf(),
            position.1 * old(self).width() + position.0 < old(self).width() * old(self).height(),
        ensures
            final(self).dims() == old(self).dims(),
            final(self).colors_view() == old(self).colors_view().update(
                cell_index(old(self).width(), position.0 as int, position.1 as int),
                color,
            ),
            final(self).chars_view() == old(self).chars_view(),
    {
        let i = position.1 * self.size.0 + position.0;
        self.colors.set(i, color);
    }

    /// The character and colour at `position`, or `None` outside the grid.
    pub fn get_pixel(&self, position: (usize, usize)) -> (r: Option<(u8, Color)>)
        requires
            self.wf(),
        ensures
            self.in_grid(position.0 as int, position.1 as int) ==> r == Some(
                (self.char_at(position.0 as int, position.1 as int), self.color_at(position.0 as int, position.1 as int)),
            ),
            !self.in_grid(position.0 as int, position.1 as int) ==> r is None,
            position.0 < self.width() && position.1 < self.height() ==> r == Some((
                self.chars_view()[position.1 * self.width() + position.0],
                self.colors_view()[position.1 * self.width() + position.0],
            )),
            position.0 >= self.width() || position.1 >= self.height() ==> r is None,
    {
        if position.0 < self.size.0 && position.1 < self.size.1 {
            proof {
                lemma_cell_in_grid(self.width(), self.height(), position.0 as int, position.1 as int);
            }
            let i = position.1 * self.size.0 + position.0;
            Some((self.chars[i], self.colors[i]))
        } else {
            None
        }
    }
    /// Gives every cell the colour `color`; the characters stay.
    pub fn color_all(&mut self, color: Color)
        requires
            old(self).wf(),
        ensures
            final(self).dims() == old(self).dims(),
            final(self).chars_view() == old(self).chars_view(),
            final(self).colors_view().len() == old(self).colors_view().len(),
            forall|k: int| 0 <= k < old(self).colors_view().len() ==> #[trigger] final(self).colors_view()[k] == color,
    {
        let ghost w = self.width();
        let ghost h = self.height();
        let ghost old_colors = self.colors@;
        let mut i: usize = 0;
        while i < self.size.1
            invariant
                self.wf(),
                self.width() == w,
                self.height() == h,
                self.chars@ == old(self).chars@,
                self.dims() == old(self).dims(),
                0 <= i <= h,
                forall|k: int| 0 <= k < i * w ==> #[trigger] self.colors@[k] == color,
            decreases h - i,
        {
            let mut j: usize = 0;
            while j < self.size.0
                invariant
                    self.wf(),
                    self.width() == w,
                    self.height() == h,
                    self.chars@ == old(self).chars@,
                    self.dims() == old(self).dims(),
                    0 <= i < h,
                    0 <= j <= w,
                    forall|k: int| 0 <= k < i * w + j ==> #[trigger] self.colors@[k] == color,
                decreases w - j,
            {
                proof {
                    lemma_cell_in_grid(w, h, j as int, i as int);
                }
                self.set_color((j, i), color);
                j = j + 1;
            }
            assert((i + 1) * w == i * w + w) by (nonlinear_arith);
            i = i + 1;
        }
        assert forall|k: int| 0 <= k < old(self).colors_view().len() implies #[trigger] self.colors@[k] == color by {
            assert(h * w == w * h) by (nonlinear_arith);
        }
    }
    /// Draws `to_comp` centred at `position` (`(0, 0)` is the top-left
    /// corner of `self`): every non-blank cell of `to_comp` that falls inside
    /// `self` overwrites the character and colour there.
    pub fn comp(&mut self, to_comp: &Pixels, position: (i32, i32))
        requires
            old(self).wf(),
            to_comp.wf(),
            old(self).width() <= i32::MAX,
            old(self).height() <= i32::MAX,
            to_comp.width() <= i32::MAX,
            to_comp.height() <= i32::MAX,
            comp_origin(to_comp, position).0 >= i32::MIN,
            comp_origin(to_comp, position).1 >= i32::MIN,
            comp_origin(to_comp, position).1 + to_comp.height() <= i32::MAX + 1,
            to_comp.height() > 0 ==> comp_origin(to_comp, position).0 + to_comp.width() <= i32::MAX + 1,
        ensures
            final(self).dims() == old(self).dims(),
            final(self).wf(),
            forall|x: int, y: int| old(self).in_grid(x, y) ==> #[trigger] final(self).char_at(x, y) == if comp_covers(to_comp, position, x, y) {
                to_comp.char_at(comp_source(to_comp, position, x, y).0, comp_source(to_comp, position, x, y).1)
            } else {
                old(self).char_at(x, y)
            },
            forall|x: int, y: int| old(self).in_grid(x, y) ==> #[trigger] final(self).color_at(x, y) == if comp_covers(to_comp, position, x, y) {
                to_comp.color_at(comp_source(to_comp, position, x, y).0, comp_source(to_comp, position, x, y).1)
            } else {
                old(self).color_at(x, y)
            },
            // Row `i` and column `j` of `to_comp` land on target row
            // `position.1 - height / 2 + i` and column `position.0 - width / 2 + j`.
            forall|x: int, y: int| 0 <= x < old(self).width() && 0 <= y < old(self).height() ==> #[trigger] final(self).char_at(x, y) == if
                0 <= x - (position.0 - to_comp.width() / 2) < to_comp.width()
                && 0 <= y - (position.1 - to_comp.height() / 2) < to_comp.height()
                && to_comp.chars_view()[(y - (position.1 - to_comp.height() / 2)) * to_comp.width() + (x - (position.0 - to_comp.width() / 2))] != 32u8 {
                to_comp.chars_view()[(y - (position.1 - to_comp.height() / 2)) * to_comp.width() + (x - (position.0 - to_comp.width() / 2))]
            } else {
                old(self).chars_view()[y * old(self).width() + x]
            },
            forall|x: int, y: int| 0 <= x < old(self).width() && 0 <= y < old(self).height() ==> #[trigger] final(self).color_at(x, y) == if
                0 <= x - (position.0 - to_comp.width() / 2) < to_comp.width()
                && 0 <= y - (position.1 - to_comp.height() / 2) < to_comp.height()
                && to_comp.chars_view()[(y - (position.1 - to_comp.height() / 2)) * to_comp.width() + (x - (position.0 - to_comp.width() / 2))] != 32u8 {
                to_comp.colors_view()[(y - (position.1 - to_comp.height() / 2)) * to_comp.width() + (x - (position.0 - to_comp.width() / 2))]
            } else {
                old(self).colors_view()[y * old(self).width() + x]
            },
            forall|x: int, y: int| 0 <= x < old(self).width() && 0 <= y < old(self).height() ==> #[trigger] final(self).char_at(x, y)
                == final(self).chars_view()[y * old(self).width() + x],
            forall|x: int, y: int| 0 <= x < old(self).width() && 0 <= y < old(self).height() ==> #[trigger] final(self).color_at(x, y)
                == final(self).colors_view()[y * old(self).width() + x],
    {
        let ghost w = self.width();
        let ghost h = self.height();
        let ghost w2 = to_comp.width();
        let ghost h2 = to_comp.height();
        let ghost start_chars = self.chars@;
        let ghost start_colors = self.colors@;
        let ox: i32 = position.0 - (to_comp.size.0 as i32) / 2;
        let oy: i32 = position.1 - (to_comp.size.1 as i32) / 2;
        assert(ox == comp_origin(to_comp, position).0 && oy == comp_origin(to_comp, position).1);
        let mut i: usize = 0;
        while i < to_comp.size.1
            invariant
                self.wf(),
                self.dims() == old(self).dims(),
                w == self.width(),
                h == self.height(),
                w2 == to_comp.width(),
                h2 == to_comp.height(),
                to_comp.wf(),
                w <= i32::MAX,
                h <= i32::MAX,
                w2 <= i32::MAX,
                h2 <= i32::MAX,
                ox == comp_origin(to_comp, position).0,
                oy == comp_origin(to_comp, position).1,
                oy + h2 <= i32::MAX + 1,
                h2 > 0 ==> ox + w2 <= i32::MAX + 1,
                ox >= i32::MIN,
                0 <= i <= h2,
                forall|x: int, y: int| 0 <= x < w && 0 <= y < h ==> #[trigger] self.char_at(x, y) == if comp_covers(to_comp, position, x, y) && y - oy < i {
                    to_comp.char_at(x - ox, y - oy)
                } else {
                    start_chars[cell_index(w, x, y)]
                },
                forall|x: int, y: int| 0 <= x < w && 0 <= y < h ==> #[trigger] self.color_at(x, y) == if comp_covers(to_comp, position, x, y) && y - oy < i {
                    to_comp.color_at(x - ox, y - oy)
                } else {
                    start_colors[cell_index(w, x, y)]
                },
            decreases h2 - i,
        {
            let y: i32 = oy + i as i32;
            let mut j: usize = 0;
            while j < to_comp.size.0
                invariant
                    self.wf(),
                    self.dims() == old(self).dims(),
                    w == self.width(),
                    h == self.height(),
                    w2 == to_comp.width(),
                    h2 == to_comp.height(),
                    to_comp.wf(),
                    w <= i32::MAX,
                    h <= i32::MAX,
                    w2 <= i32::MAX,
                    ox == comp_origin(to_comp, position).0,
                    oy == comp_origin(to_comp, position).1,
                    ox + w2 <= i32::MAX + 1,
                    ox >= i32::MIN,
                    0 <= i < h2,
                    y == oy + i,
                    0 <= j <= w2,
                    forall|x: int, yy: int| 0 <= x < w && 0 <= yy < h ==> #[trigger] self.char_at(x, yy) == if comp_covers(to_comp, position, x, yy)
                        && (yy - oy < i || (yy - oy == i && x - ox < j)) {
                        to_comp.char_at(x - ox, yy - oy)
                    } else {
                        start_chars[cell_index(w, x, yy)]
                    },
                    forall|x: int, yy: int| 0 <= x < w && 0 <= yy < h ==> #[trigger] self.color_at(x, yy) == if comp_covers(to_comp, position, x, yy)
                        && (yy - oy < i || (yy - oy == i && x - ox < j)) {
                        to_comp.color_at(x - ox, yy - oy)
                    } else {
                        start_colors[cell_index(w, x, yy)]
                    },
                decreases w2 - j,
            {
                let x: i32 = ox + j as i32;
                proof {
                    lemma_cell_in_grid(w2, h2, j as int, i as int);
                }
                let k = i * to_comp.size.0 + j;
                if x >= 0 && x < self.size.0 as i32 && y >= 0 && y < self.size.1 as i32 && to_comp.chars[k] != 32u8 {
                    let ghost before = *self;
                    proof {
                        lemma_cell_in_grid(w, h, x as int, y as int);
                    }
                    let ghost idx0 = cell_index(w, x as int, y as int);
                    let ghost c0 = to_comp.chars@[k as int];
                    let ghost col0 = to_comp.colors@[k as int];
                    assert(c0 == to_comp.char_at(j as int, i as int));
                    assert(col0 == to_comp.color_at(j as int, i as int));
                    self.set_char((x as usize, y as usize), to_comp.chars[k]);
                    self.set_color((x as usize, y as usize), to_comp.colors[k]);
                    assert(self.chars@ == before.chars@.update(idx0, c0));
                    assert(self.colors@ == before.colors@.update(idx0, col0));
                    assert forall|xx: int, yy: int| 0 <= xx < w && 0 <= yy < h implies
                        #[trigger] self.char_at(xx, yy) == if (xx != x || yy != y) { before.char_at(xx, yy) } else { c0 }
                    by {
                        lemma_cell_in_grid(w, h, xx, yy);
                        if cell_index(w, xx, yy) == idx0 {
                            lemma_cell_injective(w, xx, yy, x as int, y as int);
                        }
                    }
                    assert forall|xx: int, yy: int| 0 <= xx < w && 0 <= yy < h implies
                        #[trigger] self.color_at(xx, yy) == if (xx != x || yy != y) { before.color_at(xx, yy) } else { col0 }
                    by {
                        lemma_cell_in_grid(w, h, xx, yy);
                        if cell_index(w, xx, yy) == idx0 {
                            lemma_cell_injective(w, xx, yy, x as int, y as int);
                        }
                    }
                }
                j = j + 1;
            }
            i = i + 1;
        }
    }
    /// Writes `character` at `(x, y)` when that cell lies in the grid;
    /// leaves the grid as it is otherwise.
    pub fn put_char(&mut self, x: i32, y: i32, character: u8)
        requires
            old(self).wf(),
        ensures
            final(self).dims() == old(self).dims(),
            final(self).colors_view() == old(self).colors_view(),
            old(self).in_grid(x as int, y as int) ==> final(self).chars_view() == old(self).chars_view().update(
                cell_index(old(self).width(), x as int, y as int),
                character,
            ),
            !old(self).in_grid(x as int, y as int) ==> final(self).chars_view() == old(self).chars_view(),
            0 <= x < old(self).width() && 0 <= y < old(self).height() ==> final(self).chars_view()
                == old(self).chars_view().update(y * old(self).width() + x, character),
            !(0 <= x < old(self).width() && 0 <= y < old(self).height()) ==> final(self).chars_view() == old(self).chars_view(),
    {
        if x >= 0 && (x as usize) < self.size.0 && y >= 0 && (y as usize) < self.size.1 {
            proof {
                lemma_cell_in_grid(self.width(), self.height(), x as int, y as int);
            }
            self.set_char((x as usize, y as usize), character);
        }
    }

    /// Row `row` as written to the terminal (see `line_text`).
    pub fn render_line(&self, row: usize, term_color_support: &TermColorSupport) -> (line: String)
        requires
            self.wf(),
            row < self.height(),
        ensures
            line@ == line_text(self, row as int, *term_color_support),
            *term_color_support == TermColorSupport::NoColor ==> line@ == Seq::new(
                self.width() as nat,
                |j: int| (self.chars_view()[row * self.width() + j] as int) as char,
            ) + "\x1b[0m\n"@,
    {
        proof {
            lemma_row_text_without_color(self, row as int, self.width());
        }
        let w = self.size.0;
        let mut line = String::new();
        let mut j: usize = 0;
        while j < w
            invariant
                self.wf(),
                w == self.width(),
                row < self.height(),
                j <= w,
                line@ == row_text(self, row as int, *term_color_support, j as int),
            decreases w - j,
        {
            proof {
                lemma_cell_in_grid(self.width(), self.height(), j as int, row as int);
            }
            let k = row * w + j;
            let ghost before = line@;
            if j == 0 {
                match self.colors[k].to_escape(term_color_support) {
                    Some(e) => line.append(e.as_str()),
                    None => {},
                }
            } else {
                proof {
                    lemma_cell_in_grid(self.width(), self.height(), (j - 1) as int, row as int);
                }
                if self.colors[k] != self.colors[k - 1] {
                    match self.colors[k].to_escape(term_color_support) {
                        Some(e) => line.append(e.as_str()),
                        None => {},
                    }
                }
            }
            assert(line@ == before + color_change_text(self, row as int, j as int, *term_color_support));
            line.push(self.chars[k] as char);
            j = j + 1;
        }
        line.append("\x1b[0m\n");
        line
    }
}

} // verus!
