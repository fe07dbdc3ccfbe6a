use vstd::prelude::*;
use crate::geom::{Coord, Size};
use crate::world::Rgb24;

verus! {

/// How a cell is drawn; `None` leaves the attribute as it was.
#[derive(Clone, Copy, Debug, PartialEq, Eq, Structural)]
pub struct Style {
    pub foreground: Option<Rgb24>,
    pub background: Option<Rgb24>,
    pub bold: Option<bool>,
    pub underline: Option<bool>,
}

impl Style {
    pub fn new() -> (r: Style)
        ensures
            r == (Style { foreground: None, background: None, bold: None, underline: None }),
    {
        Style { foreground: None, background: None, bold: None, underline: None }
    }
}

/// One cell to draw: a character and its style.
#[derive(Clone, Copy, Debug, PartialEq, Eq, Structural)]
pub struct ViewCell {
    pub character: Option<char>,
    pub style: Style,
}

/// The characters a border is made of.
#[derive(Clone, Copy, Debug, PartialEq, Eq, Structural)]
pub struct BorderChars {
    pub top: char,
    pub bottom: char,
    pub left: char,
    pub right: char,
    pub top_left: char,
    pub top_right: char,
    pub bottom_left: char,
    pub bottom_right: char,
    pub before_title: char,
    pub after_title: char,
}

impl BorderChars {
    /// Single-line box-drawing characters.
    pub fn single() -> (r: BorderChars)
        ensures
            r == (BorderChars {
                top: '\u{2500}',
                bottom: '\u{2500}',
                left: '\u{2502}',
                right: '\u{2502}',
                top_left: '\u{250c}',
                top_right: '\u{2510}',
                bottom_left: '\u{2514}',
                bottom_right: '\u{2518}',
                before_title: '\u{2524}',
                after_title: '\u{251c}',
            }),
    {
        BorderChars {
            top: '\u{2500}',
            bottom: '\u{2500}',
            left: '\u{2502}',
            right: '\u{2502}',
            top_left: '\u{250c}',
            top_right: '\u{2510}',
            bottom_left: '\u{2514}',
            bottom_right: '\u{2518}',
            before_title: '\u{2524}',
            after_title: '\u{251c}',
        }
    }
}

/// Cells between the border and the element inside it, on each side.
#[derive(Clone, Copy, Debug, PartialEq, Eq, Structural)]
pub struct BorderPadding {
    pub top: u32,
    pub bottom: u32,
    pub left: u32,
    pub right: u32,
}

impl BorderPadding {
    pub fn all(padding: u32) -> (r: BorderPadding)
        ensures
            r == (BorderPadding { top: padding, bottom: padding, left: padding, right: padding }),
    {
        BorderPadding { top: padding, bottom: padding, left: padding, right: padding }
    }
}

/// A border around an element, with an optional title in its top-left part.
pub struct BorderStyle {
    pub title: Option<Vec<char>>,
    pub padding: BorderPadding,
    pub chars: BorderChars,
    pub foreground: Rgb24,
    pub background: Option<Rgb24>,
    pub bold: bool,
    pub title_style: Style,
}

/// The style's border cells are drawable: every coordinate fits in `i32`.
pub open spec fn border_fits(style: &BorderStyle, size: Size) -> bool {
    &&& style.padding.left + style.padding.right + 1 + size.width <= i32::MAX
    &&& style.padding.top + style.padding.bottom + 1 + size.height <= i32::MAX
    &&& style.padding.left + style.padding.right + 2 <= u32::MAX
    &&& style.padding.top + style.padding.bottom + 2 <= u32::MAX
    &&& match style.title {
        Some(t) => t@.len() + 2 <= i32::MAX,
        None => true,
    }
}

/// The cell drawn with a border character.
pub open spec fn border_cell(style: &BorderStyle, ch: char) -> ViewCell {
    ViewCell {
        character: Some(ch),
        style: Style {
            foreground: Some(style.foreground),
            background: style.background,
            bold: Some(style.bold),
            underline: Some(false),
        },
    }
}

pub open spec fn span_x(style: &BorderStyle, size: Size) -> int {
    style.padding.left + style.padding.right + 1 + size.width
}

pub open spec fn span_y(style: &BorderStyle, size: Size) -> int {
    style.padding.top + style.padding.bottom + 1 + size.height
}

pub open spec fn at(x: int, y: int, cell: ViewCell) -> (Coord, ViewCell) {
    (Coord { x: x as i32, y: y as i32 }, cell)
}

/// Columns of the top edge taken by the title and its two markers.
pub open spec fn title_offset(style: &BorderStyle) -> int {
    match style.title {
        Some(t) => t@.len() as int + 2,
        None => 0,
    }
}

/// The title's cells: the marker before it, the marker after it, then its
/// characters from column 2.
pub open spec fn title_cells(style: &BorderStyle) -> Seq<(Coord, ViewCell)> {
    match style.title {
        Some(t) => seq![
            at(1, 0, border_cell(style, style.chars.before_title)),
            at(t@.len() as int + 2, 0, border_cell(style, style.chars.after_title)),
        ] + Seq::new(
            t@.len(),
            |k: int| at(k + 2, 0, ViewCell { character: Some(t@[k]), style: style.title_style }),
        ),
        None => Seq::empty(),
    }
}

/// Length of the run `lo..hi`.
pub open spec fn run_len(lo: int, hi: int) -> nat {
    if lo < hi {
        (hi - lo) as nat
    } else {
        0
    }
}

/// Every cell of a border around an element of `size`, in drawing order: the
/// four corners, the title, the top edge after the title, the bottom edge,
/// then the left and right edges row by row.
pub open spec fn border_cells(style: &BorderStyle, size: Size) -> Seq<(Coord, ViewCell)> {
    let sx = span_x(style, size);
    let sy = span_y(style, size);
    let off = title_offset(style);
    let corners = seq![
        at(0, 0, border_cell(style, style.chars.top_left)),
        at(sx, 0, border_cell(style, style.chars.top_right)),
        at(0, sy, border_cell(style, style.chars.bottom_left)),
        at(sx, sy, border_cell(style, style.chars.bottom_right)),
    ];
    let top = Seq::new(run_len(1 + off, sx), |k: int| at(1 + off + k, 0, border_cell(style, style.chars.top)));
    let bottom = Seq::new(run_len(1, sx), |k: int| at(1 + k, sy, border_cell(style, style.chars.bottom)));
    let sides = Seq::new(
        2 * run_len(1, sy),
        |k: int|
            if k % 2 == 0 {
                at(0, 1 + k / 2, border_cell(style, style.chars.left))
            } else {
                at(sx, 1 + k / 2, border_cell(style, style.chars.right))
            },
    );
    corners + title_cells(style) + top + bottom + sides
}

impl BorderStyle {
    pub fn new() -> (r: BorderStyle)
        ensures
            r.title is None,
            r.padding == (BorderPadding { top: 0, bottom: 0, left: 0, right: 0 }),
            r.chars == BorderChars::spec_single(),
            r.foreground == (Rgb24 { r: 255, g: 255, b: 255 }),
            r.background is None,
            !r.bold,
            r.title_style == (Style { foreground: None, background: None, bold: None, underline: None }),
    {
        BorderStyle {
            title: None,
            padding: BorderPadding::all(0),
            chars: BorderChars::single(),
            foreground: Rgb24 { r: 255, g: 255, b: 255 },
            background: None,
            bold: false,
            title_style: Style::new(),
        }
    }

    pub fn new_with_title(title: Vec<char>) -> (r: BorderStyle)
        ensures
            r.title == Some(title),
            r.padding == (BorderPadding { top: 0, bottom: 0, left: 0, right: 0 }),
            r.chars == BorderChars::spec_single(),
            r.foreground == (Rgb24 { r: 255, g: 255, b: 255 }),
            r.background is None,
            !r.bold,
            r.title_style == (Style { foreground: None, background: None, bold: None, underline: None }),
    {
        let s = BorderStyle::new();
        BorderStyle { title: Some(title), ..s }
    }

    /// Where the element inside the border starts.
    pub fn child_offset(&self) -> (r: Coord)
        requires
            self.padding.left + 1 <= i32::MAX,
            self.padding.top + 1 <= i32::MAX,
        ensures
            r.x == self.padding.left + 1,
            r.y == self.padding.top + 1,
    {
        Coord { x: (self.padding.left + 1) as i32, y: (self.padding.top + 1) as i32 }
    }

    /// How much the border and padding take from the element's room.
    pub fn child_constrain_size_by(&self) -> (r: Size)
        requires
            self.padding.left + self.padding.right + 2 <= u32::MAX,
            self.padding.top + self.padding.bottom + 2 <= u32::MAX,
        ensures
            r.width == self.padding.left + self.padding.right + 2,
            r.height == self.padding.top + self.padding.bottom + 2,
    {
        Size { width: self.padding.left + self.padding.right + 2, height: self.padding.top + self.padding.bottom + 2 }
    }

    /// Offset from an element's size to the border's far corner.
    pub fn span_offset(&self) -> (r: Coord)
        requires
            self.padding.left + self.padding.right + 1 <= i32::MAX,
            self.padding.top + self.padding.bottom + 1 <= i32::MAX,
        ensures
            r.x == self.padding.left + self.padding.right + 1,
            r.y == self.padding.top + self.padding.bottom + 1,
    {
        Coord {
            x: (self.padding.left + self.padding.right + 1) as i32,
            y: (self.padding.top + self.padding.bottom + 1) as i32,
        }
    }

    /// The cell drawn with a border character.
    pub fn view_cell(&self, ch: char) -> (r: ViewCell)
        ensures
            r == border_cell(self, ch),
    {
        ViewCell {
            character: Some(ch),
            style: Style {
                foreground: Some(self.foreground),
                background: self.background,
                bold: Some(self.bold),
                underline: Some(false),
            },
        }
    }
}

impl BorderChars {
    pub open spec fn spec_single() -> BorderChars {
        BorderChars {
            top: '\u{2500}',
            bottom: '\u{2500}',
            left: '\u{2502}',
            right: '\u{2502}',
            top_left: '\u{250c}',
            top_right: '\u{2510}',
            bottom_left: '\u{2514}',
            bottom_right: '\u{2518}',
            before_title: '\u{2524}',
            after_title: '\u{251c}',
        }
    }
}

/// Appends the cells `at(x0 + k, y, cell)` for `k` in `0..n`.
fn push_row(out: &mut Vec<(Coord, ViewCell)>, x0: i32, y: i32, n: i32, cell: ViewCell)
    requires
        n >= 0,
        x0 + n <= i32::MAX,
    ensures
        final(out)@ == old(out)@ + Seq::new(n as nat, |k: int| at(x0 + k, y as int, cell)),
{
    let ghost base = out@;
    let mut k: i32 = 0;
    while k < n
        invariant
            0 <= k <= n,
            x0 + n <= i32::MAX,
            out@ == base + Seq::new(k as nat, |j: int| at(x0 + j, y as int, cell)),
        decreases n - k,
    {
        out.push((Coord { x: x0 + k, y }, cell));
        k += 1;
        assert(out@ =~= base + Seq::new(k as nat, |j: int| at(x0 + j, y as int, cell)));
    }
}

/// Every cell of the border around an element of `size`, in drawing order.
pub fn draw_border(style: &BorderStyle, size: Size) -> (r: Vec<(Coord, ViewCell)>)
    requires
        border_fits(style, size),
    ensures
        r@ == border_cells(style, size),
{
    let sx: i32 = (style.padding.left as i64 + style.padding.right as i64 + 1 + size.width as i64) as i32;
    let sy: i32 = (style.padding.top as i64 + style.padding.bottom as i64 + 1 + size.height as i64) as i32;
    let mut out: Vec<(Coord, ViewCell)> = Vec::new();
    out.push((Coord { x: 0, y: 0 }, style.view_cell(style.chars.top_left)));
    out.push((Coord { x: sx, y: 0 }, style.view_cell(style.chars.top_right)));
    out.push((Coord { x: 0, y: sy }, style.view_cell(style.chars.bottom_left)));
    out.push((Coord { x: sx, y: sy }, style.view_cell(style.chars.bottom_right)));
    let ghost corners = out@;
    let off: i32 = match &style.title {
        Some(t) => {
            let n = t.len() as i32;
            out.push((Coord { x: 1, y: 0 }, style.view_cell(style.chars.before_title)));
            out.push((Coord { x: n + 2, y: 0 }, style.view_cell(style.chars.after_title)));
            let ghost base = out@;
            let mut k: i32 = 0;
            while k < n
                invariant
                    0 <= k <= n,
                    n == t@.len(),
                    n + 2 <= i32::MAX,
                    out@ == base + Seq::new(
                        k as nat,
                        |j: int| at(j + 2, 0, ViewCell { character: Some(t@[j]), style: style.title_style }),
                    ),
                decreases n - k,
            {
                out.push((Coord { x: k + 2, y: 0 }, ViewCell { character: Some(t[k as usize]), style: style.title_style }));
                k += 1;
                assert(out@ =~= base + Seq::new(
                    k as nat,
                    |j: int| at(j + 2, 0, ViewCell { character: Some(t@[j]), style: style.title_style }),
                ));
            }
            assert(out@ =~= corners + title_cells(style));
            n + 2
        },
        None => {
            assert(out@ =~= corners + title_cells(style));
            0
        },
    };
    let ghost with_title = out@;
    assert(off as int == title_offset(style));
    if off < sx - 1 {
        push_row(&mut out, 1 + off, 0, sx - 1 - off, style.view_cell(style.chars.top));
    } else {
        assert(Seq::new(run_len(1 + off, sx as int), |k: int| at(1 + off + k, 0, border_cell(style, style.chars.top)))
            =~= Seq::<(Coord, ViewCell)>::empty());
        assert(out@ =~= with_title + Seq::new(run_len(1 + off, sx as int), |k: int| at(1 + off + k, 0, border_cell(style, style.chars.top))));
    }
    let bottom_n: i32 = if 1 < sx { sx - 1 } else { 0 };
    push_row(&mut out, 1, sy, bottom_n, style.view_cell(style.chars.bottom));
    let ghost before_sides = out@;
    let left = style.view_cell(style.chars.left);
    let right = style.view_cell(style.chars.right);
    let mut i: i32 = 1;
    while i < sy
        invariant
            1 <= i <= sy || (sy < 1 && i == 1),
            sy == span_y(style, size),
            sx == span_x(style, size),
            left == border_cell(style, style.chars.left),
            right == border_cell(style, style.chars.right),
            out@ == before_sides + Seq::new(
                2 * ((i - 1) as nat),
                |k: int|
                    if k % 2 == 0 {
                        at(0, 1 + k / 2, left)
                    } else {
                        at(sx as int, 1 + k / 2, right)
                    },
            ),
        decreases sy - i,
    {
        out.push((Coord { x: 0, y: i }, left));
        out.push((Coord { x: sx, y: i }, right));
        i += 1;
        assert(out@ =~= before_sides + Seq::new(
            2 * ((i - 1) as nat),
            |k: int|
                if k % 2 == 0 {
                    at(0, 1 + k / 2, left)
                } else {
                    at(sx as int, 1 + k / 2, right)
                },
        ));
    }
    assert(out@ =~= border_cells(style, size));
    out
}

} // verus!
