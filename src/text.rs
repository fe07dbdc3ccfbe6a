use vstd::prelude::*;
use crate::border::{Style, ViewCell};
use crate::geom::{Coord, Size};

verus! {

/// A width and a height in some unit.
#[derive(Clone, Copy, Debug, PartialEq, Eq)]
pub struct Dimensions<T> {
    pub width: T,
    pub height: T,
}

/// The bytes of a regular and a bold font.
pub struct FontBytes {
    pub normal: Vec<u8>,
    pub bold: Vec<u8>,
}

/// Draws a line of text into a grid of characters, one cell per character,
/// from an offset rightward; characters falling outside the grid are dropped.
#[derive(Clone, Copy, Debug, PartialEq, Eq, Structural, Default)]
pub struct StringView;

/// Draws a line of text like `StringView`, into styled cells.
#[derive(Clone, Copy, Debug, PartialEq, Eq, Structural)]
pub struct RichStringView {
    pub info: Style,
}

/// A cell after writing character `ch` with the attributes `info` sets; the
/// attributes it leaves unset keep their values.
pub open spec fn written(info: Style, ch: char, cell: ViewCell) -> ViewCell {
    ViewCell {
        character: Some(ch),
        style: Style {
            foreground: if info.foreground is Some { info.foreground } else { cell.style.foreground },
            background: if info.background is Some { info.background } else { cell.style.background },
            bold: if info.bold is Some { info.bold } else { cell.style.bold },
            underline: if info.underline is Some { info.underline } else { cell.style.underline },
        },
    }
}

fn write_cell(info: Style, ch: char, cell: ViewCell) -> (r: ViewCell)
    ensures
        r == written(info, ch, cell),
{
    ViewCell {
        character: Some(ch),
        style: Style {
            foreground: if info.foreground.is_some() { info.foreground } else { cell.style.foreground },
            background: if info.background.is_some() { info.background } else { cell.style.background },
            bold: if info.bold.is_some() { info.bold } else { cell.style.bold },
            underline: if info.underline.is_some() { info.underline } else { cell.style.underline },
        },
    }
}

/// The row-major cell that character `i` of a text drawn at `offset` lands on.
pub open spec fn text_cell(size: Size, offset: Coord, i: int) -> Option<int> {
    let x = offset.x + i;
    let y = offset.y as int;
    if 0 <= x < size.width && 0 <= y < size.height {
        Some(y * size.width + x)
    } else {
        None
    }
}

/// `after` is `before` with `text` drawn from `offset`: each character on
/// its in-grid cell, every other cell unchanged.
pub open spec fn string_drawn(text: Seq<char>, offset: Coord, size: Size, before: Seq<char>, after: Seq<char>) -> bool {
    &&& after.len() == before.len()
    &&& forall|i: int|
        0 <= i < text.len() && (#[trigger] text_cell(size, offset, i)) is Some ==> after[text_cell(
            size,
            offset,
            i,
        ).unwrap()] == text[i]
    &&& forall|j: int|
        0 <= j < after.len() && (forall|i: int| 0 <= i < text.len() ==> #[trigger] text_cell(size, offset, i) != Some(j))
            ==> after[j] == before[j]
}

/// Drawing the same text twice leaves the grid as drawing it once.
pub proof fn lemma_string_view_idempotent(
    text: Seq<char>,
    offset: Coord,
    size: Size,
    c0: Seq<char>,
    c1: Seq<char>,
    c2: Seq<char>,
)
    requires
        string_drawn(text, offset, size, c0, c1),
        string_drawn(text, offset, size, c1, c2),
        c0.len() == size.count(),
    ensures
        c2 == c1,
{
    assert forall|j: int| 0 <= j < c1.len() implies c2[j] == c1[j] by {
        if exists|i: int| 0 <= i < text.len() && #[trigger] text_cell(size, offset, i) == Some(j) {
            let i = choose|i: int| 0 <= i < text.len() && #[trigger] text_cell(size, offset, i) == Some(j);
            assert(c1[text_cell(size, offset, i).unwrap()] == text[i]);
        }
    }
    assert(c2 =~= c1);
}

/// The first character of a non-empty text lands on the offset's own cell
/// when that cell is in the grid.
pub proof fn lemma_string_view_writes_offset(
    text: Seq<char>,
    offset: Coord,
    size: Size,
    c0: Seq<char>,
    c1: Seq<char>,
)
    requires
        string_drawn(text, offset, size, c0, c1),
        text.len() > 0,
        size.contains(offset),
    ensures
        c1[size.index_of(offset)] == text[0],
{
    assert(text_cell(size, offset, 0) == Some(size.index_of(offset)));
}

impl StringView {
    pub fn view(&self, text: &Vec<char>, offset: Coord, size: Size, cells: &mut Vec<char>)
        requires
            size.wf(),
            old(cells)@.len() == size.count(),
            text@.len() <= i32::MAX,
        ensures
            string_drawn(text@, offset, size, old(cells)@, final(cells)@),
    {
        let mut i: usize = 0;
        while i < text.len()
            invariant
                size.wf(),
                i <= text@.len(),
                text@.len() <= i32::MAX,
                cells@.len() == size.count(),
                forall|k: int|
                    0 <= k < i && (#[trigger] text_cell(size, offset, k)) is Some
                        ==> cells@[text_cell(size, offset, k).unwrap()] == text@[k],
                forall|j: int|
                    0 <= j < cells@.len() && (forall|k: int|
                        0 <= k < i ==> #[trigger] text_cell(size, offset, k) != Some(j))
                        ==> cells@[j] == old(cells)@[j],
            decreases text.len() - i,
        {
            let x = offset.x as i64 + i as i64;
            let y = offset.y as i64;
            if 0 <= x && x < size.width as i64 && 0 <= y && y < size.height as i64 {
                let w = size.width as usize;
                let yu = y as usize;
                proof {
                    crate::geom::lemma_count_bound(size);
                    assert(yu * w + x < size.count()) by (nonlinear_arith)
                        requires
                            0 <= yu < size.height,
                            0 <= x < size.width,
                            w == size.width,
                            size.count() == size.width * size.height,
                    ;
                }
                let idx = yu * w + x as usize;
                let ghost before = cells@;
                cells.set(idx, text[i]);
                proof {
                    assert(text_cell(size, offset, i as int) == Some(idx as int));
                    assert forall|k: int|
                        0 <= k < i + 1 && (#[trigger] text_cell(size, offset, k)) is Some
                            implies cells@[text_cell(size, offset, k).unwrap()] == text@[k] by {
                        if k < i {
                            if text_cell(size, offset, k).unwrap() == idx as int {
                                // two characters of one line never share a cell
                                assert(offset.x + k == offset.x + i);
                            }
                        }
                    }
                }
            }
            i += 1;
        }
    }
}

impl RichStringView {
    pub fn new() -> (r: RichStringView)
        ensures
            r.info == (Style { foreground: None, background: None, bold: None, underline: None }),
    {
        RichStringView { info: Style::new() }
    }

    /// Draws like `StringView`, and applies the attributes that `info` sets to
    /// each written cell.
    pub fn view(&self, text: &Vec<char>, offset: Coord, size: Size, cells: &mut Vec<ViewCell>)
        requires
            size.wf(),
            old(cells)@.len() == size.count(),
            text@.len() <= i32::MAX,
        ensures
            final(cells)@.len() == old(cells)@.len(),
            forall|i: int|
                0 <= i < text@.len() && (#[trigger] text_cell(size, offset, i)) is Some
                    ==> final(cells)@[text_cell(size, offset, i).unwrap()] == written(self.info, text@[i], old(cells)@[text_cell(size, offset, i).unwrap()]),
            forall|j: int|
                0 <= j < final(cells)@.len() && (forall|i: int|
                    0 <= i < text@.len() ==> #[trigger] text_cell(size, offset, i) != Some(j))
                    ==> final(cells)@[j] == old(cells)@[j],
    {
        let mut i: usize = 0;
        while i < text.len()
            invariant
                size.wf(),
                i <= text@.len(),
                text@.len() <= i32::MAX,
                cells@.len() == size.count(),
                forall|k: int|
                    0 <= k < i && (#[trigger] text_cell(size, offset, k)) is Some
                        ==> cells@[text_cell(size, offset, k).unwrap()] == written(self.info, text@[k], old(cells)@[text_cell(size, offset, k).unwrap()]),
                forall|j: int|
                    0 <= j < cells@.len() && (forall|k: int|
                        0 <= k < i ==> #[trigger] text_cell(size, offset, k) != Some(j))
                        ==> cells@[j] == old(cells)@[j],
            decreases text.len() - i,
        {
            let x = offset.x as i64 + i as i64;
            let y = offset.y as i64;
            if 0 <= x && x < size.width as i64 && 0 <= y && y < size.height as i64 {
                let w = size.width as usize;
                let yu = y as usize;
                proof {
                    crate::geom::lemma_count_bound(size);
                    assert(yu * w + x < size.count()) by (nonlinear_arith)
                        requires
                            0 <= yu < size.height,
                            0 <= x < size.width,
                            w == size.width,
                            size.count() == size.width * size.height,
                    ;
                }
                let idx = yu * w + x as usize;
                let ghost before = cells@;
                let old_cell = cells[idx];
                proof {
                    assert(text_cell(size, offset, i as int) == Some(idx as int));
                    assert forall|k: int| 0 <= k < i implies #[trigger] text_cell(size, offset, k) != Some(idx as int) by {
                        if text_cell(size, offset, k) == Some(idx as int) {
                            assert(offset.x + k == offset.x + i);
                        }
                    }
                    assert(old_cell == old(cells)@[idx as int]);
                }
                cells.set(idx, write_cell(self.info, text[i], old_cell));
                proof {
                    assert(text_cell(size, offset, i as int) == Some(idx as int));
                    assert forall|k: int|
                        0 <= k < i + 1 && (#[trigger] text_cell(size, offset, k)) is Some
                            implies cells@[text_cell(size, offset, k).unwrap()] == written(self.info, text@[k], old(cells)@[text_cell(size, offset, k).unwrap()]) by {
                        if k < i {
                            if text_cell(size, offset, k).unwrap() == idx as int {
                                // two characters of one line never share a cell
                                assert(offset.x + k == offset.x + i);
                            }
                        }
                    }
                }
            }
            i += 1;
        }
    }
}

} // verus!
