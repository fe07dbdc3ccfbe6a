use vstd::prelude::*;
use crate::geom::{Coord, Size};

verus! {

/// Widest grid a window is given, in cells.
pub const MAX_WIDTH_IN_CELLS: u32 = 256;
/// Tallest grid a window is given, in cells.
pub const MAX_HEIGHT_IN_CELLS: u32 = 256;
/// A cell's height divided by this is the default underline width.
pub const UNDERLINE_WIDTH_RATIO: u32 = 20;
/// A cell's height divided by this is the default gap below the underline.
pub const UNDERLINE_POSITION_RATIO: u32 = 20;

/// The little-endian value of four bytes.
pub open spec fn le_u32(b0: u8, b1: u8, b2: u8, b3: u8) -> int {
    b0 + 256 * b1 + 65536 * b2 + 16777216 * b3
}

/// Reads a byte buffer as consecutive little-endian 32-bit words.
pub fn u8_slice_to_u32_vec(bytes: &Vec<u8>) -> (r: Vec<u32>)
    requires
        bytes@.len() % 4 == 0,
    ensures
        r@.len() == bytes@.len() / 4,
        forall|i: int|
            0 <= i < r@.len() ==> #[trigger] r@[i] == le_u32(
                bytes@[4 * i],
                bytes@[4 * i + 1],
                bytes@[4 * i + 2],
                bytes@[4 * i + 3],
            ),
{
    let len = bytes.len();
    let n = len / 4;
    let mut out: Vec<u32> = Vec::new();
    let mut i: usize = 0;
    while i < n
        invariant
            n == bytes@.len() / 4,
            len == bytes@.len(),
            bytes@.len() % 4 == 0,
            i <= n,
            out@.len() == i,
            forall|j: int|
                0 <= j < i ==> #[trigger] out@[j] == le_u32(
                    bytes@[4 * j],
                    bytes@[4 * j + 1],
                    bytes@[4 * j + 2],
                    bytes@[4 * j + 3],
                ),
        decreases n - i,
    {
        proof {
            let len = bytes@.len() as int;
            assert(4 * i + 3 < len) by (nonlinear_arith)
                requires
                    i < n,
                    n == len / 4,
                    len % 4 == 0,
                    len >= 0,
            {
                assert(len == 4 * (len / 4) + len % 4);
            }
        }
        let k = 4 * i;
        let w: u32 = bytes[k] as u32 + 256 * (bytes[k + 1] as u32) + 65536 * (bytes[k + 2] as u32)
            + 16777216 * (bytes[k + 3] as u32);
        out.push(w);
        i += 1;
    }
    out
}

/// The grid that fits a window: whole cells, capped at 256 on each side.
pub fn grid_size(window_width: u32, window_height: u32, cell_width: u32, cell_height: u32) -> (r: Size)
    requires
        cell_width > 0,
        cell_height > 0,
    ensures
        r.width == (if window_width / cell_width <= MAX_WIDTH_IN_CELLS {
            window_width / cell_width
        } else {
            MAX_WIDTH_IN_CELLS
        }),
        r.height == (if window_height / cell_height <= MAX_HEIGHT_IN_CELLS {
            window_height / cell_height
        } else {
            MAX_HEIGHT_IN_CELLS
        }),
{
    let w = window_width / cell_width;
    let h = window_height / cell_height;
    Size {
        width: if w <= MAX_WIDTH_IN_CELLS { w } else { MAX_WIDTH_IN_CELLS },
        height: if h <= MAX_HEIGHT_IN_CELLS { h } else { MAX_HEIGHT_IN_CELLS },
    }
}

/// Settings of a graphical context: fonts, sizes and underline metrics.
pub struct ContextBuilder {
    pub font: Vec<u8>,
    pub bold_font: Option<Vec<u8>>,
    pub cell_dimensions: Option<Size>,
    pub window_dimensions: Option<Size>,
    pub vsync: bool,
    pub locked_size: bool,
    pub underline_width: Option<u32>,
    pub underline_position: Option<u32>,
}

/// Cell and grid measurements of a context.
#[derive(Clone, Copy, Debug, PartialEq, Eq, Structural)]
pub struct ContextLayout {
    pub cell_width: u32,
    pub cell_height: u32,
    pub size_in_cells: Size,
    pub underline_width: u32,
    pub underline_position: u32,
}

impl ContextBuilder {
    pub fn new_with_font(font: Vec<u8>) -> (r: ContextBuilder)
        ensures
            r.font == font,
            r.bold_font is None,
            r.cell_dimensions is None,
            r.window_dimensions is None,
            !r.vsync,
            !r.locked_size,
            r.underline_width is None,
            r.underline_position is None,
    {
        ContextBuilder {
            font,
            bold_font: None,
            cell_dimensions: None,
            window_dimensions: None,
            vsync: false,
            locked_size: false,
            underline_width: None,
            underline_position: None,
        }
    }

    pub fn with_cell_dimensions(self, width: u32, height: u32) -> (r: ContextBuilder)
        ensures
            r == (ContextBuilder { cell_dimensions: Some(Size { width, height }), ..self }),
    {
        ContextBuilder { cell_dimensions: Some(Size { width, height }), ..self }
    }

    pub fn with_window_dimensions(self, width: u32, height: u32) -> (r: ContextBuilder)
        ensures
            r == (ContextBuilder { window_dimensions: Some(Size { width, height }), ..self }),
    {
        ContextBuilder { window_dimensions: Some(Size { width, height }), ..self }
    }

    pub fn with_vsync(self, vsync: bool) -> (r: ContextBuilder)
        ensures
            r == (ContextBuilder { vsync, ..self }),
    {
        ContextBuilder { vsync, ..self }
    }

    pub fn with_locked_size(self, locked_size: bool) -> (r: ContextBuilder)
        ensures
            r == (ContextBuilder { locked_size, ..self }),
    {
        ContextBuilder { locked_size, ..self }
    }

    pub fn with_underline_width(self, underline_width: u32) -> (r: ContextBuilder)
        ensures
            r == (ContextBuilder { underline_width: Some(underline_width), ..self }),
    {
        ContextBuilder { underline_width: Some(underline_width), ..self }
    }

    pub fn with_underline_position(self, underline_position: u32) -> (r: ContextBuilder)
        ensures
            r == (ContextBuilder { underline_position: Some(underline_position), ..self }),
    {
        ContextBuilder { underline_position: Some(underline_position), ..self }
    }

    pub fn with_bold_font(self, bold_font: Vec<u8>) -> (r: ContextBuilder)
        ensures
            r == (ContextBuilder { bold_font: Some(bold_font), ..self }),
    {
        ContextBuilder { bold_font: Some(bold_font), ..self }
    }

    /// The measurements a window of the given size gets: the configured cell
    /// dimensions, else those measured from the font; the grid that fits; and
    /// the configured underline metrics, else a twentieth of the cell height
    /// for the width and the cell height less a twentieth for the position.
    pub fn layout(&self, window_width: u32, window_height: u32, measured_cell: Size) -> (r: ContextLayout)
        requires
            match self.cell_dimensions {
                Some(d) => d.width > 0 && d.height > 0,
                None => measured_cell.width > 0 && measured_cell.height > 0,
            },
        ensures
            r.cell_width == (match self.cell_dimensions {
                Some(d) => d.width,
                None => measured_cell.width,
            }),
            r.cell_height == (match self.cell_dimensions {
                Some(d) => d.height,
                None => measured_cell.height,
            }),
            r.size_in_cells.width == (if window_width / r.cell_width <= MAX_WIDTH_IN_CELLS {
                window_width / r.cell_width
            } else {
                MAX_WIDTH_IN_CELLS
            }),
            r.size_in_cells.height == (if window_height / r.cell_height <= MAX_HEIGHT_IN_CELLS {
                window_height / r.cell_height
            } else {
                MAX_HEIGHT_IN_CELLS
            }),
            r.underline_width == (match self.underline_width {
                Some(u) => u,
                None => r.cell_height / UNDERLINE_WIDTH_RATIO,
            }),
            r.underline_position == (match self.underline_position {
                Some(u) => u,
                None => (r.cell_height - r.cell_height / UNDERLINE_POSITION_RATIO) as u32,
            }),
    {
        let (cell_width, cell_height) = match self.cell_dimensions {
            Some(d) => (d.width, d.height),
            None => (measured_cell.width, measured_cell.height),
        };
        let size_in_cells = grid_size(window_width, window_height, cell_width, cell_height);
        let underline_width = match self.underline_width {
            Some(u) => u,
            None => cell_height / UNDERLINE_WIDTH_RATIO,
        };
        let underline_position = match self.underline_position {
            Some(u) => u,
            None => cell_height - cell_height / UNDERLINE_POSITION_RATIO,
        };
        ContextLayout { cell_width, cell_height, size_in_cells, underline_width, underline_position }
    }
}

/// A key the window reports.
#[derive(Clone, Copy, Debug, PartialEq, Eq, Structural)]
pub enum KeyCode {
    Left,
    Right,
    Up,
    Down,
    Escape,
    Return,
    Other,
}

/// What the window reports, as far as input goes.
#[derive(Clone, Copy, Debug, PartialEq, Eq, Structural)]
pub enum WindowEvent {
    Closed,
    KeyboardInput { pressed: bool, key: Option<KeyCode> },
    Other,
}

/// An input handed to the application.
#[derive(Clone, Copy, Debug, PartialEq, Eq, Structural)]
pub enum KeyInput {
    Left,
    Right,
    Up,
    Down,
    /// The window was closed (end of text).
    Etx,
    Escape,
    Return,
}

/// The input of a window event: closing gives `Etx`, a pressed arrow,
/// Escape or Return key gives that key, and anything else gives nothing.
pub open spec fn spec_input_from_event(e: WindowEvent) -> Option<KeyInput> {
    match e {
        WindowEvent::Closed => Some(KeyInput::Etx),
        WindowEvent::KeyboardInput { pressed, key } => {
            if !pressed {
                None
            } else {
                match key {
                    Some(KeyCode::Left) => Some(KeyInput::Left),
                    Some(KeyCode::Right) => Some(KeyInput::Right),
                    Some(KeyCode::Up) => Some(KeyInput::Up),
                    Some(KeyCode::Down) => Some(KeyInput::Down),
                    Some(KeyCode::Escape) => Some(KeyInput::Escape),
                    Some(KeyCode::Return) => Some(KeyInput::Return),
                    _ => None,
                }
            }
        },
        WindowEvent::Other => None,
    }
}

pub fn input_from_event(e: WindowEvent) -> (r: Option<KeyInput>)
    ensures
        r == spec_input_from_event(e),
{
    match e {
        WindowEvent::Closed => Some(KeyInput::Etx),
        WindowEvent::KeyboardInput { pressed, key } => {
            if !pressed {
                None
            } else {
                match key {
                    Some(KeyCode::Left) => Some(KeyInput::Left),
                    Some(KeyCode::Right) => Some(KeyInput::Right),
                    Some(KeyCode::Up) => Some(KeyInput::Up),
                    Some(KeyCode::Down) => Some(KeyInput::Down),
                    Some(KeyCode::Escape) => Some(KeyInput::Escape),
                    Some(KeyCode::Return) => Some(KeyInput::Return),
                    _ => None,
                }
            }
        },
        WindowEvent::Other => None,
    }
}

/// A mouse button.
#[derive(Clone, Copy, Debug, PartialEq, Eq, Structural)]
pub enum MouseButton {
    Left,
    Middle,
    Right,
}

/// What input handling remembers between events.
#[derive(Clone, Copy, Debug, PartialEq, Eq, Structural)]
pub struct InputContext {
    pub closing: bool,
    pub last_mouse_coord: Coord,
    pub last_mouse_button: Option<MouseButton>,
}

impl Default for InputContext {
    fn default() -> (r: InputContext)
        ensures
            r == (InputContext {
                closing: false,
                last_mouse_coord: Coord { x: 0, y: 0 },
                last_mouse_button: None,
            }),
    {
        InputContext { closing: false, last_mouse_coord: Coord { x: 0, y: 0 }, last_mouse_button: None }
    }
}

} // verus!
