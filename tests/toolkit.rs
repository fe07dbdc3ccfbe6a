use roguelike::border::{draw_border, BorderChars, BorderPadding, BorderStyle, Style, ViewCell};
use roguelike::text::RichStringView;
use roguelike::frontend::{
    grid_size, input_from_event, u8_slice_to_u32_vec, ContextBuilder, InputContext, KeyCode, KeyInput, WindowEvent,
};
use roguelike::geom::{Coord, Size};

#[test]
fn border_without_title() {
    let style = BorderStyle::new();
    let cells = draw_border(&style, Size::new(2, 1));
    let coords: Vec<(i32, i32)> = cells.iter().map(|(c, _)| (c.x, c.y)).collect();
    assert_eq!(
        coords,
        vec![(0, 0), (3, 0), (0, 2), (3, 2), (1, 0), (2, 0), (1, 2), (2, 2), (0, 1), (3, 1)]
    );
    assert_eq!(cells[0].1.character, Some('\u{250c}'));
    assert_eq!(cells[4].1.character, Some('\u{2500}'));
    assert_eq!(cells[9].1.character, Some('\u{2502}'));
    assert_eq!(cells[0].1.style.bold, Some(false));
}

#[test]
fn border_with_title_and_padding() {
    let mut style = BorderStyle::new_with_title(vec!['a', 'b']);
    style.padding = BorderPadding::all(1);
    assert_eq!(style.child_offset(), Coord::new(2, 2));
    assert_eq!(style.child_constrain_size_by(), Size::new(4, 4));
    assert_eq!(style.span_offset(), Coord::new(3, 3));
    let cells = draw_border(&style, Size::new(3, 1));
    // span is (6, 4): corners, title markers at 1 and 4, title at 2 and 3, top from 5
    assert_eq!(cells[4].0, Coord::new(1, 0));
    assert_eq!(cells[5].0, Coord::new(4, 0));
    assert_eq!(cells[6], (Coord::new(2, 0), ViewCell { character: Some('a'), style: style.title_style }));
    assert_eq!(cells[8].0, Coord::new(5, 0));
    assert_eq!(cells.len(), 4 + 4 + 1 + 5 + 6);
    assert_eq!(BorderChars::single().top_right, '\u{2510}');
}

#[test]
fn words_from_bytes() {
    let words = u8_slice_to_u32_vec(&vec![1, 0, 0, 0, 0x78, 0x56, 0x34, 0x12]);
    assert_eq!(words, vec![1, 0x1234_5678]);
    assert!(u8_slice_to_u32_vec(&vec![]).is_empty());
}

#[test]
fn grid_fits_window() {
    assert_eq!(grid_size(640, 480, 16, 16), Size::new(40, 30));
    assert_eq!(grid_size(10000, 10, 8, 16), Size::new(256, 0));
}

#[test]
fn layout_uses_settings_or_measurement() {
    let b = ContextBuilder::new_with_font(vec![1, 2, 3]);
    let l = b.layout(640, 480, Size::new(16, 40));
    assert_eq!(l.size_in_cells, Size::new(40, 12));
    assert_eq!(l.underline_width, 2);
    assert_eq!(l.underline_position, 38);
    let b = b.with_cell_dimensions(8, 8).with_underline_width(3).with_underline_position(7).with_locked_size(true);
    let l = b.layout(640, 480, Size::new(16, 40));
    assert_eq!(l.size_in_cells, Size::new(80, 60));
    assert_eq!((l.underline_width, l.underline_position), (3, 7));
    assert!(b.locked_size);
}

#[test]
fn window_events_to_inputs() {
    assert_eq!(input_from_event(WindowEvent::Closed), Some(KeyInput::Etx));
    assert_eq!(
        input_from_event(WindowEvent::KeyboardInput { pressed: true, key: Some(KeyCode::Up) }),
        Some(KeyInput::Up)
    );
    assert_eq!(input_from_event(WindowEvent::KeyboardInput { pressed: false, key: Some(KeyCode::Up) }), None);
    assert_eq!(input_from_event(WindowEvent::KeyboardInput { pressed: true, key: Some(KeyCode::Other) }), None);
    assert_eq!(input_from_event(WindowEvent::Other), None);
}

#[test]
fn input_context_starts_clear() {
    let c = InputContext::default();
    assert!(!c.closing);
    assert_eq!(c.last_mouse_coord, Coord::new(0, 0));
    assert_eq!(c.last_mouse_button, None);
}

#[test]
fn rich_string_view_styles_cells() {
    let size = Size::new(3, 1);
    let blank = ViewCell { character: None, style: Style { foreground: None, background: None, bold: Some(true), underline: None } };
    let mut cells = vec![blank; 3];
    let mut view = RichStringView::new();
    view.info.underline = Some(true);
    view.view(&vec!['x', 'y', 'z', 'w'], Coord::new(1, 0), size, &mut cells);
    assert_eq!(cells[0], blank);
    assert_eq!(cells[1].character, Some('x'));
    assert_eq!(cells[1].style.bold, Some(true));
    assert_eq!(cells[1].style.underline, Some(true));
    assert_eq!(cells[2].character, Some('y'));
}
