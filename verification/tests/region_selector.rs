use game_translator::region_selector::{
    draw_text_on_bitmap, get_glyph, paint_selector_layer, point_from_lparam, region_from_drag,
    render_selector_frame, selection_label, wide_string, SelectedRegion, SelectorAction,
    SelectorEvent, SelectorState, BORDER_COLOR_B, BORDER_COLOR_G, BORDER_COLOR_R, OVERLAY_ALPHA,
    VK_ESCAPE,
};

#[test]
fn glyphs() {
    assert_eq!(get_glyph('A'), [0b01110, 0b10001, 0b10001, 0b11111, 0b10001, 0b10001, 0b10001]);
    assert_eq!(get_glyph('a'), get_glyph('A'));
    assert_eq!(get_glyph(' '), [0; 7]);
    assert_eq!(get_glyph('é'), get_glyph('É'));
    assert_eq!(get_glyph('ç')[6], 0b00100);
    assert_eq!(get_glyph('#'), [0b11111; 7]);
    assert_eq!(get_glyph('x'), get_glyph('X'));
}

#[test]
fn wide_strings() {
    assert_eq!(wide_string("Ab"), vec![65, 98, 0]);
    assert_eq!(wide_string(""), vec![0]);
    assert_eq!(wide_string("ã"), vec![0xE3, 0]);
    let expected: Vec<u16> = "a😀".encode_utf16().chain(Some(0)).collect();
    assert_eq!(wide_string("a😀"), expected);
}

#[test]
fn size_labels() {
    assert_eq!(selection_label(640, 480), "640x480");
    assert_eq!(selection_label(0, 7), "0x7");
    assert_eq!(selection_label(-12, 100), "-12x100");
}

#[test]
fn lparam_points() {
    let lp: isize = (200 << 16) | 100;
    assert_eq!(point_from_lparam(lp), (100, 200));
    let neg: isize = (0xFFFE << 16) | 0xFFFF; // (-1, -2)
    assert_eq!(point_from_lparam(neg), (-1, -2));
}

#[test]
fn drag_regions() {
    assert_eq!(
        region_from_drag((100, 50), (10, 200)),
        Some(SelectedRegion { x: 10, y: 50, width: 90, height: 150 })
    );
    assert_eq!(region_from_drag((0, 0), (5, 100)), None);
    assert_eq!(region_from_drag((0, 0), (6, 6)), Some(SelectedRegion { x: 0, y: 0, width: 6, height: 6 }));
}

#[test]
fn selector_events() {
    let mut st = SelectorState::new(800, 600);
    assert_eq!(st.handle_event(SelectorEvent::MouseMove(5, 5)), SelectorAction::Nothing);
    assert_eq!(st.handle_event(SelectorEvent::MouseUp(5, 5)), SelectorAction::Nothing);
    assert_eq!(st.handle_event(SelectorEvent::MouseDown(10, 20)), SelectorAction::Redraw);
    assert_eq!(st.selection_rect(), Some((10, 20, 10, 20)));
    assert_eq!(st.handle_event(SelectorEvent::MouseMove(4, 60)), SelectorAction::Redraw);
    assert_eq!(st.selection_rect(), Some((4, 20, 10, 60)));
    assert_eq!(st.handle_event(SelectorEvent::KeyDown(0x41)), SelectorAction::Nothing);
    let region = SelectedRegion { x: 10, y: 20, width: 90, height: 80 };
    assert_eq!(st.handle_event(SelectorEvent::MouseUp(100, 100)), SelectorAction::Close(Some(region)));
    assert!(!st.is_dragging);
    assert_eq!(st.result, Some(region));
    assert_eq!(st.selection_rect(), None);
}

#[test]
fn selector_small_drag_and_escape() {
    let mut st = SelectorState::new(800, 600);
    st.handle_event(SelectorEvent::MouseDown(10, 10));
    assert_eq!(st.handle_event(SelectorEvent::MouseUp(12, 100)), SelectorAction::Close(None));
    assert_eq!(st.result, None);
    let mut st2 = SelectorState::new(800, 600);
    assert_eq!(st2.handle_event(SelectorEvent::KeyDown(VK_ESCAPE)), SelectorAction::Close(None));
    assert!(st2.cancelled);
}

fn px(buf: &[u8], w: usize, x: usize, y: usize) -> [u8; 4] {
    let i = (y * w + x) * 4;
    [buf[i], buf[i + 1], buf[i + 2], buf[i + 3]]
}

#[test]
fn layer_colours() {
    let (w, h) = (20usize, 20usize);
    let mut buf = vec![7u8; w * h * 4 + 4];
    paint_selector_layer(&mut buf, w as i32, h as i32, Some((5, 5, 10, 10)));
    let border = [BORDER_COLOR_B, BORDER_COLOR_G, BORDER_COLOR_R, 255];
    let dark = [0, 0, 0, OVERLAY_ALPHA];
    assert_eq!(px(&buf, w, 0, 0), dark);
    assert_eq!(px(&buf, w, 5, 5), [0, 0, 0, 0]);
    assert_eq!(px(&buf, w, 9, 9), [0, 0, 0, 0]);
    assert_eq!(px(&buf, w, 10, 9), border);
    assert_eq!(px(&buf, w, 2, 2), border);
    assert_eq!(px(&buf, w, 12, 12), border);
    assert_eq!(px(&buf, w, 13, 12), dark);
    // bytes past the bitmap are untouched
    assert_eq!(&buf[w * h * 4..], &[7, 7, 7, 7]);
    let mut plain = vec![1u8; 16];
    paint_selector_layer(&mut plain, 2, 2, None);
    assert_eq!(plain, [0, 0, 0, OVERLAY_ALPHA].repeat(4));
}

#[test]
fn text_drawing() {
    let (w, h) = (16usize, 9usize);
    let mut buf = vec![0u8; w * h * 4];
    draw_text_on_bitmap(&mut buf, w as i32, h as i32, "I", 1, 1, false);
    // 'I' first row is 0b01110: columns 1..=3 of the glyph are lit
    assert_eq!(px(&buf, w, 1, 1), [0, 0, 0, 0]);
    assert_eq!(px(&buf, w, 2, 1), [255, 255, 255, 255]);
    assert_eq!(px(&buf, w, 4, 1), [255, 255, 255, 255]);
    assert_eq!(px(&buf, w, 5, 1), [0, 0, 0, 0]);
    // middle rows light only the centre column
    assert_eq!(px(&buf, w, 3, 4), [255, 255, 255, 255]);
    assert_eq!(px(&buf, w, 2, 4), [0, 0, 0, 0]);
    let lit: usize = buf.chunks(4).filter(|p| p[3] == 255).count();
    assert_eq!(lit, 3 + 5 + 3);
}

#[test]
fn text_drawing_centred_and_clipped() {
    let (w, h) = (10usize, 7usize);
    let mut buf = vec![0u8; w * h * 4];
    // "AB" is 16 pixels wide: centred on 5 it starts at -3
    draw_text_on_bitmap(&mut buf, w as i32, h as i32, "AB", 5, 0, true);
    // 'A' row 0 is 0b01110 drawn from x = -3: only x = -2..=0 lit, so x = 0 is lit
    assert_eq!(px(&buf, w, 0, 0), [255, 255, 255, 255]);
    assert_eq!(px(&buf, w, 1, 0), [0, 0, 0, 0]);
    // 'B' row 0 is 0b11110 drawn from x = 5
    assert_eq!(px(&buf, w, 5, 0), [255, 255, 255, 255]);
    assert_eq!(px(&buf, w, 8, 0), [255, 255, 255, 255]);
    assert_eq!(px(&buf, w, 9, 0), [0, 0, 0, 0]);
}

#[test]
fn text_centred_by_characters() {
    let (w, h) = (16usize, 7usize);
    let mut buf = vec![0u8; w * h * 4];
    // "éA" is two cells wide: centred on 8 it starts at 0, so 'A' starts at 8
    draw_text_on_bitmap(&mut buf, w as i32, h as i32, "éA", 8, 0, true);
    // 'A' row 0 is 0b01110: x = 9..=11 lit, x = 8 and 12 not
    assert_eq!(px(&buf, w, 8, 0), [0, 0, 0, 0]);
    assert_eq!(px(&buf, w, 9, 0), [255, 255, 255, 255]);
    assert_eq!(px(&buf, w, 11, 0), [255, 255, 255, 255]);
    assert_eq!(px(&buf, w, 12, 0), [0, 0, 0, 0]);
}

#[test]
fn frame_with_title_and_size() {
    let (w, h) = (60usize, 80usize);
    let mut st = SelectorState::new(w as i32, h as i32);
    st.handle_event(SelectorEvent::MouseDown(10, 60));
    st.handle_event(SelectorEvent::MouseMove(30, 70));
    let mut buf = vec![9u8; w * h * 4];
    render_selector_frame(&mut buf, &st, Some("T"));
    // the selection is transparent where no label is drawn
    assert_eq!(px(&buf, w, 20, 65), [0, 0, 0, 0]);
    // the title 'T' is centred on x = 30, top row at y = 50: its first row is full
    assert_eq!(px(&buf, w, 26, 50), [255, 255, 255, 255]);
    assert_eq!(px(&buf, w, 30, 50), [255, 255, 255, 255]);
    // the size label "20x10" starts at (10, 42): '2' row 0 is 0b01110
    assert_eq!(px(&buf, w, 11, 42), [255, 255, 255, 255]);
    assert_eq!(px(&buf, w, 10, 42), [0, 0, 0, OVERLAY_ALPHA]);
}
