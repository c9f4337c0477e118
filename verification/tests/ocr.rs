use voca::ocr::{
    bitmap_len, make_bmi, selection_picture, Area, BitmapFormat, OcrState, OverlayAction,
    OverlayData, MY_WM_ERASEBKGND, MY_WM_KEYDOWN, MY_WM_LBUTTONDOWN, MY_WM_LBUTTONUP,
    MY_WM_MOUSEMOVE, MY_WM_PAINT, MY_WM_SETCURSOR, VK_ESCAPE_CODE,
};

fn at(x: i16, y: i16) -> isize {
    (((y as u16 as u32) << 16) | x as u16 as u32) as i32 as isize
}

fn drag(from: (i16, i16), to: (i16, i16)) -> OverlayData {
    let mut d = OverlayData::new();
    d.message(MY_WM_LBUTTONDOWN, 0, at(from.0, from.1));
    d.message(MY_WM_LBUTTONUP, 0, at(to.0, to.1));
    d
}

#[test]
fn nothing_is_selected_at_first() {
    let d = OverlayData::new();
    assert!(!d.is_dragging);
    assert_eq!(d.selection, None);
    assert_eq!(d.bright_area(), None);
    assert!(OcrState::default().status_message.is_none());
}

#[test]
fn positions_are_signed() {
    for (x, y) in [(0, 0), (5, -3), (-1, -1), (i16::MIN, i16::MAX), (i16::MAX, i16::MIN)] {
        for lparam in [at(x, y), at(x, y) & 0xffff_ffff] {
            let mut d = OverlayData::new();
            d.message(MY_WM_LBUTTONDOWN, 0, lparam);
            assert_eq!(d.start, (x as i32, y as i32));
        }
    }
}

#[test]
fn dragging_selects() {
    let mut d = OverlayData::new();
    assert_eq!(d.message(MY_WM_MOUSEMOVE, 0, at(1, 1)), OverlayAction::Nothing);
    assert_eq!(d.end, (0, 0));
    assert_eq!(d.message(MY_WM_LBUTTONDOWN, 0, at(30, 40)), OverlayAction::CaptureMouse);
    assert!(d.is_dragging);
    assert_eq!(d.bright_area(), None);
    assert_eq!(d.message(MY_WM_MOUSEMOVE, 0, at(10, 50)), OverlayAction::Repaint);
    let area = Area { left: 10, top: 40, width: 20, height: 10 };
    assert_eq!(d.bright_area(), Some(area));
    assert_eq!(d.message(MY_WM_LBUTTONUP, 0, at(10, 50)), OverlayAction::Release);
    assert_eq!(d.selection, Some(area));
    assert!(!d.is_dragging);
    assert_eq!(d.bright_area(), None);
}

#[test]
fn direction_does_not_matter() {
    let a = drag((3, 4), (20, 30)).selection;
    assert_eq!(a, Some(Area { left: 3, top: 4, width: 17, height: 26 }));
    assert_eq!(drag((20, 30), (3, 4)).selection, a);
    assert_eq!(drag((3, 30), (20, 4)).selection, a);
}

#[test]
fn small_selections_are_clicks() {
    assert_eq!(drag((0, 0), (5, 100)).selection, None);
    assert_eq!(drag((0, 0), (100, 5)).selection, None);
    assert!(drag((0, 0), (6, 6)).selection.is_some());
    assert!(drag((-6, -6), (0, 0)).selection.is_some());
}

#[test]
fn other_messages() {
    let mut d = OverlayData::new();
    assert_eq!(d.message(MY_WM_ERASEBKGND, 0, 0), OverlayAction::KeepBackground);
    assert_eq!(d.message(MY_WM_PAINT, 0, 0), OverlayAction::Paint);
    assert_eq!(d.message(MY_WM_KEYDOWN, VK_ESCAPE_CODE, 0), OverlayAction::Quit);
    assert_eq!(d.message(MY_WM_KEYDOWN, 0x41, 0), OverlayAction::Nothing);
    assert_eq!(d.message(MY_WM_SETCURSOR, 0, 0), OverlayAction::ShowCursor);
    assert_eq!(d.message(0x0113, 0, 0), OverlayAction::Default);
}

#[test]
fn bitmap_sizes() {
    assert_eq!(bitmap_len(3, 5), Some(60));
    assert_eq!(bitmap_len(0, 5), None);
    assert_eq!(bitmap_len(3, -1), None);
    assert_eq!(
        make_bmi(4, 3),
        BitmapFormat {
            size: 40,
            width: 4,
            height: -3,
            planes: 1,
            bit_count: 32,
            compression: 0,
            size_image: 0,
            x_pels_per_meter: 0,
            y_pels_per_meter: 0,
            clr_used: 0,
            clr_important: 0,
        }
    );
    assert_eq!(make_bmi(7, i32::MAX).height, -i32::MAX);
}

#[test]
fn selections_become_pictures() {
    let area = Area { left: 9, top: 9, width: 2, height: 1 };
    let p = selection_picture(area, &vec![1, 2, 3, 4, 5, 6, 7, 8]).unwrap();
    assert_eq!((p.width, p.height), (2, 1));
    assert_eq!(p.data, vec![3, 2, 1, 255, 7, 6, 5, 255]);
    assert!(selection_picture(area, &vec![0; 7]).is_none());
    let empty = Area { left: 0, top: 0, width: 0, height: 4 };
    assert!(selection_picture(empty, &vec![]).is_none());
}
