use orbital::image::Image;
use orbital::rect::Rect;
use orbital::scheme::{Decorations, BackgroundMode, DragMode, OrbitalScheme, SchemeError, BACKGROUND_COLOR, BAR_COLOR, BAR_HIGHLIGHT_COLOR};
use orbital::window::{Event, TITLE_HEIGHT};

const CLIENT: u32 = 0xFF11_2233;

fn draw_into(s: &mut OrbitalScheme, fb: &mut Image) -> Vec<Rect> {
    let clients: Vec<Image> = s
        .windows
        .iter()
        .map(|w| Image::from_color(w.width.max(0) as usize, w.height.max(0) as usize, CLIENT))
        .collect();
    let background = Image::from_color(0, 0, 0);
    let cursor = Image::from_color(0, 0, 0);
    s.redraw(fb, &clients, &no_icons(), &background, &cursor).0
}

fn no_icons() -> Decorations {
    Decorations { close: Image::from_color(0, 0, 0), close_unfocused: Image::from_color(0, 0, 0) }
}

fn draw(s: &mut OrbitalScheme) -> Vec<Rect> {
    let mut fb = Image::from_color(s.width as usize, s.height as usize, 7);
    draw_into(s, &mut fb)
}

fn screen() -> OrbitalScheme {
    let mut s = OrbitalScheme::new(800, 600, Vec::new(), 8, 8);
    draw(&mut s);
    s
}

fn covered(rs: &[Rect], x: i64, y: i64) -> bool {
    rs.iter().any(|r| r.contains(x, y))
}

fn press(s: &mut OrbitalScheme, scancode: u8, pressed: bool) {
    s.event(Event::Key { character: '\0', scancode, pressed });
}

fn mouse(s: &mut OrbitalScheme, x: i32, y: i32, left: bool) {
    s.event(Event::Mouse { x, y, left_button: left, middle_button: false, right_button: false });
}

#[test]
fn open_places_window_and_damages_it() {
    let mut s = screen();
    let id = s.open(b"a/10/20/100/50/Hi", 0, 0, 0).unwrap();
    assert_eq!(id, 1);
    let w = &s.windows[0];
    assert_eq!((w.x, w.y, w.width, w.height), (10, 20, 100, 50));
    assert!(w.asynchronous);
    assert!(!w.resizable);
    assert_eq!(w.title, b"Hi".to_vec());
    let t = TITLE_HEIGHT as i64;
    assert!(s.redraws.contains(&Rect { x: 10, y: 20 - t, w: 100, h: 50 + t }));
    let drawn = draw(&mut s);
    assert!(covered(&drawn, 10, 20));
    assert!(s.redraws.is_empty());
}

#[test]
fn open_keeps_slashes_in_title_and_cascades() {
    let mut s = screen();
    s.open(b"r/-1/-1/30/40/a/b", 0, 0, 0).unwrap();
    let w = &s.windows[0];
    assert_eq!((w.x, w.y), (4, 32));
    assert!(w.resizable);
    assert_eq!(w.title, b"a/b".to_vec());
    assert_eq!((s.next_x, s.next_y), (24, 52));
    s.open(b"/x/y", 0, 0, 0).unwrap();
    let w = &s.windows[0];
    assert_eq!((w.x, w.y, w.width, w.height), (0, 0, 0, 0));
    assert_eq!(s.windows[0].id, 2);
}

#[test]
fn open_rejects_invalid_utf8() {
    let mut s = screen();
    assert_eq!(s.open(&[0xff, 0xfe], 0, 0, 0), Err(SchemeError::InvalidArgument));
    assert!(s.windows.is_empty());
}

#[test]
fn write_moves_window_with_two_damage_rects() {
    let mut s = screen();
    let id = s.open(b"/10/20/100/50/W", 0, 0, 0).unwrap();
    draw(&mut s);
    assert_eq!(s.write(id, b"P,200,150"), Ok(9));
    assert_eq!((s.windows[0].x, s.windows[0].y), (200, 150));
    assert_eq!(s.redraws.len(), 2);
    assert!(covered(&s.redraws, 10, 20));
    assert!(covered(&s.redraws, 200, 150));
}

#[test]
fn write_resize_retitle_and_errors() {
    let mut s = screen();
    let id = s.open(b"/10/20/100/50/W", 0, 0, 0).unwrap();
    assert_eq!(s.write(id, b"S,30,x"), Ok(6));
    assert_eq!((s.windows[0].width, s.windows[0].height), (30, 50));
    assert_eq!(s.write(id, b"T,hello"), Ok(7));
    assert_eq!(s.windows[0].title, b"hello".to_vec());
    assert_eq!(s.write(id, b"Q,1"), Err(SchemeError::InvalidArgument));
    assert_eq!(s.write(id, &[0xc3]), Err(SchemeError::InvalidArgument));
    assert_eq!(s.write(id + 7, b"P,1,1"), Err(SchemeError::BadHandle));
}

#[test]
fn click_in_back_window_moves_focus() {
    let mut s = screen();
    let back = s.open(b"/100/100/50/50/B", 0, 0, 0).unwrap();
    let front = s.open(b"/10/10/50/50/F", 0, 0, 0).unwrap();
    assert_eq!(s.windows[0].id, front);
    mouse(&mut s, 120, 130, true);
    assert_eq!(s.windows[0].id, back);
    assert_eq!(s.windows[1].id, front);
    assert_eq!(s.windows[1].events, vec![Event::Focus { focused: false }]);
    assert_eq!(
        s.windows[0].events,
        vec![
            Event::Mouse { x: 20, y: 30, left_button: true, middle_button: false, right_button: false },
            Event::Focus { focused: true },
        ]
    );
    assert_eq!((s.cursor_x, s.cursor_y), (120, 130));
}

#[test]
fn title_drag_moves_window() {
    let mut s = screen();
    s.open(b"/10/23/100/50/D", 0, 0, 0).unwrap();
    mouse(&mut s, 50, 5, true);
    assert_eq!(s.dragging, DragMode::Title(1, 50, 5));
    mouse(&mut s, 70, 5, true);
    mouse(&mut s, 70, 25, true);
    mouse(&mut s, 70, 25, false);
    assert_eq!(s.dragging, DragMode::Idle);
    let w = &s.windows[0];
    assert_eq!((w.x, w.y), (30, 43));
    let moves: Vec<&Event> = w.events.iter().filter(|e| matches!(e, Event::Move { .. })).collect();
    assert_eq!(moves.len(), 2);
    assert_eq!(*moves[1], Event::Move { x: 30, y: 43 });
}

#[test]
fn close_button_sends_quit() {
    let mut s = screen();
    s.open(b"/10/23/100/50/D", 0, 0, 0).unwrap();
    mouse(&mut s, 105, 10, true);
    assert_eq!(s.dragging, DragMode::Idle);
    assert_eq!(s.windows[0].events, vec![Event::Quit]);
}

#[test]
fn border_drag_asks_for_resize() {
    let mut s = screen();
    s.open(b"/10/10/100/50/D", 0, 0, 0).unwrap();
    mouse(&mut s, 112, 30, true);
    assert_eq!(s.dragging, DragMode::RightBorder(1, 2));
    mouse(&mut s, 132, 30, true);
    assert_eq!(s.windows[0].events, vec![Event::Resize { width: 120, height: 50 }]);
    mouse(&mut s, 132, 30, false);
    assert_eq!(s.dragging, DragMode::Idle);
    mouse(&mut s, 50, 62, true);
    assert_eq!(s.dragging, DragMode::BottomBorder(1, 2));
    mouse(&mut s, 50, 72, true);
    assert_eq!(s.windows[0].events[1], Event::Resize { width: 100, height: 60 });
}

#[test]
fn win_tab_rotates_focus() {
    let mut s = screen();
    let c = s.open(b"/300/300/10/10/C", 0, 0, 0).unwrap();
    let b = s.open(b"/200/200/10/10/B", 0, 0, 0).unwrap();
    let a = s.open(b"/100/100/10/10/A", 0, 0, 0).unwrap();
    press(&mut s, 0x38, true);
    press(&mut s, 0x0F, true);
    let order: Vec<usize> = s.windows.iter().map(|w| w.id).collect();
    assert_eq!(order, vec![b, c, a]);
    assert!(s.win_tabbing);
    draw(&mut s);
    let list = s.window_list_rect();
    assert_eq!(list, Rect { x: 200, y: 268, w: 400, h: 64 });
    press(&mut s, 0x38, false);
    assert!(!s.win_tabbing);
    let drawn = draw(&mut s);
    assert!(drawn.contains(&list));
    assert!(s.redraws.is_empty());
}

#[test]
fn tab_k_times_brings_k_mod_n_to_front() {
    let mut s = screen();
    let mut ids = Vec::new();
    for i in 0..3 {
        ids.push(s.open(format!("/{}/{}/10/10/w", 50 * i, 50 * i).as_bytes(), 0, 0, 0).unwrap());
    }
    let start: Vec<usize> = s.windows.iter().map(|w| w.id).collect();
    press(&mut s, 0x38, true);
    for _ in 0..5 {
        press(&mut s, 0x0F, true);
    }
    assert_eq!(s.windows[0].id, start[5 % 3]);
}

#[test]
fn async_read_would_block_until_event() {
    let mut s = screen();
    let id = s.open(b"a/0/20/10/10/x", 0, 0, 0).unwrap();
    assert_eq!(s.read(id).unwrap_err(), SchemeError::WouldBlock);
    press(&mut s, 0x1E, true);
    assert_eq!(s.read(id).unwrap(), vec![Event::Key { character: '\0', scancode: 0x1E, pressed: true }]);
    assert_eq!(s.read(id).unwrap_err(), SchemeError::WouldBlock);
    assert_eq!(s.read(id + 1).unwrap_err(), SchemeError::BadHandle);
}

#[test]
fn open_then_close_leaves_no_windows() {
    let mut s = screen();
    let id = s.open(b"/10/30/40/20/t", 0, 0, 0).unwrap();
    assert_eq!(s.close(id), Ok(0));
    assert!(s.windows.is_empty());
    assert!(covered(&s.redraws, 10, 30 - TITLE_HEIGHT as i64));
    assert!(covered(&s.redraws, 49, 49));
    assert_eq!(s.close(id), Err(SchemeError::BadHandle));
    assert_eq!(s.fevent(id, 0), Err(SchemeError::BadHandle));
    assert_eq!(s.fsync(id), Err(SchemeError::BadHandle));
}

#[test]
fn fevent_and_fsync_on_open_window() {
    let mut s = screen();
    let id = s.open(b"/10/30/40/20/t", 0, 0, 0).unwrap();
    draw(&mut s);
    assert_eq!(s.fevent(id, 0), Ok(id));
    assert_eq!(s.fsync(id), Ok(0));
    assert_eq!(s.redraws, vec![Rect { x: 10, y: 30, w: 40, h: 20 }]);
}

#[test]
fn scroll_goes_to_focused_window() {
    let mut s = screen();
    s.open(b"/10/30/40/20/t", 0, 0, 0).unwrap();
    s.event(Event::Scroll { x: 0, y: -3 });
    assert_eq!(s.windows[0].events, vec![Event::Scroll { x: 0, y: -3 }]);
}

#[test]
fn win_backspace_switches_background() {
    let mut s = OrbitalScheme::new(800, 600, vec![(100, 100), (200, 50)], 8, 8);
    assert_eq!(s.background_rect(), Rect { x: 350, y: 250, w: 100, h: 100 });
    press(&mut s, 0x38, true);
    press(&mut s, 0x0E, true);
    assert_eq!(s.background_i, 1);
    assert_eq!(s.background_rect(), Rect { x: 300, y: 275, w: 200, h: 50 });
    press(&mut s, 0x0E, true);
    assert_eq!(s.background_i, 0);
}

#[test]
fn background_mode_from_str() {
    assert_eq!(BackgroundMode::from_str("fill"), BackgroundMode::Fill);
    assert_eq!(BackgroundMode::from_str("scale"), BackgroundMode::Scale);
    assert_eq!(BackgroundMode::from_str("zoom"), BackgroundMode::Zoom);
    assert_eq!(BackgroundMode::from_str("center"), BackgroundMode::Center);
    assert_eq!(BackgroundMode::from_str("tile"), BackgroundMode::Center);
}

#[test]
fn redraw_clips_to_screen() {
    let mut s = OrbitalScheme::new(800, 600, Vec::new(), 8, 8);
    assert_eq!(draw(&mut s), vec![Rect { x: 0, y: 0, w: 800, h: 600 }]);
    s.open(b"/-50/700/100/50/off", 0, 0, 0).unwrap();
    assert!(draw(&mut s).is_empty());
}

#[test]
fn fpath_reports_geometry_and_title() {
    let mut s = screen();
    let id = s.open(b"ar/-5/20/100/50/x", 0, 0, 0).unwrap();
    assert_eq!(s.write(id, b"T,hello"), Ok(7));
    let p = s.fpath(id).unwrap();
    assert_eq!(p, b"orbital:ar/-5/20/100/50/hello".to_vec());
    assert!(p.ends_with(b"hello"));
    assert_eq!(s.fpath(id + 1), Err(SchemeError::BadHandle));
}

#[test]
fn background_fitting() {
    assert_eq!(BackgroundMode::Center.fitted_size(800, 600, 400, 400), (400, 400));
    assert_eq!(BackgroundMode::Fill.fitted_size(800, 600, 400, 400), (800, 600));
    assert_eq!(BackgroundMode::Scale.fitted_size(800, 600, 400, 400), (600, 600));
    assert_eq!(BackgroundMode::Zoom.fitted_size(800, 600, 400, 400), (800, 800));
    assert_eq!(BackgroundMode::Scale.fitted_size(800, 600, 1000, 500), (800, 400));
    assert_eq!(BackgroundMode::Zoom.fitted_size(800, 600, 1000, 500), (1200, 600));
    assert_eq!(BackgroundMode::Zoom.fitted_size(800, 600, 0, 5), (0, 5));
}

#[test]
fn redraw_composites_windows_over_background() {
    let mut s = screen();
    s.open(b"/10/30/40/20/b", 0, 0, 0).unwrap();
    s.open(b"/30/40/40/20/f", 0, 0, 0).unwrap();
    let mut fb = Image::from_color(800, 600, 7);
    draw_into(&mut s, &mut fb);
    let px = |x: usize, y: usize| fb.data[y * 800 + x];
    assert_eq!(px(10, 30), CLIENT);
    assert_eq!(px(5, 5), 7);
    assert_eq!(px(50, 25), BAR_HIGHLIGHT_COLOR);
    assert_eq!(px(15, 15), BAR_COLOR);
    assert_eq!(px(45, 35), BAR_HIGHLIGHT_COLOR);
    assert_eq!(px(40, 45), CLIENT);
}

#[test]
fn redraw_blends_cursor_and_background() {
    let mut s = OrbitalScheme::new(4, 2, vec![(2, 2)], 1, 1);
    let mut fb = Image::from_color(4, 2, 7);
    let background = Image::from_color(2, 2, 0xFF00_00FF);
    let cursor = Image { width: 1, height: 1, data: vec![0x0000_0000] };
    s.redraw(&mut fb, &Vec::new(), &no_icons(), &background, &cursor);
    assert_eq!(fb.data, vec![BACKGROUND_COLOR, 0xFF00_00FF, 0xFF00_00FF, BACKGROUND_COLOR, BACKGROUND_COLOR, 0xFF00_00FF, 0xFF00_00FF, BACKGROUND_COLOR]);
}

#[test]
fn switcher_is_drawn_while_tabbing() {
    let mut s = screen();
    s.open(b"/10/30/40/20/a", 0, 0, 0).unwrap();
    s.open(b"/10/60/40/20/b", 0, 0, 0).unwrap();
    s.event(Event::Key { character: '\0', scancode: 0x38, pressed: true });
    s.event(Event::Key { character: '\0', scancode: 0x0F, pressed: true });
    let mut fb = Image::from_color(800, 600, 7);
    let clients: Vec<Image> = s.windows.iter().map(|_| Image::from_color(40, 20, CLIENT)).collect();
    let none = Image::from_color(0, 0, 0);
    let (_, rows) = s.redraw(&mut fb, &clients, &no_icons(), &none, &none);
    assert_eq!(rows.len(), 2);
    assert_eq!(rows[0].1, b"a".to_vec());
    let l = s.window_list_rect();
    assert_eq!(l, Rect { x: 200, y: 278, w: 400, h: 44 });
    assert_eq!(fb.data[280 * 800 + 300], BAR_HIGHLIGHT_COLOR);
    assert_eq!(fb.data[310 * 800 + 300], BAR_COLOR);
    assert_eq!(s.redraws, vec![l]);
}

#[test]
fn close_icon_drawn_on_title_bars() {
    let mut s = screen();
    s.open(b"/10/30/40/20/b", 0, 0, 0).unwrap();
    s.open(b"/100/30/40/20/f", 0, 0, 0).unwrap();
    let icons = Decorations {
        close: Image::from_color(2, 2, 0xFFAA_0000),
        close_unfocused: Image::from_color(2, 2, 0xFF00_AA00),
    };
    let clients: Vec<Image> = s.windows.iter().map(|_| Image::from_color(40, 20, CLIENT)).collect();
    let mut fb = Image::from_color(800, 600, 7);
    let none = Image::from_color(0, 0, 0);
    s.redraw(&mut fb, &clients, &icons, &none, &none);
    let px = |x: usize, y: usize| fb.data[y * 800 + x];
    assert_eq!(px(139, 12), 0xFFAA_0000);
    assert_eq!(px(137, 12), BAR_HIGHLIGHT_COLOR);
    assert_eq!(px(49, 13), 0xFF00_AA00);
    assert_eq!(px(49, 14), BAR_COLOR);
}

#[test]
fn side_drag_resizes_window_with_no_height() {
    let mut s = screen();
    let id = s.open(b"/10/10/100/50/D", 0, 0, 0).unwrap();
    mouse(&mut s, 112, 30, true);
    assert_eq!(s.dragging, DragMode::RightBorder(1, 2));
    assert_eq!(s.write(id, b"S,100,0"), Ok(7));
    mouse(&mut s, 132, 12, true);
    assert_eq!(s.windows[0].events, vec![Event::Resize { width: 120, height: 0 }]);
}

#[test]
fn switcher_rows_list_windows_in_focus_order() {
    let mut s = screen();
    s.open(b"/10/30/40/20/", 0, 0, 0).unwrap();
    s.open(b"/10/60/40/20/named", 0, 0, 0).unwrap();
    let mut fb = Image::from_color(800, 600, 7);
    let rows = s.draw_window_list(&mut fb);
    assert_eq!(rows.len(), 2);
    assert_eq!(rows[0], (Rect { x: 200, y: 280, w: 400, h: 20 }, b"named".to_vec()));
    assert_eq!(rows[1], (Rect { x: 200, y: 300, w: 400, h: 20 }, b"[unnamed #1]".to_vec()));
}

#[test]
fn focus_click_damages_both_windows() {
    let mut s = screen();
    s.open(b"/100/100/50/50/B", 0, 0, 0).unwrap();
    s.open(b"/10/10/50/50/F", 0, 0, 0).unwrap();
    draw(&mut s);
    mouse(&mut s, 120, 130, true);
    for (x, y) in [(10, 0), (59, 59), (100, 90), (149, 149)] {
        assert!(covered(&s.redraws, x, y));
    }
}
