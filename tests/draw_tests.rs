use mflm::color::rgb;
use mflm::draw::Scene;
use mflm::greeter::{Greeter, Target};
use mflm::region::{PixelBlock, PixelBuffer};
use mflm::settings::{Login, Settings, TextAlign};

fn scene(screen: (u32, u32)) -> Scene {
    let s = Settings::default();
    let mut ui = s.ui.clone();
    ui.row_h = 10;
    ui.gap_below_username_px = 4;
    ui.form_width = 40;
    Scene::from_settings(screen, s.resolve_colors().unwrap(), &ui).unwrap()
}

fn greeter(user: Option<&str>) -> Greeter {
    let targets = vec![Target { name: "sway".to_string(), argv: vec!["sway".to_string()] }];
    Greeter::new(targets, &Login { username: user.map(str::to_string), target: None })
}

fn empty_block() -> PixelBlock {
    PixelBlock { data: Vec::new(), stride: 0, width: 0, height: 0 }
}

fn text(v: &[char]) -> String {
    v.iter().collect()
}

#[test]
fn oversized_geometry_has_no_scene() {
    let s = Settings::default();
    let mut ui = s.ui.clone();
    ui.row_h = u32::MAX / 2;
    assert!(Scene::from_settings((100, 100), s.resolve_colors().unwrap(), &ui).is_none());
}

#[test]
fn target_label_has_arrows() {
    let sc = scene((100, 100));
    let g = greeter(None);
    let j = sc.target_job(&g).unwrap();
    assert_eq!(text(&j.text), "\u{276e}  sway  \u{276f}");
    assert_eq!(j.width, 36);
    assert_eq!(j.align, TextAlign::Center);
    assert_eq!(j.fg, sc.colors.foreground);
}

#[test]
fn target_label_without_arrows() {
    let mut sc = scene((100, 100));
    sc.left_arrow = String::new();
    let g = greeter(None);
    assert_eq!(text(&sc.target_job(&g).unwrap().text), "sway  \u{276f}");
    sc.right_arrow = String::new();
    assert_eq!(text(&sc.target_job(&g).unwrap().text), "sway");
}

#[test]
fn password_is_masked() {
    let sc = scene((100, 100));
    let mut g = greeter(Some("alice"));
    for b in b"abc" {
        g.handle_byte(*b);
    }
    let j = sc.password_job(&g);
    assert_eq!(text(&j.text), "***");
    assert_eq!(j.fg, sc.colors.selected);
    assert!(sc.username_job(&g).is_none());
}

#[test]
fn heading_text() {
    let sc = scene((100, 100));
    let j = sc.heading_job("host");
    assert_eq!(text(&j.text), "Welcome to host");
    assert_eq!(j.width, 100);
}

#[test]
fn password_row_paint_is_confined() {
    let sc = scene((100, 100));
    let g = greeter(None);
    let l = sc.form_layout(&g);
    let mut buf = PixelBuffer::new(100, 100, 1);
    sc.paint_password(&mut buf, &g, true, &empty_block()).unwrap();
    let neutral = sc.colors.neutral.as_argb8888();
    let bg = sc.colors.background.as_argb8888();
    for y in 0..100u32 {
        for x in 0..100u32 {
            let p = buf.pixels()[(y * 100 + x) as usize];
            let in_row = x >= l.x && x < l.x + l.w && y >= l.password_y && y < l.password_y + l.row_h;
            if !in_row {
                assert_eq!(p, 1);
            } else if y >= l.password_y + l.row_h - 4 {
                assert_eq!(p, neutral);
            } else {
                assert_eq!(p, bg);
            }
        }
    }
}

#[test]
fn row_off_screen_fails() {
    let sc = scene((100, 20));
    let g = greeter(None);
    let mut buf = PixelBuffer::new(100, 20, 1);
    assert!(sc.paint_password(&mut buf, &g, true, &empty_block()).is_err());
    assert!(buf.pixels().iter().all(|p| *p == 1));
}

#[test]
fn chrome_uses_background_for_neutral_box() {
    let sc = scene((100, 100));
    let g = greeter(None);
    let l = sc.form_layout(&g);
    let mut buf = PixelBuffer::new(100, 100, 1);
    let neutral = sc.colors.neutral;
    sc.paint_chrome(&mut buf, &g, &neutral, &empty_block()).unwrap();
    let at = |x: u32, y: u32| buf.pixels()[(y * 100 + x) as usize];
    assert_eq!(at(l.x, l.y), sc.colors.background.as_argb8888());
    assert_eq!(at(l.x, l.username_y.unwrap() + 9), sc.colors.selected.as_argb8888());
    assert_eq!(at(l.x, l.password_y + 9), neutral.as_argb8888());
    assert_eq!(at(0, 0), 1);
    let mut buf = PixelBuffer::new(100, 100, 1);
    sc.paint_chrome(&mut buf, &g, &rgb(9, 9, 9), &empty_block()).unwrap();
    assert_eq!(buf.pixels()[(l.y * 100 + l.x) as usize], rgb(9, 9, 9).as_argb8888());
}

fn solid_block(w: u32, h: u32, word: u32) -> PixelBlock {
    let mut data = Vec::new();
    for _ in 0..w * h {
        data.extend_from_slice(&word.to_le_bytes());
    }
    PixelBlock { data, stride: (w * 4) as usize, width: w, height: h }
}

#[test]
fn target_row_shows_the_label_block() {
    let sc = scene((100, 100));
    let g = greeter(None);
    let l = sc.form_layout(&g);
    let sy = l.session_y.unwrap();
    let mut buf = PixelBuffer::new(100, 100, 1);
    sc.paint_target(&mut buf, &g, &solid_block(3, 2, 0xAABBCCDD)).unwrap();
    let at = |x: u32, y: u32| buf.pixels()[(y * 100 + x) as usize];
    assert_eq!(at(l.x, sy), 0xAABBCCDD);
    assert_eq!(at(l.x + 2, sy + 1), 0xAABBCCDD);
    assert_eq!(at(l.x + 3, sy), sc.colors.background.as_argb8888());
    assert_eq!(at(l.x, sy + 2), sc.colors.background.as_argb8888());
    assert_eq!(at(l.x - 1, sy), 1);
}

#[test]
fn username_row_shows_text_inside_margins() {
    let mut sc = scene((100, 100));
    sc.input_margin = 5;
    let g = greeter(None);
    let l = sc.form_layout(&g);
    let uy = l.username_y.unwrap();
    let mut buf = PixelBuffer::new(100, 100, 1);
    sc.paint_username(&mut buf, &g, false, &solid_block(2, 1, 0x01020304)).unwrap();
    let at = |x: u32, y: u32| buf.pixels()[(y * 100 + x) as usize];
    assert_eq!(at(l.x + 5, uy), 0x01020304);
    assert_eq!(at(l.x + 6, uy), 0x01020304);
    assert_eq!(at(l.x + 4, uy), 1);
    assert_eq!(at(l.x + 7, uy), 1);
    assert_eq!(at(l.x, uy + 9), sc.colors.selected.as_argb8888());
}

#[test]
fn chrome_shows_heading_block() {
    let sc = scene((100, 100));
    let g = greeter(None);
    let mut buf = PixelBuffer::new(100, 100, 1);
    sc.paint_chrome(&mut buf, &g, &sc.colors.neutral.clone(), &solid_block(2, 2, 0x55667788)).unwrap();
    assert_eq!(buf.pixels()[(32 * 100) as usize], 0x55667788);
    assert_eq!(buf.pixels()[(33 * 100 + 1) as usize], 0x55667788);
    assert_eq!(buf.pixels()[(31 * 100) as usize], 1);
}

#[test]
fn chrome_that_does_not_fit_paints_nothing() {
    let sc = scene((100, 100));
    let g = greeter(None);
    let mut buf = PixelBuffer::new(30, 30, 1);
    let res = sc.paint_chrome(&mut buf, &g, &rgb(9, 9, 9), &solid_block(2, 2, 7));
    assert!(matches!(res, Err(mflm::draw::DrawError::Buffer(mflm::region::BufferError::OutOfBounds))));
    assert!(buf.pixels().iter().all(|p| *p == 1));
}

#[test]
fn password_pixels_depend_on_length_only() {
    let sc = scene((100, 100));
    let mut g1 = greeter(None);
    let mut g2 = greeter(None);
    for b in b"u\rabc" {
        g1.handle_byte(*b);
    }
    for b in b"u\rxyz" {
        g2.handle_byte(*b);
    }
    let j1 = sc.password_job(&g1);
    let j2 = sc.password_job(&g2);
    assert_eq!(j1.text, j2.text);
    let block = solid_block(3, 1, 0x10203040);
    let mut b1 = PixelBuffer::new(100, 100, 1);
    let mut b2 = PixelBuffer::new(100, 100, 1);
    sc.paint_password(&mut b1, &g1, true, &block).unwrap();
    sc.paint_password(&mut b2, &g2, true, &block).unwrap();
    assert_eq!(b1.pixels(), b2.pixels());
}
