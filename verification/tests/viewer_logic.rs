use image::DynamicImage;
use imgview::app::{popup_area, App, Area, Key, KeyAction, Modal};
use imgview::cells::{
    ascii_cells, encode_sixel_resized, half_blocks, image_to_ascii, image_to_half_blocks, GrayRaster,
    TextCell,
};
use imgview::entries::{build_entries, is_image_file, is_known_extension, DirEntry, EntryKind, ListingEntry};
use imgview::order::{lex_le_chars, sort_names};
use imgview::raster::Raster;
use imgview::render_method::RenderMethod;
use imgview::sixel::{build_palette, encode_sixel, encode_sixel_band, nearest_color};
use imgview::text::push_decimal;

fn raster(width: u32, height: u32, pixels: &[(u8, u8, u8)]) -> Raster {
    let mut data = Vec::new();
    for p in pixels {
        data.extend_from_slice(&[p.0, p.1, p.2, 255]);
    }
    Raster { width, height, data }
}

fn listing(items: &[(&str, EntryKind)]) -> Vec<ListingEntry> {
    items.iter().map(|(n, k)| ListingEntry { name: n.to_string(), kind: *k }).collect()
}

fn names(entries: &[DirEntry]) -> Vec<String> {
    entries
        .iter()
        .map(|e| match e {
            DirEntry::Dir(n) => format!("d:{n}"),
            DirEntry::File(n) => format!("f:{n}"),
        })
        .collect()
}

fn sample_app() -> App {
    let l = listing(&[
        ("b.png", EntryKind::File),
        (".hidden", EntryKind::Dir),
        ("Zdir", EntryKind::Dir),
        ("adir", EntryKind::Dir),
        ("notes.txt", EntryKind::File),
        ("A.JPG", EntryKind::File),
        ("x", EntryKind::Other),
        (".h.png", EntryKind::File),
    ]);
    App::new_file_picker("/tmp/pics".to_string(), Some(&l))
}

fn expand_band(text: &str) -> Vec<u8> {
    let chars: Vec<char> = text.chars().collect();
    let mut out = Vec::new();
    let mut i = 0;
    while i < chars.len() {
        if chars[i] == '!' {
            let mut j = i + 1;
            let mut n = 0usize;
            while chars[j].is_ascii_digit() {
                n = n * 10 + chars[j].to_digit(10).unwrap() as usize;
                j += 1;
            }
            for _ in 0..n {
                out.push(chars[j] as u8 - 63);
            }
            i = j + 1;
        } else {
            out.push(chars[i] as u8 - 63);
            i += 1;
        }
    }
    out
}

#[test]
fn render_methods_in_picker_order() {
    assert_eq!(
        RenderMethod::all(),
        &[RenderMethod::HalfBlock, RenderMethod::Ascii, RenderMethod::Sixel]
    );
    assert_eq!(RenderMethod::HalfBlock.label(), "Half-Block (▀)");
    assert_eq!(RenderMethod::Ascii.label(), "ASCII Art");
    assert_eq!(RenderMethod::Sixel.label(), "Sixel Graphics");
    assert_eq!(
        RenderMethod::Ascii.description(),
        "Grayscale characters mapped by brightness"
    );
    assert_eq!(
        RenderMethod::Sixel.description(),
        "Pixel-perfect via Sixel escape sequences (requires terminal support)"
    );
}

#[test]
fn decimal_digits() {
    let mut s = String::from("x");
    push_decimal(&mut s, 0);
    push_decimal(&mut s, 1234);
    assert_eq!(s, "x01234");
}

#[test]
fn palette_is_uniform_256() {
    let p = build_palette(&raster(0, 0, &[]));
    assert_eq!(p.len(), 256);
    assert_eq!(p[0], (0, 0, 0));
    assert_eq!(p[1], (0, 0, 85));
    assert_eq!(p[3], (0, 0, 255));
    assert_eq!(p[4], (0, 36, 0));
    assert_eq!(p[32], (36, 0, 0));
    assert_eq!(p[109], (109, 109, 85));
    assert_eq!(p[255], (255, 255, 255));
    let reds: Vec<u8> = (0..8).map(|k| p[32 * k].0).collect();
    assert_eq!(reds, vec![0, 36, 72, 109, 145, 182, 218, 255]);
}

#[test]
fn nearest_color_picks_first_closest() {
    let p = build_palette(&raster(0, 0, &[]));
    assert_eq!(nearest_color(0, 0, 0, &p), 0);
    assert_eq!(nearest_color(255, 255, 255, &p), 255);
    assert_eq!(nearest_color(100, 100, 100, &p), 109);
    assert_eq!(nearest_color(10, 190, 240, &p), 23);
    // green 200 is as far from 182 as from 218: the first entry wins
    assert_eq!(nearest_color(0, 200, 0, &p), 20);
    assert_eq!(nearest_color(1, 2, 3, &[]), 0);
    assert_eq!(nearest_color(50, 0, 0, &[(40, 0, 0), (60, 0, 0)]), 0);
}

#[test]
fn palette_colors_quantize_to_themselves() {
    let p = build_palette(&raster(0, 0, &[]));
    for (i, c) in p.iter().enumerate() {
        assert_eq!(nearest_color(c.0, c.1, c.2, &p), i);
    }
}

#[test]
fn band_runs_are_encoded() {
    let mut s = String::new();
    encode_sixel_band(&[1, 1, 1, 1, 2], &mut s);
    assert_eq!(s, "!4@A");
    let mut s = String::new();
    encode_sixel_band(&[0, 0, 5], &mut s);
    assert_eq!(s, "??D");
    let mut s = String::new();
    encode_sixel_band(&[], &mut s);
    assert_eq!(s, "");
    let mut s = String::from("#7");
    encode_sixel_band(&vec![0u8; 300], &mut s);
    assert_eq!(s, "#7!255?!45?");
}

#[test]
fn band_roundtrip_on_values() {
    let data: Vec<u8> = vec![3, 3, 3, 7, 63, 63, 0, 0, 0, 0, 0, 12, 12];
    let mut s = String::new();
    encode_sixel_band(&data, &mut s);
    assert_eq!(expand_band(&s), data);
    let long = vec![9u8; 600];
    let mut s = String::new();
    encode_sixel_band(&long, &mut s);
    assert_eq!(expand_band(&s), long);
}

#[test]
fn sixel_of_one_black_pixel() {
    let s = encode_sixel(&raster(1, 1, &[(0, 0, 0)]));
    assert!(s.starts_with("\x1bPq#0;2;0;0;0#1;2;0;0;33#2;2;0;0;66#3;2;0;0;100#4;2;0;14;0"));
    assert!(s.ends_with("#255;2;100;100;100#0@\x1b\\"));
    assert_eq!(s.matches(";2;").count(), 256);
}

#[test]
fn sixel_bands_and_colors() {
    let white = (255, 255, 255);
    let s = encode_sixel(&raster(2, 7, &[white; 14]));
    assert!(s.ends_with("#255;2;100;100;100#255~~-#255@@\x1b\\"));
    let s = encode_sixel(&raster(1, 2, &[(0, 0, 0), white]));
    assert!(s.ends_with("#255;2;100;100;100#0@$#255A\x1b\\"));
    let s = encode_sixel(&raster(3, 0, &[]));
    assert!(s.ends_with("#255;2;100;100;100\x1b\\"));
}

#[test]
fn half_blocks_pair_rows() {
    let a = (1, 2, 3);
    let b = (4, 5, 6);
    let c = (7, 8, 9);
    let img = raster(1, 3, &[a, b, c]);
    let lines = half_blocks(&img);
    assert_eq!(lines.len(), 2);
    assert_eq!(lines[0], vec![TextCell { symbol: '▀', fg: a, bg: Some(b) }]);
    assert_eq!(lines[1], vec![TextCell { symbol: '▀', fg: c, bg: Some(c) }]);
}

#[test]
fn ascii_ramp_by_brightness() {
    let gray = GrayRaster { width: 3, height: 1, data: vec![0, 128, 255] };
    let img = raster(3, 1, &[(1, 1, 1), (2, 2, 2), (3, 3, 3)]);
    let lines = ascii_cells(&gray, &img);
    assert_eq!(lines.len(), 1);
    let symbols: String = lines[0].iter().map(|c| c.symbol).collect();
    assert_eq!(symbols, " =@");
    assert_eq!(lines[0][1].fg, (2, 2, 2));
    assert_eq!(lines[0][1].bg, None);
}

#[test]
fn image_conversions_have_requested_sizes() {
    let img = DynamicImage::new_rgb8(7, 3);
    assert!(image_to_half_blocks(&img, 0, 5).is_empty());
    let lines = image_to_half_blocks(&img, 3, 2);
    assert_eq!(lines.len(), 2);
    assert!(lines.iter().all(|l| l.len() == 3));
    assert!(lines.iter().flatten().all(|c| c.symbol == '▀' && c.fg == (0, 0, 0)));
    let lines = image_to_ascii(&img, 4, 2);
    assert_eq!(lines.len(), 2);
    assert!(lines.iter().flatten().all(|c| c.symbol == ' '));
    assert!(image_to_ascii(&img, 4, 0).is_empty());
    assert_eq!(encode_sixel_resized(&img, 0, 3), "");
    let s = encode_sixel_resized(&img, 2, 1);
    assert!(s.ends_with("#0!2@\x1b\\") || s.ends_with("#0@@\x1b\\"));
}

#[test]
fn image_file_extensions() {
    assert!(is_image_file("photo.PNG"));
    assert!(is_image_file("x.Jpeg"));
    assert!(is_image_file("archive.tar.gif"));
    assert!(is_image_file("dir/pic.tif"));
    assert!(is_image_file("a.qoi"));
    assert!(!is_image_file("notes.txt"));
    assert!(!is_image_file(".png"));
    assert!(!is_image_file("noext"));
    assert!(!is_image_file("png"));
    assert!(is_known_extension(&vec!['w', 'e', 'b', 'p']));
    assert!(!is_known_extension(&vec!['W', 'E', 'B', 'P']));
}

#[test]
fn names_sort_by_lower_case_stably() {
    let v: Vec<String> = ["b", "A", "a", "C", "B"].iter().map(|s| s.to_string()).collect();
    assert_eq!(sort_names(&v), vec!["A", "a", "b", "B", "C"]);
    let v: Vec<String> = ["Zeta", "éclair", "alpha"].iter().map(|s| s.to_string()).collect();
    assert_eq!(sort_names(&v), vec!["alpha", "Zeta", "éclair"]);
    assert!(lex_le_chars(&vec!['a'], &vec!['a', 'b']));
    assert!(!lex_le_chars(&vec!['b'], &vec!['a', 'b']));
}

#[test]
fn entries_dirs_then_images() {
    let l = listing(&[
        ("b.png", EntryKind::File),
        (".hidden", EntryKind::Dir),
        ("Zdir", EntryKind::Dir),
        ("adir", EntryKind::Dir),
        ("notes.txt", EntryKind::File),
        ("A.JPG", EntryKind::File),
        ("x", EntryKind::Other),
        (".h.png", EntryKind::File),
    ]);
    let e = build_entries(true, Some(&l));
    assert_eq!(names(&e), vec!["d:..", "d:adir", "d:Zdir", "f:A.JPG", "f:b.png"]);
    let e = build_entries(false, Some(&l));
    assert_eq!(names(&e), vec!["d:adir", "d:Zdir", "f:A.JPG", "f:b.png"]);
    assert!(build_entries(false, None).is_empty());
    assert_eq!(names(&build_entries(true, None)), vec!["d:.."]);
    assert_eq!(e[0].name(), "adir");
}

#[test]
fn picker_line_texts() {
    assert_eq!(DirEntry::Dir("..".to_string()).line_text(), "  📁 .. ../");
    assert_eq!(DirEntry::Dir("photos".to_string()).line_text(), "  📁 photos/");
    assert_eq!(DirEntry::File("a.png".to_string()).line_text(), "  🖼  a.png");
}

#[test]
fn ascii_of_a_white_image() {
    let img = DynamicImage::ImageRgb8(image::RgbImage::from_pixel(5, 5, image::Rgb([255, 255, 255])));
    let lines = image_to_ascii(&img, 2, 2);
    assert_eq!(lines.len(), 2);
    assert!(lines.iter().flatten().all(|c| c.symbol == '@' && c.fg == (255, 255, 255)));
    let lines = image_to_half_blocks(&img, 2, 1);
    assert_eq!(lines, vec![vec![TextCell { symbol: '▀', fg: (255, 255, 255), bg: Some((255, 255, 255)) }; 2]]);
}

#[test]
fn picker_navigation() {
    let mut app = sample_app();
    assert_eq!(app.dir(), "/tmp/pics");
    assert_eq!(app.selected(), Some(0));
    assert_eq!(app.entry_counts(), (3, 2));
    assert!(matches!(app.handle_key(Key::Down), KeyAction::Continue));
    assert_eq!(app.selected(), Some(1));
    app.handle_key(Key::End);
    assert_eq!(app.selected(), Some(4));
    app.handle_key(Key::Char('j'));
    assert_eq!(app.selected(), Some(4));
    app.handle_key(Key::PageUp);
    assert_eq!(app.selected(), Some(0));
    app.handle_key(Key::PageDown);
    assert_eq!(app.selected(), Some(4));
    app.handle_key(Key::Char('k'));
    assert_eq!(app.selected(), Some(3));
    app.handle_key(Key::Home);
    assert_eq!(app.selected(), Some(0));
    app.handle_key(Key::Up);
    assert_eq!(app.selected(), Some(0));
    assert!(matches!(app.handle_key(Key::Char('x')), KeyAction::Continue));
    assert!(matches!(app.handle_key(Key::Char('q')), KeyAction::Quit));
    assert!(matches!(app.handle_key(Key::Esc), KeyAction::Quit));
}

#[test]
fn picker_enter_opens_paths() {
    let mut app = sample_app();
    match app.handle_key(Key::Enter) {
        KeyAction::Open(p) => assert_eq!(p, "/tmp"),
        _ => panic!("expected a path"),
    }
    app.handle_key(Key::Down);
    match app.handle_key(Key::Enter) {
        KeyAction::Open(p) => assert_eq!(p, "/tmp/pics/adir"),
        _ => panic!("expected a path"),
    }
    app.handle_key(Key::End);
    match app.handle_key(Key::Enter) {
        KeyAction::Open(p) => assert_eq!(p, "/tmp/pics/b.png"),
        _ => panic!("expected a path"),
    }
    assert_eq!(app.selected_path(), Some("/tmp/pics/b.png".to_string()));
}

#[test]
fn root_directory_has_no_parent_entry() {
    let l = listing(&[("a.png", EntryKind::File)]);
    let app = App::new_file_picker("/".to_string(), Some(&l));
    assert_eq!(names(app.entries()), vec!["f:a.png"]);
    let mut empty = App::new_file_picker("/".to_string(), None);
    assert!(empty.entries().is_empty());
    empty.handle_key(Key::End);
    assert_eq!(empty.selected(), Some(0));
    empty.handle_key(Key::PageDown);
    assert_eq!(empty.selected(), Some(0));
    assert!(matches!(empty.handle_key(Key::Enter), KeyAction::Continue));
}

#[test]
fn entering_a_directory_reloads_entries() {
    let mut app = sample_app();
    app.handle_key(Key::End);
    let l = listing(&[("c.bmp", EntryKind::File), ("sub", EntryKind::Dir)]);
    app.enter_directory("/tmp/pics/adir".to_string(), Some(&l));
    assert_eq!(app.dir(), "/tmp/pics/adir");
    assert_eq!(names(app.entries()), vec!["d:..", "d:sub", "f:c.bmp"]);
    assert_eq!(app.selected(), Some(0));
    app.refresh_entries(None);
    assert_eq!(names(app.entries()), vec!["d:.."]);
}

#[test]
fn viewer_and_method_dialog() {
    let mut app = sample_app();
    app.open_viewer(DynamicImage::new_rgb8(4, 4), "/tmp/pics/b.png".to_string());
    assert!(app.needs_render());
    assert_eq!(app.viewer().unwrap().file_path, "/tmp/pics/b.png");
    assert!(matches!(app.handle_key(Key::Char('m')), KeyAction::Continue));
    assert_eq!(app.modal(), Some(Modal::RenderMethodPicker));
    assert_eq!(app.modal_selection(), 0);
    app.handle_key(Key::Down);
    app.handle_key(Key::Down);
    app.handle_key(Key::Char('j'));
    assert_eq!(app.modal_selection(), 2);
    app.handle_key(Key::Up);
    assert_eq!(app.modal_selection(), 1);
    assert!(matches!(app.handle_key(Key::Char('q')), KeyAction::Continue));
    app.handle_key(Key::Enter);
    assert_eq!(app.render_method(), RenderMethod::Ascii);
    assert_eq!(app.modal(), None);
    assert!(app.needs_render());
    app.handle_key(Key::Char('m'));
    assert_eq!(app.modal_selection(), 1);
    assert!(matches!(app.handle_key(Key::Esc), KeyAction::Continue));
    assert_eq!(app.modal(), None);
    assert!(matches!(app.handle_key(Key::Esc), KeyAction::Quit));
    app.handle_key(Key::Char('b'));
    assert!(app.viewer().is_none());
    assert_eq!(app.selected(), Some(0));
}

#[test]
fn dialog_cancel_keeps_state() {
    let mut app = sample_app();
    app.open_viewer(DynamicImage::new_rgb8(2, 2), "/tmp/pics/b.png".to_string());
    app.handle_key(Key::Char('m'));
    app.handle_key(Key::Down);
    app.handle_key(Key::Enter);
    assert_eq!(app.render_method(), RenderMethod::Ascii);
    app.handle_key(Key::Char('m'));
    app.handle_key(Key::Esc);
    assert_eq!(app.render_method(), RenderMethod::Ascii);
    assert_eq!(app.modal(), None);
    assert_eq!(app.modal_selection(), 1);
    assert!(app.viewer().is_some());
}

#[test]
fn down_then_up_returns() {
    let mut app = sample_app();
    app.handle_key(Key::Down);
    app.handle_key(Key::Down);
    app.handle_key(Key::Up);
    assert_eq!(app.selected(), Some(1));
}

#[test]
fn rendering_follows_terminal_size() {
    let mut app = sample_app();
    app.open_viewer(DynamicImage::new_rgb8(8, 8), "/tmp/pics/b.png".to_string());
    assert!(app.begin_render());
    assert!(!app.needs_render());
    assert!(!app.begin_render());
    app.note_terminal_size(10, 5);
    assert!(app.needs_render());
    assert!(app.begin_render());
    assert!(app.try_render(10, 5));
    assert_eq!(app.sixel_area(), Some(Area { x: 0, y: 0, width: 10, height: 4 }));
    let cells = app.cached_render().unwrap();
    assert_eq!(cells.len(), 4);
    assert!(cells.iter().all(|l| l.len() == 10 && l.iter().all(|c| c.symbol == '▀')));
    assert!(app.cached_sixel().is_none());
    assert!(app.sixel_to_write().is_none());
    app.note_terminal_size(10, 5);
    assert!(!app.needs_render());
    assert!(app.cached_render().is_some());
    app.note_terminal_size(12, 5);
    assert!(app.needs_render());
    assert!(app.cached_render().is_none());
}

#[test]
fn sixel_rendering_replaces_cells() {
    let mut app = sample_app();
    app.open_viewer(DynamicImage::new_rgb8(8, 8), "/tmp/pics/b.png".to_string());
    app.handle_key(Key::Char('m'));
    app.handle_key(Key::End);
    app.handle_key(Key::Down);
    app.handle_key(Key::Down);
    app.handle_key(Key::Enter);
    assert_eq!(app.render_method(), RenderMethod::Sixel);
    assert!(app.try_render(4, 3));
    assert!(app.cached_render().is_none());
    let s = app.cached_sixel().unwrap();
    assert!(s.starts_with("\x1bPq#0;2;0;0;0"));
    assert!(s.ends_with("#0!4B\x1b\\"));
    let (x, y, text) = app.sixel_to_write().unwrap();
    assert_eq!((x, y), (0, 0));
    assert_eq!(text, s);
}

#[test]
fn try_render_without_image() {
    let mut app = sample_app();
    assert!(!app.try_render(10, 5));
    assert!(app.cached_render().is_none());
    app.note_terminal_size(10, 5);
    assert!(!app.needs_render());
}

#[test]
fn dialog_geometry() {
    assert_eq!(popup_area(100, 30), Area { x: 9, y: 10, width: 82, height: 10 });
    assert_eq!(popup_area(10, 5), Area { x: 2, y: 2, width: 6, height: 1 });
    assert_eq!(popup_area(2, 2), Area { x: 1, y: 1, width: 0, height: 0 });
}
