use image::{DynamicImage, Rgba, RgbaImage};
use imgview::app::{App, Area, Key, ViewerBody};
use imgview::cells::{encode_sixel_resized, image_to_half_blocks, TextCell};
use imgview::entries::{EntryKind, ListingEntry};
use imgview::raster::Raster;
use imgview::render_method::RenderMethod;
use imgview::sixel::{encode_sixel, encode_sixel_band};

fn viewer_app() -> App {
    let l = vec![ListingEntry { name: "a.png".to_string(), kind: EntryKind::File }];
    let mut app = App::new_file_picker("/tmp".to_string(), Some(&l));
    app.open_viewer(DynamicImage::new_rgb8(3, 3), "/tmp/a.png".to_string());
    app
}

fn four_colors() -> DynamicImage {
    let mut img = RgbaImage::new(2, 2);
    img.put_pixel(0, 0, Rgba([255, 0, 0, 255]));
    img.put_pixel(1, 0, Rgba([0, 255, 0, 255]));
    img.put_pixel(0, 1, Rgba([0, 0, 255, 255]));
    img.put_pixel(1, 1, Rgba([255, 255, 255, 255]));
    DynamicImage::ImageRgba8(img)
}

#[test]
fn image_area_leaves_the_status_line() {
    for w in [0u16, 1, 7, 300] {
        for h in [0u16, 1, 2, 3, 11, 100] {
            let mut app = viewer_app();
            assert!(app.try_render(w, h));
            let expected = if h >= 2 { h - 1 } else { h };
            assert_eq!(app.sixel_area(), Some(Area { x: 0, y: 0, width: w, height: expected }));
        }
    }
}

#[test]
fn viewer_body_follows_method_and_cache() {
    let mut app = viewer_app();
    assert!(matches!(app.viewer_body(), ViewerBody::Loading));
    assert!(app.try_render(4, 3));
    match app.viewer_body() {
        ViewerBody::Cells(rows) => assert_eq!(rows.len(), 2),
        _ => panic!("cells expected"),
    }
    app.handle_key(Key::Char('m'));
    app.handle_key(Key::Down);
    app.handle_key(Key::Down);
    app.handle_key(Key::Enter);
    assert_eq!(app.render_method(), RenderMethod::Sixel);
    assert!(matches!(app.viewer_body(), ViewerBody::Loading));
    assert!(app.try_render(4, 3));
    assert!(matches!(app.viewer_body(), ViewerBody::Nothing));
}

#[test]
fn half_blocks_show_the_image_pixels() {
    let lines = image_to_half_blocks(&four_colors(), 2, 1);
    assert_eq!(
        lines,
        vec![vec![
            TextCell { symbol: '▀', fg: (255, 0, 0), bg: Some((0, 0, 255)) },
            TextCell { symbol: '▀', fg: (0, 255, 0), bg: Some((255, 255, 255)) },
        ]]
    );
}

#[test]
fn sixel_of_a_resized_image_shows_its_colors() {
    let s = encode_sixel_resized(&four_colors(), 2, 2);
    assert!(s.ends_with("#3A?$#28?@$#224@?$#255?A\x1b\\"), "{s}");
}

#[test]
fn sixel_ignores_alpha() {
    let opaque = Raster { width: 2, height: 1, data: vec![10, 200, 30, 255, 90, 0, 250, 255] };
    let clear = Raster { width: 2, height: 1, data: vec![10, 200, 30, 0, 90, 0, 250, 17] };
    assert_eq!(encode_sixel(&opaque), encode_sixel(&clear));
}

#[test]
fn band_text_uses_the_sixel_alphabet() {
    let mut s = String::new();
    encode_sixel_band(&[0, 0, 0, 0, 63, 5, 5, 5, 5, 5, 1], &mut s);
    assert_eq!(s, "!4?~!5D@");
    assert!(s.chars().all(|c| c == '!' || c.is_ascii_digit() || ('?'..='~').contains(&c)));
}
