use markup_pdf::hex_color::{HexColor, Rgb};
use markup_pdf::rect::Rect;

#[test]
fn absolute_rects_accumulate_by_translation() {
    let parent = Rect::new(10, 20, 100, 200);
    let local = Rect::new(3, 4, 30, 40);
    let abs = local.add_position(&parent);
    assert_eq!(abs, Rect::new(13, 24, 30, 40));
}

#[test]
fn bottom_left_flip_inverts_against_the_page_height() {
    let r = Rect::new(10, 20, 30, 40);
    let b = r.to_bottom_left_base(297);
    assert_eq!(b, Rect::new(10, 297 - 20 - 40, 30, 40));
    // The flip law: flipped y, original y and the height sum to the page
    // height, and flipping twice gives the rect back.
    assert_eq!(b.y + r.y + r.height, 297);
    assert_eq!(b.to_bottom_left_base(297), r);
}

#[test]
fn corner_points_run_clockwise_from_the_origin_corner() {
    let r = Rect::new(1, 2, 10, 20);
    assert_eq!(r.to_points(), vec![(1, 2), (11, 2), (11, 22), (1, 22)]);
}

#[test]
fn set_height_keeps_everything_else() {
    let r = Rect::new(1, 2, 10, 20);
    assert_eq!(r.set_height(7), Rect::new(1, 2, 10, 7));
    assert_eq!(r.right(), 11);
    assert_eq!(r.bottom(), 22);
}

#[test]
fn hex_colors_decode_per_channel() {
    assert_eq!(
        HexColor::new("#ff0080").to_rgb(),
        Rgb { r: 255, g: 0, b: 128 }
    );
    assert_eq!(
        HexColor::new("#1A2b3C").to_rgb(),
        Rgb { r: 26, g: 43, b: 60 }
    );
}

#[test]
fn malformed_hex_channels_read_as_zero() {
    assert_eq!(HexColor::new("#zzff00").to_rgb(), Rgb { r: 0, g: 255, b: 0 });
    // A channel whose two digits are present still decodes; the missing
    // channels read as zero.
    assert_eq!(HexColor::new("#ff").to_rgb(), Rgb { r: 255, g: 0, b: 0 });
    assert_eq!(HexColor::new("").to_rgb(), Rgb { r: 0, g: 0, b: 0 });
}
