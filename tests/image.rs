use orbital::image::{blend_pixel, Image};
use orbital::rect::Rect;

#[test]
fn rect_fill_is_clipped() {
    let mut img = Image::from_color(4, 3, 0);
    img.rect_fill(Rect { x: 2, y: -1, w: 10, h: 2 }, 7);
    assert_eq!(img.data, vec![0, 0, 7, 7, 0, 0, 0, 0, 0, 0, 0, 0]);
    img.rect_fill(Rect { x: 10, y: 10, w: 2, h: 2 }, 9);
    assert_eq!(img.data.iter().filter(|p| **p == 9).count(), 0);
}

#[test]
fn blit_copies_inside_clip() {
    let mut dst = Image::from_color(4, 4, 1);
    let src = Image { width: 2, height: 2, data: vec![5, 6, 7, 8] };
    dst.blit(1, 1, &src, Rect { x: 0, y: 0, w: 4, h: 2 });
    assert_eq!(dst.data, vec![1, 1, 1, 1, 1, 5, 6, 1, 1, 1, 1, 1, 1, 1, 1, 1]);
    dst.blit(3, 3, &src, Rect { x: 0, y: 0, w: 4, h: 4 });
    assert_eq!(dst.data[15], 5);
}

#[test]
fn blend_by_alpha() {
    assert_eq!(blend_pixel(0xFF10_2030, 0xFFAA_BBCC), 0xFFAA_BBCC);
    assert_eq!(blend_pixel(0xFF10_2030, 0x00AA_BBCC), 0xFF10_2030);
    let half = blend_pixel(0xFF00_0000, 0x80FF_FFFF);
    assert!(half != 0xFF00_0000 && half != 0x80FF_FFFF);
    let mut dst = Image::from_color(2, 1, 0xFF00_0000);
    let src = Image { width: 1, height: 1, data: vec![0xFFFF_FFFF] };
    dst.blend(1, 0, &src, Rect { x: 0, y: 0, w: 2, h: 1 });
    assert_eq!(dst.data, vec![0xFF00_0000, 0xFFFF_FFFF]);
}
