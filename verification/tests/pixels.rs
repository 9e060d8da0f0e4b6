use grimoire::pixels::blit_color;
use grimoire::pixels::blit_mask;
use grimoire::pixels::blit_rgba;
use grimoire::pixels::composite_into;
use grimoire::pixels::fill_rect;
use grimoire::pixels::fill_rect_alpha;
use grimoire::pixels::swap_channels;
use grimoire::pixels::Source;

fn frame(w: usize, h: usize, px: [u8; 4]) -> Vec<u8> {
    let mut v = Vec::new();
    for _ in 0..w * h {
        v.extend_from_slice(&px);
    }
    v
}

fn pixel(data: &[u8], w: usize, x: usize, y: usize) -> [u8; 4] {
    let i = (y * w + x) * 4;
    [data[i], data[i + 1], data[i + 2], data[i + 3]]
}

#[test]
fn fill_rect_writes_opaque_pixels_inside() {
    let mut d = frame(4, 3, [1, 2, 3, 4]);
    fill_rect(&mut d, 4, 3, 1, 1, 2, 1, [10, 20, 30]);
    for y in 0..3 {
        for x in 0..4 {
            let want = if y == 1 && (x == 1 || x == 2) { [10, 20, 30, 255] } else { [1, 2, 3, 4] };
            assert_eq!(pixel(&d, 4, x, y), want);
        }
    }
}

#[test]
fn fill_rect_clips_to_the_frame() {
    let mut d = frame(3, 3, [0, 0, 0, 0]);
    fill_rect(&mut d, 3, 3, 2, 2, 100, 100, [9, 9, 9]);
    assert_eq!(pixel(&d, 3, 2, 2), [9, 9, 9, 255]);
    assert_eq!(pixel(&d, 3, 1, 2), [0, 0, 0, 0]);
    assert_eq!(pixel(&d, 3, 2, 1), [0, 0, 0, 0]);
    let before = d.clone();
    fill_rect(&mut d, 3, 3, 3, 0, 5, 5, [7, 7, 7]);
    fill_rect(&mut d, 3, 3, 0, 3, 5, 5, [7, 7, 7]);
    fill_rect(&mut d, 3, 3, 0, 0, 0, 5, [7, 7, 7]);
    fill_rect(&mut d, 3, 3, u32::MAX, u32::MAX, u32::MAX, u32::MAX, [7, 7, 7]);
    assert_eq!(d, before);
    fill_rect(&mut d, 3, 3, 0, 0, u32::MAX, u32::MAX, [5, 6, 7]);
    assert_eq!(d, frame(3, 3, [5, 6, 7, 255]));
}

#[test]
fn fill_rect_skips_what_the_buffer_does_not_hold() {
    let mut d = vec![0u8; 10];
    fill_rect(&mut d, 2, 2, 0, 0, 2, 2, [1, 2, 3]);
    assert_eq!(d, vec![1, 2, 3, 255, 1, 2, 3, 255, 0, 0]);
    let mut e: Vec<u8> = Vec::new();
    fill_rect(&mut e, 2, 2, 0, 0, 2, 2, [1, 2, 3]);
    assert!(e.is_empty());
    let mut f = vec![0u8; 8];
    fill_rect(&mut f, 0, 2, 0, 0, 2, 2, [1, 2, 3]);
    assert_eq!(f, vec![0u8; 8]);
}

#[test]
fn fill_rect_alpha_blends() {
    let mut d = frame(2, 1, [100, 0, 255, 255]);
    fill_rect_alpha(&mut d, 2, 1, 0, 0, 1, 1, [200, 200, 200], 128);
    assert_eq!(pixel(&d, 2, 0, 0), [150, 100, 227, 255]);
    assert_eq!(pixel(&d, 2, 1, 0), [100, 0, 255, 255]);
    let mut d = frame(1, 1, [100, 100, 100, 0]);
    fill_rect_alpha(&mut d, 1, 1, 0, 0, 1, 1, [200, 200, 200], 128);
    assert_eq!(pixel(&d, 1, 0, 0), [150, 150, 150, 128]);
    let mut d = frame(1, 1, [100, 100, 100, 100]);
    fill_rect_alpha(&mut d, 1, 1, 0, 0, 1, 1, [0, 0, 0], 204);
    assert_eq!(pixel(&d, 1, 0, 0), [20, 20, 20, 224]);
}

#[test]
fn fill_rect_alpha_at_the_ends() {
    let mut d = frame(1, 1, [1, 2, 3, 4]);
    fill_rect_alpha(&mut d, 1, 1, 0, 0, 1, 1, [9, 9, 9], 0);
    assert_eq!(d, vec![1, 2, 3, 4]);
    fill_rect_alpha(&mut d, 1, 1, 0, 0, 1, 1, [9, 8, 7], 255);
    assert_eq!(d, vec![9, 8, 7, 255]);
}

#[test]
fn blit_mask_blends_by_coverage() {
    let mut d = frame(3, 2, [100, 100, 100, 255]);
    let mask = [0u8, 128, 255, 64];
    blit_mask(&mut d, 3, 2, 1, 0, 2, 2, &mask, &[200, 0, 50]);
    assert_eq!(pixel(&d, 3, 0, 0), [100, 100, 100, 255]);
    assert_eq!(pixel(&d, 3, 1, 0), [100, 100, 100, 255]);
    assert_eq!(pixel(&d, 3, 2, 0), [150, 49, 74, 255]);
    assert_eq!(pixel(&d, 3, 1, 1), [200, 0, 50, 255]);
    assert_eq!(pixel(&d, 3, 2, 1), [125, 74, 87, 255]);
}

#[test]
fn blit_mask_clips_on_every_side() {
    let mut d = frame(2, 2, [0, 0, 0, 0]);
    let mask = [255u8; 9];
    blit_mask(&mut d, 2, 2, -1, -1, 3, 3, &mask, &[1, 2, 3]);
    assert_eq!(d, frame(2, 2, [1, 2, 3, 255]));
    let mut d = frame(2, 2, [0, 0, 0, 0]);
    blit_mask(&mut d, 2, 2, 1, 1, 3, 3, &mask, &[1, 2, 3]);
    assert_eq!(pixel(&d, 2, 1, 1), [1, 2, 3, 255]);
    assert_eq!(pixel(&d, 2, 0, 0), [0, 0, 0, 0]);
    assert_eq!(pixel(&d, 2, 1, 0), [0, 0, 0, 0]);
    assert_eq!(pixel(&d, 2, 0, 1), [0, 0, 0, 0]);
    let before = d.clone();
    blit_mask(&mut d, 2, 2, 2, 0, 3, 3, &mask, &[9, 9, 9]);
    blit_mask(&mut d, 2, 2, 0, -3, 3, 3, &mask, &[9, 9, 9]);
    blit_mask(&mut d, 2, 2, 0, 0, -1, 3, &mask, &[9, 9, 9]);
    blit_mask(&mut d, 2, 2, 0, 0, 3, 0, &mask, &[9, 9, 9]);
    blit_mask(&mut d, -2, 2, 0, 0, 3, 3, &mask, &[9, 9, 9]);
    blit_mask(&mut d, 2, -2, 0, 0, 3, 3, &mask, &[9, 9, 9]);
    blit_mask(&mut d, 2, 2, i32::MAX, i32::MAX, i32::MAX, i32::MAX, &mask, &[9, 9, 9]);
    blit_mask(&mut d, 2, 2, i32::MIN, i32::MIN, i32::MAX, i32::MAX, &mask, &[9, 9, 9]);
    assert_eq!(d, before);
}

#[test]
fn blit_mask_skips_what_the_mask_does_not_hold() {
    let mut d = frame(2, 2, [0, 0, 0, 0]);
    let mask = [255u8, 255, 255];
    blit_mask(&mut d, 2, 2, 0, 0, 2, 2, &mask, &[4, 5, 6]);
    assert_eq!(pixel(&d, 2, 0, 0), [4, 5, 6, 255]);
    assert_eq!(pixel(&d, 2, 1, 0), [4, 5, 6, 255]);
    assert_eq!(pixel(&d, 2, 0, 1), [4, 5, 6, 255]);
    assert_eq!(pixel(&d, 2, 1, 1), [0, 0, 0, 0]);
}

#[test]
fn blit_rgba_respects_source_alpha() {
    let mut d = frame(3, 1, [100, 100, 100, 200]);
    let src = [10u8, 20, 30, 255, 200, 0, 50, 128, 9, 9, 9, 0];
    blit_rgba(&mut d, 3, 1, 0, 0, 3, 1, &src);
    assert_eq!(pixel(&d, 3, 0, 0), [10, 20, 30, 255]);
    assert_eq!(pixel(&d, 3, 1, 0), [150, 49, 74, 227]);
    assert_eq!(pixel(&d, 3, 2, 0), [100, 100, 100, 200]);
}

#[test]
fn blit_rgba_places_and_clips() {
    let mut d = frame(3, 3, [0, 0, 0, 0]);
    let src = [1u8, 1, 1, 255, 2, 2, 2, 255, 3, 3, 3, 255, 4, 4, 4, 255];
    blit_rgba(&mut d, 3, 3, 2, 2, 2, 2, &src);
    assert_eq!(pixel(&d, 3, 2, 2), [1, 1, 1, 255]);
    blit_rgba(&mut d, 3, 3, -1, -1, 2, 2, &src);
    assert_eq!(pixel(&d, 3, 0, 0), [4, 4, 4, 255]);
    assert_eq!(pixel(&d, 3, 1, 1), [0, 0, 0, 0]);
    let short = [1u8, 1, 1, 255, 2, 2, 2];
    blit_rgba(&mut d, 3, 3, 0, 1, 2, 1, &short);
    assert_eq!(pixel(&d, 3, 0, 1), [1, 1, 1, 255]);
    assert_eq!(pixel(&d, 3, 1, 1), [0, 0, 0, 0]);
}

#[test]
fn blit_color_scales_each_channel() {
    let mut d = frame(3, 1, [100, 100, 100, 200]);
    let src = [200u8, 0, 50, 128, 7, 8, 9, 255, 9, 9, 9, 0];
    blit_color(&mut d, 3, 1, 0, 0, 3, 1, &src);
    assert_eq!(pixel(&d, 3, 0, 0), [149, 49, 74, 227]);
    assert_eq!(pixel(&d, 3, 1, 0), [7, 8, 9, 255]);
    assert_eq!(pixel(&d, 3, 2, 0), [100, 100, 100, 200]);
}

#[test]
fn swap_channels_exchanges_red_and_blue() {
    let src = [1u8, 2, 3, 4, 5, 6, 7, 8];
    let mut dst = [0u8; 8];
    swap_channels(&mut dst, &src);
    assert_eq!(dst, [3, 2, 1, 4, 7, 6, 5, 8]);
}

#[test]
fn swap_channels_stops_at_the_shorter_buffer() {
    let src = [1u8, 2, 3, 4, 5, 6, 7];
    let mut dst = [9u8; 10];
    swap_channels(&mut dst, &src);
    assert_eq!(dst, [3, 2, 1, 4, 9, 9, 9, 9, 9, 9]);
    let src = [1u8, 2, 3, 4, 5, 6, 7, 8];
    let mut dst = [9u8; 6];
    swap_channels(&mut dst, &src);
    assert_eq!(dst, [3, 2, 1, 4, 9, 9]);
    let mut none: [u8; 0] = [];
    swap_channels(&mut none, &src);
}

#[test]
fn composite_into_takes_every_source() {
    let mut d = frame(1, 1, [100, 100, 100, 100]);
    composite_into(&mut d, 1, 1, 0, 0, 1, 1, Source::Solid([1, 2, 3]));
    assert_eq!(d, vec![1, 2, 3, 255]);
    composite_into(&mut d, 1, 1, 0, 0, 1, 1, Source::Tint([201, 2, 3], 0));
    assert_eq!(d, vec![1, 2, 3, 255]);
    composite_into(&mut d, 1, 1, 0, 0, 1, 1, Source::Mask(&[255], [9, 9, 9]));
    assert_eq!(d, vec![9, 9, 9, 255]);
    composite_into(&mut d, 1, 1, 0, 0, 1, 1, Source::Image(&[5, 5, 5, 255]));
    assert_eq!(d, vec![5, 5, 5, 255]);
    composite_into(&mut d, 1, 1, 0, 0, 1, 1, Source::Glyph(&[6, 6, 6, 255]));
    assert_eq!(d, vec![6, 6, 6, 255]);
}
