use pixel_view::renderer::{
    quad_index_bytes, quad_indexes, Renderer, SUBPIXELS, TEXTURE_HEIGHT, TEXTURE_WIDTH,
};

fn at(x: i64, y: i64) -> (i64, i64) {
    (x * SUBPIXELS as i64, y * SUBPIXELS as i64)
}

#[test]
fn new_renderer_has_fixed_framebuffer() {
    let r = Renderer::new((800, 600));
    assert_eq!(r.size(), (800, 600));
    assert_eq!(r.texture().size(), (TEXTURE_WIDTH, TEXTURE_HEIGHT));
    assert_eq!(r.texture().pixels().len(), 320 * 240 * 4);
}

#[test]
fn pos_to_pixel_scales_window_to_texture() {
    let mut r = Renderer::new((320, 240));
    r.resize((640, 480));
    assert_eq!(r.pos_to_pixel(at(320, 240)), Some((160, 120)));
    assert_eq!(r.pos_to_pixel(at(0, 0)), Some((0, 0)));
    assert_eq!(r.pos_to_pixel(at(639, 479)), Some((319, 239)));
    assert_eq!(r.pos_to_pixel(at(640, 480)), None);
    assert_eq!(r.pos_to_pixel(at(640, 0)), None);
    assert_eq!(r.pos_to_pixel(at(0, 480)), None);
    assert_eq!(r.pos_to_pixel(at(-1, 10)), None);
    assert_eq!(r.pos_to_pixel(at(10, -1)), None);
}

#[test]
fn pos_to_pixel_keeps_fractions_of_a_pixel() {
    let r = Renderer::new((160, 120));
    let half = SUBPIXELS as i64 / 2;
    assert_eq!(r.pos_to_pixel((half, half)), Some((1, 1)));
    assert_eq!(r.pos_to_pixel((half - 1, half - 1)), Some((0, 0)));
    assert_eq!(r.pos_to_pixel((160 * SUBPIXELS as i64 - 1, 0)), Some((319, 0)));
    assert_eq!(r.pos_to_pixel((-1, 0)), None);
}

#[test]
fn pos_to_pixel_far_outside() {
    let r = Renderer::new((320, 240));
    assert_eq!(r.pos_to_pixel((i64::MAX, 0)), None);
    assert_eq!(r.pos_to_pixel((0, i64::MIN)), None);
}

#[test]
fn pos_to_pixel_in_zero_sized_window() {
    let r = Renderer::new((0, 0));
    assert_eq!(r.pos_to_pixel(at(0, 0)), None);
}

#[test]
fn pos_to_pixel_in_smaller_window() {
    let r = Renderer::new((160, 120));
    assert_eq!(r.pos_to_pixel(at(1, 1)), Some((2, 2)));
    assert_eq!(r.pos_to_pixel(at(159, 119)), Some((318, 238)));
}

#[test]
fn resize_keeps_framebuffer() {
    let mut r = Renderer::new((320, 240));
    r.clear();
    r.draw((5, 5), &[1, 2, 3, 4], (1, 1));
    let before = r.texture().pixels().to_vec();
    r.resize((1024, 768));
    assert_eq!(r.size(), (1024, 768));
    assert_eq!(r.texture().size(), (320, 240));
    assert_eq!(r.texture().pixels(), &before[..]);
    assert_eq!(r.pos_to_pixel(at(512, 384)), Some((160, 120)));
}

#[test]
fn update_changes_nothing() {
    let mut r = Renderer::new((320, 240));
    r.draw((0, 0), &[9, 9, 9, 9], (1, 1));
    let before = r.texture().pixels().to_vec();
    r.update();
    assert_eq!(r.size(), (320, 240));
    assert_eq!(r.texture().pixels(), &before[..]);
}

#[test]
fn red_square_over_black() {
    let mut r = Renderer::new((320, 240));
    r.clear();
    let red: Vec<u8> = [255u8, 0, 0, 255].repeat(16);
    r.draw((0, 0), &red, (4, 4));
    let layout = r.texture().upload_layout();
    assert_eq!((layout.width, layout.height), (320, 240));
    let p = r.texture().pixels();
    for y in 0..240usize {
        for x in 0..320usize {
            let i = (y * 320 + x) * 4;
            let expected = if x < 4 && y < 4 { [255, 0, 0, 255] } else { [0, 0, 0, 255] };
            assert_eq!([p[i], p[i + 1], p[i + 2], p[i + 3]], expected);
        }
    }
}

#[test]
fn quad_indexes_form_two_triangles() {
    assert_eq!(quad_indexes(), vec![0u16, 1, 2, 2, 1, 3]);
}

#[test]
fn quad_index_bytes_hold_indexes() {
    let b = quad_index_bytes();
    assert_eq!(b.len(), 12);
    let back: Vec<u16> = b.chunks(2).map(|c| u16::from_ne_bytes([c[0], c[1]])).collect();
    assert_eq!(back, vec![0u16, 1, 2, 2, 1, 3]);
    let little = [0u8, 0, 1, 0, 2, 0, 2, 0, 1, 0, 3, 0];
    let big = [0u8, 0, 0, 1, 0, 2, 0, 2, 0, 1, 0, 3];
    assert!(b == little || b == big);
}
