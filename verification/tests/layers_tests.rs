use databend::blend::Rgba;
use databend::layers::apply_layer;
use databend::layers::composite_layers;
use databend::layers::draw_layer;
use databend::layers::layered_composite;
use databend::layers::tint;
use databend::layers::Layer;
use databend::pixel::PixelBuffer;
use databend::pixel::PixelFormat;
use databend::random::RandomSource;

fn rgba(width: u32, height: u32, data: Vec<u8>) -> PixelBuffer {
    PixelBuffer::from_raw(width, height, PixelFormat::Rgba, data).unwrap()
}

fn layer(offset_x: u32, offset_y: u32, alpha_permille: u32, shift: (u8, u8, u8)) -> Layer {
    Layer { offset_x, offset_y, alpha_permille, shift_r: shift.0, shift_g: shift.1, shift_b: shift.2 }
}

fn pixel(image: &PixelBuffer, x: u32, y: u32) -> [u8; 4] {
    let at = image.pixel_start(x, y);
    [image.byte(at), image.byte(at + 1), image.byte(at + 2), image.byte(at + 3)]
}

#[test]
fn a_tint_shifts_the_colour_and_scales_the_alpha() {
    let pixel = Rgba { r: 10, g: 200, b: 255, a: 255 };
    let tinted = tint(pixel, layer(0, 0, 200, (5, 100, 1)));
    assert_eq!(tinted, Rgba { r: 15, g: 255, b: 255, a: 51 });
}

#[test]
fn the_alpha_is_rounded_down() {
    let pixel = Rgba { r: 0, g: 0, b: 0, a: 255 };
    assert_eq!(tint(pixel, layer(0, 0, 100, (0, 0, 0))).a, 25);
    assert_eq!(tint(pixel, layer(0, 0, 299, (0, 0, 0))).a, 76);
    assert_eq!(tint(pixel, layer(0, 0, 1000, (0, 0, 0))).a, 255);
    assert_eq!(tint(pixel, layer(0, 0, 0, (0, 0, 0))).a, 0);
    assert_eq!(tint(pixel, layer(0, 0, 1001, (0, 0, 0))).a, 255);
    assert_eq!(tint(pixel, layer(0, 0, u32::MAX, (0, 0, 0))).a, 255);
    let faint = Rgba { r: 0, g: 0, b: 0, a: 9 };
    assert_eq!(tint(faint, layer(0, 0, 100, (0, 0, 0))).a, 0);
    assert_eq!(tint(faint, layer(0, 0, 299, (0, 0, 0))).a, 2);
}

#[test]
fn a_layer_on_a_clear_canvas_is_the_tinted_copy() {
    let source = rgba(2, 1, vec![10, 20, 30, 255, 40, 50, 60, 100]);
    let canvas = source.blank_like();
    let out = apply_layer(canvas, &source, layer(0, 0, 200, (1, 2, 3)));
    assert_eq!(out.data(), &vec![11, 22, 33, 51, 41, 52, 63, 20]);
    assert_eq!(out.width(), 2);
    assert_eq!(out.height(), 1);
}

#[test]
fn a_displaced_layer_leaves_the_rim_alone() {
    // Three by two pixels, the copy moved one to the right and one down: only
    // the pixels (1, 1) and (2, 1) are reached, by the source pixels (0, 0)
    // and (1, 0).
    let mut data: Vec<u8> = Vec::new();
    for i in 0..6u8 {
        data.extend_from_slice(&[10 * i, 10 * i + 1, 10 * i + 2, 255]);
    }
    let source = rgba(3, 2, data);
    let out = apply_layer(source.blank_like(), &source, layer(1, 1, 1000, (0, 0, 0)));
    assert_eq!(pixel(&out, 0, 0), [0, 0, 0, 0]);
    assert_eq!(pixel(&out, 1, 0), [0, 0, 0, 0]);
    assert_eq!(pixel(&out, 2, 0), [0, 0, 0, 0]);
    assert_eq!(pixel(&out, 0, 1), [0, 0, 0, 0]);
    assert_eq!(pixel(&out, 1, 1), [0, 1, 2, 255]);
    assert_eq!(pixel(&out, 2, 1), [10, 11, 12, 255]);
}

#[test]
fn a_layer_moved_out_of_the_image_changes_nothing() {
    let source = rgba(2, 2, vec![200u8; 16]);
    let canvas = rgba(2, 2, vec![5u8; 16]);
    let out = apply_layer(canvas, &source, layer(2, 0, 300, (0, 0, 0)));
    assert_eq!(out.data(), &vec![5u8; 16]);
    let canvas = rgba(2, 2, vec![5u8; 16]);
    let out = apply_layer(canvas, &source, layer(0, u32::MAX, 300, (0, 0, 0)));
    assert_eq!(out.data(), &vec![5u8; 16]);
}

#[test]
fn a_clear_copy_on_a_clear_canvas_leaves_clear_black() {
    let source = rgba(1, 1, vec![200, 100, 50, 3]);
    // 3 * 299 / 1000 = 0: the copy is clear
    let out = apply_layer(source.blank_like(), &source, layer(0, 0, 299, (9, 9, 9)));
    assert_eq!(out.data(), &vec![0, 0, 0, 0]);
}

#[test]
fn later_layers_lie_over_earlier_ones() {
    let source = rgba(1, 1, vec![100, 100, 100, 255]);
    let first = layer(0, 0, 1000, (0, 0, 0));
    let second = layer(0, 0, 1000, (50, 0, 0));
    let out = composite_layers(&source, &vec![first, second]);
    assert_eq!(out.data(), &vec![150, 100, 100, 255]);
    let out = composite_layers(&source, &vec![second, first]);
    assert_eq!(out.data(), &vec![100, 100, 100, 255]);
}

#[test]
fn two_translucent_layers_add_up() {
    let source = rgba(1, 1, vec![255, 0, 10, 255]);
    let under = layer(0, 0, 200, (0, 255, 0));
    let upper = layer(0, 0, 200, (0, 0, 0));
    // under: (255, 255, 10, 51); upper: (255, 0, 10, 51)
    let out = composite_layers(&source, &vec![under, upper]);
    assert_eq!(out.data(), &vec![255, 113, 10, 92]);
}

#[test]
fn no_layers_leave_a_clear_canvas() {
    let source = rgba(3, 2, vec![77u8; 24]);
    let out = composite_layers(&source, &Vec::new());
    assert_eq!(out.data(), &vec![0u8; 24]);
    let mut rng = RandomSource::from_seed(41);
    let out = layered_composite(&source, 0, &mut rng);
    assert_eq!(out.data(), &vec![0u8; 24]);
    assert_eq!(out.width(), 3);
    assert_eq!(out.height(), 2);
    assert_eq!(out.format(), PixelFormat::Rgba);
    let flat = out.flatten();
    assert_eq!(flat.data(), &vec![0u8; 18]);
}

#[test]
fn drawn_layers_are_in_their_ranges() {
    let mut rng = RandomSource::from_seed(42);
    for _ in 0..500 {
        let layer = draw_layer(7, 3, &mut rng);
        assert!(layer.offset_x < 7);
        assert!(layer.offset_y < 3);
        assert!(100 <= layer.alpha_permille && layer.alpha_permille < 300);
    }
    let layer = draw_layer(1, 1, &mut rng);
    assert_eq!((layer.offset_x, layer.offset_y), (0, 0));
}

#[test]
fn a_composite_keeps_the_shape() {
    let source = rgba(5, 4, vec![128u8; 80]);
    let mut rng = RandomSource::from_seed(43);
    let out = layered_composite(&source, 20, &mut rng);
    assert_eq!(out.width(), 5);
    assert_eq!(out.height(), 4);
    assert_eq!(out.len(), 80);
    assert_eq!(out.format(), PixelFormat::Rgba);
    assert_eq!(source.data(), &vec![128u8; 80]);
}

#[test]
fn a_composite_is_its_layers_laid_in_turn() {
    let mut data: Vec<u8> = Vec::new();
    for i in 0..48u32 {
        data.push((i * 5 % 256) as u8);
    }
    let source = rgba(4, 3, data);
    let mut rng = RandomSource::from_seed(44);
    let out = layered_composite(&source, 6, &mut rng);
    let mut again = RandomSource::from_seed(44);
    let mut layers: Vec<Layer> = Vec::new();
    for _ in 0..6 {
        layers.push(draw_layer(4, 3, &mut again));
    }
    assert_eq!(out.data(), composite_layers(&source, &layers).data());
}

#[test]
fn alpha_never_exceeds_what_the_layers_bring() {
    // One layer of an opaque image brings an alpha below three tenths.
    let source = rgba(4, 4, vec![255u8; 64]);
    let mut rng = RandomSource::from_seed(45);
    let out = layered_composite(&source, 1, &mut rng);
    for p in 0..16 {
        assert!(out.byte(4 * p + 3) <= 76);
    }
    // The pixel at the bottom right is reached by every layer.
    assert!(out.byte(63) >= 25);
}

#[test]
fn an_image_without_pixels_gives_a_canvas_without_pixels() {
    let source = rgba(0, 5, Vec::new());
    let mut rng = RandomSource::from_seed(46);
    let out = layered_composite(&source, 3, &mut rng);
    assert_eq!(out.len(), 0);
    assert_eq!(out.width(), 0);
    assert_eq!(out.height(), 5);
}
