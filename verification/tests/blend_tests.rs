use databend::blend::alpha_blend;
use databend::blend::blend_channel;
use databend::blend::Rgba;

fn px(r: u8, g: u8, b: u8, a: u8) -> Rgba {
    Rgba { r, g, b, a }
}

/// What the formula gives for the alpha and for one colour channel, before
/// rounding; nothing where both pixels are clear.
fn over(top: u8, bottom: u8, top_alpha: u8, bottom_alpha: u8) -> Option<(f64, f64)> {
    let alpha_top = top_alpha as f64 / 255.0;
    let alpha_bottom = bottom_alpha as f64 / 255.0;
    let out_alpha = alpha_top + alpha_bottom * (1.0 - alpha_top);
    if out_alpha == 0.0 {
        return None;
    }
    let colour =
        (top as f64 * alpha_top + bottom as f64 * alpha_bottom * (1.0 - alpha_top)) / out_alpha;
    Some((out_alpha * 255.0, colour))
}

fn nearest(value: u8, exact: f64) -> bool {
    (value as f64 - exact).abs() <= 0.5 + 1e-9
}

#[test]
fn clear_over_clear_is_clear_black() {
    assert_eq!(alpha_blend(px(9, 8, 7, 0), px(1, 2, 3, 0)), px(0, 0, 0, 0));
}

#[test]
fn opaque_hides_what_is_under_it() {
    assert_eq!(alpha_blend(px(9, 8, 7, 255), px(1, 2, 3, 255)), px(1, 2, 3, 255));
    assert_eq!(alpha_blend(px(9, 8, 7, 0), px(1, 2, 3, 255)), px(1, 2, 3, 255));
    assert_eq!(alpha_blend(px(9, 8, 7, 100), px(250, 0, 3, 255)), px(250, 0, 3, 255));
}

#[test]
fn clear_changes_nothing_of_what_is_under_it() {
    assert_eq!(alpha_blend(px(9, 8, 7, 255), px(1, 2, 3, 0)), px(9, 8, 7, 255));
    assert_eq!(alpha_blend(px(9, 8, 7, 1), px(1, 2, 3, 0)), px(9, 8, 7, 1));
    assert_eq!(alpha_blend(px(200, 100, 0, 77), px(1, 2, 3, 0)), px(200, 100, 0, 77));
}

#[test]
fn a_copy_on_a_clear_canvas_keeps_its_colour() {
    assert_eq!(alpha_blend(px(0, 0, 0, 0), px(100, 50, 25, 51)), px(100, 50, 25, 51));
}

#[test]
fn half_over_opaque_is_halfway() {
    // alpha 128 of 255 over an opaque pixel: (200 * 128 + 100 * 127) / 255 = 150.196
    assert_eq!(alpha_blend(px(100, 0, 255, 255), px(200, 0, 0, 128)), px(150, 0, 127, 255));
}

#[test]
fn translucent_over_translucent_adds_up() {
    // alphas 51 and 51: weight 51 * 255 + 51 * 204 = 23409, alpha 23409 / 255 = 91.8
    // red: (255 * 51 * 255 + 0) / 23409 = 141.67
    assert_eq!(alpha_blend(px(0, 255, 10, 51), px(255, 0, 10, 51)), px(142, 113, 10, 92));
}

#[test]
fn channels_are_rounded_to_the_nearest() {
    assert_eq!(blend_channel(200, 100, 128, 255), 150);
    assert_eq!(blend_channel(1, 0, 128, 255), 1);
    assert_eq!(blend_channel(1, 0, 127, 255), 0);
    assert_eq!(blend_channel(255, 255, 3, 200), 255);
    assert_eq!(blend_channel(0, 0, 3, 200), 0);
    assert_eq!(blend_channel(77, 200, 255, 9), 77);
    assert_eq!(blend_channel(77, 200, 0, 9), 200);
}

#[test]
fn the_compositor_agrees_with_the_formula() {
    let alphas: [u8; 9] = [0, 1, 25, 51, 76, 128, 200, 254, 255];
    let colours: [u8; 6] = [0, 1, 100, 128, 254, 255];
    for &top_alpha in alphas.iter() {
        for &bottom_alpha in alphas.iter() {
            for &top in colours.iter() {
                for &bottom in colours.iter() {
                    let under = px(bottom, 255 - bottom, bottom / 2, bottom_alpha);
                    let upper = px(top, top / 3, 255 - top, top_alpha);
                    let out = alpha_blend(under, upper);
                    match over(upper.r, under.r, top_alpha, bottom_alpha) {
                        None => assert_eq!(out, px(0, 0, 0, 0)),
                        Some((alpha, red)) => {
                            assert!(nearest(out.a, alpha));
                            assert!(nearest(out.r, red));
                            let green = over(upper.g, under.g, top_alpha, bottom_alpha).unwrap().1;
                            let blue = over(upper.b, under.b, top_alpha, bottom_alpha).unwrap().1;
                            assert!(nearest(out.g, green));
                            assert!(nearest(out.b, blue));
                        }
                    }
                }
            }
        }
    }
}
