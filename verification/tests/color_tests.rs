use led_screen_sync::gamma::{apply_gamma, GAMMA8};
use led_screen_sync::get_color::{
    apply_gamma_vec, compute_full_screen, compute_health, next_region, xy_to_px, Colors, Frame,
    HealthBar, ScreenRegion, RGB,
};

fn rgb(r: u8, g: u8, b: u8) -> RGB {
    RGB { r, g, b }
}

fn uniform_frame(width: u32, height: u32, p: RGB) -> Frame {
    Frame { width, height, pixels: vec![p; (width * height) as usize] }
}

fn sample_bar() -> HealthBar {
    HealthBar {
        program_name: String::from("Game.exe"),
        healthy_color: rgb(0, 255, 0),
        unhealthy_color: rgb(0, 0, 0),
        output_healthy: rgb(0, 255, 0),
        output_unhealthy: rgb(170, 0, 0),
        left_x: 1,
        top_y: 2,
        right_x: 3,
        bottom_y: 4,
        max_health_ratio_healthy_bits: 1.0f32.to_bits(),
        priority: 1,
        l2r: true,
    }
}

#[test]
fn gamma_table_values() {
    assert_eq!(apply_gamma(0), 0);
    assert_eq!(apply_gamma(28), 1);
    assert_eq!(apply_gamma(32), 1);
    assert_eq!(apply_gamma(100), 19);
    assert_eq!(apply_gamma(128), 37);
    assert_eq!(apply_gamma(150), 58);
    assert_eq!(apply_gamma(200), 129);
    assert_eq!(apply_gamma(255), 255);
    assert_eq!(GAMMA8.len(), 256);
}

#[test]
fn gamma_is_monotone_and_darkening() {
    for v in 0..=255u8 {
        assert!(apply_gamma(v) <= v);
        if v < 255 {
            assert!(apply_gamma(v) <= apply_gamma(v + 1));
        }
    }
}

#[test]
fn gamma_vec_maps_each_channel() {
    let mut v = vec![rgb(0, 100, 255), rgb(200, 150, 128)];
    apply_gamma_vec(&mut v);
    assert_eq!(v, vec![rgb(0, 19, 255), rgb(129, 58, 37)]);
    let mut empty: Vec<RGB> = Vec::new();
    apply_gamma_vec(&mut empty);
    assert!(empty.is_empty());
}

#[test]
fn xy_to_px_row_major() {
    assert_eq!(xy_to_px(3, 2, 10, 5), 23);
    assert_eq!(xy_to_px(0, 0, 10, 5), 0);
    assert_eq!(xy_to_px(9, 4, 10, 5), 49);
}

#[test]
fn xy_to_px_off_screen_is_zero() {
    assert_eq!(xy_to_px(10, 0, 10, 5), 0);
    assert_eq!(xy_to_px(0, 5, 10, 5), 0);
    assert_eq!(xy_to_px(50, 50, 10, 5), 0);
}

#[test]
fn full_screen_uniform_bright() {
    let frame = uniform_frame(120, 30, rgb(200, 100, 150));
    let colors = compute_full_screen(4, &frame);
    assert_eq!(colors.color_vec, vec![rgb(129, 19, 58); 4]);
}

#[test]
fn full_screen_uniform_dark_is_black() {
    let frame = uniform_frame(60, 10, rgb(31, 31, 31));
    let colors = compute_full_screen(3, &frame);
    assert_eq!(colors.color_vec, vec![rgb(0, 0, 0); 3]);
}

#[test]
fn full_screen_one_bright_channel_counts() {
    let frame = uniform_frame(8, 8, rgb(32, 0, 0));
    let colors = compute_full_screen(2, &frame);
    assert_eq!(colors.color_vec, vec![rgb(1, 0, 0); 2]);
}

#[test]
fn full_screen_strips_follow_columns() {
    // Left half red, right half blue.
    let (w, h) = (20u32, 10u32);
    let mut pixels = Vec::new();
    for _y in 0..h {
        for x in 0..w {
            pixels.push(if x < 10 { rgb(200, 0, 0) } else { rgb(0, 0, 100) });
        }
    }
    let colors = compute_full_screen(2, &Frame { width: w, height: h, pixels });
    assert_eq!(colors.color_vec, vec![rgb(129, 0, 0), rgb(0, 0, 19)]);
}

#[test]
fn full_screen_averages_rows() {
    // One column, 2000 rows: samples fall on the even rows; rows divisible by four are
    // 100, the other even rows 200, so the average is 150.
    let h = 2000u32;
    let mut pixels = Vec::new();
    for y in 0..h {
        pixels.push(if y % 4 == 0 { rgb(100, 100, 100) } else { rgb(200, 200, 200) });
    }
    let colors = compute_full_screen(1, &Frame { width: 1, height: h, pixels });
    assert_eq!(colors.color_vec, vec![rgb(58, 58, 58)]);
}

#[test]
fn full_screen_skips_dark_samples_and_rounds_down() {
    // Rows divisible by four are dark and ignored; the other even rows alternate 100 and 101.
    let h = 2000u32;
    let mut pixels = Vec::new();
    for y in 0..h {
        let p = if y % 4 == 0 {
            rgb(0, 0, 0)
        } else if y % 8 == 2 {
            rgb(100, 0, 0)
        } else {
            rgb(101, 0, 0)
        };
        pixels.push(p);
    }
    let colors = compute_full_screen(1, &Frame { width: 1, height: h, pixels });
    // (250 * 100 + 250 * 101) / 500 = 100, and gamma(100) = 19
    assert_eq!(colors.color_vec, vec![rgb(19, 0, 0)]);
}

#[test]
fn full_screen_sixty_strips() {
    let frame = uniform_frame(1920, 1080, rgb(255, 255, 255));
    let colors = compute_full_screen(60, &frame);
    assert_eq!(colors.color_vec.len(), 60);
    assert!(colors.color_vec.iter().all(|c| *c == rgb(255, 255, 255)));
}

#[test]
fn health_mode_shows_nothing() {
    let colors: Colors = compute_health(60, &sample_bar());
    assert!(colors.color_vec.is_empty());
}

#[test]
fn next_region_takes_received() {
    let next = next_region(ScreenRegion::FULL, Some(ScreenRegion::HEALTH(sample_bar())));
    match next {
        ScreenRegion::HEALTH(h) => assert_eq!(h.program_name, "Game.exe"),
        ScreenRegion::FULL => panic!("expected the received region"),
    }
}

#[test]
fn next_region_keeps_current() {
    let next = next_region(ScreenRegion::HEALTH(sample_bar()), None);
    assert!(matches!(next, ScreenRegion::HEALTH(_)));
    let next = next_region(ScreenRegion::FULL, None);
    assert!(matches!(next, ScreenRegion::FULL));
}
