use spatiand::scene::glyphs::{
    close_glyph_image, reticle_image, reticle_image_left, resize_cursor_image, speaker_glyph_image,
};

/// Coverage of the glyph inside a box, as a fraction, for asking where the ink is.
fn ink(image: &[u8], size: u32, x0: f32, x1: f32, y0: f32, y1: f32) -> f32 {
    let mut sum = 0.0;
    let mut count = 0.0;
    for y in 0..size {
        for x in 0..size {
            let px = x as f32 / size as f32;
            let py = y as f32 / size as f32;
            if px >= x0 && px < x1 && py >= y0 && py < y1 {
                sum += image[((y * size + x) * 4 + 3) as usize] as f32 / 255.0;
                count += 1.0;
            }
        }
    }
    if count > 0.0 {
        sum / count
    } else {
        0.0
    }
}

#[test]
fn the_speaker_has_a_body_on_the_left_and_waves_on_the_right() {
    // Not a picture test -- it asserts the thing is the shape of a speaker rather than a
    // blob, which is what would be left if the arithmetic were wrong in a way that still
    // produced ink.
    let g = speaker_glyph_image(64, false);
    let body = ink(&g, 64, 0.20, 0.36, 0.42, 0.58);
    let cone = ink(&g, 64, 0.40, 0.52, 0.30, 0.70);
    let waves = ink(&g, 64, 0.62, 0.90, 0.35, 0.65);
    let above = ink(&g, 64, 0.20, 0.36, 0.02, 0.18);
    assert!(body > 0.9, "the body is not solid: {body}");
    assert!(cone > 0.5, "the cone is missing: {cone}");
    assert!(waves > 0.05, "there are no waves: {waves}");
    assert!(above < 0.02, "there is ink above the body: {above}");
}

#[test]
fn the_muted_speaker_keeps_its_body_and_loses_its_waves() {
    // The two have to read as the same object in two states, or the button appears to
    // change into something else when pressed.
    let on = speaker_glyph_image(64, false);
    let off = speaker_glyph_image(64, true);
    let body = |g: &[u8]| ink(g, 64, 0.20, 0.36, 0.42, 0.58);
    assert!((body(&on) - body(&off)).abs() < 0.02, "the body moved");
    // The cross sits where the near wave was, so compare the far one, which only the
    // sounding glyph reaches.
    let far = |g: &[u8]| ink(g, 64, 0.80, 0.95, 0.36, 0.64);
    assert!(
        far(&on) > far(&off) + 0.03,
        "muting did not remove the waves"
    );
}

#[test]
fn the_glyph_stays_inside_its_own_square() {
    // It is drawn into a round disc, so anything reaching the corners is clipped by the
    // glass rather than by the design.
    for muted in [false, true] {
        let g = speaker_glyph_image(64, muted);
        for edge in [
            ink(&g, 64, 0.0, 0.04, 0.0, 1.0),
            ink(&g, 64, 0.96, 1.0, 0.0, 1.0),
            ink(&g, 64, 0.0, 1.0, 0.0, 0.04),
            ink(&g, 64, 0.0, 1.0, 0.96, 1.0),
        ] {
            assert!(edge < 0.01, "muted={muted}: ink at the very edge: {edge}");
        }
    }
}

#[test]
fn the_reticle_is_transparent_at_its_corners_and_solid_at_its_centre() {
    // A reticle that is opaque everywhere is a white square, which is exactly what a
    // botched alpha ramp produces and exactly what it looks like in the headset.
    let size = 64;
    let img = reticle_image(size);
    let alpha_at = |x: u32, y: u32| img[((y * size + x) * 4 + 3) as usize];
    assert_eq!(alpha_at(0, 0), 0, "corners must be clear");
    assert!(
        alpha_at(size / 2, size / 2) > 200,
        "centre dot must be solid"
    );
}

#[test]
fn the_reticle_has_a_gap_between_its_dot_and_its_ring() {
    // The gap is the point: it lets a small target stay visible through the cursor.
    let size = 64;
    let img = reticle_image(size);
    let centre = size / 2;
    let alpha_at = |x: u32| img[((centre * size + x) * 4 + 3) as usize] as u32;
    let gap = alpha_at(centre + size / 6);
    assert!(gap < 60, "expected a gap, got alpha {gap}");
    assert!(alpha_at(centre) > 200);
}

#[test]
fn a_mark_is_white_and_as_large_as_it_was_asked_to_be() {
    for image in [
        close_glyph_image(32),
        resize_cursor_image(32),
        reticle_image_left(32),
    ] {
        assert_eq!(image.len(), 32 * 32 * 4);
        let solid: Vec<&[u8]> = image.chunks(4).filter(|p| p[3] > 0).collect();
        assert!(!solid.is_empty() && solid.len() < 32 * 32);
        assert!(solid.iter().all(|p| p[..3] == [255, 255, 255]));
    }
}

#[test]
fn the_close_cross_runs_along_both_diagonals() {
    let image = close_glyph_image(65);
    let alpha = |x: usize, y: usize| image[(y * 65 + x) * 4 + 3];
    assert_eq!(alpha(32, 32), 255);
    assert_eq!(alpha(20, 20), 255);
    assert_eq!(alpha(44, 20), 255);
    assert_eq!(alpha(32, 12), 0);
    assert_eq!(alpha(0, 0), 0);
}
