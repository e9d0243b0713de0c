use std::collections::HashSet;
use red_engine2::menu::{paint, paint_upper, try_paint, OverlayCache, BOTTOM_BAND, DIM, GOLD, SHADE, TEXT, TOP_BAND};
use red_engine2::raster::blend_pixel;
use red_engine2::player::Character;

#[test]
fn paint_draws_text_and_marks_the_selection() {
    let (w, h) = (640u32, 360u32);
    let human = paint(w, h, Character::Human, "house");
    let rat = paint(w, h, Character::Rat, "house");
    assert_eq!(human.len(), (w * h * 4) as usize);
    assert!(human.chunks(4).any(|p| p[3] > 200 && p[0] > 200 && p[1] > 200), "some bright opaque text pixels");
    assert_ne!(human, rat, "the selection changes what is painted");
    // Gold frame pixels appear only on the selected side.
    let gold_left = |img: &[u8]| (0..h).any(|y| (0..w / 2).any(|x| { let p = &img[((y * w + x) * 4) as usize..][..4]; p[0] > 240 && p[1] > 190 && p[2] < 100 && p[3] > 240 }));
    assert!(gold_left(&human) && !gold_left(&rat));
}

#[test]
fn try_paint_matches_paint_when_the_window_fits() {
    assert_eq!(try_paint(320, 200, Character::Rat, "lab"), Some(paint(320, 200, Character::Rat, "lab")));
}

#[test]
fn try_paint_refuses_windows_too_large_for_its_arithmetic() {
    assert_eq!(try_paint(100_000, 100_000, Character::Human, "house"), None);
    assert_eq!(try_paint(u32::MAX, 0, Character::Human, "house"), None);
}

#[test]
fn an_empty_window_paints_nothing() {
    assert!(paint(0, 0, Character::Human, "house").is_empty());
    assert!(paint(10, 0, Character::Rat, "").is_empty());
}

#[test]
fn the_unchosen_half_is_shaded_and_the_chosen_half_is_not() {
    // Pixel in the middle band (between the top band and the cards), away from any text.
    let (w, h) = (480u32, 480u32);
    let img = paint(w, h, Character::Human, "x");
    let px = |x: u32, y: u32| img[((y * w + x) * 4) as usize..][..4].to_vec();
    // The right half (the rat's, unchosen) is shaded with alpha 110; the left half is clear there.
    assert_eq!(px(w - 2, h / 2), vec![6, 8, 14, 110]);
    assert_eq!(px(1, h / 2)[3], 0);
}

#[test]
fn the_overlay_is_repainted_only_when_size_or_highlight_change() {
    let mut cache = OverlayCache::new();
    assert!(cache.needs_paint(1280, 720, Character::Human));
    assert!(!cache.needs_paint(1280, 720, Character::Human));
    assert!(cache.needs_paint(1280, 720, Character::Rat));
    assert!(cache.needs_paint(1920, 1080, Character::Rat));
    assert!(!cache.needs_paint(1920, 1080, Character::Rat));
    assert!(cache.needs_paint(1920, 1081, Character::Rat));
}

#[test]
fn the_map_name_is_shown_in_capitals() {
    // The font only has capitals, so the map line is upper-cased before it is drawn.
    let (w, h) = (640u32, 360u32);
    assert_eq!(paint(w, h, Character::Human, "house"), paint(w, h, Character::Human, "HOUSE"));
    assert_ne!(paint(w, h, Character::Human, "house"), paint(w, h, Character::Human, "yard"));
    assert_eq!(paint(w, h, Character::Rat, "house"), paint_upper(w, h, Character::Rat, "HOUSE"));
}

/// The source-over blend as floating point: straight alpha, each channel rounded to nearest.
fn float_blend(p: [u8; 4], c: [u8; 4]) -> [u8; 4] {
    let a = c[3] as f32 / 255.0;
    let da = p[3] as f32 / 255.0;
    let out_a = a + da * (1.0 - a);
    if out_a <= 0.0 {
        return p;
    }
    let mut r = p;
    for k in 0..3 {
        let v = (c[k] as f32 * a + p[k] as f32 * da * (1.0 - a)) / out_a;
        r[k] = v.round() as u8;
    }
    r[3] = (out_a * 255.0).round() as u8;
    r
}

#[test]
fn the_exact_blend_agrees_with_the_float_blend_on_every_pixel_the_menu_can_produce() {
    // The menu's colours, and the drop shadow under opaque text.
    let colours: [[u8; 4]; 7] = [TEXT, DIM, GOLD, SHADE, TOP_BAND, BOTTOM_BAND, [0, 0, 0, 178]];
    let mut seen: HashSet<[u8; 4]> = HashSet::new();
    let mut front = vec![[0u8, 0, 0, 0]];
    seen.insert([0, 0, 0, 0]);
    // Every pixel state reachable by blending the menu's colours in any order and number.
    while let Some(p) = front.pop() {
        for c in colours {
            let exact = blend_pixel(p, c);
            assert_eq!(exact, float_blend(p, c), "{p:?} under {c:?}");
            if seen.insert(exact) {
                front.push(exact);
            }
        }
    }
    assert!(seen.len() > 100);
    // Away from the menu's colours the two roundings can part on a half: the exact blend is the
    // model, the float one only agrees where the menu draws.
    assert_eq!(blend_pixel([65, 0, 0, 66], [236, 0, 0, 110])[0], 193);
}
