use ghtray::avatar::apply_circular_mask;
use ghtray::avatar::avatar_cache_hit;
use ghtray::avatar::avatar_file_name;
use ghtray::avatar::avatar_tmp_file_name;
use ghtray::avatar::djb2_hash;
use ghtray::avatar::generate_identicon;
use ghtray::avatar::hsl_to_rgb;
use ghtray::avatar::isqrt;
use ghtray::avatar::mask_avatar_png;

#[test]
fn identicon_is_deterministic() {
    let a1 = generate_identicon("alice");
    let a2 = generate_identicon("alice");
    assert_eq!(a1, a2);
    let b = generate_identicon("bob");
    assert_ne!(a1, b);
}

#[test]
fn identicon_is_a_round_circular_png() {
    let png = generate_identicon("alice");
    let img = image::load_from_memory(&png).expect("the output decodes");
    let rgba = img.to_rgba8();
    assert_eq!(rgba.width(), 64);
    assert_eq!(rgba.height(), 64);
    // Corners lie outside the circle: fully transparent.
    assert_eq!(rgba.get_pixel(0, 0)[3], 0);
    assert_eq!(rgba.get_pixel(63, 63)[3], 0);
    // The center is well inside: fully opaque.
    assert_eq!(rgba.get_pixel(32, 32)[3], 255);
}

#[test]
fn djb2_matches_reference_values() {
    // hash("") = 5381; hash("a") = 5381*33 + 97 = 177670
    assert_eq!(djb2_hash(&Vec::new()), 5381);
    assert_eq!(djb2_hash(&vec![b'a']), 177670);
    assert_eq!(djb2_hash(&vec![b'a', b'b']), 177670 * 33 + 98);
}

#[test]
fn isqrt_floors() {
    assert_eq!(isqrt(0), 0);
    assert_eq!(isqrt(1), 1);
    assert_eq!(isqrt(3), 1);
    assert_eq!(isqrt(4), 2);
    assert_eq!(isqrt(650250), 806);
    assert_eq!(isqrt(u64::MAX), 4294967295);
}

#[test]
fn hsl_palette_endpoints() {
    // Hue 0: full red sextant — floor((c+m)*255) = 214, floor(m*255) = 65.
    assert_eq!(hsl_to_rgb(0), (214, 65, 65));
    // Hue 120: pure green sextant start.
    assert_eq!(hsl_to_rgb(120), (65, 214, 65));
    // Hue 240: pure blue sextant start.
    assert_eq!(hsl_to_rgb(240), (65, 65, 214));
    // Hue 60: ramp at its top meets the constant channel.
    assert_eq!(hsl_to_rgb(60), (214, 214, 65));
}

#[test]
fn mask_feather_band_values() {
    // A 4x4 all-opaque white image.
    let pixels = vec![255u8; 4 * 4 * 4];
    let out = apply_circular_mask(&pixels, 4);
    assert_eq!(out.len(), 64);
    let alpha = |x: usize, y: usize| out[4 * (y * 4 + x) + 3];
    let red = |x: usize, y: usize| out[4 * (y * 4 + x)];
    // Corner pixel center is at distance sqrt(18)/2 > 2: outside, transparent black.
    assert_eq!(alpha(0, 0), 0);
    assert_eq!(red(0, 0), 0);
    // Inner pixels are at distance sqrt(2)/2 <= radius - 1: full alpha.
    assert_eq!(alpha(1, 1), 255);
    assert_eq!(red(1, 1), 255);
    // Edge-center pixels are in the feather band: round((2 - sqrt(10)/2)*255) = 107.
    assert_eq!(alpha(1, 0), 107);
    assert_eq!(red(1, 0), 255);
}

#[test]
fn mask_avatar_roundtrip_and_rejects_garbage() {
    // Any valid image works as input; an identicon PNG is handy.
    let png = generate_identicon("carol");
    let masked = mask_avatar_png(&png).expect("a valid image is processed");
    let img = image::load_from_memory(&masked).expect("the output decodes");
    assert_eq!(img.to_rgba8().width(), 64);
    assert_eq!(img.to_rgba8().height(), 64);

    let garbage = vec![1u8, 2, 3, 4, 5];
    assert!(mask_avatar_png(&garbage).is_none());
}

#[test]
fn cache_hit_requires_a_nonempty_file() {
    assert!(avatar_cache_hit(true, 10));
    assert!(!avatar_cache_hit(true, 0));
    assert!(!avatar_cache_hit(false, 10));
    // Asking again changes nothing: the rule is pure, so a pre-existing
    // non-empty file means no write, however many times the fill runs.
    assert!(avatar_cache_hit(true, 10));
}

#[test]
fn avatar_file_names() {
    assert_eq!(avatar_file_name("alice"), "alice.png");
    assert_eq!(avatar_tmp_file_name("alice"), "alice.tmp");
}
