use raytraceweekend::{Colour, Vec3};

/// A whole number as a fixed-point scalar.
fn fx(x: i64) -> i64 {
    x * 65536
}

#[test]
fn test_write_colour_black_and_white() {
    assert_eq!(Colour::new(0, 0, 0).write_colour(), "0 0 0");
    assert_eq!(Colour::new(fx(1), fx(1), fx(1)).write_colour(), "255 255 255");
}

#[test]
fn test_write_colour_quantization() {
    // Half intensity lands on 128; values are truncated, not rounded.
    assert_eq!(Vec3::new(32768, 6553, 25000).write_colour(), "128 25 97");
    assert_eq!(Vec3::new(65279, 65280, 255).write_colour(), "254 255 0");
}

#[test]
fn test_write_colour_clamps() {
    // Components are clamped to the displayable range before
    // quantization.
    assert_eq!(Vec3::new(-fx(2), fx(3), 70000).write_colour(), "0 255 255");
}
