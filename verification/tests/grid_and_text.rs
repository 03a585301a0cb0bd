use tile_sorcerer::grid::{is_valid_tile, pow2_u64, total_map_width_pixels};
use tile_sorcerer::text::{replace, u64_to_string};

#[test]
fn test_pow2() {
    assert_eq!(pow2_u64(0), 1);
    assert_eq!(pow2_u64(6), 64);
    assert_eq!(pow2_u64(30), 1 << 30);
}

#[test]
fn test_valid_tile() {
    assert!(is_valid_tile(0, 0, 0));
    assert!(is_valid_tile(6, 33, 22));
    assert!(is_valid_tile(6, 63, 63));
    assert!(!is_valid_tile(6, 64, 0));
    assert!(!is_valid_tile(6, 0, -1));
    assert!(!is_valid_tile(31, 0, 0));
}

#[test]
fn test_total_map_width_pixels() {
    // A whole-planet tile at zoom zero is one tile wide.
    assert_eq!(total_map_width_pixels(256, 0), 256);
    assert_eq!(total_map_width_pixels(256, 6), 16384);
    assert_eq!(total_map_width_pixels(512, 14), 512 * 16384);
}

#[test]
fn test_u64_to_string() {
    assert_eq!(u64_to_string(0), "0");
    assert_eq!(u64_to_string(7), "7");
    assert_eq!(u64_to_string(4096), "4096");
    assert_eq!(u64_to_string(u64::MAX), "18446744073709551615");
}

#[test]
fn test_replace() {
    assert_eq!(replace("a!b!c", "!", "X"), "aXbXc");
    assert_eq!(replace("aaaa", "aa", "b"), "bb");
    assert_eq!(replace("hello", "l", "ll"), "hellllo");
    assert_eq!(replace("none here", "!bbox!", "x"), "none here");
    // The replacement is not rescanned: occurrences inside it survive.
    assert_eq!(replace("geometry", "geometry", "f(geometry)"), "f(geometry)");
}
