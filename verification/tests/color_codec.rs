use cellular_automata::color::{hex_to_rgb, rgb_to_hex};

#[test]
fn packs_exact_values() {
    assert_eq!(rgb_to_hex([0, 0, 0]), 0x000000);
    assert_eq!(rgb_to_hex([1, 2, 3]), 0x010203);
    assert_eq!(rgb_to_hex([255, 0, 16]), 0xFF0010);
    assert_eq!(rgb_to_hex([255, 255, 255]), 0xFFFFFF);
}

#[test]
fn unpacks_exact_values() {
    assert_eq!(hex_to_rgb(0x000000), [0, 0, 0]);
    assert_eq!(hex_to_rgb(0x010203), [1, 2, 3]);
    assert_eq!(hex_to_rgb(0xFF0010), [255, 0, 16]);
    assert_eq!(hex_to_rgb(0xFFFFFF), [255, 255, 255]);
}

#[test]
fn round_trip_rgb_hex_rgb() {
    let samples: [u8; 6] = [0, 1, 127, 128, 254, 255];
    for &r in &samples {
        for &g in &samples {
            for &b in &samples {
                assert_eq!(hex_to_rgb(rgb_to_hex([r, g, b])), [r, g, b]);
            }
        }
    }
}

#[test]
fn round_trip_hex_rgb_hex() {
    for &hex in &[0u32, 1, 0x0000FF, 0x00FF00, 0xFF0000, 0x123456, 0xFFFFFF] {
        assert_eq!(rgb_to_hex(hex_to_rgb(hex)), hex);
    }
}
