use geobits::bits::{deinterleave64, interleave64};

#[test]
fn interleave_round_trip() {
    let pairs: Vec<(u32, u32)> = vec![
        (0, 0),
        (1, 0),
        (0, 1),
        (0x12345678, 0x9ABCDEF0),
        (u32::MAX, 0),
        (0, u32::MAX),
        (u32::MAX, u32::MAX),
        (20936, 27439),
    ];
    for (lat, lng) in pairs {
        let code = interleave64(lat, lng);
        let (lng_back, lat_back) = deinterleave64(code);
        assert_eq!(lat_back, lat);
        assert_eq!(lng_back, lng);
    }
}

#[test]
fn interleave_layout() {
    // Latitude occupies the even bit positions, longitude the odd ones.
    assert_eq!(interleave64(1, 0), 0b01);
    assert_eq!(interleave64(0, 1), 0b10);
    assert_eq!(interleave64(0b11, 0b00), 0b0101);
    assert_eq!(interleave64(0b00, 0b11), 0b1010);
    assert_eq!(interleave64(u32::MAX, u32::MAX), u64::MAX);
}

#[test]
fn deinterleave_is_onto() {
    // Every 64-bit value splits and re-interleaves to itself.
    for code in [0u64, 1, 2, 0x398B58EA, u64::MAX, 0xAAAAAAAAAAAAAAAA] {
        let (lng, lat) = deinterleave64(code);
        assert_eq!(interleave64(lat, lng), code);
    }
}
