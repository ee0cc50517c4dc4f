use radio_conductor::color::Color;

#[test]
fn pack_layout() {
    // R lowest byte, then G, B, A highest.
    let c = Color { r: 0x01, g: 0x02, b: 0x03, a: 0x04 };
    assert_eq!(c.pack(), 0x0403_0201);
}

#[test]
fn unpack_layout() {
    let c = Color::unpack(0x0403_0201);
    assert_eq!(c, Color { r: 1, g: 2, b: 3, a: 4 });
}

#[test]
fn roundtrip_boundary_channels() {
    let values = [0u8, 255u8];
    for &r in &values {
        for &g in &values {
            for &b in &values {
                for &a in &values {
                    let c = Color { r, g, b, a };
                    assert_eq!(Color::unpack(c.pack()), c);
                }
            }
        }
    }
}

#[test]
fn roundtrip_mixed_channels() {
    let c = Color { r: 100, g: 100, b: 255, a: 255 };
    assert_eq!(Color::unpack(c.pack()), c);
    assert_eq!(Color { r: 7, g: 200, b: 0, a: 33 }.pack(), Color { r: 7, g: 200, b: 0, a: 33 }.pack());
    assert_eq!(Color::unpack(0xFFFF_FFFF), Color { r: 255, g: 255, b: 255, a: 255 });
}
