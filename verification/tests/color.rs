use softraster::color::Color;

#[test]
fn new_keeps_channels() {
    let c = Color::new(1, 2, 3);
    assert_eq!(c.r, 1);
    assert_eq!(c.g, 2);
    assert_eq!(c.b, 3);
    assert_eq!(Color::black(), Color::new(0, 0, 0));
}

#[test]
fn to_hex_packs_red_green_blue() {
    assert_eq!(Color::new(0x12, 0x34, 0x56).to_hex(), 0x123456);
    assert_eq!(Color::new(255, 255, 255).to_hex(), 0xff_ffff);
    assert_eq!(Color::new(0, 0, 0).to_hex(), 0);
    assert_eq!(Color::new(255, 0, 0).to_hex(), 0xff_0000);
    assert_eq!(Color::new(0, 255, 0).to_hex(), 0x00_ff00);
    assert_eq!(Color::new(0, 0, 255).to_hex(), 0x00_00ff);
}

#[test]
fn from_hex_ignores_top_byte() {
    assert_eq!(Color::from_hex(0x123456), Color::new(0x12, 0x34, 0x56));
    assert_eq!(Color::from_hex(0xff12_3456), Color::new(0x12, 0x34, 0x56));
    assert_eq!(Color::from_hex(0xffff_ffff), Color::new(255, 255, 255));
}

#[test]
fn hex_round_trip_is_lossless() {
    let steps: [u8; 9] = [0, 1, 2, 63, 127, 128, 200, 254, 255];
    for r in steps {
        for g in steps {
            for b in steps {
                let c = Color::new(r, g, b);
                let hex: u32 = c.to_hex();
                assert!(hex < 0x100_0000);
                assert_eq!(Color::from_hex(hex), c);
                assert_eq!(Color::from_hex(hex).to_hex(), hex);
            }
        }
    }
}

#[test]
fn hex_round_trip_every_channel_value() {
    for v in 0..=255u8 {
        assert_eq!(Color::from_hex(Color::new(v, 0, 0).to_hex()), Color::new(v, 0, 0));
        assert_eq!(Color::from_hex(Color::new(0, v, 0).to_hex()), Color::new(0, v, 0));
        assert_eq!(Color::from_hex(Color::new(0, 0, v).to_hex()), Color::new(0, 0, v));
    }
}

#[test]
fn additive_blend_saturates() {
    let c = Color::new(250, 0, 0).blend_add(&Color::new(20, 0, 0));
    assert_eq!(c, Color::new(255, 0, 0));
}

#[test]
fn additive_blend_adds_below_the_limit() {
    let c = Color::new(10, 20, 30).blend_add(&Color::new(1, 2, 225));
    assert_eq!(c, Color::new(11, 22, 255));
    let d = Color::new(255, 255, 255).blend_add(&Color::new(255, 255, 255));
    assert_eq!(d, Color::new(255, 255, 255));
}

#[test]
fn multiplicative_blend_identity() {
    let white = Color::new(255, 255, 255);
    let steps: [u8; 7] = [0, 1, 17, 100, 128, 254, 255];
    for r in steps {
        for g in steps {
            for b in steps {
                let c = Color::new(r, g, b);
                assert_eq!(white.blend_multiply(&c), c);
                assert_eq!(c.blend_multiply(&white), c);
            }
        }
    }
}

#[test]
fn multiplicative_blend_rescales_products() {
    let c = Color::new(200, 100, 50).blend_multiply(&Color::new(128, 255, 0));
    assert_eq!(c, Color::new(100, 100, 0));
    let d = Color::new(255, 255, 255).blend_multiply(&Color::new(0, 0, 0));
    assert_eq!(d, Color::new(0, 0, 0));
}

#[test]
fn lerp_rounds_to_nearest() {
    let a = Color::new(100, 200, 50);
    let b = Color::new(200, 100, 150);
    assert_eq!(a.lerp(&b, 300), Color::new(130, 170, 80));
    let black = Color::new(0, 0, 0);
    let white = Color::new(255, 255, 255);
    assert_eq!(black.lerp(&white, 500), Color::new(128, 128, 128));
    assert_eq!(black.lerp(&white, 250), Color::new(64, 64, 64));
}

#[test]
fn lerp_ends_and_clamps_factor() {
    let a = Color::new(100, 200, 50);
    let b = Color::new(200, 100, 150);
    assert_eq!(a.lerp(&b, 0), a);
    assert_eq!(a.lerp(&b, 1000), b);
    assert_eq!(a.lerp(&b, -5), a);
    assert_eq!(a.lerp(&b, i32::MIN), a);
    assert_eq!(a.lerp(&b, 1001), b);
    assert_eq!(a.lerp(&b, i32::MAX), b);
}

#[test]
fn scale_multiplies_and_saturates() {
    let c = Color::new(200, 100, 50);
    assert_eq!(c.scale(500), Color::new(100, 50, 25));
    assert_eq!(c.scale(1000), c);
    assert_eq!(c.scale(1500), Color::new(255, 150, 75));
    assert_eq!(c.scale(0), Color::new(0, 0, 0));
    assert_eq!(c.scale(-5), Color::new(0, 0, 0));
    assert_eq!(c.scale(i32::MIN), Color::new(0, 0, 0));
    assert_eq!(c.scale(i32::MAX), Color::new(255, 255, 255));
    assert_eq!(Color::new(0, 1, 2).scale(i32::MAX), Color::new(0, 255, 255));
    assert_eq!(Color::new(255, 100, 50).scale(100), Color::new(25, 10, 5));
    assert_eq!(Color::new(255, 255, 255).scale(999), Color::new(254, 254, 254));
}
