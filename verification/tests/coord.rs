use raytracer::coord::{floor_index, from_bits, to_bits, INFINITY, NEG_INFINITY};

fn c(v: f32) -> i32 {
    from_bits(v.to_bits()).unwrap()
}

#[test]
fn coordinates_are_ordered_as_the_numbers() {
    let values = [
        f32::NEG_INFINITY,
        f32::MIN,
        -1.0e10,
        -2.5,
        -1.0,
        -f32::MIN_POSITIVE,
        -1.0e-45,
        0.0,
        1.0e-45,
        f32::MIN_POSITIVE,
        0.5,
        1.0,
        1.0000001,
        3.0e20,
        f32::MAX,
        f32::INFINITY,
    ];
    for i in 0..values.len() {
        for j in 0..values.len() {
            assert_eq!(values[i] < values[j], c(values[i]) < c(values[j]), "{} {}", values[i], values[j]);
            assert_eq!(values[i] == values[j], c(values[i]) == c(values[j]));
        }
    }
}

#[test]
fn exact_coordinates() {
    assert_eq!(c(0.0), 0);
    assert_eq!(c(-0.0), 0);
    assert_eq!(c(1.0), 0x3F80_0000);
    assert_eq!(c(-1.0), -0x3F80_0000);
    assert_eq!(c(f32::INFINITY), INFINITY);
    assert_eq!(c(f32::NEG_INFINITY), NEG_INFINITY);
    assert_eq!(from_bits(0x0000_0001), Some(1));
    assert_eq!(from_bits(0x8000_0001), Some(-1));
}

#[test]
fn a_nan_has_no_coordinate() {
    assert_eq!(from_bits(f32::NAN.to_bits()), None);
    assert_eq!(from_bits(0x7F80_0001), None);
    assert_eq!(from_bits(0xFF80_0001), None);
    assert_eq!(from_bits(0xFFFF_FFFF), None);
    assert_eq!(from_bits(0x7F80_0000), Some(INFINITY));
    assert_eq!(from_bits(0xFF80_0000), Some(NEG_INFINITY));
}

#[test]
fn bits_come_back() {
    for v in [0.0f32, 1.0, -1.0, 0.1, -123.456, f32::MAX, f32::MIN, f32::INFINITY, f32::NEG_INFINITY] {
        assert_eq!(to_bits(c(v)), v.to_bits());
        assert_eq!(f32::from_bits(to_bits(c(v))), v);
    }
    assert_eq!(to_bits(c(-0.0)), 0);
    assert_eq!(to_bits(-1), 0x8000_0001);
    assert_eq!(to_bits(1), 1);
}

#[test]
fn floor_index_rounds_down_and_clamps() {
    let values = [
        0.0f32,
        -0.0,
        0.25,
        0.99999994,
        1.0,
        1.5,
        2.0,
        2.9999998,
        3.0,
        7.75,
        255.99998,
        256.0,
        1023.5,
        8388607.5,
        8388608.0,
        16777215.0,
        16777216.0,
        33554432.0,
        4294967040.0,
        4294967296.0,
        1.0e12,
        9.223372e18,
        1.8446743e19,
        1.8446744e19,
        3.0e19,
        f32::MAX,
        f32::INFINITY,
        f32::MIN_POSITIVE,
        1.0e-45,
        -0.5,
        -1.0,
        -12345.678,
        f32::MIN,
        f32::NEG_INFINITY,
    ];
    for v in values {
        assert_eq!(floor_index(c(v)), v.floor() as usize, "at {}", v);
    }
    let mut state = 12345u32;
    for _ in 0..20_000 {
        state = state.wrapping_mul(1664525).wrapping_add(1013904223);
        let v = f32::from_bits(state);
        if !v.is_nan() {
            assert_eq!(floor_index(c(v)), v.floor() as usize, "at {}", v);
        }
    }
}

#[test]
fn floor_index_of_exact_coordinates() {
    assert_eq!(floor_index(0), 0);
    assert_eq!(floor_index(c(1.0)), 1);
    assert_eq!(floor_index(c(799.9)), 799);
    assert_eq!(floor_index(c(-3.0)), 0);
    assert_eq!(floor_index(INFINITY), usize::MAX);
    assert_eq!(floor_index(NEG_INFINITY), 0);
    // Beyond the coordinate of infinity nothing is meant.
    assert_eq!(floor_index(INFINITY + 1), 0);
    assert_eq!(floor_index(i32::MAX), 0);
    assert_eq!(floor_index(i32::MIN), 0);
}
