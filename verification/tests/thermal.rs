use esp_rs::thermal::{angle_from_column_weighted, decode_frame, pixel_from_bytes, ColumnAngle};

#[test]
fn pixel_zero_and_positive_readings() {
    assert_eq!(pixel_from_bytes(0x00, 0x00), 0);
    // 25 degrees Celsius is 100 quarter degrees.
    assert_eq!(pixel_from_bytes(0x64, 0x00), 100);
    assert_eq!(pixel_from_bytes(0xFF, 0x07), 2047);
}

#[test]
fn pixel_negative_readings_are_sign_extended() {
    assert_eq!(pixel_from_bytes(0x00, 0x08), -2048);
    assert_eq!(pixel_from_bytes(0xFF, 0x0F), -1);
    assert_eq!(pixel_from_bytes(0xF0, 0x0F), -16);
}

#[test]
fn pixel_upper_nibble_of_high_byte_is_ignored() {
    assert_eq!(pixel_from_bytes(0x34, 0xF2), 0x234);
    assert_eq!(pixel_from_bytes(0x34, 0x02), 0x234);
    assert_eq!(pixel_from_bytes(0xFF, 0xFF), -1);
}

#[test]
fn frame_pixels_come_from_byte_pairs_in_order() {
    let mut buf = [0u8; 128];
    for i in 0..64 {
        buf[2 * i] = i as u8;
        buf[2 * i + 1] = 0x00;
    }
    buf[2 * 10] = 0xFF;
    buf[2 * 10 + 1] = 0x0F;
    let temps = decode_frame(&buf);
    for i in 0..64 {
        if i == 10 {
            assert_eq!(temps[i], -1);
        } else {
            assert_eq!(temps[i], i as i16);
        }
    }
}

#[test]
fn frame_of_zero_readings_has_no_bearing() {
    assert_eq!(angle_from_column_weighted(&[0i16; 64]), None);
}

#[test]
fn readings_summing_to_zero_have_no_bearing() {
    let mut temps = [0i16; 64];
    temps[0] = 40;
    temps[63] = -40;
    assert_eq!(angle_from_column_weighted(&temps), None);
}

#[test]
fn uniform_frame_faces_ahead() {
    let a = angle_from_column_weighted(&[100i16; 64]).unwrap();
    assert_eq!(a, ColumnAngle { weighted: 51200, total: 6400 });
    assert_eq!(a.weighted - 8 * a.total, 0);
}

#[test]
fn warm_right_column_gives_the_outermost_bearing() {
    let mut temps = [0i16; 64];
    for r in 0..8 {
        temps[r * 8 + 7] = 100;
    }
    let a = angle_from_column_weighted(&temps).unwrap();
    assert_eq!(a, ColumnAngle { weighted: 12000, total: 800 });
    // 5600 / 19200 == 7 / 24 of pi.
    assert_eq!((a.weighted - 8 * a.total) * 24, 7 * (24 * a.total));
}

#[test]
fn mirrored_frame_has_opposite_bearing() {
    let mut temps = [0i16; 64];
    for i in 0..64 {
        temps[i] = ((i * 37) % 50) as i16 - 10;
    }
    let mut mirror = [0i16; 64];
    for r in 0..8 {
        for c in 0..8 {
            mirror[r * 8 + c] = temps[r * 8 + 7 - c];
        }
    }
    let a = angle_from_column_weighted(&temps).unwrap();
    let b = angle_from_column_weighted(&mirror).unwrap();
    assert_eq!(a.total, b.total);
    assert_eq!(a.weighted - 8 * a.total, -(b.weighted - 8 * b.total));
}

#[test]
fn column_sums_weight_each_column_by_its_centre() {
    let mut temps = [0i16; 64];
    // column 0 sums to 10, column 3 to -4 and column 5 to 8
    temps[0] = 10;
    temps[8 + 3] = -4;
    temps[40 + 5] = 3;
    temps[56 + 5] = 5;
    let a = angle_from_column_weighted(&temps).unwrap();
    assert_eq!(a.total, 14);
    assert_eq!(a.weighted, 10 - 7 * 4 + 11 * 8);
}

#[test]
fn extreme_readings_do_not_overflow() {
    let a = angle_from_column_weighted(&[i16::MIN; 64]).unwrap();
    assert_eq!(a.total, 64 * -32768);
    assert_eq!(a.weighted, 512 * -32768);
}

#[test]
fn reordering_rows_keeps_the_sums() {
    let mut temps = [0i16; 64];
    for i in 0..64 {
        temps[i] = ((i * 29) % 41) as i16 - 7;
    }
    let order = [3usize, 7, 0, 5, 1, 6, 2, 4];
    let mut shuffled = [0i16; 64];
    for r in 0..8 {
        for c in 0..8 {
            shuffled[r * 8 + c] = temps[order[r] * 8 + c];
        }
    }
    assert_eq!(angle_from_column_weighted(&shuffled), angle_from_column_weighted(&temps));
    assert!(angle_from_column_weighted(&temps).is_some());
}

#[test]
fn scaling_readings_keeps_the_bearing_fraction() {
    let mut temps = [0i16; 64];
    for i in 0..64 {
        temps[i] = ((i * 13) % 23) as i16;
    }
    let mut scaled = [0i16; 64];
    for i in 0..64 {
        scaled[i] = temps[i] * 4;
    }
    let a = angle_from_column_weighted(&temps).unwrap();
    let b = angle_from_column_weighted(&scaled).unwrap();
    assert_eq!(b.total, 4 * a.total);
    assert_eq!(b.weighted, 4 * a.weighted);
    assert_eq!(
        (b.weighted - 8 * b.total) * (24 * a.total),
        (a.weighted - 8 * a.total) * (24 * b.total)
    );
}
