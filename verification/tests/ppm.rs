use rtlib::ppm::{index_of, pixel_at, write_decimal, write_header, Pixel};

fn decimal(v: i32) -> String {
    let mut out = Vec::new();
    write_decimal(&mut out, v);
    String::from_utf8(out).unwrap()
}

#[test]
fn numbers_are_written_in_decimal() {
    for v in [0, 1, 9, 10, 11, 99, 100, 255, 2000, 65535, 1_000_000, i32::MAX] {
        assert_eq!(decimal(v), format!("{}", v));
    }
    for v in [-1, -9, -10, -255, -65536, i32::MIN + 1, i32::MIN] {
        assert_eq!(decimal(v), format!("{}", v));
    }
    assert_eq!(decimal(i32::MAX), "2147483647");
    assert_eq!(decimal(i32::MIN), "-2147483648");
    assert_eq!(decimal(1000), "1000");
    assert_eq!(decimal(-1000), "-1000");
}

#[test]
fn the_header_names_the_sizes() {
    let mut out = Vec::new();
    write_header(&mut out, 2000, 1000);
    assert_eq!(String::from_utf8(out).unwrap(), "P3\n2000 1000\n255\n");
    let mut out = b"x".to_vec();
    write_header(&mut out, 200, 100);
    assert_eq!(String::from_utf8(out).unwrap(), "xP3\n200 100\n255\n");
}

#[test]
fn pixels_are_written_from_the_top_row_down() {
    // three columns, two rows: the top row is row 1
    let places: Vec<Pixel> = (0..6).map(|index| pixel_at(index, 3, 2)).collect();
    assert_eq!(
        places,
        vec![
            Pixel { i: 0, j: 1 },
            Pixel { i: 1, j: 1 },
            Pixel { i: 2, j: 1 },
            Pixel { i: 0, j: 0 },
            Pixel { i: 1, j: 0 },
            Pixel { i: 2, j: 0 },
        ]
    );
    for (index, place) in places.iter().enumerate() {
        assert_eq!(index_of(*place, 3, 2), index as i32);
    }
    assert_eq!(pixel_at(0, 2000, 1000), Pixel { i: 0, j: 999 });
    assert_eq!(pixel_at(1_999_999, 2000, 1000), Pixel { i: 1999, j: 0 });
    assert_eq!(pixel_at(2000, 2000, 1000), Pixel { i: 0, j: 998 });
    assert_eq!(index_of(Pixel { i: 1999, j: 0 }, 2000, 1000), 1_999_999);
}
