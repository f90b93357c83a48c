use aedat_utilities::time_window_csv::Downres;
use aedat_utilities::AedatError;

#[test]
fn downres_bounds() {
    let downres_128 = Downres::new(128, 128, 4, 4);
    assert_eq!(downres_128.get_pixel(128, 128), Some(0));
    assert_eq!(downres_128.get_pixel(129, 129), None);
    assert_eq!(downres_128.get_pixel(1, 1), Some(0));
    assert_eq!(downres_128.get_pixel(0, 0), None);

    let downres_240 = Downres::new(240, 180, 4, 4);
    assert_eq!(downres_240.get_pixel(240, 180), Some(0));
    assert_eq!(downres_240.get_pixel(241, 181), None);
    assert_eq!(downres_240.get_pixel(1, 1), Some(0));
    assert_eq!(downres_240.get_pixel(0, 0), None);
}

#[test]
fn downres_scale() {
    let mut downres_128 = Downres::new(128, 128, 4, 4);

    for i in 13..=16 {
        for j in 13..=16 {
            if let Err(e) = downres_128.increment_pixel(i, j) {
                panic!("{:?}", e)
            };
        }
    }

    for i in 13..=16 {
        for j in 13..=16 {
            assert_eq!(downres_128.get_pixel(i, j), Some(16));
        }
    }

    if let Err(e) = downres_128.increment_pixel(10, 10) {
        panic!("{:?}", e)
    };
    if let Err(e) = downres_128.increment_pixel(10, 10) {
        panic!("{:?}", e)
    };
    assert_eq!(downres_128.get_pixel(10, 10), Some(2));

    assert_eq!(downres_128.get_pixel(50, 50), Some(0));
}

#[test]
fn downres_to_pgm() {
    let downres_128_scale4 = Downres::new(128, 128, 4, 1);
    let downres_128_scale4_pgm = downres_128_scale4.to_pgm();
    let downres_128_scale4_resolution =
        downres_128_scale4_pgm.split("\n").collect::<Vec<_>>()[1];
    assert_eq!(downres_128_scale4_resolution, "32 32");

    let mut downres_128_scale16 = Downres::new(128, 128, 16, 1);

    assert_eq!(
        downres_128_scale16.to_pgm(),
        "P2\n8 8\n1\n\
        0 0 0 0 0 0 0 0\n\
        0 0 0 0 0 0 0 0\n\
        0 0 0 0 0 0 0 0\n\
        0 0 0 0 0 0 0 0\n\
        0 0 0 0 0 0 0 0\n\
        0 0 0 0 0 0 0 0\n\
        0 0 0 0 0 0 0 0\n\
        0 0 0 0 0 0 0 0\n"
    );

    if let Err(e) = downres_128_scale16.increment_pixel(1, 1) {
        panic!("{:?}", e)
    };
    if let Err(e) = downres_128_scale16.increment_pixel(64, 64) {
        panic!("{:?}", e)
    };
    if let Err(e) = downres_128_scale16.increment_pixel(128, 128) {
        panic!("{:?}", e)
    };

    assert_eq!(
        downres_128_scale16.to_pgm(),
        "P2\n8 8\n1\n\
        1 0 0 0 0 0 0 0\n\
        0 0 0 0 0 0 0 0\n\
        0 0 0 0 0 0 0 0\n\
        0 0 0 1 0 0 0 0\n\
        0 0 0 0 0 0 0 0\n\
        0 0 0 0 0 0 0 0\n\
        0 0 0 0 0 0 0 0\n\
        0 0 0 0 0 0 0 1\n"
    );

    downres_128_scale16.reset();

    assert_eq!(
        downres_128_scale16.to_pgm(),
        "P2\n8 8\n1\n\
        0 0 0 0 0 0 0 0\n\
        0 0 0 0 0 0 0 0\n\
        0 0 0 0 0 0 0 0\n\
        0 0 0 0 0 0 0 0\n\
        0 0 0 0 0 0 0 0\n\
        0 0 0 0 0 0 0 0\n\
        0 0 0 0 0 0 0 0\n\
        0 0 0 0 0 0 0 0\n"
    );
}

#[test]
fn downres_corner_pixels_hit_distinct_buckets() {
    // Three corner/center pixels at scale 16 each own one of the distinct
    // corner/center buckets of the 8x8 grid.
    let mut d = Downres::new(128, 128, 16, 1);
    d.increment_pixel(1, 1).unwrap();
    d.increment_pixel(64, 64).unwrap();
    d.increment_pixel(128, 128).unwrap();
    assert_eq!(d.get_pixel(1, 1), Some(1));
    assert_eq!(d.get_pixel(64, 64), Some(1));
    assert_eq!(d.get_pixel(128, 128), Some(1));
    assert_eq!(d.get_pixel(1, 128), Some(0));
    assert_eq!(d.get_pixel(128, 1), Some(0));
}

#[test]
fn downres_out_of_range_increment_fails() {
    let mut d = Downres::new(128, 128, 4, 4);
    assert_eq!(d.increment_pixel(0, 5), Err(AedatError::OutOfRange));
    assert_eq!(d.increment_pixel(5, 0), Err(AedatError::OutOfRange));
    assert_eq!(d.increment_pixel(129, 5), Err(AedatError::OutOfRange));
    assert_eq!(d.increment_pixel(5, 129), Err(AedatError::OutOfRange));
    // A rejected increment leaves every bucket untouched.
    assert_eq!(d.get_pixel(1, 1), Some(0));
    assert_eq!(d.get_pixel(128, 128), Some(0));
}
