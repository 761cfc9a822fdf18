use geocode::{Bounds, Geocode, OutOfRangeError, Resolution};

const APPLETON_LAT_LONG: (i64, i64) = (-88_400_000_000, 44_266_667_000);
const APPLETON_MERCATOR: (i64, i64) = (-9_840_642_990_000_000, 5_506_802_680_000_000);
const FORT_COLLINS_LAT_LONG: (i64, i64) = (-105_078_056_000, 40_559_167_000);
const FORT_COLLINS_MERCATOR: (i64, i64) = (-11_697_235_690_000_000, 4_947_534_740_000_000);

fn units(r: Resolution) -> f64 {
    (r.span as f64 / 1e9) / 2f64.powi(r.halvings as i32)
}

fn intervals(geocode: Geocode, precision: usize) -> (f64, f64) {
    let (x, y) = geocode.get_intervals(precision);
    (units(x), units(y))
}

#[test]
fn geohash_encode() {
    let geocode = Geocode::Geohash;

    let result = geocode.encode(APPLETON_LAT_LONG.0, APPLETON_LAT_LONG.1, 6);
    assert!(result.is_ok());
    assert_eq!("dpc5u6", &result.unwrap());

    let result = geocode.encode(FORT_COLLINS_LAT_LONG.0, FORT_COLLINS_LAT_LONG.1, 8);
    assert!(result.is_ok());
    assert_eq!("9xjq8zs6", &result.unwrap());
}

#[test]
fn geohash_intervals() {
    let geocode = Geocode::Geohash;
    assert_eq!(intervals(geocode, 1), (45.0, 45.0));
    assert_eq!(intervals(geocode, 2), (11.25, 5.625));
    assert_eq!(intervals(geocode, 3), (1.40625, 1.40625));
    assert_eq!(intervals(geocode, 4), (0.3515625, 0.17578125));
    assert_eq!(intervals(geocode, 5), (0.0439453125, 0.0439453125));
    assert_eq!(intervals(geocode, 6), (0.010986328125, 0.0054931640625));
}

#[test]
fn geohash16_encode() {
    let geocode = Geocode::Geohash16;

    let result = geocode.encode(APPLETON_LAT_LONG.0, APPLETON_LAT_LONG.1, 6);
    assert!(result.is_ok());
    assert_eq!("65565d", &result.unwrap());

    let result = geocode.encode(FORT_COLLINS_LAT_LONG.0, FORT_COLLINS_LAT_LONG.1, 8);
    assert!(result.is_ok());
    assert_eq!("4f63647f", &result.unwrap());
}

#[test]
fn geohash16_intervals() {
    let geocode = Geocode::Geohash16;
    assert_eq!(intervals(geocode, 1), (90.0, 45.0));
    assert_eq!(intervals(geocode, 2), (22.5, 11.25));
    assert_eq!(intervals(geocode, 3), (5.625, 2.8125));
    assert_eq!(intervals(geocode, 4), (1.40625, 0.703125));
    assert_eq!(intervals(geocode, 5), (0.3515625, 0.17578125));
    assert_eq!(intervals(geocode, 6), (0.087890625, 0.0439453125));
}

#[test]
fn quadtile_encode() {
    let geocode = Geocode::QuadTile;

    let result = geocode.encode(APPLETON_MERCATOR.0, APPLETON_MERCATOR.1, 6);
    assert!(result.is_ok());
    assert_eq!("030222", &result.unwrap());

    let result = geocode.encode(FORT_COLLINS_MERCATOR.0, FORT_COLLINS_MERCATOR.1, 8);
    assert!(result.is_ok());
    assert_eq!("02310101", &result.unwrap());
}

#[test]
fn quadtile_intervals() {
    let geocode = Geocode::QuadTile;
    assert_eq!(intervals(geocode, 1), (20037508.342789248, 20037508.342789248));
    assert_eq!(intervals(geocode, 2), (10018754.171394624, 10018754.171394624));
    assert_eq!(intervals(geocode, 3), (5009377.085697312, 5009377.085697312));
    assert_eq!(intervals(geocode, 4), (2504688.542848656, 2504688.542848656));
    assert_eq!(intervals(geocode, 5), (1252344.271424328, 1252344.271424328));
    assert_eq!(intervals(geocode, 6), (626172.135712164, 626172.135712164));
}

#[test]
fn intervals_exact_halvings() {
    let (x, y) = Geocode::Geohash.get_intervals(3);
    assert_eq!(x, Resolution { span: 360_000_000_000, halvings: 8 });
    assert_eq!(y, Resolution { span: 180_000_000_000, halvings: 7 });
    let (x, y) = Geocode::QuadTile.get_intervals(0);
    assert_eq!(x.halvings, 0);
    assert_eq!(y.halvings, 0);
    assert_eq!(x.span, 40_075_016_685_578_496);
}

#[test]
fn midpoint_goes_to_lower_half() {
    assert_eq!(Geocode::Geohash.encode(0, 0, 1).unwrap(), "7");
    assert_eq!(Geocode::Geohash.encode(1, 0, 1).unwrap(), "k");
    assert_eq!(Geocode::Geohash.encode(0, 1, 1).unwrap(), "e");
    assert_eq!(Geocode::Geohash16.encode(0, 0, 1).unwrap(), "3");
    assert_eq!(Geocode::Geohash16.encode(1, 1, 1).unwrap(), "c");
    assert_eq!(Geocode::QuadTile.encode(0, 0, 1).unwrap(), "2");
    assert_eq!(Geocode::QuadTile.encode(1, 0, 1).unwrap(), "3");
    assert_eq!(Geocode::QuadTile.encode(0, 1, 1).unwrap(), "0");
    assert_eq!(Geocode::QuadTile.encode(1, 1, 1).unwrap(), "1");
}

#[test]
fn out_of_range_is_rejected() {
    let bounds = Bounds {
        min_x: -180_000_000_000,
        max_x: 180_000_000_000,
        min_y: -90_000_000_000,
        max_y: 90_000_000_000,
    };
    assert_eq!(
        Geocode::Geohash.encode(180_000_000_001, 0, 4),
        Err(OutOfRangeError { x: 180_000_000_001, y: 0, bounds })
    );
    assert!(Geocode::Geohash.encode(-180_000_000_001, 0, 4).is_err());
    assert!(Geocode::Geohash.encode(0, 90_000_000_001, 4).is_err());
    assert!(Geocode::Geohash16.encode(0, -90_000_000_001, 4).is_err());
    assert!(Geocode::QuadTile.encode(20_037_508_342_789_249, 0, 4).is_err());
}

#[test]
fn bounds_are_accepted() {
    assert_eq!(Geocode::Geohash.encode(-180_000_000_000, -90_000_000_000, 3).unwrap(), "000");
    assert_eq!(Geocode::Geohash.encode(180_000_000_000, 90_000_000_000, 3).unwrap(), "zzz");
    assert_eq!(Geocode::Geohash16.encode(180_000_000_000, 90_000_000_000, 2).unwrap(), "ff");
    assert_eq!(
        Geocode::QuadTile.encode(-20_037_508_342_789_248, 20_037_508_342_789_248, 2).unwrap(),
        "00"
    );
}

#[test]
fn repeated_calls_agree() {
    let a = Geocode::Geohash.encode(APPLETON_LAT_LONG.0, APPLETON_LAT_LONG.1, 9);
    let b = Geocode::Geohash.encode(APPLETON_LAT_LONG.0, APPLETON_LAT_LONG.1, 9);
    assert_eq!(a, b);
}

#[test]
fn length_matches_precision() {
    for precision in 0..30usize {
        let code = Geocode::Geohash.encode(FORT_COLLINS_LAT_LONG.0, FORT_COLLINS_LAT_LONG.1, precision).unwrap();
        assert_eq!(code.chars().count(), precision);
    }
    assert_eq!(Geocode::QuadTile.encode(0, 0, 0).unwrap(), "");
    assert_eq!(Geocode::Geohash16.encode(0, 0, 40).unwrap().len(), 40);
}

#[test]
fn epsg_codes() {
    assert_eq!(Geocode::Geohash.get_epsg_code(), 4326);
    assert_eq!(Geocode::Geohash16.get_epsg_code(), 4326);
    assert_eq!(Geocode::QuadTile.get_epsg_code(), 3857);
}
