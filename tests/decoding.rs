use geocode::{Cell, DecodeError, Geocode};

fn holds(geocode: Geocode, cell: Cell, x: i64, y: i64) -> bool {
    let b = geocode.bounds();
    let wx = (b.max_x - b.min_x) as i128;
    let wy = (b.max_y - b.min_y) as i128;
    let dx = ((x - b.min_x) as i128) << cell.x_bits;
    let dy = ((y - b.min_y) as i128) << cell.y_bits;
    let ix = cell.x_index as i128;
    let iy = cell.y_index as i128;
    ix * wx <= dx && dx <= (ix + 1) * wx && iy * wy <= dy && dy <= (iy + 1) * wy
}

#[test]
fn decode_geohash_cell() {
    let cell = Geocode::Geohash.decode("dpc5u6").unwrap();
    assert_eq!(cell.x_bits, 15);
    assert_eq!(cell.y_bits, 15);
    assert!(holds(Geocode::Geohash, cell, -88_400_000_000, 44_266_667_000));
}

#[test]
fn decode_single_symbols() {
    assert_eq!(
        Geocode::Geohash.decode("7"),
        Ok(Cell { x_index: 3, y_index: 1, x_bits: 3, y_bits: 2 })
    );
    assert_eq!(
        Geocode::QuadTile.decode("3"),
        Ok(Cell { x_index: 1, y_index: 0, x_bits: 1, y_bits: 1 })
    );
    assert_eq!(Geocode::Geohash16.decode(""), Ok(Cell { x_index: 0, y_index: 0, x_bits: 0, y_bits: 0 }));
}

#[test]
fn decode_rejects_unknown_symbol() {
    assert_eq!(Geocode::Geohash.decode("dpa5"), Err(DecodeError { position: 2, symbol: 'a' }));
    assert_eq!(Geocode::QuadTile.decode("0124"), Err(DecodeError { position: 3, symbol: '4' }));
    assert_eq!(Geocode::QuadTile.decode("0194"), Err(DecodeError { position: 2, symbol: '9' }));
    assert_eq!(Geocode::Geohash16.decode("g"), Err(DecodeError { position: 0, symbol: 'g' }));
}

#[test]
fn decode_inverts_encode() {
    let points: [(Geocode, i64, i64); 4] = [
        (Geocode::Geohash, -105_078_056_000, 40_559_167_000),
        (Geocode::Geohash16, -88_400_000_000, 44_266_667_000),
        (Geocode::QuadTile, -9_840_642_990_000_000, 5_506_802_680_000_000),
        (Geocode::Geohash, 180_000_000_000, -90_000_000_000),
    ];
    for (geocode, x, y) in points {
        for precision in 0..12usize {
            let code = geocode.encode(x, y, precision).unwrap();
            let cell = geocode.decode(&code).unwrap();
            let (rx, ry) = geocode.get_intervals(precision);
            assert_eq!(cell.x_bits, rx.halvings);
            assert_eq!(cell.y_bits, ry.halvings);
            assert!(holds(geocode, cell, x, y));
        }
    }
}
