use rusterizer::fixed::Fixed;
use rusterizer::linalg::{narrow_matrix, Matrix4, Point4};

fn raw(v: i32) -> Fixed {
    Fixed::from_raw(v)
}

fn whole(rows: [[i16; 4]; 4]) -> Matrix4 {
    Matrix4::new(rows.map(|row| row.map(Fixed::from_int)))
}

fn raws(rows: [[i32; 4]; 4]) -> Matrix4 {
    Matrix4::new(rows.map(|row| row.map(Fixed::from_raw)))
}

const S: i32 = 65536;

#[test]
fn identity_and_zero() {
    let id = Matrix4::identity();
    for r in 0..4 {
        for c in 0..4 {
            assert_eq!(id.get(r, c).raw, if r == c { S } else { 0 });
            assert_eq!(Matrix4::zero().get(r, c).raw, 0);
        }
    }
    assert_eq!(Matrix4::default(), Matrix4::zero());
    assert_eq!(id, whole([[1, 0, 0, 0], [0, 1, 0, 0], [0, 0, 1, 0], [0, 0, 0, 1]]));
}

#[test]
fn product_with_identity_is_the_matrix() {
    let a = whole([[1, 2, 3, 4], [5, 6, 7, 8], [9, 10, 11, 12], [13, 14, 15, 16]]);
    assert_eq!(a.product(&Matrix4::identity()), Some(a));
    assert_eq!(Matrix4::identity().product(&a), Some(a));
}

#[test]
fn product_is_rows_times_columns() {
    let a = whole([[1, 2, 3, 4], [5, 6, 7, 8], [9, 10, 11, 12], [13, 14, 15, 16]]);
    let b = raws([[S / 2, 0, 0, S], [0, S / 4, 0, 0], [0, 0, 2 * S, 0], [S, 0, 0, -S]]);
    assert_eq!(
        a.product(&b),
        Some(raws([
            [294912, 32768, 393216, -196608],
            [688128, 98304, 917504, -196608],
            [1081344, 163840, 1441792, -196608],
            [1474560, 229376, 1966080, -196608],
        ]))
    );
    // The product does not commute.
    assert_eq!(
        b.product(&a),
        Some(raws([
            [884736, 983040, 1081344, 1179648],
            [81920, 98304, 114688, 131072],
            [1179648, 1310720, 1441792, 1572864],
            [-786432, -786432, -786432, -786432],
        ]))
    );
}

#[test]
fn product_rounds_each_entry_down_once() {
    let c = raws([[3, 0, 0, 0], [0, -3, 0, 0], [0, 0, S, 0], [0, 0, 0, S]]);
    let d = raws([[S / 2, 0, 0, 0], [0, S / 2, 0, 0], [0, 0, S, 0], [0, 0, 0, S]]);
    assert_eq!(
        c.product(&d),
        Some(raws([[1, 0, 0, 0], [0, -2, 0, 0], [0, 0, S, 0], [0, 0, 0, S]]))
    );
    // Four quarters of the smallest step add up before they are rounded.
    let quarter = raws([[S / 4; 4]; 4]);
    let step = raws([[1; 4]; 4]);
    assert_eq!(quarter.product(&step), Some(raws([[1; 4]; 4])));
}

#[test]
fn matrix_product_out_of_range_is_none() {
    let big = whole([[256, 0, 0, 0], [0, 1, 0, 0], [0, 0, 1, 0], [0, 0, 0, 1]]);
    assert_eq!(big.product(&big), None);
    let most = raws([[i32::MIN; 4]; 4]);
    assert_eq!(most.product(&most), None);
    assert_eq!(most.product(&Matrix4::zero()), Some(Matrix4::zero()));
}

#[test]
fn transform_is_rows_times_the_point() {
    let a = whole([[1, 2, 3, 4], [5, 6, 7, 8], [9, 10, 11, 12], [13, 14, 15, 16]]);
    let v = Point4 { x: raw(S), y: raw(2 * S), z: raw(3 * S), w: raw(S) };
    assert_eq!(
        a.transform(v),
        Some(Point4 { x: raw(1179648), y: raw(3014656), z: raw(4849664), w: raw(6684672) })
    );
    assert_eq!(Matrix4::identity().transform(v), Some(v));
}

#[test]
fn transform_out_of_range_is_none() {
    let a = whole([[256, 0, 0, 0], [0, 1, 0, 0], [0, 0, 1, 0], [0, 0, 0, 1]]);
    let v = Point4 { x: raw(256 * S), y: raw(0), z: raw(0), w: raw(S) };
    assert_eq!(a.transform(v), None);
    let w = Point4 { x: raw(255 * S), y: raw(0), z: raw(0), w: raw(S) };
    assert_eq!(a.transform(w), None);
    let u = Point4 { x: raw(127 * S), y: raw(0), z: raw(0), w: raw(S) };
    assert_eq!(a.transform(u), Some(Point4 { x: raw(256 * 127 * S), y: raw(0), z: raw(0), w: raw(S) }));
}

#[test]
fn narrowing_a_matrix() {
    let mut wide = [[0i128; 4]; 4];
    wide[1][2] = 2147483647;
    wide[3][0] = -2147483648;
    let m = narrow_matrix(&wide).unwrap();
    assert_eq!(m.get(1, 2).raw, i32::MAX);
    assert_eq!(m.get(3, 0).raw, i32::MIN);
    assert_eq!(m.get(0, 0).raw, 0);
    wide[2][2] = 2147483648;
    assert_eq!(narrow_matrix(&wide), None);
}
