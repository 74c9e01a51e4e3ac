use beamdpr::engine::{transform, transform_in_place, BUFFER_SIZE};
use beamdpr::header::EGSError;
use beamdpr::transform::Matrix;

fn header_bytes(
    mode: &[u8; 5],
    tp: i32,
    ph: i32,
    max_e: f32,
    min_e: f32,
    tpis: f32,
    record_length: usize,
) -> Vec<u8> {
    let mut h: Vec<u8> = Vec::new();
    h.extend_from_slice(mode);
    h.extend_from_slice(&tp.to_le_bytes());
    h.extend_from_slice(&ph.to_le_bytes());
    h.extend_from_slice(&max_e.to_le_bytes());
    h.extend_from_slice(&min_e.to_le_bytes());
    h.extend_from_slice(&tpis.to_le_bytes());
    while h.len() < record_length {
        h.push(0);
    }
    h
}

fn record28(latch: u32, e: f32, x: f32, y: f32, xc: f32, yc: f32, w: f32) -> Vec<u8> {
    let mut r: Vec<u8> = Vec::new();
    r.extend_from_slice(&latch.to_le_bytes());
    r.extend_from_slice(&e.to_le_bytes());
    r.extend_from_slice(&x.to_le_bytes());
    r.extend_from_slice(&y.to_le_bytes());
    r.extend_from_slice(&xc.to_le_bytes());
    r.extend_from_slice(&yc.to_le_bytes());
    r.extend_from_slice(&w.to_le_bytes());
    r
}

fn quarter(k: u32) -> f32 {
    (k % 37 + 1) as f32 * 0.25
}

fn test_file(seed: u32, tp: i32, ph: i32) -> Vec<u8> {
    let mut f = header_bytes(b"MODE0", tp, ph, 0.1988f32, 0.0157f32, 100.0f32, 28);
    let mut i: u32 = 0;
    while (i as i32) < tp {
        let k = seed + i;
        f.extend_from_slice(&record28(
            i,
            quarter(k + 23),
            quarter(k),
            quarter(k + 5),
            quarter(k + 11),
            quarter(k + 17),
            quarter(k + 29),
        ));
        i += 1;
    }
    f
}

fn matrix(rows: [[f32; 3]; 3]) -> Matrix {
    Matrix::new(
        rows[0][0].to_bits(),
        rows[0][1].to_bits(),
        rows[0][2].to_bits(),
        rows[1][0].to_bits(),
        rows[1][1].to_bits(),
        rows[1][2].to_bits(),
        rows[2][0].to_bits(),
        rows[2][1].to_bits(),
        rows[2][2].to_bits(),
    )
}

fn translation(x: f32, y: f32) -> Matrix {
    matrix([[1.0, 0.0, x], [0.0, 1.0, y], [0.0, 0.0, 1.0]])
}

fn rotation_cs(c: f32, s: f32) -> Matrix {
    matrix([[c, -s, 0.0], [s, c, 0.0], [0.0, 0.0, 1.0]])
}

fn reflection(vx: f32, vy: f32) -> Matrix {
    let norm = (vx * vx + vy * vy).sqrt();
    let x = vx / norm;
    let y = vy / norm;
    matrix([
        [x * x - y * y, 2.0 * x * y, 0.0],
        [2.0 * x * y, y * y - x * x, 0.0],
        [0.0, 0.0, 1.0],
    ])
}

#[test]
fn translate_operation() {
    let input = test_file(0, 352, 303);
    let x: f32 = 5.0;
    let y: f32 = 5.0;
    let mut output = transform(&input, &translation(x, y), BUFFER_SIZE).unwrap();
    assert!(output != input);
    transform_in_place(&mut output, &translation(-x, -y)).unwrap();
    assert!(output == input);
}

#[test]
fn rotate_operation() {
    // A half turn: its cosine and sine are exactly -1 and 0, so applying it
    // twice is byte-exact on the nonzero field values of the test file.
    let input = test_file(7, 352, 303);
    let half_turn = rotation_cs(-1.0, 0.0);
    let mut output = transform(&input, &half_turn, BUFFER_SIZE).unwrap();
    assert!(output != input);
    transform_in_place(&mut output, &half_turn).unwrap();
    assert!(output == input);
}

#[test]
fn reflect_operation() {
    let input = test_file(13, 352, 303);
    let mirror = reflection(1.0, 0.0);
    let mut output = transform(&input, &mirror, BUFFER_SIZE).unwrap();
    assert!(output != input);
    transform_in_place(&mut output, &mirror).unwrap();
    assert!(output == input);
}

#[test]
fn rotate_half_turn_values() {
    // One record with known fields: a half turn negates positions and
    // direction cosines and touches nothing else.
    let mut input = header_bytes(b"MODE0", 1, 1, 1.0f32, 0.5f32, 1.0f32, 28);
    input.extend_from_slice(&record28(42, 6.5, 1.25, 3.5, 0.75, 0.25, 2.0));
    let out = transform(&input, &rotation_cs(-1.0, 0.0), BUFFER_SIZE).unwrap();
    let mut expected = header_bytes(b"MODE0", 1, 1, 1.0f32, 0.5f32, 1.0f32, 28);
    expected.extend_from_slice(&record28(42, 6.5, -1.25, -3.5, -0.75, -0.25, 2.0));
    assert_eq!(out, expected);
}

#[test]
fn translate_values_leave_cosines_alone() {
    // Translation moves positions but must never move direction cosines:
    // only the linear part of the matrix applies to a direction.
    let mut input = header_bytes(b"MODE0", 1, 0, 1.0f32, 0.5f32, 1.0f32, 28);
    input.extend_from_slice(&record28(7, 0.125, 1.25, 3.5, 0.75, 0.25, 2.0));
    let out = transform(&input, &translation(5.5, -2.25), BUFFER_SIZE).unwrap();
    let mut expected = header_bytes(b"MODE0", 1, 0, 1.0f32, 0.5f32, 1.0f32, 28);
    expected.extend_from_slice(&record28(7, 0.125, 6.75, 1.25, 0.75, 0.25, 2.0));
    assert_eq!(out, expected);
}

#[test]
fn chunk_boundary_correctness() {
    // Chunk sizes that are not multiples of the 28-byte record length must
    // give the same bytes as any other chunk size.
    let input = test_file(3, 100, 40);
    let m = translation(5.0, -3.5);
    let with_odd_chunks = transform(&input, &m, 17).unwrap();
    let with_other_chunks = transform(&input, &m, 27).unwrap();
    let with_one_chunk = transform(&input, &m, input.len()).unwrap();
    let with_default = transform(&input, &m, BUFFER_SIZE).unwrap();
    assert!(with_odd_chunks == with_default);
    assert!(with_other_chunks == with_default);
    assert!(with_one_chunk == with_default);
}

#[test]
fn in_place_matches_copy() {
    let input = test_file(21, 50, 20);
    let m = translation(2.5, 0.25);
    let copied = transform(&input, &m, BUFFER_SIZE).unwrap();
    let mut in_place = input.clone();
    transform_in_place(&mut in_place, &m).unwrap();
    assert!(copied == in_place);
}

#[test]
fn mode2_records_keep_zlast() {
    // MODE2 records are 32 bytes; the trailing zlast field passes through.
    let mut input = header_bytes(b"MODE2", 1, 0, 1.0f32, 0.5f32, 1.0f32, 32);
    let mut rec = record28(9, 0.5, 1.0, 2.0, 0.5, 0.25, 1.5);
    rec.extend_from_slice(&4.75f32.to_le_bytes());
    input.extend_from_slice(&rec);
    let out = transform(&input, &translation(1.0, 1.0), BUFFER_SIZE).unwrap();
    let mut expected = header_bytes(b"MODE2", 1, 0, 1.0f32, 0.5f32, 1.0f32, 32);
    let mut expected_rec = record28(9, 0.5, 2.0, 3.0, 0.5, 0.25, 1.5);
    expected_rec.extend_from_slice(&4.75f32.to_le_bytes());
    expected.extend_from_slice(&expected_rec);
    assert_eq!(out, expected);
}

#[test]
fn transform_rejects_bad_files() {
    let m = translation(1.0, 1.0);
    let mut wrong_mode = test_file(0, 2, 1);
    wrong_mode[4] = b'1';
    assert_eq!(transform(&wrong_mode, &m, BUFFER_SIZE), Err(EGSError::BadMode));

    let mut wrong_length = test_file(0, 2, 1);
    wrong_length.pop();
    assert_eq!(transform(&wrong_length, &m, BUFFER_SIZE), Err(EGSError::BadLength));

    let mut untouched = wrong_length.clone();
    assert_eq!(transform_in_place(&mut untouched, &m), Err(EGSError::BadLength));
    assert!(untouched == wrong_length);

    let tiny: Vec<u8> = vec![1, 2, 3];
    assert_eq!(transform(&tiny, &m, BUFFER_SIZE), Err(EGSError::BadLength));
}
