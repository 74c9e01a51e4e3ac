use beamdpr::header::{parse_header, EGSError, Header, Mode};

fn header_bytes(
    mode: &[u8; 5],
    tp: i32,
    ph: i32,
    max_e: f32,
    min_e: f32,
    tpis: f32,
    record_length: usize,
) -> Vec<u8> {
    let mut h: Vec<u8> = Vec::new();
    h.extend_from_slice(mode);
    h.extend_from_slice(&tp.to_le_bytes());
    h.extend_from_slice(&ph.to_le_bytes());
    h.extend_from_slice(&max_e.to_le_bytes());
    h.extend_from_slice(&min_e.to_le_bytes());
    h.extend_from_slice(&tpis.to_le_bytes());
    while h.len() < record_length {
        h.push(0);
    }
    h
}

fn record28(latch: u32, e: f32, x: f32, y: f32, xc: f32, yc: f32, w: f32) -> Vec<u8> {
    let mut r: Vec<u8> = Vec::new();
    r.extend_from_slice(&latch.to_le_bytes());
    r.extend_from_slice(&e.to_le_bytes());
    r.extend_from_slice(&x.to_le_bytes());
    r.extend_from_slice(&y.to_le_bytes());
    r.extend_from_slice(&xc.to_le_bytes());
    r.extend_from_slice(&yc.to_le_bytes());
    r.extend_from_slice(&w.to_le_bytes());
    r
}

fn quarter(k: u32) -> f32 {
    (k % 37 + 1) as f32 * 0.25
}

fn test_file(seed: u32, tp: i32, ph: i32) -> Vec<u8> {
    let mut f = header_bytes(b"MODE0", tp, ph, 0.1988f32, 0.0157f32, 100.0f32, 28);
    let mut i: u32 = 0;
    while (i as i32) < tp {
        let k = seed + i;
        f.extend_from_slice(&record28(
            i,
            quarter(k + 23),
            quarter(k),
            quarter(k + 5),
            quarter(k + 11),
            quarter(k + 17),
            quarter(k + 29),
        ));
        i += 1;
    }
    f
}

#[test]
fn first_file_header_correct() {
    let file = test_file(0, 352, 303);
    let header = parse_header(&file).unwrap();
    assert!(header.record_length() == 28);
    assert!(
        header.total_particles == 352,
        "Total particles incorrect, found {:?}",
        header.total_particles
    );
    assert!(
        header.total_photons == 303,
        "Total photons incorrect, found {:?}",
        header.total_photons
    );
    assert!(
        f32::from_bits(header.max_energy_bits) - 0.1988f32 < 0.0001f32,
        "Max energy incorrect, found {:?}",
        f32::from_bits(header.max_energy_bits)
    );
    assert!(
        f32::from_bits(header.min_energy_bits) - 0.0157f32 < 0.0001f32,
        "Min energy incorrect, found {:?}",
        f32::from_bits(header.min_energy_bits)
    );
    assert!(
        f32::from_bits(header.total_particles_in_source_bits) - 100.0f32 < 0.0001f32,
        "Total particles in source incorrect, found {:?}",
        f32::from_bits(header.total_particles_in_source_bits)
    );
}

#[test]
fn second_file_header_correct() {
    let file = test_file(1000, 352, 303);
    let header = parse_header(&file).unwrap();
    assert!(header.record_length() == 28);
    assert!(
        header.total_particles == 352,
        "Total particles incorrect, found {:?}",
        header.total_particles
    );
    assert!(
        header.total_photons == 303,
        "Total photons incorrect, found {:?}",
        header.total_photons
    );
    assert!(
        f32::from_bits(header.max_energy_bits) - 0.1988f32 < 0.0001f32,
        "Max energy incorrect, found {:?}",
        f32::from_bits(header.max_energy_bits)
    );
    assert!(
        f32::from_bits(header.min_energy_bits) - 0.0157f32 < 0.0001f32,
        "Min energy incorrect, found {:?}",
        f32::from_bits(header.min_energy_bits)
    );
    assert!(
        f32::from_bits(header.total_particles_in_source_bits) - 100.0f32 < 0.0001f32,
        "Total particles in source incorrect, found {:?}",
        f32::from_bits(header.total_particles_in_source_bits)
    );
}

#[test]
fn combined_file_header_correct() {
    // The header a combine of the two files above must carry, written out as
    // a file of its own.
    let first = test_file(0, 352, 303);
    let second = test_file(1000, 352, 303);
    let mut combined = header_bytes(b"MODE0", 352 * 2, 303 * 2, 0.1988f32, 0.0157f32, 200.0f32, 28);
    combined.extend_from_slice(&first[28..]);
    combined.extend_from_slice(&second[28..]);
    let header = parse_header(&combined).unwrap();
    assert!(header.record_length() == 28);
    assert!(
        header.total_particles == 352 * 2,
        "Total particles incorrect, found {:?}",
        header.total_particles
    );
    assert!(
        header.total_photons == 303 * 2,
        "Total photons incorrect, found {:?}",
        header.total_photons
    );
    assert!(
        f32::from_bits(header.max_energy_bits) - 0.1988f32 < 0.0001f32,
        "Max energy incorrect, found {:?}",
        f32::from_bits(header.max_energy_bits)
    );
    assert!(
        f32::from_bits(header.min_energy_bits) - 0.0157f32 < 0.0001f32,
        "Min energy incorrect, found {:?}",
        f32::from_bits(header.min_energy_bits)
    );
    assert!(
        f32::from_bits(header.total_particles_in_source_bits) - 100.0f32 * 2.0f32 < 0.0001f32,
        "Total particles in source incorrect, found {:?}",
        f32::from_bits(header.total_particles_in_source_bits)
    );
}

#[test]
fn header_serialize_parse_roundtrip() {
    let h = Header {
        mode: Mode::Mode2,
        total_particles: 12345,
        total_photons: -7,
        max_energy_bits: 6.25f32.to_bits(),
        min_energy_bits: 0.0157f32.to_bits(),
        total_particles_in_source_bits: 99.5f32.to_bits(),
    };
    let mut buffer: Vec<u8> = vec![0xAB; 32];
    h.write_to_bytes(&mut buffer);
    let parsed = Header::new_from_bytes(&buffer).unwrap();
    assert_eq!(parsed, h);
    // bytes past the header stay as they were
    assert!(buffer[25..].iter().all(|&b| b == 0xAB));
}

#[test]
fn validation_length_boundary() {
    // A MODE0 file with n particles passes at (n+1)*28 bytes and fails one
    // byte short of it.
    let n: i32 = 3;
    let mut file = header_bytes(b"MODE0", n, 2, 1.0f32, 0.5f32, 3.0f32, 28);
    for i in 0..n {
        file.extend_from_slice(&record28(i as u32, 1.0, 2.0, 3.0, 0.5, 0.5, 1.0));
    }
    assert_eq!(file.len(), (n as usize + 1) * 28);
    assert!(parse_header(&file).is_ok());
    let header = parse_header(&file).unwrap();
    assert!(header.validate(file.len() as u64) == Ok(()));
    assert!(header.validate(file.len() as u64 - 1) == Err(EGSError::BadLength));
    let mut short = file.clone();
    short.pop();
    assert_eq!(parse_header(&short), Err(EGSError::BadLength));
}

#[test]
fn bad_mode_rejected() {
    let mut file = header_bytes(b"MODEX", 0, 0, 1.0f32, 0.5f32, 0.0f32, 28);
    while file.len() < 28 {
        file.push(0);
    }
    assert_eq!(parse_header(&file), Err(EGSError::BadMode));
    assert_eq!(Header::new_from_bytes(&file), Err(EGSError::BadMode));
}

#[test]
fn merge_energy_window_and_counts() {
    let a = Header {
        mode: Mode::Mode0,
        total_particles: 352,
        total_photons: 303,
        max_energy_bits: 0.1988f32.to_bits(),
        min_energy_bits: 0.0157f32.to_bits(),
        total_particles_in_source_bits: 100.0f32.to_bits(),
    };
    let b = Header {
        mode: Mode::Mode0,
        total_particles: 10,
        total_photons: 4,
        max_energy_bits: 2.5f32.to_bits(),
        min_energy_bits: 0.125f32.to_bits(),
        total_particles_in_source_bits: 25.5f32.to_bits(),
    };
    let m = a.merge(&b).unwrap();
    assert_eq!(m.mode, Mode::Mode0);
    assert_eq!(m.total_particles, 362);
    assert_eq!(m.total_photons, 307);
    // energy bounds are min/max reductions, never sums
    assert_eq!(m.max_energy_bits, 2.5f32.to_bits());
    assert_eq!(m.min_energy_bits, 0.0157f32.to_bits());
    assert_eq!(m.total_particles_in_source_bits, 125.5f32.to_bits());
    // merging in the other order widens to the same window
    let r = b.merge(&a).unwrap();
    assert_eq!(r.max_energy_bits, 2.5f32.to_bits());
    assert_eq!(r.min_energy_bits, 0.0157f32.to_bits());
    assert_eq!(r.total_particles_in_source_bits, 125.5f32.to_bits());
}

#[test]
fn merge_mode_mismatch() {
    let a = Header {
        mode: Mode::Mode0,
        total_particles: 1,
        total_photons: 1,
        max_energy_bits: 1.0f32.to_bits(),
        min_energy_bits: 0.5f32.to_bits(),
        total_particles_in_source_bits: 1.0f32.to_bits(),
    };
    let b = Header { mode: Mode::Mode2, ..a };
    assert_eq!(a.merge(&b), Err(EGSError::ModeMismatch));
}
