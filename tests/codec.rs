use alienbio_sim::snapshot::{load, save, FormatError, OrganismSummary, Snapshot};

fn one() -> Snapshot {
    Snapshot {
        tick: 0x0102030405060708,
        total_resource: 99,
        organisms: vec![OrganismSummary { id: 3, x: 4, y: 5, energy: 6, age: 7, appetite: 8, wander: u32::MAX }],
    }
}

#[test]
fn save_layout_is_little_endian() {
    let b = save(&one());
    assert_eq!(b.len(), 88);
    assert_eq!(&b[0..8], &[1, 0, 0, 0, 0, 0, 0, 0]);
    assert_eq!(&b[8..16], &[8, 7, 6, 5, 4, 3, 2, 1]);
    assert_eq!(&b[16..24], &[99, 0, 0, 0, 0, 0, 0, 0]);
    assert_eq!(&b[24..32], &[1, 0, 0, 0, 0, 0, 0, 0]);
    assert_eq!(&b[32..40], &[3, 0, 0, 0, 0, 0, 0, 0]);
    assert_eq!(&b[80..88], &[255, 255, 255, 255, 0, 0, 0, 0]);
}

#[test]
fn load_of_save_is_identity() {
    let s = one();
    assert_eq!(load(&save(&s)), Ok(one()));
    let empty = Snapshot { tick: 0, total_resource: 0, organisms: vec![] };
    assert_eq!(save(&empty).len(), 32);
    assert_eq!(load(&save(&empty)), Ok(Snapshot { tick: 0, total_resource: 0, organisms: vec![] }));
}

#[test]
fn load_rejects_truncated() {
    assert_eq!(load(&vec![]), Err(FormatError::Truncated));
    assert_eq!(load(&vec![1, 0, 0]), Err(FormatError::Truncated));
    let b = save(&one());
    assert_eq!(load(&b[..20].to_vec()), Err(FormatError::Truncated));
}

#[test]
fn load_rejects_unknown_version() {
    let mut b = save(&one());
    b[0] = 2;
    assert_eq!(load(&b), Err(FormatError::UnknownVersion));
    assert_eq!(load(&vec![9, 0, 0, 0, 0, 0, 0, 0]), Err(FormatError::UnknownVersion));
}

#[test]
fn load_rejects_length_mismatch() {
    let mut b = save(&one());
    b.push(0);
    assert_eq!(load(&b), Err(FormatError::LengthMismatch));
    let mut c = save(&one());
    c[24] = 2;
    assert_eq!(load(&c), Err(FormatError::LengthMismatch));
}

#[test]
fn load_rejects_out_of_range_field() {
    let mut b = save(&one());
    b[40 + 4] = 1;
    assert_eq!(load(&b), Err(FormatError::FieldOutOfRange));
}
