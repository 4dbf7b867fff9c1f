use luminal_vgd::persist::{parse, serialize, PersistedState};
use luminal_vgd::proto::PermanentPoolConfig;

fn pool() -> PermanentPoolConfig {
    let mut name = [0u16; 32];
    for (i, c) in "Desk".encode_utf16().enumerate() {
        name[i] = c;
    }
    PermanentPoolConfig {
        count: 2,
        width: 2560,
        height: 1440,
        refresh_millihz: 120_000,
        bit_depth: 8,
        hdr: 0,
        physical_width_mm: 700,
        physical_height_mm: 390,
        name,
    }
}

#[test]
fn round_trips_full_state() {
    let state = PersistedState {
        reservations: vec![(0xCAFE, 0), (0xBEEF, 3)],
        pool: Some(pool()),
    };
    assert_eq!(parse(&serialize(&state)), Some(state));
}

#[test]
fn round_trips_empty_state() {
    let state = PersistedState::default();
    assert_eq!(parse(&serialize(&state)), Some(state));
}

#[test]
fn rejects_garbage_wrong_magic_future_schema_and_truncation() {
    assert_eq!(parse(&[]), None);
    assert_eq!(parse(&[0xFF; 64]), None);

    let good = serialize(&PersistedState {
        reservations: vec![(1, 0)],
        pool: Some(pool()),
    });
    let mut bad = good.clone();
    bad[0] ^= 0xFF;
    assert_eq!(parse(&bad), None);
    let mut future = good.clone();
    future[4..8].copy_from_slice(&99u32.to_le_bytes());
    assert_eq!(parse(&future), None);
    for len in 0..good.len() {
        assert_eq!(parse(&good[..len]), None, "truncated at {len}");
    }
    let mut huge = good;
    huge[8..12].copy_from_slice(&u32::MAX.to_le_bytes());
    assert_eq!(parse(&huge), None);
}

#[test]
fn trailing_bytes_are_tolerated() {
    let mut blob = serialize(&PersistedState::default());
    blob.extend_from_slice(&[1, 2, 3]);
    assert_eq!(parse(&blob), Some(PersistedState::default()));
}
