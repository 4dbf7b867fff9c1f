use luminal_vgd::identity::{
    container_guid_from_display_id, ephemeral_display_id, is_permanent_display_id,
    permanent_display_id, permanent_product_code, serial_from_display_id, temporary_product_code,
    ConnectorTable,
};
use luminal_vgd::proto::LUMINAL_VGD_INTERFACE_GUID;

#[test]
fn identity_derivations_are_stable_and_partitioned() {
    assert_eq!(permanent_display_id(2), 0x7000_0000_0000_0002);
    assert!(is_permanent_display_id(permanent_display_id(0)));
    assert!(!is_permanent_display_id(0x1234));
    assert!(!is_permanent_display_id(ephemeral_display_id(7)));

    assert_eq!(permanent_product_code(1), 0x4001);
    assert_eq!(temporary_product_code(3), 0x5003);

    let a = serial_from_display_id(0xAAAA_0000_0000_0001);
    let b = serial_from_display_id(0xAAAA_0000_0000_0002);
    assert_eq!(a, serial_from_display_id(0xAAAA_0000_0000_0001));
    assert_ne!(a, b);
}

#[test]
fn container_guid_is_deterministic_well_formed_and_distinct() {
    let g1 = container_guid_from_display_id(1);
    let g2 = container_guid_from_display_id(2);
    assert_eq!(g1, container_guid_from_display_id(1));
    assert_ne!(g1, g2);
    assert_ne!(g1, LUMINAL_VGD_INTERFACE_GUID);
}

#[test]
fn returning_identity_gets_its_connector_back() {
    let mut t = ConnectorTable::new(4);
    assert_eq!(t.acquire(0xA, &[]), Some(0));
    assert_eq!(t.acquire(0xB, &[]), Some(1));
    assert_eq!(t.acquire(0xA, &[]), Some(0));
}

#[test]
fn full_table_evicts_lru_unreserved_but_never_active() {
    let mut t = ConnectorTable::new(2);
    t.acquire(0xA, &[]);
    t.acquire(0xB, &[]);
    t.acquire(0xA, &[]);

    assert_eq!(t.acquire(0xC, &[0xA]), Some(1));
    assert_eq!(t.acquire(0xB, &[0xA, 0xC]), None);
}

#[test]
fn restore_ignores_garbage_and_duplicate_connectors() {
    let mut t = ConnectorTable::new(2);
    t.restore(&[
        (0xA, 0),
        (0xB, 0),
        (0xC, 99),
    ]);
    let all: Vec<(u64, u32)> = t.reservations();
    assert_eq!(all, vec![(0xA, 0)]);
    assert_eq!(t.acquire(0xA, &[]), Some(0));
}

#[test]
fn release_frees_the_connector() {
    let mut t = ConnectorTable::new(1);
    assert_eq!(t.acquire(0xA, &[]), Some(0));
    t.release(0xA);
    assert_eq!(t.acquire(0xB, &[]), Some(0));
}
