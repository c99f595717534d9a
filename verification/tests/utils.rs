use hull::mac::parse_mac;
use hull::utils::{generate_random_mac, stable_uuid};

#[test]
fn stable_uuid_is_reproducible() {
    let a = stable_uuid("switch", &["test-sw"]);
    let b = stable_uuid("switch", &["test-sw"]);
    let c = stable_uuid("router", &["test-sw"]);

    assert_eq!(a, b);
    assert_ne!(a, c);
}

#[test]
fn stable_uuid_is_a_version_5_uuid() {
    let a = stable_uuid("switch", &["test-sw", "default"]);
    assert_eq!(a[6] >> 4, 5);
    assert_eq!(a[8] >> 6, 2);
    let b = stable_uuid("switch", &["test-swdefault"]);
    assert_ne!(a, b);
}

#[test]
fn random_mac_is_local_kvm_range() {
    let m = generate_random_mac();
    let bytes = parse_mac(&m).expect("a MAC address");
    assert_eq!(&bytes[..3], &[0x52, 0x54, 0x00]);
    assert_eq!(m.len(), 17);
    assert_eq!(m, m.to_lowercase());
}

#[test]
fn stable_uuid_is_the_name_based_uuid_of_its_key() {
    let expected = uuid::Uuid::new_v5(&uuid::Uuid::NAMESPACE_OID, b"hull:switch:test-sw:default");
    assert_eq!(stable_uuid("switch", &["test-sw", "default"]), expected.into_bytes());
}
