use heart_portal::single_instance::{
    hex16, instance_key, lock_file_name, mutex_name, stable_identity_hash,
};

#[test]
fn identity_hash_is_stable() {
    assert_eq!(stable_identity_hash("a"), 0xaf63dc4c8601ec8c);
}

#[test]
fn identity_hash_changes_with_relay_identity() {
    assert_ne!(stable_identity_hash("relay/a"), stable_identity_hash("relay/b"));
}

#[test]
fn empty_identity_hashes_to_offset_basis() {
    assert_eq!(stable_identity_hash(""), 0xcbf29ce484222325);
}

#[test]
fn hex_is_sixteen_lowercase_digits() {
    assert_eq!(hex16(0xaf63dc4c8601ec8c), "af63dc4c8601ec8c");
    assert_eq!(hex16(1), "0000000000000001");
}

#[test]
fn guard_names_use_the_identity_key() {
    assert_eq!(instance_key(None), stable_identity_hash("standalone"));
    assert_eq!(lock_file_name(Some("a")), "af63dc4c8601ec8c.lock");
    assert_eq!(mutex_name(Some("a")), "Local\\heart-portal-af63dc4c8601ec8c");
}
