use custody_bridge::address::{derive_deposit_address, IdentityKey, IdentityError, SUB_IDENTITY_LEN};

const KEY_ID: u64 = 7;

#[test]
fn test_identity_normalization() {
    // A missing sub-identity normalizes to 32 zero bytes.
    let k = IdentityKey::new(5, None).unwrap();
    assert_eq!(k.owner, 5);
    assert_eq!(k.subaccount, vec![0u8; SUB_IDENTITY_LEN]);
    // A present one must have exactly 32 bytes.
    let k = IdentityKey::new(5, Some(vec![1u8; 32])).unwrap();
    assert_eq!(k.subaccount, vec![1u8; 32]);
    assert!(matches!(
        IdentityKey::new(5, Some(vec![1u8; 33])),
        Err(IdentityError::MalformedSubIdentity)
    ));
    assert!(matches!(
        IdentityKey::new(5, Some(Vec::new())),
        Err(IdentityError::MalformedSubIdentity)
    ));
}

#[test]
fn test_address_distinct_across_owners() {
    let a = derive_deposit_address(KEY_ID, &IdentityKey::new(1, None).unwrap());
    let b = derive_deposit_address(KEY_ID, &IdentityKey::new(2, None).unwrap());
    assert_ne!(a.path, b.path);
}

#[test]
fn test_address_distinct_across_sub_identities() {
    // The deposit address for an identity and for the same identity with
    // sub-identity [1; 32] are two distinct valid addresses.
    let a = derive_deposit_address(KEY_ID, &IdentityKey::new(1, None).unwrap());
    let b = derive_deposit_address(KEY_ID, &IdentityKey::new(1, Some(vec![1u8; 32])).unwrap());
    assert_eq!(a.path.len(), 48);
    assert_eq!(b.path.len(), 48);
    assert_ne!(a.path, b.path);
}

#[test]
fn test_address_deterministic() {
    let k1 = IdentityKey::new(9, Some(vec![3u8; 32])).unwrap();
    let k2 = IdentityKey::new(9, Some(vec![3u8; 32])).unwrap();
    let a = derive_deposit_address(KEY_ID, &k1);
    let b = derive_deposit_address(KEY_ID, &k2);
    assert_eq!(a.path, b.path);
    // The path embeds the custody key, the owner and the sub-identity.
    assert_eq!(&a.path[0..8], &[KEY_ID as u8, 0, 0, 0, 0, 0, 0, 0]);
    assert_eq!(&a.path[8..16], &[9, 0, 0, 0, 0, 0, 0, 0]);
    assert_eq!(&a.path[16..48], &[3u8; 32]);
}
