use substrate_api_client::error::ClientError;
use substrate_api_client::metadata::{Metadata, ModuleMetadata, StorageEntry};
use substrate_api_client::storage::{derive_key, hash_key, StorageHasher, StorageKind};

fn unhex(s: &str) -> Vec<u8> {
    (0..s.len()).step_by(2).map(|i| u8::from_str_radix(&s[i..i + 2], 16).unwrap()).collect()
}

const SYSTEM: &str = "26aa394eea5630e07c48ae0c9558cef7";
const ACCOUNT: &str = "b99d880ec681799c0cf30e8886371da9";

fn system_metadata() -> Metadata {
    Metadata {
        modules: vec![ModuleMetadata {
            name: b"System".to_vec(),
            index: 0,
            storage: vec![
                StorageEntry { name: b"Number".to_vec(), kind: StorageKind::Plain },
                StorageEntry {
                    name: b"Account".to_vec(),
                    kind: StorageKind::SingleMap(StorageHasher::Blake2_128Concat),
                },
                StorageEntry {
                    name: b"Pair".to_vec(),
                    kind: StorageKind::DoubleMap(StorageHasher::Twox64Concat, StorageHasher::Identity),
                },
            ],
            calls: vec![],
            events: vec![],
        }],
    }
}

#[test]
fn plain_key_is_the_two_short_hashes() {
    let key = derive_key(b"System", b"Account", StorageKind::Plain, &vec![]).unwrap();
    assert_eq!(key, unhex(&format!("{}{}", SYSTEM, ACCOUNT)));
}

#[test]
fn map_key_appends_hash_and_key() {
    let account = vec![1u8; 32];
    let key = derive_key(
        b"System",
        b"Account",
        StorageKind::SingleMap(StorageHasher::Blake2_128Concat),
        &vec![account.clone()],
    )
    .unwrap();
    assert_eq!(key.len(), 32 + 16 + 32);
    assert_eq!(&key[..32], &unhex(&format!("{}{}", SYSTEM, ACCOUNT))[..]);
    assert_eq!(&key[48..], &account[..]);
    assert_ne!(&key[32..48], &account[..16]);
}

#[test]
fn derive_key_is_deterministic() {
    let kind = StorageKind::DoubleMap(StorageHasher::Blake2_128, StorageHasher::Twox64Concat);
    let keys = vec![vec![1u8, 2, 3], vec![4u8, 5]];
    let a = derive_key(b"Module", b"Item", kind, &keys).unwrap();
    let b = derive_key(b"Module", b"Item", kind, &keys).unwrap();
    assert_eq!(a, b);
}

#[test]
fn changing_a_key_changes_the_address() {
    for h in [
        StorageHasher::Blake2_128,
        StorageHasher::Blake2_256,
        StorageHasher::Blake2_128Concat,
        StorageHasher::Twox128,
        StorageHasher::Twox256,
        StorageHasher::Twox64Concat,
        StorageHasher::Identity,
    ] {
        let kind = StorageKind::SingleMap(h);
        let a = derive_key(b"M", b"I", kind, &vec![vec![1u8]]).unwrap();
        let b = derive_key(b"M", b"I", kind, &vec![vec![2u8]]).unwrap();
        assert_ne!(a, b);
    }
}

#[test]
fn hasher_widths() {
    let data = [5u8, 6, 7];
    assert_eq!(hash_key(StorageHasher::Blake2_128, &data).len(), 16);
    assert_eq!(hash_key(StorageHasher::Blake2_256, &data).len(), 32);
    assert_eq!(hash_key(StorageHasher::Twox128, &data).len(), 16);
    assert_eq!(hash_key(StorageHasher::Twox256, &data).len(), 32);
    assert_eq!(hash_key(StorageHasher::Twox64Concat, &data).len(), 11);
    assert_eq!(hash_key(StorageHasher::Blake2_128Concat, &data).len(), 19);
    assert_eq!(hash_key(StorageHasher::Identity, &data), data.to_vec());
}

#[test]
fn twox_128_of_system_is_known() {
    assert_eq!(hash_key(StorageHasher::Twox128, b"System"), unhex(SYSTEM));
}

#[test]
fn arity_mismatch_is_reported() {
    let r = derive_key(b"System", b"Account", StorageKind::Plain, &vec![vec![1u8]]);
    assert_eq!(r, Err(ClientError::KeyArityMismatch));
    let r = derive_key(
        b"System",
        b"Account",
        StorageKind::DoubleMap(StorageHasher::Identity, StorageHasher::Identity),
        &vec![vec![1u8]],
    );
    assert_eq!(r, Err(ClientError::KeyArityMismatch));
}

#[test]
fn metadata_storage_key_lookup() {
    let md = system_metadata();
    let key = md.storage_key(b"System", b"Number", &vec![]).unwrap();
    assert_eq!(key.len(), 32);
    let key = md.storage_key(b"System", b"Pair", &vec![vec![1u8], vec![2u8, 3]]).unwrap();
    assert_eq!(key.len(), 32 + 8 + 1 + 2);
    assert_eq!(&key[40..], &[1u8, 2, 3][..]);
}

#[test]
fn unknown_storage_item_is_reported() {
    let md = system_metadata();
    assert_eq!(md.storage_key(b"System", b"Nope", &vec![]), Err(ClientError::UnknownStorageItem));
    assert_eq!(md.storage_key(b"Nope", b"Number", &vec![]), Err(ClientError::UnknownStorageItem));
    assert_eq!(md.storage_key(b"System", b"Account", &vec![]), Err(ClientError::KeyArityMismatch));
}

#[test]
fn module_lookups() {
    let md = system_metadata();
    assert_eq!(md.module_position(b"System"), Some(0));
    assert!(md.module(b"Balances").is_none());
    assert_eq!(md.storage(b"System", b"Number"), Some(StorageKind::Plain));
    assert_eq!(md.storage(b"System", b"Missing"), None);
    assert_eq!(md.module_position_by_index(0), Some(0));
    assert_eq!(md.module_position_by_index(3), None);
}

#[test]
fn identity_double_map_keys_of_other_lengths_can_collide() {
    let kind = StorageKind::DoubleMap(StorageHasher::Identity, StorageHasher::Identity);
    let a = derive_key(b"M", b"I", kind, &vec![b"ab".to_vec(), b"c".to_vec()]).unwrap();
    let b = derive_key(b"M", b"I", kind, &vec![b"a".to_vec(), b"bc".to_vec()]).unwrap();
    assert_eq!(a, b);
    let c = derive_key(b"M", b"I", kind, &vec![b"ab".to_vec(), b"d".to_vec()]).unwrap();
    assert_ne!(a, c);
}
