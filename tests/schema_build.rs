use substrate_api_client::error::ClientError;
use substrate_api_client::events::find_event;
use substrate_api_client::metadata::ArgShape;
use substrate_api_client::schema::{arg_shape, build_metadata};
use substrate_api_client::storage::{StorageHasher, StorageKind};

fn text(out: &mut Vec<u8>, t: &[u8]) {
    assert!(t.len() < 64);
    out.push((t.len() as u8) << 2);
    out.extend_from_slice(t);
}

fn texts(out: &mut Vec<u8>, ts: &[&[u8]]) {
    out.push((ts.len() as u8) << 2);
    for t in ts {
        text(out, t);
    }
}

fn blob(version: u8) -> Vec<u8> {
    let mut b = b"meta".to_vec();
    b.push(version);
    b.push(2 << 2); // two modules
    // System
    text(&mut b, b"System");
    b.push(1); // storage present
    text(&mut b, b"System");
    b.push(2 << 2);
    text(&mut b, b"Account");
    b.push(1); // default modifier
    b.push(1); // map
    b.push(2); // blake2_128_concat
    text(&mut b, b"AccountId");
    text(&mut b, b"AccountInfo");
    b.push(0); // unused flag
    text(&mut b, &[0u8; 4]); // default value
    texts(&mut b, &[b" The full account information."]);
    text(&mut b, b"Number");
    b.push(0); // optional modifier
    b.push(0); // plain
    text(&mut b, b"BlockNumber");
    text(&mut b, &[]);
    texts(&mut b, &[]);
    b.push(1); // calls present
    b.push(1 << 2);
    text(&mut b, b"remark");
    b.push(1 << 2);
    text(&mut b, b"_remark");
    text(&mut b, b"Vec<u8>");
    texts(&mut b, &[b" Make some on-chain remark."]);
    b.push(1); // events present
    b.push(2 << 2);
    text(&mut b, b"ExtrinsicSuccess");
    texts(&mut b, &[b"DispatchInfo"]);
    texts(&mut b, &[]);
    text(&mut b, b"NewAccount");
    texts(&mut b, &[b"AccountId"]);
    texts(&mut b, &[b" A new account was created."]);
    b.push(1 << 2); // one constant
    text(&mut b, b"BlockHashCount");
    text(&mut b, b"BlockNumber");
    text(&mut b, &[0x60, 0, 0, 0]);
    texts(&mut b, &[]);
    b.push(1 << 2); // one error
    text(&mut b, b"InvalidSpecName");
    texts(&mut b, &[]);
    // Balances
    text(&mut b, b"Balances");
    b.push(0); // no storage
    b.push(0); // no calls
    b.push(1);
    b.push(1 << 2);
    text(&mut b, b"Transfer");
    texts(&mut b, &[b"AccountId", b"AccountId", b"Balance", b"Compact<u32>"]);
    texts(&mut b, &[]);
    b.push(0); // no constants
    b.push(0); // no errors
    // transaction format
    b.push(4);
    texts(&mut b, &[b"CheckNonce"]);
    b
}

#[test]
fn builds_modules_from_schema() {
    let md = build_metadata(&blob(11)).unwrap();
    assert_eq!(md.modules.len(), 2);
    let system = &md.modules[0];
    assert_eq!(system.name, b"System".to_vec());
    assert_eq!(system.index, 0);
    assert_eq!(system.storage.len(), 2);
    assert_eq!(system.storage[0].name, b"Account".to_vec());
    assert_eq!(system.storage[0].kind, StorageKind::SingleMap(StorageHasher::Blake2_128Concat));
    assert_eq!(system.storage[1].kind, StorageKind::Plain);
    assert_eq!(system.calls, vec![b"remark".to_vec()]);
    assert_eq!(system.events.len(), 2);
    assert_eq!(system.events[0].args, vec![ArgShape::Unknown]);
    assert_eq!(system.events[1].args, vec![ArgShape::Fixed(32)]);
    let balances = &md.modules[1];
    assert_eq!(balances.index, 1);
    assert!(balances.storage.is_empty());
    assert!(balances.calls.is_empty());
    assert_eq!(
        balances.events[0].args,
        vec![ArgShape::Fixed(32), ArgShape::Fixed(32), ArgShape::Fixed(16), ArgShape::Compact]
    );
}

#[test]
fn built_metadata_drives_lookups_and_decoding() {
    let md = build_metadata(&blob(11)).unwrap();
    let key = md.storage_key(b"System", b"Account", &vec![vec![1u8; 32]]).unwrap();
    assert_eq!(key.len(), 80);
    let mut buf = vec![1u8 << 2, 1, 1, 0];
    buf.extend_from_slice(&[4u8; 32]);
    buf.extend_from_slice(&[5u8; 32]);
    buf.extend_from_slice(&[6u8; 16]);
    buf.push(8 << 2);
    buf.push(0);
    let ev = find_event(&md, &buf, b"Balances", b"Transfer").unwrap().unwrap();
    assert_eq!(ev.data.len(), 81);
}

#[test]
fn other_version_is_unsupported() {
    assert_eq!(build_metadata(&blob(12)).err(), Some(ClientError::UnsupportedSchemaVersion));
    assert_eq!(build_metadata(&blob(10)).err(), Some(ClientError::UnsupportedSchemaVersion));
}

#[test]
fn bad_magic_is_malformed() {
    let mut b = blob(11);
    b[0] = b'x';
    assert_eq!(build_metadata(&b).err(), Some(ClientError::MalformedSchema));
    assert_eq!(build_metadata(b"met").err(), Some(ClientError::MalformedSchema));
}

#[test]
fn truncated_schema_is_malformed() {
    let b = blob(11);
    for cut in [6, 20, b.len() / 2, b.len() - 1] {
        assert_eq!(build_metadata(&b[..cut]).err(), Some(ClientError::MalformedSchema));
    }
}

#[test]
fn bad_hasher_is_malformed() {
    let mut b = blob(11);
    let at = b.windows(9).position(|w| w == b"AccountId").unwrap() - 2;
    assert_eq!(b[at], 2);
    b[at] = 9;
    assert_eq!(build_metadata(&b).err(), Some(ClientError::MalformedSchema));
}

#[test]
fn argument_shapes_by_type_name() {
    assert_eq!(arg_shape(b"bool"), ArgShape::Fixed(1));
    assert_eq!(arg_shape(b"u8"), ArgShape::Fixed(1));
    assert_eq!(arg_shape(b"u16"), ArgShape::Fixed(2));
    assert_eq!(arg_shape(b"u32"), ArgShape::Fixed(4));
    assert_eq!(arg_shape(b"u64"), ArgShape::Fixed(8));
    assert_eq!(arg_shape(b"u128"), ArgShape::Fixed(16));
    assert_eq!(arg_shape(b"Balance"), ArgShape::Fixed(16));
    assert_eq!(arg_shape(b"AccountId"), ArgShape::Fixed(32));
    assert_eq!(arg_shape(b"Hash"), ArgShape::Fixed(32));
    assert_eq!(arg_shape(b"Compact<Balance>"), ArgShape::Compact);
    assert_eq!(arg_shape(b"Compact"), ArgShape::Unknown);
    assert_eq!(arg_shape(b"Vec<u8>"), ArgShape::Unknown);
}
