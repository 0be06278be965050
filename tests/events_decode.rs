use substrate_api_client::error::ClientError;
use substrate_api_client::events::{decode_events, find_event, Phase};
use substrate_api_client::metadata::{ArgShape, EventMetadata, Metadata, ModuleMetadata};
use substrate_api_client::scale::read_compact;

fn metadata() -> Metadata {
    Metadata {
        modules: vec![
            ModuleMetadata {
                name: b"System".to_vec(),
                index: 0,
                storage: vec![],
                calls: vec![],
                events: vec![
                    EventMetadata { name: b"ExtrinsicSuccess".to_vec(), args: vec![ArgShape::Fixed(2)] },
                    EventMetadata { name: b"NewAccount".to_vec(), args: vec![ArgShape::Fixed(32)] },
                ],
            },
            ModuleMetadata {
                name: b"Balances".to_vec(),
                index: 4,
                storage: vec![],
                calls: vec![b"transfer".to_vec()],
                events: vec![EventMetadata {
                    name: b"Transfer".to_vec(),
                    args: vec![ArgShape::Fixed(32), ArgShape::Fixed(32), ArgShape::Compact],
                }],
            },
            ModuleMetadata {
                name: b"Opaque".to_vec(),
                index: 6,
                storage: vec![],
                calls: vec![],
                events: vec![EventMetadata { name: b"Blob".to_vec(), args: vec![ArgShape::Unknown] }],
            },
        ],
    }
}

fn record(buf: &mut Vec<u8>, phase: &[u8], module: u8, variant: u8, payload: &[u8], topics: &[[u8; 32]]) {
    buf.extend_from_slice(phase);
    buf.push(module);
    buf.push(variant);
    buf.extend_from_slice(payload);
    buf.push((topics.len() as u8) << 2);
    for t in topics {
        buf.extend_from_slice(t);
    }
}

fn transfer_payload() -> Vec<u8> {
    let mut p = vec![1u8; 32];
    p.extend_from_slice(&[2u8; 32]);
    // compact 100: two bytes, mode 1
    p.extend_from_slice(&[0x91, 0x01]);
    p
}

#[test]
fn decodes_records_in_order() {
    let mut buf = vec![3u8 << 2];
    record(&mut buf, &[0, 1, 0, 0, 0], 0, 0, &[9, 9], &[]);
    let t_start = buf.len() + 7;
    record(&mut buf, &[0, 2, 0, 0, 0], 4, 0, &transfer_payload(), &[[5u8; 32], [6u8; 32]]);
    record(&mut buf, &[1], 0, 1, &[3u8; 32], &[]);
    let recs = decode_events(&metadata(), &buf).unwrap();
    assert_eq!(recs.len(), 3);
    assert_eq!(recs[0].phase, Phase::ApplyExtrinsic(1));
    assert_eq!((recs[0].payload_start, recs[0].payload_end), (8, 10));
    assert_eq!(recs[1].phase, Phase::ApplyExtrinsic(2));
    assert_eq!((recs[1].module_index, recs[1].variant_index), (4, 0));
    assert_eq!((recs[1].payload_start, recs[1].payload_end), (t_start, t_start + 66));
    assert_eq!(recs[1].topic_count, 2);
    assert_eq!(&buf[recs[1].topics_start..recs[1].topics_start + 32], &[5u8; 32][..]);
    assert_eq!(recs[2].phase, Phase::Finalization);
    assert!(recs.iter().all(|r| r.supported));
    assert_eq!(recs[2].payload_end, buf.len() - 1);
}

#[test]
fn unknown_event_between_known_ones_is_flagged() {
    let mut buf = vec![3u8 << 2];
    record(&mut buf, &[2], 0, 0, &[1, 2], &[]);
    record(&mut buf, &[2], 9, 3, &[], &[[8u8; 32]]);
    record(&mut buf, &[1], 4, 0, &transfer_payload(), &[]);
    let recs = decode_events(&metadata(), &buf).unwrap();
    assert_eq!(recs.len(), 3);
    assert!(recs[0].supported);
    assert!(!recs[1].supported);
    assert_eq!((recs[1].module_index, recs[1].variant_index), (9, 3));
    assert_eq!(recs[1].payload_start, recs[1].payload_end);
    assert_eq!(recs[1].topic_count, 1);
    assert!(recs[2].supported);
    assert_eq!(recs[2].phase, Phase::Finalization);
    assert_eq!(recs[0].phase, Phase::Initialization);
}

#[test]
fn unknown_variant_of_known_module_is_flagged() {
    let mut buf = vec![1u8 << 2];
    record(&mut buf, &[1], 0, 7, &[], &[]);
    let recs = decode_events(&metadata(), &buf).unwrap();
    assert!(!recs[0].supported);
}

#[test]
fn empty_buffer_is_a_decode_error() {
    assert_eq!(decode_events(&metadata(), &[]), Err(ClientError::DecodeError));
}

#[test]
fn zero_records() {
    assert_eq!(decode_events(&metadata(), &[0]).unwrap().len(), 0);
}

#[test]
fn count_past_end_is_a_decode_error() {
    let mut buf = vec![2u8 << 2];
    record(&mut buf, &[1], 0, 0, &[1, 2], &[]);
    assert_eq!(decode_events(&metadata(), &buf), Err(ClientError::DecodeError));
}

#[test]
fn truncated_topics_are_a_decode_error() {
    let mut buf = vec![1u8 << 2];
    record(&mut buf, &[1], 0, 0, &[1, 2], &[[1u8; 32]]);
    buf.pop();
    assert_eq!(decode_events(&metadata(), &buf), Err(ClientError::DecodeError));
}

#[test]
fn bad_phase_is_a_decode_error() {
    let mut buf = vec![1u8 << 2];
    record(&mut buf, &[3], 0, 0, &[1, 2], &[]);
    assert_eq!(decode_events(&metadata(), &buf), Err(ClientError::DecodeError));
}

#[test]
fn argument_of_unknown_width_is_a_decode_error() {
    let mut buf = vec![1u8 << 2];
    record(&mut buf, &[1], 6, 0, &[1, 2], &[]);
    assert_eq!(decode_events(&metadata(), &buf), Err(ClientError::DecodeError));
}

#[test]
fn find_event_returns_payload() {
    let mut buf = vec![2u8 << 2];
    record(&mut buf, &[1], 0, 0, &[1, 2], &[]);
    record(&mut buf, &[1], 4, 0, &transfer_payload(), &[]);
    let ev = find_event(&metadata(), &buf, b"Balances", b"Transfer").unwrap().unwrap();
    assert_eq!(ev.module, b"Balances".to_vec());
    assert_eq!(ev.variant, b"Transfer".to_vec());
    assert_eq!(ev.data, transfer_payload());
    assert_eq!(find_event(&metadata(), &buf, b"Balances", b"Deposit").unwrap(), None);
    assert_eq!(find_event(&metadata(), &[7], b"Balances", b"Transfer"), Err(ClientError::DecodeError));
}

#[test]
fn compact_counts() {
    assert_eq!(read_compact(&[0x04], 0), Some((1, 1)));
    assert_eq!(read_compact(&[0xff, 0x01, 0x01], 1), Some((64, 3)));
    assert_eq!(read_compact(&[0x02, 0x00, 0x01, 0x00], 0), Some((16384, 4)));
    assert_eq!(read_compact(&[0x03, 0x00, 0x00, 0x00, 0x40], 0), Some((1 << 30, 5)));
    assert_eq!(read_compact(&[0x01, 0x00], 0), None);
    assert_eq!(read_compact(&[0x07, 0, 0, 0, 0, 0], 0), None);
    assert_eq!(read_compact(&[0x01], 0), None);
    assert_eq!(read_compact(&[], 0), None);
}

#[test]
fn two_byte_record_count() {
    let mut buf = vec![0x01, 0x01];
    for _ in 0..64 {
        record(&mut buf, &[1], 0, 0, &[1, 2], &[]);
    }
    assert_eq!(decode_events(&metadata(), &buf).unwrap().len(), 64);
}
