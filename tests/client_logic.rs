use substrate_api_client::account::{decode_account_info, nonce_from_storage, read_le};
use substrate_api_client::error::ClientError;
use substrate_api_client::response::parse_storage_response;

fn account_bytes(nonce: u32) -> Vec<u8> {
    let mut b = nonce.to_le_bytes().to_vec();
    b.extend_from_slice(&3u32.to_le_bytes());
    b.extend_from_slice(&1000u128.to_le_bytes());
    b.extend_from_slice(&20u128.to_le_bytes());
    b.extend_from_slice(&5u128.to_le_bytes());
    b.extend_from_slice(&u128::MAX.to_le_bytes());
    b
}

#[test]
fn null_storage_is_none() {
    assert_eq!(parse_storage_response(b"null"), Ok(None));
    assert_eq!(parse_storage_response(b"\"null\""), Ok(None));
}

#[test]
fn hex_storage_is_decoded() {
    assert_eq!(parse_storage_response(b"\"0x0102ff\""), Ok(Some(vec![1u8, 2, 255])));
    assert_eq!(parse_storage_response(b"0xABcd"), Ok(Some(vec![0xab, 0xcd])));
    assert_eq!(parse_storage_response(b"10"), Ok(Some(vec![0x10])));
    assert_eq!(parse_storage_response(b"0x"), Ok(Some(vec![])));
}

#[test]
fn bad_storage_text_is_a_decode_error() {
    assert_eq!(parse_storage_response(b"0x123"), Err(ClientError::DecodeError));
    assert_eq!(parse_storage_response(b"0xzz"), Err(ClientError::DecodeError));
    assert_eq!(parse_storage_response(b"nul"), Err(ClientError::DecodeError));
}

#[test]
fn nonce_without_record_is_zero() {
    assert_eq!(nonce_from_storage(true, None), Ok(0));
}

#[test]
fn nonce_without_signer_is_a_configuration_error() {
    assert_eq!(nonce_from_storage(false, None), Err(ClientError::ConfigurationError));
    assert_eq!(
        nonce_from_storage(false, Some(&account_bytes(5))),
        Err(ClientError::ConfigurationError)
    );
}

#[test]
fn nonce_from_record() {
    assert_eq!(nonce_from_storage(true, Some(&account_bytes(0x01020304))), Ok(0x01020304));
    assert_eq!(nonce_from_storage(true, Some(&[1u8, 2, 3])), Err(ClientError::DecodeError));
}

#[test]
fn account_info_fields() {
    let info = decode_account_info(&account_bytes(7)).unwrap();
    assert_eq!(info.nonce, 7);
    assert_eq!(info.refcount, 3);
    assert_eq!(info.data.free, 1000);
    assert_eq!(info.data.reserved, 20);
    assert_eq!(info.data.misc_frozen, 5);
    assert_eq!(info.data.fee_frozen, u128::MAX);
    assert_eq!(decode_account_info(&[0u8; 71]), Err(ClientError::DecodeError));
}

#[test]
fn little_endian_reads() {
    assert_eq!(read_le(&[0x01, 0x02, 0x03], 1, 2), 0x0302);
    assert_eq!(read_le(&[0xff; 16], 0, 16), u128::MAX);
    assert_eq!(read_le(&[9], 0, 0), 0);
}

#[test]
fn quoted_hex_of_any_bytes_reads_back() {
    let bytes: Vec<u8> = (0u8..=255).collect();
    let text = format!("\"0x{}\"", hex::encode(&bytes));
    assert_eq!(parse_storage_response(text.as_bytes()), Ok(Some(bytes)));
}
