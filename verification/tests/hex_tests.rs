use ethers::types::{H160, H256};
use netflow_indexer::hex::to_hex;

#[test]
fn no_bytes_are_the_prefix_alone() {
    assert_eq!(to_hex(&[]), "0x");
}

#[test]
fn each_byte_is_two_lower_case_digits() {
    assert_eq!(to_hex(&[0x00]), "0x00");
    assert_eq!(to_hex(&[0x0a]), "0x0a");
    assert_eq!(to_hex(&[0xa0]), "0xa0");
    assert_eq!(to_hex(&[0xff]), "0xff");
    assert_eq!(to_hex(&[0x01, 0x23, 0x45, 0x67, 0x89, 0xab, 0xcd, 0xef]), "0x0123456789abcdef");
}

#[test]
fn an_address_is_written_as_the_chain_library_shows_it() {
    let bytes: [u8; 20] = [
        0xf9, 0x77, 0x81, 0x4e, 0x90, 0xda, 0x44, 0xbf, 0xa0, 0x3b, 0x62, 0x95, 0xa0, 0x61, 0x6a,
        0x89, 0x74, 0x41, 0xac, 0xec,
    ];
    assert_eq!(to_hex(&bytes), "0xf977814e90da44bfa03b6295a0616a897441acec");
    assert_eq!(to_hex(&bytes), format!("{:?}", H160::from(bytes)));
    assert_eq!(to_hex(&[0u8; 20]), format!("{:?}", H160::zero()));
}

#[test]
fn a_hash_is_written_as_the_chain_library_shows_it() {
    let mut bytes = [0u8; 32];
    for (i, byte) in bytes.iter_mut().enumerate() {
        *byte = (i * 9 + 3) as u8;
    }
    assert_eq!(to_hex(&bytes), format!("{:?}", H256::from(bytes)));
    assert_eq!(to_hex(&bytes).len(), 66);
}
