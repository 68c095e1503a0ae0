use ethers::abi::{decode, ParamType, Token};
use ethers::types::{H160, U256};
use ethers::utils::keccak256;
use netflow_indexer::amount::Amount;
use netflow_indexer::decoder::{decode_log, transfer_topic, DecodeError, RawLog};
use netflow_indexer::hex::to_hex;

fn padded(address: [u8; 20]) -> [u8; 32] {
    let mut word = [0u8; 32];
    word[12..].copy_from_slice(&address);
    word
}

fn word_of(value: u64) -> Vec<u8> {
    let mut word = vec![0u8; 24];
    word.extend_from_slice(&value.to_be_bytes());
    word
}

fn sample() -> RawLog {
    RawLog {
        topics: vec![transfer_topic(), padded([0xaa; 20]), padded([0xbb; 20])],
        data: word_of(1000),
        block_number: Some(10),
        transaction_hash: Some([0x11; 32]),
    }
}

#[test]
fn transfer_topic_is_the_hash_of_the_signature() {
    assert_eq!(transfer_topic(), keccak256("Transfer(address,address,uint256)".as_bytes()));
}

#[test]
fn decodes_a_transfer() {
    let transfer = decode_log(&sample()).unwrap();
    assert_eq!(transfer.from, [0xaa; 20]);
    assert_eq!(transfer.to, [0xbb; 20]);
    assert_eq!(transfer.value.to_decimal_string(), "1000");
}

#[test]
fn decoding_needs_neither_block_nor_transaction() {
    let mut log = sample();
    log.block_number = None;
    log.transaction_hash = None;
    assert_eq!(decode_log(&log), decode_log(&sample()));
}

#[test]
fn bytes_before_an_address_are_not_looked_at() {
    let mut log = sample();
    log.topics[1][0] = 0xff;
    log.topics[2][11] = 0x01;
    let transfer = decode_log(&log).unwrap();
    assert_eq!(transfer.from, [0xaa; 20]);
    assert_eq!(transfer.to, [0xbb; 20]);
}

#[test]
fn data_after_the_first_word_are_not_looked_at() {
    let mut log = sample();
    log.data.extend_from_slice(&[0xff; 40]);
    assert_eq!(decode_log(&log).unwrap().value.to_decimal_string(), "1000");
}

#[test]
fn a_full_word_is_a_value_beyond_64_bits() {
    let mut log = sample();
    log.data = vec![0xff; 32];
    assert_eq!(
        decode_log(&log).unwrap().value.to_decimal_string(),
        "115792089237316195423570985008687907853269984665640564039457584007913129639935"
    );
}

#[test]
fn no_topic_is_a_signature_mismatch() {
    let mut log = sample();
    log.topics.clear();
    assert_eq!(decode_log(&log), Err(DecodeError::SignatureMismatch));
}

#[test]
fn another_event_is_a_signature_mismatch() {
    let mut log = sample();
    log.topics[0][31] ^= 1;
    assert_eq!(decode_log(&log), Err(DecodeError::SignatureMismatch));
    let mut log = sample();
    log.topics[0] = keccak256("Approval(address,address,uint256)".as_bytes());
    assert_eq!(decode_log(&log), Err(DecodeError::SignatureMismatch));
    log.data.clear();
    assert_eq!(decode_log(&log), Err(DecodeError::SignatureMismatch));
}

#[test]
fn a_wrong_number_of_topics_is_an_error() {
    for count in [1usize, 2, 4, 5] {
        let mut log = sample();
        log.topics.resize(count, padded([0xcc; 20]));
        assert_eq!(decode_log(&log), Err(DecodeError::TopicCount));
        log.data.clear();
        assert_eq!(decode_log(&log), Err(DecodeError::TopicCount));
    }
}

#[test]
fn data_shorter_than_a_word_is_an_error() {
    for len in [0usize, 1, 31] {
        let mut log = sample();
        log.data.truncate(len);
        assert_eq!(decode_log(&log), Err(DecodeError::ShortData));
    }
}

#[test]
fn agrees_with_the_abi_decoder() {
    let mut seed: u32 = 99;
    for _ in 0..20 {
        let mut log = sample();
        for word in log.topics.iter_mut().skip(1) {
            for byte in word.iter_mut() {
                seed = seed.wrapping_mul(1103515245).wrapping_add(12345);
                *byte = (seed >> 16) as u8;
            }
        }
        for byte in log.data.iter_mut() {
            seed = seed.wrapping_mul(1103515245).wrapping_add(12345);
            *byte = (seed >> 16) as u8;
        }
        let flat: Vec<u8> = log.topics.iter().skip(1).flat_map(|t| t.to_vec()).collect();
        let topics = decode(&[ParamType::Address, ParamType::Address], &flat).unwrap();
        let data = decode(&[ParamType::Uint(256)], &log.data).unwrap();
        let ours = decode_log(&log).unwrap();
        assert_eq!(topics[0], Token::Address(H160::from(ours.from)));
        assert_eq!(topics[1], Token::Address(H160::from(ours.to)));
        let theirs: U256 = data[0].clone().into_uint().unwrap();
        assert_eq!(ours.value.to_decimal_string(), theirs.to_string());
        assert_eq!(ours.value, Amount::parse(&theirs.to_string()));
        assert_eq!(to_hex(&ours.from), format!("{:?}", H160::from(ours.from)));
    }
}
