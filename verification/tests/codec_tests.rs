use budlum::codec::{
    read_block, read_bytes, read_text, read_transaction, read_u128, read_u64, write_bytes,
    write_text, write_transaction, write_u128, write_u64,
};
use budlum::{Block, Transaction};

fn sample_block() -> Block {
    let txs = vec![
        Transaction::with_timestamp("alice".to_string(), "bob".to_string(), 50, vec![], 11),
        Transaction::with_timestamp(
            "b\u{f6}b".to_string(),
            "carol".to_string(),
            20,
            vec![0, 7, 255],
            u128::MAX,
        ),
    ];
    let mut block = Block::with_timestamp(3, 1700000000000, "ab".repeat(32), txs);
    block.mine(1);
    block
}

#[test]
fn block_survives_the_round_trip() {
    let block = sample_block();
    let decoded = Block::decode(&block.encode()).unwrap();
    assert_eq!(decoded, block);
    assert_eq!(decoded.calculate_hash(), block.hash);
}

#[test]
fn genesis_and_empty_blocks_survive_the_round_trip() {
    let genesis = Block::genesis();
    assert_eq!(Block::decode(&genesis.encode()), Some(genesis));
    let empty = Block::with_timestamp(0, 0, String::new(), vec![]);
    assert_eq!(Block::decode(&empty.encode()), Some(empty));
}

#[test]
fn unsealed_block_survives_the_round_trip_as_it_is() {
    let mut block = sample_block();
    block.hash = "not a hash".to_string();
    let decoded = Block::decode(&block.encode()).unwrap();
    assert_eq!(decoded, block);
    assert_ne!(decoded.calculate_hash(), decoded.hash);
}

#[test]
fn block_layout_is_field_by_field() {
    let tx = Transaction {
        from: "a".to_string(),
        to: "".to_string(),
        amount: 258,
        data: vec![9],
        timestamp: 1,
        hash: "h".to_string(),
    };
    let block = Block {
        index: 1,
        timestamp: 2,
        previous_hash: "p".to_string(),
        hash: "xy".to_string(),
        transactions: vec![tx],
        nonce: 3,
    };
    let mut expected: Vec<u8> = Vec::new();
    expected.extend_from_slice(&[1, 0, 0, 0, 0, 0, 0, 0]);
    expected.extend_from_slice(&[2, 0, 0, 0, 0, 0, 0, 0, 0, 0, 0, 0, 0, 0, 0, 0]);
    expected.extend_from_slice(&[1, 0, 0, 0, 0, 0, 0, 0, b'p']);
    expected.extend_from_slice(&[2, 0, 0, 0, 0, 0, 0, 0, b'x', b'y']);
    expected.extend_from_slice(&[3, 0, 0, 0, 0, 0, 0, 0]);
    expected.extend_from_slice(&[1, 0, 0, 0, 0, 0, 0, 0]);
    expected.extend_from_slice(&[1, 0, 0, 0, 0, 0, 0, 0, b'a']);
    expected.extend_from_slice(&[0, 0, 0, 0, 0, 0, 0, 0]);
    expected.extend_from_slice(&[2, 1, 0, 0, 0, 0, 0, 0]);
    expected.extend_from_slice(&[1, 0, 0, 0, 0, 0, 0, 0, 9]);
    expected.extend_from_slice(&[1, 0, 0, 0, 0, 0, 0, 0, 0, 0, 0, 0, 0, 0, 0, 0]);
    expected.extend_from_slice(&[1, 0, 0, 0, 0, 0, 0, 0, b'h']);
    assert_eq!(block.encode(), expected);
    assert_eq!(Block::decode(&expected), Some(block));
}

#[test]
fn truncated_input_is_no_block() {
    let bytes = sample_block().encode();
    for cut in 0..bytes.len() {
        assert_eq!(Block::decode(&bytes[..cut]), None);
    }
}

#[test]
fn trailing_bytes_are_no_block() {
    let mut bytes = sample_block().encode();
    bytes.push(0);
    assert_eq!(Block::decode(&bytes), None);
    let block = sample_block();
    let (decoded, next) = read_block(&bytes, 0).unwrap();
    assert_eq!(decoded, block);
    assert_eq!(next, bytes.len() - 1);
}

#[test]
fn invalid_utf8_is_no_text() {
    let mut bytes = Vec::new();
    write_bytes(&mut bytes, &[0xff, 0xfe]);
    assert_eq!(read_text(&bytes, 0), None);
    assert_eq!(read_bytes(&bytes, 0), Some((vec![0xff, 0xfe], 10)));
}

#[test]
fn overlong_length_is_rejected() {
    let mut bytes = Vec::new();
    write_u64(&mut bytes, u64::MAX);
    bytes.extend_from_slice(b"abc");
    assert_eq!(read_bytes(&bytes, 0), None);
    let mut block = Block::with_timestamp(0, 0, String::new(), vec![]).encode();
    let at = block.len() - 8;
    block[at..].copy_from_slice(&u64::MAX.to_le_bytes());
    assert_eq!(Block::decode(&block), None);
}

#[test]
fn integers_are_little_endian() {
    let mut bytes = Vec::new();
    write_u64(&mut bytes, 0x0102030405060708);
    assert_eq!(bytes, vec![8, 7, 6, 5, 4, 3, 2, 1]);
    assert_eq!(read_u64(&bytes, 0), Some((0x0102030405060708, 8)));
    let mut wide = Vec::new();
    write_u128(&mut wide, 1 << 120);
    assert_eq!(wide[15], 1);
    assert_eq!(read_u128(&wide, 0), Some((1 << 120, 16)));
    assert_eq!(read_u64(&bytes, 1), None);
    assert_eq!(read_u128(&bytes, 0), None);
}

#[test]
fn readers_start_where_they_are_told() {
    let mut bytes = vec![9u8, 9, 9];
    write_text(&mut bytes, "h\u{e9}llo");
    write_u64(&mut bytes, 5);
    let (text, next) = read_text(&bytes, 3).unwrap();
    assert_eq!(text, "h\u{e9}llo");
    assert_eq!(next, 3 + 8 + 6);
    assert_eq!(read_u64(&bytes, next), Some((5, bytes.len())));
    assert_eq!(read_u64(&bytes, bytes.len()), None);
}

#[test]
fn transaction_survives_the_round_trip() {
    let tx = Transaction::with_timestamp(
        "al\"ice".to_string(),
        "b\u{f6}b".to_string(),
        u64::MAX,
        vec![1, 2, 3],
        12345,
    );
    let mut bytes = Vec::new();
    write_transaction(&mut bytes, &tx);
    assert_eq!(read_transaction(&bytes, 0), Some((tx, bytes.len())));
}
