use budlum::hash::calculate_hash;
use budlum::transaction::frame_record;
use budlum::Transaction;

#[test]
fn test_transaction_hash_consistency() {
    let tx = Transaction::new(
        "alice".to_string(),
        "bob".to_string(),
        100,
        b"test".to_vec(),
    );

    assert_eq!(tx.hash, tx.calculate_hash());
    assert!(!tx.hash.is_empty());
}

#[test]
fn new_transaction_keeps_its_fields_and_is_sealed() {
    let tx = Transaction::new("alice".to_string(), "bob".to_string(), 7, vec![1, 2, 3]);
    assert_eq!(tx.from, "alice");
    assert_eq!(tx.to, "bob");
    assert_eq!(tx.amount, 7);
    assert_eq!(tx.data, vec![1, 2, 3]);
    assert!(tx.is_sealed());
    assert!(tx.timestamp > 1_600_000_000_000);
}

#[test]
fn preimage_is_the_fields_in_order() {
    let tx = Transaction::with_timestamp(
        "alice".to_string(),
        "bob".to_string(),
        100,
        b"test".to_vec(),
        1700000000000,
    );
    assert_eq!(
        tx.preimage(),
        b"alicebob100746573741700000000000".to_vec()
    );
}

#[test]
fn hash_is_the_digest_of_the_preimage() {
    let tx = Transaction::with_timestamp(
        "alice".to_string(),
        "bob".to_string(),
        100,
        b"test".to_vec(),
        1700000000000,
    );
    assert_eq!(tx.hash, calculate_hash(b"alicebob100746573741700000000000"));
    assert_eq!(tx.hash.len(), 64);
}

#[test]
fn payload_enters_the_preimage_in_lowercase_hex() {
    let tx = Transaction::with_timestamp(String::new(), String::new(), 0, vec![0, 15, 16, 255], 0);
    assert_eq!(tx.preimage(), b"0000f10ff0".to_vec());
}

#[test]
fn non_ascii_parties_enter_the_preimage_as_utf8() {
    let tx = Transaction::with_timestamp("\u{e9}".to_string(), "z".to_string(), 1, vec![], 2);
    assert_eq!(tx.preimage(), vec![0xc3, 0xa9, b'z', b'1', b'2']);
}

#[test]
fn transaction_hash_changes_with_each_hashed_field() {
    let base = Transaction::with_timestamp("a".to_string(), "b".to_string(), 1, vec![1], 5);
    let from = Transaction::with_timestamp("x".to_string(), "b".to_string(), 1, vec![1], 5);
    let to = Transaction::with_timestamp("a".to_string(), "x".to_string(), 1, vec![1], 5);
    let amount = Transaction::with_timestamp("a".to_string(), "b".to_string(), 2, vec![1], 5);
    let data = Transaction::with_timestamp("a".to_string(), "b".to_string(), 1, vec![2], 5);
    let time = Transaction::with_timestamp("a".to_string(), "b".to_string(), 1, vec![1], 6);
    for other in [&from, &to, &amount, &data, &time] {
        assert_ne!(base.hash, other.hash);
    }
}

#[test]
fn tampering_unseals_a_transaction() {
    let mut tx = Transaction::with_timestamp("a".to_string(), "b".to_string(), 1, vec![], 5);
    assert!(tx.is_sealed());
    tx.amount = 1_000_000;
    assert!(!tx.is_sealed());
    assert_ne!(tx.hash, tx.calculate_hash());
}

#[test]
fn genesis_transaction_is_fixed() {
    let tx = Transaction::genesis();
    assert_eq!(tx.from, "genesis");
    assert_eq!(tx.to, "genesis");
    assert_eq!(tx.amount, 0);
    assert_eq!(tx.data, b"Budlum Genesis Block".to_vec());
    assert_eq!(tx.timestamp, 0);
    assert!(tx.is_sealed());
    assert_eq!(tx, Transaction::genesis());
}

#[test]
fn record_is_a_json_object_in_field_order() {
    let tx = Transaction::with_timestamp(
        "alice".to_string(),
        "bob".to_string(),
        50,
        vec![1, 2, 255],
        1700000000000,
    );
    let expected = format!(
        "{{\"from\":\"alice\",\"to\":\"bob\",\"amount\":50,\"data\":[1,2,255],\"timestamp\":1700000000000,\"hash\":\"{}\"}}",
        tx.hash
    );
    assert_eq!(String::from_utf8(tx.to_bytes()).unwrap(), expected);
}

#[test]
fn record_with_empty_payload() {
    let tx = Transaction::with_timestamp("a".to_string(), "b".to_string(), 0, vec![], 0);
    let expected = format!(
        "{{\"from\":\"a\",\"to\":\"b\",\"amount\":0,\"data\":[],\"timestamp\":0,\"hash\":\"{}\"}}",
        tx.hash
    );
    assert_eq!(String::from_utf8(tx.to_bytes()).unwrap(), expected);
}

#[test]
fn record_escapes_text_as_json() {
    let tx = Transaction::with_timestamp(
        "al\"ice".to_string(),
        "b\\o\nb".to_string(),
        1,
        vec![],
        2,
    );
    let text = String::from_utf8(tx.to_bytes()).unwrap();
    assert!(text.starts_with("{\"from\":\"al\\\"ice\",\"to\":\"b\\\\o\\nb\",\"amount\":1,"));
}

#[test]
fn record_parses_back_as_json() {
    let tx = Transaction::with_timestamp(
        "al\"ice \u{e9}".to_string(),
        "bob\t".to_string(),
        50,
        vec![0, 7],
        1700000000000,
    );
    let value: serde_json::Value = serde_json::from_slice(&tx.to_bytes()).unwrap();
    assert_eq!(value["from"].as_str(), Some("al\"ice \u{e9}"));
    assert_eq!(value["to"].as_str(), Some("bob\t"));
    assert_eq!(value["amount"].as_u64(), Some(50));
    assert_eq!(value["timestamp"].as_u64(), Some(1700000000000));
    assert_eq!(value["hash"].as_str(), Some(tx.hash.as_str()));
    let data: Vec<u64> = value["data"]
        .as_array()
        .unwrap()
        .iter()
        .map(|v| v.as_u64().unwrap())
        .collect();
    assert_eq!(data, vec![0, 7]);
}

#[test]
fn frame_record_lays_out_the_given_parts() {
    let out = frame_record(b"\"f\"", b"\"t\"", 3, &[9, 8], 4, b"\"h\"");
    assert_eq!(
        String::from_utf8(out).unwrap(),
        "{\"from\":\"f\",\"to\":\"t\",\"amount\":3,\"data\":[9,8],\"timestamp\":4,\"hash\":\"h\"}"
    );
}

#[test]
fn transaction_clone_and_equality_go_by_value() {
    let tx = Transaction::with_timestamp("a".to_string(), "b".to_string(), 1, vec![1, 2], 5);
    let copy = tx.clone();
    assert_eq!(tx, copy);
    let mut other = tx.clone();
    other.data = vec![1, 3];
    assert_ne!(tx, other);
    let mut shorter = tx.clone();
    shorter.data = vec![1];
    assert_ne!(tx, shorter);
}

fn json_literal(text: &str) -> Vec<u8> {
    let mut out = vec![b'"'];
    for c in text.chars() {
        match c {
            '"' => out.extend_from_slice(b"\\\""),
            '\\' => out.extend_from_slice(b"\\\\"),
            '\u{8}' => out.extend_from_slice(b"\\b"),
            '\u{c}' => out.extend_from_slice(b"\\f"),
            '\n' => out.extend_from_slice(b"\\n"),
            '\r' => out.extend_from_slice(b"\\r"),
            '\t' => out.extend_from_slice(b"\\t"),
            c if (c as u32) < 32 => {
                out.extend_from_slice(b"\\u00");
                out.push(b"0123456789abcdef"[(c as usize) / 16]);
                out.push(b"0123456789abcdef"[(c as usize) % 16]);
            }
            c => out.extend_from_slice(c.to_string().as_bytes()),
        }
    }
    out.push(b'"');
    out
}

fn record_of(from: &str) -> Vec<u8> {
    let tx = Transaction {
        from: from.to_string(),
        to: String::new(),
        amount: 0,
        data: vec![],
        timestamp: 0,
        hash: String::new(),
    };
    tx.to_bytes()
}

#[test]
fn record_quotes_every_character_by_the_escape_rules() {
    let mut samples: Vec<String> = (0u32..=0x7f)
        .map(|code| char::from_u32(code).unwrap().to_string())
        .collect();
    samples.push("\u{7f}\u{80}\u{e9}\u{20ac}\u{1f600}".to_string());
    samples.push("a\"b\\c\u{1}d\u{1f}e".to_string());
    samples.push(String::new());
    for sample in samples {
        let mut expected = b"{\"from\":".to_vec();
        expected.extend_from_slice(&json_literal(&sample));
        expected.extend_from_slice(
            b",\"to\":\"\",\"amount\":0,\"data\":[],\"timestamp\":0,\"hash\":\"\"}",
        );
        assert_eq!(record_of(&sample), expected);
    }
}
