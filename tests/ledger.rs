use rust_block::block::Block;
use rust_block::chain::{BlockChain, LinkageError, LoadError};
use rust_block::document::{BlockError, Field};
use rust_block::hash::{Hash256, HASH256_BYTES};
use rust_block::hex::{FromHex, FromHexError, ToHex};
use rust_block::transaction::Transaction;

fn block_digest(b: &Block) -> [u8; HASH256_BYTES] {
    let mut d = [0u8; HASH256_BYTES];
    b.get_hash(&mut d);
    d
}

fn tx_digest(t: &Transaction) -> [u8; HASH256_BYTES] {
    let mut d = [0u8; HASH256_BYTES];
    t.get_hash(&mut d);
    d
}

fn document(version: u32, timestamp: u64, previous: &[u8], merkle_root: &[u8]) -> String {
    format!(
        "---\nversion: {}\ntimestamp: {}\nprevious: {}\nmerkle_root: {}\n",
        version,
        timestamp,
        previous.to_hex(),
        merkle_root.to_hex()
    )
}

#[test]
fn to_hex_lowercase_two_digits_per_byte() {
    let b: &[u8] = &[0x00, 0x0f, 0xab, 0xff, 0x10];
    assert_eq!(b.to_hex(), "000fabff10");
    let empty: &[u8] = &[];
    assert_eq!(empty.to_hex(), "");
}

#[test]
fn hex_round_trip() {
    let all: Vec<u8> = (0..=255u8).collect();
    let hex = all.as_slice().to_hex();
    assert_eq!(hex.len(), 512);
    assert_eq!(hex.as_str().from_hex().unwrap(), all);
}

#[test]
fn hex_whitespace_tolerance() {
    assert_eq!("ab cd\n".from_hex().unwrap(), vec![0xAB, 0xCD]);
    assert_eq!("abcd".from_hex().unwrap(), vec![0xAB, 0xCD]);
    assert_eq!(" a\tb\r\n c d ".from_hex().unwrap(), vec![0xAB, 0xCD]);
    assert_eq!("ABcD".from_hex().unwrap(), vec![0xAB, 0xCD]);
}

#[test]
fn hex_error_cases() {
    assert_eq!("zz".from_hex(), Err(FromHexError::InvalidHexCharacter('z', 0)));
    assert_eq!("abc".from_hex(), Err(FromHexError::InvalidHexLength));
    assert_eq!("ab x".from_hex(), Err(FromHexError::InvalidHexCharacter('x', 3)));
    assert_eq!("a".from_hex(), Err(FromHexError::InvalidHexLength));
    assert_eq!("".from_hex(), Ok(vec![]));
}

#[test]
fn hash_of_nothing_is_blake2s_of_empty_input() {
    let mut h = Hash256::new();
    let mut d = [0u8; HASH256_BYTES];
    h.finalize(&mut d);
    assert_eq!(
        d.to_hex(),
        "69217a3079908094e11121d042354a7c1f55b6482ca1a51e1b250dfd1ed0eef9"
    );
}

#[test]
fn hash_reset_and_finalize_keep_input() {
    let mut h = Hash256::new();
    h.write(b"abc");
    let mut d1 = [0u8; HASH256_BYTES];
    let mut d2 = [0u8; HASH256_BYTES];
    h.finalize(&mut d1);
    h.finalize(&mut d2);
    assert_eq!(d1, d2);
    assert_eq!(
        d1.to_hex(),
        "508c5e8c327c14e2e1a72ba34eeb452f37458b209ed63a294d999b4c86675982"
    );
    h.reset();
    let mut d3 = [0u8; HASH256_BYTES];
    h.finalize(&mut d3);
    assert_eq!(
        d3.to_hex(),
        "69217a3079908094e11121d042354a7c1f55b6482ca1a51e1b250dfd1ed0eef9"
    );
}

#[test]
fn little_endian_writes() {
    let mut a = Hash256::new();
    a.write_u32_le(0x0403_0201);
    a.write_u64_le(0x0c0b_0a09_0807_0605);
    let mut b = Hash256::new();
    b.write(&[1, 2, 3, 4, 5, 6, 7, 8, 9, 10, 11, 12]);
    let (mut da, mut db) = ([0u8; 32], [0u8; 32]);
    a.finalize(&mut da);
    b.finalize(&mut db);
    assert_eq!(da, db);
}

#[test]
fn block_digest_covers_the_header_bytes() {
    let mut b = Block::new();
    b.set_timestamp(7);
    let mut prev = [0u8; 32];
    prev[0] = 0xaa;
    b.set_previous(&prev);
    let mut h = Hash256::new();
    h.write(&[1, 0, 0, 0]);
    h.write(&[7, 0, 0, 0, 0, 0, 0, 0]);
    h.write(&prev);
    h.write(&[0u8; 32]);
    let mut expected = [0u8; 32];
    h.finalize(&mut expected);
    assert_eq!(block_digest(&b), expected);
    assert_eq!(b.get_previous(), &prev[..]);
}

#[test]
fn block_digest_ignores_transactions() {
    let b = Block::new();
    let mut c = Block::new();
    let mut t = Transaction::new();
    t.add_output(5);
    c.add_transaction(t);
    assert_eq!(block_digest(&b), block_digest(&c));
}

#[test]
fn transaction_digest_covers_its_fields() {
    let mut t = Transaction::new();
    t.set_timestamp(1_500_000_000);
    t.add_output(10);
    t.add_output(20);
    let mut h = Hash256::new();
    h.write_u32_le(1);
    h.write_u64_le(1_500_000_000);
    h.write_u64_le(10);
    h.write_u64_le(20);
    let mut expected = [0u8; 32];
    h.finalize(&mut expected);
    assert_eq!(tx_digest(&t), expected);
}

#[test]
fn transaction_digest_is_deterministic() {
    let mut t = Transaction::new();
    t.set_timestamp(42);
    t.add_output(100);
    assert_eq!(tx_digest(&t), tx_digest(&t));
    let mut u = Transaction::new();
    u.set_timestamp(42);
    u.add_output(100);
    assert_eq!(tx_digest(&t), tx_digest(&u));
}

#[test]
fn transaction_digest_is_sensitive() {
    let base = {
        let mut t = Transaction::new();
        t.add_output(1);
        t.add_output(2);
        t
    };
    let mut ts = Transaction::new();
    ts.set_timestamp(1);
    ts.add_output(1);
    ts.add_output(2);
    let mut amount = Transaction::new();
    amount.add_output(1);
    amount.add_output(3);
    let mut order = Transaction::new();
    order.add_output(2);
    order.add_output(1);
    assert_ne!(tx_digest(&base), tx_digest(&ts));
    assert_ne!(tx_digest(&base), tx_digest(&amount));
    assert_ne!(tx_digest(&base), tx_digest(&order));
}

#[test]
fn genesis_rule() {
    let mut chain = BlockChain::new();
    let mut bad = Block::new();
    let mut prev = [0u8; 32];
    prev[31] = 1;
    bad.set_previous(&prev);
    assert_eq!(
        chain.append(bad),
        Err(LinkageError { expected: [0u8; 32], actual: prev })
    );
    assert_eq!(chain.len(), 0);
    assert_eq!(chain.append(Block::new()), Ok(()));
    assert_eq!(chain.len(), 1);
    let mut second_zero = Block::new();
    second_zero.set_timestamp(9);
    assert!(chain.append(second_zero).is_err());
    assert_eq!(chain.len(), 1);
}

#[test]
fn linkage_rule() {
    let mut chain = BlockChain::new();
    let a = Block::new();
    let h_a = block_digest(&a);
    chain.append(a).unwrap();
    let mut wrong = Block::new();
    let mut other = h_a;
    other[0] ^= 1;
    wrong.set_previous(&other);
    assert_eq!(
        chain.append(wrong),
        Err(LinkageError { expected: h_a, actual: other })
    );
    assert_eq!(chain.len(), 1);
    let mut b = Block::new();
    b.set_previous(&h_a);
    assert_eq!(chain.append(b), Ok(()));
    assert_eq!(chain.len(), 2);
    assert_eq!(block_digest(chain.get(0)), h_a);
}

#[test]
fn end_to_end_render() {
    let mut chain = BlockChain::new();
    let a = Block::new();
    assert_eq!(chain.append(a), Ok(()));
    let h_a = block_digest(chain.get(0));
    let mut b = Block::new();
    b.set_timestamp(1);
    b.set_previous(&h_a);
    let h_b = block_digest(&b);
    assert_eq!(chain.append(b), Ok(()));
    assert_eq!(chain.len(), 2);
    let expected = format!("00000000: {}\n00000001: {}\n", h_a.to_hex(), h_b.to_hex());
    assert_eq!(chain.render(), expected);
    assert_eq!(BlockChain::new().render(), "");
}

#[test]
fn truncated_load() {
    let zero = [0u8; 32];
    let mut a = Block::new();
    a.set_timestamp(100);
    let h_a = block_digest(&a);
    let wrong = [7u8; 32];
    let mut c = Block::from_parts(1, 300, zero, zero);
    c.set_previous(&h_a);
    let text = format!(
        "preamble\n{}{}{}",
        document(1, 100, &zero, &zero),
        document(1, 200, &wrong, &zero),
        document(1, 300, &h_a, &zero)
    );
    let mut chain = BlockChain::new();
    let r = chain.load(&text);
    assert_eq!(
        r,
        Err(LoadError::Linkage(2, LinkageError { expected: h_a, actual: wrong }))
    );
    assert_eq!(chain.len(), 1);
    assert_eq!(block_digest(chain.get(0)), h_a);
}

#[test]
fn load_builds_a_linked_chain() {
    let zero = [0u8; 32];
    let a = Block::from_parts(1, 10, zero, zero);
    let h_a = block_digest(&a);
    let b = Block::from_parts(1, 20, h_a, zero);
    let h_b = block_digest(&b);
    let text = format!("{}{}", document(1, 10, &zero, &zero), document(1, 20, &h_a, &zero));
    let mut chain = BlockChain::new();
    assert_eq!(chain.load(&text), Ok(()));
    assert_eq!(chain.len(), 2);
    assert_eq!(
        chain.render(),
        format!("00000000: {}\n00000001: {}\n", h_a.to_hex(), h_b.to_hex())
    );
}

#[test]
fn load_stops_at_a_malformed_document() {
    let zero = [0u8; 32];
    let text = format!(
        "{}---\nversion: 1\n{}",
        document(1, 10, &zero, &zero),
        document(1, 20, &zero, &zero)
    );
    let mut chain = BlockChain::new();
    assert_eq!(
        chain.load(&text),
        Err(LoadError::Document(2, BlockError::MissingField(Field::Timestamp)))
    );
    assert_eq!(chain.len(), 1);
}

#[test]
fn load_of_preamble_only() {
    let mut chain = BlockChain::new();
    assert_eq!(chain.load("nothing here"), Ok(()));
    assert_eq!(chain.load(""), Ok(()));
    assert_eq!(chain.len(), 0);
}

#[test]
fn deserialize_reads_the_four_fields() {
    let prev = [0x11u8; 32];
    let merkle = [0x22u8; 32];
    let text = format!(
        "\nVersion: 3\n  TIMESTAMP : 1500000000 \nprevious: \"{}\"\nMerkle_Root: '{}'\n\n",
        prev.to_hex(),
        merkle.to_hex()
    );
    let b = Block::deserialize(&text).unwrap();
    assert_eq!(block_digest(&b), block_digest(&Block::from_parts(3, 1_500_000_000, prev, merkle)));
    assert_eq!(b.get_previous(), &prev[..]);
}

#[test]
fn deserialize_errors() {
    let z = "0".repeat(64);
    let ok = |v: &str, t: &str, p: &str, m: &str| {
        format!("version: {}\ntimestamp: {}\nprevious: {}\nmerkle_root: {}\n", v, t, p, m)
    };
    assert!(Block::deserialize(&ok("1", "2", &z, &z)).is_ok());
    assert_eq!(
        Block::deserialize(&format!("{}version: 1\n", ok("1", "2", &z, &z))).err(),
        Some(BlockError::DuplicateField(Field::Version))
    );
    assert_eq!(
        Block::deserialize(&format!("version: 1\ntimestamp: 2\nprevious: {}\n", z)).err(),
        Some(BlockError::MissingField(Field::MerkleRoot))
    );
    assert_eq!(
        Block::deserialize("timestamp: 2\n").err(),
        Some(BlockError::MissingField(Field::Version))
    );
    assert_eq!(
        Block::deserialize(&format!("{}height: 4\n", ok("1", "2", &z, &z))).err(),
        Some(BlockError::UnknownField)
    );
    assert_eq!(
        Block::deserialize("version 1\n").err(),
        Some(BlockError::MalformedLine)
    );
    assert_eq!(
        Block::deserialize(&ok("4294967296", "2", &z, &z)).err(),
        Some(BlockError::InvalidNumber(Field::Version))
    );
    assert_eq!(
        Block::deserialize(&ok("1", "-2", &z, &z)).err(),
        Some(BlockError::InvalidNumber(Field::Timestamp))
    );
    assert_eq!(
        Block::deserialize(&ok("1", "18446744073709551616", &z, &z)).err(),
        Some(BlockError::InvalidNumber(Field::Timestamp))
    );
    assert!(Block::deserialize(&ok("4294967295", "18446744073709551615", &z, &z)).is_ok());
    assert_eq!(
        Block::deserialize(&ok("1", "2", "zz", &z)).err(),
        Some(BlockError::Hex(FromHexError::InvalidHexCharacter('z', 0)))
    );
    assert_eq!(
        Block::deserialize(&ok("1", "2", &z, "abcd")).err(),
        Some(BlockError::Hex(FromHexError::InvalidHexLength))
    );
}

#[test]
fn transaction_render() {
    let mut t = Transaction::new();
    t.set_timestamp(1234);
    t.add_output(50);
    t.add_output(7);
    let expected = format!(
        "  tx _hash:    {}\n  version:     1\n  timestamp:   1234\n  inputs:\n  outputs:\n    amount: 50\n    amount: 7\n\n",
        tx_digest(&t).to_hex()
    );
    assert_eq!(t.render(), expected);
}

#[test]
fn block_render() {
    let mut b = Block::new();
    b.set_timestamp(99);
    let mut t = Transaction::new();
    t.add_output(3);
    let t_text = t.render();
    b.add_transaction(t);
    let zeros = "0".repeat(64);
    let expected = format!(
        "block _hash: {}\nversion:     1\ntimestamp:   99\nprevious:    {}\nmerkle_root: {}\ntransactions:\n{}\n",
        block_digest(&b).to_hex(),
        zeros,
        zeros,
        t_text
    );
    assert_eq!(b.render(), expected);
}

#[test]
fn hex_error_messages() {
    let e = FromHexError::InvalidHexCharacter('z', 12);
    assert_eq!(e.message(), "Invalid character 'z' at position 12");
    assert_eq!(e.description(), "invalid character");
    assert_eq!(FromHexError::InvalidHexLength.message(), "Invalid input length");
    assert_eq!(FromHexError::InvalidHexLength.description(), "invalid length");
}

#[test]
fn render_pads_positions_to_eight_digits() {
    let mut chain = BlockChain::new();
    let mut prev = [0u8; 32];
    for i in 0..12u64 {
        let mut b = Block::new();
        b.set_timestamp(i);
        b.set_previous(&prev);
        prev = block_digest(&b);
        chain.append(b).unwrap();
    }
    let text = chain.render();
    let lines: Vec<&str> = text.lines().collect();
    assert_eq!(lines.len(), 12);
    assert!(lines[0].starts_with("00000000: "));
    assert_eq!(lines[11], format!("00000011: {}", prev.to_hex()));
}
