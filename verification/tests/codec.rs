use abridged_block::block::{address_from, h256_zero, u256_from, Action, Block, Header, Transaction};
use abridged_block::codec::{decode_block_bytes, encode_uncle_list, AbridgedBlock};
use abridged_block::hash::keccak256;
use abridged_block::wire::{push_list_hdr, push_str_item, DecodeError};

#[test]
fn empty_block_abridging() {
    let b = Block::default();
    let abridged = AbridgedBlock::from_block_view(&b);
    assert_eq!(abridged.to_block(h256_zero(), 0).unwrap(), b);
}

#[test]
#[should_panic]
fn wrong_number() {
    let b = Block::default();
    let abridged = AbridgedBlock::from_block_view(&b);
    assert_eq!(abridged.to_block(h256_zero(), 2).unwrap(), b);
}

#[test]
fn with_transactions() {
    let mut b = Block::default();

    let t1 = Transaction {
        action: Action::Create,
        nonce: u256_from(42),
        gas_price: u256_from(3000),
        gas: u256_from(50_000),
        value: u256_from(1),
        data: b"Hello!".to_vec(),
        signature: vec![],
    }
    .fake_sign(address_from(0x69));

    let t2 = Transaction {
        action: Action::Create,
        nonce: u256_from(88),
        gas_price: u256_from(12345),
        gas: u256_from(300000),
        value: u256_from(1000000000),
        data: "Eep!".into(),
        signature: vec![],
    }
    .fake_sign(address_from(0x55));

    b.transactions.push(t1);
    b.transactions.push(t2);

    let abridged = AbridgedBlock::from_block_view(&b);
    assert_eq!(abridged.to_block(h256_zero(), 0).unwrap(), b);
}

#[test]
fn call_transaction_round_trip() {
    let mut b = Block::default();
    let t = Transaction {
        action: Action::Call(address_from(0x42)),
        nonce: u256_from(7),
        gas_price: u256_from(20),
        gas: u256_from(21000),
        value: u256_from(5),
        data: vec![0xde, 0xad, 0xbe, 0xef],
        signature: vec![],
    }
    .fake_sign(address_from(0x11));
    b.transactions.push(t);
    let abridged = AbridgedBlock::from_block_view(&b);
    let decoded = abridged.to_block(h256_zero(), 0).unwrap();
    assert_eq!(decoded, b);
    assert!(matches!(decoded.transactions[0].action, Action::Call(_)));
}

#[test]
fn seal_fields_survive_round_trip() {
    let mut b = Block::default();
    b.header.seal.push(vec![1, 2, 3]);
    b.header.seal.push(vec![]);
    b.header.seal.push(vec![0xff; 64]);
    let abridged = AbridgedBlock::from_block_view(&b);
    let decoded = abridged.to_block(h256_zero(), 0).unwrap();
    assert_eq!(decoded.header.seal.len(), 3);
    assert_eq!(decoded.header.seal[0], vec![1, 2, 3]);
    assert_eq!(decoded.header.seal[1], Vec::<u8>::new());
    assert_eq!(decoded.header.seal[2], vec![0xff; 64]);
    assert_eq!(decoded, b);
}

#[test]
fn uncles_round_trip_and_hash() {
    let mut b = Block::default();
    let mut uncle = Header::default();
    uncle.number = 7;
    uncle.timestamp = 99;
    uncle.extra_data = b"uncle".to_vec();
    b.uncles.push(uncle);
    // A header this codec produces carries the digest of its encoded uncles.
    b.header.uncles_hash = keccak256(&encode_uncle_list(&b.uncles));
    let abridged = AbridgedBlock::from_block_view(&b);
    let decoded = abridged.to_block(h256_zero(), 0).unwrap();
    assert_eq!(decoded, b);
    assert_eq!(decoded.uncles.len(), 1);
    assert_eq!(decoded.uncles[0].extra_data, b"uncle".to_vec());
}

#[test]
fn uncles_hash_is_recomputed_not_stored() {
    let mut b = Block::default();
    b.uncles.push(Header::default());
    // Deliberately wrong: decoding must ignore it and derive the real digest.
    b.header.uncles_hash = vec![0; 32];
    let abridged = AbridgedBlock::from_block_view(&b);
    let decoded = abridged.to_block(h256_zero(), 0).unwrap();
    let expected = keccak256(&encode_uncle_list(&decoded.uncles));
    assert_eq!(decoded.header.uncles_hash, expected);
    assert_ne!(decoded.header.uncles_hash, vec![0; 32]);
    assert_ne!(decoded, b);
}

#[test]
fn digest_has_fixed_width() {
    let h = Header::default();
    assert_eq!(h.uncles_hash.len(), 32);
    // If hashing handed its input back, this would be the 9-byte encoding of
    // an empty uncle list instead.
    assert_ne!(h.uncles_hash, encode_uncle_list(&Vec::new()));
}

#[test]
fn context_substitution_changes_only_context() {
    let mut b = Block::default();
    b.header.extra_data = b"ctx".to_vec();
    let abridged = AbridgedBlock::from_block_view(&b);
    let mut other_parent = vec![0u8; 32];
    other_parent[0] = 0xaa;
    let decoded = abridged.to_block(other_parent.clone(), 5).unwrap();
    assert_ne!(decoded, b);
    assert_eq!(decoded.header.parent_hash, other_parent);
    assert_eq!(decoded.header.number, 5);
    assert_eq!(decoded.header.extra_data, b.header.extra_data);
    assert_eq!(decoded.header.seal, b.header.seal);
    assert_eq!(decoded.transactions, b.transactions);
    assert_eq!(decoded.uncles, b.uncles);
}

#[test]
fn from_raw_and_into_inner_are_inverse() {
    let bytes = vec![9, 8, 7, 6];
    let abridged = AbridgedBlock::from_raw(bytes.clone());
    assert_eq!(abridged.into_inner(), bytes);
}

#[test]
fn garbage_buffer_is_corrupt() {
    let abridged = AbridgedBlock::from_raw(vec![1, 2, 3, 4, 5]);
    assert_eq!(abridged.to_block(h256_zero(), 0), Err(DecodeError::Corrupt));
}

#[test]
fn truncated_buffer_is_an_error() {
    let b = Block::default();
    let mut bytes = AbridgedBlock::from_block_view(&b).into_inner();
    bytes.truncate(bytes.len() / 2);
    let abridged = AbridgedBlock::from_raw(bytes);
    assert!(abridged.to_block(h256_zero(), 0).is_err());
}

#[test]
fn compressed_bytes_are_not_wire_bytes() {
    let b = Block::default();
    let compressed = AbridgedBlock::from_block_view(&b).into_inner();
    // The stored bytes are a compressed stream, not the wire list itself; a
    // compressor that handed its input back unchanged would decode here.
    assert!(decode_block_bytes(&compressed, &h256_zero(), 0).is_err());
}

#[test]
fn empty_wire_bytes_are_truncated() {
    assert_eq!(
        decode_block_bytes(&Vec::new(), &h256_zero(), 0),
        Err(DecodeError::Truncated)
    );
}

#[test]
fn string_item_where_list_expected() {
    // A byte-string tag with length zero where the outer list must stand.
    let bytes = vec![0, 0, 0, 0, 0, 0, 0, 0, 0];
    assert_eq!(
        decode_block_bytes(&bytes, &h256_zero(), 0),
        Err(DecodeError::UnexpectedKind)
    );
}

#[test]
fn short_outer_list_is_wrong_item_count() {
    // A list header announcing zero items: fewer than the twelve required.
    let bytes = vec![1, 0, 0, 0, 0, 0, 0, 0, 0];
    assert_eq!(
        decode_block_bytes(&bytes, &h256_zero(), 0),
        Err(DecodeError::WrongItemCount)
    );
}

#[test]
fn trailing_bytes_are_rejected() {
    // The wire bytes of an empty block, built item by item.
    let mut w: Vec<u8> = Vec::new();
    push_list_hdr(&mut w, 12);
    push_str_item(&mut w, &[0u8; 20]); // author
    push_str_item(&mut w, &[0u8; 32]); // state root
    push_str_item(&mut w, &[0u8; 32]); // transactions root
    push_str_item(&mut w, &[0u8; 32]); // receipts root
    push_str_item(&mut w, &[0u8; 256]); // log bloom
    push_str_item(&mut w, &[]); // difficulty
    push_str_item(&mut w, &[]); // gas limit
    push_str_item(&mut w, &[]); // gas used
    push_str_item(&mut w, &[0u8; 8]); // timestamp
    push_str_item(&mut w, &[]); // extra data
    push_list_hdr(&mut w, 0); // transactions
    push_list_hdr(&mut w, 0); // uncles
    assert!(decode_block_bytes(&w, &h256_zero(), 0).is_ok());
    w.push(0);
    assert_eq!(
        decode_block_bytes(&w, &h256_zero(), 0),
        Err(DecodeError::WrongItemCount)
    );
}

#[test]
fn u256_minimal_big_endian() {
    assert_eq!(u256_from(0), Vec::<u8>::new());
    assert_eq!(u256_from(1), vec![1]);
    assert_eq!(u256_from(0x1234), vec![0x12, 0x34]);
    assert_eq!(u256_from(1000000000), vec![0x3b, 0x9a, 0xca, 0x00]);
}

#[test]
fn address_low_bytes() {
    let a = address_from(0x69);
    assert_eq!(a.len(), 20);
    assert_eq!(&a[..19], &[0u8; 19]);
    assert_eq!(a[19], 0x69);
    let b = address_from(0x0102030405060708);
    assert_eq!(&b[12..], &[1, 2, 3, 4, 5, 6, 7, 8]);
}
