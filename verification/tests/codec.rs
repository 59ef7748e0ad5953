use block_store::deserialize::deserialize_blob;
use block_store::deserialize::deserialize_block;
use block_store::deserialize::deserialize_hash;
use block_store::deserialize::deserialize_output;
use block_store::deserialize::deserialize_transaction;
use block_store::deserialize::deserialize_uncle_block;
use block_store::error::Error;
use block_store::index::Position;
use block_store::indexbytes::deserialize_block_index;
use block_store::indexbytes::serialize_block_index;
use block_store::model::Block;
use block_store::model::CellInput;
use block_store::model::CellOutput;
use block_store::model::CellRef;
use block_store::model::H256;
use block_store::model::Header;
use block_store::model::OutPoint;
use block_store::model::Transaction;
use block_store::model::UncleBlock;
use block_store::serialize::serialize_block_with_index;

fn hash_of(byte: u8) -> H256 {
    H256 { bytes: vec![byte; 32] }
}

fn sample_block() -> Block {
    let tx0 = Transaction {
        hash: hash_of(0x11),
        version: 1,
        deps: vec![OutPoint { cell: None }],
        inputs: vec![CellInput { previous: OutPoint { cell: None }, since: 0 }],
        outputs: vec![CellOutput { capacity: 5000, lock: vec![0xAA, 0xBB], data: vec![1, 2, 3] }],
        witnesses: vec![vec![9, 9]],
    };
    let tx1 = Transaction {
        hash: hash_of(0x22),
        version: 2,
        deps: vec![],
        inputs: vec![CellInput {
            previous: OutPoint {
                cell: Some(CellRef { tx_hash: hash_of(0x11), index: 0 }),
            },
            since: 7,
        }],
        outputs: vec![
            CellOutput { capacity: 100, lock: vec![1], data: vec![] },
            CellOutput { capacity: 200, lock: vec![], data: vec![0xFF] },
        ],
        witnesses: vec![],
    };
    let uncle = UncleBlock {
        hash: hash_of(0x33),
        header: Header { number: 41, payload: vec![4, 4, 4] },
        proposals: vec![vec![0x01; 10]],
    };
    Block {
        hash: hash_of(0x44),
        header: Header { number: 42, payload: vec![7, 8] },
        uncles: vec![uncle],
        transactions: vec![tx0, tx1],
        proposals: vec![vec![0x02; 10], vec![0x03; 10]],
    }
}

#[test]
fn round_trip_full_block() {
    let block = sample_block();
    let (buffer, index) = serialize_block_with_index(&block);
    let decoded = deserialize_block(buffer.as_slice(), &index).unwrap();
    assert_eq!(decoded, block);
}

#[test]
fn round_trip_empty_lists() {
    let block = Block {
        hash: hash_of(0x01),
        header: Header { number: 0, payload: vec![] },
        uncles: vec![],
        transactions: vec![],
        proposals: vec![],
    };
    let (buffer, index) = serialize_block_with_index(&block);
    // hash (32) + header number (8) + empty payload
    assert_eq!(buffer.len(), 40);
    let decoded = deserialize_block(buffer.as_slice(), &index).unwrap();
    assert_eq!(decoded, block);
}

#[test]
fn partial_round_trip_transaction() {
    let block = sample_block();
    let (buffer, index) = serialize_block_with_index(&block);
    for (i, tx) in block.transactions.iter().enumerate() {
        let decoded = deserialize_transaction(buffer.as_slice(), &index.transactions[i]).unwrap();
        assert_eq!(&decoded, tx);
    }
}

#[test]
fn partial_round_trip_uncle() {
    let block = sample_block();
    let (buffer, index) = serialize_block_with_index(&block);
    let decoded = deserialize_uncle_block(buffer.as_slice(), &index.uncles[0]).unwrap();
    assert_eq!(decoded, block.uncles[0]);
}

#[test]
fn partial_round_trip_proposal() {
    let block = sample_block();
    let (buffer, index) = serialize_block_with_index(&block);
    for (i, proposal) in block.proposals.iter().enumerate() {
        let decoded = deserialize_blob(buffer.as_slice(), &index.proposals[i]).unwrap();
        assert_eq!(&decoded, proposal);
    }
}

#[test]
fn partial_round_trip_cell_output() {
    let block = sample_block();
    let (buffer, index) = serialize_block_with_index(&block);
    for (i, tx) in block.transactions.iter().enumerate() {
        for (j, output) in tx.outputs.iter().enumerate() {
            let position = &index.transactions[i].outputs[j];
            let decoded = deserialize_output(buffer.as_slice(), position).unwrap();
            assert_eq!(&decoded, output);
        }
    }
}

#[test]
fn buffer_layout_is_exact() {
    let block = Block {
        hash: hash_of(0x05),
        header: Header { number: 0x0102030405060708, payload: vec![0xEE] },
        uncles: vec![],
        transactions: vec![],
        proposals: vec![],
    };
    let (buffer, index) = serialize_block_with_index(&block);
    // the hash occupies the first 32 bytes verbatim
    assert_eq!(&buffer[0..32], &[0x05; 32]);
    // the header's number is little endian at offset 32
    assert_eq!(
        &buffer[32..40],
        &[0x08, 0x07, 0x06, 0x05, 0x04, 0x03, 0x02, 0x01]
    );
    // the payload follows
    assert_eq!(&buffer[40..41], &[0xEE]);
    assert_eq!(index.hash, Position { offset: 0, length: 32 });
    assert_eq!(index.header, Position { offset: 32, length: 9 });
}

fn flatten(index: &block_store::index::BlockIndex) -> Vec<Position> {
    let mut flat = vec![index.hash, index.header];
    for u in &index.uncles {
        flat.push(u.hash);
        flat.push(u.header);
        flat.extend_from_slice(&u.proposals);
    }
    for t in &index.transactions {
        flat.push(t.hash);
        flat.push(t.version);
        flat.extend_from_slice(&t.deps);
        flat.extend_from_slice(&t.inputs);
        flat.extend_from_slice(&t.outputs);
        flat.extend_from_slice(&t.witnesses);
    }
    flat.extend_from_slice(&index.proposals);
    flat
}

#[test]
fn index_positions_are_monotonic() {
    let block = sample_block();
    let (buffer, index) = serialize_block_with_index(&block);
    let flat = flatten(&index);
    assert_eq!(flat[0].offset, 0);
    for k in 0..flat.len() - 1 {
        assert_eq!(flat[k].offset + flat[k].length, flat[k + 1].offset);
    }
    let last = flat[flat.len() - 1];
    assert_eq!(last.offset + last.length, buffer.len());
}

#[test]
fn out_of_range_position_is_corruption() {
    let block = sample_block();
    let (buffer, _) = serialize_block_with_index(&block);
    let bad = Position { offset: buffer.len(), length: 1 };
    assert_eq!(deserialize_hash(buffer.as_slice(), &bad), Err(Error::Corruption));
}

#[test]
fn undecodable_slice_is_codec_error() {
    let block = sample_block();
    let (buffer, _) = serialize_block_with_index(&block);
    // a 31-byte range can never hold a hash
    let bad = Position { offset: 0, length: 31 };
    assert_eq!(deserialize_hash(buffer.as_slice(), &bad), Err(Error::Codec));
}

#[test]
fn stored_index_round_trip() {
    let block = sample_block();
    let (_, index) = serialize_block_with_index(&block);
    let bytes = serialize_block_index(&index);
    let back = deserialize_block_index(bytes.as_slice()).unwrap();
    assert_eq!(back.hash, index.hash);
    assert_eq!(back.header, index.header);
    assert_eq!(back.uncles.len(), index.uncles.len());
    assert_eq!(back.uncles[0].proposals, index.uncles[0].proposals);
    assert_eq!(back.transactions.len(), index.transactions.len());
    assert_eq!(back.transactions[1].outputs, index.transactions[1].outputs);
    assert_eq!(back.proposals, index.proposals);
}

#[test]
fn stored_index_layout_is_exact() {
    let block = Block {
        hash: hash_of(0x09),
        header: Header { number: 1, payload: vec![] },
        uncles: vec![],
        transactions: vec![],
        proposals: vec![],
    };
    let (_, index) = serialize_block_with_index(&block);
    let bytes = serialize_block_index(&index);
    // hash position (0, 32), header position (32, 8), three empty lists
    let mut expected: Vec<u8> = Vec::new();
    expected.extend_from_slice(&0u64.to_le_bytes());
    expected.extend_from_slice(&32u64.to_le_bytes());
    expected.extend_from_slice(&32u64.to_le_bytes());
    expected.extend_from_slice(&8u64.to_le_bytes());
    expected.extend_from_slice(&0u64.to_le_bytes());
    expected.extend_from_slice(&0u64.to_le_bytes());
    expected.extend_from_slice(&0u64.to_le_bytes());
    assert_eq!(bytes, expected);
}

#[test]
fn truncated_index_bytes_fail_to_decode() {
    let block = sample_block();
    let (_, index) = serialize_block_with_index(&block);
    let bytes = serialize_block_index(&index);
    assert_eq!(
        deserialize_block_index(&bytes[0..bytes.len() - 1]),
        Err(Error::Codec)
    );
    let mut padded = bytes.clone();
    padded.push(0);
    assert_eq!(deserialize_block_index(padded.as_slice()), Err(Error::Codec));
}
