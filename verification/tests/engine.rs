use block_store::error::Error;
use block_store::model::Block;
use block_store::model::CellInput;
use block_store::model::CellOutput;
use block_store::model::CellRef;
use block_store::model::H256;
use block_store::model::Header;
use block_store::model::OutPoint;
use block_store::model::Transaction;
use block_store::model::UncleBlock;
use block_store::storage::CellIndex;
use block_store::storage::Index;
use block_store::storage::Storage;

fn hash_of(byte: u8) -> H256 {
    H256 { bytes: vec![byte; 32] }
}

fn coinbase(tx_hash: H256, capacity: u64, lock: Vec<u8>) -> Transaction {
    Transaction {
        hash: tx_hash,
        version: 0,
        deps: vec![],
        inputs: vec![CellInput { previous: OutPoint { cell: None }, since: 0 }],
        outputs: vec![CellOutput { capacity, lock, data: vec![] }],
        witnesses: vec![],
    }
}

fn spend(tx_hash: H256, from: H256, from_index: u32, capacity: u64) -> Transaction {
    Transaction {
        hash: tx_hash,
        version: 0,
        deps: vec![],
        inputs: vec![CellInput {
            previous: OutPoint { cell: Some(CellRef { tx_hash: from, index: from_index }) },
            since: 0,
        }],
        outputs: vec![CellOutput { capacity, lock: vec![], data: vec![] }],
        witnesses: vec![],
    }
}

fn block_with(number: u64, hash: H256, transactions: Vec<Transaction>) -> Block {
    Block {
        hash,
        header: Header { number, payload: vec![] },
        uncles: vec![],
        transactions,
        proposals: vec![],
    }
}

#[test]
fn genesis_then_spend_scenario() {
    let mut storage = Storage::new();
    let capacity = 7777;
    let lock = vec![0xAB, 0xCD];
    let tx0 = coinbase(hash_of(0x10), capacity, lock.clone());
    let genesis = block_with(0, hash_of(0x01), vec![tx0]);
    storage.insert_block(&genesis).unwrap();

    assert_eq!(storage.select_max_number(), Ok(Some(0)));
    assert_eq!(storage.select_cell_status(&hash_of(0x10), 0), Ok(Some(())));
    let output = storage.select_cell_output(&hash_of(0x10), 0).unwrap().unwrap();
    assert_eq!(output.capacity, capacity);
    assert_eq!(output.lock, lock);

    let tx1 = spend(hash_of(0x20), hash_of(0x10), 0, 7000);
    let next = block_with(1, hash_of(0x02), vec![tx1]);
    storage.insert_block(&next).unwrap();

    assert_eq!(storage.select_max_number(), Ok(Some(1)));
    assert_eq!(storage.select_cell_status(&hash_of(0x10), 0), Ok(None));
    assert_eq!(storage.select_cell_status(&hash_of(0x20), 0), Ok(Some(())));
}

#[test]
fn select_block_round_trip() {
    let mut storage = Storage::new();
    let block = Block {
        hash: hash_of(0x03),
        header: Header { number: 9, payload: vec![5, 6] },
        uncles: vec![UncleBlock {
            hash: hash_of(0x04),
            header: Header { number: 8, payload: vec![] },
            proposals: vec![vec![0x0A; 10]],
        }],
        transactions: vec![coinbase(hash_of(0x30), 1, vec![])],
        proposals: vec![vec![0x0B; 10]],
    };
    storage.insert_block(&block).unwrap();
    assert_eq!(storage.select_block_by_number(9), Ok(Some(block.clone())));
    assert_eq!(storage.select_block_by_hash(&hash_of(0x03)), Ok(Some(block)));
}

#[test]
fn secondary_indices_are_consistent() {
    let mut storage = Storage::new();
    let block = block_with(5, hash_of(0x05), vec![]);
    storage.insert_block(&block).unwrap();
    let number = storage.select_block_number(&hash_of(0x05)).unwrap().unwrap();
    assert_eq!(number, 5);
    let hash = storage.select_block_hash(number).unwrap().unwrap();
    assert_eq!(hash, hash_of(0x05));
}

#[test]
fn select_uncle_and_transaction_by_hash() {
    let mut storage = Storage::new();
    let uncle = UncleBlock {
        hash: hash_of(0x06),
        header: Header { number: 3, payload: vec![1] },
        proposals: vec![],
    };
    let tx = coinbase(hash_of(0x40), 12, vec![7]);
    let block = Block {
        hash: hash_of(0x07),
        header: Header { number: 4, payload: vec![] },
        uncles: vec![uncle.clone()],
        transactions: vec![tx.clone()],
        proposals: vec![],
    };
    storage.insert_block(&block).unwrap();
    assert_eq!(storage.select_uncle_block(&hash_of(0x06)), Ok(Some(uncle)));
    assert_eq!(storage.select_transaction(&hash_of(0x40)), Ok(Some(tx)));
}

#[test]
fn lookups_are_idempotent() {
    let mut storage = Storage::new();
    let block = block_with(2, hash_of(0x08), vec![coinbase(hash_of(0x50), 3, vec![])]);
    storage.insert_block(&block).unwrap();
    let first = storage.select_block_by_number(2);
    let second = storage.select_block_by_number(2);
    assert_eq!(first, second);
    assert_eq!(first, Ok(Some(block)));
}

#[test]
fn missing_keys_are_none_not_errors() {
    let storage = Storage::new();
    assert_eq!(storage.select_transaction(&hash_of(0x99)), Ok(None));
    assert_eq!(storage.select_uncle_block(&hash_of(0x99)), Ok(None));
    assert_eq!(storage.select_block_by_number(123), Ok(None));
    assert_eq!(storage.select_block_by_hash(&hash_of(0x99)), Ok(None));
    assert_eq!(storage.select_block_hash(123), Ok(None));
    assert_eq!(storage.select_block_number(&hash_of(0x99)), Ok(None));
    assert_eq!(storage.select_cell_output(&hash_of(0x99), 0), Ok(None));
    assert_eq!(storage.select_cell_status(&hash_of(0x99), 0), Ok(None));
    assert_eq!(storage.select_max_number(), Ok(None));
    assert_eq!(storage.select(b"absent".as_slice()), Ok(None));
}

#[test]
fn custom_table_stores_opaque_values() {
    let mut storage = Storage::new();
    storage.insert(b"answer".as_slice(), &[42]).unwrap();
    assert_eq!(storage.select(b"answer".as_slice()), Ok(Some(vec![42])));
    storage.insert(b"answer".as_slice(), &[43]).unwrap();
    assert_eq!(storage.select(b"answer".as_slice()), Ok(Some(vec![43])));
}

#[test]
fn overwriting_a_number_keeps_lookups_consistent() {
    let mut storage = Storage::new();
    let first = block_with(1, hash_of(0x0C), vec![]);
    let second = block_with(1, hash_of(0x0D), vec![]);
    storage.insert_block(&first).unwrap();
    storage.insert_block(&second).unwrap();
    assert_eq!(storage.select_block_hash(1), Ok(Some(hash_of(0x0D))));
    assert_eq!(storage.select_block_by_number(1), Ok(Some(second)));
}

#[test]
fn location_record_layout() {
    let bytes = Index::new(0x0102030405060708, 3).into_bytes();
    assert_eq!(bytes.len(), 16);
    assert_eq!(&bytes[0..8], &[8, 7, 6, 5, 4, 3, 2, 1]);
    assert_eq!(&bytes[8..16], &[3, 0, 0, 0, 0, 0, 0, 0]);
    let back = Index::from_slice(bytes.as_slice());
    assert_eq!(back.0, 0x0102030405060708);
    assert_eq!(back.1, 3);
}

#[test]
fn cell_key_layout() {
    let bytes = CellIndex::new(hash_of(0x0E), 0x01020304).into_bytes();
    assert_eq!(bytes.len(), 36);
    assert_eq!(&bytes[0..32], &[0x0E; 32]);
    assert_eq!(&bytes[32..36], &[4, 3, 2, 1]);
}

#[test]
fn intra_block_spend_leaves_the_cell_dead() {
    // a later transaction of the same block spends an earlier one's output:
    // the marker is deleted after it was added, so the cell is not live
    let mut storage = Storage::new();
    let tx0 = coinbase(hash_of(0x0A), 50, vec![]);
    let tx1 = spend(hash_of(0x0B), hash_of(0x0A), 0, 49);
    let block = block_with(0, hash_of(0x0F), vec![tx0, tx1]);
    storage.insert_block(&block).unwrap();
    assert_eq!(storage.select_cell_status(&hash_of(0x0A), 0), Ok(None));
    assert_eq!(storage.select_cell_status(&hash_of(0x0B), 0), Ok(Some(())));
}

#[test]
fn out_of_range_output_index_is_absence() {
    // the transaction exists but has one output: asking for a later slot is
    // a missing link of the lookup chain, not an error
    let mut storage = Storage::new();
    let block = block_with(0, hash_of(0x12), vec![coinbase(hash_of(0x60), 9, vec![])]);
    storage.insert_block(&block).unwrap();
    assert_eq!(storage.select_cell_output(&hash_of(0x60), 0).unwrap().unwrap().capacity, 9);
    assert_eq!(storage.select_cell_output(&hash_of(0x60), 1), Ok(None));
    assert_eq!(storage.select_cell_output(&hash_of(0x60), 5), Ok(None));
}
