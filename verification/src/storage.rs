//! The storage engine: nine named tables and the operations over them.
//!
//! `insert_block` writes a block's buffer, its positional index, both hash
//! maps, a location record per uncle and per transaction, and the live-cell
//! markers, and advances the status record, all in one call on `&mut self`:
//! no partial visibility of a block's effects is possible. Every `select_*`
//! operation short-circuits to `Ok(None)` at the first missing link;
//! `Corruption` is returned only for a stored record whose shape the tables
//! cannot support, never silently coerced into `None`.
//!
//! Keys keep the persisted layout: number keys are 8 little-endian bytes,
//! location values are `(number, slot)` as twice 8 little-endian bytes, and
//! live-cell keys are the 32-byte transaction hash followed by the 4-byte
//! little-endian output index.

use vstd::prelude::*;
use vstd::bytes::spec_u32_to_le_bytes;
use vstd::bytes::spec_u64_from_le_bytes;
use vstd::bytes::spec_u64_to_le_bytes;
use vstd::bytes::u32_to_le_bytes;
use vstd::bytes::u64_from_le_bytes;
use vstd::bytes::u64_to_le_bytes;
use vstd::slice::slice_subrange;
use vstd::slice::slice_to_vec;
use crate::decode::decode_block_at;
use crate::decode::decode_output_at;
use crate::decode::decode_transaction_at;
use crate::decode::decode_uncle_block_at;
use crate::deserialize::deserialize_block;
use crate::deserialize::deserialize_output;
use crate::deserialize::deserialize_transaction;
use crate::deserialize::deserialize_uncle_block;
use crate::encoding::block_bytes;
use crate::error::Error;
use crate::index::spec_block_index;
use crate::index::spec_block_size;
use crate::index::BlockIndex;
use crate::indexbytes::block_index_bytes;
use crate::indexbytes::deserialize_block_index;
use crate::indexbytes::parse_block_index;
use crate::indexbytes::serialize_block_index;
use crate::model::Block;
use crate::model::BlockV;
use crate::model::CellInputV;
use crate::model::H256;
use crate::model::H256V;
use crate::model::CellOutput;
use crate::model::Transaction;
use crate::model::TransactionV;
use crate::model::UncleBlock;
use crate::model::UncleBlockV;
use crate::serialize::serialize_block_with_index;
use crate::table::Table;

verus! {

// ---------------------------------------------------------------------------
// Location records
// ---------------------------------------------------------------------------
/// A location: the number of the owning block and the slot inside it.
pub struct Index(pub u64, pub usize);

/// A live-cell key: the owning transaction's hash and the output's slot.
pub struct CellIndex(pub H256, pub u32);

/// The bytes a location is stored as: number then slot, little endian.
pub open spec fn location_value(number: u64, slot: u64) -> Seq<u8> {
    spec_u64_to_le_bytes(number) + spec_u64_to_le_bytes(slot)
}

/// The bytes a live-cell marker is keyed by.
pub open spec fn cell_key(h: H256V, idx: u32) -> Seq<u8> {
    h.bytes + spec_u32_to_le_bytes(idx)
}

/// The key of a number-indexed table: 8 little-endian bytes.
pub open spec fn number_key(n: u64) -> Seq<u8> {
    spec_u64_to_le_bytes(n)
}

/// The single byte a live-cell marker stores.
pub open spec fn marker_value() -> Seq<u8> {
    seq![1u8]
}

/// The key of the status record, the ASCII bytes of `max-number`.
pub open spec fn status_key() -> Seq<u8> {
    seq![109u8, 97u8, 120u8, 45u8, 110u8, 117u8, 109u8, 98u8, 101u8, 114u8]
}

fn status_key_vec() -> (r: Vec<u8>)
    ensures
        r@ == status_key(),
{
    let mut v: Vec<u8> = Vec::new();
    v.push(109);
    v.push(97);
    v.push(120);
    v.push(45);
    v.push(110);
    v.push(117);
    v.push(109);
    v.push(98);
    v.push(101);
    v.push(114);
    proof {
        assert(v@ =~= status_key());
    }
    v
}

impl Index {
    pub fn new(number: u64, index: usize) -> (r: Self)
        ensures
            r.0 == number,
            r.1 == index,
    {
        Index(number, index)
    }

    /// The stored form of a location.
    pub fn into_bytes(self) -> (r: Vec<u8>)
        ensures
            r@ == location_value(self.0, self.1 as u64),
    {
        let Index(number, index) = self;
        let mut bytes = u64_to_le_bytes(number);
        let mut tail = u64_to_le_bytes(index as u64);
        bytes.append(&mut tail);
        bytes
    }

    /// Reads a location back from its stored form.
    pub fn from_slice(slice: &[u8]) -> (r: Self)
        requires
            slice@.len() >= 16,
        ensures
            r.0 == spec_u64_from_le_bytes(slice@.subrange(0, 8)),
            r.1 == spec_u64_from_le_bytes(slice@.subrange(8, 16)) as usize,
    {
        let number = u64_from_le_bytes(slice_subrange(slice, 0, 8));
        let index = #[verifier::truncate] (u64_from_le_bytes(slice_subrange(slice, 8, 16))
            as usize);
        Index(number, index)
    }
}

impl CellIndex {
    pub fn new(tx_hash: H256, index: u32) -> (r: Self)
        ensures
            r.0 == tx_hash,
            r.1 == index,
    {
        CellIndex(tx_hash, index)
    }

    /// The stored key of a live-cell marker.
    pub fn into_bytes(self) -> (r: Vec<u8>)
        ensures
            r@ == cell_key(self.0@, self.1),
    {
        let CellIndex(tx_hash, index) = self;
        let mut bytes = tx_hash.bytes;
        let mut tail = u32_to_le_bytes(index);
        bytes.append(&mut tail);
        bytes
    }
}

/// Reads a stored scalar; any other width is a corrupt record.
pub fn unpack_u64(value: &[u8]) -> (r: Result<u64, Error>)
    ensures
        (match r {
            Ok(n) => value@.len() == 8 && n == spec_u64_from_le_bytes(value@),
            Err(e) => value@.len() != 8 && e == Error::Corruption,
        }),
{
    if value.len() != 8 {
        return Err(Error::Corruption);
    }
    Ok(u64_from_le_bytes(value))
}

/// Reads a stored hash; any other width is a corrupt record.
pub fn unpack_hash(bytes: &[u8]) -> (r: Result<H256, Error>)
    ensures
        (match r {
            Ok(h) => bytes@.len() == 32 && h@ == (H256V { bytes: bytes@ }),
            Err(e) => bytes@.len() != 32 && e == Error::Corruption,
        }),
{
    if bytes.len() != 32 {
        return Err(Error::Corruption);
    }
    Ok(H256 { bytes: slice_to_vec(bytes) })
}

fn clone_hash(h: &H256) -> (r: H256)
    ensures
        r@ == h@,
{
    H256 { bytes: slice_to_vec(h.bytes.as_slice()) }
}

// ---------------------------------------------------------------------------
// The engine's state, as nine maps
// ---------------------------------------------------------------------------
#[verifier::ext_equal]
pub ghost struct StorageV {
    pub indexes: Map<Seq<u8>, Seq<u8>>,
    pub blocks: Map<Seq<u8>, Seq<u8>>,
    pub hashes: Map<Seq<u8>, Seq<u8>>,
    pub numbers: Map<Seq<u8>, Seq<u8>>,
    pub uncles: Map<Seq<u8>, Seq<u8>>,
    pub txs: Map<Seq<u8>, Seq<u8>>,
    pub cells: Map<Seq<u8>, Seq<u8>>,
    pub status: Map<Seq<u8>, Seq<u8>>,
    pub custom: Map<Seq<u8>, Seq<u8>>,
}

/// The storage engine.
pub struct Storage {
    indexes: Table<Vec<u8>>,
    blocks: Table<Vec<u8>>,
    hashes: Table<Vec<u8>>,
    numbers: Table<Vec<u8>>,
    uncles: Table<Vec<u8>>,
    txs: Table<Vec<u8>>,
    cells: Table<Vec<u8>>,
    status: Table<Vec<u8>>,
    custom: Table<Vec<u8>>,
}

impl View for Storage {
    type V = StorageV;

    closed spec fn view(&self) -> StorageV {
        StorageV {
            indexes: self.indexes@,
            blocks: self.blocks@,
            hashes: self.hashes@,
            numbers: self.numbers@,
            uncles: self.uncles@,
            txs: self.txs@,
            cells: self.cells@,
            status: self.status@,
            custom: self.custom@,
        }
    }
}

// ---------------------------------------------------------------------------
// What an insertion means
// ---------------------------------------------------------------------------
/// The uncle location records after storing `us` for block `n`, slot by
/// slot.
pub open spec fn uncles_after(m: Map<Seq<u8>, Seq<u8>>, n: u64, us: Seq<UncleBlockV>) -> Map<
    Seq<u8>,
    Seq<u8>,
>
    decreases us.len(),
{
    if us.len() == 0 {
        m
    } else {
        uncles_after(m, n, us.drop_last()).insert(
            us.last().hash.bytes,
            location_value(n, (us.len() - 1) as u64),
        )
    }
}

/// The transaction location records after storing `ts` for block `n`.
pub open spec fn txs_after(m: Map<Seq<u8>, Seq<u8>>, n: u64, ts: Seq<TransactionV>) -> Map<
    Seq<u8>,
    Seq<u8>,
>
    decreases ts.len(),
{
    if ts.len() == 0 {
        m
    } else {
        txs_after(m, n, ts.drop_last()).insert(
            ts.last().hash.bytes,
            location_value(n, (ts.len() - 1) as u64),
        )
    }
}

/// The live-cell set after one transaction's inputs leave it, in order.
pub open spec fn inputs_removed(m: Map<Seq<u8>, Seq<u8>>, ins: Seq<CellInputV>) -> Map<
    Seq<u8>,
    Seq<u8>,
>
    decreases ins.len(),
{
    if ins.len() == 0 {
        m
    } else {
        match ins.last().previous.cell {
            Some(c) => inputs_removed(m, ins.drop_last()).remove(cell_key(c.tx_hash, c.index)),
            None => inputs_removed(m, ins.drop_last()),
        }
    }
}

/// The live-cell set after the first `k` outputs of the transaction with
/// hash `h` enter it.
pub open spec fn outputs_added(m: Map<Seq<u8>, Seq<u8>>, h: H256V, k: nat) -> Map<Seq<u8>, Seq<u8>>
    decreases k,
{
    if k == 0 {
        m
    } else {
        outputs_added(m, h, (k - 1) as nat).insert(
            cell_key(h, (k - 1) as u32),
            marker_value(),
        )
    }
}

/// One transaction's effect on the live-cell set: its consumed inputs
/// leave, then every one of its own outputs enters.
pub open spec fn transaction_cells(m: Map<Seq<u8>, Seq<u8>>, t: TransactionV) -> Map<
    Seq<u8>,
    Seq<u8>,
> {
    outputs_added(inputs_removed(m, t.inputs), t.hash, t.outputs.len())
}

/// The live-cell set after every transaction of the block, in order.
pub open spec fn cells_after(m: Map<Seq<u8>, Seq<u8>>, ts: Seq<TransactionV>) -> Map<
    Seq<u8>,
    Seq<u8>,
>
    decreases ts.len(),
{
    if ts.len() == 0 {
        m
    } else {
        transaction_cells(cells_after(m, ts.drop_last()), ts.last())
    }
}

/// The whole effect of inserting one block.
pub open spec fn spec_insert_block(s: StorageV, b: BlockV) -> StorageV {
    let n = b.header.number;
    let nk = number_key(n);
    StorageV {
        indexes: s.indexes.insert(nk, block_index_bytes(spec_block_index(spec_block_size(b)))),
        blocks: s.blocks.insert(nk, block_bytes(b)),
        hashes: s.hashes.insert(nk, b.hash.bytes),
        numbers: s.numbers.insert(b.hash.bytes, nk),
        uncles: uncles_after(s.uncles, n, b.uncles),
        txs: txs_after(s.txs, n, b.transactions),
        cells: cells_after(s.cells, b.transactions),
        status: s.status.insert(status_key(), nk),
        custom: s.custom,
    }
}

// ---------------------------------------------------------------------------
// What each lookup means
// ---------------------------------------------------------------------------
pub open spec fn spec_select_block_hash(s: StorageV, n: u64) -> Result<Option<H256V>, Error> {
    let k = number_key(n);
    if !s.hashes.contains_key(k) {
        Ok(None)
    } else if s.hashes[k].len() == 32 {
        Ok(Some(H256V { bytes: s.hashes[k] }))
    } else {
        Err(Error::Corruption)
    }
}

pub open spec fn spec_select_block_number(s: StorageV, h: H256V) -> Result<Option<u64>, Error> {
    if !s.numbers.contains_key(h.bytes) {
        Ok(None)
    } else if s.numbers[h.bytes].len() == 8 {
        Ok(Some(spec_u64_from_le_bytes(s.numbers[h.bytes])))
    } else {
        Err(Error::Corruption)
    }
}

pub open spec fn spec_select_block_by_number(s: StorageV, n: u64) -> Result<Option<BlockV>, Error> {
    let k = number_key(n);
    if !s.indexes.contains_key(k) {
        Ok(None)
    } else if !s.blocks.contains_key(k) {
        Ok(None)
    } else {
        match parse_block_index(s.indexes[k]) {
            None => Err(Error::Codec),
            Some(x) => match decode_block_at(s.blocks[k], x) {
                Ok(b) => Ok(Some(b)),
                Err(e) => Err(e),
            },
        }
    }
}

pub open spec fn spec_select_block_by_hash(s: StorageV, h: H256V) -> Result<Option<BlockV>, Error> {
    match spec_select_block_number(s, h) {
        Err(e) => Err(e),
        Ok(None) => Ok(None),
        Ok(Some(n)) => spec_select_block_by_number(s, n),
    }
}

/// A location looked up in a secondary index: `(number, slot)`, or `None`
/// when the key is absent, or a corrupt record.
pub open spec fn spec_location_of(m: Map<Seq<u8>, Seq<u8>>, h: H256V) -> Result<
    Option<(u64, usize)>,
    Error,
> {
    if !m.contains_key(h.bytes) {
        Ok(None)
    } else if m[h.bytes].len() == 16 {
        Ok(
            Some(
                (
                    spec_u64_from_le_bytes(m[h.bytes].subrange(0, 8)),
                    spec_u64_from_le_bytes(m[h.bytes].subrange(8, 16)) as usize,
                ),
            ),
        )
    } else {
        Err(Error::Corruption)
    }
}

pub open spec fn spec_select_uncle_block(s: StorageV, h: H256V) -> Result<
    Option<UncleBlockV>,
    Error,
> {
    match spec_location_of(s.uncles, h) {
        Err(e) => Err(e),
        Ok(None) => Ok(None),
        Ok(Some((n, slot))) => {
            let k = number_key(n);
            if !s.indexes.contains_key(k) {
                Ok(None)
            } else if !s.blocks.contains_key(k) {
                Ok(None)
            } else {
                match parse_block_index(s.indexes[k]) {
                    None => Err(Error::Codec),
                    Some(x) => {
                        if slot >= x.uncles.len() {
                            Err(Error::Corruption)
                        } else {
                            match decode_uncle_block_at(s.blocks[k], x.uncles[slot as int]) {
                                Ok(u) => Ok(Some(u)),
                                Err(e) => Err(e),
                            }
                        }
                    },
                }
            }
        },
    }
}

pub open spec fn spec_select_transaction(s: StorageV, h: H256V) -> Result<
    Option<TransactionV>,
    Error,
> {
    match spec_location_of(s.txs, h) {
        Err(e) => Err(e),
        Ok(None) => Ok(None),
        Ok(Some((n, slot))) => {
            let k = number_key(n);
            if !s.indexes.contains_key(k) {
                Ok(None)
            } else if !s.blocks.contains_key(k) {
                Ok(None)
            } else {
                match parse_block_index(s.indexes[k]) {
                    None => Err(Error::Codec),
                    Some(x) => {
                        if slot >= x.transactions.len() {
                            Err(Error::Corruption)
                        } else {
                            match decode_transaction_at(s.blocks[k], x.transactions[slot as int]) {
                                Ok(t) => Ok(Some(t)),
                                Err(e) => Err(e),
                            }
                        }
                    },
                }
            }
        },
    }
}

pub open spec fn spec_select_cell_output(s: StorageV, h: H256V, cell_index: u32) -> Result<
    Option<crate::model::CellOutputV>,
    Error,
> {
    match spec_location_of(s.txs, h) {
        Err(e) => Err(e),
        Ok(None) => Ok(None),
        Ok(Some((n, slot))) => {
            let k = number_key(n);
            if !s.indexes.contains_key(k) {
                Ok(None)
            } else if !s.blocks.contains_key(k) {
                Ok(None)
            } else {
                match parse_block_index(s.indexes[k]) {
                    None => Err(Error::Codec),
                    Some(x) => {
                        if slot >= x.transactions.len() {
                            Err(Error::Corruption)
                        } else if cell_index >= x.transactions[slot as int].outputs.len() {
                            Ok(None)
                        } else {
                            match decode_output_at(
                                s.blocks[k],
                                x.transactions[slot as int].outputs[cell_index as int],
                            ) {
                                Ok(o) => Ok(Some(o)),
                                Err(e) => Err(e),
                            }
                        }
                    },
                }
            }
        },
    }
}

pub open spec fn spec_select_cell_status(s: StorageV, h: H256V, cell_index: u32) -> Result<
    Option<()>,
    Error,
> {
    if s.cells.contains_key(cell_key(h, cell_index)) {
        Ok(Some(()))
    } else {
        Ok(None)
    }
}

pub open spec fn spec_select_max_number(s: StorageV) -> Result<Option<u64>, Error> {
    if !s.status.contains_key(status_key()) {
        Ok(None)
    } else if s.status[status_key()].len() == 8 {
        Ok(Some(spec_u64_from_le_bytes(s.status[status_key()])))
    } else {
        Err(Error::Corruption)
    }
}

pub open spec fn spec_select(s: StorageV, key: Seq<u8>) -> Result<Option<Seq<u8>>, Error> {
    if s.custom.contains_key(key) {
        Ok(Some(s.custom[key]))
    } else {
        Ok(None)
    }
}

/// The view of a lookup result: the value's view inside the same shape.
pub open spec fn opt_res_view<T: View>(r: Result<Option<T>, Error>) -> Result<
    Option<T::V>,
    Error,
> {
    match r {
        Ok(None) => Ok(None),
        Ok(Some(v)) => Ok(Some(v@)),
        Err(e) => Err(e),
    }
}

impl Storage {
    /// Whether every table's internal layout is consistent.
    pub closed spec fn wf(&self) -> bool {
        &&& self.indexes.wf()
        &&& self.blocks.wf()
        &&& self.hashes.wf()
        &&& self.numbers.wf()
        &&& self.uncles.wf()
        &&& self.txs.wf()
        &&& self.cells.wf()
        &&& self.status.wf()
        &&& self.custom.wf()
    }

    /// A fresh engine with all nine tables empty.
    pub fn new() -> (r: Self)
        ensures
            r.wf(),
            r@.indexes == Map::<Seq<u8>, Seq<u8>>::empty(),
            r@.blocks == Map::<Seq<u8>, Seq<u8>>::empty(),
            r@.hashes == Map::<Seq<u8>, Seq<u8>>::empty(),
            r@.numbers == Map::<Seq<u8>, Seq<u8>>::empty(),
            r@.uncles == Map::<Seq<u8>, Seq<u8>>::empty(),
            r@.txs == Map::<Seq<u8>, Seq<u8>>::empty(),
            r@.cells == Map::<Seq<u8>, Seq<u8>>::empty(),
            r@.status == Map::<Seq<u8>, Seq<u8>>::empty(),
            r@.custom == Map::<Seq<u8>, Seq<u8>>::empty(),
    {
        Storage {
            indexes: Table::new(),
            blocks: Table::new(),
            hashes: Table::new(),
            numbers: Table::new(),
            uncles: Table::new(),
            txs: Table::new(),
            cells: Table::new(),
            status: Table::new(),
            custom: Table::new(),
        }
    }

    /// Stores one block: its buffer and index keyed by number, both hash
    /// maps, a location per uncle and per transaction, the live-cell
    /// updates (consumed inputs leave, own outputs enter), and the status
    /// record, all in one call.
    #[verifier::loop_isolation(false)]
    pub fn insert_block(&mut self, block: &Block) -> (r: Result<(), Error>)
        requires
            old(self).wf(),
            block@.wf(),
            block_bytes(block@).len() <= usize::MAX,
        ensures
            final(self).wf(),
            r is Ok,
            final(self)@ == spec_insert_block(old(self)@, block@),
    {
        let (buffer, block_index) = serialize_block_with_index(block);
        let index_bytes = serialize_block_index(&block_index);
        let number = block.header.number;
        self.indexes.put(u64_to_le_bytes(number), index_bytes);
        self.blocks.put(u64_to_le_bytes(number), buffer);
        self.hashes.put(u64_to_le_bytes(number), slice_to_vec(block.hash.bytes.as_slice()));
        self.numbers.put(slice_to_vec(block.hash.bytes.as_slice()), u64_to_le_bytes(number));
        let ghost s1 = self@;
        let ghost us = block@.uncles;
        let mut i: usize = 0;
        while i < block.uncles.len()
            invariant
                0 <= i <= block.uncles.len(),
                self.wf(),
                self@.indexes == s1.indexes,
                self@.blocks == s1.blocks,
                self@.hashes == s1.hashes,
                self@.numbers == s1.numbers,
                self@.uncles == uncles_after(s1.uncles, number, us.take(i as int)),
                self@.txs == s1.txs,
                self@.cells == s1.cells,
                self@.status == s1.status,
                self@.custom == s1.custom,
            decreases block.uncles.len() - i,
        {
            proof {
                assert(us[i as int] == block.uncles@[i as int]@);
                assert(us.take(i as int + 1).drop_last() =~= us.take(i as int));
                assert(us.take(i as int + 1).last() == us[i as int]);
            }
            let key = slice_to_vec(block.uncles[i].hash.bytes.as_slice());
            let value = Index::new(number, i).into_bytes();
            self.uncles.put(key, value);
            proof {
                assert(self@.uncles =~= uncles_after(s1.uncles, number, us.take(i as int + 1)));
            }
            i += 1;
        }
        proof {
            assert(us.take(block.uncles@.len() as int) =~= us);
        }
        let ghost s2 = self@;
        let ghost ts = block@.transactions;
        let mut k: usize = 0;
        while k < block.transactions.len()
            invariant
                0 <= k <= block.transactions.len(),
                self.wf(),
                self@.indexes == s2.indexes,
                self@.blocks == s2.blocks,
                self@.hashes == s2.hashes,
                self@.numbers == s2.numbers,
                self@.uncles == s2.uncles,
                self@.txs == txs_after(s2.txs, number, ts.take(k as int)),
                self@.cells == cells_after(s2.cells, ts.take(k as int)),
                self@.status == s2.status,
                self@.custom == s2.custom,
            decreases block.transactions.len() - k,
        {
            proof {
                assert(ts[k as int] == block.transactions@[k as int]@);
                assert(ts.take(k as int + 1).drop_last() =~= ts.take(k as int));
                assert(ts.take(k as int + 1).last() == ts[k as int]);
            }
            let tx = &block.transactions[k];
            let key = slice_to_vec(tx.hash.bytes.as_slice());
            let value = Index::new(number, k).into_bytes();
            self.txs.put(key, value);
            proof {
                assert(self@.txs =~= txs_after(s2.txs, number, ts.take(k as int + 1)));
            }
            let ghost c0 = self@.cells;
            let ghost ins = ts[k as int].inputs;
            let mut j: usize = 0;
            while j < tx.inputs.len()
                invariant
                    0 <= j <= tx.inputs.len(),
                    self.wf(),
                    self@.indexes == s2.indexes,
                    self@.blocks == s2.blocks,
                    self@.hashes == s2.hashes,
                    self@.numbers == s2.numbers,
                    self@.uncles == s2.uncles,
                    self@.txs == txs_after(s2.txs, number, ts.take(k as int + 1)),
                    self@.cells == inputs_removed(c0, ins.take(j as int)),
                    self@.status == s2.status,
                    self@.custom == s2.custom,
                decreases tx.inputs.len() - j,
            {
                proof {
                    assert(ins[j as int] == tx.inputs@[j as int]@);
                    assert(ins.take(j as int + 1).drop_last() =~= ins.take(j as int));
                    assert(ins.take(j as int + 1).last() == ins[j as int]);
                }
                match &tx.inputs[j].previous.cell {
                    Some(c) => {
                        let ck = CellIndex::new(clone_hash(&c.tx_hash), c.index).into_bytes();
                        self.cells.delete(ck.as_slice());
                    },
                    None => {},
                }
                j += 1;
            }
            proof {
                assert(ins.take(tx.inputs@.len() as int) =~= ins);
            }
            let ghost c1 = self@.cells;
            let mut j: usize = 0;
            while j < tx.outputs.len()
                invariant
                    0 <= j <= tx.outputs.len(),
                    self.wf(),
                    self@.indexes == s2.indexes,
                    self@.blocks == s2.blocks,
                    self@.hashes == s2.hashes,
                    self@.numbers == s2.numbers,
                    self@.uncles == s2.uncles,
                    self@.txs == txs_after(s2.txs, number, ts.take(k as int + 1)),
                    self@.cells == outputs_added(c1, ts[k as int].hash, j as nat),
                    self@.status == s2.status,
                    self@.custom == s2.custom,
                decreases tx.outputs.len() - j,
            {
                let ck = CellIndex::new(
                    clone_hash(&tx.hash),
                    #[verifier::truncate] (j as u32),
                ).into_bytes();
                let mut mv: Vec<u8> = Vec::new();
                mv.push(1u8);
                proof {
                    assert(mv@ =~= marker_value());
                }
                self.cells.put(ck, mv);
                proof {
                    assert(self@.cells =~= outputs_added(c1, ts[k as int].hash, (j + 1) as nat));
                }
                j += 1;
            }
            proof {
                assert(self@.cells =~= cells_after(s2.cells, ts.take(k as int + 1)));
            }
            k += 1;
        }
        proof {
            assert(ts.take(block.transactions@.len() as int) =~= ts);
        }
        self.status.put(status_key_vec(), u64_to_le_bytes(number));
        proof {
            assert(self@ =~= spec_insert_block(old(self)@, block@));
        }
        Ok(())
    }

    /// An opaque key/value write into the custom table.
    pub fn insert(&mut self, key: &[u8], value: &[u8]) -> (r: Result<(), Error>)
        requires
            old(self).wf(),
        ensures
            final(self).wf(),
            r is Ok,
            final(self)@ == (StorageV {
                custom: old(self)@.custom.insert(key@, value@),
                ..old(self)@
            }),
    {
        self.custom.put(slice_to_vec(key), slice_to_vec(value));
        proof {
            assert(self@ =~= (StorageV {
                custom: old(self)@.custom.insert(key@, value@),
                ..old(self)@
            }));
        }
        Ok(())
    }

    /// The hash of the block stored under a number.
    pub fn select_block_hash(&self, block_number: u64) -> (r: Result<Option<H256>, Error>)
        requires
            self.wf(),
        ensures
            opt_res_view(r) == spec_select_block_hash(self@, block_number),
    {
        let key = u64_to_le_bytes(block_number);
        let v = match self.hashes.get(key.as_slice()) {
            Some(v) => v,
            None => {
                return Ok(None);
            },
        };
        match unpack_hash(v.as_slice()) {
            Ok(h) => Ok(Some(h)),
            Err(e) => Err(e),
        }
    }

    /// The number of the block stored under a hash.
    pub fn select_block_number(&self, block_hash: &H256) -> (r: Result<Option<u64>, Error>)
        requires
            self.wf(),
        ensures
            opt_res_view(r) == spec_select_block_number(self@, block_hash@),
    {
        let v = match self.numbers.get(block_hash.bytes.as_slice()) {
            Some(v) => v,
            None => {
                return Ok(None);
            },
        };
        match unpack_u64(v.as_slice()) {
            Ok(n) => Ok(Some(n)),
            Err(e) => Err(e),
        }
    }

    /// The whole block stored under a number, through the full-decode path.
    pub fn select_block_by_number(&self, block_number: u64) -> (r: Result<Option<Block>, Error>)
        requires
            self.wf(),
        ensures
            opt_res_view(r) == spec_select_block_by_number(self@, block_number),
    {
        let key = u64_to_le_bytes(block_number);
        let index_bytes = match self.indexes.get(key.as_slice()) {
            Some(v) => v,
            None => {
                return Ok(None);
            },
        };
        let buffer = match self.blocks.get(key.as_slice()) {
            Some(v) => v,
            None => {
                return Ok(None);
            },
        };
        let block_index = match deserialize_block_index(index_bytes.as_slice()) {
            Ok(x) => x,
            Err(e) => {
                return Err(e);
            },
        };
        match deserialize_block(buffer.as_slice(), &block_index) {
            Ok(b) => Ok(Some(b)),
            Err(e) => Err(e),
        }
    }

    /// The whole block stored under a hash.
    pub fn select_block_by_hash(&self, block_hash: &H256) -> (r: Result<Option<Block>, Error>)
        requires
            self.wf(),
        ensures
            opt_res_view(r) == spec_select_block_by_hash(self@, block_hash@),
    {
        let number = match self.select_block_number(block_hash) {
            Ok(Some(n)) => n,
            Ok(None) => {
                return Ok(None);
            },
            Err(e) => {
                return Err(e);
            },
        };
        self.select_block_by_number(number)
    }

    /// One uncle, decoded from its position alone, without touching its
    /// sibling fields.
    pub fn select_uncle_block(&self, uncle_hash: &H256) -> (r: Result<Option<UncleBlock>, Error>)
        requires
            self.wf(),
        ensures
            opt_res_view(r) == spec_select_uncle_block(self@, uncle_hash@),
    {
        let loc = match self.uncles.get(uncle_hash.bytes.as_slice()) {
            Some(v) => v,
            None => {
                return Ok(None);
            },
        };
        if loc.len() != 16 {
            return Err(Error::Corruption);
        }
        let location = Index::from_slice(loc.as_slice());
        let key = u64_to_le_bytes(location.0);
        let index_bytes = match self.indexes.get(key.as_slice()) {
            Some(v) => v,
            None => {
                return Ok(None);
            },
        };
        let buffer = match self.blocks.get(key.as_slice()) {
            Some(v) => v,
            None => {
                return Ok(None);
            },
        };
        let block_index = match deserialize_block_index(index_bytes.as_slice()) {
            Ok(x) => x,
            Err(e) => {
                return Err(e);
            },
        };
        if location.1 >= block_index.uncles.len() {
            return Err(Error::Corruption);
        }
        proof {
            assert(block_index@.uncles[location.1 as int] == block_index.uncles@[location.1 as int]@);
        }
        match deserialize_uncle_block(buffer.as_slice(), &block_index.uncles[location.1]) {
            Ok(u) => Ok(Some(u)),
            Err(e) => Err(e),
        }
    }

    /// One transaction, decoded from its position alone.
    pub fn select_transaction(&self, tx_hash: &H256) -> (r: Result<Option<Transaction>, Error>)
        requires
            self.wf(),
        ensures
            opt_res_view(r) == spec_select_transaction(self@, tx_hash@),
    {
        let loc = match self.txs.get(tx_hash.bytes.as_slice()) {
            Some(v) => v,
            None => {
                return Ok(None);
            },
        };
        if loc.len() != 16 {
            return Err(Error::Corruption);
        }
        let location = Index::from_slice(loc.as_slice());
        let key = u64_to_le_bytes(location.0);
        let index_bytes = match self.indexes.get(key.as_slice()) {
            Some(v) => v,
            None => {
                return Ok(None);
            },
        };
        let buffer = match self.blocks.get(key.as_slice()) {
            Some(v) => v,
            None => {
                return Ok(None);
            },
        };
        let block_index = match deserialize_block_index(index_bytes.as_slice()) {
            Ok(x) => x,
            Err(e) => {
                return Err(e);
            },
        };
        if location.1 >= block_index.transactions.len() {
            return Err(Error::Corruption);
        }
        proof {
            assert(block_index@.transactions[location.1 as int] == block_index.transactions@[location.1 as int]@);
        }
        match deserialize_transaction(buffer.as_slice(), &block_index.transactions[location.1]) {
            Ok(t) => Ok(Some(t)),
            Err(e) => Err(e),
        }
    }

    /// One cell output, decoded from its single position: finer grained
    /// than decoding the whole transaction. An output index at or past the
    /// transaction's output count is absence, `Ok(None)`, like any other
    /// missing link of the lookup chain.
    pub fn select_cell_output(&self, tx_hash: &H256, cell_index: u32) -> (r: Result<
        Option<CellOutput>,
        Error,
    >)
        requires
            self.wf(),
        ensures
            opt_res_view(r) == spec_select_cell_output(self@, tx_hash@, cell_index),
    {
        let loc = match self.txs.get(tx_hash.bytes.as_slice()) {
            Some(v) => v,
            None => {
                return Ok(None);
            },
        };
        if loc.len() != 16 {
            return Err(Error::Corruption);
        }
        let location = Index::from_slice(loc.as_slice());
        let key = u64_to_le_bytes(location.0);
        let index_bytes = match self.indexes.get(key.as_slice()) {
            Some(v) => v,
            None => {
                return Ok(None);
            },
        };
        let buffer = match self.blocks.get(key.as_slice()) {
            Some(v) => v,
            None => {
                return Ok(None);
            },
        };
        let block_index = match deserialize_block_index(index_bytes.as_slice()) {
            Ok(x) => x,
            Err(e) => {
                return Err(e);
            },
        };
        if location.1 >= block_index.transactions.len() {
            return Err(Error::Corruption);
        }
        let entry = &block_index.transactions[location.1];
        proof {
            assert(block_index@.transactions[location.1 as int] == block_index.transactions@[location.1 as int]@);
        }
        if cell_index as usize >= entry.outputs.len() {
            return Ok(None);
        }
        proof {
            assert(entry@.outputs[cell_index as int] == entry.outputs@[cell_index as int]@);
        }
        match deserialize_output(buffer.as_slice(), &entry.outputs[cell_index as usize]) {
            Ok(o) => Ok(Some(o)),
            Err(e) => Err(e),
        }
    }

    /// Whether the output is live: `Some(())` when present; absence means
    /// the output does not exist or has been spent, indistinguishably.
    pub fn select_cell_status(&self, tx_hash: &H256, cell_index: u32) -> (r: Result<
        Option<()>,
        Error,
    >)
        requires
            self.wf(),
        ensures
            r == spec_select_cell_status(self@, tx_hash@, cell_index),
    {
        let key = CellIndex::new(clone_hash(tx_hash), cell_index).into_bytes();
        match self.cells.get(key.as_slice()) {
            Some(_) => Ok(Some(())),
            None => Ok(None),
        }
    }

    /// The highest block number stored so far.
    pub fn select_max_number(&self) -> (r: Result<Option<u64>, Error>)
        requires
            self.wf(),
        ensures
            opt_res_view(r) == spec_select_max_number(self@),
    {
        let key = status_key_vec();
        let v = match self.status.get(key.as_slice()) {
            Some(v) => v,
            None => {
                return Ok(None);
            },
        };
        match unpack_u64(v.as_slice()) {
            Ok(n) => Ok(Some(n)),
            Err(e) => Err(e),
        }
    }

    /// An opaque read from the custom table.
    pub fn select(&self, key: &[u8]) -> (r: Result<Option<Vec<u8>>, Error>)
        requires
            self.wf(),
        ensures
            opt_res_view(r) == spec_select(self@, key@),
    {
        match self.custom.get(key) {
            Some(v) => Ok(Some(slice_to_vec(v.as_slice()))),
            None => Ok(None),
        }
    }
}

} // verus!
