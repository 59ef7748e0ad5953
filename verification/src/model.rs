//! The data model: fully-materialized block values as plain data.
//!
//! Each executable type carries a mathematical view (`@`) built from `Seq`,
//! integers and `Option`, and a well-formedness predicate `wf` on the view.
//! Well-formedness pins the machine-level shape the persisted layout relies
//! on: hashes are exactly 32 bytes, and a lock script's length fits the
//! 32-bit width its encoding uses.

use vstd::prelude::*;

verus! {

/// A 32-byte hash identifying a block, an uncle or a transaction.
#[derive(Clone, Debug, PartialEq, Eq)]
pub struct H256 {
    pub bytes: Vec<u8>,
}

pub ghost struct H256V {
    pub bytes: Seq<u8>,
}

impl View for H256 {
    type V = H256V;

    open spec fn view(&self) -> H256V {
        H256V { bytes: self.bytes@ }
    }
}

impl H256V {
    pub open spec fn wf(self) -> bool {
        self.bytes.len() == 32
    }
}

/// A block header: the block number the storage engine keys on, and the
/// remaining header fields carried as one opaque payload.
#[derive(Clone, Debug, PartialEq, Eq)]
pub struct Header {
    pub number: u64,
    pub payload: Vec<u8>,
}

pub ghost struct HeaderV {
    pub number: u64,
    pub payload: Seq<u8>,
}

impl View for Header {
    type V = HeaderV;

    open spec fn view(&self) -> HeaderV {
        HeaderV { number: self.number, payload: self.payload@ }
    }
}

/// A reference to one output of an earlier transaction.
#[derive(Clone, Debug, PartialEq, Eq)]
pub struct CellRef {
    pub tx_hash: H256,
    pub index: u32,
}

pub ghost struct CellRefV {
    pub tx_hash: H256V,
    pub index: u32,
}

impl View for CellRef {
    type V = CellRefV;

    open spec fn view(&self) -> CellRefV {
        CellRefV { tx_hash: self.tx_hash@, index: self.index }
    }
}

impl CellRefV {
    pub open spec fn wf(self) -> bool {
        self.tx_hash.wf()
    }
}

/// A transaction's pointer to a previous output; a cellbase input points at
/// no cell at all.
#[derive(Clone, Debug, PartialEq, Eq)]
pub struct OutPoint {
    pub cell: Option<CellRef>,
}

pub ghost struct OutPointV {
    pub cell: Option<CellRefV>,
}

impl View for OutPoint {
    type V = OutPointV;

    open spec fn view(&self) -> OutPointV {
        OutPointV {
            cell: match self.cell {
                Some(ref c) => Some(c@),
                None => None,
            },
        }
    }
}

impl OutPointV {
    pub open spec fn wf(self) -> bool {
        match self.cell {
            Some(c) => c.wf(),
            None => true,
        }
    }
}

/// A consumed input: the output it spends and its lock argument.
#[derive(Clone, Debug, PartialEq, Eq)]
pub struct CellInput {
    pub previous: OutPoint,
    pub since: u64,
}

pub ghost struct CellInputV {
    pub previous: OutPointV,
    pub since: u64,
}

impl View for CellInput {
    type V = CellInputV;

    open spec fn view(&self) -> CellInputV {
        CellInputV { previous: self.previous@, since: self.since }
    }
}

impl CellInputV {
    pub open spec fn wf(self) -> bool {
        self.previous.wf()
    }
}

/// A created output: its capacity, its lock script and its data.
#[derive(Clone, Debug, PartialEq, Eq)]
pub struct CellOutput {
    pub capacity: u64,
    pub lock: Vec<u8>,
    pub data: Vec<u8>,
}

pub ghost struct CellOutputV {
    pub capacity: u64,
    pub lock: Seq<u8>,
    pub data: Seq<u8>,
}

impl View for CellOutput {
    type V = CellOutputV;

    open spec fn view(&self) -> CellOutputV {
        CellOutputV { capacity: self.capacity, lock: self.lock@, data: self.data@ }
    }
}

impl CellOutputV {
    pub open spec fn wf(self) -> bool {
        self.lock.len() <= u32::MAX
    }
}

/// A full transaction, already materialized, with its hash.
#[derive(Clone, Debug, PartialEq, Eq)]
pub struct Transaction {
    pub hash: H256,
    pub version: u32,
    pub deps: Vec<OutPoint>,
    pub inputs: Vec<CellInput>,
    pub outputs: Vec<CellOutput>,
    pub witnesses: Vec<Vec<u8>>,
}

pub ghost struct TransactionV {
    pub hash: H256V,
    pub version: u32,
    pub deps: Seq<OutPointV>,
    pub inputs: Seq<CellInputV>,
    pub outputs: Seq<CellOutputV>,
    pub witnesses: Seq<Seq<u8>>,
}

impl View for Transaction {
    type V = TransactionV;

    open spec fn view(&self) -> TransactionV {
        TransactionV {
            hash: self.hash@,
            version: self.version,
            deps: self.deps@.map_values(|d: OutPoint| d@),
            inputs: self.inputs@.map_values(|i: CellInput| i@),
            outputs: self.outputs@.map_values(|o: CellOutput| o@),
            witnesses: self.witnesses@.map_values(|w: Vec<u8>| w@),
        }
    }
}

impl TransactionV {
    pub open spec fn wf(self) -> bool {
        &&& self.hash.wf()
        &&& forall|i: int| 0 <= i < self.deps.len() ==> (#[trigger] self.deps[i]).wf()
        &&& forall|i: int| 0 <= i < self.inputs.len() ==> (#[trigger] self.inputs[i]).wf()
        &&& forall|i: int| 0 <= i < self.outputs.len() ==> (#[trigger] self.outputs[i]).wf()
    }
}

/// An uncle block: its hash, its header and its proposal short ids.
#[derive(Clone, Debug, PartialEq, Eq)]
pub struct UncleBlock {
    pub hash: H256,
    pub header: Header,
    pub proposals: Vec<Vec<u8>>,
}

pub ghost struct UncleBlockV {
    pub hash: H256V,
    pub header: HeaderV,
    pub proposals: Seq<Seq<u8>>,
}

impl View for UncleBlock {
    type V = UncleBlockV;

    open spec fn view(&self) -> UncleBlockV {
        UncleBlockV {
            hash: self.hash@,
            header: self.header@,
            proposals: self.proposals@.map_values(|p: Vec<u8>| p@),
        }
    }
}

impl UncleBlockV {
    pub open spec fn wf(self) -> bool {
        self.hash.wf()
    }
}

/// A full block, the unit the storage engine persists.
#[derive(Clone, Debug, PartialEq, Eq)]
pub struct Block {
    pub hash: H256,
    pub header: Header,
    pub uncles: Vec<UncleBlock>,
    pub transactions: Vec<Transaction>,
    pub proposals: Vec<Vec<u8>>,
}

pub ghost struct BlockV {
    pub hash: H256V,
    pub header: HeaderV,
    pub uncles: Seq<UncleBlockV>,
    pub transactions: Seq<TransactionV>,
    pub proposals: Seq<Seq<u8>>,
}

impl View for Block {
    type V = BlockV;

    open spec fn view(&self) -> BlockV {
        BlockV {
            hash: self.hash@,
            header: self.header@,
            uncles: self.uncles@.map_values(|u: UncleBlock| u@),
            transactions: self.transactions@.map_values(|t: Transaction| t@),
            proposals: self.proposals@.map_values(|p: Vec<u8>| p@),
        }
    }
}

impl BlockV {
    pub open spec fn wf(self) -> bool {
        &&& self.hash.wf()
        &&& forall|i: int| 0 <= i < self.uncles.len() ==> (#[trigger] self.uncles[i]).wf()
        &&& forall|i: int|
            0 <= i < self.transactions.len() ==> (#[trigger] self.transactions[i]).wf()
    }
}

} // verus!
