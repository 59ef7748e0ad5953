//! The positional index: a tree of byte ranges mirroring a block's shape.
//!
//! A `Position` addresses one field inside a block's flat buffer. The
//! `calculate_*` functions lay fields out by accumulating a running offset
//! over the serialized sizes, in the fixed serialization order; the spec
//! functions `positions_from`, `spec_transaction_index`,
//! `spec_uncle_block_index` and `spec_block_index` are the mathematical
//! layout they are proved to produce.

use vstd::prelude::*;
use crate::encoding::blob_enc;
use crate::encoding::block_bytes;
use crate::encoding::transaction_bytes;
use crate::encoding::uncle_bytes;
use crate::encoding::concat_with;
use crate::encoding::hash_bytes;
use crate::encoding::header_bytes;
use crate::encoding::input_enc;
use crate::encoding::out_point_enc;
use crate::encoding::output_enc;
use crate::encoding::transaction_enc;
use crate::encoding::uncle_enc;
use crate::encoding::version_bytes;
use crate::model::BlockV;
use crate::model::TransactionV;
use crate::model::UncleBlockV;

verus! {

/// A byte range into one block's serialized buffer.
#[derive(Clone, Copy, Debug, PartialEq, Eq, Structural)]
pub struct Position {
    pub offset: usize,
    pub length: usize,
}

pub ghost struct PosV {
    pub offset: int,
    pub length: int,
}

impl View for Position {
    type V = PosV;

    open spec fn view(&self) -> PosV {
        PosV { offset: self.offset as int, length: self.length as int }
    }
}

impl Position {
    pub fn new(offset: usize, length: usize) -> (r: Self)
        ensures
            r.offset == offset,
            r.length == length,
    {
        Self { offset, length }
    }
}

impl PosV {
    /// The first offset past this range.
    pub open spec fn end(self) -> int {
        self.offset + self.length
    }
}

/// The sizes in a list of machine-width lengths, as mathematical integers.
pub open spec fn usize_lens(v: Seq<usize>) -> Seq<int> {
    v.map_values(|x: usize| x as int)
}

// ---------------------------------------------------------------------------
// Serialized sizes, mirroring the block's shape
// ---------------------------------------------------------------------------
pub struct TransactionSize {
    pub hash: usize,
    pub version: usize,
    pub deps: Vec<usize>,
    pub inputs: Vec<usize>,
    pub outputs: Vec<usize>,
    pub witnesses: Vec<usize>,
}

pub ghost struct TransactionSizeV {
    pub hash: int,
    pub version: int,
    pub deps: Seq<int>,
    pub inputs: Seq<int>,
    pub outputs: Seq<int>,
    pub witnesses: Seq<int>,
}

impl View for TransactionSize {
    type V = TransactionSizeV;

    open spec fn view(&self) -> TransactionSizeV {
        TransactionSizeV {
            hash: self.hash as int,
            version: self.version as int,
            deps: usize_lens(self.deps@),
            inputs: usize_lens(self.inputs@),
            outputs: usize_lens(self.outputs@),
            witnesses: usize_lens(self.witnesses@),
        }
    }
}

pub struct UncleBlockSize {
    pub hash: usize,
    pub header: usize,
    pub proposals: Vec<usize>,
}

pub ghost struct UncleBlockSizeV {
    pub hash: int,
    pub header: int,
    pub proposals: Seq<int>,
}

impl View for UncleBlockSize {
    type V = UncleBlockSizeV;

    open spec fn view(&self) -> UncleBlockSizeV {
        UncleBlockSizeV {
            hash: self.hash as int,
            header: self.header as int,
            proposals: usize_lens(self.proposals@),
        }
    }
}

pub struct BlockSize {
    pub hash: usize,
    pub header: usize,
    pub uncles: Vec<UncleBlockSize>,
    pub transactions: Vec<TransactionSize>,
    pub proposals: Vec<usize>,
}

pub ghost struct BlockSizeV {
    pub hash: int,
    pub header: int,
    pub uncles: Seq<UncleBlockSizeV>,
    pub transactions: Seq<TransactionSizeV>,
    pub proposals: Seq<int>,
}

impl View for BlockSize {
    type V = BlockSizeV;

    open spec fn view(&self) -> BlockSizeV {
        BlockSizeV {
            hash: self.hash as int,
            header: self.header as int,
            uncles: self.uncles@.map_values(|u: UncleBlockSize| u@),
            transactions: self.transactions@.map_values(|t: TransactionSize| t@),
            proposals: usize_lens(self.proposals@),
        }
    }
}

/// A sequence of sizes is well formed when none is negative.
pub open spec fn lens_wf(lens: Seq<int>) -> bool {
    forall|i: int| 0 <= i < lens.len() ==> lens[i] >= 0
}

impl TransactionSizeV {
    pub open spec fn wf(self) -> bool {
        &&& self.hash >= 0
        &&& self.version >= 0
        &&& lens_wf(self.deps)
        &&& lens_wf(self.inputs)
        &&& lens_wf(self.outputs)
        &&& lens_wf(self.witnesses)
    }

    pub open spec fn total(self) -> int {
        self.hash + self.version + sum(self.deps) + sum(self.inputs) + sum(self.outputs) + sum(
            self.witnesses,
        )
    }
}

impl UncleBlockSizeV {
    pub open spec fn wf(self) -> bool {
        &&& self.hash >= 0
        &&& self.header >= 0
        &&& lens_wf(self.proposals)
    }

    pub open spec fn total(self) -> int {
        self.hash + self.header + sum(self.proposals)
    }
}

impl BlockSizeV {
    pub open spec fn wf(self) -> bool {
        &&& self.hash >= 0
        &&& self.header >= 0
        &&& forall|i: int| 0 <= i < self.uncles.len() ==> (#[trigger] self.uncles[i]).wf()
        &&& forall|i: int|
            0 <= i < self.transactions.len() ==> (#[trigger] self.transactions[i]).wf()
        &&& lens_wf(self.proposals)
    }

    pub open spec fn total(self) -> int {
        self.hash + self.header + sum(uncle_totals(self.uncles)) + sum(
            transaction_totals(self.transactions),
        ) + sum(self.proposals)
    }
}

pub open spec fn uncle_totals(us: Seq<UncleBlockSizeV>) -> Seq<int> {
    us.map_values(|u: UncleBlockSizeV| u.total())
}

pub open spec fn transaction_totals(ts: Seq<TransactionSizeV>) -> Seq<int> {
    ts.map_values(|t: TransactionSizeV| t.total())
}

// ---------------------------------------------------------------------------
// Sums of size lists
// ---------------------------------------------------------------------------
pub open spec fn sum(lens: Seq<int>) -> int
    decreases lens.len(),
{
    if lens.len() == 0 {
        0
    } else {
        lens[0] + sum(lens.skip(1))
    }
}

pub proof fn lemma_sum_snoc(lens: Seq<int>, x: int)
    ensures
        sum(lens.push(x)) == sum(lens) + x,
    decreases lens.len(),
{
    if lens.len() == 0 {
        assert(lens.push(x)[0] == x);
        assert(lens.push(x).skip(1) =~= Seq::<int>::empty());
        assert(sum(Seq::<int>::empty()) == 0);
    } else {
        assert(lens.push(x)[0] == lens[0]);
        assert(lens.push(x).skip(1) =~= lens.skip(1).push(x));
        lemma_sum_snoc(lens.skip(1), x);
        assert(sum(lens.push(x)) == lens[0] + sum(lens.skip(1).push(x)));
    }
}

pub proof fn lemma_sum_nonneg(lens: Seq<int>)
    requires
        lens_wf(lens),
    ensures
        sum(lens) >= 0,
    decreases lens.len(),
{
    if lens.len() > 0 {
        assert(lens_wf(lens.skip(1)));
        lemma_sum_nonneg(lens.skip(1));
    }
}

/// Any prefix sum of a nonnegative list is bounded by the whole sum.
pub proof fn lemma_sum_take_le(lens: Seq<int>, i: int)
    requires
        lens_wf(lens),
        0 <= i <= lens.len(),
    ensures
        sum(lens.take(i)) <= sum(lens),
        sum(lens.take(i)) >= 0,
    decreases lens.len(),
{
    assert(lens_wf(lens.take(i)));
    lemma_sum_nonneg(lens.take(i));
    if i == lens.len() {
        assert(lens.take(i) =~= lens);
    } else if lens.len() > 0 {
        if i == 0 {
            lemma_sum_nonneg(lens);
        } else {
            assert(lens.take(i).skip(1) =~= lens.skip(1).take(i - 1));
            assert(lens_wf(lens.skip(1)));
            lemma_sum_take_le(lens.skip(1), i - 1);
        }
    }
}

// ---------------------------------------------------------------------------
// Laying positions out from a running offset
// ---------------------------------------------------------------------------
pub open spec fn positions_from(base: int, lens: Seq<int>) -> Seq<PosV>
    decreases lens.len(),
{
    if lens.len() == 0 {
        Seq::empty()
    } else {
        seq![PosV { offset: base, length: lens[0] }] + positions_from(base + lens[0], lens.skip(1))
    }
}

pub proof fn lemma_positions_from_snoc(base: int, lens: Seq<int>, x: int)
    ensures
        positions_from(base, lens.push(x)) =~= positions_from(base, lens).push(
            (PosV { offset: base + sum(lens), length: x }),
        ),
    decreases lens.len(),
{
    if lens.len() == 0 {
        assert(lens.push(x)[0] == x);
        assert(lens.push(x).skip(1) =~= Seq::<int>::empty());
        assert(positions_from(base + x, Seq::<int>::empty()) =~= Seq::<PosV>::empty());
        assert(sum(Seq::<int>::empty()) == 0);
    } else {
        assert(lens.push(x)[0] == lens[0]);
        assert(lens.push(x).skip(1) =~= lens.skip(1).push(x));
        lemma_positions_from_snoc(base + lens[0], lens.skip(1), x);
        lemma_sum_snoc(lens.skip(1), x);
        assert(positions_from(base, lens.push(x)) =~= seq![
            PosV { offset: base, length: lens[0] },
        ] + positions_from(base + lens[0], lens.skip(1).push(x)));
        assert(sum(lens) == lens[0] + sum(lens.skip(1)));
    }
}

pub proof fn lemma_positions_from_len(base: int, lens: Seq<int>)
    ensures
        positions_from(base, lens).len() == lens.len(),
    decreases lens.len(),
{
    if lens.len() > 0 {
        lemma_positions_from_len(base + lens[0], lens.skip(1));
    }
}

/// The position of element `i`: its offset is the base plus everything laid
/// out before it.
pub proof fn lemma_positions_from_index(base: int, lens: Seq<int>, i: int)
    requires
        0 <= i < lens.len(),
    ensures
        positions_from(base, lens).len() == lens.len(),
        positions_from(base, lens)[i] == (PosV {
            offset: base + sum(lens.take(i)),
            length: lens[i],
        }),
    decreases i,
{
    lemma_positions_from_len(base, lens);
    if i == 0 {
        assert(lens.take(0) =~= Seq::<int>::empty());
    } else {
        lemma_positions_from_index(base + lens[0], lens.skip(1), i - 1);
        assert(lens.skip(1).take(i - 1) =~= lens.take(i).skip(1));
        assert(sum(lens.take(i)) == lens[0] + sum(lens.take(i).skip(1)));
    }
}

// ---------------------------------------------------------------------------
// The serialized sizes of a block value
// ---------------------------------------------------------------------------
/// The encoded length of each element of `s` under the encoding `f`.
pub open spec fn lens_of<T>(f: spec_fn(T) -> Seq<u8>, s: Seq<T>) -> Seq<int> {
    s.map_values(|x: T| f(x).len() as int)
}

pub open spec fn spec_transaction_size(t: TransactionV) -> TransactionSizeV {
    TransactionSizeV {
        hash: hash_bytes(t.hash).len() as int,
        version: version_bytes(t.version).len() as int,
        deps: lens_of(out_point_enc(), t.deps),
        inputs: lens_of(input_enc(), t.inputs),
        outputs: lens_of(output_enc(), t.outputs),
        witnesses: lens_of(blob_enc(), t.witnesses),
    }
}

pub open spec fn spec_uncle_block_size(u: UncleBlockV) -> UncleBlockSizeV {
    UncleBlockSizeV {
        hash: hash_bytes(u.hash).len() as int,
        header: header_bytes(u.header).len() as int,
        proposals: lens_of(blob_enc(), u.proposals),
    }
}

pub open spec fn spec_block_size(b: BlockV) -> BlockSizeV {
    BlockSizeV {
        hash: hash_bytes(b.hash).len() as int,
        header: header_bytes(b.header).len() as int,
        uncles: b.uncles.map_values(|u: UncleBlockV| spec_uncle_block_size(u)),
        transactions: b.transactions.map_values(|t: TransactionV| spec_transaction_size(t)),
        proposals: lens_of(blob_enc(), b.proposals),
    }
}

pub proof fn lemma_lens_of_wf<T>(f: spec_fn(T) -> Seq<u8>, s: Seq<T>)
    ensures
        lens_wf(lens_of(f, s)),
{
    assert forall|i: int| 0 <= i < lens_of(f, s).len() implies lens_of(f, s)[i] >= 0 by {
        assert(lens_of(f, s)[i] == f(s[i]).len() as int);
    }
}

/// The sizes of a list sum to the length of its concatenation.
pub proof fn lemma_sum_lens_of<T>(f: spec_fn(T) -> Seq<u8>, s: Seq<T>)
    ensures
        sum(lens_of(f, s)) == concat_with(f, s).len(),
    decreases s.len(),
{
    if s.len() == 0 {
    } else {
        assert(lens_of(f, s)[0] == f(s[0]).len() as int);
        assert(lens_of(f, s).skip(1) =~= lens_of(f, s.skip(1)));
        lemma_sum_lens_of(f, s.skip(1));
    }
}

pub proof fn lemma_spec_transaction_size_wf(t: TransactionV)
    ensures
        spec_transaction_size(t).wf(),
{
    lemma_lens_of_wf(out_point_enc(), t.deps);
    lemma_lens_of_wf(input_enc(), t.inputs);
    lemma_lens_of_wf(output_enc(), t.outputs);
    lemma_lens_of_wf(blob_enc(), t.witnesses);
}

pub proof fn lemma_spec_uncle_block_size_wf(u: UncleBlockV)
    ensures
        spec_uncle_block_size(u).wf(),
{
    lemma_lens_of_wf(blob_enc(), u.proposals);
}

pub proof fn lemma_spec_block_size_wf(b: BlockV)
    ensures
        spec_block_size(b).wf(),
{
    let sz = spec_block_size(b);
    assert forall|i: int| 0 <= i < sz.uncles.len() implies (#[trigger] sz.uncles[i]).wf() by {
        assert(sz.uncles[i] == spec_uncle_block_size(b.uncles[i]));
        lemma_spec_uncle_block_size_wf(b.uncles[i]);
    }
    assert forall|i: int|
        0 <= i < sz.transactions.len() implies (#[trigger] sz.transactions[i]).wf() by {
        assert(sz.transactions[i] == spec_transaction_size(b.transactions[i]));
        lemma_spec_transaction_size_wf(b.transactions[i]);
    }
    lemma_lens_of_wf(blob_enc(), b.proposals);
}

pub proof fn lemma_transaction_size_total(t: TransactionV)
    ensures
        spec_transaction_size(t).total() == transaction_bytes(t).len(),
{
    lemma_sum_lens_of(out_point_enc(), t.deps);
    lemma_sum_lens_of(input_enc(), t.inputs);
    lemma_sum_lens_of(output_enc(), t.outputs);
    lemma_sum_lens_of(blob_enc(), t.witnesses);
}

pub proof fn lemma_uncle_block_size_total(u: UncleBlockV)
    ensures
        spec_uncle_block_size(u).total() == uncle_bytes(u).len(),
{
    lemma_sum_lens_of(blob_enc(), u.proposals);
}

pub proof fn lemma_block_size_total(b: BlockV)
    ensures
        spec_block_size(b).total() == block_bytes(b).len(),
{
    let sz = spec_block_size(b);
    assert(uncle_totals(sz.uncles) =~= lens_of(uncle_enc(), b.uncles)) by {
        assert forall|i: int|
            0 <= i < b.uncles.len() implies uncle_totals(sz.uncles)[i] == lens_of(
            uncle_enc(),
            b.uncles,
        )[i] by {
            assert(sz.uncles[i] == spec_uncle_block_size(b.uncles[i]));
            lemma_uncle_block_size_total(b.uncles[i]);
        }
    }
    assert(transaction_totals(sz.transactions) =~= lens_of(transaction_enc(), b.transactions)) by {
        assert forall|i: int|
            0 <= i < b.transactions.len() implies transaction_totals(sz.transactions)[i]
            == lens_of(transaction_enc(), b.transactions)[i] by {
            assert(sz.transactions[i] == spec_transaction_size(b.transactions[i]));
            lemma_transaction_size_total(b.transactions[i]);
        }
    }
    lemma_sum_lens_of(uncle_enc(), b.uncles);
    lemma_sum_lens_of(transaction_enc(), b.transactions);
    lemma_sum_lens_of(blob_enc(), b.proposals);
}

// ---------------------------------------------------------------------------
// The index trees
// ---------------------------------------------------------------------------
pub open spec fn pos_views(v: Seq<Position>) -> Seq<PosV> {
    v.map_values(|p: Position| p@)
}

#[derive(Debug, PartialEq, Eq)]
pub struct TransactionIndex {
    pub hash: Position,
    pub version: Position,
    pub deps: Vec<Position>,
    pub inputs: Vec<Position>,
    pub outputs: Vec<Position>,
    pub witnesses: Vec<Position>,
}

#[verifier::ext_equal]
pub ghost struct TransactionIndexV {
    pub hash: PosV,
    pub version: PosV,
    pub deps: Seq<PosV>,
    pub inputs: Seq<PosV>,
    pub outputs: Seq<PosV>,
    pub witnesses: Seq<PosV>,
}

impl View for TransactionIndex {
    type V = TransactionIndexV;

    open spec fn view(&self) -> TransactionIndexV {
        TransactionIndexV {
            hash: self.hash@,
            version: self.version@,
            deps: pos_views(self.deps@),
            inputs: pos_views(self.inputs@),
            outputs: pos_views(self.outputs@),
            witnesses: pos_views(self.witnesses@),
        }
    }
}

#[derive(Debug, PartialEq, Eq)]
pub struct UncleBlockIndex {
    pub hash: Position,
    pub header: Position,
    pub proposals: Vec<Position>,
}

#[verifier::ext_equal]
pub ghost struct UncleBlockIndexV {
    pub hash: PosV,
    pub header: PosV,
    pub proposals: Seq<PosV>,
}

impl View for UncleBlockIndex {
    type V = UncleBlockIndexV;

    open spec fn view(&self) -> UncleBlockIndexV {
        UncleBlockIndexV {
            hash: self.hash@,
            header: self.header@,
            proposals: pos_views(self.proposals@),
        }
    }
}

#[derive(Debug, PartialEq, Eq)]
pub struct BlockIndex {
    pub hash: Position,
    pub header: Position,
    pub uncles: Vec<UncleBlockIndex>,
    pub transactions: Vec<TransactionIndex>,
    pub proposals: Vec<Position>,
}

#[verifier::ext_equal]
pub ghost struct BlockIndexV {
    pub hash: PosV,
    pub header: PosV,
    pub uncles: Seq<UncleBlockIndexV>,
    pub transactions: Seq<TransactionIndexV>,
    pub proposals: Seq<PosV>,
}

impl View for BlockIndex {
    type V = BlockIndexV;

    open spec fn view(&self) -> BlockIndexV {
        BlockIndexV {
            hash: self.hash@,
            header: self.header@,
            uncles: self.uncles@.map_values(|u: UncleBlockIndex| u@),
            transactions: self.transactions@.map_values(|t: TransactionIndex| t@),
            proposals: pos_views(self.proposals@),
        }
    }
}

// ---------------------------------------------------------------------------
// The layout: every field's position from the running offset
// ---------------------------------------------------------------------------
pub open spec fn spec_transaction_index(base: int, t: TransactionSizeV) -> TransactionIndexV {
    let o1 = base + t.hash;
    let o2 = o1 + t.version;
    let o3 = o2 + sum(t.deps);
    let o4 = o3 + sum(t.inputs);
    let o5 = o4 + sum(t.outputs);
    TransactionIndexV {
        hash: PosV { offset: base, length: t.hash },
        version: PosV { offset: o1, length: t.version },
        deps: positions_from(o2, t.deps),
        inputs: positions_from(o3, t.inputs),
        outputs: positions_from(o4, t.outputs),
        witnesses: positions_from(o5, t.witnesses),
    }
}

pub open spec fn spec_uncle_block_index(base: int, u: UncleBlockSizeV) -> UncleBlockIndexV {
    UncleBlockIndexV {
        hash: PosV { offset: base, length: u.hash },
        header: PosV { offset: base + u.hash, length: u.header },
        proposals: positions_from(base + u.hash + u.header, u.proposals),
    }
}

pub open spec fn spec_uncle_indices(base: int, us: Seq<UncleBlockSizeV>) -> Seq<UncleBlockIndexV>
    decreases us.len(),
{
    if us.len() == 0 {
        Seq::empty()
    } else {
        seq![spec_uncle_block_index(base, us[0])] + spec_uncle_indices(
            base + us[0].total(),
            us.skip(1),
        )
    }
}

pub open spec fn spec_transaction_indices(base: int, ts: Seq<TransactionSizeV>) -> Seq<
    TransactionIndexV,
>
    decreases ts.len(),
{
    if ts.len() == 0 {
        Seq::empty()
    } else {
        seq![spec_transaction_index(base, ts[0])] + spec_transaction_indices(
            base + ts[0].total(),
            ts.skip(1),
        )
    }
}

pub open spec fn spec_block_index(sz: BlockSizeV) -> BlockIndexV {
    let o1 = sz.hash;
    let o2 = o1 + sz.header;
    let o3 = o2 + sum(uncle_totals(sz.uncles));
    let o4 = o3 + sum(transaction_totals(sz.transactions));
    BlockIndexV {
        hash: PosV { offset: 0, length: sz.hash },
        header: PosV { offset: o1, length: sz.header },
        uncles: spec_uncle_indices(o2, sz.uncles),
        transactions: spec_transaction_indices(o3, sz.transactions),
        proposals: positions_from(o4, sz.proposals),
    }
}

pub proof fn lemma_uncle_indices_snoc(base: int, us: Seq<UncleBlockSizeV>, u: UncleBlockSizeV)
    ensures
        spec_uncle_indices(base, us.push(u)) =~= spec_uncle_indices(base, us).push(
            spec_uncle_block_index(base + sum(uncle_totals(us)), u),
        ),
    decreases us.len(),
{
    if us.len() == 0 {
        assert(us.push(u)[0] == u);
        assert(us.push(u).skip(1) =~= Seq::<UncleBlockSizeV>::empty());
        assert(spec_uncle_indices(base + u.total(), Seq::<UncleBlockSizeV>::empty())
            =~= Seq::<UncleBlockIndexV>::empty());
        assert(uncle_totals(us) =~= Seq::<int>::empty());
        assert(sum(Seq::<int>::empty()) == 0);
    } else {
        assert(us.push(u)[0] == us[0]);
        assert(us.push(u).skip(1) =~= us.skip(1).push(u));
        lemma_uncle_indices_snoc(base + us[0].total(), us.skip(1), u);
        assert(uncle_totals(us)[0] == us[0].total());
        assert(uncle_totals(us).skip(1) =~= uncle_totals(us.skip(1)));
        assert(sum(uncle_totals(us)) == us[0].total() + sum(uncle_totals(us.skip(1))));
    }
}

pub proof fn lemma_transaction_indices_snoc(
    base: int,
    ts: Seq<TransactionSizeV>,
    t: TransactionSizeV,
)
    ensures
        spec_transaction_indices(base, ts.push(t)) =~= spec_transaction_indices(base, ts).push(
            spec_transaction_index(base + sum(transaction_totals(ts)), t),
        ),
    decreases ts.len(),
{
    if ts.len() == 0 {
        assert(ts.push(t)[0] == t);
        assert(ts.push(t).skip(1) =~= Seq::<TransactionSizeV>::empty());
        assert(spec_transaction_indices(base + t.total(), Seq::<TransactionSizeV>::empty())
            =~= Seq::<TransactionIndexV>::empty());
        assert(transaction_totals(ts) =~= Seq::<int>::empty());
        assert(sum(Seq::<int>::empty()) == 0);
    } else {
        assert(ts.push(t)[0] == ts[0]);
        assert(ts.push(t).skip(1) =~= ts.skip(1).push(t));
        lemma_transaction_indices_snoc(base + ts[0].total(), ts.skip(1), t);
        assert(transaction_totals(ts)[0] == ts[0].total());
        assert(transaction_totals(ts).skip(1) =~= transaction_totals(ts.skip(1)));
        assert(sum(transaction_totals(ts)) == ts[0].total() + sum(
            transaction_totals(ts.skip(1)),
        ));
    }
}

pub proof fn lemma_uncle_indices_index(base: int, us: Seq<UncleBlockSizeV>, i: int)
    requires
        0 <= i < us.len(),
    ensures
        spec_uncle_indices(base, us).len() == us.len(),
        spec_uncle_indices(base, us)[i] == spec_uncle_block_index(
            base + sum(uncle_totals(us).take(i)),
            us[i],
        ),
    decreases i,
{
    lemma_uncle_indices_len(base, us);
    if i == 0 {
        assert(uncle_totals(us).take(0) =~= Seq::<int>::empty());
    } else {
        lemma_uncle_indices_index(base + us[0].total(), us.skip(1), i - 1);
        assert(uncle_totals(us.skip(1)).take(i - 1) =~= uncle_totals(us).take(i).skip(1));
        assert(uncle_totals(us).take(i)[0] == us[0].total());
        assert(sum(uncle_totals(us).take(i)) == us[0].total() + sum(
            uncle_totals(us).take(i).skip(1),
        ));
    }
}

pub proof fn lemma_uncle_indices_len(base: int, us: Seq<UncleBlockSizeV>)
    ensures
        spec_uncle_indices(base, us).len() == us.len(),
    decreases us.len(),
{
    if us.len() > 0 {
        lemma_uncle_indices_len(base + us[0].total(), us.skip(1));
    }
}

pub proof fn lemma_transaction_indices_index(base: int, ts: Seq<TransactionSizeV>, i: int)
    requires
        0 <= i < ts.len(),
    ensures
        spec_transaction_indices(base, ts).len() == ts.len(),
        spec_transaction_indices(base, ts)[i] == spec_transaction_index(
            base + sum(transaction_totals(ts).take(i)),
            ts[i],
        ),
    decreases i,
{
    lemma_transaction_indices_len(base, ts);
    if i == 0 {
        assert(transaction_totals(ts).take(0) =~= Seq::<int>::empty());
    } else {
        lemma_transaction_indices_index(base + ts[0].total(), ts.skip(1), i - 1);
        assert(transaction_totals(ts.skip(1)).take(i - 1) =~= transaction_totals(ts).take(
            i,
        ).skip(1));
        assert(transaction_totals(ts).take(i)[0] == ts[0].total());
        assert(sum(transaction_totals(ts).take(i)) == ts[0].total() + sum(
            transaction_totals(ts).take(i).skip(1),
        ));
    }
}

pub proof fn lemma_transaction_indices_len(base: int, ts: Seq<TransactionSizeV>)
    ensures
        spec_transaction_indices(base, ts).len() == ts.len(),
    decreases ts.len(),
{
    if ts.len() > 0 {
        lemma_transaction_indices_len(base + ts[0].total(), ts.skip(1));
    }
}

pub proof fn lemma_uncle_totals_wf(us: Seq<UncleBlockSizeV>)
    requires
        forall|i: int| 0 <= i < us.len() ==> (#[trigger] us[i]).wf(),
    ensures
        lens_wf(uncle_totals(us)),
{
    assert forall|i: int|
        0 <= i < uncle_totals(us).len() implies uncle_totals(us)[i] >= 0 by {
        assert(uncle_totals(us)[i] == us[i].total());
        lemma_sum_nonneg(us[i].proposals);
    }
}

pub proof fn lemma_transaction_totals_wf(ts: Seq<TransactionSizeV>)
    requires
        forall|i: int| 0 <= i < ts.len() ==> (#[trigger] ts[i]).wf(),
    ensures
        lens_wf(transaction_totals(ts)),
{
    assert forall|i: int|
        0 <= i < transaction_totals(ts).len() implies transaction_totals(ts)[i] >= 0 by {
        assert(transaction_totals(ts)[i] == ts[i].total());
        lemma_sum_nonneg(ts[i].deps);
        lemma_sum_nonneg(ts[i].inputs);
        lemma_sum_nonneg(ts[i].outputs);
        lemma_sum_nonneg(ts[i].witnesses);
    }
}

// ---------------------------------------------------------------------------
// Executable layout, proved to produce the spec layout
// ---------------------------------------------------------------------------
/// One step of the layout: the field at `offset`, and the offset after it.
pub fn calculate_position(offset: usize, length: usize) -> (r: (usize, Position))
    requires
        offset + length <= usize::MAX,
    ensures
        r.0 == offset + length,
        r.1.offset == offset,
        r.1.length == length,
{
    let offset_new = offset + length;
    let position = Position::new(offset, length);
    (offset_new, position)
}

/// Lays a flat list of fields out back to back, starting at `offset`.
#[verifier::loop_isolation(false)]
pub fn calculate_positions(offset: usize, lengths: &Vec<usize>) -> (r: (usize, Vec<Position>))
    requires
        offset + sum(usize_lens(lengths@)) <= usize::MAX,
    ensures
        r.0 as int == offset + sum(usize_lens(lengths@)),
        pos_views(r.1@) == positions_from(offset as int, usize_lens(lengths@)),
        r.1@.len() == lengths@.len(),
{
    let ghost lens = usize_lens(lengths@);
    proof {
        assert forall|j: int| 0 <= j < lens.len() implies lens[j] >= 0 by {
            assert(lens[j] == lengths@[j] as int);
        }
    }
    let mut positions: Vec<Position> = Vec::new();
    let mut cur: usize = offset;
    let mut i: usize = 0;
    while i < lengths.len()
        invariant
            0 <= i <= lengths.len(),
            cur as int == offset + sum(lens.take(i as int)),
            pos_views(positions@) =~= positions_from(offset as int, lens.take(i as int)),
            positions@.len() == i,
        decreases lengths.len() - i,
    {
        let length = lengths[i];
        proof {
            assert(lens[i as int] == length as int);
            assert(lens.take(i as int + 1) =~= lens.take(i as int).push(length as int));
            lemma_sum_snoc(lens.take(i as int), length as int);
            lemma_sum_take_le(lens, i as int + 1);
            lemma_positions_from_snoc(offset as int, lens.take(i as int), length as int);
        }
        let (c2, position) = calculate_position(cur, length);
        let ghost prev = positions@;
        positions.push(position);
        proof {
            assert(pos_views(positions@) =~= pos_views(prev).push(position@));
        }
        cur = c2;
        i += 1;
    }
    proof {
        assert(lens.take(lengths@.len() as int) =~= lens);
    }
    (cur, positions)
}

/// Lays one transaction out: hash, version, then its four lists in order.
pub fn calculate_transaction_index(offset: usize, tx: &TransactionSize) -> (r: (
    usize,
    TransactionIndex,
))
    requires
        tx@.wf(),
        offset + tx@.total() <= usize::MAX,
    ensures
        r.0 as int == offset + tx@.total(),
        r.1@ == spec_transaction_index(offset as int, tx@),
{
    proof {
        lemma_sum_nonneg(tx@.deps);
        lemma_sum_nonneg(tx@.inputs);
        lemma_sum_nonneg(tx@.outputs);
        lemma_sum_nonneg(tx@.witnesses);
    }
    let (o1, hash) = calculate_position(offset, tx.hash);
    let (o2, version) = calculate_position(o1, tx.version);
    let (o3, deps) = calculate_positions(o2, &tx.deps);
    let (o4, inputs) = calculate_positions(o3, &tx.inputs);
    let (o5, outputs) = calculate_positions(o4, &tx.outputs);
    let (o6, witnesses) = calculate_positions(o5, &tx.witnesses);
    let index = TransactionIndex { hash, version, deps, inputs, outputs, witnesses };
    proof {
        assert(index@ =~= spec_transaction_index(offset as int, tx@));
    }
    (o6, index)
}

/// Lays one uncle out: hash, header, then its proposals.
pub fn calculate_uncle_block_index(offset: usize, uncle: &UncleBlockSize) -> (r: (
    usize,
    UncleBlockIndex,
))
    requires
        uncle@.wf(),
        offset + uncle@.total() <= usize::MAX,
    ensures
        r.0 as int == offset + uncle@.total(),
        r.1@ == spec_uncle_block_index(offset as int, uncle@),
{
    proof {
        lemma_sum_nonneg(uncle@.proposals);
    }
    let (o1, hash) = calculate_position(offset, uncle.hash);
    let (o2, header) = calculate_position(o1, uncle.header);
    let (o3, proposals) = calculate_positions(o2, &uncle.proposals);
    let index = UncleBlockIndex { hash, header, proposals };
    proof {
        assert(index@ =~= spec_uncle_block_index(offset as int, uncle@));
    }
    (o3, index)
}

/// Lays a whole block out from offset zero and returns the total length
/// beside the index; the offset only ever increases, with no padding and no
/// reuse.
#[verifier::loop_isolation(false)]
pub fn calculate_block_index(block: BlockSize) -> (r: (usize, BlockIndex))
    requires
        block@.wf(),
        block@.total() <= usize::MAX,
    ensures
        r.0 as int == block@.total(),
        r.1@ == spec_block_index(block@),
{
    let ghost us = block@.uncles;
    let ghost ts = block@.transactions;
    proof {
        lemma_uncle_totals_wf(us);
        lemma_transaction_totals_wf(ts);
        lemma_sum_nonneg(uncle_totals(us));
        lemma_sum_nonneg(transaction_totals(ts));
        lemma_sum_nonneg(block@.proposals);
    }
    let (o1, hash) = calculate_position(0, block.hash);
    let (o2, header) = calculate_position(o1, block.header);
    let mut uncles: Vec<UncleBlockIndex> = Vec::new();
    let mut cur: usize = o2;
    let mut i: usize = 0;
    while i < block.uncles.len()
        invariant
            0 <= i <= block.uncles.len(),
            cur as int == o2 + sum(uncle_totals(us).take(i as int)),
            uncles@.map_values(|u: UncleBlockIndex| u@) =~= spec_uncle_indices(
                o2 as int,
                us.take(i as int),
            ),
            uncles@.len() == i,
        decreases block.uncles.len() - i,
    {
        proof {
            assert(us[i as int] == block.uncles@[i as int]@);
            assert(uncle_totals(us).take(i as int + 1) =~= uncle_totals(us).take(i as int).push(
                us[i as int].total(),
            ));
            lemma_sum_snoc(uncle_totals(us).take(i as int), us[i as int].total());
            lemma_sum_take_le(uncle_totals(us), i as int + 1);
            assert(uncle_totals(us.take(i as int)) =~= uncle_totals(us).take(i as int));
            lemma_uncle_indices_snoc(o2 as int, us.take(i as int), us[i as int]);
            assert(us.take(i as int).push(us[i as int]) =~= us.take(i as int + 1));
        }
        let (c2, uidx) = calculate_uncle_block_index(cur, &block.uncles[i]);
        let ghost prev = uncles@;
        uncles.push(uidx);
        proof {
            assert(uncles@.map_values(|u: UncleBlockIndex| u@) =~= prev.map_values(
                |u: UncleBlockIndex| u@,
            ).push(uidx@));
        }
        cur = c2;
        i += 1;
    }
    proof {
        assert(us.take(block.uncles@.len() as int) =~= us);
        assert(uncle_totals(us).take(block.uncles@.len() as int) =~= uncle_totals(us));
    }
    let ghost o3 = o2 + sum(uncle_totals(us));
    let mut transactions: Vec<TransactionIndex> = Vec::new();
    let mut j: usize = 0;
    while j < block.transactions.len()
        invariant
            0 <= j <= block.transactions.len(),
            cur as int == o3 + sum(transaction_totals(ts).take(j as int)),
            transactions@.map_values(|t: TransactionIndex| t@) =~= spec_transaction_indices(
                o3,
                ts.take(j as int),
            ),
            transactions@.len() == j,
        decreases block.transactions.len() - j,
    {
        proof {
            assert(ts[j as int] == block.transactions@[j as int]@);
            assert(transaction_totals(ts).take(j as int + 1) =~= transaction_totals(ts).take(
                j as int,
            ).push(ts[j as int].total()));
            lemma_sum_snoc(transaction_totals(ts).take(j as int), ts[j as int].total());
            lemma_sum_take_le(transaction_totals(ts), j as int + 1);
            assert(transaction_totals(ts.take(j as int)) =~= transaction_totals(ts).take(j as int));
            lemma_transaction_indices_snoc(o3, ts.take(j as int), ts[j as int]);
            assert(ts.take(j as int).push(ts[j as int]) =~= ts.take(j as int + 1));
        }
        let (c2, tidx) = calculate_transaction_index(cur, &block.transactions[j]);
        let ghost prev = transactions@;
        transactions.push(tidx);
        proof {
            assert(transactions@.map_values(|t: TransactionIndex| t@) =~= prev.map_values(
                |t: TransactionIndex| t@,
            ).push(tidx@));
        }
        cur = c2;
        j += 1;
    }
    proof {
        assert(ts.take(block.transactions@.len() as int) =~= ts);
        assert(transaction_totals(ts).take(block.transactions@.len() as int)
            =~= transaction_totals(ts));
    }
    let (total, proposals) = calculate_positions(cur, &block.proposals);
    let index = BlockIndex { hash, header, uncles, transactions, proposals };
    proof {
        assert(index@ =~= spec_block_index(block@));
    }
    (total, index)
}

} // verus!
