//! The storage engine's laws: what the contracts of `insert_block` and the
//! `select_*` operations jointly guarantee.

use vstd::prelude::*;
use vstd::bytes::lemma_auto_spec_u64_to_from_le_bytes;
use crate::error::Error;
use crate::model::BlockV;
use crate::model::CellInputV;
use crate::model::H256V;
use crate::model::TransactionV;
use crate::indexbytes::block_index_bytes;
use crate::indexbytes::lemma_block_index_round_trip;
use crate::roundtrip::lemma_block_round_trip;
use crate::index::spec_block_index;
use crate::index::spec_block_size;
use crate::storage::spec_select_max_number;
use crate::storage::status_key;
use crate::storage::cell_key;
use crate::storage::cells_after;
use crate::storage::inputs_removed;
use crate::storage::number_key;
use crate::storage::outputs_added;
use crate::storage::spec_insert_block;
use crate::storage::spec_select_block_by_number;
use crate::storage::spec_select_block_hash;
use crate::storage::spec_select_block_number;
use crate::storage::spec_select_cell_status;
use crate::storage::spec_select_transaction;
use crate::storage::transaction_cells;
use crate::storage::StorageV;

verus! {

/// Whether some input of `t` consumes the cell stored under `key`.
pub open spec fn spends_key(t: TransactionV, key: Seq<u8>) -> bool {
    exists|l: int|
        0 <= l < t.inputs.len() && (match (#[trigger] t.inputs[l]).previous.cell {
            Some(c) => cell_key(c.tx_hash, c.index) == key,
            None => false,
        })
}

/// The key output `j` of transaction `t` is stored under.
pub open spec fn output_key(t: TransactionV, j: int) -> Seq<u8> {
    cell_key(t.hash, j as u32)
}

/// The key slot `j` of the transaction with hash `h` is stored under.
pub open spec fn indexed_key(h: H256V, j: int) -> Seq<u8> {
    cell_key(h, j as u32)
}

/// Whether some output of `t` is stored under `key`.
pub open spec fn creates_key(t: TransactionV, key: Seq<u8>) -> bool {
    exists|j: int| 0 <= j < t.outputs.len() && #[trigger] output_key(t, j) == key
}

// ---------------------------------------------------------------------------
// Idempotent lookups
// ---------------------------------------------------------------------------
/// Reads do not change the state: two `select_block_by_number` calls on the
/// same state, without an intervening write, return equal values. Each
/// call's contract pins its result to a function of the state alone.
pub proof fn lemma_select_idempotent(
    s: StorageV,
    n: u64,
    r1: Result<Option<BlockV>, Error>,
    r2: Result<Option<BlockV>, Error>,
)
    requires
        r1 == spec_select_block_by_number(s, n),
        r2 == spec_select_block_by_number(s, n),
    ensures
        r1 == r2,
{
}

// ---------------------------------------------------------------------------
// Secondary-index consistency
// ---------------------------------------------------------------------------
/// Immediately after a block is inserted, its hash resolves to its number
/// and its number resolves back to its hash.
pub proof fn lemma_secondary_index_consistency(s: StorageV, b: BlockV)
    requires
        b.wf(),
    ensures
        spec_select_block_number(spec_insert_block(s, b), b.hash) == Ok::<Option<u64>, Error>(
            Some(b.header.number),
        ),
        spec_select_block_hash(spec_insert_block(s, b), b.header.number) == Ok::<
            Option<H256V>,
            Error,
        >(Some(b.hash)),
{
    lemma_auto_spec_u64_to_from_le_bytes();
    let s2 = spec_insert_block(s, b);
    assert(s2.numbers[b.hash.bytes] == number_key(b.header.number));
    assert(s2.hashes[number_key(b.header.number)] == b.hash.bytes);
}

// ---------------------------------------------------------------------------
// Missing-key behavior
// ---------------------------------------------------------------------------
/// Looking a transaction up under an unknown hash is not an error: it is
/// `Ok(None)`.
pub proof fn lemma_missing_key(s: StorageV, h: H256V)
    requires
        !s.txs.contains_key(h.bytes),
    ensures
        spec_select_transaction(s, h) == Ok::<Option<TransactionV>, Error>(None),
{
}

// ---------------------------------------------------------------------------
// The liveness invariant
// ---------------------------------------------------------------------------
proof fn lemma_outputs_added_contains(
    m: Map<Seq<u8>, Seq<u8>>,
    h: H256V,
    cnt: nat,
    j: int,
)
    requires
        0 <= j < cnt,
    ensures
        outputs_added(m, h, cnt).contains_key(cell_key(h, j as u32)),
    decreases cnt,
{
    if j == cnt - 1 {
    } else {
        lemma_outputs_added_contains(m, h, (cnt - 1) as nat, j);
    }
}

proof fn lemma_outputs_added_preserves(m: Map<Seq<u8>, Seq<u8>>, h: H256V, cnt: nat, key: Seq<u8>)
    requires
        m.contains_key(key),
    ensures
        outputs_added(m, h, cnt).contains_key(key),
    decreases cnt,
{
    if cnt > 0 {
        lemma_outputs_added_preserves(m, h, (cnt - 1) as nat, key);
    }
}

proof fn lemma_outputs_added_absent(m: Map<Seq<u8>, Seq<u8>>, h: H256V, cnt: nat, key: Seq<u8>)
    requires
        !m.contains_key(key),
        forall|j: int| 0 <= j < cnt ==> #[trigger] indexed_key(h, j) != key,
    ensures
        !outputs_added(m, h, cnt).contains_key(key),
    decreases cnt,
{
    if cnt > 0 {
        lemma_outputs_added_absent(m, h, (cnt - 1) as nat, key);
        assert(indexed_key(h, cnt - 1) != key);
        assert(cell_key(h, (cnt - 1) as u32) != key);
    }
}

proof fn lemma_inputs_removed_preserves(
    m: Map<Seq<u8>, Seq<u8>>,
    ins: Seq<CellInputV>,
    key: Seq<u8>,
)
    requires
        m.contains_key(key),
        forall|l: int|
            0 <= l < ins.len() ==> (match (#[trigger] ins[l]).previous.cell {
                Some(c) => cell_key(c.tx_hash, c.index) != key,
                None => true,
            }),
    ensures
        inputs_removed(m, ins).contains_key(key),
    decreases ins.len(),
{
    if ins.len() > 0 {
        assert forall|l: int|
            0 <= l < ins.drop_last().len() implies (match (#[trigger] ins.drop_last()[
            l]).previous.cell {
            Some(c) => cell_key(c.tx_hash, c.index) != key,
            None => true,
        }) by {
            assert(ins.drop_last()[l] == ins[l]);
        }
        lemma_inputs_removed_preserves(m, ins.drop_last(), key);
        assert(ins[ins.len() - 1] == ins.last());
    }
}

proof fn lemma_inputs_removed_absent(m: Map<Seq<u8>, Seq<u8>>, ins: Seq<CellInputV>, key: Seq<u8>)
    requires
        !m.contains_key(key),
    ensures
        !inputs_removed(m, ins).contains_key(key),
    decreases ins.len(),
{
    if ins.len() > 0 {
        lemma_inputs_removed_absent(m, ins.drop_last(), key);
    }
}

proof fn lemma_inputs_removed_removes(
    m: Map<Seq<u8>, Seq<u8>>,
    ins: Seq<CellInputV>,
    l: int,
    key: Seq<u8>,
)
    requires
        0 <= l < ins.len(),
        (match ins[l].previous.cell {
            Some(c) => cell_key(c.tx_hash, c.index) == key,
            None => false,
        }),
    ensures
        !inputs_removed(m, ins).contains_key(key),
    decreases ins.len(),
{
    if l == ins.len() - 1 {
        assert(ins[l] == ins.last());
    } else {
        assert(ins.drop_last()[l] == ins[l]);
        lemma_inputs_removed_removes(m, ins.drop_last(), l, key);
    }
}

proof fn lemma_transaction_cells_preserves(
    m: Map<Seq<u8>, Seq<u8>>,
    t: TransactionV,
    key: Seq<u8>,
)
    requires
        m.contains_key(key),
        !spends_key(t, key),
    ensures
        transaction_cells(m, t).contains_key(key),
{
    assert forall|l: int|
        0 <= l < t.inputs.len() implies (match (#[trigger] t.inputs[l]).previous.cell {
        Some(c) => cell_key(c.tx_hash, c.index) != key,
        None => true,
    }) by {
        if (match t.inputs[l].previous.cell {
            Some(c) => cell_key(c.tx_hash, c.index) == key,
            None => false,
        }) {
            assert(spends_key(t, key));
        }
    }
    lemma_inputs_removed_preserves(m, t.inputs, key);
    lemma_outputs_added_preserves(inputs_removed(m, t.inputs), t.hash, t.outputs.len(), key);
}

proof fn lemma_transaction_cells_absent(m: Map<Seq<u8>, Seq<u8>>, t: TransactionV, key: Seq<u8>)
    requires
        !m.contains_key(key),
        !creates_key(t, key),
    ensures
        !transaction_cells(m, t).contains_key(key),
{
    lemma_inputs_removed_absent(m, t.inputs, key);
    assert forall|j: int|
        0 <= j < t.outputs.len() implies #[trigger] indexed_key(t.hash, j) != key by {
        assert(output_key(t, j) == indexed_key(t.hash, j));
        if indexed_key(t.hash, j) == key {
            assert(creates_key(t, key));
        }
    }
    lemma_outputs_added_absent(inputs_removed(m, t.inputs), t.hash, t.outputs.len(), key);
}

proof fn lemma_cells_after_alive(m: Map<Seq<u8>, Seq<u8>>, ts: Seq<TransactionV>, i: int, j: int)
    requires
        0 <= i < ts.len(),
        0 <= j < ts[i].outputs.len(),
        forall|k: int|
            i < k < ts.len() ==> !spends_key(
                #[trigger] ts[k],
                cell_key(ts[i].hash, j as u32),
            ),
    ensures
        cells_after(m, ts).contains_key(cell_key(ts[i].hash, j as u32)),
    decreases ts.len(),
{
    let key = cell_key(ts[i].hash, j as u32);
    if i == ts.len() - 1 {
        assert(ts[i] == ts.last());
        lemma_outputs_added_contains(
            inputs_removed(cells_after(m, ts.drop_last()), ts.last().inputs),
            ts.last().hash,
            ts.last().outputs.len(),
            j,
        );
    } else {
        assert(ts.drop_last()[i] == ts[i]);
        assert forall|k: int|
            i < k < ts.drop_last().len() implies !spends_key(
            #[trigger] ts.drop_last()[k],
            key,
        ) by {
            assert(ts.drop_last()[k] == ts[k]);
        }
        lemma_cells_after_alive(m, ts.drop_last(), i, j);
        assert(ts[ts.len() - 1] == ts.last());
        assert(!spends_key(ts.last(), key));
        lemma_transaction_cells_preserves(cells_after(m, ts.drop_last()), ts.last(), key);
    }
}

proof fn lemma_cells_after_spent(
    m: Map<Seq<u8>, Seq<u8>>,
    ts: Seq<TransactionV>,
    i: int,
    l: int,
    key: Seq<u8>,
)
    requires
        0 <= i < ts.len(),
        0 <= l < ts[i].inputs.len(),
        (match ts[i].inputs[l].previous.cell {
            Some(c) => cell_key(c.tx_hash, c.index) == key,
            None => false,
        }),
        forall|k: int| i <= k < ts.len() ==> !creates_key(#[trigger] ts[k], key),
    ensures
        !cells_after(m, ts).contains_key(key),
    decreases ts.len(),
{
    if i == ts.len() - 1 {
        assert(ts[i] == ts.last());
        lemma_inputs_removed_removes(cells_after(m, ts.drop_last()), ts.last().inputs, l, key);
        assert(!creates_key(ts.last(), key));
        assert forall|j: int|
            0 <= j < ts.last().outputs.len() implies #[trigger] indexed_key(ts.last().hash, j)
            != key by {
            assert(output_key(ts.last(), j) == indexed_key(ts.last().hash, j));
            if indexed_key(ts.last().hash, j) == key {
                assert(creates_key(ts.last(), key));
            }
        }
        lemma_outputs_added_absent(
            inputs_removed(cells_after(m, ts.drop_last()), ts.last().inputs),
            ts.last().hash,
            ts.last().outputs.len(),
            key,
        );
    } else {
        assert(ts.drop_last()[i] == ts[i]);
        assert forall|k: int|
            i <= k < ts.drop_last().len() implies !creates_key(#[trigger] ts.drop_last()[k], key) by {
            assert(ts.drop_last()[k] == ts[k]);
        }
        lemma_cells_after_spent(m, ts.drop_last(), i, l, key);
        assert(ts[ts.len() - 1] == ts.last());
        assert(!creates_key(ts.last(), key));
        lemma_transaction_cells_absent(cells_after(m, ts.drop_last()), ts.last(), key);
    }
}

/// The liveness invariant, creation half: immediately after `insert_block`,
/// every output of every transaction of the block is live, provided no
/// later transaction of the same block spends that very output.
pub proof fn lemma_liveness_created(s: StorageV, b: BlockV, i: int, j: int)
    requires
        0 <= i < b.transactions.len(),
        0 <= j < b.transactions[i].outputs.len(),
        forall|k: int|
            i < k < b.transactions.len() ==> !spends_key(
                #[trigger] b.transactions[k],
                cell_key(b.transactions[i].hash, j as u32),
            ),
    ensures
        spec_select_cell_status(
            spec_insert_block(s, b),
            b.transactions[i].hash,
            j as u32,
        ) == Ok::<Option<()>, Error>(Some(())),
{
    lemma_cells_after_alive(s.cells, b.transactions, i, j);
}

/// The liveness invariant, spend half: immediately after `insert_block`,
/// an output consumed by some input of the block is no longer live,
/// provided no transaction of the block from that point on creates an
/// output stored under the same key.
pub proof fn lemma_liveness_spent(s: StorageV, b: BlockV, i: int, l: int, h: H256V, idx: u32)
    requires
        0 <= i < b.transactions.len(),
        0 <= l < b.transactions[i].inputs.len(),
        b.transactions[i].inputs[l].previous.cell == Some(
            crate::model::CellRefV { tx_hash: h, index: idx },
        ),
        forall|k: int|
            i <= k < b.transactions.len() ==> !creates_key(
                #[trigger] b.transactions[k],
                cell_key(h, idx),
            ),
    ensures
        spec_select_cell_status(spec_insert_block(s, b), h, idx) == Ok::<Option<()>, Error>(None),
{
    lemma_cells_after_spent(s.cells, b.transactions, i, l, cell_key(h, idx));
}

// ---------------------------------------------------------------------------
// Reading a block back through the engine
// ---------------------------------------------------------------------------
/// The round trip through the whole engine: immediately after a block is
/// inserted, looking its number up returns the very block, decoded from the
/// stored buffer through the stored index.
pub proof fn lemma_insert_then_select(s: StorageV, b: BlockV)
    requires
        b.wf(),
        crate::encoding::block_bytes(b).len() <= usize::MAX,
        crate::indexbytes::counts_fit(b),
    ensures
        spec_select_block_by_number(spec_insert_block(s, b), b.header.number) == Ok::<
            Option<BlockV>,
            Error,
        >(Some(b)),
{
    let x = spec_block_index(spec_block_size(b));
    let s2 = spec_insert_block(s, b);
    let nk = number_key(b.header.number);
    assert(s2.indexes[nk] == block_index_bytes(x));
    assert(s2.blocks[nk] == crate::encoding::block_bytes(b));
    crate::indexbytes::lemma_spec_block_index_fits(b);
    lemma_block_index_round_trip(x);
    lemma_block_round_trip(b);
}

/// The status record advances with every insertion: immediately after a
/// block is inserted, the highest stored number is that block's number.
pub proof fn lemma_max_number_after_insert(s: StorageV, b: BlockV)
    ensures
        spec_select_max_number(spec_insert_block(s, b)) == Ok::<Option<u64>, Error>(
            Some(b.header.number),
        ),
{
    lemma_auto_spec_u64_to_from_le_bytes();
    let s2 = spec_insert_block(s, b);
    assert(s2.status[status_key()] == number_key(b.header.number));
}

} // verus!
