//! The codec's laws: decoding what was encoded gives the value back.
//!
//! `lemma_block_round_trip` states the full round trip: a serialized block,
//! read back through its own index, is the original block. The
//! `lemma_partial_*` family states the partial round trips: any single
//! transaction, uncle, proposal or cell output can be decoded from its
//! position alone, without touching its siblings. `lemma_index_monotonic`
//! states the layout law: the index's positions tile the buffer exactly,
//! each field beginning where the previous one ends.

use vstd::prelude::*;
use crate::decode::decode_block_at;
use crate::decode::decode_blob_at;
use crate::decode::decode_hash_at;
use crate::decode::decode_header_at;
use crate::decode::decode_input_at;
use crate::decode::decode_out_point_at;
use crate::decode::decode_output_at;
use crate::decode::decode_transaction_at;
use crate::decode::decode_uncle_block_at;
use crate::decode::decode_version_at;
use crate::decode::blob_dec;
use crate::decode::input_dec;
use crate::decode::lemma_decode_list_all_ok;
use crate::decode::out_point_dec;
use crate::decode::output_dec;
use crate::decode::pos_ok;
use crate::decode::slice_at;
use crate::decode::transaction_dec;
use crate::decode::uncle_dec;
use crate::encoding::blob_bytes;
use crate::encoding::blob_enc;
use crate::encoding::block_bytes;
use crate::encoding::concat_with;
use crate::encoding::hash_bytes;
use crate::encoding::header_bytes;
use crate::encoding::input_bytes;
use crate::encoding::input_enc;
use crate::encoding::lemma_parse_hash;
use crate::encoding::lemma_parse_header;
use crate::encoding::lemma_parse_input;
use crate::encoding::lemma_parse_out_point;
use crate::encoding::lemma_parse_output;
use crate::encoding::lemma_parse_version;
use crate::encoding::out_point_bytes;
use crate::encoding::out_point_enc;
use crate::encoding::output_bytes;
use crate::encoding::output_enc;
use crate::encoding::transaction_bytes;
use crate::encoding::transaction_enc;
use crate::encoding::uncle_bytes;
use crate::encoding::uncle_enc;
use crate::encoding::version_bytes;
use crate::error::Error;
use crate::index::lemma_positions_from_index;
use crate::index::lemma_positions_from_len;
use crate::index::lemma_sum_lens_of;
use crate::index::lemma_transaction_indices_index;
use crate::index::lemma_uncle_indices_index;
use crate::index::lens_of;
use crate::index::positions_from;
use crate::index::spec_block_index;
use crate::index::spec_block_size;
use crate::index::spec_transaction_index;
use crate::index::spec_transaction_indices;
use crate::index::spec_transaction_size;
use crate::index::spec_uncle_block_index;
use crate::index::spec_uncle_indices;
use crate::index::spec_uncle_block_size;
use crate::index::sum;
use crate::index::transaction_totals;
use crate::index::uncle_totals;
use crate::index::PosV;
use crate::model::BlockV;
use crate::model::CellInputV;
use crate::model::CellOutputV;
use crate::model::OutPointV;
use crate::model::TransactionV;
use crate::model::UncleBlockV;

verus! {

// ---------------------------------------------------------------------------
// Slices of slices
// ---------------------------------------------------------------------------
/// When a buffer carries the concatenation of a list at `base`, the laid-out
/// position of element `i` addresses exactly that piece.
pub proof fn lemma_concat_slice_one<T>(
    f: spec_fn(T) -> Seq<u8>,
    s: Seq<T>,
    w: Seq<u8>,
    base: int,
    i: int,
)
    requires
        0 <= base,
        base + concat_with(f, s).len() <= w.len(),
        w.subrange(base, base + concat_with(f, s).len()) == concat_with(f, s),
        0 <= i < s.len(),
    ensures
        positions_from(base, lens_of(f, s)).len() == s.len(),
        pos_ok(w, positions_from(base, lens_of(f, s))[i]),
        slice_at(w, positions_from(base, lens_of(f, s))[i]) == f(s[i]),
    decreases i,
{
    lemma_positions_from_len(base, lens_of(f, s));
    let lens = lens_of(f, s);
    let n = concat_with(f, s).len() as int;
    let len0 = f(s[0]).len() as int;
    assert(lens[0] == len0);
    assert(concat_with(f, s) == f(s[0]) + concat_with(f, s.skip(1)));
    if i == 0 {
        let p0 = PosV { offset: base, length: len0 };
        assert(positions_from(base, lens)[0] == p0);
        assert(slice_at(w, p0) =~= f(s[0])) by {
            assert forall|k: int| 0 <= k < len0 implies slice_at(w, p0)[k] == f(s[0])[k] by {
                assert(slice_at(w, p0)[k] == w[base + k]);
                assert(w.subrange(base, base + n)[k] == w[base + k]);
                assert(concat_with(f, s)[k] == f(s[0])[k]);
            }
        }
    } else {
        let base2 = base + len0;
        let n2 = concat_with(f, s.skip(1)).len() as int;
        assert(w.subrange(base2, base2 + n2) =~= concat_with(f, s.skip(1))) by {
            assert forall|k: int|
                0 <= k < n2 implies w.subrange(base2, base2 + n2)[k] == concat_with(
                f,
                s.skip(1),
            )[k] by {
                assert(w.subrange(base2, base2 + n2)[k] == w[base2 + k]);
                assert(w.subrange(base, base + n)[len0 + k] == w[base2 + k]);
                assert(concat_with(f, s)[len0 + k] == concat_with(f, s.skip(1))[k]);
            }
        }
        lemma_concat_slice_one(f, s.skip(1), w, base2, i - 1);
        assert(lens.skip(1) =~= lens_of(f, s.skip(1)));
        assert(s.skip(1)[i - 1] == s[i]);
        assert(positions_from(base + lens[0], lens.skip(1)) == positions_from(
            base2,
            lens_of(f, s.skip(1)),
        ));
        assert(positions_from(base, lens_of(f, s))[i] == positions_from(
            base + lens[0],
            lens.skip(1),
        )[i - 1]);
    }
}

// ---------------------------------------------------------------------------
// Decoding a field from its own position
// ---------------------------------------------------------------------------
/// Decodes a list whose slices are the encoded elements; also gives the
/// decode of each single entry.
pub proof fn lemma_decode_out_points(w: Seq<u8>, s: Seq<OutPointV>, base: int)
    requires
        forall|i: int| 0 <= i < s.len() ==> (#[trigger] s[i]).wf(),
        0 <= base,
        base + concat_with(out_point_enc(), s).len() <= w.len(),
        w.subrange(base, base + concat_with(out_point_enc(), s).len()) == concat_with(
            out_point_enc(),
            s,
        ),
    ensures
        decode_list_at(out_point_dec(), w, positions_from(base, lens_of(out_point_enc(), s)))
            == Ok::<Seq<OutPointV>, Error>(s),
        forall|i: int|
            0 <= i < s.len() ==> decode_out_point_at(
                w,
                positions_from(base, lens_of(out_point_enc(), s))[i],
            ) == Ok::<OutPointV, Error>(#[trigger] s[i]),
{
    let ps = positions_from(base, lens_of(out_point_enc(), s));
    lemma_positions_from_len(base, lens_of(out_point_enc(), s));
    assert forall|i: int|
        0 <= i < s.len() implies decode_out_point_at(w, ps[i]) == Ok::<OutPointV, Error>(
        #[trigger] s[i],
    ) by {
        lemma_concat_slice_one(out_point_enc(), s, w, base, i);
        assert(out_point_enc()(s[i]) == out_point_bytes(s[i]));
        lemma_parse_out_point(s[i]);
        assert(slice_at(w, ps[i]) == out_point_bytes(s[i]));
    }
    assert forall|i: int|
        0 <= i < ps.len() implies out_point_dec()(w, #[trigger] ps[i]) == Ok::<OutPointV, Error>(
        s[i],
    ) by {
        assert(out_point_dec()(w, ps[i]) == decode_out_point_at(w, ps[i]));
    }
    lemma_decode_list_all_ok(out_point_dec(), w, ps, s);
}

pub proof fn lemma_decode_inputs(w: Seq<u8>, s: Seq<CellInputV>, base: int)
    requires
        forall|i: int| 0 <= i < s.len() ==> (#[trigger] s[i]).wf(),
        0 <= base,
        base + concat_with(input_enc(), s).len() <= w.len(),
        w.subrange(base, base + concat_with(input_enc(), s).len()) == concat_with(input_enc(), s),
    ensures
        decode_list_at(input_dec(), w, positions_from(base, lens_of(input_enc(), s))) == Ok::<
            Seq<CellInputV>,
            Error,
        >(s),
        forall|i: int|
            0 <= i < s.len() ==> decode_input_at(
                w,
                positions_from(base, lens_of(input_enc(), s))[i],
            ) == Ok::<CellInputV, Error>(#[trigger] s[i]),
{
    let ps = positions_from(base, lens_of(input_enc(), s));
    lemma_positions_from_len(base, lens_of(input_enc(), s));
    assert forall|i: int|
        0 <= i < s.len() implies decode_input_at(w, ps[i]) == Ok::<CellInputV, Error>(
        #[trigger] s[i],
    ) by {
        lemma_concat_slice_one(input_enc(), s, w, base, i);
        assert(input_enc()(s[i]) == input_bytes(s[i]));
        lemma_parse_input(s[i]);
        assert(slice_at(w, ps[i]) == input_bytes(s[i]));
    }
    assert forall|i: int|
        0 <= i < ps.len() implies input_dec()(w, #[trigger] ps[i]) == Ok::<CellInputV, Error>(
        s[i],
    ) by {
        assert(input_dec()(w, ps[i]) == decode_input_at(w, ps[i]));
    }
    lemma_decode_list_all_ok(input_dec(), w, ps, s);
}

pub proof fn lemma_decode_outputs(w: Seq<u8>, s: Seq<CellOutputV>, base: int)
    requires
        forall|i: int| 0 <= i < s.len() ==> (#[trigger] s[i]).wf(),
        0 <= base,
        base + concat_with(output_enc(), s).len() <= w.len(),
        w.subrange(base, base + concat_with(output_enc(), s).len()) == concat_with(
            output_enc(),
            s,
        ),
    ensures
        decode_list_at(output_dec(), w, positions_from(base, lens_of(output_enc(), s))) == Ok::<
            Seq<CellOutputV>,
            Error,
        >(s),
        forall|i: int|
            0 <= i < s.len() ==> decode_output_at(
                w,
                positions_from(base, lens_of(output_enc(), s))[i],
            ) == Ok::<CellOutputV, Error>(#[trigger] s[i]),
{
    let ps = positions_from(base, lens_of(output_enc(), s));
    lemma_positions_from_len(base, lens_of(output_enc(), s));
    assert forall|i: int|
        0 <= i < s.len() implies decode_output_at(w, ps[i]) == Ok::<CellOutputV, Error>(
        #[trigger] s[i],
    ) by {
        lemma_concat_slice_one(output_enc(), s, w, base, i);
        assert(output_enc()(s[i]) == output_bytes(s[i]));
        lemma_parse_output(s[i]);
        assert(slice_at(w, ps[i]) == output_bytes(s[i]));
    }
    assert forall|i: int|
        0 <= i < ps.len() implies output_dec()(w, #[trigger] ps[i]) == Ok::<CellOutputV, Error>(
        s[i],
    ) by {
        assert(output_dec()(w, ps[i]) == decode_output_at(w, ps[i]));
    }
    lemma_decode_list_all_ok(output_dec(), w, ps, s);
}

pub proof fn lemma_decode_blobs(w: Seq<u8>, s: Seq<Seq<u8>>, base: int)
    requires
        0 <= base,
        base + concat_with(blob_enc(), s).len() <= w.len(),
        w.subrange(base, base + concat_with(blob_enc(), s).len()) == concat_with(blob_enc(), s),
    ensures
        decode_list_at(blob_dec(), w, positions_from(base, lens_of(blob_enc(), s))) == Ok::<
            Seq<Seq<u8>>,
            Error,
        >(s),
        forall|i: int|
            0 <= i < s.len() ==> decode_blob_at(
                w,
                positions_from(base, lens_of(blob_enc(), s))[i],
            ) == Ok::<Seq<u8>, Error>(#[trigger] s[i]),
{
    let ps = positions_from(base, lens_of(blob_enc(), s));
    lemma_positions_from_len(base, lens_of(blob_enc(), s));
    assert forall|i: int|
        0 <= i < s.len() implies decode_blob_at(w, ps[i]) == Ok::<Seq<u8>, Error>(
        #[trigger] s[i],
    ) by {
        lemma_concat_slice_one(blob_enc(), s, w, base, i);
        assert(blob_enc()(s[i]) == blob_bytes(s[i]));
        assert(slice_at(w, ps[i]) == blob_bytes(s[i]));
    }
    assert forall|i: int|
        0 <= i < ps.len() implies blob_dec()(w, #[trigger] ps[i]) == Ok::<Seq<u8>, Error>(
        s[i],
    ) by {
        assert(blob_dec()(w, ps[i]) == decode_blob_at(w, ps[i]));
    }
    lemma_decode_list_all_ok(blob_dec(), w, ps, s);
}

use crate::decode::decode_list_at;

/// Decoding a transaction through the index laid out at its own base gives
/// the transaction back, and each of its cell outputs decodes alone.
pub proof fn lemma_decode_transaction(w: Seq<u8>, t: TransactionV, base: int)
    requires
        t.wf(),
        0 <= base,
        base + transaction_bytes(t).len() <= w.len(),
        w.subrange(base, base + transaction_bytes(t).len()) == transaction_bytes(t),
    ensures
        decode_transaction_at(w, spec_transaction_index(base, spec_transaction_size(t))) == Ok::<
            TransactionV,
            Error,
        >(t),
        forall|j: int|
            0 <= j < t.outputs.len() ==> decode_output_at(
                w,
                spec_transaction_index(base, spec_transaction_size(t)).outputs[j],
            ) == Ok::<CellOutputV, Error>(#[trigger] t.outputs[j]),
{
    let n = transaction_bytes(t).len() as int;
    let full = transaction_bytes(t);
    let hl = hash_bytes(t.hash).len() as int;
    let vl = version_bytes(t.version).len() as int;
    let dl = concat_with(out_point_enc(), t.deps).len() as int;
    let il = concat_with(input_enc(), t.inputs).len() as int;
    let ol = concat_with(output_enc(), t.outputs).len() as int;
    let wl = concat_with(blob_enc(), t.witnesses).len() as int;
    let o1 = base + hl;
    let o2 = o1 + vl;
    let o3 = o2 + dl;
    let o4 = o3 + il;
    let o5 = o4 + ol;
    let x = spec_transaction_index(base, spec_transaction_size(t));
    lemma_sum_lens_of(out_point_enc(), t.deps);
    lemma_sum_lens_of(input_enc(), t.inputs);
    lemma_sum_lens_of(output_enc(), t.outputs);
    lemma_sum_lens_of(blob_enc(), t.witnesses);
    // the hash
    assert(slice_at(w, x.hash) =~= hash_bytes(t.hash)) by {
        assert forall|k: int| 0 <= k < hl implies slice_at(w, x.hash)[k] == hash_bytes(
            t.hash,
        )[k] by {
            assert(slice_at(w, x.hash)[k] == w[base + k]);
            assert(w.subrange(base, base + n)[k] == w[base + k]);
            assert(full[k] == hash_bytes(t.hash)[k]);
        }
    }
    lemma_parse_hash(t.hash);
    assert(decode_hash_at(w, x.hash) == Ok::<crate::model::H256V, Error>(t.hash));
    // the version
    assert(slice_at(w, x.version) =~= version_bytes(t.version)) by {
        assert forall|k: int| 0 <= k < vl implies slice_at(w, x.version)[k] == version_bytes(
            t.version,
        )[k] by {
            assert(slice_at(w, x.version)[k] == w[o1 + k]);
            assert(w.subrange(base, base + n)[hl + k] == w[o1 + k]);
            assert(full[hl + k] == version_bytes(t.version)[k]);
        }
    }
    lemma_parse_version(t.version);
    assert(decode_version_at(w, x.version) == Ok::<u32, Error>(t.version));
    // the four lists
    assert(w.subrange(o2, o2 + dl) =~= concat_with(out_point_enc(), t.deps)) by {
        assert forall|k: int|
            0 <= k < dl implies w.subrange(o2, o2 + dl)[k] == concat_with(
            out_point_enc(),
            t.deps,
        )[k] by {
            assert(w.subrange(o2, o2 + dl)[k] == w[o2 + k]);
            assert(w.subrange(base, base + n)[hl + vl + k] == w[o2 + k]);
            assert(full[hl + vl + k] == concat_with(out_point_enc(), t.deps)[k]);
        }
    }
    lemma_decode_out_points(w, t.deps, o2);
    assert(w.subrange(o3, o3 + il) =~= concat_with(input_enc(), t.inputs)) by {
        assert forall|k: int|
            0 <= k < il implies w.subrange(o3, o3 + il)[k] == concat_with(
            input_enc(),
            t.inputs,
        )[k] by {
            assert(w.subrange(o3, o3 + il)[k] == w[o3 + k]);
            assert(w.subrange(base, base + n)[hl + vl + dl + k] == w[o3 + k]);
            assert(full[hl + vl + dl + k] == concat_with(input_enc(), t.inputs)[k]);
        }
    }
    lemma_decode_inputs(w, t.inputs, o3);
    assert(w.subrange(o4, o4 + ol) =~= concat_with(output_enc(), t.outputs)) by {
        assert forall|k: int|
            0 <= k < ol implies w.subrange(o4, o4 + ol)[k] == concat_with(
            output_enc(),
            t.outputs,
        )[k] by {
            assert(w.subrange(o4, o4 + ol)[k] == w[o4 + k]);
            assert(w.subrange(base, base + n)[hl + vl + dl + il + k] == w[o4 + k]);
            assert(full[hl + vl + dl + il + k] == concat_with(output_enc(), t.outputs)[k]);
        }
    }
    lemma_decode_outputs(w, t.outputs, o4);
    assert(w.subrange(o5, o5 + wl) =~= concat_with(blob_enc(), t.witnesses)) by {
        assert forall|k: int|
            0 <= k < wl implies w.subrange(o5, o5 + wl)[k] == concat_with(
            blob_enc(),
            t.witnesses,
        )[k] by {
            assert(w.subrange(o5, o5 + wl)[k] == w[o5 + k]);
            assert(w.subrange(base, base + n)[hl + vl + dl + il + ol + k] == w[o5 + k]);
            assert(full[hl + vl + dl + il + ol + k] == concat_with(blob_enc(), t.witnesses)[k]);
        }
    }
    lemma_decode_blobs(w, t.witnesses, o5);
}

/// Decoding an uncle through the index laid out at its own base gives the
/// uncle back.
pub proof fn lemma_decode_uncle(w: Seq<u8>, u: UncleBlockV, base: int)
    requires
        u.wf(),
        0 <= base,
        base + uncle_bytes(u).len() <= w.len(),
        w.subrange(base, base + uncle_bytes(u).len()) == uncle_bytes(u),
    ensures
        decode_uncle_block_at(w, spec_uncle_block_index(base, spec_uncle_block_size(u))) == Ok::<
            UncleBlockV,
            Error,
        >(u),
{
    let n = uncle_bytes(u).len() as int;
    let full = uncle_bytes(u);
    let hl = hash_bytes(u.hash).len() as int;
    let el = header_bytes(u.header).len() as int;
    let pl = concat_with(blob_enc(), u.proposals).len() as int;
    let o1 = base + hl;
    let o2 = o1 + el;
    let x = spec_uncle_block_index(base, spec_uncle_block_size(u));
    lemma_sum_lens_of(blob_enc(), u.proposals);
    assert(slice_at(w, x.hash) =~= hash_bytes(u.hash)) by {
        assert forall|k: int| 0 <= k < hl implies slice_at(w, x.hash)[k] == hash_bytes(
            u.hash,
        )[k] by {
            assert(slice_at(w, x.hash)[k] == w[base + k]);
            assert(w.subrange(base, base + n)[k] == w[base + k]);
            assert(full[k] == hash_bytes(u.hash)[k]);
        }
    }
    lemma_parse_hash(u.hash);
    assert(slice_at(w, x.header) =~= header_bytes(u.header)) by {
        assert forall|k: int| 0 <= k < el implies slice_at(w, x.header)[k] == header_bytes(
            u.header,
        )[k] by {
            assert(slice_at(w, x.header)[k] == w[o1 + k]);
            assert(w.subrange(base, base + n)[hl + k] == w[o1 + k]);
            assert(full[hl + k] == header_bytes(u.header)[k]);
        }
    }
    lemma_parse_header(u.header);
    assert(w.subrange(o2, o2 + pl) =~= concat_with(blob_enc(), u.proposals)) by {
        assert forall|k: int|
            0 <= k < pl implies w.subrange(o2, o2 + pl)[k] == concat_with(
            blob_enc(),
            u.proposals,
        )[k] by {
            assert(w.subrange(o2, o2 + pl)[k] == w[o2 + k]);
            assert(w.subrange(base, base + n)[hl + el + k] == w[o2 + k]);
            assert(full[hl + el + k] == concat_with(blob_enc(), u.proposals)[k]);
        }
    }
    lemma_decode_blobs(w, u.proposals, o2);
}

// ---------------------------------------------------------------------------
// The whole block
// ---------------------------------------------------------------------------
/// The offset at which the uncle section begins.
pub open spec fn uncles_base(b: BlockV) -> int {
    hash_bytes(b.hash).len() + header_bytes(b.header).len() as int
}

/// The offset at which the transaction section begins.
pub open spec fn txs_base(b: BlockV) -> int {
    uncles_base(b) + concat_with(uncle_enc(), b.uncles).len() as int
}

/// The offset at which the proposal section begins.
pub open spec fn proposals_base(b: BlockV) -> int {
    txs_base(b) + concat_with(transaction_enc(), b.transactions).len() as int
}

/// The element sizes recorded for a block's uncles are the lengths of their
/// encodings, and likewise for its transactions.
pub proof fn lemma_size_lists(b: BlockV)
    ensures
        uncle_totals(spec_block_size(b).uncles) =~= lens_of(uncle_enc(), b.uncles),
        transaction_totals(spec_block_size(b).transactions) =~= lens_of(
            transaction_enc(),
            b.transactions,
        ),
        sum(uncle_totals(spec_block_size(b).uncles)) == concat_with(uncle_enc(), b.uncles).len(),
        sum(transaction_totals(spec_block_size(b).transactions)) == concat_with(
            transaction_enc(),
            b.transactions,
        ).len(),
        sum(spec_block_size(b).proposals) == concat_with(blob_enc(), b.proposals).len(),
{
    let sz = spec_block_size(b);
    assert(uncle_totals(sz.uncles) =~= lens_of(uncle_enc(), b.uncles)) by {
        assert forall|i: int|
            0 <= i < b.uncles.len() implies uncle_totals(sz.uncles)[i] == lens_of(
            uncle_enc(),
            b.uncles,
        )[i] by {
            assert(sz.uncles[i] == spec_uncle_block_size(b.uncles[i]));
            crate::index::lemma_uncle_block_size_total(b.uncles[i]);
        }
    }
    assert(transaction_totals(sz.transactions) =~= lens_of(transaction_enc(), b.transactions))
        by {
        assert forall|i: int|
            0 <= i < b.transactions.len() implies transaction_totals(sz.transactions)[i]
            == lens_of(transaction_enc(), b.transactions)[i] by {
            assert(sz.transactions[i] == spec_transaction_size(b.transactions[i]));
            crate::index::lemma_transaction_size_total(b.transactions[i]);
        }
    }
    lemma_sum_lens_of(uncle_enc(), b.uncles);
    lemma_sum_lens_of(transaction_enc(), b.transactions);
    lemma_sum_lens_of(blob_enc(), b.proposals);
}

/// The three sections of the buffer hold the three concatenations.
proof fn lemma_block_segments(b: BlockV)
    ensures
        block_bytes(b).subrange(
            uncles_base(b),
            uncles_base(b) + concat_with(uncle_enc(), b.uncles).len(),
        ) =~= concat_with(uncle_enc(), b.uncles),
        block_bytes(b).subrange(
            txs_base(b),
            txs_base(b) + concat_with(transaction_enc(), b.transactions).len(),
        ) =~= concat_with(transaction_enc(), b.transactions),
        block_bytes(b).subrange(
            proposals_base(b),
            proposals_base(b) + concat_with(blob_enc(), b.proposals).len(),
        ) =~= concat_with(blob_enc(), b.proposals),
        block_bytes(b).subrange(0, hash_bytes(b.hash).len() as int) =~= hash_bytes(b.hash),
        block_bytes(b).subrange(hash_bytes(b.hash).len() as int, uncles_base(b)) =~= header_bytes(
            b.header,
        ),
{
    let w = block_bytes(b);
    let hl = hash_bytes(b.hash).len() as int;
    let el = header_bytes(b.header).len() as int;
    let ul = concat_with(uncle_enc(), b.uncles).len() as int;
    let tl = concat_with(transaction_enc(), b.transactions).len() as int;
    let pl = concat_with(blob_enc(), b.proposals).len() as int;
    let o2 = uncles_base(b);
    let o3 = txs_base(b);
    let o4 = proposals_base(b);
    assert forall|k: int| 0 <= k < hl implies w.subrange(0, hl)[k] == hash_bytes(b.hash)[k] by {
        assert(w[k] == hash_bytes(b.hash)[k]);
    }
    assert forall|k: int|
        0 <= k < el implies w.subrange(hl, o2)[k] == header_bytes(b.header)[k] by {
        assert(w[hl + k] == header_bytes(b.header)[k]);
    }
    assert forall|k: int|
        0 <= k < ul implies w.subrange(o2, o2 + ul)[k] == concat_with(uncle_enc(), b.uncles)[k] by {
        assert(w[o2 + k] == concat_with(uncle_enc(), b.uncles)[k]);
    }
    assert forall|k: int|
        0 <= k < tl implies w.subrange(o3, o3 + tl)[k] == concat_with(
        transaction_enc(),
        b.transactions,
    )[k] by {
        assert(w[o3 + k] == concat_with(transaction_enc(), b.transactions)[k]);
    }
    assert forall|k: int|
        0 <= k < pl implies w.subrange(o4, o4 + pl)[k] == concat_with(blob_enc(), b.proposals)[k]
        by {
        assert(w[o4 + k] == concat_with(blob_enc(), b.proposals)[k]);
    }
}

/// Uncle `i` of the block decodes alone, through its own index entry.
pub proof fn lemma_partial_uncle(b: BlockV, i: int)
    requires
        b.wf(),
        0 <= i < b.uncles.len(),
    ensures
        spec_block_index(spec_block_size(b)).uncles.len() == b.uncles.len(),
        decode_uncle_block_at(block_bytes(b), spec_block_index(spec_block_size(b)).uncles[i])
            == Ok::<UncleBlockV, Error>(b.uncles[i]),
{
    let w = block_bytes(b);
    let sz = spec_block_size(b);
    let x = spec_block_index(sz);
    let o2 = uncles_base(b);
    lemma_size_lists(b);
    lemma_block_segments(b);
    assert(x.uncles == spec_uncle_indices(o2, sz.uncles));
    lemma_uncle_indices_index(o2, sz.uncles, i);
    assert(sz.uncles[i] == spec_uncle_block_size(b.uncles[i]));
    lemma_concat_slice_one(uncle_enc(), b.uncles, w, o2, i);
    lemma_positions_from_index(o2, lens_of(uncle_enc(), b.uncles), i);
    assert(uncle_enc()(b.uncles[i]) == uncle_bytes(b.uncles[i]));
    let base = o2 + sum(lens_of(uncle_enc(), b.uncles).take(i));
    assert(sum(uncle_totals(sz.uncles).take(i)) == sum(
        lens_of(uncle_enc(), b.uncles).take(i),
    )) by {
        assert(uncle_totals(sz.uncles).take(i) =~= lens_of(uncle_enc(), b.uncles).take(i));
    }
    assert(x.uncles[i] == spec_uncle_block_index(base, spec_uncle_block_size(b.uncles[i])));
    let p = positions_from(o2, lens_of(uncle_enc(), b.uncles))[i];
    assert(p.offset == base && p.length == uncle_bytes(b.uncles[i]).len());
    assert(w.subrange(base, base + uncle_bytes(b.uncles[i]).len()) == uncle_bytes(b.uncles[i]));
    lemma_decode_uncle(w, b.uncles[i], base);
}

/// Transaction `i` of the block decodes alone, and so does each of its cell
/// outputs.
pub proof fn lemma_partial_transaction(b: BlockV, i: int)
    requires
        b.wf(),
        0 <= i < b.transactions.len(),
    ensures
        spec_block_index(spec_block_size(b)).transactions.len() == b.transactions.len(),
        decode_transaction_at(
            block_bytes(b),
            spec_block_index(spec_block_size(b)).transactions[i],
        ) == Ok::<TransactionV, Error>(b.transactions[i]),
        forall|j: int|
            0 <= j < b.transactions[i].outputs.len() ==> decode_output_at(
                block_bytes(b),
                spec_block_index(spec_block_size(b)).transactions[i].outputs[j],
            ) == Ok::<CellOutputV, Error>(#[trigger] b.transactions[i].outputs[j]),
{
    let w = block_bytes(b);
    let sz = spec_block_size(b);
    let x = spec_block_index(sz);
    let o3 = txs_base(b);
    lemma_size_lists(b);
    lemma_block_segments(b);
    assert(x.transactions == spec_transaction_indices(o3, sz.transactions));
    lemma_transaction_indices_index(o3, sz.transactions, i);
    assert(sz.transactions[i] == spec_transaction_size(b.transactions[i]));
    lemma_concat_slice_one(transaction_enc(), b.transactions, w, o3, i);
    lemma_positions_from_index(o3, lens_of(transaction_enc(), b.transactions), i);
    assert(transaction_enc()(b.transactions[i]) == transaction_bytes(b.transactions[i]));
    let base = o3 + sum(lens_of(transaction_enc(), b.transactions).take(i));
    assert(sum(transaction_totals(sz.transactions).take(i)) == sum(
        lens_of(transaction_enc(), b.transactions).take(i),
    )) by {
        assert(transaction_totals(sz.transactions).take(i) =~= lens_of(
            transaction_enc(),
            b.transactions,
        ).take(i));
    }
    assert(x.transactions[i] == spec_transaction_index(
        base,
        spec_transaction_size(b.transactions[i]),
    ));
    let p = positions_from(o3, lens_of(transaction_enc(), b.transactions))[i];
    assert(p.offset == base && p.length == transaction_bytes(b.transactions[i]).len());
    assert(w.subrange(base, base + transaction_bytes(b.transactions[i]).len())
        == transaction_bytes(b.transactions[i]));
    lemma_decode_transaction(w, b.transactions[i], base);
}

/// Proposal `i` of the block decodes alone.
pub proof fn lemma_partial_proposal(b: BlockV, i: int)
    requires
        b.wf(),
        0 <= i < b.proposals.len(),
    ensures
        spec_block_index(spec_block_size(b)).proposals.len() == b.proposals.len(),
        decode_blob_at(block_bytes(b), spec_block_index(spec_block_size(b)).proposals[i]) == Ok::<
            Seq<u8>,
            Error,
        >(b.proposals[i]),
{
    let w = block_bytes(b);
    let sz = spec_block_size(b);
    let x = spec_block_index(sz);
    let o4 = proposals_base(b);
    lemma_size_lists(b);
    lemma_block_segments(b);
    assert(sz.proposals == lens_of(blob_enc(), b.proposals));
    assert(x.proposals == positions_from(o4, sz.proposals));
    lemma_decode_blobs(w, b.proposals, o4);
    lemma_positions_from_len(o4, lens_of(blob_enc(), b.proposals));
}

/// Cell output `j` of transaction `i` decodes alone, through its own
/// position: finer grained than decoding the whole transaction.
pub proof fn lemma_partial_output(b: BlockV, i: int, j: int)
    requires
        b.wf(),
        0 <= i < b.transactions.len(),
        0 <= j < b.transactions[i].outputs.len(),
    ensures
        decode_output_at(
            block_bytes(b),
            spec_block_index(spec_block_size(b)).transactions[i].outputs[j],
        ) == Ok::<CellOutputV, Error>(b.transactions[i].outputs[j]),
{
    lemma_partial_transaction(b, i);
}

/// The full round trip: a serialized block, read back through its own
/// index, is the original block.
pub proof fn lemma_block_round_trip(b: BlockV)
    requires
        b.wf(),
    ensures
        decode_block_at(block_bytes(b), spec_block_index(spec_block_size(b))) == Ok::<
            BlockV,
            Error,
        >(b),
{
    let w = block_bytes(b);
    let sz = spec_block_size(b);
    let x = spec_block_index(sz);
    let hl = hash_bytes(b.hash).len() as int;
    lemma_size_lists(b);
    lemma_block_segments(b);
    // the hash and the header
    assert(x.hash == PosV { offset: 0, length: hl });
    assert(slice_at(w, x.hash) == hash_bytes(b.hash));
    lemma_parse_hash(b.hash);
    assert(decode_hash_at(w, x.hash) == Ok::<crate::model::H256V, Error>(b.hash));
    assert(slice_at(w, x.header) == header_bytes(b.header));
    lemma_parse_header(b.header);
    assert(decode_header_at(w, x.header) == Ok::<crate::model::HeaderV, Error>(b.header));
    // the uncles
    lemma_index_list_lengths(x, sz, b);
    assert forall|i: int|
        0 <= i < x.uncles.len() implies uncle_dec()(w, #[trigger] x.uncles[i]) == Ok::<
        UncleBlockV,
        Error,
    >(b.uncles[i]) by {
        lemma_partial_uncle(b, i);
        assert(uncle_dec()(w, x.uncles[i]) == decode_uncle_block_at(w, x.uncles[i]));
    }
    lemma_decode_list_all_ok(uncle_dec(), w, x.uncles, b.uncles);
    // the transactions
    assert forall|i: int|
        0 <= i < x.transactions.len() implies transaction_dec()(w, #[trigger] x.transactions[i])
        == Ok::<TransactionV, Error>(b.transactions[i]) by {
        lemma_partial_transaction(b, i);
        assert(transaction_dec()(w, x.transactions[i]) == decode_transaction_at(
            w,
            x.transactions[i],
        ));
    }
    lemma_decode_list_all_ok(transaction_dec(), w, x.transactions, b.transactions);
    // the proposals
    lemma_decode_blobs(w, b.proposals, proposals_base(b));
    assert(sz.proposals == lens_of(blob_enc(), b.proposals));
    assert(x.proposals == positions_from(proposals_base(b), sz.proposals));
}

/// Both composite index lists have one entry per element.
proof fn lemma_index_list_lengths(x: crate::index::BlockIndexV, sz: crate::index::BlockSizeV, b: BlockV)
    requires
        x == spec_block_index(sz),
        sz == spec_block_size(b),
    ensures
        x.uncles.len() == b.uncles.len(),
        x.transactions.len() == b.transactions.len(),
{
    crate::index::lemma_uncle_indices_len(
        sz.hash + sz.header,
        sz.uncles,
    );
    crate::index::lemma_transaction_indices_len(
        sz.hash + sz.header + sum(uncle_totals(sz.uncles)),
        sz.transactions,
    );
}

// ---------------------------------------------------------------------------
// The layout law: positions tile the buffer
// ---------------------------------------------------------------------------
/// A transaction's index entries, flattened in serialization order.
pub open spec fn flatten_transaction_index(x: crate::index::TransactionIndexV) -> Seq<PosV> {
    seq![x.hash, x.version] + x.deps + x.inputs + x.outputs + x.witnesses
}

/// An uncle's index entries, flattened in serialization order.
pub open spec fn flatten_uncle_index(x: crate::index::UncleBlockIndexV) -> Seq<PosV> {
    seq![x.hash, x.header] + x.proposals
}

pub open spec fn uncle_flat() -> spec_fn(crate::index::UncleBlockIndexV) -> Seq<PosV> {
    |x: crate::index::UncleBlockIndexV| flatten_uncle_index(x)
}

pub open spec fn transaction_flat() -> spec_fn(crate::index::TransactionIndexV) -> Seq<PosV> {
    |x: crate::index::TransactionIndexV| flatten_transaction_index(x)
}

pub open spec fn flatten_all<T>(f: spec_fn(T) -> Seq<PosV>, s: Seq<T>) -> Seq<PosV>
    decreases s.len(),
{
    if s.len() == 0 {
        Seq::empty()
    } else {
        f(s[0]) + flatten_all(f, s.skip(1))
    }
}

/// A block index's positions, flattened in serialization order.
pub open spec fn flatten_block_index(x: crate::index::BlockIndexV) -> Seq<PosV> {
    seq![x.hash, x.header] + flatten_all(uncle_flat(), x.uncles) + flatten_all(
        transaction_flat(),
        x.transactions,
    ) + x.proposals
}

/// The positions in `ps` tile `[base, end)` back to back, in order.
pub open spec fn contiguous(ps: Seq<PosV>, base: int, end: int) -> bool
    decreases ps.len(),
{
    if ps.len() == 0 {
        base == end
    } else {
        ps[0].offset == base && contiguous(ps.skip(1), base + ps[0].length, end)
    }
}

pub proof fn lemma_contiguous_concat(a: Seq<PosV>, b: Seq<PosV>, x: int, y: int, z: int)
    requires
        contiguous(a, x, y),
        contiguous(b, y, z),
    ensures
        contiguous(a + b, x, z),
    decreases a.len(),
{
    if a.len() == 0 {
        assert(a + b =~= b);
    } else {
        assert((a + b)[0] == a[0]);
        assert((a + b).skip(1) =~= a.skip(1) + b);
        lemma_contiguous_concat(a.skip(1), b, x + a[0].length, y, z);
    }
}

pub proof fn lemma_positions_from_contiguous(base: int, lens: Seq<int>)
    ensures
        contiguous(positions_from(base, lens), base, base + sum(lens)),
    decreases lens.len(),
{
    if lens.len() == 0 {
    } else {
        let ps = positions_from(base, lens);
        assert(ps[0] == (PosV { offset: base, length: lens[0] }));
        assert(ps.skip(1) =~= positions_from(base + lens[0], lens.skip(1)));
        lemma_positions_from_contiguous(base + lens[0], lens.skip(1));
    }
}

proof fn lemma_contiguous_pair(p1: PosV, p2: PosV, base: int)
    requires
        p1.offset == base,
        p2.offset == base + p1.length,
    ensures
        contiguous(seq![p1, p2], base, base + p1.length + p2.length),
{
    let s = seq![p1, p2];
    let end = base + p1.length + p2.length;
    assert(s[0] == p1);
    assert(s.skip(1) =~= seq![p2]);
    assert(seq![p2][0] == p2);
    assert(seq![p2].skip(1) =~= Seq::<PosV>::empty());
    assert(contiguous(Seq::<PosV>::empty(), end, end));
    assert(contiguous(seq![p2], base + p1.length, end));
    assert(contiguous(s, base, end));
}

pub proof fn lemma_transaction_flat_contiguous(base: int, t: crate::index::TransactionSizeV)
    ensures
        contiguous(
            flatten_transaction_index(spec_transaction_index(base, t)),
            base,
            base + t.total(),
        ),
{
    let x = spec_transaction_index(base, t);
    let o1 = base + t.hash;
    let o2 = o1 + t.version;
    let o3 = o2 + sum(t.deps);
    let o4 = o3 + sum(t.inputs);
    let o5 = o4 + sum(t.outputs);
    let o6 = o5 + sum(t.witnesses);
    lemma_contiguous_pair(x.hash, x.version, base);
    lemma_positions_from_contiguous(o2, t.deps);
    lemma_positions_from_contiguous(o3, t.inputs);
    lemma_positions_from_contiguous(o4, t.outputs);
    lemma_positions_from_contiguous(o5, t.witnesses);
    lemma_contiguous_concat(seq![x.hash, x.version], x.deps, base, o2, o3);
    lemma_contiguous_concat(seq![x.hash, x.version] + x.deps, x.inputs, base, o3, o4);
    lemma_contiguous_concat(seq![x.hash, x.version] + x.deps + x.inputs, x.outputs, base, o4, o5);
    lemma_contiguous_concat(
        seq![x.hash, x.version] + x.deps + x.inputs + x.outputs,
        x.witnesses,
        base,
        o5,
        o6,
    );
}

pub proof fn lemma_uncle_flat_contiguous(base: int, u: crate::index::UncleBlockSizeV)
    ensures
        contiguous(flatten_uncle_index(spec_uncle_block_index(base, u)), base, base + u.total()),
{
    let x = spec_uncle_block_index(base, u);
    let o2 = base + u.hash + u.header;
    lemma_contiguous_pair(x.hash, x.header, base);
    lemma_positions_from_contiguous(o2, u.proposals);
    lemma_contiguous_concat(seq![x.hash, x.header], x.proposals, base, o2, o2 + sum(u.proposals));
}

pub proof fn lemma_uncles_flat_contiguous(base: int, us: Seq<crate::index::UncleBlockSizeV>)
    ensures
        contiguous(
            flatten_all(uncle_flat(), spec_uncle_indices(base, us)),
            base,
            base + sum(uncle_totals(us)),
        ),
    decreases us.len(),
{
    if us.len() == 0 {
        assert(uncle_totals(us) =~= Seq::<int>::empty());
        assert(flatten_all(uncle_flat(), spec_uncle_indices(base, us))
            =~= Seq::<PosV>::empty());
    } else {
        let xs = spec_uncle_indices(base, us);
        assert(xs[0] == spec_uncle_block_index(base, us[0]));
        assert(xs.skip(1) =~= spec_uncle_indices(base + us[0].total(), us.skip(1)));
        assert(flatten_all(uncle_flat(), xs) == uncle_flat()(xs[0]) + flatten_all(
            uncle_flat(),
            xs.skip(1),
        ));
        lemma_uncle_flat_contiguous(base, us[0]);
        lemma_uncles_flat_contiguous(base + us[0].total(), us.skip(1));
        assert(uncle_totals(us)[0] == us[0].total());
        assert(uncle_totals(us).skip(1) =~= uncle_totals(us.skip(1)));
        assert(sum(uncle_totals(us)) == us[0].total() + sum(uncle_totals(us.skip(1))));
        lemma_contiguous_concat(
            flatten_uncle_index(xs[0]),
            flatten_all(uncle_flat(), xs.skip(1)),
            base,
            base + us[0].total(),
            base + sum(uncle_totals(us)),
        );
        assert(uncle_flat()(xs[0]) == flatten_uncle_index(xs[0]));
    }
}

pub proof fn lemma_transactions_flat_contiguous(
    base: int,
    ts: Seq<crate::index::TransactionSizeV>,
)
    ensures
        contiguous(
            flatten_all(transaction_flat(), spec_transaction_indices(base, ts)),
            base,
            base + sum(transaction_totals(ts)),
        ),
    decreases ts.len(),
{
    if ts.len() == 0 {
        assert(transaction_totals(ts) =~= Seq::<int>::empty());
        assert(flatten_all(transaction_flat(), spec_transaction_indices(base, ts))
            =~= Seq::<PosV>::empty());
    } else {
        let xs = spec_transaction_indices(base, ts);
        assert(xs[0] == spec_transaction_index(base, ts[0]));
        assert(xs.skip(1) =~= spec_transaction_indices(base + ts[0].total(), ts.skip(1)));
        assert(flatten_all(transaction_flat(), xs) == transaction_flat()(xs[0]) + flatten_all(
            transaction_flat(),
            xs.skip(1),
        ));
        lemma_transaction_flat_contiguous(base, ts[0]);
        lemma_transactions_flat_contiguous(base + ts[0].total(), ts.skip(1));
        assert(transaction_totals(ts)[0] == ts[0].total());
        assert(transaction_totals(ts).skip(1) =~= transaction_totals(ts.skip(1)));
        assert(sum(transaction_totals(ts)) == ts[0].total() + sum(
            transaction_totals(ts.skip(1)),
        ));
        lemma_contiguous_concat(
            flatten_transaction_index(xs[0]),
            flatten_all(transaction_flat(), xs.skip(1)),
            base,
            base + ts[0].total(),
            base + sum(transaction_totals(ts)),
        );
        assert(transaction_flat()(xs[0]) == flatten_transaction_index(xs[0]));
    }
}

/// From a tiling, each position ends exactly where the next begins.
pub proof fn lemma_contiguous_adjacent(ps: Seq<PosV>, base: int, end: int)
    requires
        contiguous(ps, base, end),
    ensures
        forall|k: int| 0 <= k < ps.len() - 1 ==> (#[trigger] ps[k]).end() == ps[k + 1].offset,
        ps.len() > 0 ==> ps[0].offset == base,
        ps.len() > 0 ==> ps[ps.len() - 1].end() == end,
        ps.len() == 0 ==> base == end,
    decreases ps.len(),
{
    if ps.len() > 0 {
        lemma_contiguous_adjacent(ps.skip(1), base + ps[0].length, end);
        assert forall|k: int|
            0 <= k < ps.len() - 1 implies (#[trigger] ps[k]).end() == ps[k + 1].offset by {
            if k == 0 {
                if ps.len() > 1 {
                    assert(ps.skip(1)[0] == ps[1]);
                }
            } else {
                assert(ps.skip(1)[k - 1] == ps[k]);
                assert(ps.skip(1)[k] == ps[k + 1]);
            }
        }
        if ps.len() == 1 {
            assert(ps[0].end() == end);
        } else {
            assert(ps.skip(1)[ps.len() - 2] == ps[ps.len() - 1]);
        }
    }
}

/// The layout law: all positions derived for one block, flattened in
/// serialization order, begin at offset zero, each field begins exactly
/// where the previous one ends, and the final offset equals the buffer's
/// length. There is no padding and no reuse.
pub proof fn lemma_index_monotonic(b: BlockV)
    ensures
        ({
            let flat = flatten_block_index(spec_block_index(spec_block_size(b)));
            &&& contiguous(flat, 0, block_bytes(b).len() as int)
            &&& forall|k: int|
                0 <= k < flat.len() - 1 ==> (#[trigger] flat[k]).end() == flat[k + 1].offset
            &&& flat.len() > 0 ==> flat[0].offset == 0
            &&& flat.len() > 0 ==> flat[flat.len() - 1].end() == block_bytes(b).len()
        }),
{
    let sz = spec_block_size(b);
    let x = spec_block_index(sz);
    let o1 = sz.hash;
    let o2 = o1 + sz.header;
    let o3 = o2 + sum(uncle_totals(sz.uncles));
    let o4 = o3 + sum(transaction_totals(sz.transactions));
    let total = o4 + sum(sz.proposals);
    lemma_contiguous_pair(x.hash, x.header, 0);
    lemma_uncles_flat_contiguous(o2, sz.uncles);
    lemma_transactions_flat_contiguous(o3, sz.transactions);
    lemma_positions_from_contiguous(o4, sz.proposals);
    lemma_contiguous_concat(
        seq![x.hash, x.header],
        flatten_all(uncle_flat(), x.uncles),
        0,
        o2,
        o3,
    );
    lemma_contiguous_concat(
        seq![x.hash, x.header] + flatten_all(uncle_flat(), x.uncles),
        flatten_all(transaction_flat(), x.transactions),
        0,
        o3,
        o4,
    );
    lemma_contiguous_concat(
        seq![x.hash, x.header] + flatten_all(uncle_flat(), x.uncles) + flatten_all(
            transaction_flat(),
            x.transactions,
        ),
        x.proposals,
        0,
        o4,
        total,
    );
    crate::index::lemma_block_size_total(b);
    lemma_contiguous_adjacent(flatten_block_index(x), 0, total);
}

} // verus!
