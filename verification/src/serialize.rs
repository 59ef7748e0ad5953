//! The size pass and the serialize pass of the codec.
//!
//! The size pass computes the serialized byte length of every leaf field
//! without allocating the final buffer; the serialize pass appends each
//! field's bytes into one buffer, in the same fixed field order the index
//! pass uses. Both are proved against the spec encodings, so the buffer's
//! length provably equals the total the size pass computed.

use vstd::prelude::*;
use vstd::bytes::u32_to_le_bytes;
use vstd::bytes::u64_to_le_bytes;
use vstd::bytes::lemma_auto_spec_u32_to_from_le_bytes;
use vstd::bytes::lemma_auto_spec_u64_to_from_le_bytes;
use crate::encoding::blob_bytes;
use crate::encoding::blob_enc;
use crate::encoding::block_bytes;
use crate::encoding::concat_with;
use crate::encoding::hash_bytes;
use crate::encoding::header_bytes;
use crate::encoding::input_bytes;
use crate::encoding::input_enc;
use crate::encoding::lemma_concat_with_piece_le;
use crate::encoding::lemma_concat_with_snoc;
use crate::encoding::out_point_bytes;
use crate::encoding::out_point_enc;
use crate::encoding::output_bytes;
use crate::encoding::output_enc;
use crate::encoding::transaction_bytes;
use crate::encoding::transaction_enc;
use crate::encoding::uncle_bytes;
use crate::encoding::uncle_enc;
use crate::encoding::version_bytes;
use crate::index::lens_of;
use crate::index::spec_block_size;
use crate::index::spec_transaction_size;
use crate::index::spec_uncle_block_size;
use crate::index::usize_lens;
use crate::index::BlockSize;
use crate::index::TransactionSize;
use crate::index::UncleBlockSize;
use crate::model::Block;
use crate::model::CellInput;
use crate::model::CellOutput;
use crate::model::H256;
use crate::model::Header;
use crate::model::OutPoint;
use crate::model::Transaction;
use crate::model::UncleBlock;

verus! {

// ---------------------------------------------------------------------------
// The size pass
// ---------------------------------------------------------------------------
/// The serialized size of one hash.
pub fn hash_size(h: &H256) -> (r: usize)
    ensures
        r == hash_bytes(h@).len(),
{
    h.bytes.len()
}

/// The serialized size of one header.
pub fn header_size(h: &Header) -> (r: usize)
    requires
        header_bytes(h@).len() <= usize::MAX,
    ensures
        r == header_bytes(h@).len(),
{
    proof {
        lemma_auto_spec_u64_to_from_le_bytes();
    }
    8 + h.payload.len()
}

/// The serialized size of one out point.
pub fn out_point_size(o: &OutPoint) -> (r: usize)
    requires
        o@.wf(),
    ensures
        r == out_point_bytes(o@).len(),
{
    proof {
        lemma_auto_spec_u32_to_from_le_bytes();
    }
    match &o.cell {
        Some(_) => 37,
        None => 1,
    }
}

/// The serialized size of one input.
pub fn input_size(i: &CellInput) -> (r: usize)
    requires
        i@.wf(),
    ensures
        r == input_bytes(i@).len(),
{
    proof {
        lemma_auto_spec_u64_to_from_le_bytes();
        lemma_auto_spec_u32_to_from_le_bytes();
        assert(out_point_bytes(i@.previous).len() <= 37);
    }
    let p = out_point_size(&i.previous);
    8 + p
}

/// The serialized size of one output.
pub fn output_size(o: &CellOutput) -> (r: usize)
    requires
        o@.wf(),
        output_bytes(o@).len() <= usize::MAX,
    ensures
        r == output_bytes(o@).len(),
{
    proof {
        lemma_auto_spec_u64_to_from_le_bytes();
        lemma_auto_spec_u32_to_from_le_bytes();
    }
    let base: usize = 12;
    let with_lock = base + o.lock.len();
    with_lock + o.data.len()
}

/// The size pass over one transaction, in field order.
#[verifier::loop_isolation(false)]
pub fn serialized_transaction_size(tx: &Transaction) -> (r: TransactionSize)
    requires
        tx@.wf(),
        transaction_bytes(tx@).len() <= usize::MAX,
    ensures
        r@ == spec_transaction_size(tx@),
{
    proof {
        lemma_auto_spec_u32_to_from_le_bytes();
    }
    let hash = hash_size(&tx.hash);
    let version: usize = 4;
    let mut deps: Vec<usize> = Vec::new();
    let mut i: usize = 0;
    while i < tx.deps.len()
        invariant
            0 <= i <= tx.deps.len(),
            usize_lens(deps@) =~= lens_of(out_point_enc(), tx@.deps.take(i as int)),
            deps@.len() == i,
        decreases tx.deps.len() - i,
    {
        proof {
            assert(tx@.deps[i as int] == tx.deps@[i as int]@);
        }
        let ghost prev = deps@;
        let s = out_point_size(&tx.deps[i]);
        deps.push(s);
        proof {
            assert(usize_lens(deps@) =~= usize_lens(prev).push(s as int));
            assert(lens_of(out_point_enc(), tx@.deps.take(i as int + 1)) =~= lens_of(
                out_point_enc(),
                tx@.deps.take(i as int),
            ).push(out_point_bytes(tx@.deps[i as int]).len() as int));
        }
        i += 1;
    }
    proof {
        assert(tx@.deps.take(tx.deps@.len() as int) =~= tx@.deps);
    }
    let mut inputs: Vec<usize> = Vec::new();
    let mut i: usize = 0;
    while i < tx.inputs.len()
        invariant
            0 <= i <= tx.inputs.len(),
            usize_lens(inputs@) =~= lens_of(input_enc(), tx@.inputs.take(i as int)),
            inputs@.len() == i,
        decreases tx.inputs.len() - i,
    {
        proof {
            assert(tx@.inputs[i as int] == tx.inputs@[i as int]@);
        }
        let ghost prev = inputs@;
        let s = input_size(&tx.inputs[i]);
        inputs.push(s);
        proof {
            assert(usize_lens(inputs@) =~= usize_lens(prev).push(s as int));
            assert(lens_of(input_enc(), tx@.inputs.take(i as int + 1)) =~= lens_of(
                input_enc(),
                tx@.inputs.take(i as int),
            ).push(input_bytes(tx@.inputs[i as int]).len() as int));
        }
        i += 1;
    }
    proof {
        assert(tx@.inputs.take(tx.inputs@.len() as int) =~= tx@.inputs);
    }
    let mut outputs: Vec<usize> = Vec::new();
    let mut i: usize = 0;
    while i < tx.outputs.len()
        invariant
            0 <= i <= tx.outputs.len(),
            usize_lens(outputs@) =~= lens_of(output_enc(), tx@.outputs.take(i as int)),
            outputs@.len() == i,
        decreases tx.outputs.len() - i,
    {
        proof {
            assert(tx@.outputs[i as int] == tx.outputs@[i as int]@);
            lemma_concat_with_piece_le(output_enc(), tx@.outputs, i as int);
        }
        let ghost prev = outputs@;
        let s = output_size(&tx.outputs[i]);
        outputs.push(s);
        proof {
            assert(usize_lens(outputs@) =~= usize_lens(prev).push(s as int));
            assert(lens_of(output_enc(), tx@.outputs.take(i as int + 1)) =~= lens_of(
                output_enc(),
                tx@.outputs.take(i as int),
            ).push(output_bytes(tx@.outputs[i as int]).len() as int));
        }
        i += 1;
    }
    proof {
        assert(tx@.outputs.take(tx.outputs@.len() as int) =~= tx@.outputs);
    }
    let mut witnesses: Vec<usize> = Vec::new();
    let mut i: usize = 0;
    while i < tx.witnesses.len()
        invariant
            0 <= i <= tx.witnesses.len(),
            usize_lens(witnesses@) =~= lens_of(blob_enc(), tx@.witnesses.take(i as int)),
            witnesses@.len() == i,
        decreases tx.witnesses.len() - i,
    {
        proof {
            assert(tx@.witnesses[i as int] == tx.witnesses@[i as int]@);
        }
        let ghost prev = witnesses@;
        let s = tx.witnesses[i].len();
        witnesses.push(s);
        proof {
            assert(usize_lens(witnesses@) =~= usize_lens(prev).push(s as int));
            assert(lens_of(blob_enc(), tx@.witnesses.take(i as int + 1)) =~= lens_of(
                blob_enc(),
                tx@.witnesses.take(i as int),
            ).push(blob_bytes(tx@.witnesses[i as int]).len() as int));
        }
        i += 1;
    }
    proof {
        assert(tx@.witnesses.take(tx.witnesses@.len() as int) =~= tx@.witnesses);
    }
    let r = TransactionSize { hash, version, deps, inputs, outputs, witnesses };
    proof {
        assert(r@ =~= spec_transaction_size(tx@));
    }
    r
}

/// The size pass over one uncle, in field order.
#[verifier::loop_isolation(false)]
pub fn serialized_uncle_block_size(uncle: &UncleBlock) -> (r: UncleBlockSize)
    requires
        uncle@.wf(),
        uncle_bytes(uncle@).len() <= usize::MAX,
    ensures
        r@ == spec_uncle_block_size(uncle@),
{
    let hash = hash_size(&uncle.hash);
    let header = header_size(&uncle.header);
    let mut proposals: Vec<usize> = Vec::new();
    let mut i: usize = 0;
    while i < uncle.proposals.len()
        invariant
            0 <= i <= uncle.proposals.len(),
            usize_lens(proposals@) =~= lens_of(blob_enc(), uncle@.proposals.take(i as int)),
            proposals@.len() == i,
        decreases uncle.proposals.len() - i,
    {
        proof {
            assert(uncle@.proposals[i as int] == uncle.proposals@[i as int]@);
        }
        let ghost prev = proposals@;
        let s = uncle.proposals[i].len();
        proposals.push(s);
        proof {
            assert(usize_lens(proposals@) =~= usize_lens(prev).push(s as int));
            assert(lens_of(blob_enc(), uncle@.proposals.take(i as int + 1)) =~= lens_of(
                blob_enc(),
                uncle@.proposals.take(i as int),
            ).push(blob_bytes(uncle@.proposals[i as int]).len() as int));
        }
        i += 1;
    }
    proof {
        assert(uncle@.proposals.take(uncle.proposals@.len() as int) =~= uncle@.proposals);
    }
    let r = UncleBlockSize { hash, header, proposals };
    proof {
        assert(r@ =~= spec_uncle_block_size(uncle@));
    }
    r
}

/// The size pass over a whole block, in field order.
#[verifier::loop_isolation(false)]
pub fn serialized_block_size(block: &Block) -> (r: BlockSize)
    requires
        block@.wf(),
        block_bytes(block@).len() <= usize::MAX,
    ensures
        r@ == spec_block_size(block@),
{
    let hash = hash_size(&block.hash);
    let header = header_size(&block.header);
    let mut uncles: Vec<UncleBlockSize> = Vec::new();
    let mut i: usize = 0;
    while i < block.uncles.len()
        invariant
            0 <= i <= block.uncles.len(),
            uncles@.map_values(|u: UncleBlockSize| u@) =~= block@.uncles.take(
                i as int,
            ).map_values(|u: crate::model::UncleBlockV| spec_uncle_block_size(u)),
            uncles@.len() == i,
        decreases block.uncles.len() - i,
    {
        proof {
            assert(block@.uncles[i as int] == block.uncles@[i as int]@);
            lemma_concat_with_piece_le(uncle_enc(), block@.uncles, i as int);
        }
        let ghost prev = uncles@;
        let s = serialized_uncle_block_size(&block.uncles[i]);
        uncles.push(s);
        proof {
            assert(uncles@.map_values(|u: UncleBlockSize| u@) =~= prev.map_values(
                |u: UncleBlockSize| u@,
            ).push(s@));
            assert(block@.uncles.take(i as int + 1).map_values(
                |u: crate::model::UncleBlockV| spec_uncle_block_size(u),
            ) =~= block@.uncles.take(i as int).map_values(
                |u: crate::model::UncleBlockV| spec_uncle_block_size(u),
            ).push(spec_uncle_block_size(block@.uncles[i as int])));
        }
        i += 1;
    }
    proof {
        assert(block@.uncles.take(block.uncles@.len() as int) =~= block@.uncles);
    }
    let mut transactions: Vec<TransactionSize> = Vec::new();
    let mut i: usize = 0;
    while i < block.transactions.len()
        invariant
            0 <= i <= block.transactions.len(),
            transactions@.map_values(|t: TransactionSize| t@) =~= block@.transactions.take(
                i as int,
            ).map_values(|t: crate::model::TransactionV| spec_transaction_size(t)),
            transactions@.len() == i,
        decreases block.transactions.len() - i,
    {
        proof {
            assert(block@.transactions[i as int] == block.transactions@[i as int]@);
            lemma_concat_with_piece_le(transaction_enc(), block@.transactions, i as int);
        }
        let ghost prev = transactions@;
        let s = serialized_transaction_size(&block.transactions[i]);
        transactions.push(s);
        proof {
            assert(transactions@.map_values(|t: TransactionSize| t@) =~= prev.map_values(
                |t: TransactionSize| t@,
            ).push(s@));
            assert(block@.transactions.take(i as int + 1).map_values(
                |t: crate::model::TransactionV| spec_transaction_size(t),
            ) =~= block@.transactions.take(i as int).map_values(
                |t: crate::model::TransactionV| spec_transaction_size(t),
            ).push(spec_transaction_size(block@.transactions[i as int])));
        }
        i += 1;
    }
    proof {
        assert(block@.transactions.take(block.transactions@.len() as int)
            =~= block@.transactions);
    }
    let mut proposals: Vec<usize> = Vec::new();
    let mut i: usize = 0;
    while i < block.proposals.len()
        invariant
            0 <= i <= block.proposals.len(),
            usize_lens(proposals@) =~= lens_of(blob_enc(), block@.proposals.take(i as int)),
            proposals@.len() == i,
        decreases block.proposals.len() - i,
    {
        proof {
            assert(block@.proposals[i as int] == block.proposals@[i as int]@);
        }
        let ghost prev = proposals@;
        let s = block.proposals[i].len();
        proposals.push(s);
        proof {
            assert(usize_lens(proposals@) =~= usize_lens(prev).push(s as int));
            assert(lens_of(blob_enc(), block@.proposals.take(i as int + 1)) =~= lens_of(
                blob_enc(),
                block@.proposals.take(i as int),
            ).push(blob_bytes(block@.proposals[i as int]).len() as int));
        }
        i += 1;
    }
    proof {
        assert(block@.proposals.take(block.proposals@.len() as int) =~= block@.proposals);
    }
    let r = BlockSize { hash, header, uncles, transactions, proposals };
    proof {
        assert(r@ =~= spec_block_size(block@));
    }
    r
}

// ---------------------------------------------------------------------------
// The serialize pass
// ---------------------------------------------------------------------------
/// Appends a byte slice to the buffer.
#[verifier::loop_isolation(false)]
fn write_bytes(out: &mut Vec<u8>, data: &[u8])
    ensures
        final(out)@ == old(out)@ + data@,
{
    let mut i: usize = 0;
    while i < data.len()
        invariant
            0 <= i <= data.len(),
            out@ =~= old(out)@ + data@.take(i as int),
        decreases data.len() - i,
    {
        out.push(data[i]);
        proof {
            assert(data@.take(i as int + 1) =~= data@.take(i as int).push(data@[i as int]));
        }
        i += 1;
    }
    proof {
        assert(data@.take(data@.len() as int) =~= data@);
    }
}

/// Appends a 64-bit value, little endian.
fn write_u64le(out: &mut Vec<u8>, x: u64)
    ensures
        final(out)@ == old(out)@ + vstd::bytes::spec_u64_to_le_bytes(x),
{
    let bytes = u64_to_le_bytes(x);
    write_bytes(out, bytes.as_slice());
}

/// Appends a 32-bit value, little endian.
fn write_u32le(out: &mut Vec<u8>, x: u32)
    ensures
        final(out)@ == old(out)@ + vstd::bytes::spec_u32_to_le_bytes(x),
{
    let bytes = u32_to_le_bytes(x);
    write_bytes(out, bytes.as_slice());
}

pub fn serialize_hash(out: &mut Vec<u8>, h: &H256)
    ensures
        final(out)@ == old(out)@ + hash_bytes(h@),
{
    write_bytes(out, h.bytes.as_slice());
}

pub fn serialize_header(out: &mut Vec<u8>, h: &Header)
    ensures
        final(out)@ == old(out)@ + header_bytes(h@),
{
    write_u64le(out, h.number);
    write_bytes(out, h.payload.as_slice());
    proof {
        assert(out@ =~= old(out)@ + header_bytes(h@));
    }
}

pub fn serialize_version(out: &mut Vec<u8>, v: u32)
    ensures
        final(out)@ == old(out)@ + version_bytes(v),
{
    write_u32le(out, v);
}

pub fn serialize_out_point(out: &mut Vec<u8>, o: &OutPoint)
    ensures
        final(out)@ == old(out)@ + out_point_bytes(o@),
{
    match &o.cell {
        Some(c) => {
            out.push(1u8);
            write_bytes(out, c.tx_hash.bytes.as_slice());
            write_u32le(out, c.index);
            proof {
                assert(out@ =~= old(out)@ + out_point_bytes(o@));
            }
        },
        None => {
            out.push(0u8);
            proof {
                assert(out@ =~= old(out)@ + out_point_bytes(o@));
            }
        },
    }
}

pub fn serialize_input(out: &mut Vec<u8>, i: &CellInput)
    ensures
        final(out)@ == old(out)@ + input_bytes(i@),
{
    write_u64le(out, i.since);
    serialize_out_point(out, &i.previous);
    proof {
        assert(out@ =~= old(out)@ + input_bytes(i@));
    }
}

pub fn serialize_output(out: &mut Vec<u8>, o: &CellOutput)
    requires
        o@.wf(),
    ensures
        final(out)@ == old(out)@ + output_bytes(o@),
{
    write_u64le(out, o.capacity);
    write_u32le(out, o.lock.len() as u32);
    write_bytes(out, o.lock.as_slice());
    write_bytes(out, o.data.as_slice());
    proof {
        assert(out@ =~= old(out)@ + output_bytes(o@));
    }
}

/// Serializes one transaction: hash, version, then its four lists in order.
#[verifier::loop_isolation(false)]
pub fn serialize_transaction(out: &mut Vec<u8>, tx: &Transaction)
    requires
        tx@.wf(),
    ensures
        final(out)@ == old(out)@ + transaction_bytes(tx@),
{
    let ghost start = out@;
    serialize_hash(out, &tx.hash);
    serialize_version(out, tx.version);
    let mut i: usize = 0;
    while i < tx.deps.len()
        invariant
            0 <= i <= tx.deps.len(),
            out@ =~= start + hash_bytes(tx@.hash) + version_bytes(tx@.version) + concat_with(
                out_point_enc(),
                tx@.deps.take(i as int),
            ),
        decreases tx.deps.len() - i,
    {
        proof {
            assert(tx@.deps[i as int] == tx.deps@[i as int]@);
            lemma_concat_with_snoc(out_point_enc(), tx@.deps.take(i as int), tx@.deps[i as int]);
            assert(tx@.deps.take(i as int).push(tx@.deps[i as int]) =~= tx@.deps.take(
                i as int + 1,
            ));
        }
        serialize_out_point(out, &tx.deps[i]);
        i += 1;
    }
    proof {
        assert(tx@.deps.take(tx.deps@.len() as int) =~= tx@.deps);
    }
    let ghost after_deps = out@;
    let mut i: usize = 0;
    while i < tx.inputs.len()
        invariant
            0 <= i <= tx.inputs.len(),
            out@ =~= after_deps + concat_with(input_enc(), tx@.inputs.take(i as int)),
        decreases tx.inputs.len() - i,
    {
        proof {
            assert(tx@.inputs[i as int] == tx.inputs@[i as int]@);
            lemma_concat_with_snoc(input_enc(), tx@.inputs.take(i as int), tx@.inputs[i as int]);
            assert(tx@.inputs.take(i as int).push(tx@.inputs[i as int]) =~= tx@.inputs.take(
                i as int + 1,
            ));
        }
        serialize_input(out, &tx.inputs[i]);
        i += 1;
    }
    proof {
        assert(tx@.inputs.take(tx.inputs@.len() as int) =~= tx@.inputs);
    }
    let ghost after_inputs = out@;
    let mut i: usize = 0;
    while i < tx.outputs.len()
        invariant
            0 <= i <= tx.outputs.len(),
            out@ =~= after_inputs + concat_with(output_enc(), tx@.outputs.take(i as int)),
        decreases tx.outputs.len() - i,
    {
        proof {
            assert(tx@.outputs[i as int] == tx.outputs@[i as int]@);
            lemma_concat_with_snoc(output_enc(), tx@.outputs.take(i as int), tx@.outputs[i as int]);
            assert(tx@.outputs.take(i as int).push(tx@.outputs[i as int]) =~= tx@.outputs.take(
                i as int + 1,
            ));
        }
        serialize_output(out, &tx.outputs[i]);
        i += 1;
    }
    proof {
        assert(tx@.outputs.take(tx.outputs@.len() as int) =~= tx@.outputs);
    }
    let ghost after_outputs = out@;
    let mut i: usize = 0;
    while i < tx.witnesses.len()
        invariant
            0 <= i <= tx.witnesses.len(),
            out@ =~= after_outputs + concat_with(blob_enc(), tx@.witnesses.take(i as int)),
        decreases tx.witnesses.len() - i,
    {
        proof {
            assert(tx@.witnesses[i as int] == tx.witnesses@[i as int]@);
            lemma_concat_with_snoc(
                blob_enc(),
                tx@.witnesses.take(i as int),
                tx@.witnesses[i as int],
            );
            assert(tx@.witnesses.take(i as int).push(tx@.witnesses[i as int])
                =~= tx@.witnesses.take(i as int + 1));
        }
        write_bytes(out, tx.witnesses[i].as_slice());
        i += 1;
    }
    proof {
        assert(tx@.witnesses.take(tx.witnesses@.len() as int) =~= tx@.witnesses);
        assert(out@ =~= start + transaction_bytes(tx@));
    }
}

/// Serializes one uncle: hash, header, then its proposals.
#[verifier::loop_isolation(false)]
pub fn serialize_uncle_block(out: &mut Vec<u8>, uncle: &UncleBlock)
    ensures
        final(out)@ == old(out)@ + uncle_bytes(uncle@),
{
    let ghost start = out@;
    serialize_hash(out, &uncle.hash);
    serialize_header(out, &uncle.header);
    let mut i: usize = 0;
    while i < uncle.proposals.len()
        invariant
            0 <= i <= uncle.proposals.len(),
            out@ =~= start + hash_bytes(uncle@.hash) + header_bytes(uncle@.header) + concat_with(
                blob_enc(),
                uncle@.proposals.take(i as int),
            ),
        decreases uncle.proposals.len() - i,
    {
        proof {
            assert(uncle@.proposals[i as int] == uncle.proposals@[i as int]@);
            lemma_concat_with_snoc(
                blob_enc(),
                uncle@.proposals.take(i as int),
                uncle@.proposals[i as int],
            );
            assert(uncle@.proposals.take(i as int).push(uncle@.proposals[i as int])
                =~= uncle@.proposals.take(i as int + 1));
        }
        write_bytes(out, uncle.proposals[i].as_slice());
        i += 1;
    }
    proof {
        assert(uncle@.proposals.take(uncle.proposals@.len() as int) =~= uncle@.proposals);
        assert(out@ =~= start + uncle_bytes(uncle@));
    }
}

/// Serializes a whole block into one buffer, in index order.
#[verifier::loop_isolation(false)]
pub fn serialize_block(out: &mut Vec<u8>, block: &Block)
    requires
        block@.wf(),
    ensures
        final(out)@ == old(out)@ + block_bytes(block@),
{
    let ghost start = out@;
    serialize_hash(out, &block.hash);
    serialize_header(out, &block.header);
    let mut i: usize = 0;
    while i < block.uncles.len()
        invariant
            0 <= i <= block.uncles.len(),
            out@ =~= start + hash_bytes(block@.hash) + header_bytes(block@.header) + concat_with(
                uncle_enc(),
                block@.uncles.take(i as int),
            ),
        decreases block.uncles.len() - i,
    {
        proof {
            assert(block@.uncles[i as int] == block.uncles@[i as int]@);
            lemma_concat_with_snoc(
                uncle_enc(),
                block@.uncles.take(i as int),
                block@.uncles[i as int],
            );
            assert(block@.uncles.take(i as int).push(block@.uncles[i as int])
                =~= block@.uncles.take(i as int + 1));
        }
        serialize_uncle_block(out, &block.uncles[i]);
        i += 1;
    }
    proof {
        assert(block@.uncles.take(block.uncles@.len() as int) =~= block@.uncles);
    }
    let ghost after_uncles = out@;
    let mut i: usize = 0;
    while i < block.transactions.len()
        invariant
            0 <= i <= block.transactions.len(),
            out@ =~= after_uncles + concat_with(
                transaction_enc(),
                block@.transactions.take(i as int),
            ),
        decreases block.transactions.len() - i,
    {
        proof {
            assert(block@.transactions[i as int] == block.transactions@[i as int]@);
            lemma_concat_with_snoc(
                transaction_enc(),
                block@.transactions.take(i as int),
                block@.transactions[i as int],
            );
            assert(block@.transactions.take(i as int).push(block@.transactions[i as int])
                =~= block@.transactions.take(i as int + 1));
        }
        serialize_transaction(out, &block.transactions[i]);
        i += 1;
    }
    proof {
        assert(block@.transactions.take(block.transactions@.len() as int)
            =~= block@.transactions);
    }
    let ghost after_txs = out@;
    let mut i: usize = 0;
    while i < block.proposals.len()
        invariant
            0 <= i <= block.proposals.len(),
            out@ =~= after_txs + concat_with(blob_enc(), block@.proposals.take(i as int)),
        decreases block.proposals.len() - i,
    {
        proof {
            assert(block@.proposals[i as int] == block.proposals@[i as int]@);
            lemma_concat_with_snoc(
                blob_enc(),
                block@.proposals.take(i as int),
                block@.proposals[i as int],
            );
            assert(block@.proposals.take(i as int).push(block@.proposals[i as int])
                =~= block@.proposals.take(i as int + 1));
        }
        write_bytes(out, block.proposals[i].as_slice());
        i += 1;
    }
    proof {
        assert(block@.proposals.take(block.proposals@.len() as int) =~= block@.proposals);
        assert(out@ =~= start + block_bytes(block@));
    }
}

/// Serializes a block into one flat buffer and derives its positional
/// index. The buffer's length provably equals the total the size pass
/// computed: a mismatch cannot arise.
pub fn serialize_block_with_index(block: &Block) -> (r: (Vec<u8>, crate::index::BlockIndex))
    requires
        block@.wf(),
        block_bytes(block@).len() <= usize::MAX,
    ensures
        r.0@ == block_bytes(block@),
        r.1@ == crate::index::spec_block_index(spec_block_size(block@)),
{
    let block_size = serialized_block_size(block);
    proof {
        crate::index::lemma_spec_block_size_wf(block@);
        crate::index::lemma_block_size_total(block@);
    }
    let (block_length, block_index) = crate::index::calculate_block_index(block_size);
    let mut buffer: Vec<u8> = Vec::new();
    serialize_block(&mut buffer, block);
    assert(block_length == buffer.len());
    (buffer, block_index)
}

} // verus!
