//! The byte-level encoding of every field the codec lays out.
//!
//! Every leaf field is self-delimiting within its own byte range: given
//! exactly the slice a `Position` addresses, the field decodes without
//! looking at any sibling. Composite encodings are plain concatenations in
//! the fixed serialization order; `concat_with` and the parse functions here
//! are the mathematical reference the executable codec is proved against.

use vstd::prelude::*;
use vstd::bytes::spec_u32_to_le_bytes;
use vstd::bytes::spec_u32_from_le_bytes;
use vstd::bytes::spec_u64_to_le_bytes;
use vstd::bytes::spec_u64_from_le_bytes;
use vstd::bytes::lemma_auto_spec_u32_to_from_le_bytes;
use vstd::bytes::lemma_auto_spec_u64_to_from_le_bytes;
use crate::model::BlockV;
use crate::model::CellInputV;
use crate::model::CellOutputV;
use crate::model::CellRefV;
use crate::model::H256V;
use crate::model::HeaderV;
use crate::model::OutPointV;
use crate::model::TransactionV;
use crate::model::UncleBlockV;

verus! {

// ---------------------------------------------------------------------------
// Encodings
// ---------------------------------------------------------------------------
/// A hash is its 32 raw bytes.
pub open spec fn hash_bytes(h: H256V) -> Seq<u8> {
    h.bytes
}

/// A header is its number, little endian, followed by the rest of its fields
/// as one payload filling the remainder of the range.
pub open spec fn header_bytes(h: HeaderV) -> Seq<u8> {
    spec_u64_to_le_bytes(h.number) + h.payload
}

/// A transaction version is four little-endian bytes.
pub open spec fn version_bytes(v: u32) -> Seq<u8> {
    spec_u32_to_le_bytes(v)
}

/// An opaque blob (a proposal short id or a witness) is its raw bytes.
pub open spec fn blob_bytes(b: Seq<u8>) -> Seq<u8> {
    b
}

/// An out point: a tag byte, then, when it points at a cell, the 32-byte
/// transaction hash and the little-endian output index.
pub open spec fn out_point_bytes(o: OutPointV) -> Seq<u8> {
    match o.cell {
        Some(c) => seq![1u8] + c.tx_hash.bytes + spec_u32_to_le_bytes(c.index),
        None => seq![0u8],
    }
}

/// An input: its since value, then the out point it consumes.
pub open spec fn input_bytes(i: CellInputV) -> Seq<u8> {
    spec_u64_to_le_bytes(i.since) + out_point_bytes(i.previous)
}

/// An output: capacity, the lock script prefixed by its 32-bit length, then
/// the output data filling the remainder of the range.
pub open spec fn output_bytes(o: CellOutputV) -> Seq<u8> {
    spec_u64_to_le_bytes(o.capacity) + spec_u32_to_le_bytes(o.lock.len() as u32) + o.lock
        + o.data
}

/// The concatenation of `f` over every element of `s`, in order.
pub open spec fn concat_with<T>(f: spec_fn(T) -> Seq<u8>, s: Seq<T>) -> Seq<u8>
    decreases s.len(),
{
    if s.len() == 0 {
        Seq::empty()
    } else {
        f(s[0]) + concat_with(f, s.skip(1))
    }
}

/// The out-point encoding as a function value, so that every use of
/// `concat_with` over out points names one and the same function.
pub open spec fn out_point_enc() -> spec_fn(OutPointV) -> Seq<u8> {
    |d: OutPointV| out_point_bytes(d)
}

pub open spec fn input_enc() -> spec_fn(CellInputV) -> Seq<u8> {
    |i: CellInputV| input_bytes(i)
}

pub open spec fn output_enc() -> spec_fn(CellOutputV) -> Seq<u8> {
    |o: CellOutputV| output_bytes(o)
}

pub open spec fn blob_enc() -> spec_fn(Seq<u8>) -> Seq<u8> {
    |b: Seq<u8>| blob_bytes(b)
}

pub open spec fn uncle_enc() -> spec_fn(UncleBlockV) -> Seq<u8> {
    |u: UncleBlockV| uncle_bytes(u)
}

pub open spec fn transaction_enc() -> spec_fn(TransactionV) -> Seq<u8> {
    |t: TransactionV| transaction_bytes(t)
}

/// A transaction's bytes: hash, version, then its four lists in order.
pub open spec fn transaction_bytes(t: TransactionV) -> Seq<u8> {
    hash_bytes(t.hash) + version_bytes(t.version) + concat_with(out_point_enc(), t.deps)
        + concat_with(input_enc(), t.inputs) + concat_with(output_enc(), t.outputs)
        + concat_with(blob_enc(), t.witnesses)
}

/// An uncle's bytes: hash, header, then its proposals.
pub open spec fn uncle_bytes(u: UncleBlockV) -> Seq<u8> {
    hash_bytes(u.hash) + header_bytes(u.header) + concat_with(blob_enc(), u.proposals)
}

/// The whole block buffer: hash, header, uncles, transactions, proposals.
pub open spec fn block_bytes(b: BlockV) -> Seq<u8> {
    hash_bytes(b.hash) + header_bytes(b.header) + concat_with(uncle_enc(), b.uncles)
        + concat_with(transaction_enc(), b.transactions) + concat_with(blob_enc(), b.proposals)
}

// ---------------------------------------------------------------------------
// Parses: each consumes exactly the slice it is handed
// ---------------------------------------------------------------------------
pub open spec fn parse_hash(s: Seq<u8>) -> Option<H256V> {
    if s.len() == 32 {
        Some(H256V { bytes: s })
    } else {
        None
    }
}

pub open spec fn parse_header(s: Seq<u8>) -> Option<HeaderV> {
    if s.len() >= 8 {
        Some(
            HeaderV {
                number: spec_u64_from_le_bytes(s.subrange(0, 8)),
                payload: s.skip(8),
            },
        )
    } else {
        None
    }
}

pub open spec fn parse_version(s: Seq<u8>) -> Option<u32> {
    if s.len() == 4 {
        Some(spec_u32_from_le_bytes(s))
    } else {
        None
    }
}

pub open spec fn parse_blob(s: Seq<u8>) -> Option<Seq<u8>> {
    Some(s)
}

pub open spec fn parse_out_point(s: Seq<u8>) -> Option<OutPointV> {
    if s.len() == 1 && s[0] == 0u8 {
        Some(OutPointV { cell: None })
    } else if s.len() == 37 && s[0] == 1u8 {
        Some(
            OutPointV {
                cell: Some(
                    CellRefV {
                        tx_hash: H256V { bytes: s.subrange(1, 33) },
                        index: spec_u32_from_le_bytes(s.subrange(33, 37)),
                    },
                ),
            },
        )
    } else {
        None
    }
}

pub open spec fn parse_input(s: Seq<u8>) -> Option<CellInputV> {
    if s.len() >= 8 {
        match parse_out_point(s.skip(8)) {
            Some(p) => Some(
                CellInputV { previous: p, since: spec_u64_from_le_bytes(s.subrange(0, 8)) },
            ),
            None => None,
        }
    } else {
        None
    }
}

pub open spec fn parse_output(s: Seq<u8>) -> Option<CellOutputV> {
    if s.len() >= 12 {
        let l = spec_u32_from_le_bytes(s.subrange(8, 12)) as int;
        if 12 + l <= s.len() {
            Some(
                CellOutputV {
                    capacity: spec_u64_from_le_bytes(s.subrange(0, 8)),
                    lock: s.subrange(12, 12 + l),
                    data: s.skip(12 + l),
                },
            )
        } else {
            None
        }
    } else {
        None
    }
}

// ---------------------------------------------------------------------------
// Round trips at the leaves
// ---------------------------------------------------------------------------
pub proof fn lemma_parse_hash(h: H256V)
    requires
        h.wf(),
    ensures
        parse_hash(hash_bytes(h)) == Some(h),
{
}

pub proof fn lemma_parse_header(h: HeaderV)
    ensures
        parse_header(header_bytes(h)) == Some(h),
{
    lemma_auto_spec_u64_to_from_le_bytes();
    let s = header_bytes(h);
    assert(s.subrange(0, 8) =~= spec_u64_to_le_bytes(h.number));
    assert(s.skip(8) =~= h.payload);
}

pub proof fn lemma_parse_version(v: u32)
    ensures
        parse_version(version_bytes(v)) == Some(v),
{
    lemma_auto_spec_u32_to_from_le_bytes();
}

pub proof fn lemma_parse_out_point(o: OutPointV)
    requires
        o.wf(),
    ensures
        parse_out_point(out_point_bytes(o)) == Some(o),
{
    lemma_auto_spec_u32_to_from_le_bytes();
    let s = out_point_bytes(o);
    match o.cell {
        Some(c) => {
            assert(s.len() == 37);
            assert(s[0] == 1u8);
            assert(s.subrange(1, 33) =~= c.tx_hash.bytes);
            assert(s.subrange(33, 37) =~= spec_u32_to_le_bytes(c.index));
        },
        None => {
            assert(s.len() == 1);
        },
    }
}

pub proof fn lemma_parse_input(i: CellInputV)
    requires
        i.wf(),
    ensures
        parse_input(input_bytes(i)) == Some(i),
{
    lemma_auto_spec_u64_to_from_le_bytes();
    let s = input_bytes(i);
    assert(s.subrange(0, 8) =~= spec_u64_to_le_bytes(i.since));
    assert(s.skip(8) =~= out_point_bytes(i.previous));
    lemma_parse_out_point(i.previous);
}

pub proof fn lemma_parse_output(o: CellOutputV)
    requires
        o.wf(),
    ensures
        parse_output(output_bytes(o)) == Some(o),
{
    lemma_auto_spec_u64_to_from_le_bytes();
    lemma_auto_spec_u32_to_from_le_bytes();
    let s = output_bytes(o);
    let l = o.lock.len() as int;
    assert(s.subrange(0, 8) =~= spec_u64_to_le_bytes(o.capacity));
    assert(s.subrange(8, 12) =~= spec_u32_to_le_bytes(o.lock.len() as u32));
    assert(spec_u32_from_le_bytes(s.subrange(8, 12)) == l);
    assert(s.subrange(12, 12 + l) =~= o.lock);
    assert(s.skip(12 + l) =~= o.data);
}

// ---------------------------------------------------------------------------
// Facts about concatenations
// ---------------------------------------------------------------------------
pub proof fn lemma_concat_with_snoc<T>(f: spec_fn(T) -> Seq<u8>, s: Seq<T>, x: T)
    ensures
        concat_with(f, s.push(x)) =~= concat_with(f, s) + f(x),
    decreases s.len(),
{
    if s.len() == 0 {
        assert(s.push(x)[0] == x);
        assert(s.push(x).skip(1) =~= Seq::<T>::empty());
        assert(concat_with(f, Seq::<T>::empty()) =~= Seq::<u8>::empty());
    } else {
        assert(s.push(x)[0] == s[0]);
        assert(s.push(x).skip(1) =~= s.skip(1).push(x));
        lemma_concat_with_snoc(f, s.skip(1), x);
        assert(concat_with(f, s.push(x)) =~= f(s[0]) + concat_with(f, s.skip(1).push(x)));
    }
}

/// Each piece is no longer than the whole concatenation.
pub proof fn lemma_concat_with_piece_le<T>(f: spec_fn(T) -> Seq<u8>, s: Seq<T>, i: int)
    requires
        0 <= i < s.len(),
    ensures
        f(s[i]).len() <= concat_with(f, s).len(),
    decreases i,
{
    if i > 0 {
        lemma_concat_with_piece_le(f, s.skip(1), i - 1);
    }
}

} // verus!
