//! The partial deserialize pass: reading any addressed field back.
//!
//! Each function takes the flat buffer and a position (or an index tree) and
//! returns exactly what the mathematical decode returns: `Corruption` for a
//! range the buffer cannot support, `Codec` for a slice that does not parse,
//! and otherwise the decoded value. Decoding one field never reads its
//! siblings.

use vstd::prelude::*;
use vstd::bytes::u32_from_le_bytes;
use vstd::bytes::u64_from_le_bytes;
use vstd::slice::slice_subrange;
use vstd::slice::slice_to_vec;
use crate::decode::blob_dec;
use crate::decode::decode_blob_at;
use crate::decode::decode_block_at;
use crate::decode::decode_hash_at;
use crate::decode::decode_header_at;
use crate::decode::decode_input_at;
use crate::decode::decode_list_at;
use crate::decode::decode_out_point_at;
use crate::decode::decode_output_at;
use crate::decode::decode_transaction_at;
use crate::decode::decode_uncle_block_at;
use crate::decode::decode_version_at;
use crate::decode::input_dec;
use crate::decode::lemma_decode_list_first_err;
use crate::decode::lemma_decode_list_snoc;
use crate::decode::out_point_dec;
use crate::decode::output_dec;
use crate::decode::pos_ok;
use crate::decode::result_view;
use crate::decode::slice_at;
use crate::decode::transaction_dec;
use crate::decode::uncle_dec;
use crate::encoding::parse_out_point;
use crate::error::Error;
use crate::index::pos_views;
use crate::index::BlockIndex;
use crate::index::Position;
use crate::index::TransactionIndex;
use crate::index::UncleBlockIndex;
use crate::model::Block;
use crate::model::CellInput;
use crate::model::CellInputV;
use crate::model::CellOutput;
use crate::model::CellOutputV;
use crate::model::CellRef;
use crate::model::H256;
use crate::model::Header;
use crate::model::OutPoint;
use crate::model::OutPointV;
use crate::model::Transaction;
use crate::model::TransactionV;
use crate::model::UncleBlock;
use crate::model::UncleBlockV;

verus! {

/// Whether the position addresses a range the buffer supports.
fn check_range(bytes: &[u8], position: &Position) -> (r: bool)
    ensures
        r == pos_ok(bytes@, position@),
{
    position.offset <= bytes.len() && position.length <= bytes.len() - position.offset
}

/// Decodes the hash a position addresses.
pub fn deserialize_hash(bytes: &[u8], position: &Position) -> (r: Result<H256, Error>)
    ensures
        result_view(r) == decode_hash_at(bytes@, position@),
{
    if !check_range(bytes, position) {
        return Err(Error::Corruption);
    }
    let blen = bytes.len();
    proof {
        assert(pos_ok(bytes@, position@));
        assert(position.offset + position.length <= blen);
    }
    let s = slice_subrange(bytes, position.offset, position.offset + position.length);
    if s.len() != 32 {
        return Err(Error::Codec);
    }
    Ok(H256 { bytes: slice_to_vec(s) })
}

/// Decodes the header a position addresses.
pub fn deserialize_header(bytes: &[u8], position: &Position) -> (r: Result<Header, Error>)
    ensures
        result_view(r) == decode_header_at(bytes@, position@),
{
    if !check_range(bytes, position) {
        return Err(Error::Corruption);
    }
    let blen = bytes.len();
    proof {
        assert(pos_ok(bytes@, position@));
        assert(position.offset + position.length <= blen);
    }
    let s = slice_subrange(bytes, position.offset, position.offset + position.length);
    if s.len() < 8 {
        return Err(Error::Codec);
    }
    let number = u64_from_le_bytes(slice_subrange(s, 0, 8));
    let payload = slice_to_vec(slice_subrange(s, 8, s.len()));
    proof {
        assert(s@.subrange(8, s@.len() as int) =~= s@.skip(8));
    }
    Ok(Header { number, payload })
}

/// Decodes the version a position addresses.
pub fn deserialize_version(bytes: &[u8], position: &Position) -> (r: Result<u32, Error>)
    ensures
        result_view(r) == decode_version_at(bytes@, position@),
{
    if !check_range(bytes, position) {
        return Err(Error::Corruption);
    }
    let blen = bytes.len();
    proof {
        assert(pos_ok(bytes@, position@));
        assert(position.offset + position.length <= blen);
    }
    let s = slice_subrange(bytes, position.offset, position.offset + position.length);
    if s.len() != 4 {
        return Err(Error::Codec);
    }
    Ok(u32_from_le_bytes(s))
}

/// Decodes the blob (a proposal short id or a witness) a position addresses.
pub fn deserialize_blob(bytes: &[u8], position: &Position) -> (r: Result<Vec<u8>, Error>)
    ensures
        result_view(r) == decode_blob_at(bytes@, position@),
{
    if !check_range(bytes, position) {
        return Err(Error::Corruption);
    }
    let blen = bytes.len();
    proof {
        assert(pos_ok(bytes@, position@));
        assert(position.offset + position.length <= blen);
    }
    let s = slice_subrange(bytes, position.offset, position.offset + position.length);
    Ok(slice_to_vec(s))
}

/// Decodes the out point a position addresses.
pub fn deserialize_out_point(bytes: &[u8], position: &Position) -> (r: Result<OutPoint, Error>)
    ensures
        result_view(r) == decode_out_point_at(bytes@, position@),
{
    if !check_range(bytes, position) {
        return Err(Error::Corruption);
    }
    let blen = bytes.len();
    proof {
        assert(pos_ok(bytes@, position@));
        assert(position.offset + position.length <= blen);
    }
    let s = slice_subrange(bytes, position.offset, position.offset + position.length);
    parse_out_point_slice(s)
}

/// Parses an out point from exactly its slice.
fn parse_out_point_slice(s: &[u8]) -> (r: Result<OutPoint, Error>)
    ensures
        (match r {
            Ok(v) => parse_out_point(s@) == Some(v@),
            Err(e) => parse_out_point(s@) is None && e == Error::Codec,
        }),
{
    if s.len() == 1 {
        if s[0] == 0 {
            Ok(OutPoint { cell: None })
        } else {
            Err(Error::Codec)
        }
    } else if s.len() == 37 {
        if s[0] == 1 {
            let tx_hash = H256 { bytes: slice_to_vec(slice_subrange(s, 1, 33)) };
            let index = u32_from_le_bytes(slice_subrange(s, 33, 37));
            Ok(OutPoint { cell: Some(CellRef { tx_hash, index }) })
        } else {
            Err(Error::Codec)
        }
    } else {
        Err(Error::Codec)
    }
}

/// Decodes the input a position addresses.
pub fn deserialize_input(bytes: &[u8], position: &Position) -> (r: Result<CellInput, Error>)
    ensures
        result_view(r) == decode_input_at(bytes@, position@),
{
    if !check_range(bytes, position) {
        return Err(Error::Corruption);
    }
    let blen = bytes.len();
    proof {
        assert(pos_ok(bytes@, position@));
        assert(position.offset + position.length <= blen);
    }
    let s = slice_subrange(bytes, position.offset, position.offset + position.length);
    if s.len() < 8 {
        return Err(Error::Codec);
    }
    let since = u64_from_le_bytes(slice_subrange(s, 0, 8));
    let tail = slice_subrange(s, 8, s.len());
    proof {
        assert(s@.subrange(8, s@.len() as int) =~= s@.skip(8));
    }
    match parse_out_point_slice(tail) {
        Ok(previous) => Ok(CellInput { previous, since }),
        Err(e) => Err(e),
    }
}

/// Decodes the cell output a position addresses.
pub fn deserialize_output(bytes: &[u8], position: &Position) -> (r: Result<CellOutput, Error>)
    ensures
        result_view(r) == decode_output_at(bytes@, position@),
{
    if !check_range(bytes, position) {
        return Err(Error::Corruption);
    }
    let blen = bytes.len();
    proof {
        assert(pos_ok(bytes@, position@));
        assert(position.offset + position.length <= blen);
    }
    let s = slice_subrange(bytes, position.offset, position.offset + position.length);
    if s.len() < 12 {
        return Err(Error::Codec);
    }
    let capacity = u64_from_le_bytes(slice_subrange(s, 0, 8));
    let l = u32_from_le_bytes(slice_subrange(s, 8, 12));
    if l as usize > s.len() - 12 {
        return Err(Error::Codec);
    }
    let lock_end = 12 + l as usize;
    let lock = slice_to_vec(slice_subrange(s, 12, lock_end));
    let data = slice_to_vec(slice_subrange(s, lock_end, s.len()));
    proof {
        assert(s@.subrange(lock_end as int, s@.len() as int) =~= s@.skip(lock_end as int));
    }
    Ok(CellOutput { capacity, lock, data })
}

/// Decodes the out points a list of positions addresses, in order.
#[verifier::loop_isolation(false)]
pub fn deserialize_out_points(bytes: &[u8], positions: &Vec<Position>) -> (r: Result<
    Vec<OutPoint>,
    Error,
>)
    ensures
        (match r {
            Ok(vs) => decode_list_at(out_point_dec(), bytes@, pos_views(positions@)) == Ok::<
                Seq<OutPointV>,
                Error,
            >(vs@.map_values(|x: OutPoint| x@)),
            Err(e) => decode_list_at(out_point_dec(), bytes@, pos_views(positions@)) == Err::<
                Seq<OutPointV>,
                Error,
            >(e),
        }),
{
    let mut out: Vec<OutPoint> = Vec::new();
    proof {
        assert(pos_views(positions@).take(0) =~= Seq::<crate::index::PosV>::empty());
        assert(out@.map_values(|x: OutPoint| x@) =~= Seq::<OutPointV>::empty());
        assert(decode_list_at(out_point_dec(), bytes@, Seq::<crate::index::PosV>::empty()) == Ok::<
            Seq<OutPointV>,
            Error,
        >(Seq::empty()));
    }
    let mut i: usize = 0;
    while i < positions.len()
        invariant
            0 <= i <= positions.len(),
            out@.len() == i,
            decode_list_at(out_point_dec(), bytes@, pos_views(positions@).take(i as int)) == Ok::<
                Seq<OutPointV>,
                Error,
            >(out@.map_values(|x: OutPoint| x@)),
        decreases positions.len() - i,
    {
        proof {
            assert(pos_views(positions@)[i as int] == positions@[i as int]@);
        }
        match deserialize_out_point(bytes, &positions[i]) {
            Ok(v) => {
                let ghost prev = out@;
                proof {
                    lemma_decode_list_snoc(
                        out_point_dec(),
                        bytes@,
                        pos_views(positions@).take(i as int),
                        positions@[i as int]@,
                    );
                    assert(pos_views(positions@).take(i as int).push(positions@[i as int]@)
                        =~= pos_views(positions@).take(i as int + 1));
                    assert(out_point_dec()(bytes@, positions@[i as int]@) == decode_out_point_at(
                        bytes@,
                        positions@[i as int]@,
                    ));
                }
                out.push(v);
                proof {
                    assert(out@.map_values(|x: OutPoint| x@) =~= prev.map_values(
                        |x: OutPoint| x@,
                    ).push(v@));
                }
                i += 1;
            },
            Err(e) => {
                proof {
                    assert(out_point_dec()(bytes@, pos_views(positions@)[i as int]) == decode_out_point_at(
                        bytes@,
                        positions@[i as int]@,
                    ));
                    lemma_decode_list_first_err(out_point_dec(), bytes@, pos_views(positions@), i as int);
                }
                return Err(e);
            },
        }
    }
    proof {
        assert(pos_views(positions@).take(positions@.len() as int) =~= pos_views(positions@));
    }
    Ok(out)
}

/// Decodes the inputs a list of positions addresses, in order.
#[verifier::loop_isolation(false)]
pub fn deserialize_inputs(bytes: &[u8], positions: &Vec<Position>) -> (r: Result<
    Vec<CellInput>,
    Error,
>)
    ensures
        (match r {
            Ok(vs) => decode_list_at(input_dec(), bytes@, pos_views(positions@)) == Ok::<
                Seq<CellInputV>,
                Error,
            >(vs@.map_values(|x: CellInput| x@)),
            Err(e) => decode_list_at(input_dec(), bytes@, pos_views(positions@)) == Err::<
                Seq<CellInputV>,
                Error,
            >(e),
        }),
{
    let mut out: Vec<CellInput> = Vec::new();
    proof {
        assert(pos_views(positions@).take(0) =~= Seq::<crate::index::PosV>::empty());
        assert(out@.map_values(|x: CellInput| x@) =~= Seq::<CellInputV>::empty());
        assert(decode_list_at(input_dec(), bytes@, Seq::<crate::index::PosV>::empty()) == Ok::<
            Seq<CellInputV>,
            Error,
        >(Seq::empty()));
    }
    let mut i: usize = 0;
    while i < positions.len()
        invariant
            0 <= i <= positions.len(),
            out@.len() == i,
            decode_list_at(input_dec(), bytes@, pos_views(positions@).take(i as int)) == Ok::<
                Seq<CellInputV>,
                Error,
            >(out@.map_values(|x: CellInput| x@)),
        decreases positions.len() - i,
    {
        proof {
            assert(pos_views(positions@)[i as int] == positions@[i as int]@);
        }
        match deserialize_input(bytes, &positions[i]) {
            Ok(v) => {
                let ghost prev = out@;
                proof {
                    lemma_decode_list_snoc(
                        input_dec(),
                        bytes@,
                        pos_views(positions@).take(i as int),
                        positions@[i as int]@,
                    );
                    assert(pos_views(positions@).take(i as int).push(positions@[i as int]@)
                        =~= pos_views(positions@).take(i as int + 1));
                    assert(input_dec()(bytes@, positions@[i as int]@) == decode_input_at(
                        bytes@,
                        positions@[i as int]@,
                    ));
                }
                out.push(v);
                proof {
                    assert(out@.map_values(|x: CellInput| x@) =~= prev.map_values(
                        |x: CellInput| x@,
                    ).push(v@));
                }
                i += 1;
            },
            Err(e) => {
                proof {
                    assert(input_dec()(bytes@, pos_views(positions@)[i as int]) == decode_input_at(
                        bytes@,
                        positions@[i as int]@,
                    ));
                    lemma_decode_list_first_err(input_dec(), bytes@, pos_views(positions@), i as int);
                }
                return Err(e);
            },
        }
    }
    proof {
        assert(pos_views(positions@).take(positions@.len() as int) =~= pos_views(positions@));
    }
    Ok(out)
}

/// Decodes the outputs a list of positions addresses, in order.
#[verifier::loop_isolation(false)]
pub fn deserialize_outputs(bytes: &[u8], positions: &Vec<Position>) -> (r: Result<
    Vec<CellOutput>,
    Error,
>)
    ensures
        (match r {
            Ok(vs) => decode_list_at(output_dec(), bytes@, pos_views(positions@)) == Ok::<
                Seq<CellOutputV>,
                Error,
            >(vs@.map_values(|x: CellOutput| x@)),
            Err(e) => decode_list_at(output_dec(), bytes@, pos_views(positions@)) == Err::<
                Seq<CellOutputV>,
                Error,
            >(e),
        }),
{
    let mut out: Vec<CellOutput> = Vec::new();
    proof {
        assert(pos_views(positions@).take(0) =~= Seq::<crate::index::PosV>::empty());
        assert(out@.map_values(|x: CellOutput| x@) =~= Seq::<CellOutputV>::empty());
        assert(decode_list_at(output_dec(), bytes@, Seq::<crate::index::PosV>::empty()) == Ok::<
            Seq<CellOutputV>,
            Error,
        >(Seq::empty()));
    }
    let mut i: usize = 0;
    while i < positions.len()
        invariant
            0 <= i <= positions.len(),
            out@.len() == i,
            decode_list_at(output_dec(), bytes@, pos_views(positions@).take(i as int)) == Ok::<
                Seq<CellOutputV>,
                Error,
            >(out@.map_values(|x: CellOutput| x@)),
        decreases positions.len() - i,
    {
        proof {
            assert(pos_views(positions@)[i as int] == positions@[i as int]@);
        }
        match deserialize_output(bytes, &positions[i]) {
            Ok(v) => {
                let ghost prev = out@;
                proof {
                    lemma_decode_list_snoc(
                        output_dec(),
                        bytes@,
                        pos_views(positions@).take(i as int),
                        positions@[i as int]@,
                    );
                    assert(pos_views(positions@).take(i as int).push(positions@[i as int]@)
                        =~= pos_views(positions@).take(i as int + 1));
                    assert(output_dec()(bytes@, positions@[i as int]@) == decode_output_at(
                        bytes@,
                        positions@[i as int]@,
                    ));
                }
                out.push(v);
                proof {
                    assert(out@.map_values(|x: CellOutput| x@) =~= prev.map_values(
                        |x: CellOutput| x@,
                    ).push(v@));
                }
                i += 1;
            },
            Err(e) => {
                proof {
                    assert(output_dec()(bytes@, pos_views(positions@)[i as int]) == decode_output_at(
                        bytes@,
                        positions@[i as int]@,
                    ));
                    lemma_decode_list_first_err(output_dec(), bytes@, pos_views(positions@), i as int);
                }
                return Err(e);
            },
        }
    }
    proof {
        assert(pos_views(positions@).take(positions@.len() as int) =~= pos_views(positions@));
    }
    Ok(out)
}

/// Decodes the blobs a list of positions addresses, in order.
#[verifier::loop_isolation(false)]
pub fn deserialize_blobs(bytes: &[u8], positions: &Vec<Position>) -> (r: Result<
    Vec<Vec<u8>>,
    Error,
>)
    ensures
        (match r {
            Ok(vs) => decode_list_at(blob_dec(), bytes@, pos_views(positions@)) == Ok::<
                Seq<Seq<u8>>,
                Error,
            >(vs@.map_values(|x: Vec<u8>| x@)),
            Err(e) => decode_list_at(blob_dec(), bytes@, pos_views(positions@)) == Err::<
                Seq<Seq<u8>>,
                Error,
            >(e),
        }),
{
    let mut out: Vec<Vec<u8>> = Vec::new();
    proof {
        assert(pos_views(positions@).take(0) =~= Seq::<crate::index::PosV>::empty());
        assert(out@.map_values(|x: Vec<u8>| x@) =~= Seq::<Seq<u8>>::empty());
        assert(decode_list_at(blob_dec(), bytes@, Seq::<crate::index::PosV>::empty()) == Ok::<
            Seq<Seq<u8>>,
            Error,
        >(Seq::empty()));
    }
    let mut i: usize = 0;
    while i < positions.len()
        invariant
            0 <= i <= positions.len(),
            out@.len() == i,
            decode_list_at(blob_dec(), bytes@, pos_views(positions@).take(i as int)) == Ok::<
                Seq<Seq<u8>>,
                Error,
            >(out@.map_values(|x: Vec<u8>| x@)),
        decreases positions.len() - i,
    {
        proof {
            assert(pos_views(positions@)[i as int] == positions@[i as int]@);
        }
        match deserialize_blob(bytes, &positions[i]) {
            Ok(v) => {
                let ghost prev = out@;
                proof {
                    lemma_decode_list_snoc(
                        blob_dec(),
                        bytes@,
                        pos_views(positions@).take(i as int),
                        positions@[i as int]@,
                    );
                    assert(pos_views(positions@).take(i as int).push(positions@[i as int]@)
                        =~= pos_views(positions@).take(i as int + 1));
                    assert(blob_dec()(bytes@, positions@[i as int]@) == decode_blob_at(
                        bytes@,
                        positions@[i as int]@,
                    ));
                }
                out.push(v);
                proof {
                    assert(out@.map_values(|x: Vec<u8>| x@) =~= prev.map_values(
                        |x: Vec<u8>| x@,
                    ).push(v@));
                }
                i += 1;
            },
            Err(e) => {
                proof {
                    assert(blob_dec()(bytes@, pos_views(positions@)[i as int]) == decode_blob_at(
                        bytes@,
                        positions@[i as int]@,
                    ));
                    lemma_decode_list_first_err(blob_dec(), bytes@, pos_views(positions@), i as int);
                }
                return Err(e);
            },
        }
    }
    proof {
        assert(pos_views(positions@).take(positions@.len() as int) =~= pos_views(positions@));
    }
    Ok(out)
}

/// Decodes one transaction through its index entry, in field order.
pub fn deserialize_transaction(bytes: &[u8], index: &TransactionIndex) -> (r: Result<
    Transaction,
    Error,
>)
    ensures
        (match r {
            Ok(v) => decode_transaction_at(bytes@, index@) == Ok::<TransactionV, Error>(v@),
            Err(e) => decode_transaction_at(bytes@, index@) == Err::<TransactionV, Error>(e),
        }),
{
    let hash = match deserialize_hash(bytes, &index.hash) {
        Ok(v) => v,
        Err(e) => {
            return Err(e);
        },
    };
    let version = match deserialize_version(bytes, &index.version) {
        Ok(v) => v,
        Err(e) => {
            return Err(e);
        },
    };
    let deps = match deserialize_out_points(bytes, &index.deps) {
        Ok(v) => v,
        Err(e) => {
            return Err(e);
        },
    };
    let inputs = match deserialize_inputs(bytes, &index.inputs) {
        Ok(v) => v,
        Err(e) => {
            return Err(e);
        },
    };
    let outputs = match deserialize_outputs(bytes, &index.outputs) {
        Ok(v) => v,
        Err(e) => {
            return Err(e);
        },
    };
    let witnesses = match deserialize_blobs(bytes, &index.witnesses) {
        Ok(v) => v,
        Err(e) => {
            return Err(e);
        },
    };
    let t = Transaction { hash, version, deps, inputs, outputs, witnesses };
    proof {
        assert(decode_transaction_at(bytes@, index@) == Ok::<TransactionV, Error>(t@));
    }
    Ok(t)
}

/// Decodes one uncle through its index entry, in field order.
pub fn deserialize_uncle_block(bytes: &[u8], index: &UncleBlockIndex) -> (r: Result<
    UncleBlock,
    Error,
>)
    ensures
        (match r {
            Ok(v) => decode_uncle_block_at(bytes@, index@) == Ok::<UncleBlockV, Error>(v@),
            Err(e) => decode_uncle_block_at(bytes@, index@) == Err::<UncleBlockV, Error>(e),
        }),
{
    let hash = match deserialize_hash(bytes, &index.hash) {
        Ok(v) => v,
        Err(e) => {
            return Err(e);
        },
    };
    let header = match deserialize_header(bytes, &index.header) {
        Ok(v) => v,
        Err(e) => {
            return Err(e);
        },
    };
    let proposals = match deserialize_blobs(bytes, &index.proposals) {
        Ok(v) => v,
        Err(e) => {
            return Err(e);
        },
    };
    let u = UncleBlock { hash, header, proposals };
    proof {
        assert(decode_uncle_block_at(bytes@, index@) == Ok::<UncleBlockV, Error>(u@));
    }
    Ok(u)
}

/// Decodes a whole block through its index: the full-decode path.
#[verifier::loop_isolation(false)]
pub fn deserialize_block(bytes: &[u8], index: &BlockIndex) -> (r: Result<Block, Error>)
    ensures
        (match r {
            Ok(v) => decode_block_at(bytes@, index@) == Ok::<crate::model::BlockV, Error>(v@),
            Err(e) => decode_block_at(bytes@, index@) == Err::<crate::model::BlockV, Error>(e),
        }),
{
    let hash = match deserialize_hash(bytes, &index.hash) {
        Ok(v) => v,
        Err(e) => {
            return Err(e);
        },
    };
    let header = match deserialize_header(bytes, &index.header) {
        Ok(v) => v,
        Err(e) => {
            return Err(e);
        },
    };
    let mut uncles: Vec<UncleBlock> = Vec::new();
    proof {
        assert(index@.uncles.take(0) =~= Seq::<crate::index::UncleBlockIndexV>::empty());
        assert(uncles@.map_values(|x: UncleBlock| x@) =~= Seq::<UncleBlockV>::empty());
        assert(decode_list_at(
            uncle_dec(),
            bytes@,
            Seq::<crate::index::UncleBlockIndexV>::empty(),
        ) == Ok::<Seq<UncleBlockV>, Error>(Seq::empty()));
    }
    let mut i: usize = 0;
    while i < index.uncles.len()
        invariant
            0 <= i <= index.uncles.len(),
            uncles@.len() == i,
            decode_list_at(
                uncle_dec(),
                bytes@,
                index@.uncles.take(i as int),
            ) == Ok::<Seq<UncleBlockV>, Error>(uncles@.map_values(|x: UncleBlock| x@)),
        decreases index.uncles.len() - i,
    {
        proof {
            assert(index@.uncles[i as int] == index.uncles@[i as int]@);
        }
        match deserialize_uncle_block(bytes, &index.uncles[i]) {
            Ok(v) => {
                let ghost prev = uncles@;
                proof {
                    lemma_decode_list_snoc(
                        uncle_dec(),
                        bytes@,
                        index@.uncles.take(i as int),
                        index.uncles@[i as int]@,
                    );
                    assert(index@.uncles.take(i as int).push(index.uncles@[i as int]@)
                        =~= index@.uncles.take(i as int + 1));
                    assert(uncle_dec()(bytes@, index.uncles@[i as int]@) == decode_uncle_block_at(
                        bytes@,
                        index.uncles@[i as int]@,
                    ));
                }
                uncles.push(v);
                proof {
                    assert(uncles@.map_values(|x: UncleBlock| x@) =~= prev.map_values(
                        |x: UncleBlock| x@,
                    ).push(v@));
                }
                i += 1;
            },
            Err(e) => {
                proof {
                    assert(uncle_dec()(bytes@, index@.uncles[i as int]) == decode_uncle_block_at(
                        bytes@,
                        index.uncles@[i as int]@,
                    ));
                    lemma_decode_list_first_err(uncle_dec(), bytes@, index@.uncles, i as int);
                }
                return Err(e);
            },
        }
    }
    proof {
        assert(index@.uncles.take(index.uncles@.len() as int) =~= index@.uncles);
    }
    let mut transactions: Vec<Transaction> = Vec::new();
    proof {
        assert(index@.transactions.take(0) =~= Seq::<crate::index::TransactionIndexV>::empty());
        assert(transactions@.map_values(|x: Transaction| x@) =~= Seq::<TransactionV>::empty());
        assert(decode_list_at(
            transaction_dec(),
            bytes@,
            Seq::<crate::index::TransactionIndexV>::empty(),
        ) == Ok::<Seq<TransactionV>, Error>(Seq::empty()));
    }
    let mut j: usize = 0;
    while j < index.transactions.len()
        invariant
            0 <= j <= index.transactions.len(),
            transactions@.len() == j,
            decode_list_at(uncle_dec(), bytes@, index@.uncles) == Ok::<Seq<UncleBlockV>, Error>(
                uncles@.map_values(|x: UncleBlock| x@),
            ),
            decode_list_at(
                transaction_dec(),
                bytes@,
                index@.transactions.take(j as int),
            ) == Ok::<Seq<TransactionV>, Error>(transactions@.map_values(|x: Transaction| x@)),
        decreases index.transactions.len() - j,
    {
        proof {
            assert(index@.transactions[j as int] == index.transactions@[j as int]@);
        }
        match deserialize_transaction(bytes, &index.transactions[j]) {
            Ok(v) => {
                let ghost prev = transactions@;
                proof {
                    lemma_decode_list_snoc(
                        transaction_dec(),
                        bytes@,
                        index@.transactions.take(j as int),
                        index.transactions@[j as int]@,
                    );
                    assert(index@.transactions.take(j as int).push(index.transactions@[j as int]@)
                        =~= index@.transactions.take(j as int + 1));
                    assert(transaction_dec()(bytes@, index.transactions@[j as int]@)
                        == decode_transaction_at(bytes@, index.transactions@[j as int]@));
                }
                transactions.push(v);
                proof {
                    assert(transactions@.map_values(|x: Transaction| x@) =~= prev.map_values(
                        |x: Transaction| x@,
                    ).push(v@));
                }
                j += 1;
            },
            Err(e) => {
                proof {
                    assert(transaction_dec()(bytes@, index@.transactions[j as int])
                        == decode_transaction_at(bytes@, index.transactions@[j as int]@));
                    lemma_decode_list_first_err(
                        transaction_dec(),
                        bytes@,
                        index@.transactions,
                        j as int,
                    );
                }
                return Err(e);
            },
        }
    }
    proof {
        assert(index@.transactions.take(index.transactions@.len() as int)
            =~= index@.transactions);
    }
    let proposals = match deserialize_blobs(bytes, &index.proposals) {
        Ok(v) => v,
        Err(e) => {
            return Err(e);
        },
    };
    let b = Block { hash, header, uncles, transactions, proposals };
    proof {
        assert(decode_block_at(bytes@, index@) == Ok::<crate::model::BlockV, Error>(b@));
    }
    Ok(b)
}

} // verus!
