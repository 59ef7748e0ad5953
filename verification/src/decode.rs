//! The mathematical decode: what reading a field at a `Position` means.
//!
//! A decode fails with `Corruption` when the position references a byte
//! range the buffer cannot support, and with `Codec` when the addressed
//! slice does not parse as the target type; the first failure in field order
//! decides the result. The executable deserializer is proved to return
//! exactly these results.

use vstd::prelude::*;
use crate::encoding::parse_blob;
use crate::encoding::parse_hash;
use crate::encoding::parse_header;
use crate::encoding::parse_input;
use crate::encoding::parse_out_point;
use crate::encoding::parse_output;
use crate::encoding::parse_version;
use crate::error::Error;
use crate::index::BlockIndexV;
use crate::index::PosV;
use crate::index::TransactionIndexV;
use crate::index::UncleBlockIndexV;
use crate::model::BlockV;
use crate::model::CellInputV;
use crate::model::CellOutputV;
use crate::model::H256V;
use crate::model::HeaderV;
use crate::model::OutPointV;
use crate::model::TransactionV;
use crate::model::UncleBlockV;

verus! {

/// The view of an executable decode result.
pub open spec fn result_view<T: View>(r: Result<T, Error>) -> Result<T::V, Error> {
    match r {
        Ok(v) => Ok(v@),
        Err(e) => Err(e),
    }
}

/// The error a failed result carries.
pub open spec fn err_value<T>(r: Result<T, Error>) -> Error
    recommends
        r is Err,
{
    match r {
        Ok(_) => Error::Codec,
        Err(e) => e,
    }
}

/// Whether a position addresses a range the buffer supports.
pub open spec fn pos_ok(w: Seq<u8>, p: PosV) -> bool {
    0 <= p.offset && 0 <= p.length && p.offset + p.length <= w.len()
}

/// The slice a position addresses.
pub open spec fn slice_at(w: Seq<u8>, p: PosV) -> Seq<u8> {
    w.subrange(p.offset, p.offset + p.length)
}

pub open spec fn decode_hash_at(w: Seq<u8>, p: PosV) -> Result<H256V, Error> {
    if !pos_ok(w, p) {
        Err(Error::Corruption)
    } else {
        match parse_hash(slice_at(w, p)) {
            Some(v) => Ok(v),
            None => Err(Error::Codec),
        }
    }
}

pub open spec fn decode_header_at(w: Seq<u8>, p: PosV) -> Result<HeaderV, Error> {
    if !pos_ok(w, p) {
        Err(Error::Corruption)
    } else {
        match parse_header(slice_at(w, p)) {
            Some(v) => Ok(v),
            None => Err(Error::Codec),
        }
    }
}

pub open spec fn decode_version_at(w: Seq<u8>, p: PosV) -> Result<u32, Error> {
    if !pos_ok(w, p) {
        Err(Error::Corruption)
    } else {
        match parse_version(slice_at(w, p)) {
            Some(v) => Ok(v),
            None => Err(Error::Codec),
        }
    }
}

pub open spec fn decode_out_point_at(w: Seq<u8>, p: PosV) -> Result<OutPointV, Error> {
    if !pos_ok(w, p) {
        Err(Error::Corruption)
    } else {
        match parse_out_point(slice_at(w, p)) {
            Some(v) => Ok(v),
            None => Err(Error::Codec),
        }
    }
}

pub open spec fn decode_input_at(w: Seq<u8>, p: PosV) -> Result<CellInputV, Error> {
    if !pos_ok(w, p) {
        Err(Error::Corruption)
    } else {
        match parse_input(slice_at(w, p)) {
            Some(v) => Ok(v),
            None => Err(Error::Codec),
        }
    }
}

pub open spec fn decode_output_at(w: Seq<u8>, p: PosV) -> Result<CellOutputV, Error> {
    if !pos_ok(w, p) {
        Err(Error::Corruption)
    } else {
        match parse_output(slice_at(w, p)) {
            Some(v) => Ok(v),
            None => Err(Error::Codec),
        }
    }
}

pub open spec fn decode_blob_at(w: Seq<u8>, p: PosV) -> Result<Seq<u8>, Error> {
    if !pos_ok(w, p) {
        Err(Error::Corruption)
    } else {
        match parse_blob(slice_at(w, p)) {
            Some(v) => Ok(v),
            None => Err(Error::Codec),
        }
    }
}

// Named decoder values, so every use of `decode_list_at` over one element
// type names one and the same function.
pub open spec fn out_point_dec() -> spec_fn(Seq<u8>, PosV) -> Result<OutPointV, Error> {
    |w: Seq<u8>, p: PosV| decode_out_point_at(w, p)
}

pub open spec fn input_dec() -> spec_fn(Seq<u8>, PosV) -> Result<CellInputV, Error> {
    |w: Seq<u8>, p: PosV| decode_input_at(w, p)
}

pub open spec fn output_dec() -> spec_fn(Seq<u8>, PosV) -> Result<CellOutputV, Error> {
    |w: Seq<u8>, p: PosV| decode_output_at(w, p)
}

pub open spec fn blob_dec() -> spec_fn(Seq<u8>, PosV) -> Result<Seq<u8>, Error> {
    |w: Seq<u8>, p: PosV| decode_blob_at(w, p)
}

pub open spec fn uncle_dec() -> spec_fn(Seq<u8>, UncleBlockIndexV) -> Result<UncleBlockV, Error> {
    |w: Seq<u8>, x: UncleBlockIndexV| decode_uncle_block_at(w, x)
}

pub open spec fn transaction_dec() -> spec_fn(Seq<u8>, TransactionIndexV) -> Result<
    TransactionV,
    Error,
> {
    |w: Seq<u8>, x: TransactionIndexV| decode_transaction_at(w, x)
}

/// Decodes a list of entries in order; the first failure decides the result.
pub open spec fn decode_list_at<I, T>(
    g: spec_fn(Seq<u8>, I) -> Result<T, Error>,
    w: Seq<u8>,
    ps: Seq<I>,
) -> Result<Seq<T>, Error>
    decreases ps.len(),
{
    if ps.len() == 0 {
        Ok(Seq::empty())
    } else {
        match g(w, ps[0]) {
            Ok(v) => match decode_list_at(g, w, ps.skip(1)) {
                Ok(rest) => Ok(seq![v] + rest),
                Err(e) => Err(e),
            },
            Err(e) => Err(e),
        }
    }
}

/// Decodes one transaction through its index entry, in field order.
pub open spec fn decode_transaction_at(w: Seq<u8>, x: TransactionIndexV) -> Result<
    TransactionV,
    Error,
> {
    match decode_hash_at(w, x.hash) {
        Err(e) => Err(e),
        Ok(hash) => match decode_version_at(w, x.version) {
            Err(e) => Err(e),
            Ok(version) => match decode_list_at(out_point_dec(), w, x.deps) {
                Err(e) => Err(e),
                Ok(deps) => match decode_list_at(input_dec(), w, x.inputs) {
                    Err(e) => Err(e),
                    Ok(inputs) => match decode_list_at(output_dec(), w, x.outputs) {
                        Err(e) => Err(e),
                        Ok(outputs) => match decode_list_at(blob_dec(), w, x.witnesses) {
                            Err(e) => Err(e),
                            Ok(witnesses) => Ok(
                                TransactionV { hash, version, deps, inputs, outputs, witnesses },
                            ),
                        },
                    },
                },
            },
        },
    }
}

/// Decodes one uncle through its index entry, in field order.
pub open spec fn decode_uncle_block_at(w: Seq<u8>, x: UncleBlockIndexV) -> Result<
    UncleBlockV,
    Error,
> {
    match decode_hash_at(w, x.hash) {
        Err(e) => Err(e),
        Ok(hash) => match decode_header_at(w, x.header) {
            Err(e) => Err(e),
            Ok(header) => match decode_list_at(blob_dec(), w, x.proposals) {
                Err(e) => Err(e),
                Ok(proposals) => Ok(UncleBlockV { hash, header, proposals }),
            },
        },
    }
}

/// Decodes a whole block through its index, in field order.
pub open spec fn decode_block_at(w: Seq<u8>, x: BlockIndexV) -> Result<BlockV, Error> {
    match decode_hash_at(w, x.hash) {
        Err(e) => Err(e),
        Ok(hash) => match decode_header_at(w, x.header) {
            Err(e) => Err(e),
            Ok(header) => match decode_list_at(uncle_dec(), w, x.uncles) {
                Err(e) => Err(e),
                Ok(uncles) => match decode_list_at(transaction_dec(), w, x.transactions) {
                    Err(e) => Err(e),
                    Ok(transactions) => match decode_list_at(blob_dec(), w, x.proposals) {
                        Err(e) => Err(e),
                        Ok(proposals) => Ok(
                            BlockV { hash, header, uncles, transactions, proposals },
                        ),
                    },
                },
            },
        },
    }
}

// ---------------------------------------------------------------------------
// Facts about list decodes
// ---------------------------------------------------------------------------
/// Appending one entry decodes the prefix first, then the entry.
pub proof fn lemma_decode_list_snoc<I, T>(
    g: spec_fn(Seq<u8>, I) -> Result<T, Error>,
    w: Seq<u8>,
    ps: Seq<I>,
    x: I,
)
    ensures
        decode_list_at(g, w, ps.push(x)) == (match decode_list_at(g, w, ps) {
            Ok(vs) => match g(w, x) {
                Ok(v) => Ok::<Seq<T>, Error>(vs.push(v)),
                Err(e) => Err::<Seq<T>, Error>(e),
            },
            Err(e) => Err::<Seq<T>, Error>(e),
        }),
    decreases ps.len(),
{
    if ps.len() == 0 {
        assert(ps.push(x)[0] == x);
        assert(ps.push(x).skip(1) =~= Seq::<I>::empty());
        assert(decode_list_at(g, w, Seq::<I>::empty()) == Ok::<Seq<T>, Error>(Seq::empty()));
        match g(w, x) {
            Ok(v) => {
                assert(seq![v] + Seq::<T>::empty() =~= Seq::<T>::empty().push(v));
            },
            Err(_) => {},
        }
    } else {
        assert(ps.push(x)[0] == ps[0]);
        assert(ps.push(x).skip(1) =~= ps.skip(1).push(x));
        lemma_decode_list_snoc(g, w, ps.skip(1), x);
        match g(w, ps[0]) {
            Ok(v) => {
                match decode_list_at(g, w, ps.skip(1)) {
                    Ok(rest) => {
                        match g(w, x) {
                            Ok(v2) => {
                                assert(seq![v] + rest.push(v2) =~= (seq![v] + rest).push(v2));
                            },
                            Err(_) => {},
                        }
                    },
                    Err(_) => {},
                }
            },
            Err(_) => {},
        }
    }
}

/// When every entry decodes to the matching element, the list decodes whole.
pub proof fn lemma_decode_list_all_ok<I, T>(
    g: spec_fn(Seq<u8>, I) -> Result<T, Error>,
    w: Seq<u8>,
    ps: Seq<I>,
    vs: Seq<T>,
)
    requires
        ps.len() == vs.len(),
        forall|i: int| 0 <= i < ps.len() ==> g(w, #[trigger] ps[i]) == Ok::<T, Error>(vs[i]),
    ensures
        decode_list_at(g, w, ps) == Ok::<Seq<T>, Error>(vs),
    decreases ps.len(),
{
    if ps.len() == 0 {
        assert(vs =~= Seq::<T>::empty());
    } else {
        assert(g(w, ps[0]) == Ok::<T, Error>(vs[0]));
        assert forall|i: int|
            0 <= i < ps.skip(1).len() implies g(w, #[trigger] ps.skip(1)[i]) == Ok::<T, Error>(
            vs.skip(1)[i],
        ) by {
            assert(ps.skip(1)[i] == ps[i + 1]);
            assert(vs.skip(1)[i] == vs[i + 1]);
        }
        lemma_decode_list_all_ok(g, w, ps.skip(1), vs.skip(1));
        assert(seq![vs[0]] + vs.skip(1) =~= vs);
    }
}

/// The first failing entry decides the whole list's failure.
pub proof fn lemma_decode_list_first_err<I, T>(
    g: spec_fn(Seq<u8>, I) -> Result<T, Error>,
    w: Seq<u8>,
    ps: Seq<I>,
    i: int,
)
    requires
        0 <= i < ps.len(),
        decode_list_at(g, w, ps.take(i)) is Ok,
        g(w, ps[i]) is Err,
    ensures
        decode_list_at(g, w, ps) == Err::<Seq<T>, Error>(err_value(g(w, ps[i]))),
    decreases i,
{
    if i == 0 {
    } else {
        assert(ps.take(i)[0] == ps[0]);
        assert(ps.take(i).skip(1) =~= ps.skip(1).take(i - 1));
        assert(ps.skip(1)[i - 1] == ps[i]);
        lemma_decode_list_first_err(g, w, ps.skip(1), i - 1);
    }
}

} // verus!
