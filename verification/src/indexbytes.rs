//! The index structure's own serialized form.
//!
//! A block's index is stored as metadata beside the block buffer, so it has
//! a byte encoding of its own: positions as two 64-bit little-endian words,
//! lists prefixed by a 64-bit count. The parser is a cursor over the bytes;
//! `parse_block_index` accepts exactly the encodings the serializer emits,
//! and the round-trip lemma proves a stored index is read back unchanged.

use vstd::prelude::*;
use vstd::bytes::spec_u64_from_le_bytes;
use vstd::bytes::spec_u64_to_le_bytes;
use vstd::bytes::lemma_auto_spec_u64_to_from_le_bytes;
use crate::encoding::concat_with;
use crate::encoding::lemma_concat_with_snoc;
use vstd::bytes::u64_from_le_bytes;
use vstd::bytes::u64_to_le_bytes;
use vstd::slice::slice_subrange;
use crate::error::Error;
use crate::index::pos_views;
use crate::index::BlockIndex;
use crate::index::BlockIndexV;
use crate::index::Position;
use crate::index::TransactionIndex;
use crate::index::UncleBlockIndex;
use crate::index::PosV;
use crate::index::TransactionIndexV;
use crate::index::UncleBlockIndexV;

verus! {

// ---------------------------------------------------------------------------
// Encoding
// ---------------------------------------------------------------------------
/// A position: offset then length, 8 little-endian bytes each.
pub open spec fn pos_bytes(p: PosV) -> Seq<u8> {
    spec_u64_to_le_bytes(p.offset as u64) + spec_u64_to_le_bytes(p.length as u64)
}

pub open spec fn pos_enc() -> spec_fn(PosV) -> Seq<u8> {
    |p: PosV| pos_bytes(p)
}

/// A list length: 8 little-endian bytes.
pub open spec fn count_bytes(n: int) -> Seq<u8> {
    spec_u64_to_le_bytes(n as u64)
}

/// A list of positions: its count, then the positions back to back.
pub open spec fn pos_list_bytes(ps: Seq<PosV>) -> Seq<u8> {
    count_bytes(ps.len() as int) + concat_with(pos_enc(), ps)
}

pub open spec fn transaction_index_bytes(x: TransactionIndexV) -> Seq<u8> {
    pos_bytes(x.hash) + pos_bytes(x.version) + pos_list_bytes(x.deps) + pos_list_bytes(x.inputs)
        + pos_list_bytes(x.outputs) + pos_list_bytes(x.witnesses)
}

pub open spec fn uncle_index_bytes(x: UncleBlockIndexV) -> Seq<u8> {
    pos_bytes(x.hash) + pos_bytes(x.header) + pos_list_bytes(x.proposals)
}

pub open spec fn uncle_index_enc() -> spec_fn(UncleBlockIndexV) -> Seq<u8> {
    |x: UncleBlockIndexV| uncle_index_bytes(x)
}

pub open spec fn transaction_index_enc() -> spec_fn(TransactionIndexV) -> Seq<u8> {
    |x: TransactionIndexV| transaction_index_bytes(x)
}

/// The stored form of a whole block index, in field order.
pub open spec fn block_index_bytes(x: BlockIndexV) -> Seq<u8> {
    pos_bytes(x.hash) + pos_bytes(x.header) + count_bytes(x.uncles.len() as int) + concat_with(
        uncle_index_enc(),
        x.uncles,
    ) + count_bytes(x.transactions.len() as int) + concat_with(
        transaction_index_enc(),
        x.transactions,
    ) + pos_list_bytes(x.proposals)
}

// ---------------------------------------------------------------------------
// What the encoding can carry
// ---------------------------------------------------------------------------
/// A position whose words fit the machine: what any index built by the
/// layout pass satisfies.
pub open spec fn pos_fits(p: PosV) -> bool {
    0 <= p.offset <= usize::MAX && 0 <= p.length <= usize::MAX
}

pub open spec fn pos_list_fits(ps: Seq<PosV>) -> bool {
    &&& ps.len() <= usize::MAX
    &&& forall|i: int| 0 <= i < ps.len() ==> pos_fits(#[trigger] ps[i])
}

pub open spec fn transaction_index_fits(x: TransactionIndexV) -> bool {
    &&& pos_fits(x.hash)
    &&& pos_fits(x.version)
    &&& pos_list_fits(x.deps)
    &&& pos_list_fits(x.inputs)
    &&& pos_list_fits(x.outputs)
    &&& pos_list_fits(x.witnesses)
}

pub open spec fn uncle_index_fits(x: UncleBlockIndexV) -> bool {
    &&& pos_fits(x.hash)
    &&& pos_fits(x.header)
    &&& pos_list_fits(x.proposals)
}

pub open spec fn block_index_fits(x: BlockIndexV) -> bool {
    &&& pos_fits(x.hash)
    &&& pos_fits(x.header)
    &&& x.uncles.len() <= usize::MAX
    &&& forall|i: int| 0 <= i < x.uncles.len() ==> uncle_index_fits(#[trigger] x.uncles[i])
    &&& x.transactions.len() <= usize::MAX
    &&& forall|i: int|
        0 <= i < x.transactions.len() ==> transaction_index_fits(#[trigger] x.transactions[i])
    &&& pos_list_fits(x.proposals)
}

// ---------------------------------------------------------------------------
// Parsing: a cursor over the bytes
// ---------------------------------------------------------------------------
/// A parsed position and the 16 bytes it consumed; `None` when the bytes
/// are short or a word does not fit the machine.
pub open spec fn parse_pos(s: Seq<u8>) -> Option<(PosV, int)> {
    if s.len() >= 16 {
        let offset = spec_u64_from_le_bytes(s.subrange(0, 8)) as int;
        let length = spec_u64_from_le_bytes(s.subrange(8, 16)) as int;
        if offset <= usize::MAX && length <= usize::MAX {
            Some((PosV { offset, length }, 16))
        } else {
            None
        }
    } else {
        None
    }
}

/// A parsed list length; `None` when it cannot fit the machine.
pub open spec fn parse_count(s: Seq<u8>) -> Option<(int, int)> {
    if s.len() >= 8 {
        let n = spec_u64_from_le_bytes(s.subrange(0, 8)) as int;
        if n <= usize::MAX {
            Some((n, 8))
        } else {
            None
        }
    } else {
        None
    }
}

/// `n` items parsed back to back by `f`, with the total bytes consumed.
pub open spec fn parse_items<T>(
    f: spec_fn(Seq<u8>) -> Option<(T, int)>,
    s: Seq<u8>,
    n: nat,
) -> Option<(Seq<T>, int)>
    decreases n,
{
    if n == 0 {
        Some((Seq::empty(), 0))
    } else {
        match f(s) {
            None => None,
            Some((v, c)) => match parse_items(f, s.skip(c), (n - 1) as nat) {
                None => None,
                Some((vs, c2)) => Some((seq![v] + vs, c + c2)),
            },
        }
    }
}

pub open spec fn parse_pos_fn() -> spec_fn(Seq<u8>) -> Option<(PosV, int)> {
    |s: Seq<u8>| parse_pos(s)
}

/// A counted list of positions.
pub open spec fn parse_pos_list(s: Seq<u8>) -> Option<(Seq<PosV>, int)> {
    match parse_count(s) {
        None => None,
        Some((n, c)) => match parse_items(parse_pos_fn(), s.skip(c), n as nat) {
            None => None,
            Some((ps, c2)) => Some((ps, c + c2)),
        },
    }
}

pub open spec fn parse_transaction_index(s: Seq<u8>) -> Option<(TransactionIndexV, int)> {
    match parse_pos(s) {
        None => None,
        Some((hash, c1)) => match parse_pos(s.skip(c1)) {
            None => None,
            Some((version, c2)) => match parse_pos_list(s.skip(c1 + c2)) {
                None => None,
                Some((deps, c3)) => match parse_pos_list(s.skip(c1 + c2 + c3)) {
                    None => None,
                    Some((inputs, c4)) => match parse_pos_list(s.skip(c1 + c2 + c3 + c4)) {
                        None => None,
                        Some((outputs, c5)) => match parse_pos_list(
                            s.skip(c1 + c2 + c3 + c4 + c5),
                        ) {
                            None => None,
                            Some((witnesses, c6)) => Some(
                                (
                                    TransactionIndexV {
                                        hash,
                                        version,
                                        deps,
                                        inputs,
                                        outputs,
                                        witnesses,
                                    },
                                    c1 + c2 + c3 + c4 + c5 + c6,
                                ),
                            ),
                        },
                    },
                },
            },
        },
    }
}

pub open spec fn parse_uncle_index(s: Seq<u8>) -> Option<(UncleBlockIndexV, int)> {
    match parse_pos(s) {
        None => None,
        Some((hash, c1)) => match parse_pos(s.skip(c1)) {
            None => None,
            Some((header, c2)) => match parse_pos_list(s.skip(c1 + c2)) {
                None => None,
                Some((proposals, c3)) => Some(
                    (UncleBlockIndexV { hash, header, proposals }, c1 + c2 + c3),
                ),
            },
        },
    }
}

pub open spec fn parse_uncle_index_fn() -> spec_fn(Seq<u8>) -> Option<(UncleBlockIndexV, int)> {
    |s: Seq<u8>| parse_uncle_index(s)
}

pub open spec fn parse_transaction_index_fn() -> spec_fn(Seq<u8>) -> Option<
    (TransactionIndexV, int),
> {
    |s: Seq<u8>| parse_transaction_index(s)
}

/// A whole stored index; the bytes must be consumed exactly.
pub open spec fn parse_block_index(s: Seq<u8>) -> Option<BlockIndexV> {
    match parse_pos(s) {
        None => None,
        Some((hash, c1)) => match parse_pos(s.skip(c1)) {
            None => None,
            Some((header, c2)) => match parse_count(s.skip(c1 + c2)) {
                None => None,
                Some((nu, c3)) => match parse_items(
                    parse_uncle_index_fn(),
                    s.skip(c1 + c2 + c3),
                    nu as nat,
                ) {
                    None => None,
                    Some((uncles, c4)) => match parse_count(s.skip(c1 + c2 + c3 + c4)) {
                        None => None,
                        Some((nt, c5)) => match parse_items(
                            parse_transaction_index_fn(),
                            s.skip(c1 + c2 + c3 + c4 + c5),
                            nt as nat,
                        ) {
                            None => None,
                            Some((transactions, c6)) => match parse_pos_list(
                                s.skip(c1 + c2 + c3 + c4 + c5 + c6),
                            ) {
                                None => None,
                                Some((proposals, c7)) => {
                                    if c1 + c2 + c3 + c4 + c5 + c6 + c7 == s.len() {
                                        Some(
                                            BlockIndexV {
                                                hash,
                                                header,
                                                uncles,
                                                transactions,
                                                proposals,
                                            },
                                        )
                                    } else {
                                        None
                                    }
                                },
                            },
                        },
                    },
                },
            },
        },
    }
}

// ---------------------------------------------------------------------------
// Round trips
// ---------------------------------------------------------------------------
pub proof fn lemma_parse_pos_rt(p: PosV, rest: Seq<u8>)
    requires
        pos_fits(p),
    ensures
        parse_pos(pos_bytes(p) + rest) == Some((p, 16int)),
{
    lemma_auto_spec_u64_to_from_le_bytes();
    let s = pos_bytes(p) + rest;
    assert(s.subrange(0, 8) =~= spec_u64_to_le_bytes(p.offset as u64));
    assert(s.subrange(8, 16) =~= spec_u64_to_le_bytes(p.length as u64));
}

pub proof fn lemma_parse_count_rt(n: int, rest: Seq<u8>)
    requires
        0 <= n <= usize::MAX,
    ensures
        parse_count(count_bytes(n) + rest) == Some((n, 8int)),
{
    lemma_auto_spec_u64_to_from_le_bytes();
    let s = count_bytes(n) + rest;
    assert(s.subrange(0, 8) =~= spec_u64_to_le_bytes(n as u64));
}

/// Parsing `n` encoded items back to back gives the items and consumes
/// exactly their bytes, whatever follows.
pub proof fn lemma_parse_items_rt<T>(
    f: spec_fn(Seq<u8>) -> Option<(T, int)>,
    enc: spec_fn(T) -> Seq<u8>,
    s: Seq<T>,
    rest: Seq<u8>,
)
    requires
        forall|i: int, r2: Seq<u8>|
            0 <= i < s.len() ==> #[trigger] f(enc(s[i]) + r2) == Some(
                (s[i], enc(s[i]).len() as int),
            ),
    ensures
        parse_items(f, concat_with(enc, s) + rest, s.len()) == Some(
            (s, concat_with(enc, s).len() as int),
        ),
    decreases s.len(),
{
    if s.len() == 0 {
        assert(parse_items(f, concat_with(enc, s) + rest, 0) == Some((
            Seq::<T>::empty(),
            0int,
        )));
        assert(s =~= Seq::<T>::empty());
        assert(concat_with(enc, s).len() == 0);
    } else {
        let w = concat_with(enc, s) + rest;
        let c0 = enc(s[0]).len() as int;
        assert(concat_with(enc, s) == enc(s[0]) + concat_with(enc, s.skip(1)));
        assert(w =~= enc(s[0]) + (concat_with(enc, s.skip(1)) + rest));
        assert(f(w) == Some((s[0], c0)));
        assert(w.skip(c0) =~= concat_with(enc, s.skip(1)) + rest);
        assert forall|i: int, r2: Seq<u8>|
            0 <= i < s.skip(1).len() implies #[trigger] f(enc(s.skip(1)[i]) + r2) == Some(
            (s.skip(1)[i], enc(s.skip(1)[i]).len() as int),
        ) by {
            assert(s.skip(1)[i] == s[i + 1]);
        }
        lemma_parse_items_rt(f, enc, s.skip(1), rest);
        assert(seq![s[0]] + s.skip(1) =~= s);
    }
}

pub proof fn lemma_parse_pos_list_rt(ps: Seq<PosV>, rest: Seq<u8>)
    requires
        pos_list_fits(ps),
    ensures
        parse_pos_list(pos_list_bytes(ps) + rest) == Some(
            (ps, pos_list_bytes(ps).len() as int),
        ),
{
    lemma_auto_spec_u64_to_from_le_bytes();
    let s = pos_list_bytes(ps) + rest;
    assert(s =~= count_bytes(ps.len() as int) + (concat_with(pos_enc(), ps) + rest));
    lemma_parse_count_rt(ps.len() as int, concat_with(pos_enc(), ps) + rest);
    assert(s.skip(8) =~= concat_with(pos_enc(), ps) + rest);
    assert forall|i: int, r2: Seq<u8>|
        0 <= i < ps.len() implies #[trigger] parse_pos_fn()(pos_enc()(ps[i]) + r2) == Some(
        (ps[i], pos_enc()(ps[i]).len() as int),
    ) by {
        lemma_parse_pos_rt(ps[i], r2);
        assert(pos_enc()(ps[i]) == pos_bytes(ps[i]));
        assert(pos_bytes(ps[i]).len() == 16);
    }
    lemma_parse_items_rt(parse_pos_fn(), pos_enc(), ps, rest);
}

pub proof fn lemma_parse_transaction_index_rt(x: TransactionIndexV, rest: Seq<u8>)
    requires
        transaction_index_fits(x),
    ensures
        parse_transaction_index(transaction_index_bytes(x) + rest) == Some(
            (x, transaction_index_bytes(x).len() as int),
        ),
{
    let a1 = pos_bytes(x.hash);
    let a2 = pos_bytes(x.version);
    let a3 = pos_list_bytes(x.deps);
    let a4 = pos_list_bytes(x.inputs);
    let a5 = pos_list_bytes(x.outputs);
    let a6 = pos_list_bytes(x.witnesses);
    let s = transaction_index_bytes(x) + rest;
    lemma_auto_spec_u64_to_from_le_bytes();
    assert(s =~= a1 + (a2 + (a3 + (a4 + (a5 + (a6 + rest))))));
    lemma_parse_pos_rt(x.hash, a2 + (a3 + (a4 + (a5 + (a6 + rest)))));
    assert(s.skip(16) =~= a2 + (a3 + (a4 + (a5 + (a6 + rest)))));
    lemma_parse_pos_rt(x.version, a3 + (a4 + (a5 + (a6 + rest))));
    assert(s.skip(32) =~= a3 + (a4 + (a5 + (a6 + rest))));
    lemma_parse_pos_list_rt(x.deps, a4 + (a5 + (a6 + rest)));
    assert(s.skip(32 + a3.len() as int) =~= a4 + (a5 + (a6 + rest)));
    lemma_parse_pos_list_rt(x.inputs, a5 + (a6 + rest));
    assert(s.skip(32 + a3.len() as int + a4.len() as int) =~= a5 + (a6 + rest));
    lemma_parse_pos_list_rt(x.outputs, a6 + rest);
    assert(s.skip(32 + a3.len() as int + a4.len() as int + a5.len() as int) =~= a6 + rest);
    lemma_parse_pos_list_rt(x.witnesses, rest);
}

pub proof fn lemma_parse_uncle_index_rt(x: UncleBlockIndexV, rest: Seq<u8>)
    requires
        uncle_index_fits(x),
    ensures
        parse_uncle_index(uncle_index_bytes(x) + rest) == Some(
            (x, uncle_index_bytes(x).len() as int),
        ),
{
    let a1 = pos_bytes(x.hash);
    let a2 = pos_bytes(x.header);
    let a3 = pos_list_bytes(x.proposals);
    let s = uncle_index_bytes(x) + rest;
    lemma_auto_spec_u64_to_from_le_bytes();
    assert(s =~= a1 + (a2 + (a3 + rest)));
    lemma_parse_pos_rt(x.hash, a2 + (a3 + rest));
    assert(s.skip(16) =~= a2 + (a3 + rest));
    lemma_parse_pos_rt(x.header, a3 + rest);
    assert(s.skip(32) =~= a3 + rest);
    lemma_parse_pos_list_rt(x.proposals, rest);
}

/// A stored block index is read back unchanged.
pub proof fn lemma_block_index_round_trip(x: BlockIndexV)
    requires
        block_index_fits(x),
    ensures
        parse_block_index(block_index_bytes(x)) == Some(x),
{
    let a1 = pos_bytes(x.hash);
    let a2 = pos_bytes(x.header);
    let a3 = count_bytes(x.uncles.len() as int);
    let a4 = concat_with(uncle_index_enc(), x.uncles);
    let a5 = count_bytes(x.transactions.len() as int);
    let a6 = concat_with(transaction_index_enc(), x.transactions);
    let a7 = pos_list_bytes(x.proposals);
    let s = block_index_bytes(x);
    let empty = Seq::<u8>::empty();
    lemma_auto_spec_u64_to_from_le_bytes();
    assert(s =~= a1 + (a2 + (a3 + (a4 + (a5 + (a6 + (a7 + empty)))))));
    lemma_parse_pos_rt(x.hash, a2 + (a3 + (a4 + (a5 + (a6 + (a7 + empty))))));
    assert(parse_pos(s) == parse_pos(a1 + (a2 + (a3 + (a4 + (a5 + (a6 + (a7 + empty))))))));
    assert(s.skip(16) =~= a2 + (a3 + (a4 + (a5 + (a6 + (a7 + empty))))));
    lemma_parse_pos_rt(x.header, a3 + (a4 + (a5 + (a6 + (a7 + empty)))));
    assert(s.skip(32) =~= a3 + (a4 + (a5 + (a6 + (a7 + empty)))));
    lemma_parse_count_rt(x.uncles.len() as int, a4 + (a5 + (a6 + (a7 + empty))));
    assert(s.skip(40) =~= a4 + (a5 + (a6 + (a7 + empty))));
    assert forall|i: int, r2: Seq<u8>|
        0 <= i < x.uncles.len() implies #[trigger] parse_uncle_index_fn()(
        uncle_index_enc()(x.uncles[i]) + r2,
    ) == Some((x.uncles[i], uncle_index_enc()(x.uncles[i]).len() as int)) by {
        lemma_parse_uncle_index_rt(x.uncles[i], r2);
        assert(uncle_index_enc()(x.uncles[i]) == uncle_index_bytes(x.uncles[i]));
    }
    lemma_parse_items_rt(
        parse_uncle_index_fn(),
        uncle_index_enc(),
        x.uncles,
        a5 + (a6 + (a7 + empty)),
    );
    assert(s.skip(40 + a4.len() as int) =~= a5 + (a6 + (a7 + empty)));
    lemma_parse_count_rt(x.transactions.len() as int, a6 + (a7 + empty));
    assert(s.skip(48 + a4.len() as int) =~= a6 + (a7 + empty));
    assert forall|i: int, r2: Seq<u8>|
        0 <= i < x.transactions.len() implies #[trigger] parse_transaction_index_fn()(
        transaction_index_enc()(x.transactions[i]) + r2,
    ) == Some((x.transactions[i], transaction_index_enc()(x.transactions[i]).len() as int)) by {
        lemma_parse_transaction_index_rt(x.transactions[i], r2);
        assert(transaction_index_enc()(x.transactions[i]) == transaction_index_bytes(
            x.transactions[i],
        ));
    }
    lemma_parse_items_rt(
        parse_transaction_index_fn(),
        transaction_index_enc(),
        x.transactions,
        a7 + empty,
    );
    assert(s.skip(48 + a4.len() as int + a6.len() as int) =~= a7 + empty);
    lemma_parse_pos_list_rt(x.proposals, empty);
    assert(a7 + empty =~= a7);
    assert(s.len() == 48 + a4.len() + a6.len() + a7.len());
}

// ---------------------------------------------------------------------------
// Bounds of the cursor
// ---------------------------------------------------------------------------
/// Whether `f` never claims to consume more bytes than it was given.
pub open spec fn parser_bounded<T>(f: spec_fn(Seq<u8>) -> Option<(T, int)>) -> bool {
    forall|s2: Seq<u8>|
        match #[trigger] f(s2) {
            Some(vc) => 0 <= vc.1 <= s2.len(),
            None => true,
        }
}

pub proof fn lemma_parse_items_bounded<T>(
    f: spec_fn(Seq<u8>) -> Option<(T, int)>,
    s: Seq<u8>,
    n: nat,
)
    requires
        parser_bounded(f),
    ensures
        (match parse_items(f, s, n) {
            Some(vc) => 0 <= vc.1 <= s.len() && vc.0.len() == n,
            None => true,
        }),
    decreases n,
{
    if n > 0 {
        match f(s) {
            None => {},
            Some((v, c)) => {
                lemma_parse_items_bounded(f, s.skip(c), (n - 1) as nat);
            },
        }
    }
}

pub proof fn lemma_parse_pos_fn_bounded()
    ensures
        parser_bounded(parse_pos_fn()),
{
    assert forall|s2: Seq<u8>|
        match #[trigger] parse_pos_fn()(s2) {
            Some(vc) => 0 <= vc.1 <= s2.len(),
            None => true,
        } by {
        assert(parse_pos_fn()(s2) == parse_pos(s2));
    }
}

pub proof fn lemma_parse_pos_list_bounded(s: Seq<u8>)
    ensures
        (match parse_pos_list(s) {
            Some(vc) => 0 <= vc.1 <= s.len(),
            None => true,
        }),
{
    lemma_parse_pos_fn_bounded();
    match parse_count(s) {
        None => {},
        Some((n, c)) => {
            lemma_parse_items_bounded(parse_pos_fn(), s.skip(c), n as nat);
        },
    }
}

pub proof fn lemma_parse_uncle_index_bounded()
    ensures
        parser_bounded(parse_uncle_index_fn()),
{
    assert forall|s2: Seq<u8>|
        match #[trigger] parse_uncle_index_fn()(s2) {
            Some(vc) => 0 <= vc.1 <= s2.len(),
            None => true,
        } by {
        assert(parse_uncle_index_fn()(s2) == parse_uncle_index(s2));
        match parse_pos(s2) {
            None => {},
            Some((_, c1)) => {
                match parse_pos(s2.skip(c1)) {
                    None => {},
                    Some((_, c2)) => {
                        lemma_parse_pos_list_bounded(s2.skip(c1 + c2));
                    },
                }
            },
        }
    }
}

pub proof fn lemma_parse_transaction_index_bounded()
    ensures
        parser_bounded(parse_transaction_index_fn()),
{
    assert forall|s2: Seq<u8>|
        match #[trigger] parse_transaction_index_fn()(s2) {
            Some(vc) => 0 <= vc.1 <= s2.len(),
            None => true,
        } by {
        assert(parse_transaction_index_fn()(s2) == parse_transaction_index(s2));
        match parse_pos(s2) {
            None => {},
            Some((_, c1)) => {
                match parse_pos(s2.skip(c1)) {
                    None => {},
                    Some((_, c2)) => {
                        lemma_parse_pos_list_bounded(s2.skip(c1 + c2));
                        match parse_pos_list(s2.skip(c1 + c2)) {
                            None => {},
                            Some((_, c3)) => {
                                lemma_parse_pos_list_bounded(s2.skip(c1 + c2 + c3));
                                match parse_pos_list(s2.skip(c1 + c2 + c3)) {
                                    None => {},
                                    Some((_, c4)) => {
                                        lemma_parse_pos_list_bounded(s2.skip(c1 + c2 + c3 + c4));
                                        match parse_pos_list(s2.skip(c1 + c2 + c3 + c4)) {
                                            None => {},
                                            Some((_, c5)) => {
                                                lemma_parse_pos_list_bounded(
                                                    s2.skip(c1 + c2 + c3 + c4 + c5),
                                                );
                                            },
                                        }
                                    },
                                }
                            },
                        }
                    },
                }
            },
        }
    }
}

/// Parsing `a + b` items is parsing `a`, then `b` more from where the
/// cursor stopped.
pub proof fn lemma_parse_items_split<T>(
    f: spec_fn(Seq<u8>) -> Option<(T, int)>,
    s: Seq<u8>,
    a: nat,
    b: nat,
)
    requires
        parser_bounded(f),
    ensures
        parse_items(f, s, a + b) == (match parse_items(f, s, a) {
            None => None::<(Seq<T>, int)>,
            Some((vs1, c1)) => match parse_items(f, s.skip(c1), b) {
                None => None,
                Some((vs2, c2)) => Some((vs1 + vs2, c1 + c2)),
            },
        }),
    decreases a,
{
    if a == 0 {
        assert(parse_items(f, s, 0nat) == Some((Seq::<T>::empty(), 0int)));
        assert(s.skip(0) =~= s);
        match parse_items(f, s, b) {
            None => {},
            Some((vs2, c2)) => {
                assert(Seq::<T>::empty() + vs2 =~= vs2);
            },
        }
    } else {
        match f(s) {
            None => {},
            Some((v, c)) => {
                lemma_parse_items_split(f, s.skip(c), (a - 1) as nat, b);
                match parse_items(f, s.skip(c), (a - 1) as nat) {
                    None => {},
                    Some((vs1, c1)) => {
                        lemma_parse_items_bounded(f, s.skip(c), (a - 1) as nat);
                        assert(s.skip(c).skip(c1) =~= s.skip(c + c1));
                        match parse_items(f, s.skip(c + c1), b) {
                            None => {},
                            Some((vs2, c2)) => {
                                assert(seq![v] + (vs1 + vs2) =~= (seq![v] + vs1) + vs2);
                            },
                        }
                    },
                }
            },
        }
    }
}

// ---------------------------------------------------------------------------
// The executable encoder
// ---------------------------------------------------------------------------
fn write_pos(out: &mut Vec<u8>, p: &Position)
    ensures
        final(out)@ == old(out)@ + pos_bytes(p@),
{
    let mut head = u64_to_le_bytes(p.offset as u64);
    let mut tail = u64_to_le_bytes(p.length as u64);
    out.append(&mut head);
    out.append(&mut tail);
    proof {
        assert(out@ =~= old(out)@ + pos_bytes(p@));
    }
}

fn write_count(out: &mut Vec<u8>, n: usize)
    ensures
        final(out)@ == old(out)@ + count_bytes(n as int),
{
    let mut head = u64_to_le_bytes(n as u64);
    out.append(&mut head);
}

#[verifier::loop_isolation(false)]
fn write_pos_list(out: &mut Vec<u8>, ps: &Vec<Position>)
    ensures
        final(out)@ == old(out)@ + pos_list_bytes(pos_views(ps@)),
{
    write_count(out, ps.len());
    let ghost start = out@;
    let mut i: usize = 0;
    while i < ps.len()
        invariant
            0 <= i <= ps.len(),
            out@ =~= start + concat_with(pos_enc(), pos_views(ps@).take(i as int)),
        decreases ps.len() - i,
    {
        proof {
            assert(pos_views(ps@)[i as int] == ps@[i as int]@);
            lemma_concat_with_snoc(
                pos_enc(),
                pos_views(ps@).take(i as int),
                pos_views(ps@)[i as int],
            );
            assert(pos_views(ps@).take(i as int).push(pos_views(ps@)[i as int])
                =~= pos_views(ps@).take(i as int + 1));
            assert(pos_enc()(ps@[i as int]@) == pos_bytes(ps@[i as int]@));
        }
        write_pos(out, &ps[i]);
        i += 1;
    }
    proof {
        assert(pos_views(ps@).take(ps@.len() as int) =~= pos_views(ps@));
        assert(out@ =~= old(out)@ + pos_list_bytes(pos_views(ps@)));
    }
}

fn write_uncle_index(out: &mut Vec<u8>, x: &UncleBlockIndex)
    ensures
        final(out)@ == old(out)@ + uncle_index_bytes(x@),
{
    write_pos(out, &x.hash);
    write_pos(out, &x.header);
    write_pos_list(out, &x.proposals);
    proof {
        assert(out@ =~= old(out)@ + uncle_index_bytes(x@));
    }
}

fn write_transaction_index(out: &mut Vec<u8>, x: &TransactionIndex)
    ensures
        final(out)@ == old(out)@ + transaction_index_bytes(x@),
{
    write_pos(out, &x.hash);
    write_pos(out, &x.version);
    write_pos_list(out, &x.deps);
    write_pos_list(out, &x.inputs);
    write_pos_list(out, &x.outputs);
    write_pos_list(out, &x.witnesses);
    proof {
        assert(out@ =~= old(out)@ + transaction_index_bytes(x@));
    }
}

/// Serializes a block index into the bytes it is stored as.
#[verifier::loop_isolation(false)]
pub fn serialize_block_index(x: &BlockIndex) -> (r: Vec<u8>)
    ensures
        r@ == block_index_bytes(x@),
{
    let mut out: Vec<u8> = Vec::new();
    write_pos(&mut out, &x.hash);
    write_pos(&mut out, &x.header);
    write_count(&mut out, x.uncles.len());
    let ghost after_ucount = out@;
    let mut i: usize = 0;
    while i < x.uncles.len()
        invariant
            0 <= i <= x.uncles.len(),
            out@ =~= after_ucount + concat_with(uncle_index_enc(), x@.uncles.take(i as int)),
        decreases x.uncles.len() - i,
    {
        proof {
            assert(x@.uncles[i as int] == x.uncles@[i as int]@);
            lemma_concat_with_snoc(
                uncle_index_enc(),
                x@.uncles.take(i as int),
                x@.uncles[i as int],
            );
            assert(x@.uncles.take(i as int).push(x@.uncles[i as int]) =~= x@.uncles.take(
                i as int + 1,
            ));
            assert(uncle_index_enc()(x@.uncles[i as int]) == uncle_index_bytes(
                x@.uncles[i as int],
            ));
        }
        write_uncle_index(&mut out, &x.uncles[i]);
        i += 1;
    }
    proof {
        assert(x@.uncles.take(x.uncles@.len() as int) =~= x@.uncles);
    }
    write_count(&mut out, x.transactions.len());
    let ghost after_tcount = out@;
    let mut i: usize = 0;
    while i < x.transactions.len()
        invariant
            0 <= i <= x.transactions.len(),
            out@ =~= after_tcount + concat_with(
                transaction_index_enc(),
                x@.transactions.take(i as int),
            ),
        decreases x.transactions.len() - i,
    {
        proof {
            assert(x@.transactions[i as int] == x.transactions@[i as int]@);
            lemma_concat_with_snoc(
                transaction_index_enc(),
                x@.transactions.take(i as int),
                x@.transactions[i as int],
            );
            assert(x@.transactions.take(i as int).push(x@.transactions[i as int])
                =~= x@.transactions.take(i as int + 1));
            assert(transaction_index_enc()(x@.transactions[i as int]) == transaction_index_bytes(
                x@.transactions[i as int],
            ));
        }
        write_transaction_index(&mut out, &x.transactions[i]);
        i += 1;
    }
    proof {
        assert(x@.transactions.take(x.transactions@.len() as int) =~= x@.transactions);
    }
    write_pos_list(&mut out, &x.proposals);
    proof {
        assert(out@ =~= block_index_bytes(x@));
    }
    out
}

// ---------------------------------------------------------------------------
// The executable decoder
// ---------------------------------------------------------------------------
fn read_pos(bytes: &[u8], cur: usize) -> (r: Result<(Position, usize), Error>)
    requires
        cur <= bytes@.len(),
    ensures
        (match r {
            Ok((p, c2)) => parse_pos(bytes@.skip(cur as int)) == Some((p@, 16int)) && c2 == cur
                + 16 && c2 <= bytes@.len(),
            Err(e) => parse_pos(bytes@.skip(cur as int)) is None && e == Error::Codec,
        }),
{
    let n = bytes.len();
    if n - cur < 16 {
        return Err(Error::Codec);
    }
    let off64 = u64_from_le_bytes(slice_subrange(bytes, cur, cur + 8));
    let len64 = u64_from_le_bytes(slice_subrange(bytes, cur + 8, cur + 16));
    proof {
        assert(bytes@.skip(cur as int).subrange(0, 8) =~= bytes@.subrange(
            cur as int,
            cur as int + 8,
        ));
        assert(bytes@.skip(cur as int).subrange(8, 16) =~= bytes@.subrange(
            cur as int + 8,
            cur as int + 16,
        ));
    }
    if off64 > usize::MAX as u64 {
        return Err(Error::Codec);
    }
    if len64 > usize::MAX as u64 {
        return Err(Error::Codec);
    }
    Ok((Position { offset: off64 as usize, length: len64 as usize }, cur + 16))
}

fn read_count(bytes: &[u8], cur: usize) -> (r: Result<(usize, usize), Error>)
    requires
        cur <= bytes@.len(),
    ensures
        (match r {
            Ok((n, c2)) => parse_count(bytes@.skip(cur as int)) == Some((n as int, 8int)) && c2
                == cur + 8 && c2 <= bytes@.len(),
            Err(e) => parse_count(bytes@.skip(cur as int)) is None && e == Error::Codec,
        }),
{
    let n = bytes.len();
    if n - cur < 8 {
        return Err(Error::Codec);
    }
    let count64 = u64_from_le_bytes(slice_subrange(bytes, cur, cur + 8));
    proof {
        assert(bytes@.skip(cur as int).subrange(0, 8) =~= bytes@.subrange(
            cur as int,
            cur as int + 8,
        ));
    }
    if count64 > usize::MAX as u64 {
        return Err(Error::Codec);
    }
    Ok((count64 as usize, cur + 8))
}

#[verifier::loop_isolation(false)]
fn read_pos_list(bytes: &[u8], cur: usize) -> (r: Result<(Vec<Position>, usize), Error>)
    requires
        cur <= bytes@.len(),
    ensures
        (match r {
            Ok((ps, c2)) => parse_pos_list(bytes@.skip(cur as int)) == Some(
                (pos_views(ps@), (c2 - cur) as int),
            ) && cur <= c2 <= bytes@.len(),
            Err(e) => parse_pos_list(bytes@.skip(cur as int)) is None && e == Error::Codec,
        }),
{
    proof {
        lemma_parse_pos_fn_bounded();
    }
    let (n, start) = match read_count(bytes, cur) {
        Ok(v) => v,
        Err(e) => {
            return Err(e);
        },
    };
    let ghost s0 = bytes@.skip(start as int);
    proof {
        assert(bytes@.skip(cur as int).skip(8) =~= s0);
    }
    let mut out: Vec<Position> = Vec::new();
    let mut pos: usize = start;
    let mut i: usize = 0;
    while i < n
        invariant
            0 <= i <= n,
            start <= pos <= bytes@.len(),
            out@.len() == i,
            parse_items(parse_pos_fn(), s0, i as nat) == Some(
                (pos_views(out@), (pos - start) as int),
            ),
        decreases n - i,
    {
        proof {
            lemma_parse_items_split(parse_pos_fn(), s0, i as nat, (n - i) as nat);
            assert(i as nat + ((n - i) as nat) == n as nat);
            assert(s0.skip((pos - start) as int) =~= bytes@.skip(pos as int));
        }
        match read_pos(bytes, pos) {
            Err(e) => {
                proof {
                    assert(parse_pos_fn()(bytes@.skip(pos as int)) == parse_pos(
                        bytes@.skip(pos as int),
                    ));
                    assert(parse_items(parse_pos_fn(), s0, n as nat) is None);
                }
                return Err(e);
            },
            Ok((p, c2)) => {
                proof {
                    lemma_parse_items_split(parse_pos_fn(), s0, i as nat, 1nat);
                    assert(i as nat + 1nat == (i + 1) as nat);
                    assert(parse_pos_fn()(bytes@.skip(pos as int)) == parse_pos(
                        bytes@.skip(pos as int),
                    ));
                    assert(parse_items(
                        parse_pos_fn(),
                        bytes@.skip(pos as int).skip(16),
                        0nat,
                    ) == Some((Seq::<PosV>::empty(), 0int)));
                    assert(seq![p@] + Seq::<PosV>::empty() =~= seq![p@]);
                }
                let ghost prev = out@;
                out.push(p);
                proof {
                    assert(pos_views(out@) =~= pos_views(prev) + seq![p@]);
                }
                pos = c2;
                i += 1;
            },
        }
    }
    Ok((out, pos))
}

fn read_uncle_index(bytes: &[u8], cur: usize) -> (r: Result<(UncleBlockIndex, usize), Error>)
    requires
        cur <= bytes@.len(),
    ensures
        (match r {
            Ok((x, c2)) => parse_uncle_index(bytes@.skip(cur as int)) == Some(
                (x@, (c2 - cur) as int),
            ) && cur <= c2 <= bytes@.len(),
            Err(e) => parse_uncle_index(bytes@.skip(cur as int)) is None && e == Error::Codec,
        }),
{
    let (hash, c1) = match read_pos(bytes, cur) {
        Ok(v) => v,
        Err(e) => {
            return Err(e);
        },
    };
    proof {
        assert(bytes@.skip(cur as int).skip(16) =~= bytes@.skip(c1 as int));
    }
    let (header, c2) = match read_pos(bytes, c1) {
        Ok(v) => v,
        Err(e) => {
            return Err(e);
        },
    };
    proof {
        assert(bytes@.skip(cur as int).skip(32) =~= bytes@.skip(c2 as int));
    }
    let (proposals, c3) = match read_pos_list(bytes, c2) {
        Ok(v) => v,
        Err(e) => {
            return Err(e);
        },
    };
    Ok((UncleBlockIndex { hash, header, proposals }, c3))
}

fn read_transaction_index(bytes: &[u8], cur: usize) -> (r: Result<
    (TransactionIndex, usize),
    Error,
>)
    requires
        cur <= bytes@.len(),
    ensures
        (match r {
            Ok((x, c2)) => parse_transaction_index(bytes@.skip(cur as int)) == Some(
                (x@, (c2 - cur) as int),
            ) && cur <= c2 <= bytes@.len(),
            Err(e) => parse_transaction_index(bytes@.skip(cur as int)) is None && e
                == Error::Codec,
        }),
{
    let (hash, c1) = match read_pos(bytes, cur) {
        Ok(v) => v,
        Err(e) => {
            return Err(e);
        },
    };
    proof {
        assert(bytes@.skip(cur as int).skip(16) =~= bytes@.skip(c1 as int));
    }
    let (version, c2) = match read_pos(bytes, c1) {
        Ok(v) => v,
        Err(e) => {
            return Err(e);
        },
    };
    proof {
        assert(bytes@.skip(cur as int).skip(32) =~= bytes@.skip(c2 as int));
    }
    let (deps, c3) = match read_pos_list(bytes, c2) {
        Ok(v) => v,
        Err(e) => {
            return Err(e);
        },
    };
    proof {
        assert(bytes@.skip(cur as int).skip(32 + (c3 - c2) as int) =~= bytes@.skip(c3 as int));
    }
    let (inputs, c4) = match read_pos_list(bytes, c3) {
        Ok(v) => v,
        Err(e) => {
            return Err(e);
        },
    };
    proof {
        assert(bytes@.skip(cur as int).skip(32 + (c3 - c2) as int + (c4 - c3) as int)
            =~= bytes@.skip(c4 as int));
    }
    let (outputs, c5) = match read_pos_list(bytes, c4) {
        Ok(v) => v,
        Err(e) => {
            return Err(e);
        },
    };
    proof {
        assert(bytes@.skip(cur as int).skip(
            32 + (c3 - c2) as int + (c4 - c3) as int + (c5 - c4) as int,
        ) =~= bytes@.skip(c5 as int));
    }
    let (witnesses, c6) = match read_pos_list(bytes, c5) {
        Ok(v) => v,
        Err(e) => {
            return Err(e);
        },
    };
    Ok((TransactionIndex { hash, version, deps, inputs, outputs, witnesses }, c6))
}

/// Reads a stored block index back; bytes that are not exactly one encoded
/// index fail to decode.
#[verifier::loop_isolation(false)]
#[verifier::rlimit(60)]
#[verifier::spinoff_prover]
pub fn deserialize_block_index(bytes: &[u8]) -> (r: Result<BlockIndex, Error>)
    ensures
        (match r {
            Ok(x) => parse_block_index(bytes@) == Some(x@),
            Err(e) => parse_block_index(bytes@) is None && e == Error::Codec,
        }),
{
    proof {
        lemma_parse_uncle_index_bounded();
        lemma_parse_transaction_index_bounded();
        assert(bytes@.skip(0) =~= bytes@);
    }
    let (hash, c1) = match read_pos(bytes, 0) {
        Ok(v) => v,
        Err(e) => {
            return Err(e);
        },
    };
    proof {
        assert(bytes@.skip(16) =~= bytes@.skip(c1 as int));
    }
    let (header, c2) = match read_pos(bytes, c1) {
        Ok(v) => v,
        Err(e) => {
            return Err(e);
        },
    };
    proof {
        assert(bytes@.skip(32) =~= bytes@.skip(c2 as int));
    }
    let (nu, c3) = match read_count(bytes, c2) {
        Ok(v) => v,
        Err(e) => {
            return Err(e);
        },
    };
    proof {
        assert(bytes@.skip(40) =~= bytes@.skip(c3 as int));
    }
    let ghost su = bytes@.skip(c3 as int);
    let mut uncles: Vec<UncleBlockIndex> = Vec::new();
    let mut pos: usize = c3;
    let mut i: usize = 0;
    while i < nu
        invariant
            0 <= i <= nu,
            c3 <= pos <= bytes@.len(),
            uncles@.len() == i,
            parse_items(parse_uncle_index_fn(), su, i as nat) == Some(
                (uncles@.map_values(|u: UncleBlockIndex| u@), (pos - c3) as int),
            ),
        decreases nu - i,
    {
        proof {
            lemma_parse_items_split(parse_uncle_index_fn(), su, i as nat, (nu - i) as nat);
            assert(i as nat + ((nu - i) as nat) == nu as nat);
            assert(su.skip((pos - c3) as int) =~= bytes@.skip(pos as int));
        }
        match read_uncle_index(bytes, pos) {
            Err(e) => {
                proof {
                    assert(parse_uncle_index_fn()(bytes@.skip(pos as int)) == parse_uncle_index(
                        bytes@.skip(pos as int),
                    ));
                    assert(parse_items(parse_uncle_index_fn(), su, nu as nat) is None);
                }
                return Err(e);
            },
            Ok((u, c2b)) => {
                proof {
                    lemma_parse_items_split(parse_uncle_index_fn(), su, i as nat, 1nat);
                    assert(i as nat + 1nat == (i + 1) as nat);
                    assert(parse_uncle_index_fn()(bytes@.skip(pos as int)) == parse_uncle_index(
                        bytes@.skip(pos as int),
                    ));
                    assert(parse_items(
                        parse_uncle_index_fn(),
                        bytes@.skip(pos as int).skip((c2b - pos) as int),
                        0nat,
                    ) == Some((Seq::<UncleBlockIndexV>::empty(), 0int)));
                    assert(seq![u@] + Seq::<UncleBlockIndexV>::empty() =~= seq![u@]);
                }
                let ghost prev = uncles@;
                uncles.push(u);
                proof {
                    assert(uncles@.map_values(|x2: UncleBlockIndex| x2@) =~= prev.map_values(
                        |x2: UncleBlockIndex| x2@,
                    ) + seq![u@]);
                }
                pos = c2b;
                i += 1;
            },
        }
    }
    let (nt, c5) = match read_count(bytes, pos) {
        Ok(v) => v,
        Err(e) => {
            proof {
                assert(bytes@.skip(c3 as int).skip((pos - c3) as int) =~= bytes@.skip(
                    pos as int,
                ));
            }
            return Err(e);
        },
    };
    proof {
        assert(bytes@.skip(c3 as int).skip((pos - c3) as int) =~= bytes@.skip(pos as int));
        assert(bytes@.skip(pos as int).skip(8) =~= bytes@.skip(c5 as int));
    }
    let ghost st = bytes@.skip(c5 as int);
    let mut transactions: Vec<TransactionIndex> = Vec::new();
    let ghost upos = pos as int;
    let mut pos2: usize = c5;
    let mut j: usize = 0;
    while j < nt
        invariant
            0 <= j <= nt,
            c5 <= pos2 <= bytes@.len(),
            transactions@.len() == j,
            parse_items(parse_transaction_index_fn(), st, j as nat) == Some(
                (transactions@.map_values(|t: TransactionIndex| t@), (pos2 - c5) as int),
            ),
        decreases nt - j,
    {
        proof {
            lemma_parse_items_split(parse_transaction_index_fn(), st, j as nat, (nt - j) as nat);
            assert(j as nat + ((nt - j) as nat) == nt as nat);
            assert(st.skip((pos2 - c5) as int) =~= bytes@.skip(pos2 as int));
        }
        match read_transaction_index(bytes, pos2) {
            Err(e) => {
                proof {
                    assert(parse_transaction_index_fn()(bytes@.skip(pos2 as int))
                        == parse_transaction_index(bytes@.skip(pos2 as int)));
                    assert(parse_items(parse_transaction_index_fn(), st, nt as nat) is None);
                }
                return Err(e);
            },
            Ok((t, c2b)) => {
                proof {
                    lemma_parse_items_split(parse_transaction_index_fn(), st, j as nat, 1nat);
                    assert(j as nat + 1nat == (j + 1) as nat);
                    assert(parse_transaction_index_fn()(bytes@.skip(pos2 as int))
                        == parse_transaction_index(bytes@.skip(pos2 as int)));
                    assert(parse_items(
                        parse_transaction_index_fn(),
                        bytes@.skip(pos2 as int).skip((c2b - pos2) as int),
                        0nat,
                    ) == Some((Seq::<TransactionIndexV>::empty(), 0int)));
                    assert(seq![t@] + Seq::<TransactionIndexV>::empty() =~= seq![t@]);
                }
                let ghost prev = transactions@;
                transactions.push(t);
                proof {
                    assert(transactions@.map_values(|x2: TransactionIndex| x2@)
                        =~= prev.map_values(|x2: TransactionIndex| x2@) + seq![t@]);
                }
                pos2 = c2b;
                j += 1;
            },
        }
    }
    let (proposals, c7) = match read_pos_list(bytes, pos2) {
        Ok(v) => v,
        Err(e) => {
            proof {
                assert(bytes@.skip(c5 as int).skip((pos2 - c5) as int) =~= bytes@.skip(
                    pos2 as int,
                ));
            }
            return Err(e);
        },
    };
    proof {
        assert(bytes@.skip(c5 as int).skip((pos2 - c5) as int) =~= bytes@.skip(pos2 as int));
    }
    if c7 != bytes.len() {
        return Err(Error::Codec);
    }
    let x = BlockIndex { hash, header, uncles, transactions, proposals };
    proof {
        assert(parse_block_index(bytes@) == Some(x@));
    }
    Ok(x)
}

// ---------------------------------------------------------------------------
// The layout pass always fits the encoding
// ---------------------------------------------------------------------------
/// Whether every list of the block is short enough to count: what any block
/// held in machine vectors satisfies.
pub open spec fn counts_fit(b: crate::model::BlockV) -> bool {
    &&& b.uncles.len() <= usize::MAX
    &&& b.transactions.len() <= usize::MAX
    &&& b.proposals.len() <= usize::MAX
    &&& forall|i: int|
        0 <= i < b.uncles.len() ==> (#[trigger] b.uncles[i]).proposals.len() <= usize::MAX
    &&& forall|i: int|
        0 <= i < b.transactions.len() ==> {
            let t = #[trigger] b.transactions[i];
            &&& t.deps.len() <= usize::MAX
            &&& t.inputs.len() <= usize::MAX
            &&& t.outputs.len() <= usize::MAX
            &&& t.witnesses.len() <= usize::MAX
        }
}

proof fn lemma_positions_from_fits(base: int, lens: Seq<int>)
    requires
        crate::index::lens_wf(lens),
        0 <= base,
        base + crate::index::sum(lens) <= usize::MAX,
        lens.len() <= usize::MAX,
    ensures
        pos_list_fits(crate::index::positions_from(base, lens)),
{
    let ps = crate::index::positions_from(base, lens);
    crate::index::lemma_positions_from_len(base, lens);
    assert forall|i: int| 0 <= i < ps.len() implies pos_fits(#[trigger] ps[i]) by {
        crate::index::lemma_positions_from_index(base, lens, i);
        crate::index::lemma_sum_take_le(lens, i);
        crate::index::lemma_sum_take_le(lens, i + 1);
        assert(lens.take(i + 1) =~= lens.take(i).push(lens[i]));
        crate::index::lemma_sum_snoc(lens.take(i), lens[i]);
    }
}

proof fn lemma_spec_transaction_index_fits(base: int, t: crate::index::TransactionSizeV)
    requires
        t.wf(),
        0 <= base,
        base + t.total() <= usize::MAX,
        t.deps.len() <= usize::MAX,
        t.inputs.len() <= usize::MAX,
        t.outputs.len() <= usize::MAX,
        t.witnesses.len() <= usize::MAX,
    ensures
        transaction_index_fits(crate::index::spec_transaction_index(base, t)),
{
    crate::index::lemma_sum_nonneg(t.deps);
    crate::index::lemma_sum_nonneg(t.inputs);
    crate::index::lemma_sum_nonneg(t.outputs);
    crate::index::lemma_sum_nonneg(t.witnesses);
    let o1 = base + t.hash;
    let o2 = o1 + t.version;
    let o3 = o2 + crate::index::sum(t.deps);
    let o4 = o3 + crate::index::sum(t.inputs);
    let o5 = o4 + crate::index::sum(t.outputs);
    lemma_positions_from_fits(o2, t.deps);
    lemma_positions_from_fits(o3, t.inputs);
    lemma_positions_from_fits(o4, t.outputs);
    lemma_positions_from_fits(o5, t.witnesses);
}

proof fn lemma_spec_uncle_index_fits(base: int, u: crate::index::UncleBlockSizeV)
    requires
        u.wf(),
        0 <= base,
        base + u.total() <= usize::MAX,
        u.proposals.len() <= usize::MAX,
    ensures
        uncle_index_fits(crate::index::spec_uncle_block_index(base, u)),
{
    crate::index::lemma_sum_nonneg(u.proposals);
    lemma_positions_from_fits(base + u.hash + u.header, u.proposals);
}

/// A block held in machine vectors, laid out by the layout pass, always
/// produces an index the encoding can carry.
pub proof fn lemma_spec_block_index_fits(b: crate::model::BlockV)
    requires
        b.wf(),
        crate::encoding::block_bytes(b).len() <= usize::MAX,
        counts_fit(b),
    ensures
        block_index_fits(
            crate::index::spec_block_index(crate::index::spec_block_size(b)),
        ),
{
    let sz = crate::index::spec_block_size(b);
    let x = crate::index::spec_block_index(sz);
    crate::index::lemma_spec_block_size_wf(b);
    crate::index::lemma_block_size_total(b);
    crate::index::lemma_uncle_totals_wf(sz.uncles);
    crate::index::lemma_transaction_totals_wf(sz.transactions);
    crate::index::lemma_sum_nonneg(crate::index::uncle_totals(sz.uncles));
    crate::index::lemma_sum_nonneg(crate::index::transaction_totals(sz.transactions));
    crate::index::lemma_sum_nonneg(sz.proposals);
    let total = sz.total();
    let o2 = sz.hash + sz.header;
    let o3 = o2 + crate::index::sum(crate::index::uncle_totals(sz.uncles));
    let o4 = o3 + crate::index::sum(crate::index::transaction_totals(sz.transactions));
    crate::index::lemma_uncle_indices_len(o2, sz.uncles);
    crate::index::lemma_transaction_indices_len(o3, sz.transactions);
    assert forall|i: int|
        0 <= i < x.uncles.len() implies uncle_index_fits(#[trigger] x.uncles[i]) by {
        crate::index::lemma_uncle_indices_index(o2, sz.uncles, i);
        crate::index::lemma_sum_take_le(crate::index::uncle_totals(sz.uncles), i);
        crate::index::lemma_sum_take_le(crate::index::uncle_totals(sz.uncles), i + 1);
        assert(crate::index::uncle_totals(sz.uncles).take(i + 1)
            =~= crate::index::uncle_totals(sz.uncles).take(i).push(
            crate::index::uncle_totals(sz.uncles)[i],
        ));
        crate::index::lemma_sum_snoc(
            crate::index::uncle_totals(sz.uncles).take(i),
            crate::index::uncle_totals(sz.uncles)[i],
        );
        assert(crate::index::uncle_totals(sz.uncles)[i] == sz.uncles[i].total());
        assert(sz.uncles[i] == crate::index::spec_uncle_block_size(b.uncles[i]));
        assert(sz.uncles[i].proposals.len() == b.uncles[i].proposals.len());
        lemma_spec_uncle_index_fits(
            o2 + crate::index::sum(crate::index::uncle_totals(sz.uncles).take(i)),
            sz.uncles[i],
        );
    }
    assert forall|i: int|
        0 <= i < x.transactions.len() implies transaction_index_fits(
        #[trigger] x.transactions[i],
    ) by {
        crate::index::lemma_transaction_indices_index(o3, sz.transactions, i);
        crate::index::lemma_sum_take_le(
            crate::index::transaction_totals(sz.transactions),
            i,
        );
        crate::index::lemma_sum_take_le(
            crate::index::transaction_totals(sz.transactions),
            i + 1,
        );
        assert(crate::index::transaction_totals(sz.transactions).take(i + 1)
            =~= crate::index::transaction_totals(sz.transactions).take(i).push(
            crate::index::transaction_totals(sz.transactions)[i],
        ));
        crate::index::lemma_sum_snoc(
            crate::index::transaction_totals(sz.transactions).take(i),
            crate::index::transaction_totals(sz.transactions)[i],
        );
        assert(crate::index::transaction_totals(sz.transactions)[i] == sz.transactions[
            i].total());
        assert(sz.transactions[i] == crate::index::spec_transaction_size(b.transactions[i]));
        assert(sz.transactions[i].deps.len() == b.transactions[i].deps.len());
        assert(sz.transactions[i].inputs.len() == b.transactions[i].inputs.len());
        assert(sz.transactions[i].outputs.len() == b.transactions[i].outputs.len());
        assert(sz.transactions[i].witnesses.len() == b.transactions[i].witnesses.len());
        lemma_spec_transaction_index_fits(
            o3 + crate::index::sum(
                crate::index::transaction_totals(sz.transactions).take(i),
            ),
            sz.transactions[i],
        );
    }
    assert(sz.proposals.len() == b.proposals.len());
    lemma_positions_from_fits(o4, sz.proposals);
}

} // verus!
