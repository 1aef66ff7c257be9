//! Wire codec: the binary layout of a signed transaction.
//!
//! Layout: a two-byte little-endian signature count, that many 64-byte
//! signatures, then the message: the three header bytes, a two-byte
//! little-endian key count, that many 32-byte keys, the 32-byte recency
//! anchor, a two-byte little-endian instruction count, and each instruction
//! as a program-id index byte, a length-prefixed index list and a
//! length-prefixed data blob (both lengths two bytes, little-endian).

use vstd::prelude::*;
use crate::types::{
    Anchor, CompiledInstruction, CompiledInstructionV, CompiledMessage, MessageHeader, MessageV,
    Pubkey, Signature, SignedTransaction, TransactionV, keys_distinct, wf_compiled_ix,
    wf_message, wf_transaction,
};
use crate::error::ResignError;

verus! {

// ---------------------------------------------------------------------------
// Serialization, at the specification level.
// ---------------------------------------------------------------------------

/// Two bytes, little endian.
pub open spec fn le16(n: int) -> Seq<u8>
    recommends
        0 <= n <= 0xFFFF,
{
    seq![(n % 256) as u8, ((n / 256) % 256) as u8]
}

/// Concatenation of a sequence of byte chunks.
pub open spec fn flat(chunks: Seq<Seq<u8>>) -> Seq<u8>
    decreases chunks.len(),
{
    if chunks.len() == 0 {
        Seq::empty()
    } else {
        chunks[0] + flat(chunks.drop_first())
    }
}

pub open spec fn ser_ix(ix: CompiledInstructionV) -> Seq<u8> {
    seq![ix.program_id_index] + le16(ix.account_indices.len() as int) + ix.account_indices
        + le16(ix.data.len() as int) + ix.data
}

pub open spec fn ser_ixs(ixs: Seq<CompiledInstructionV>) -> Seq<u8>
    decreases ixs.len(),
{
    if ixs.len() == 0 {
        Seq::empty()
    } else {
        ser_ix(ixs[0]) + ser_ixs(ixs.drop_first())
    }
}

pub open spec fn ser_message(m: MessageV) -> Seq<u8> {
    seq![m.num_required_signatures, m.num_readonly_signed, m.num_readonly_unsigned]
        + le16(m.account_keys.len() as int) + flat(m.account_keys)
        + m.recent_anchor
        + le16(m.instructions.len() as int) + ser_ixs(m.instructions)
}

pub open spec fn ser_transaction(t: TransactionV) -> Seq<u8> {
    le16(t.signatures.len() as int) + flat(t.signatures) + ser_message(t.message)
}

// ---------------------------------------------------------------------------
// Lemmas about the spec serializer.
// ---------------------------------------------------------------------------

pub proof fn lemma_flat_push(s: Seq<Seq<u8>>, x: Seq<u8>)
    ensures
        flat(s.push(x)) == flat(s) + x,
    decreases s.len(),
{
    if s.len() == 0 {
        assert(s.push(x)[0] == x);
        assert(s.push(x).drop_first() =~= Seq::<Seq<u8>>::empty());
        assert(flat(s.push(x).drop_first()) == Seq::<u8>::empty());
        assert(flat(s.push(x)) =~= flat(s) + x);
    } else {
        assert(s.push(x)[0] == s[0]);
        assert(s.push(x).drop_first() =~= s.drop_first().push(x));
        lemma_flat_push(s.drop_first(), x);
        assert(flat(s.push(x).drop_first()) == flat(s.drop_first()) + x);
        assert(flat(s.push(x)) =~= flat(s) + x);
    }
}

pub proof fn lemma_ser_ixs_push(s: Seq<CompiledInstructionV>, x: CompiledInstructionV)
    ensures
        ser_ixs(s.push(x)) == ser_ixs(s) + ser_ix(x),
    decreases s.len(),
{
    if s.len() == 0 {
        assert(s.push(x)[0] == x);
        assert(s.push(x).drop_first() =~= Seq::<CompiledInstructionV>::empty());
        assert(ser_ixs(s.push(x).drop_first()) == Seq::<u8>::empty());
        assert(ser_ixs(s.push(x)) =~= ser_ixs(s) + ser_ix(x));
    } else {
        assert(s.push(x)[0] == s[0]);
        assert(s.push(x).drop_first() =~= s.drop_first().push(x));
        lemma_ser_ixs_push(s.drop_first(), x);
        assert(ser_ixs(s.push(x).drop_first()) == ser_ixs(s.drop_first()) + ser_ix(x));
        assert(ser_ixs(s.push(x)) =~= ser_ixs(s) + ser_ix(x));
    }
}

// ---------------------------------------------------------------------------
// Executable serializer.
// ---------------------------------------------------------------------------

/// Appends a two-byte little-endian length.
fn push_le16(out: &mut Vec<u8>, n: u16)
    ensures
        final(out)@ == old(out)@ + le16(n as int),
{
    out.push((n % 256) as u8);
    out.push((n / 256) as u8);
    assert(out@ =~= old(out)@ + le16(n as int));
}

/// Appends a byte slice.
fn push_bytes(out: &mut Vec<u8>, b: &Vec<u8>)
    ensures
        final(out)@ == old(out)@ + b@,
{
    let mut i: usize = 0;
    while i < b.len()
        invariant
            0 <= i <= b@.len(),
            out@ == old(out)@ + b@.subrange(0, i as int),
        decreases b@.len() - i,
    {
        out.push(b[i]);
        assert(out@ =~= old(out)@ + b@.subrange(0, i + 1 as int));
        i = i + 1;
    }
    assert(out@ =~= old(out)@ + b@);
}

/// Appends one instruction in wire form.
fn push_ix(out: &mut Vec<u8>, ix: &CompiledInstruction)
    requires
        ix@.account_indices.len() <= 0xFFFF,
        ix@.data.len() <= 0xFFFF,
    ensures
        final(out)@ == old(out)@ + ser_ix(ix@),
{
    out.push(ix.program_id_index);
    push_le16(out, ix.account_indices.len() as u16);
    push_bytes(out, &ix.account_indices);
    push_le16(out, ix.data.len() as u16);
    push_bytes(out, &ix.data);
    assert(out@ =~= old(out)@ + ser_ix(ix@));
}

/// Serializes a compiled message to its wire form.
pub fn serialize_message(m: &CompiledMessage) -> (r: Vec<u8>)
    requires
        wf_message(m@),
    ensures
        r@ == ser_message(m@),
{
    let mut out: Vec<u8> = Vec::new();
    out.push(m.header.num_required_signatures);
    out.push(m.header.num_readonly_signed);
    out.push(m.header.num_readonly_unsigned);
    let ghost head: Seq<u8> = seq![
        m@.num_required_signatures,
        m@.num_readonly_signed,
        m@.num_readonly_unsigned,
    ];
    assert(out@ =~= head);
    push_le16(&mut out, m.account_keys.len() as u16);
    let ghost keys: Seq<Seq<u8>> = m@.account_keys;
    let mut k: usize = 0;
    while k < m.account_keys.len()
        invariant
            0 <= k <= m.account_keys@.len(),
            keys == m@.account_keys,
            m.account_keys@.len() == keys.len(),
            out@ == head + le16(keys.len() as int) + flat(keys.take(k as int)),
        decreases m.account_keys@.len() - k,
    {
        assert(keys[k as int] == m.account_keys@[k as int]@);
        push_bytes(&mut out, &m.account_keys[k].bytes);
        proof {
            lemma_flat_push(keys.take(k as int), keys[k as int]);
            assert(keys.take(k as int).push(keys[k as int]) =~= keys.take(k + 1 as int));
        }
        k = k + 1;
    }
    assert(keys.take(keys.len() as int) =~= keys);
    push_bytes(&mut out, &m.recent_anchor.bytes);
    push_le16(&mut out, m.instructions.len() as u16);
    let ghost pre_ix: Seq<u8> = out@;
    let ghost ixs: Seq<CompiledInstructionV> = m@.instructions;
    let mut j: usize = 0;
    while j < m.instructions.len()
        invariant
            0 <= j <= m.instructions@.len(),
            ixs == m@.instructions,
            m.instructions@.len() == ixs.len(),
            forall|i: int| 0 <= i < ixs.len() ==> wf_compiled_ix(#[trigger] ixs[i], m@.account_keys.len() as int),
            out@ == pre_ix + ser_ixs(ixs.take(j as int)),
        decreases m.instructions@.len() - j,
    {
        assert(ixs[j as int] == m.instructions@[j as int]@);
        assert(wf_compiled_ix(ixs[j as int], m@.account_keys.len() as int));
        push_ix(&mut out, &m.instructions[j]);
        proof {
            lemma_ser_ixs_push(ixs.take(j as int), ixs[j as int]);
            assert(ixs.take(j as int).push(ixs[j as int]) =~= ixs.take(j + 1 as int));
        }
        j = j + 1;
    }
    assert(ixs.take(ixs.len() as int) =~= ixs);
    assert(out@ =~= ser_message(m@));
    out
}

/// Serializes a transaction to its wire form: the exact inverse of
/// `deserialize_transaction` on well-formed input.
pub fn serialize_transaction(t: &SignedTransaction) -> (r: Vec<u8>)
    requires
        wf_transaction(t@),
    ensures
        r@ == ser_transaction(t@),
{
    let mut out: Vec<u8> = Vec::new();
    push_le16(&mut out, t.signatures.len() as u16);
    let ghost head: Seq<u8> = le16(t@.signatures.len() as int);
    assert(out@ =~= head);
    let ghost sigs: Seq<Seq<u8>> = t@.signatures;
    let mut k: usize = 0;
    while k < t.signatures.len()
        invariant
            0 <= k <= t.signatures@.len(),
            sigs == t@.signatures,
            t.signatures@.len() == sigs.len(),
            out@ == head + flat(sigs.take(k as int)),
        decreases t.signatures@.len() - k,
    {
        assert(sigs[k as int] == t.signatures@[k as int]@);
        push_bytes(&mut out, &t.signatures[k].bytes);
        proof {
            lemma_flat_push(sigs.take(k as int), sigs[k as int]);
            assert(sigs.take(k as int).push(sigs[k as int]) =~= sigs.take(k + 1 as int));
        }
        k = k + 1;
    }
    assert(sigs.take(sigs.len() as int) =~= sigs);
    let mut msg = serialize_message(&t.message);
    out.append(&mut msg);
    assert(out@ =~= ser_transaction(t@));
    out
}

// ---------------------------------------------------------------------------
// Parsing, at the specification level. Each parser takes the whole input
// and a position, and yields the parsed value with the position after it.
// ---------------------------------------------------------------------------

pub open spec fn p_u8(b: Seq<u8>, i: int) -> Option<(u8, int)> {
    if 0 <= i && i + 1 <= b.len() {
        Some((b[i], i + 1))
    } else {
        None
    }
}

pub open spec fn p_u16(b: Seq<u8>, i: int) -> Option<(u16, int)> {
    if 0 <= i && i + 2 <= b.len() {
        Some(((b[i] + 256 * b[i + 1]) as u16, i + 2))
    } else {
        None
    }
}

pub open spec fn p_bytes(b: Seq<u8>, i: int, n: int) -> Option<(Seq<u8>, int)> {
    if 0 <= i && 0 <= n && i + n <= b.len() {
        Some((b.subrange(i, i + n), i + n))
    } else {
        None
    }
}

/// Parses `n` fixed-width chunks of `w` bytes each.
pub open spec fn p_chunks(b: Seq<u8>, i: int, n: int, w: int) -> Option<(Seq<Seq<u8>>, int)>
    recommends
        0 <= w,
    decreases n,
{
    if n <= 0 {
        Some((Seq::empty(), i))
    } else {
        match p_bytes(b, i, w) {
            None => None,
            Some((c, i2)) => match p_chunks(b, i2, n - 1, w) {
                None => None,
                Some((rest, e)) => Some((seq![c] + rest, e)),
            },
        }
    }
}

pub open spec fn p_ix(b: Seq<u8>, i: int) -> Option<(CompiledInstructionV, int)> {
    match p_u8(b, i) {
        None => None,
        Some((pidx, i1)) => match p_u16(b, i1) {
            None => None,
            Some((na, i2)) => match p_bytes(b, i2, na as int) {
                None => None,
                Some((inds, i3)) => match p_u16(b, i3) {
                    None => None,
                    Some((nd, i4)) => match p_bytes(b, i4, nd as int) {
                        None => None,
                        Some((data, i5)) => Some(
                            (
                                CompiledInstructionV {
                                    program_id_index: pidx,
                                    account_indices: inds,
                                    data: data,
                                },
                                i5,
                            ),
                        ),
                    },
                },
            },
        },
    }
}

pub open spec fn p_ixs(b: Seq<u8>, i: int, n: int) -> Option<(Seq<CompiledInstructionV>, int)>
    decreases n,
{
    if n <= 0 {
        Some((Seq::empty(), i))
    } else {
        match p_ix(b, i) {
            None => None,
            Some((ix, i2)) => match p_ixs(b, i2, n - 1) {
                None => None,
                Some((rest, e)) => Some((seq![ix] + rest, e)),
            },
        }
    }
}

pub open spec fn p_message(b: Seq<u8>, i: int) -> Option<(MessageV, int)> {
    match p_u8(b, i) {
        None => None,
        Some((nrs, i1)) => match p_u8(b, i1) {
            None => None,
            Some((nro_s, i2)) => match p_u8(b, i2) {
                None => None,
                Some((nro_u, i3)) => match p_u16(b, i3) {
                    None => None,
                    Some((nk, i4)) => match p_chunks(b, i4, nk as int, 32) {
                        None => None,
                        Some((keys, i5)) => match p_bytes(b, i5, 32) {
                            None => None,
                            Some((anchor, i6)) => match p_u16(b, i6) {
                                None => None,
                                Some((ni, i7)) => match p_ixs(b, i7, ni as int) {
                                    None => None,
                                    Some((ixs, e)) => Some(
                                        (
                                            MessageV {
                                                num_required_signatures: nrs,
                                                num_readonly_signed: nro_s,
                                                num_readonly_unsigned: nro_u,
                                                account_keys: keys,
                                                recent_anchor: anchor,
                                                instructions: ixs,
                                            },
                                            e,
                                        ),
                                    ),
                                },
                            },
                        },
                    },
                },
            },
        },
    }
}

/// Views of a vector of byte vectors.
pub open spec fn views2(cs: Seq<Vec<u8>>) -> Seq<Seq<u8>> {
    cs.map_values(|v: Vec<u8>| v@)
}

/// Continuation of a chunk parse: prepends already-parsed chunks.
pub open spec fn chunks_cont(acc: Seq<Seq<u8>>, r: Option<(Seq<Seq<u8>>, int)>) -> Option<
    (Seq<Seq<u8>>, int),
> {
    match r {
        None => None,
        Some((rest, e)) => Some((acc + rest, e)),
    }
}

/// Continuation of an instruction-list parse.
pub open spec fn ixs_cont(
    acc: Seq<CompiledInstructionV>,
    r: Option<(Seq<CompiledInstructionV>, int)>,
) -> Option<(Seq<CompiledInstructionV>, int)> {
    match r {
        None => None,
        Some((rest, e)) => Some((acc + rest, e)),
    }
}

proof fn lemma_chunks_cont_assoc(
    a: Seq<Seq<u8>>,
    c: Seq<Seq<u8>>,
    r: Option<(Seq<Seq<u8>>, int)>,
)
    ensures
        chunks_cont(a, chunks_cont(c, r)) == chunks_cont(a + c, r),
{
    match r {
        None => {
        },
        Some((rest, e)) => {
            assert(a + (c + rest) =~= (a + c) + rest);
        },
    }
}

proof fn lemma_ixs_cont_assoc(
    a: Seq<CompiledInstructionV>,
    c: Seq<CompiledInstructionV>,
    r: Option<(Seq<CompiledInstructionV>, int)>,
)
    ensures
        ixs_cont(a, ixs_cont(c, r)) == ixs_cont(a + c, r),
{
    match r {
        None => {
        },
        Some((rest, e)) => {
            assert(a + (c + rest) =~= (a + c) + rest);
        },
    }
}

proof fn lemma_chunks_step(b: Seq<u8>, i: int, n: int, w: int, c: Seq<u8>, i2: int)
    requires
        n > 0,
        p_bytes(b, i, w) == Some((c, i2)),
    ensures
        p_chunks(b, i, n, w) == chunks_cont(seq![c], p_chunks(b, i2, n - 1, w)),
{
    match p_chunks(b, i2, n - 1, w) {
        None => {
            assert(p_chunks(b, i, n, w) is None);
        },
        Some((rest, e)) => {
            assert(p_chunks(b, i, n, w) == Some((seq![c] + rest, e)));
        },
    }
}

proof fn lemma_ixs_step(b: Seq<u8>, i: int, n: int, ix: CompiledInstructionV, i2: int)
    requires
        n > 0,
        p_ix(b, i) == Some((ix, i2)),
    ensures
        p_ixs(b, i, n) == ixs_cont(seq![ix], p_ixs(b, i2, n - 1)),
{
    match p_ixs(b, i2, n - 1) {
        None => {
            assert(p_ixs(b, i, n) is None);
        },
        Some((rest, e)) => {
            assert(p_ixs(b, i, n) == Some((seq![ix] + rest, e)));
        },
    }
}

/// The whole-input parse: a transaction is recognized exactly when the
/// structural parse consumes every byte and the result is well-formed.
pub open spec fn p_transaction(b: Seq<u8>) -> Option<TransactionV> {
    match p_u16(b, 0) {
        None => None,
        Some((ns, i1)) => match p_chunks(b, i1, ns as int, 64) {
            None => None,
            Some((sigs, i2)) => match p_message(b, i2) {
                None => None,
                Some((m, e)) => {
                    let t = TransactionV { signatures: sigs, message: m };
                    if e == b.len() && wf_transaction(t) {
                        Some(t)
                    } else {
                        None
                    }
                },
            },
        },
    }
}

// ---------------------------------------------------------------------------
// Executable deserializer. Each reader returns exactly what the spec-level
// parser at the same position returns.
// ---------------------------------------------------------------------------

fn read_u8(b: &Vec<u8>, i: usize) -> (r: Option<(u8, usize)>)
    ensures
        match r {
            Some((v, j)) => p_u8(b@, i as int) == Some((v, j as int)) && j <= b@.len(),
            None => p_u8(b@, i as int) is None,
        },
{
    if i < b.len() {
        Some((b[i], i + 1))
    } else {
        None
    }
}

fn read_u16(b: &Vec<u8>, i: usize) -> (r: Option<(u16, usize)>)
    ensures
        match r {
            Some((v, j)) => p_u16(b@, i as int) == Some((v, j as int)) && j <= b@.len(),
            None => p_u16(b@, i as int) is None,
        },
{
    if i < b.len() && 1 < b.len() - i {
        let v: u16 = b[i] as u16 + 256 * (b[i + 1] as u16);
        Some((v, i + 2))
    } else {
        None
    }
}

fn read_bytes(b: &Vec<u8>, i: usize, n: usize) -> (r: Option<(Vec<u8>, usize)>)
    ensures
        match r {
            Some((c, j)) => p_bytes(b@, i as int, n as int) == Some((c@, j as int)) && j <= b@.len(),
            None => p_bytes(b@, i as int, n as int) is None,
        },
{
    if i > b.len() || n > b.len() - i {
        return None;
    }
    let mut c: Vec<u8> = Vec::new();
    let mut k: usize = 0;
    assert(b@.len() <= usize::MAX);
    while k < n
        invariant
            0 <= k <= n,
            i + n <= b@.len(),
            b@.len() <= usize::MAX,
            c@ == b@.subrange(i as int, i + k as int),
        decreases n - k,
    {
        c.push(b[i + k]);
        assert(c@ =~= b@.subrange(i as int, i + (k + 1) as int));
        k = k + 1;
    }
    Some((c, i + n))
}

fn read_chunks(b: &Vec<u8>, i: usize, n: usize, w: usize) -> (r: Option<(Vec<Vec<u8>>, usize)>)
    requires
        i <= b@.len(),
    ensures
        match r {
            Some((cs, j)) => p_chunks(b@, i as int, n as int, w as int) == Some(
                (views2(cs@), j as int),
            ) && j <= b@.len() && cs@.len() == n,
            None => p_chunks(b@, i as int, n as int, w as int) is None,
        },
{
    let mut acc: Vec<Vec<u8>> = Vec::new();
    let mut pos: usize = i;
    let mut k: usize = 0;
    while k < n
        invariant
            0 <= k <= n,
            acc@.len() == k,
            pos <= b@.len(),
            p_chunks(b@, i as int, n as int, w as int) == chunks_cont(
                views2(acc@),
                p_chunks(b@, pos as int, (n - k) as int, w as int),
            ),
        decreases n - k,
    {
        match read_bytes(b, pos, w) {
            None => {
                assert(p_chunks(b@, pos as int, (n - k) as int, w as int) is None);
                return None;
            },
            Some((c, p2)) => {
                proof {
                    lemma_chunks_step(
                        b@,
                        pos as int,
                        (n - k) as int,
                        w as int,
                        c@,
                        p2 as int,
                    );
                    lemma_chunks_cont_assoc(
                        views2(acc@),
                        seq![c@],
                        p_chunks(b@, p2 as int, (n - k - 1) as int, w as int),
                    );
                    assert(views2(acc@.push(c)) =~= views2(acc@) + seq![c@]);
                }
                acc.push(c);
                pos = p2;
                k = k + 1;
            },
        }
    }
    assert(p_chunks(b@, pos as int, 0, w as int) == Some((Seq::<Seq<u8>>::empty(), pos as int)));
    assert(views2(acc@) + Seq::<Seq<u8>>::empty() =~= views2(acc@));
    Some((acc, pos))
}

fn read_ix(b: &Vec<u8>, i: usize) -> (r: Option<(CompiledInstruction, usize)>)
    ensures
        match r {
            Some((ix, j)) => p_ix(b@, i as int) == Some((ix@, j as int)) && j <= b@.len(),
            None => p_ix(b@, i as int) is None,
        },
{
    let (pidx, i1) = match read_u8(b, i) {
        Some(x) => x,
        None => {
            return None;
        },
    };
    let (na, i2) = match read_u16(b, i1) {
        Some(x) => x,
        None => {
            return None;
        },
    };
    let (inds, i3) = match read_bytes(b, i2, na as usize) {
        Some(x) => x,
        None => {
            return None;
        },
    };
    let (nd, i4) = match read_u16(b, i3) {
        Some(x) => x,
        None => {
            return None;
        },
    };
    let (data, i5) = match read_bytes(b, i4, nd as usize) {
        Some(x) => x,
        None => {
            return None;
        },
    };
    let ix = CompiledInstruction { program_id_index: pidx, account_indices: inds, data: data };
    Some((ix, i5))
}

/// Views of a vector of compiled instructions.
pub open spec fn ix_views(cs: Seq<CompiledInstruction>) -> Seq<CompiledInstructionV> {
    cs.map_values(|x: CompiledInstruction| x@)
}

fn read_ixs(b: &Vec<u8>, i: usize, n: usize) -> (r: Option<(Vec<CompiledInstruction>, usize)>)
    requires
        i <= b@.len(),
    ensures
        match r {
            Some((ixs, j)) => p_ixs(b@, i as int, n as int) == Some((ix_views(ixs@), j as int))
                && j <= b@.len() && ixs@.len() == n,
            None => p_ixs(b@, i as int, n as int) is None,
        },
{
    let mut acc: Vec<CompiledInstruction> = Vec::new();
    let mut pos: usize = i;
    let mut k: usize = 0;
    while k < n
        invariant
            0 <= k <= n,
            acc@.len() == k,
            pos <= b@.len(),
            p_ixs(b@, i as int, n as int) == ixs_cont(
                ix_views(acc@),
                p_ixs(b@, pos as int, (n - k) as int),
            ),
        decreases n - k,
    {
        match read_ix(b, pos) {
            None => {
                assert(p_ixs(b@, pos as int, (n - k) as int) is None);
                return None;
            },
            Some((ix, p2)) => {
                proof {
                    lemma_ixs_step(b@, pos as int, (n - k) as int, ix@, p2 as int);
                    lemma_ixs_cont_assoc(
                        ix_views(acc@),
                        seq![ix@],
                        p_ixs(b@, p2 as int, (n - k - 1) as int),
                    );
                    assert(ix_views(acc@.push(ix)) =~= ix_views(acc@) + seq![ix@]);
                }
                acc.push(ix);
                pos = p2;
                k = k + 1;
            },
        }
    }
    assert(p_ixs(b@, pos as int, 0) == Some((Seq::<CompiledInstructionV>::empty(), pos as int)));
    assert(ix_views(acc@) + Seq::<CompiledInstructionV>::empty() =~= ix_views(acc@));
    Some((acc, pos))
}

fn keys_from_chunks(chunks: &Vec<Vec<u8>>) -> (r: Vec<Pubkey>)
    ensures
        r@.map_values(|k: Pubkey| k@) == views2(chunks@),
        r@.len() == chunks@.len(),
{
    let mut r: Vec<Pubkey> = Vec::new();
    let mut j: usize = 0;
    while j < chunks.len()
        invariant
            0 <= j <= chunks@.len(),
            r@.len() == j,
            forall|q: int| 0 <= q < j ==> (#[trigger] r@[q])@ == chunks@[q]@,
        decreases chunks@.len() - j,
    {
        r.push(Pubkey { bytes: crate::types::clone_bytes(&chunks[j]) });
        j = j + 1;
    }
    assert(r@.map_values(|k: Pubkey| k@) =~= views2(chunks@));
    r
}

fn sigs_from_chunks(chunks: &Vec<Vec<u8>>) -> (r: Vec<Signature>)
    ensures
        r@.map_values(|s: Signature| s@) == views2(chunks@),
        r@.len() == chunks@.len(),
{
    let mut r: Vec<Signature> = Vec::new();
    let mut j: usize = 0;
    while j < chunks.len()
        invariant
            0 <= j <= chunks@.len(),
            r@.len() == j,
            forall|q: int| 0 <= q < j ==> (#[trigger] r@[q])@ == chunks@[q]@,
        decreases chunks@.len() - j,
    {
        r.push(Signature { bytes: crate::types::clone_bytes(&chunks[j]) });
        j = j + 1;
    }
    assert(r@.map_values(|s: Signature| s@) =~= views2(chunks@));
    r
}

fn read_message(b: &Vec<u8>, i: usize) -> (r: Option<(CompiledMessage, usize)>)
    requires
        i <= b@.len(),
    ensures
        match r {
            Some((m, j)) => p_message(b@, i as int) == Some((m@, j as int)) && j <= b@.len(),
            None => p_message(b@, i as int) is None,
        },
{
    let (nrs, i1) = match read_u8(b, i) {
        Some(x) => x,
        None => {
            return None;
        },
    };
    let (nro_s, i2) = match read_u8(b, i1) {
        Some(x) => x,
        None => {
            return None;
        },
    };
    let (nro_u, i3) = match read_u8(b, i2) {
        Some(x) => x,
        None => {
            return None;
        },
    };
    let (nk, i4) = match read_u16(b, i3) {
        Some(x) => x,
        None => {
            return None;
        },
    };
    let (key_chunks, i5) = match read_chunks(b, i4, nk as usize, 32) {
        Some(x) => x,
        None => {
            return None;
        },
    };
    let (anchor, i6) = match read_bytes(b, i5, 32) {
        Some(x) => x,
        None => {
            return None;
        },
    };
    let (ni, i7) = match read_u16(b, i6) {
        Some(x) => x,
        None => {
            return None;
        },
    };
    let (ixs, e) = match read_ixs(b, i7, ni as usize) {
        Some(x) => x,
        None => {
            return None;
        },
    };
    let keys = keys_from_chunks(&key_chunks);
    let m = CompiledMessage {
        header: MessageHeader {
            num_required_signatures: nrs,
            num_readonly_signed: nro_s,
            num_readonly_unsigned: nro_u,
        },
        account_keys: keys,
        recent_anchor: Anchor { bytes: anchor },
        instructions: ixs,
    };
    assert(m@.account_keys == views2(key_chunks@));
    assert(m@.instructions == ix_views(ixs@));
    Some((m, e))
}

// ---------------------------------------------------------------------------
// Executable well-formedness checks.
// ---------------------------------------------------------------------------

/// Decides `wf_compiled_ix` for one instruction against a table size.
pub fn check_ix(ix: &CompiledInstruction, n_keys: usize) -> (r: bool)
    ensures
        r == wf_compiled_ix(ix@, n_keys as int),
{
    if (ix.program_id_index as usize) >= n_keys {
        return false;
    }
    if ix.account_indices.len() > 0xFFFF {
        return false;
    }
    if ix.data.len() > 0xFFFF {
        return false;
    }
    let mut j: usize = 0;
    while j < ix.account_indices.len()
        invariant
            0 <= j <= ix@.account_indices.len(),
            forall|q: int| 0 <= q < j ==> (#[trigger] ix@.account_indices[q] as int) < n_keys,
        decreases ix@.account_indices.len() - j,
    {
        if (ix.account_indices[j] as usize) >= n_keys {
            assert(!((ix@.account_indices[j as int] as int) < n_keys));
            return false;
        }
        j = j + 1;
    }
    true
}

/// Decides `wf_message`.
pub fn check_message(m: &CompiledMessage) -> (r: bool)
    ensures
        r == wf_message(m@),
{
    if m.header.num_readonly_signed > m.header.num_required_signatures {
        return false;
    }
    if (m.header.num_required_signatures as usize) + (m.header.num_readonly_unsigned as usize)
        > m.account_keys.len() {
        return false;
    }
    if m.account_keys.len() > 0xFFFF {
        return false;
    }
    let mut k: usize = 0;
    while k < m.account_keys.len()
        invariant
            0 <= k <= m@.account_keys.len(),
            m@.account_keys.len() == m.account_keys@.len(),
            m@.account_keys == m.account_keys@.map_values(|p: Pubkey| p@),
            forall|q: int| 0 <= q < k ==> (#[trigger] m@.account_keys[q]).len() == 32,
        decreases m@.account_keys.len() - k,
    {
        if m.account_keys[k].bytes.len() != 32 {
            assert(m@.account_keys[k as int].len() != 32);
            return false;
        }
        assert(m@.account_keys[k as int].len() == 32);
        k = k + 1;
    }
    let mut k1: usize = 0;
    while k1 < m.account_keys.len()
        invariant
            0 <= k1 <= m@.account_keys.len(),
            m@.account_keys.len() == m.account_keys@.len(),
            m@.account_keys == m.account_keys@.map_values(|p: Pubkey| p@),
            forall|p: int, q: int|
                0 <= p < q < m@.account_keys.len() && p < k1 ==> m@.account_keys[p]
                    != m@.account_keys[q],
        decreases m@.account_keys.len() - k1,
    {
        let mut k2: usize = k1 + 1;
        while k2 < m.account_keys.len()
            invariant
                0 <= k1 < m@.account_keys.len(),
                k1 < k2 <= m@.account_keys.len(),
                m@.account_keys.len() == m.account_keys@.len(),
                m@.account_keys == m.account_keys@.map_values(|p: Pubkey| p@),
                forall|q: int| k1 < q < k2 ==> m@.account_keys[k1 as int] != m@.account_keys[q],
        decreases m@.account_keys.len() - k2,
        {
            if crate::types::bytes_eq(&m.account_keys[k1].bytes, &m.account_keys[k2].bytes) {
                assert(m@.account_keys[k1 as int] == m@.account_keys[k2 as int]);
                assert(!keys_distinct(m@.account_keys));
                return false;
            }
            k2 = k2 + 1;
        }
        k1 = k1 + 1;
    }
    assert(keys_distinct(m@.account_keys));
    if m.recent_anchor.bytes.len() != 32 {
        return false;
    }
    if m.instructions.len() > 0xFFFF {
        return false;
    }
    let n_keys = m.account_keys.len();
    let mut j: usize = 0;
    while j < m.instructions.len()
        invariant
            0 <= j <= m@.instructions.len(),
            m@.instructions.len() == m.instructions@.len(),
            n_keys == m@.account_keys.len(),
            m@.instructions == m.instructions@.map_values(|x: CompiledInstruction| x@),
            forall|q: int|
                0 <= q < j ==> wf_compiled_ix(
                    #[trigger] m@.instructions[q],
                    m@.account_keys.len() as int,
                ),
        decreases m@.instructions.len() - j,
    {
        if !check_ix(&m.instructions[j], n_keys) {
            assert(!wf_compiled_ix(m@.instructions[j as int], m@.account_keys.len() as int));
            return false;
        }
        assert(wf_compiled_ix(m@.instructions[j as int], m@.account_keys.len() as int));
        j = j + 1;
    }
    true
}

/// Decides `wf_transaction`.
pub fn check_transaction(t: &SignedTransaction) -> (r: bool)
    ensures
        r == wf_transaction(t@),
{
    if !check_message(&t.message) {
        return false;
    }
    if t.signatures.len() != (t.message.header.num_required_signatures as usize) {
        return false;
    }
    let mut k: usize = 0;
    while k < t.signatures.len()
        invariant
            0 <= k <= t@.signatures.len(),
            t@.signatures.len() == t.signatures@.len(),
            t@.signatures == t.signatures@.map_values(|s: Signature| s@),
            forall|q: int| 0 <= q < k ==> (#[trigger] t@.signatures[q]).len() == 64,
        decreases t@.signatures.len() - k,
    {
        if t.signatures[k].bytes.len() != 64 {
            assert(t@.signatures[k as int].len() != 64);
            return false;
        }
        assert(t@.signatures[k as int].len() == 64);
        k = k + 1;
    }
    true
}

// ---------------------------------------------------------------------------
// The public deserializer.
// ---------------------------------------------------------------------------

/// Decoding is a pure function of the bytes: equal inputs always decode
/// to the same result, so reading the same input twice yields identical
/// transactions.
pub proof fn lemma_decode_deterministic(b1: Seq<u8>, b2: Seq<u8>)
    requires
        b1 == b2,
    ensures
        p_transaction(b1) == p_transaction(b2),
{
}

/// Deserializes a transaction from its wire form: succeeds exactly when the
/// bytes are a complete, well-formed transaction with no trailing bytes,
/// and fails with `DecodeError` otherwise.
pub fn deserialize_transaction(b: &Vec<u8>) -> (r: Result<SignedTransaction, ResignError>)
    ensures
        match r {
            Ok(t) => p_transaction(b@) == Some(t@) && wf_transaction(t@),
            Err(e) => p_transaction(b@) is None && e == ResignError::DecodeError,
        },
{
    let (ns, i1) = match read_u16(b, 0) {
        Some(x) => x,
        None => {
            return Err(ResignError::DecodeError);
        },
    };
    let (sig_chunks, i2) = match read_chunks(b, i1, ns as usize, 64) {
        Some(x) => x,
        None => {
            return Err(ResignError::DecodeError);
        },
    };
    let (msg, e) = match read_message(b, i2) {
        Some(x) => x,
        None => {
            return Err(ResignError::DecodeError);
        },
    };
    if e != b.len() {
        return Err(ResignError::DecodeError);
    }
    let sigs = sigs_from_chunks(&sig_chunks);
    let t = SignedTransaction { signatures: sigs, message: msg };
    assert(t@.signatures == views2(sig_chunks@));
    if check_transaction(&t) {
        assert(p_transaction(b@) == Some(t@));
        Ok(t)
    } else {
        assert(p_transaction(b@) is None);
        Err(ResignError::DecodeError)
    }
}

// ---------------------------------------------------------------------------
// Round trip: parsing what the serializer wrote yields the original value.
// ---------------------------------------------------------------------------

proof fn lemma_p_u8_at(pre: Seq<u8>, v: u8, suf: Seq<u8>)
    ensures
        p_u8(pre + seq![v] + suf, pre.len() as int) == Some((v, pre.len() + 1 as int)),
{
    let b = pre + seq![v] + suf;
    assert(b[pre.len() as int] == v);
}

proof fn lemma_p_u16_at(pre: Seq<u8>, n: int, suf: Seq<u8>)
    requires
        0 <= n <= 0xFFFF,
    ensures
        p_u16(pre + le16(n) + suf, pre.len() as int) == Some(((n as u16), pre.len() + 2 as int)),
{
    let b = pre + le16(n) + suf;
    let i = pre.len() as int;
    assert(b[i] == (n % 256) as u8);
    assert(b[i + 1] == ((n / 256) % 256) as u8);
    assert((n / 256) % 256 == n / 256) by {
        assert(0 <= n / 256 < 256);
    };
    assert(n % 256 + 256 * (n / 256) == n) by {
        vstd::arithmetic::div_mod::lemma_fundamental_div_mod(n, 256);
    };
    assert(b[i] + 256 * b[i + 1] == n);
}

proof fn lemma_p_bytes_at(pre: Seq<u8>, c: Seq<u8>, suf: Seq<u8>)
    ensures
        p_bytes(pre + c + suf, pre.len() as int, c.len() as int) == Some(
            (c, (pre.len() + c.len()) as int),
        ),
{
    let b = pre + c + suf;
    assert(b.subrange(pre.len() as int, (pre.len() + c.len()) as int) =~= c);
}

proof fn lemma_p_chunks_at(pre: Seq<u8>, cs: Seq<Seq<u8>>, suf: Seq<u8>, w: int)
    requires
        0 <= w,
        forall|k: int| 0 <= k < cs.len() ==> (#[trigger] cs[k]).len() == w,
    ensures
        p_chunks(pre + flat(cs) + suf, pre.len() as int, cs.len() as int, w) == Some(
            (cs, (pre.len() + flat(cs).len()) as int),
        ),
    decreases cs.len(),
{
    let b = pre + flat(cs) + suf;
    if cs.len() == 0 {
        assert(flat(cs) == Seq::<u8>::empty());
        assert(cs =~= Seq::<Seq<u8>>::empty());
    } else {
        let c0 = cs[0];
        let rest = cs.drop_first();
        assert(flat(cs) == c0 + flat(rest));
        assert(pre + c0 + (flat(rest) + suf) =~= b);
        lemma_p_bytes_at(pre, c0, flat(rest) + suf);
        assert(p_bytes(b, pre.len() as int, w) == Some((c0, pre.len() + w)));
        assert(forall|k: int| 0 <= k < rest.len() ==> (#[trigger] rest[k]).len() == w);
        lemma_p_chunks_at(pre + c0, rest, suf, w);
        assert((pre + c0) + flat(rest) + suf =~= b);
        assert(p_chunks(b, (pre + c0).len() as int, rest.len() as int, w) == Some(
            (rest, ((pre + c0).len() + flat(rest).len()) as int),
        ));
        assert(p_chunks(b, pre.len() as int, cs.len() as int, w) == Some(
            (seq![c0] + rest, (pre.len() + c0.len() + flat(rest).len()) as int),
        ));
        assert(seq![c0] + rest =~= cs);
    }
}

proof fn lemma_p_ix_at(pre: Seq<u8>, ix: CompiledInstructionV, suf: Seq<u8>)
    requires
        ix.account_indices.len() <= 0xFFFF,
        ix.data.len() <= 0xFFFF,
    ensures
        p_ix(pre + ser_ix(ix) + suf, pre.len() as int) == Some(
            (ix, (pre.len() + ser_ix(ix).len()) as int),
        ),
{
    let s1 = seq![ix.program_id_index];
    let s2 = le16(ix.account_indices.len() as int);
    let s3 = ix.account_indices;
    let s4 = le16(ix.data.len() as int);
    let s5 = ix.data;
    let b = pre + ser_ix(ix) + suf;
    assert(pre + s1 + (s2 + s3 + s4 + s5 + suf) =~= b);
    lemma_p_u8_at(pre, ix.program_id_index, s2 + s3 + s4 + s5 + suf);
    assert(p_u8(b, pre.len() as int) == Some((ix.program_id_index, pre.len() as int + 1)));
    let p1 = pre + s1;
    assert(p1 + s2 + (s3 + s4 + s5 + suf) =~= b);
    lemma_p_u16_at(p1, s3.len() as int, s3 + s4 + s5 + suf);
    assert(p_u16(b, p1.len() as int) == Some(((s3.len() as u16), p1.len() as int + 2)));
    let p2 = p1 + s2;
    assert(p2 + s3 + (s4 + s5 + suf) =~= b);
    lemma_p_bytes_at(p2, s3, s4 + s5 + suf);
    assert(p_bytes(b, p2.len() as int, s3.len() as int) == Some(
        (s3, (p2.len() + s3.len()) as int),
    ));
    let p3 = p2 + s3;
    assert(p3 + s4 + (s5 + suf) =~= b);
    lemma_p_u16_at(p3, s5.len() as int, s5 + suf);
    assert(p_u16(b, p3.len() as int) == Some(((s5.len() as u16), p3.len() as int + 2)));
    let p4 = p3 + s4;
    assert(p4 + s5 + suf =~= b);
    lemma_p_bytes_at(p4, s5, suf);
    assert(p_bytes(b, p4.len() as int, s5.len() as int) == Some(
        (s5, (p4.len() + s5.len()) as int),
    ));
    assert(((s3.len() as u16) as int) == s3.len() as int);
    assert(((s5.len() as u16) as int) == s5.len() as int);
    assert(p_ix(b, pre.len() as int) == Some(
        (
            CompiledInstructionV {
                program_id_index: ix.program_id_index,
                account_indices: s3,
                data: s5,
            },
            (p4.len() + s5.len()) as int,
        ),
    ));
    assert(CompiledInstructionV {
        program_id_index: ix.program_id_index,
        account_indices: s3,
        data: s5,
    } == ix);
    assert(p4.len() + s5.len() == pre.len() + ser_ix(ix).len());
}

proof fn lemma_p_ixs_at(pre: Seq<u8>, ixs: Seq<CompiledInstructionV>, suf: Seq<u8>)
    requires
        forall|k: int|
            0 <= k < ixs.len() ==> (#[trigger] ixs[k]).account_indices.len() <= 0xFFFF
                && ixs[k].data.len() <= 0xFFFF,
    ensures
        p_ixs(pre + ser_ixs(ixs) + suf, pre.len() as int, ixs.len() as int) == Some(
            (ixs, (pre.len() + ser_ixs(ixs).len()) as int),
        ),
    decreases ixs.len(),
{
    let b = pre + ser_ixs(ixs) + suf;
    if ixs.len() == 0 {
        assert(ser_ixs(ixs) == Seq::<u8>::empty());
        assert(ixs =~= Seq::<CompiledInstructionV>::empty());
    } else {
        let x0 = ixs[0];
        let rest = ixs.drop_first();
        assert(ser_ixs(ixs) == ser_ix(x0) + ser_ixs(rest));
        assert(pre + ser_ix(x0) + (ser_ixs(rest) + suf) =~= b);
        lemma_p_ix_at(pre, x0, ser_ixs(rest) + suf);
        assert(p_ix(b, pre.len() as int) == Some((x0, (pre.len() + ser_ix(x0).len()) as int)));
        assert(forall|k: int|
            0 <= k < rest.len() ==> (#[trigger] rest[k]).account_indices.len() <= 0xFFFF
                && rest[k].data.len() <= 0xFFFF);
        lemma_p_ixs_at(pre + ser_ix(x0), rest, suf);
        assert((pre + ser_ix(x0)) + ser_ixs(rest) + suf =~= b);
        assert(p_ixs(b, (pre + ser_ix(x0)).len() as int, rest.len() as int) == Some(
            (rest, ((pre + ser_ix(x0)).len() + ser_ixs(rest).len()) as int),
        ));
        assert(p_ixs(b, pre.len() as int, ixs.len() as int) == Some(
            (seq![x0] + rest, (pre.len() + ser_ix(x0).len() + ser_ixs(rest).len()) as int),
        ));
        assert(seq![x0] + rest =~= ixs);
    }
}

#[verifier::rlimit(100)]
#[verifier::spinoff_prover]
proof fn lemma_p_message_at(pre: Seq<u8>, m: MessageV, suf: Seq<u8>)
    requires
        wf_message(m),
    ensures
        p_message(pre + ser_message(m) + suf, pre.len() as int) == Some(
            (m, (pre.len() + ser_message(m).len()) as int),
        ),
{
    let h1 = seq![m.num_required_signatures];
    let h2 = seq![m.num_readonly_signed];
    let h3 = seq![m.num_readonly_unsigned];
    let s4 = le16(m.account_keys.len() as int);
    let s5 = flat(m.account_keys);
    let s6 = m.recent_anchor;
    let s7 = le16(m.instructions.len() as int);
    let s8 = ser_ixs(m.instructions);
    let b = pre + ser_message(m) + suf;
    assert(pre + h1 + (h2 + h3 + s4 + s5 + s6 + s7 + s8 + suf) =~= b);
    lemma_p_u8_at(pre, m.num_required_signatures, h2 + h3 + s4 + s5 + s6 + s7 + s8 + suf);
    assert(p_u8(b, pre.len() as int) == Some((m.num_required_signatures, pre.len() as int + 1)));
    let p1 = pre + h1;
    assert(p1 + h2 + (h3 + s4 + s5 + s6 + s7 + s8 + suf) =~= b);
    lemma_p_u8_at(p1, m.num_readonly_signed, h3 + s4 + s5 + s6 + s7 + s8 + suf);
    assert(p_u8(b, p1.len() as int) == Some((m.num_readonly_signed, p1.len() as int + 1)));
    let p2 = p1 + h2;
    assert(p2 + h3 + (s4 + s5 + s6 + s7 + s8 + suf) =~= b);
    lemma_p_u8_at(p2, m.num_readonly_unsigned, s4 + s5 + s6 + s7 + s8 + suf);
    assert(p_u8(b, p2.len() as int) == Some((m.num_readonly_unsigned, p2.len() as int + 1)));
    let p3 = p2 + h3;
    assert(p3 + s4 + (s5 + s6 + s7 + s8 + suf) =~= b);
    lemma_p_u16_at(p3, m.account_keys.len() as int, s5 + s6 + s7 + s8 + suf);
    assert(p_u16(b, p3.len() as int) == Some(
        ((m.account_keys.len() as u16), p3.len() as int + 2),
    ));
    let p4 = p3 + s4;
    assert(p4 + s5 + (s6 + s7 + s8 + suf) =~= b);
    lemma_p_chunks_at(p4, m.account_keys, s6 + s7 + s8 + suf, 32);
    assert(((m.account_keys.len() as u16) as int) == m.account_keys.len() as int);
    assert(p_chunks(b, p4.len() as int, m.account_keys.len() as int, 32) == Some(
        (m.account_keys, (p4.len() + s5.len()) as int),
    ));
    let p5 = p4 + s5;
    assert(p5 + s6 + (s7 + s8 + suf) =~= b);
    lemma_p_bytes_at(p5, s6, s7 + s8 + suf);
    assert(s6.len() == 32);
    assert(p_bytes(b, p5.len() as int, 32) == Some((s6, (p5.len() + 32) as int)));
    let p6 = p5 + s6;
    assert(p6 + s7 + (s8 + suf) =~= b);
    lemma_p_u16_at(p6, m.instructions.len() as int, s8 + suf);
    assert(p_u16(b, p6.len() as int) == Some(
        ((m.instructions.len() as u16), p6.len() as int + 2),
    ));
    let p7 = p6 + s7;
    assert(p7 + s8 + suf =~= b);
    assert(forall|k: int|
        0 <= k < m.instructions.len() ==> (#[trigger] m.instructions[k]).account_indices.len()
            <= 0xFFFF && m.instructions[k].data.len() <= 0xFFFF) by {
        assert(forall|k: int|
            0 <= k < m.instructions.len() ==> wf_compiled_ix(
                #[trigger] m.instructions[k],
                m.account_keys.len() as int,
            ));
    };
    lemma_p_ixs_at(p7, m.instructions, suf);
    assert(((m.instructions.len() as u16) as int) == m.instructions.len() as int);
    assert(p_ixs(b, p7.len() as int, m.instructions.len() as int) == Some(
        (m.instructions, (p7.len() + s8.len()) as int),
    ));
    assert(p_message(b, pre.len() as int) == Some(
        (
            MessageV {
                num_required_signatures: m.num_required_signatures,
                num_readonly_signed: m.num_readonly_signed,
                num_readonly_unsigned: m.num_readonly_unsigned,
                account_keys: m.account_keys,
                recent_anchor: s6,
                instructions: m.instructions,
            },
            (p7.len() + s8.len()) as int,
        ),
    ));
    assert(MessageV {
        num_required_signatures: m.num_required_signatures,
        num_readonly_signed: m.num_readonly_signed,
        num_readonly_unsigned: m.num_readonly_unsigned,
        account_keys: m.account_keys,
        recent_anchor: s6,
        instructions: m.instructions,
    } == m);
    assert(p7.len() + s8.len() == pre.len() + ser_message(m).len());
}

/// Round trip: deserializing what `serialize_transaction` wrote for a
/// well-formed transaction yields exactly that transaction.
pub proof fn lemma_transaction_round_trip(t: TransactionV)
    requires
        wf_transaction(t),
    ensures
        p_transaction(ser_transaction(t)) == Some(t),
{
    let b = ser_transaction(t);
    let s1 = le16(t.signatures.len() as int);
    let s2 = flat(t.signatures);
    let s3 = ser_message(t.message);
    let nil = Seq::<u8>::empty();
    assert(nil + s1 + (s2 + s3) =~= b);
    lemma_p_u16_at(nil, t.signatures.len() as int, s2 + s3);
    assert(p_u16(b, 0) == Some(((t.signatures.len() as u16), 2int)));
    let p1 = nil + s1;
    assert(p1.len() == 2);
    assert(p1 + s2 + s3 =~= b);
    lemma_p_chunks_at(p1, t.signatures, s3, 64);
    assert(((t.signatures.len() as u16) as int) == t.signatures.len() as int);
    assert(p_chunks(b, 2, t.signatures.len() as int, 64) == Some(
        (t.signatures, (p1.len() + s2.len()) as int),
    ));
    let p2 = p1 + s2;
    assert(p2 + s3 + nil =~= b);
    lemma_p_message_at(p2, t.message, nil);
    assert(p_message(b, p2.len() as int) == Some(
        (t.message, (p2.len() + s3.len()) as int),
    ));
    assert(p2.len() + s3.len() == b.len());
    assert(TransactionV { signatures: t.signatures, message: t.message } == t);
}

} // verus!
