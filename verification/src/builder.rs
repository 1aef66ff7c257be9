//! Transaction builder: assembles fully-qualified instructions plus a
//! chosen fee payer into a new unsigned transaction. The fee payer always
//! lands at table index 0, signer and writable; every other referenced key
//! is deduplicated into a single entry whose flags are the disjunction of
//! the flags every referencing instruction gave it; the table is laid out
//! in the four-partition order the header counts describe.

use vstd::prelude::*;
use crate::types::{
    AccountRef, AccountRefV, CompiledInstruction, CompiledInstructionV, CompiledMessage,
    Instruction, InstructionV, MessageHeader, MessageV, Pubkey, Signature, SignedTransaction,
    TransactionV, keys_distinct, wf_transaction,
};

verus! {

// ---------------------------------------------------------------------------
// Specification: which keys an instruction set references, with what flags.
// ---------------------------------------------------------------------------

pub open spec fn instr_views(v: Seq<Instruction>) -> Seq<InstructionV> {
    v.map_values(|x: Instruction| x@)
}

/// The keys one instruction mentions: its account keys in order, then its
/// program id.
pub open spec fn ix_keys(ix: InstructionV) -> Seq<Seq<u8>> {
    ix.accounts.map_values(|a: AccountRefV| a.key).push(ix.program_id)
}

/// Every key the instruction set mentions, in order of appearance, with
/// duplicates.
pub open spec fn all_keys(instrs: Seq<InstructionV>) -> Seq<Seq<u8>>
    decreases instrs.len(),
{
    if instrs.len() == 0 {
        Seq::empty()
    } else {
        ix_keys(instrs[0]) + all_keys(instrs.drop_first())
    }
}

/// First occurrences, in order.
pub open spec fn dedup(s: Seq<Seq<u8>>) -> Seq<Seq<u8>>
    decreases s.len(),
{
    if s.len() == 0 {
        Seq::empty()
    } else {
        let d = dedup(s.drop_last());
        if d.contains(s.last()) {
            d
        } else {
            d.push(s.last())
        }
    }
}

/// Whether account reference `a` gives key `k` the asked-for flag.
pub open spec fn acct_marks(a: AccountRefV, k: Seq<u8>, want_signer: bool) -> bool {
    a.key == k && (if want_signer {
        a.is_signer
    } else {
        a.is_writable
    })
}

pub open spec fn ix_marks(ix: InstructionV, k: Seq<u8>, want_signer: bool) -> bool {
    exists|j: int| 0 <= j < ix.accounts.len() && acct_marks(#[trigger] ix.accounts[j], k, want_signer)
}

pub open spec fn key_marked_upto(
    instrs: Seq<InstructionV>,
    k: Seq<u8>,
    want_signer: bool,
    n: int,
) -> bool {
    exists|i: int| 0 <= i < n && ix_marks(#[trigger] instrs[i], k, want_signer)
}

/// Merge semantics: a key is a signer when any referencing instruction
/// marks it one.
pub open spec fn key_signer(instrs: Seq<InstructionV>, k: Seq<u8>) -> bool {
    key_marked_upto(instrs, k, true, instrs.len() as int)
}

/// Merge semantics: a key is writable when any referencing instruction
/// marks it writable.
pub open spec fn key_writable(instrs: Seq<InstructionV>, k: Seq<u8>) -> bool {
    key_marked_upto(instrs, k, false, instrs.len() as int)
}

/// One four-way partition segment: the deduplicated non-payer keys whose
/// merged flags are exactly (`ws`, `ww`), in first-appearance order.
pub open spec fn seg_pred(
    instrs: Seq<InstructionV>,
    payer: Seq<u8>,
    ws: bool,
    ww: bool,
) -> spec_fn(Seq<u8>) -> bool {
    |k: Seq<u8>| k != payer && key_signer(instrs, k) == ws && key_writable(instrs, k) == ww
}

pub open spec fn seg(
    uniq: Seq<Seq<u8>>,
    instrs: Seq<InstructionV>,
    payer: Seq<u8>,
    ws: bool,
    ww: bool,
) -> Seq<Seq<u8>> {
    uniq.filter(seg_pred(instrs, payer, ws, ww))
}

/// The built account-key table: fee payer first, then the four partitions.
pub open spec fn built_keys(instrs: Seq<InstructionV>, payer: Seq<u8>) -> Seq<Seq<u8>> {
    let uniq = dedup(all_keys(instrs));
    seq![payer] + seg(uniq, instrs, payer, true, true) + seg(uniq, instrs, payer, true, false)
        + seg(uniq, instrs, payer, false, true) + seg(uniq, instrs, payer, false, false)
}

pub open spec fn built_num_required(instrs: Seq<InstructionV>, payer: Seq<u8>) -> int {
    let uniq = dedup(all_keys(instrs));
    1 + seg(uniq, instrs, payer, true, true).len() as int + seg(uniq, instrs, payer, true, false).len() as int
}

pub open spec fn built_readonly_signed(instrs: Seq<InstructionV>, payer: Seq<u8>) -> int {
    seg(dedup(all_keys(instrs)), instrs, payer, true, false).len() as int
}

pub open spec fn built_readonly_unsigned(instrs: Seq<InstructionV>, payer: Seq<u8>) -> int {
    seg(dedup(all_keys(instrs)), instrs, payer, false, false).len() as int
}

/// The first position of `k` in `s`.
pub open spec fn idx_of(s: Seq<Seq<u8>>, k: Seq<u8>) -> int
    decreases s.len(),
{
    if s.len() == 0 {
        0
    } else if s[0] == k {
        0
    } else {
        1 + idx_of(s.drop_first(), k)
    }
}

pub open spec fn zeros(n: nat) -> Seq<u8> {
    Seq::new(n, |i: int| 0u8)
}

/// One instruction in compiled form against a key table.
pub open spec fn compiled_of(ix: InstructionV, keys: Seq<Seq<u8>>) -> CompiledInstructionV {
    CompiledInstructionV {
        program_id_index: idx_of(keys, ix.program_id) as u8,
        account_indices: ix.accounts.map_values(|a: AccountRefV| idx_of(keys, a.key) as u8),
        data: ix.data,
    }
}

/// The message the builder produces: deduplicated partitioned table, a
/// vacant (all-zero) anchor to be replaced before signing, and the input
/// instructions compiled against the table, in order.
pub open spec fn built_message_v(instrs: Seq<InstructionV>, payer: Seq<u8>) -> MessageV {
    let keys = built_keys(instrs, payer);
    MessageV {
        num_required_signatures: built_num_required(instrs, payer) as u8,
        num_readonly_signed: built_readonly_signed(instrs, payer) as u8,
        num_readonly_unsigned: built_readonly_unsigned(instrs, payer) as u8,
        account_keys: keys,
        recent_anchor: zeros(32),
        instructions: Seq::new(instrs.len() as nat, |i: int| compiled_of(instrs[i], keys)),
    }
}

/// The unsigned transaction the builder produces: one vacant signature
/// slot per required signer.
pub open spec fn built_transaction_v(instrs: Seq<InstructionV>, payer: Seq<u8>) -> TransactionV {
    TransactionV {
        signatures: Seq::new(built_num_required(instrs, payer) as nat, |i: int| zeros(64)),
        message: built_message_v(instrs, payer),
    }
}

/// Whether the instruction set fits one transaction: every table index,
/// and the signer count, must fit the wire format's single byte.
pub open spec fn build_fits(instrs: Seq<InstructionV>, payer: Seq<u8>) -> bool {
    built_keys(instrs, payer).len() <= 255
}


// ---------------------------------------------------------------------------
// Lemmas about the specification.
// ---------------------------------------------------------------------------

pub open spec fn key_views(s: Seq<Pubkey>) -> Seq<Seq<u8>> {
    s.map_values(|p: Pubkey| p@)
}

pub open spec fn cix_views(s: Seq<CompiledInstruction>) -> Seq<CompiledInstructionV> {
    s.map_values(|x: CompiledInstruction| x@)
}

proof fn lemma_all_keys_push(s: Seq<InstructionV>, x: InstructionV)
    ensures
        all_keys(s.push(x)) == all_keys(s) + ix_keys(x),
    decreases s.len(),
{
    if s.len() == 0 {
        assert(s.push(x)[0] == x);
        assert(s.push(x).drop_first() =~= Seq::<InstructionV>::empty());
        assert(all_keys(s.push(x).drop_first()) == Seq::<Seq<u8>>::empty());
        assert(all_keys(s.push(x)) =~= all_keys(s) + ix_keys(x));
    } else {
        assert(s.push(x)[0] == s[0]);
        assert(s.push(x).drop_first() =~= s.drop_first().push(x));
        lemma_all_keys_push(s.drop_first(), x);
        assert(all_keys(s.push(x).drop_first()) == all_keys(s.drop_first()) + ix_keys(x));
        assert(all_keys(s.push(x)) =~= all_keys(s) + ix_keys(x));
    }
}

/// Every key an instruction mentions occurs in `all_keys`.
proof fn lemma_all_keys_contains_ix(instrs: Seq<InstructionV>, i: int)
    requires
        0 <= i < instrs.len(),
    ensures
        all_keys(instrs).contains(instrs[i].program_id),
        forall|j: int|
            0 <= j < instrs[i].accounts.len() ==> all_keys(instrs).contains(
                (#[trigger] instrs[i].accounts[j]).key,
            ),
    decreases i,
{
    let head = ix_keys(instrs[0]);
    let rest = all_keys(instrs.drop_first());
    assert(all_keys(instrs) == head + rest);
    if i == 0 {
        assert(head[head.len() - 1] == instrs[0].program_id);
        assert((head + rest)[head.len() - 1] == instrs[0].program_id);
        assert(all_keys(instrs).contains(instrs[0].program_id));
        assert forall|j: int| 0 <= j < instrs[0].accounts.len() implies all_keys(
            instrs,
        ).contains((#[trigger] instrs[0].accounts[j]).key) by {
            assert(head[j] == instrs[0].accounts[j].key);
            assert((head + rest)[j] == instrs[0].accounts[j].key);
        };
    } else {
        lemma_all_keys_contains_ix(instrs.drop_first(), i - 1);
        assert(instrs.drop_first()[i - 1] == instrs[i]);
        let pid = instrs[i].program_id;
        let wi = choose|w: int| 0 <= w < rest.len() && rest[w] == pid;
        assert((head + rest)[head.len() + wi] == pid);
        assert(all_keys(instrs).contains(pid));
        assert forall|j: int| 0 <= j < instrs[i].accounts.len() implies all_keys(
            instrs,
        ).contains((#[trigger] instrs[i].accounts[j]).key) by {
            let k = instrs[i].accounts[j].key;
            assert(rest.contains(k));
            let w2 = choose|w: int| 0 <= w < rest.len() && rest[w] == k;
            assert((head + rest)[head.len() + w2] == k);
        };
    }
}

proof fn lemma_dedup_contains(s: Seq<Seq<u8>>, x: Seq<u8>)
    requires
        s.contains(x),
    ensures
        dedup(s).contains(x),
    decreases s.len(),
{
    let d = dedup(s.drop_last());
    if s.last() == x {
        if d.contains(x) {
        } else {
            assert(dedup(s) == d.push(x));
            assert(dedup(s)[d.len() as int] == x);
        }
    } else {
        let w = choose|w: int| 0 <= w < s.len() && s[w] == x;
        assert(w < s.len() - 1);
        assert(s.drop_last()[w] == x);
        assert(s.drop_last().contains(x));
        lemma_dedup_contains(s.drop_last(), x);
        let w2 = choose|w2: int| 0 <= w2 < d.len() && d[w2] == x;
        if d.contains(s.last()) {
        } else {
            assert(dedup(s)[w2] == x);
        }
    }
}

proof fn lemma_filter_contains(s: Seq<Seq<u8>>, pred: spec_fn(Seq<u8>) -> bool, x: Seq<u8>)
    requires
        s.contains(x),
        pred(x),
    ensures
        s.filter(pred).contains(x),
    decreases s.len(),
{
    reveal(Seq::filter);
    let sub = s.drop_last().filter(pred);
    if s.last() == x {
        assert(s.filter(pred) == sub.push(x));
        assert(s.filter(pred)[sub.len() as int] == x);
    } else {
        let w = choose|w: int| 0 <= w < s.len() && s[w] == x;
        assert(w < s.len() - 1);
        assert(s.drop_last()[w] == x);
        assert(s.drop_last().contains(x));
        lemma_filter_contains(s.drop_last(), pred, x);
        let w2 = choose|w2: int| 0 <= w2 < sub.len() && sub[w2] == x;
        if pred(s.last()) {
            assert(s.filter(pred)[w2] == x);
        }
    }
}

/// A key the deduplicated list holds stands somewhere in the built table.
proof fn lemma_built_contains(instrs: Seq<InstructionV>, payer: Seq<u8>, k: Seq<u8>)
    requires
        dedup(all_keys(instrs)).contains(k) || k == payer,
    ensures
        built_keys(instrs, payer).contains(k),
{
    let uniq = dedup(all_keys(instrs));
    let s0 = seg(uniq, instrs, payer, true, true);
    let s1 = seg(uniq, instrs, payer, true, false);
    let s2 = seg(uniq, instrs, payer, false, true);
    let s3 = seg(uniq, instrs, payer, false, false);
    let b = built_keys(instrs, payer);
    assert(b == seq![payer] + s0 + s1 + s2 + s3);
    if k == payer {
        assert(b[0] == payer);
        assert(b.contains(k));
    } else {
        let ws = key_signer(instrs, k);
        let ww = key_writable(instrs, k);
        let pred = seg_pred(instrs, payer, ws, ww);
        assert(pred(k));
        lemma_filter_contains(uniq, pred, k);
        let sx = uniq.filter(pred);
        let w = choose|w: int| 0 <= w < sx.len() && sx[w] == k;
        if ws {
            if ww {
                assert(sx == s0);
                assert(b[1 + w] == k);
            } else {
                assert(sx == s1);
                assert(b[1 + s0.len() + w] == k);
            }
        } else {
            if ww {
                assert(sx == s2);
                assert(b[1 + s0.len() + s1.len() + w] == k);
            } else {
                assert(sx == s3);
                assert(b[1 + s0.len() + s1.len() + s2.len() + w] == k);
            }
        }
        assert(b.contains(k));
    }
}

/// Every element a filter keeps came from the filtered list.
proof fn lemma_filter_subset(s: Seq<Seq<u8>>, pred: spec_fn(Seq<u8>) -> bool)
    ensures
        forall|i: int|
            0 <= i < s.filter(pred).len() ==> s.contains(#[trigger] s.filter(pred)[i]),
    decreases s.len(),
{
    reveal(Seq::filter);
    if s.len() > 0 {
        lemma_filter_subset(s.drop_last(), pred);
        let sub = s.drop_last().filter(pred);
        assert forall|i: int|
            0 <= i < s.filter(pred).len() implies s.contains(#[trigger] s.filter(pred)[i]) by {
            if i < sub.len() {
                assert(s.filter(pred)[i] == sub[i]);
                assert(s.drop_last().contains(sub[i]));
                let w = choose|w: int| 0 <= w < s.drop_last().len() && s.drop_last()[w] == sub[i];
                assert(s[w] == sub[i]);
            } else {
                assert(s.filter(pred)[i] == s.last());
                assert(s[s.len() - 1] == s.last());
            }
        };
    }
}

/// Deduplication leaves no key at two positions.
proof fn lemma_dedup_distinct(s: Seq<Seq<u8>>)
    ensures
        keys_distinct(dedup(s)),
    decreases s.len(),
{
    if s.len() > 0 {
        lemma_dedup_distinct(s.drop_last());
        let d = dedup(s.drop_last());
        if !d.contains(s.last()) {
            assert forall|i: int, j: int|
                0 <= i < j < dedup(s).len() implies dedup(s)[i] != dedup(s)[j] by {
                if j == d.len() {
                    assert(dedup(s)[i] == d[i]);
                    if d[i] == s.last() {
                        assert(d.contains(s.last()));
                    }
                } else {
                    assert(dedup(s)[i] == d[i] && dedup(s)[j] == d[j]);
                }
            };
        }
    }
}

/// Filtering a deduplicated list leaves it deduplicated.
proof fn lemma_filter_distinct(s: Seq<Seq<u8>>, pred: spec_fn(Seq<u8>) -> bool)
    requires
        keys_distinct(s),
    ensures
        keys_distinct(s.filter(pred)),
    decreases s.len(),
{
    reveal(Seq::filter);
    if s.len() > 0 {
        assert(keys_distinct(s.drop_last())) by {
            assert forall|i: int, j: int|
                0 <= i < j < s.drop_last().len() implies s.drop_last()[i] != s.drop_last()[j] by {
                assert(s[i] != s[j]);
            };
        };
        lemma_filter_distinct(s.drop_last(), pred);
        lemma_filter_subset(s.drop_last(), pred);
        let sub = s.drop_last().filter(pred);
        if pred(s.last()) {
            assert forall|i: int, j: int|
                0 <= i < j < s.filter(pred).len() implies s.filter(pred)[i] != s.filter(
                pred,
            )[j] by {
                if j == sub.len() {
                    assert(s.filter(pred)[i] == sub[i]);
                    assert(s.drop_last().contains(sub[i]));
                    let w = choose|w: int|
                        0 <= w < s.drop_last().len() && s.drop_last()[w] == sub[i];
                    assert(s[w] == sub[i]);
                    assert(s[w] != s[s.len() - 1]);
                } else {
                    assert(s.filter(pred)[i] == sub[i] && s.filter(pred)[j] == sub[j]);
                }
            };
        }
    }
}

/// The built table holds each key at one position only.
proof fn lemma_built_keys_distinct(instrs: Seq<InstructionV>, payer: Seq<u8>)
    ensures
        keys_distinct(built_keys(instrs, payer)),
{
    let uniq = dedup(all_keys(instrs));
    let s0 = seg(uniq, instrs, payer, true, true);
    let s1 = seg(uniq, instrs, payer, true, false);
    let s2 = seg(uniq, instrs, payer, false, true);
    let s3 = seg(uniq, instrs, payer, false, false);
    let b = built_keys(instrs, payer);
    assert(b == seq![payer] + s0 + s1 + s2 + s3);
    lemma_dedup_distinct(all_keys(instrs));
    lemma_filter_distinct(uniq, seg_pred(instrs, payer, true, true));
    lemma_filter_distinct(uniq, seg_pred(instrs, payer, true, false));
    lemma_filter_distinct(uniq, seg_pred(instrs, payer, false, true));
    lemma_filter_distinct(uniq, seg_pred(instrs, payer, false, false));
    // each non-payer position carries its segment's exact flag pair
    assert forall|p: int, q: int| 0 <= p < q < b.len() implies b[p] != b[q] by {
        if p > 0 {
            lemma_seg_entry(instrs, payer, p);
        }
        lemma_seg_entry(instrs, payer, q);
        if p == 0 {
            // payer against a segment entry, which the predicate excludes
        } else {
            let (wsp, wwp) = seg_coords(instrs, payer, p);
            let (wsq, wwq) = seg_coords(instrs, payer, q);
            if wsp == wsq && wwp == wwq {
                // same segment: two offsets of one deduplicated filter
                assert(b[p] != b[q]);
            } else {
                // different segments: the merged flags would disagree
                if b[p] == b[q] {
                    assert(key_signer(instrs, b[p]) == wsp && key_signer(instrs, b[q]) == wsq);
                    assert(key_writable(instrs, b[p]) == wwp && key_writable(instrs, b[q])
                        == wwq);
                }
            }
        }
    };
}

/// The segment a table position past the payer falls in, as its flag pair.
spec fn seg_coords(instrs: Seq<InstructionV>, payer: Seq<u8>, p: int) -> (bool, bool) {
    let uniq = dedup(all_keys(instrs));
    let s0 = seg(uniq, instrs, payer, true, true);
    let s1 = seg(uniq, instrs, payer, true, false);
    let s2 = seg(uniq, instrs, payer, false, true);
    if p < 1 + s0.len() {
        (true, true)
    } else if p < 1 + s0.len() + s1.len() {
        (true, false)
    } else if p < 1 + s0.len() + s1.len() + s2.len() {
        (false, true)
    } else {
        (false, false)
    }
}

/// A table position past the payer holds a key of its segment: not the
/// payer, merged flags equal to the segment's pair, and equal to that
/// segment's entry at the position's offset.
proof fn lemma_seg_entry(instrs: Seq<InstructionV>, payer: Seq<u8>, p: int)
    requires
        1 <= p < built_keys(instrs, payer).len(),
    ensures
        built_keys(instrs, payer)[p] != payer,
        key_signer(instrs, built_keys(instrs, payer)[p]) == seg_coords(instrs, payer, p).0,
        key_writable(instrs, built_keys(instrs, payer)[p]) == seg_coords(instrs, payer, p).1,
{
    let uniq = dedup(all_keys(instrs));
    let s0 = seg(uniq, instrs, payer, true, true);
    let s1 = seg(uniq, instrs, payer, true, false);
    let s2 = seg(uniq, instrs, payer, false, true);
    let s3 = seg(uniq, instrs, payer, false, false);
    let b = built_keys(instrs, payer);
    assert(b == seq![payer] + s0 + s1 + s2 + s3);
    if p < 1 + s0.len() {
        let i = p - 1;
        assert(b[p] == s0[i]);
        uniq.lemma_filter_pred(seg_pred(instrs, payer, true, true), i);
        assert(seg_pred(instrs, payer, true, true)(s0[i]));
    } else if p < 1 + s0.len() + s1.len() {
        let i = p - 1 - s0.len();
        assert(b[p] == s1[i]);
        uniq.lemma_filter_pred(seg_pred(instrs, payer, true, false), i);
        assert(seg_pred(instrs, payer, true, false)(s1[i]));
    } else if p < 1 + s0.len() + s1.len() + s2.len() {
        let i = p - 1 - s0.len() - s1.len();
        assert(b[p] == s2[i]);
        uniq.lemma_filter_pred(seg_pred(instrs, payer, false, true), i);
        assert(seg_pred(instrs, payer, false, true)(s2[i]));
    } else {
        let i = p - 1 - s0.len() - s1.len() - s2.len();
        assert(b[p] == s3[i]);
        uniq.lemma_filter_pred(seg_pred(instrs, payer, false, false), i);
        assert(seg_pred(instrs, payer, false, false)(s3[i]));
    }
}

/// `idx_of` finds the first position of a present key.
proof fn lemma_idx_of_first(s: Seq<Seq<u8>>, k: Seq<u8>, r: int)
    requires
        0 <= r < s.len(),
        s[r] == k,
        forall|q: int| 0 <= q < r ==> s[q] != k,
    ensures
        idx_of(s, k) == r,
    decreases r,
{
    if r == 0 {
    } else {
        assert(s[0] != k);
        assert(s.drop_first()[r - 1] == k);
        lemma_idx_of_first(s.drop_first(), k, r - 1);
    }
}

/// A present key is found in range, at itself.
proof fn lemma_idx_of_contains(s: Seq<Seq<u8>>, k: Seq<u8>)
    requires
        s.contains(k),
    ensures
        0 <= idx_of(s, k) < s.len(),
        s[idx_of(s, k)] == k,
    decreases s.len(),
{
    if s[0] == k {
    } else {
        let w = choose|w: int| 0 <= w < s.len() && s[w] == k;
        assert(s.drop_first()[w - 1] == k);
        assert(s.drop_first().contains(k));
        lemma_idx_of_contains(s.drop_first(), k);
    }
}

/// Extending the scanned range of instructions by one.
proof fn lemma_marked_step(instrs: Seq<InstructionV>, k: Seq<u8>, ws: bool, i: int)
    requires
        0 <= i < instrs.len(),
    ensures
        key_marked_upto(instrs, k, ws, i + 1) == (key_marked_upto(instrs, k, ws, i) || ix_marks(
            instrs[i],
            k,
            ws,
        )),
{
    if key_marked_upto(instrs, k, ws, i + 1) {
        let w = choose|w: int| 0 <= w < i + 1 && ix_marks(#[trigger] instrs[w], k, ws);
        if w < i {
            assert(key_marked_upto(instrs, k, ws, i));
        } else {
            assert(ix_marks(instrs[i], k, ws));
        }
    }
    if key_marked_upto(instrs, k, ws, i) {
        let w = choose|w: int| 0 <= w < i && ix_marks(#[trigger] instrs[w], k, ws);
        assert(0 <= w < i + 1 && ix_marks(instrs[w], k, ws));
        assert(key_marked_upto(instrs, k, ws, i + 1));
    }
    if ix_marks(instrs[i], k, ws) {
        assert(0 <= i < i + 1 && ix_marks(instrs[i], k, ws));
        assert(key_marked_upto(instrs, k, ws, i + 1));
    }
}


// ---------------------------------------------------------------------------
// Executable builder.
// ---------------------------------------------------------------------------

fn contains_key(v: &Vec<Pubkey>, k: &Pubkey) -> (r: bool)
    ensures
        r == key_views(v@).contains(k@),
{
    let mut p: usize = 0;
    while p < v.len()
        invariant
            0 <= p <= v@.len(),
            forall|q: int| 0 <= q < p ==> (#[trigger] v@[q])@ != k@,
        decreases v@.len() - p,
    {
        if v[p].same_as(k) {
            assert(key_views(v@)[p as int] == k@);
            assert(key_views(v@).contains(k@));
            return true;
        }
        p = p + 1;
    }
    assert(!key_views(v@).contains(k@)) by {
        if key_views(v@).contains(k@) {
            let w = choose|w: int| 0 <= w < key_views(v@).len() && key_views(v@)[w] == k@;
            assert(v@[w]@ != k@);
        }
    };
    false
}

/// Computes a key's merged flags: marked signer anywhere, marked writable
/// anywhere.
fn key_flags(instructions: &Vec<Instruction>, k: &Pubkey) -> (r: (bool, bool))
    ensures
        r.0 == key_signer(instr_views(instructions@), k@),
        r.1 == key_writable(instr_views(instructions@), k@),
{
    let ghost ivs = instr_views(instructions@);
    let mut fs: bool = false;
    let mut fw: bool = false;
    let mut i: usize = 0;
    while i < instructions.len()
        invariant
            0 <= i <= instructions@.len(),
            ivs == instr_views(instructions@),
            ivs.len() == instructions@.len(),
            fs == key_marked_upto(ivs, k@, true, i as int),
            fw == key_marked_upto(ivs, k@, false, i as int),
        decreases instructions@.len() - i,
    {
        let ix = &instructions[i];
        let mut is_s: bool = false;
        let mut is_w: bool = false;
        let mut j: usize = 0;
        while j < ix.accounts.len()
            invariant
                0 <= j <= ix@.accounts.len(),
                ix@ == ivs[i as int],
                0 <= i < ivs.len(),
                ix@.accounts.len() == ix.accounts@.len(),
                is_s == (exists|q: int|
                    0 <= q < j && acct_marks(#[trigger] ix@.accounts[q], k@, true)),
                is_w == (exists|q: int|
                    0 <= q < j && acct_marks(#[trigger] ix@.accounts[q], k@, false)),
            decreases ix@.accounts.len() - j,
        {
            let a = &ix.accounts[j];
            if a.key.same_as(k) {
                if a.is_signer {
                    assert(acct_marks(ix@.accounts[j as int], k@, true));
                    is_s = true;
                }
                if a.is_writable {
                    assert(acct_marks(ix@.accounts[j as int], k@, false));
                    is_w = true;
                }
            }
            j = j + 1;
        }
        assert(is_s == ix_marks(ivs[i as int], k@, true));
        assert(is_w == ix_marks(ivs[i as int], k@, false));
        proof {
            lemma_marked_step(ivs, k@, true, i as int);
            lemma_marked_step(ivs, k@, false, i as int);
        }
        fs = fs || is_s;
        fw = fw || is_w;
        i = i + 1;
    }
    (fs, fw)
}

/// Appends to the table every deduplicated key whose merged flags are
/// exactly (`ws`, `ww`), fee payer excluded, in first-appearance order.
fn pass_push(
    table: &mut Vec<Pubkey>,
    uniq: &Vec<Pubkey>,
    instructions: &Vec<Instruction>,
    payer: &Pubkey,
    ws: bool,
    ww: bool,
)
    requires
        forall|p: int| 0 <= p < uniq@.len() ==> (#[trigger] uniq@[p])@.len() == 32,
        forall|p: int| 0 <= p < old(table)@.len() ==> (#[trigger] old(table)@[p])@.len() == 32,
    ensures
        key_views(final(table)@) == key_views(old(table)@) + seg(
            key_views(uniq@),
            instr_views(instructions@),
            payer@,
            ws,
            ww,
        ),
        forall|p: int| 0 <= p < final(table)@.len() ==> (#[trigger] final(table)@[p])@.len() == 32,
{
    let ghost ivs = instr_views(instructions@);
    let ghost uv = key_views(uniq@);
    let ghost pred = seg_pred(ivs, payer@, ws, ww);
    let mut u: usize = 0;
    while u < uniq.len()
        invariant
            0 <= u <= uniq@.len(),
            ivs == instr_views(instructions@),
            uv == key_views(uniq@),
            uv.len() == uniq@.len(),
            pred == seg_pred(ivs, payer@, ws, ww),
            forall|p: int| 0 <= p < uniq@.len() ==> (#[trigger] uniq@[p])@.len() == 32,
            forall|p: int| 0 <= p < table@.len() ==> (#[trigger] table@[p])@.len() == 32,
            key_views(table@) == key_views(old(table)@) + uv.take(u as int).filter(pred),
        decreases uniq@.len() - u,
    {
        let (fs, fw) = key_flags(instructions, &uniq[u]);
        let ghost before = key_views(table@);
        proof {
            reveal(Seq::filter);
            assert(uv.take(u + 1 as int).drop_last() =~= uv.take(u as int));
            assert(uv.take(u + 1 as int).last() == uv[u as int]);
        }
        if !uniq[u].same_as(payer) && fs == ws && fw == ww {
            assert(pred(uv[u as int]));
            table.push(uniq[u].dup());
            assert(key_views(table@) =~= before.push(uv[u as int]));
            assert(uv.take(u + 1 as int).filter(pred) == uv.take(u as int).filter(pred).push(
                uv[u as int],
            ));
            assert(key_views(table@) =~= key_views(old(table)@) + uv.take(u + 1 as int).filter(
                pred,
            ));
        } else {
            assert(!pred(uv[u as int]));
            assert(uv.take(u + 1 as int).filter(pred) == uv.take(u as int).filter(pred));
        }
        u = u + 1;
    }
    assert(uv.take(uv.len() as int) =~= uv);
}

/// A vector of `n` zero bytes.
fn zero_bytes(n: usize) -> (r: Vec<u8>)
    ensures
        r@ == zeros(n as nat),
{
    let mut r: Vec<u8> = Vec::new();
    let mut i: usize = 0;
    while i < n
        invariant
            0 <= i <= n,
            r@.len() == i,
            forall|q: int| 0 <= q < i ==> r@[q] == 0u8,
        decreases n - i,
    {
        r.push(0u8);
        i = i + 1;
    }
    assert(r@ =~= zeros(n as nat));
    r
}

/// Finds the first table position holding `k`.
fn find_key(table: &Vec<Pubkey>, k: &Pubkey) -> (r: usize)
    requires
        key_views(table@).contains(k@),
    ensures
        0 <= r < table@.len(),
        r as int == idx_of(key_views(table@), k@),
        key_views(table@)[r as int] == k@,
{
    let ghost tv = key_views(table@);
    let mut p: usize = 0;
    while p < table.len()
        invariant
            0 <= p <= table@.len(),
            tv == key_views(table@),
            tv.len() == table@.len(),
            tv.contains(k@),
            forall|q: int| 0 <= q < p ==> tv[q] != k@,
        decreases table@.len() - p,
    {
        if table[p].same_as(k) {
            proof {
                lemma_idx_of_first(tv, k@, p as int);
            }
            return p;
        }
        assert(tv[p as int] != k@);
        p = p + 1;
    }
    proof {
        let w = choose|w: int| 0 <= w < tv.len() && tv[w] == k@;
        assert(tv[w] != k@);
        assert(false);
    }
    0
}

/// Builds one unsigned transaction from the instruction set and fee payer.
/// Succeeds exactly when the deduplicated table fits the wire format's
/// one-byte indices; the result is `built_transaction_v` exactly.
pub fn build_transaction(instructions: &Vec<Instruction>, fee_payer: &Pubkey) -> (r: Option<
    SignedTransaction,
>)
    requires
        fee_payer.wf(),
        forall|i: int| 0 <= i < instructions@.len() ==> (#[trigger] instructions@[i]).wf(),
        instructions@.len() <= 0xFFFF,
    ensures
        r is Some <==> build_fits(instr_views(instructions@), fee_payer@),
        r matches Some(t) ==> t@ == built_transaction_v(instr_views(instructions@), fee_payer@)
            && wf_transaction(t@),
{
    let ghost ivs = instr_views(instructions@);
    // 1. Deduplicated keys, in order of first appearance.
    let mut uniq: Vec<Pubkey> = Vec::new();
    let ghost mut seen: Seq<Seq<u8>> = Seq::empty();
    assert(key_views(uniq@) =~= dedup(seen));
    let mut i: usize = 0;
    while i < instructions.len()
        invariant
            0 <= i <= instructions@.len(),
            ivs == instr_views(instructions@),
            ivs.len() == instructions@.len(),
            forall|q: int| 0 <= q < ivs.len() ==> (#[trigger] instructions@[q]).wf(),
            key_views(uniq@) == dedup(seen),
            seen == all_keys(ivs.take(i as int)),
            forall|p: int| 0 <= p < uniq@.len() ==> (#[trigger] uniq@[p])@.len() == 32,
            forall|p: int| 0 <= p < seen.len() ==> (#[trigger] seen[p]).len() == 32,
        decreases instructions@.len() - i,
    {
        let ix = &instructions[i];
        let ghost ixv = ivs[i as int];
        proof {
            assert(ixv == instructions@[i as int]@);
            assert(instructions@[i as int].wf());
            assert forall|q2: int| 0 <= q2 < ixv.accounts.len() implies (
            #[trigger] ixv.accounts[q2]).key.len() == 32 by {
                assert(instructions@[i as int]@.accounts[q2].key.len() == 32);
            };
            assert(ixv.program_id.len() == 32) by {
                assert(instructions@[i as int]@.program_id.len() == 32);
            };
        }
        let mut j: usize = 0;
        while j < ix.accounts.len()
            invariant
                0 <= j <= ix@.accounts.len(),
                ix@ == ixv,
                0 <= i < ivs.len(),
                ivs == instr_views(instructions@),
                instructions@[i as int].wf(),
                ixv.program_id.len() == 32,
                forall|q2: int|
                    0 <= q2 < ixv.accounts.len() ==> (#[trigger] ixv.accounts[q2]).key.len()
                        == 32,
                ix@.accounts.len() == ix.accounts@.len(),
                key_views(uniq@) == dedup(seen),
                seen == all_keys(ivs.take(i as int)) + ixv.accounts.take(j as int).map_values(
                    |a: AccountRefV| a.key,
                ),
                forall|p: int| 0 <= p < uniq@.len() ==> (#[trigger] uniq@[p])@.len() == 32,
                forall|p: int| 0 <= p < seen.len() ==> (#[trigger] seen[p]).len() == 32,
            decreases ix@.accounts.len() - j,
        {
            let a = &ix.accounts[j];
            let ghost k = ixv.accounts[j as int].key;
            assert(a.key@ == k);
            assert(k.len() == 32);
            proof {
                assert(seen.push(k).drop_last() =~= seen);
                assert(seen.push(k).last() == k);
            }
            if !contains_key(&uniq, &a.key) {
                uniq.push(a.key.dup());
                assert(key_views(uniq@) =~= dedup(seen).push(k));
            }
            proof {
                seen = seen.push(k);
                assert(key_views(uniq@) == dedup(seen));
                assert(ixv.accounts.take(j + 1 as int).map_values(|a2: AccountRefV| a2.key)
                    =~= ixv.accounts.take(j as int).map_values(|a2: AccountRefV| a2.key).push(
                    k,
                ));
                assert(seen =~= all_keys(ivs.take(i as int)) + ixv.accounts.take(
                    j + 1 as int,
                ).map_values(|a2: AccountRefV| a2.key));
            }
            j = j + 1;
        }
        let ghost pk = ixv.program_id;
        assert(ix.program_id@ == pk);
        assert(pk.len() == 32);
        proof {
            assert(seen.push(pk).drop_last() =~= seen);
            assert(seen.push(pk).last() == pk);
        }
        if !contains_key(&uniq, &ix.program_id) {
            uniq.push(ix.program_id.dup());
            assert(key_views(uniq@) =~= dedup(seen).push(pk));
        }
        proof {
            seen = seen.push(pk);
            assert(key_views(uniq@) == dedup(seen));
            assert(ixv.accounts.take(ixv.accounts.len() as int) =~= ixv.accounts);
            assert(seen =~= all_keys(ivs.take(i as int)) + ix_keys(ixv));
            lemma_all_keys_push(ivs.take(i as int), ixv);
            assert(ivs.take(i as int).push(ixv) =~= ivs.take(i + 1 as int));
            assert(seen =~= all_keys(ivs.take(i + 1 as int)));
        }
        i = i + 1;
    }
    proof {
        assert(ivs.take(ivs.len() as int) =~= ivs);
    }
    let ghost uniqd = dedup(all_keys(ivs));
    assert(key_views(uniq@) == uniqd);
    // 2. The table: fee payer first, then the four partitions.
    let mut table: Vec<Pubkey> = Vec::new();
    table.push(fee_payer.dup());
    assert(key_views(table@) =~= seq![fee_payer@]);
    pass_push(&mut table, &uniq, instructions, fee_payer, true, true);
    let len1 = table.len();
    pass_push(&mut table, &uniq, instructions, fee_payer, true, false);
    let len2 = table.len();
    pass_push(&mut table, &uniq, instructions, fee_payer, false, true);
    let len3 = table.len();
    pass_push(&mut table, &uniq, instructions, fee_payer, false, false);
    let ghost s0 = seg(uniqd, ivs, fee_payer@, true, true);
    let ghost s1 = seg(uniqd, ivs, fee_payer@, true, false);
    let ghost s2 = seg(uniqd, ivs, fee_payer@, false, true);
    let ghost s3 = seg(uniqd, ivs, fee_payer@, false, false);
    let ghost keysv = built_keys(ivs, fee_payer@);
    assert(key_views(table@) =~= keysv);
    assert(len1 == 1 + s0.len());
    assert(len2 == 1 + s0.len() + s1.len());
    assert(len3 == 1 + s0.len() + s1.len() + s2.len());
    assert(table@.len() == keysv.len());
    if table.len() > 255 {
        return None;
    }
    // 3. Header counts from the partition boundaries.
    let n_req: u8 = len2 as u8;
    let n_ro_signed: u8 = (len2 - len1) as u8;
    let n_ro_unsigned: u8 = (table.len() - len3) as u8;
    assert(n_req as int == built_num_required(ivs, fee_payer@));
    assert(n_ro_signed as int == built_readonly_signed(ivs, fee_payer@));
    assert(n_ro_unsigned as int == built_readonly_unsigned(ivs, fee_payer@));
    // 4. Compile each instruction against the table.
    let mut cixs: Vec<CompiledInstruction> = Vec::new();
    let mut q: usize = 0;
    while q < instructions.len()
        invariant
            0 <= q <= instructions@.len(),
            ivs == instr_views(instructions@),
            ivs.len() == instructions@.len(),
            forall|w: int| 0 <= w < ivs.len() ==> (#[trigger] instructions@[w]).wf(),
            keysv == built_keys(ivs, fee_payer@),
            key_views(table@) == keysv,
            table@.len() == keysv.len(),
            table@.len() <= 255,
            cixs@.len() == q,
            forall|w: int|
                0 <= w < q ==> (#[trigger] cixs@[w])@ == compiled_of(ivs[w], keysv),
        decreases instructions@.len() - q,
    {
        let ix = &instructions[q];
        let ghost ixv = ivs[q as int];
        proof {
            lemma_all_keys_contains_ix(ivs, q as int);
            lemma_dedup_contains(all_keys(ivs), ixv.program_id);
            lemma_built_contains(ivs, fee_payer@, ixv.program_id);
        }
        let pidx = find_key(&table, &ix.program_id);
        let mut inds: Vec<u8> = Vec::new();
        let mut j: usize = 0;
        while j < ix.accounts.len()
            invariant
                0 <= j <= ix@.accounts.len(),
                ix@ == ixv,
                0 <= q < ivs.len(),
                ixv == ivs[q as int],
                ivs == instr_views(instructions@),
                ix@.accounts.len() == ix.accounts@.len(),
                keysv == built_keys(ivs, fee_payer@),
                key_views(table@) == keysv,
                table@.len() == keysv.len(),
                table@.len() <= 255,
                inds@.len() == j,
                forall|w: int|
                    0 <= w < j ==> (#[trigger] inds@[w]) as int == idx_of(
                        keysv,
                        ixv.accounts[w].key,
                    ),
            decreases ix@.accounts.len() - j,
        {
            let ghost k = ixv.accounts[j as int].key;
            proof {
                lemma_all_keys_contains_ix(ivs, q as int);
                assert(all_keys(ivs).contains((ivs[q as int].accounts[j as int]).key));
                assert(all_keys(ivs).contains(k));
                lemma_dedup_contains(all_keys(ivs), k);
                lemma_built_contains(ivs, fee_payer@, k);
            }
            let p = find_key(&table, &ix.accounts[j].key);
            inds.push(p as u8);
            j = j + 1;
        }
        let data = crate::types::clone_bytes(&ix.data);
        let cix = CompiledInstruction {
            program_id_index: pidx as u8,
            account_indices: inds,
            data: data,
        };
        assert(cix@.account_indices =~= compiled_of(ixv, keysv).account_indices);
        assert(cix@ =~= compiled_of(ixv, keysv));
        cixs.push(cix);
        q = q + 1;
    }
    // 5. Assemble: vacant anchor, vacant signature slots.
    let mut keys_final: Vec<Pubkey> = table;
    let msg = CompiledMessage {
        header: MessageHeader {
            num_required_signatures: n_req,
            num_readonly_signed: n_ro_signed,
            num_readonly_unsigned: n_ro_unsigned,
        },
        account_keys: keys_final,
        recent_anchor: crate::types::Anchor { bytes: zero_bytes(32) },
        instructions: cixs,
    };
    let mut sigs: Vec<Signature> = Vec::new();
    let mut sct: usize = 0;
    while sct < (n_req as usize)
        invariant
            0 <= sct <= n_req as int,
            sigs@.len() == sct,
            forall|w: int| 0 <= w < sct ==> (#[trigger] sigs@[w])@ == zeros(64),
        decreases n_req as int - sct,
    {
        sigs.push(Signature { bytes: zero_bytes(64) });
        sct = sct + 1;
    }
    let t = SignedTransaction { signatures: sigs, message: msg };
    proof {
        let bt = built_transaction_v(ivs, fee_payer@);
        assert(t@.message.account_keys == keysv);
        assert(t@.message.instructions =~= bt.message.instructions);
        assert(t@.signatures =~= bt.signatures);
        assert(t@.message =~= bt.message);
        assert(t@ =~= bt);
        // well-formedness of the built transaction
        assert(keysv.len() <= 255);
        assert(forall|p: int| 0 <= p < keysv.len() ==> (#[trigger] keysv[p]).len() == 32);
        assert(forall|w: int|
            0 <= w < t@.message.instructions.len() ==> crate::types::wf_compiled_ix(
                #[trigger] t@.message.instructions[w],
                keysv.len() as int,
            )) by {
            assert forall|w: int| 0 <= w < ivs.len() implies crate::types::wf_compiled_ix(
                compiled_of(ivs[w], keysv),
                keysv.len() as int,
            ) by {
                lemma_all_keys_contains_ix(ivs, w);
                lemma_dedup_contains(all_keys(ivs), ivs[w].program_id);
                lemma_built_contains(ivs, fee_payer@, ivs[w].program_id);
                lemma_idx_of_contains(keysv, ivs[w].program_id);
                assert(instructions@[w].wf());
                assert forall|j2: int|
                    0 <= j2 < compiled_of(ivs[w], keysv).account_indices.len() implies (
                #[trigger] compiled_of(ivs[w], keysv).account_indices[j2] as int)
                    < keysv.len() as int by {
                    lemma_dedup_contains(all_keys(ivs), ivs[w].accounts[j2].key);
                    lemma_built_contains(ivs, fee_payer@, ivs[w].accounts[j2].key);
                    lemma_idx_of_contains(keysv, ivs[w].accounts[j2].key);
                };
            };
        };
        lemma_built_keys_distinct(ivs, fee_payer@);
        assert(wf_transaction(t@));
    }
    Some(t)
}


// ---------------------------------------------------------------------------
// Laws of the builder.
// ---------------------------------------------------------------------------

/// The program id a compiled instruction of a message resolves to.
pub open spec fn resolved_program(m: MessageV, q: int) -> Seq<u8> {
    m.account_keys[m.instructions[q].program_id_index as int]
}

/// The account keys a compiled instruction of a message resolves to, in
/// order.
pub open spec fn resolved_keys(m: MessageV, q: int) -> Seq<Seq<u8>> {
    m.instructions[q].account_indices.map_values(|x: u8| m.account_keys[x as int])
}

/// Fee-payer injection: whenever the build fits, the fee payer stands at
/// table index 0 of the built message, as a required signer with write
/// access, whether or not that key occurs in the instructions.
pub proof fn lemma_fee_payer_first(instrs: Seq<InstructionV>, payer: Seq<u8>)
    requires
        build_fits(instrs, payer),
    ensures
        built_keys(instrs, payer).len() >= 1,
        built_keys(instrs, payer)[0] == payer,
        built_message_v(instrs, payer).num_required_signatures >= 1,
        crate::decompile::is_signer_at(built_message_v(instrs, payer), 0),
        crate::decompile::is_writable_at(built_message_v(instrs, payer), 0),
        forall|i: int|
            0 <= i < built_transaction_v(instrs, payer).signatures.len()
                ==> crate::types::sig_vacant(
                #[trigger] built_transaction_v(instrs, payer).signatures[i],
            ),
{
    let uniq = dedup(all_keys(instrs));
    let s0 = seg(uniq, instrs, payer, true, true);
    let s1 = seg(uniq, instrs, payer, true, false);
    let s2 = seg(uniq, instrs, payer, false, true);
    let s3 = seg(uniq, instrs, payer, false, false);
    let b = built_keys(instrs, payer);
    assert(b == seq![payer] + s0 + s1 + s2 + s3);
    assert(b[0] == payer);
    assert(b.len() == 1 + s0.len() + s1.len() + s2.len() + s3.len());
    let m = built_message_v(instrs, payer);
    assert(built_num_required(instrs, payer) == 1 + s0.len() + s1.len());
    assert(1 + s0.len() + s1.len() <= b.len() <= 255);
    assert(m.num_required_signatures as int == 1 + s0.len() + s1.len());
    assert(m.num_readonly_signed as int == s1.len());
}

/// Resolution: whenever the build fits, its `i`-th compiled instruction
/// resolves, through the built table, to the `i`-th input instruction's
/// own program id, account keys in order, and data; and each referenced
/// account's partition flags read back as the fee payer's or the key's
/// merged flags over the whole instruction set.
pub proof fn lemma_built_resolves(instrs: Seq<InstructionV>, payer: Seq<u8>, i: int)
    requires
        0 <= i < instrs.len(),
        build_fits(instrs, payer),
    ensures
        built_message_v(instrs, payer).instructions.len() == instrs.len(),
        resolved_program(built_message_v(instrs, payer), i) == instrs[i].program_id,
        resolved_keys(built_message_v(instrs, payer), i) == instrs[i].accounts.map_values(
            |a: AccountRefV| a.key,
        ),
        built_message_v(instrs, payer).instructions[i].data == instrs[i].data,
        built_message_v(instrs, payer).instructions[i].account_indices.len() == instrs[
            i
        ].accounts.len(),
        forall|j: int|
            0 <= j < instrs[i].accounts.len()
                ==> crate::decompile::is_signer_at(
                built_message_v(instrs, payer),
                built_message_v(instrs, payer).instructions[i].account_indices[j] as int,
            ) == ((#[trigger] instrs[i].accounts[j]).key == payer || key_signer(
                instrs,
                instrs[i].accounts[j].key,
            )) && crate::decompile::is_writable_at(
                built_message_v(instrs, payer),
                built_message_v(instrs, payer).instructions[i].account_indices[j] as int,
            ) == (instrs[i].accounts[j].key == payer || key_writable(
                instrs,
                instrs[i].accounts[j].key,
            )),
{
    let ix = instrs[i];
    let m = built_message_v(instrs, payer);
    let keys = built_keys(instrs, payer);
    assert(m.instructions[i] == compiled_of(ix, keys));
    lemma_all_keys_contains_ix(instrs, i);
    lemma_dedup_contains(all_keys(instrs), ix.program_id);
    lemma_built_contains(instrs, payer, ix.program_id);
    lemma_idx_of_contains(keys, ix.program_id);
    assert(keys.len() <= 255);
    assert(resolved_program(m, i) == ix.program_id);
    assert forall|j: int| 0 <= j < ix.accounts.len() implies resolved_keys(m, i)[j]
        == ix.accounts[j].key && crate::decompile::is_signer_at(
        m,
        m.instructions[i].account_indices[j] as int,
    ) == ((#[trigger] ix.accounts[j]).key == payer || key_signer(instrs, ix.accounts[j].key))
        && crate::decompile::is_writable_at(m, m.instructions[i].account_indices[j] as int) == (
    ix.accounts[j].key == payer || key_writable(instrs, ix.accounts[j].key)) by {
        let k = ix.accounts[j].key;
        assert(all_keys(instrs).contains((instrs[i].accounts[j]).key));
        lemma_dedup_contains(all_keys(instrs), k);
        lemma_built_contains(instrs, payer, k);
        lemma_idx_of_contains(keys, k);
        let p = idx_of(keys, k);
        assert(m.instructions[i].account_indices[j] == (p as u8));
        assert(((p as u8) as int) == p);
        assert(keys[p] == k);
        assert(keys[0] == payer);
        if k == payer {
            assert(keys[0] == k);
            lemma_idx_of_first(keys, k, 0);
            assert(p == 0);
        } else {
            assert(p != 0);
        }
        lemma_built_flags(instrs, payer, p);
    };
    assert(resolved_keys(m, i) =~= ix.accounts.map_values(|a: AccountRefV| a.key));
}

/// Split versus grouped equivalence: the `i`-th compiled instruction of
/// the grouped build resolves, through the grouped table, to the same
/// program id, the same account keys in the same order, and the same data
/// as the only compiled instruction of the `i`-th split build through its
/// own table; and a split build holds exactly one instruction.
pub proof fn lemma_split_grouped_agree(instrs: Seq<InstructionV>, payer: Seq<u8>, i: int)
    requires
        0 <= i < instrs.len(),
        build_fits(instrs, payer),
        build_fits(seq![instrs[i]], payer),
    ensures
        built_message_v(instrs, payer).instructions.len() == instrs.len(),
        built_message_v(seq![instrs[i]], payer).instructions.len() == 1,
        resolved_program(built_message_v(instrs, payer), i) == resolved_program(
            built_message_v(seq![instrs[i]], payer),
            0,
        ),
        resolved_keys(built_message_v(instrs, payer), i) == resolved_keys(
            built_message_v(seq![instrs[i]], payer),
            0,
        ),
        built_message_v(instrs, payer).instructions[i].data == built_message_v(
            seq![instrs[i]],
            payer,
        ).instructions[0].data,
        resolved_program(built_message_v(instrs, payer), i) == instrs[i].program_id,
        resolved_keys(built_message_v(instrs, payer), i) == instrs[i].accounts.map_values(
            |a: AccountRefV| a.key,
        ),
        built_message_v(instrs, payer).instructions[i].data == instrs[i].data,
{
    lemma_built_resolves(instrs, payer, i);
    assert(seq![instrs[i]].len() == 1);
    assert(seq![instrs[i]][0] == instrs[i]);
    lemma_built_resolves(seq![instrs[i]], payer, 0);
}


/// Split versus grouped flags: a referenced account reads back with the
/// same signer and writable flags from the `i`-th split build as from the
/// grouped build, whenever its merged flags over the single instruction
/// agree with its merged flags over the whole set; the fee payer always
/// does.
pub proof fn lemma_split_grouped_flags_agree(
    instrs: Seq<InstructionV>,
    payer: Seq<u8>,
    i: int,
    j: int,
)
    requires
        0 <= i < instrs.len(),
        0 <= j < instrs[i].accounts.len(),
        build_fits(instrs, payer),
        build_fits(seq![instrs[i]], payer),
        key_signer(instrs, instrs[i].accounts[j].key) == key_signer(
            seq![instrs[i]],
            instrs[i].accounts[j].key,
        ),
        key_writable(instrs, instrs[i].accounts[j].key) == key_writable(
            seq![instrs[i]],
            instrs[i].accounts[j].key,
        ),
    ensures
        crate::decompile::is_signer_at(
            built_message_v(instrs, payer),
            built_message_v(instrs, payer).instructions[i].account_indices[j] as int,
        ) == crate::decompile::is_signer_at(
            built_message_v(seq![instrs[i]], payer),
            built_message_v(seq![instrs[i]], payer).instructions[0].account_indices[j] as int,
        ),
        crate::decompile::is_writable_at(
            built_message_v(instrs, payer),
            built_message_v(instrs, payer).instructions[i].account_indices[j] as int,
        ) == crate::decompile::is_writable_at(
            built_message_v(seq![instrs[i]], payer),
            built_message_v(seq![instrs[i]], payer).instructions[0].account_indices[j] as int,
        ),
{
    lemma_built_resolves(instrs, payer, i);
    assert(seq![instrs[i]][0] == instrs[i]);
    lemma_built_resolves(seq![instrs[i]], payer, 0);
    assert(instrs[i].accounts[j] == seq![instrs[i]][0].accounts[j]);
}

/// Merge semantics are encoded by table position: a built table entry
/// past the fee payer is in the signer partition exactly when some
/// instruction marks that key a signer, and in a writable partition
/// exactly when some instruction marks it writable; position 0, the fee
/// payer, is always signer and writable.
pub proof fn lemma_built_flags(instrs: Seq<InstructionV>, payer: Seq<u8>, p: int)
    requires
        build_fits(instrs, payer),
        0 <= p < built_keys(instrs, payer).len(),
    ensures
        crate::decompile::is_signer_at(built_message_v(instrs, payer), p) == (p == 0
            || key_signer(instrs, built_keys(instrs, payer)[p])),
        crate::decompile::is_writable_at(built_message_v(instrs, payer), p) == (p == 0
            || key_writable(instrs, built_keys(instrs, payer)[p])),
{
    let uniq = dedup(all_keys(instrs));
    let s0 = seg(uniq, instrs, payer, true, true);
    let s1 = seg(uniq, instrs, payer, true, false);
    let s2 = seg(uniq, instrs, payer, false, true);
    let s3 = seg(uniq, instrs, payer, false, false);
    let b = built_keys(instrs, payer);
    let m = built_message_v(instrs, payer);
    assert(b == seq![payer] + s0 + s1 + s2 + s3);
    assert(b.len() == 1 + s0.len() + s1.len() + s2.len() + s3.len());
    assert(m.num_required_signatures as int == 1 + s0.len() + s1.len());
    assert(m.num_readonly_signed as int == s1.len());
    assert(m.num_readonly_unsigned as int == s3.len());
    assert(m.account_keys == b);
    if p == 0 {
    } else if p < 1 + s0.len() {
        let i = p - 1;
        assert(b[p] == s0[i]);
        uniq.lemma_filter_pred(seg_pred(instrs, payer, true, true), i);
        assert(seg_pred(instrs, payer, true, true)(s0[i]));
    } else if p < 1 + s0.len() + s1.len() {
        let i = p - 1 - s0.len();
        assert(b[p] == s1[i]);
        uniq.lemma_filter_pred(seg_pred(instrs, payer, true, false), i);
        assert(seg_pred(instrs, payer, true, false)(s1[i]));
    } else if p < 1 + s0.len() + s1.len() + s2.len() {
        let i = p - 1 - s0.len() - s1.len();
        assert(b[p] == s2[i]);
        uniq.lemma_filter_pred(seg_pred(instrs, payer, false, true), i);
        assert(seg_pred(instrs, payer, false, true)(s2[i]));
    } else {
        let i = p - 1 - s0.len() - s1.len() - s2.len();
        assert(b[p] == s3[i]);
        uniq.lemma_filter_pred(seg_pred(instrs, payer, false, false), i);
        assert(seg_pred(instrs, payer, false, false)(s3[i]));
    }
}

} // verus!
