//! Resign orchestrator. The pipeline's decisions live here as a state
//! machine over plain values; the caller performs the outside work (file
//! reading, envelope parsing, anchor fetch, signing, submission) and hands
//! each outcome back as an event.

use vstd::prelude::*;
use crate::builder::{build_fits, build_transaction, built_transaction_v, instr_views};
use crate::codec::{p_transaction, ser_message, serialize_message};
use crate::decompile::{decompile_message, decompiled, indices_ok};
use crate::envelope::{base64_decoded, decode_base64, Envelope};
use crate::error::ResignError;
use crate::types::{
    Anchor, CompiledMessage, Instruction, MessageHeader, MessageV, Pubkey, Signature,
    SignedTransaction, TransactionV, wf_message, wf_transaction,
};

verus! {

/// Grouped: all instructions in one transaction. Split: one transaction
/// per instruction, submitted independently.
#[derive(Debug, Clone, Copy, PartialEq, Eq, Structural)]
pub enum Mode {
    Grouped,
    Split,
}

pub open spec fn tx_views(v: Seq<SignedTransaction>) -> Seq<TransactionV> {
    v.map_values(|t: SignedTransaction| t@)
}

/// What preparing the pipeline from a payload yields: the base64 decode,
/// the wire decode, the decompilation and the rebuild, in order, with the
/// error of the first step that refuses.
pub open spec fn prepare_spec(payload: Seq<char>, payer: Seq<u8>, grouped: bool) -> Result<
    Seq<TransactionV>,
    ResignError,
> {
    match base64_decoded(payload) {
        None => Err(ResignError::EncodingError),
        Some(b) => match p_transaction(b) {
            None => Err(ResignError::DecodeError),
            Some(tv) => {
                let ins = decompiled(tv.message);
                if grouped {
                    if build_fits(ins, payer) {
                        Ok(seq![built_transaction_v(ins, payer)])
                    } else {
                        Err(ResignError::MalformedMessageError)
                    }
                } else {
                    if forall|i: int|
                        0 <= i < ins.len() ==> build_fits(seq![ins[i]], payer) {
                        Ok(
                            Seq::new(
                                ins.len(),
                                |i: int| built_transaction_v(seq![ins[i]], payer),
                            ),
                        )
                    } else {
                        Err(ResignError::MalformedMessageError)
                    }
                }
            },
        },
    }
}

/// Decodes the payload, deserializes the transaction, decompiles its
/// message and rebuilds one transaction (grouped) or one per instruction
/// (split) under the fee payer. Returns exactly what `prepare_spec` says.
/// An instruction set that needs more distinct keys than a one-byte table
/// index can address cannot be recompiled; that is reported as a
/// malformed-message failure.
pub fn prepare_transactions(payload: &str, fee_payer: &Pubkey, grouped: bool) -> (r: Result<
    Vec<SignedTransaction>,
    ResignError,
>)
    requires
        fee_payer.wf(),
    ensures
        match r {
            Ok(v) => prepare_spec(payload@, fee_payer@, grouped) == Ok::<_, ResignError>(
                tx_views(v@),
            ) && (forall|i: int|
                0 <= i < v@.len() ==> wf_transaction(#[trigger] v@[i]@)
                    && v@[i]@.message.num_required_signatures >= 1),
            Err(e) => prepare_spec(payload@, fee_payer@, grouped) == Err::<Seq<TransactionV>, _>(
                e,
            ),
        },
{
    let bytes = match decode_base64(payload) {
        Ok(b) => b,
        Err(e) => {
            return Err(e);
        },
    };
    let tx = match crate::codec::deserialize_transaction(&bytes) {
        Ok(t) => t,
        Err(e) => {
            return Err(e);
        },
    };
    proof {
        assert(wf_message(tx@.message));
        assert(indices_ok(tx@.message)) by {
            assert forall|i: int|
                0 <= i < tx@.message.instructions.len() implies crate::decompile::ix_indices_ok(
                tx@.message,
                #[trigger] tx@.message.instructions[i],
            ) by {
                assert(crate::types::wf_compiled_ix(
                    tx@.message.instructions[i],
                    tx@.message.account_keys.len() as int,
                ));
            };
        };
    }
    let instrs = match decompile_message(&tx.message) {
        Ok(v) => v,
        Err(_) => {
            return Err(ResignError::MalformedMessageError);
        },
    };
    let ghost ins = decompiled(tx@.message);
    assert(instr_views(instrs@) == ins);
    proof {
        assert forall|i: int| 0 <= i < instrs@.len() implies (
        #[trigger] instrs@[i]).wf() by {
            assert(instrs@[i]@ == ins[i]);
            assert(ins[i] == crate::decompile::decompiled_ix(
                tx@.message,
                tx@.message.instructions[i],
            ));
            assert(crate::types::wf_compiled_ix(
                tx@.message.instructions[i],
                tx@.message.account_keys.len() as int,
            ));
            assert(tx@.message.account_keys[tx@.message.instructions[i].program_id_index as int].len()
                == 32);
            assert forall|j: int| 0 <= j < ins[i].accounts.len() implies (
            #[trigger] ins[i].accounts[j]).key.len() == 32 by {
                assert((tx@.message.instructions[i].account_indices[j] as int)
                    < tx@.message.account_keys.len());
            };
        };
        assert(instrs@.len() <= 0xFFFF);
    }
    if grouped {
        match build_transaction(&instrs, fee_payer) {
            Some(t) => {
                let mut v: Vec<SignedTransaction> = Vec::new();
                v.push(t);
                assert(tx_views(v@) =~= seq![built_transaction_v(ins, fee_payer@)]);
                Ok(v)
            },
            None => Err(ResignError::MalformedMessageError),
        }
    } else {
        let mut out: Vec<SignedTransaction> = Vec::new();
        let mut i: usize = 0;
        while i < instrs.len()
            invariant
                0 <= i <= instrs@.len(),
                fee_payer.wf(),
                grouped == false,
                base64_decoded(payload@) == Some(bytes@),
                p_transaction(bytes@) == Some(tx@),
                ins == decompiled(tx@.message),
                instr_views(instrs@) == ins,
                instrs@.len() == ins.len(),
                forall|q: int| 0 <= q < instrs@.len() ==> (#[trigger] instrs@[q]).wf(),
                out@.len() == i,
                forall|q: int| 0 <= q < i ==> build_fits(seq![ins[q]], fee_payer@),
                forall|q: int|
                    0 <= q < i ==> (#[trigger] out@[q])@ == built_transaction_v(
                        seq![ins[q]],
                        fee_payer@,
                    ) && wf_transaction(out@[q]@)
                        && out@[q]@.message.num_required_signatures >= 1,
            decreases instrs@.len() - i,
        {
            let mut single: Vec<Instruction> = Vec::new();
            single.push(instrs[i].dup());
            assert(instr_views(single@) =~= seq![ins[i as int]]);
            match build_transaction(&single, fee_payer) {
                Some(t) => {
                    proof {
                        crate::builder::lemma_fee_payer_first(seq![ins[i as int]], fee_payer@);
                    }
                    out.push(t);
                },
                None => {
                    assert(!build_fits(seq![ins[i as int]], fee_payer@));
                    assert(!(forall|q: int|
                        0 <= q < ins.len() ==> build_fits(seq![ins[q]], fee_payer@))) by {
                        if forall|q: int|
                            0 <= q < ins.len() ==> build_fits(seq![ins[q]], fee_payer@) {
                            assert(build_fits(seq![ins[i as int]], fee_payer@));
                        }
                    };
                    return Err(ResignError::MalformedMessageError);
                },
            }
            i = i + 1;
        }
        assert(tx_views(out@) =~= Seq::new(
            ins.len(),
            |q: int| built_transaction_v(seq![ins[q]], fee_payer@),
        ));
        Ok(out)
    }
}

/// The orchestrator's phases, in pipeline order, with one absorbing
/// failure phase.
#[derive(Debug, Clone, Copy, PartialEq, Eq, Structural)]
pub enum Phase {
    /// Waiting for the parsed request envelope.
    NeedEnvelope,
    /// A transaction is staged; a fresh recency anchor is needed.
    NeedAnchor,
    /// The anchor is set; the fee payer's signature over the message bytes
    /// is needed.
    NeedSignature,
    /// The transaction is signed; a submission outcome is needed.
    NeedSubmit,
    /// Every staged transaction was confirmed or recorded as failed.
    Done,
    /// A hard failure ended the run.
    Failed,
}

/// One resign run: the staged transactions and the step the pipeline
/// waits on. The caller performs each outside action and reports its
/// outcome through the event methods.
pub struct Run {
    pub mode: Mode,
    pub fee_payer: Pubkey,
    /// Built transactions not yet processed, in input order.
    pub pending: Vec<SignedTransaction>,
    /// The transaction being processed; meaningful in the three
    /// per-transaction phases.
    pub current: SignedTransaction,
    /// Submissions confirmed so far.
    pub confirmed: usize,
    /// Transactions recorded as failed and passed over (split mode).
    pub skipped: usize,
    pub phase: Phase,
    /// The hard failure, when `phase` is `Failed`.
    pub failure: Option<ResignError>,
}

impl Run {
    /// The run's invariant: staged transactions are well-formed with at
    /// least one signature slot, and a failure is recorded exactly in the
    /// failed phase.
    /// How a run moves past a finished transaction: with the queue empty
    /// it is done, with the queue non-empty the old head is staged for a
    /// fresh anchor and the queue becomes its tail.
    pub open spec fn advanced_from(post: Run, pre: Run) -> bool {
        &&& pre.pending@.len() == 0 ==> post.phase == Phase::Done && post.pending@
            == pre.pending@
        &&& pre.pending@.len() > 0 ==> post.phase == Phase::NeedAnchor && post.current
            == pre.pending@[0] && post.pending@ == pre.pending@.drop_first()
    }

    /// 1 when a transaction is staged in a per-transaction phase.
    pub open spec fn in_flight(&self) -> int {
        if self.phase == Phase::NeedAnchor || self.phase == Phase::NeedSignature || self.phase
            == Phase::NeedSubmit {
            1
        } else {
            0
        }
    }

    pub open spec fn wf(&self) -> bool {
        &&& self.fee_payer.wf()
        &&& self.confirmed + self.skipped + self.pending@.len() + self.in_flight()
            <= usize::MAX
        &&& forall|i: int|
            0 <= i < self.pending@.len() ==> wf_transaction((#[trigger] self.pending@[i])@)
                && self.pending@[i]@.message.num_required_signatures >= 1
        &&& (self.phase == Phase::NeedAnchor || self.phase == Phase::NeedSignature || self.phase
            == Phase::NeedSubmit) ==> (wf_transaction(self.current@)
            && self.current@.message.num_required_signatures >= 1)
        &&& (self.phase == Phase::Failed) == (self.failure is Some)
    }

    /// Starts a run in the given mode under the given fee payer.
    pub fn start(mode: Mode, fee_payer: Pubkey) -> (r: Run)
        requires
            fee_payer.wf(),
        ensures
            r.wf(),
            r.mode == mode,
            r.fee_payer@ == fee_payer@,
            r.phase == Phase::NeedEnvelope,
            r.pending@.len() == 0,
            r.confirmed == 0,
            r.skipped == 0,
    {
        Run {
            mode: mode,
            fee_payer: fee_payer,
            pending: Vec::new(),
            current: empty_transaction(),
            confirmed: 0,
            skipped: 0,
            phase: Phase::NeedEnvelope,
            failure: None,
        }
    }

    /// Stages the next pending transaction, or finishes the run.
    fn advance(&mut self)
        requires
            old(self).fee_payer.wf(),
            forall|i: int|
                0 <= i < old(self).pending@.len() ==> wf_transaction(
                    (#[trigger] old(self).pending@[i])@,
                ) && old(self).pending@[i]@.message.num_required_signatures >= 1,
            old(self).confirmed + old(self).skipped + old(self).pending@.len() <= usize::MAX,
            old(self).failure is None,
        ensures
            final(self).wf(),
            final(self).mode == old(self).mode,
            final(self).fee_payer == old(self).fee_payer,
            final(self).confirmed == old(self).confirmed,
            final(self).skipped == old(self).skipped,
            final(self).failure is None,
            old(self).pending@.len() == 0 ==> final(self).phase == Phase::Done
                && final(self).pending@ == old(self).pending@,
            old(self).pending@.len() > 0 ==> final(self).phase == Phase::NeedAnchor
                && final(self).current == old(self).pending@[0]
                && final(self).pending@ == old(self).pending@.drop_first(),
    {
        if self.pending.len() == 0 {
            self.phase = Phase::Done;
        } else {
            let tx = self.pending.remove(0);
            assert(wf_transaction(tx@) && tx@.message.num_required_signatures >= 1) by {
                assert(tx == old(self).pending@[0]);
            };
            self.current = tx;
            self.phase = Phase::NeedAnchor;
            assert(self.pending@ =~= old(self).pending@.drop_first());
        }
    }

    /// Consumes the parsed envelope (or its absence), runs the pure
    /// pipeline, and stages the built transactions. A missing envelope is
    /// a malformed request; any pipeline error becomes the run's failure.
    pub fn on_envelope(&mut self, env: Option<&Envelope>)
        requires
            old(self).wf(),
            old(self).phase == Phase::NeedEnvelope,
            old(self).confirmed == 0,
            old(self).skipped == 0,
        ensures
            final(self).wf(),
            final(self).mode == old(self).mode,
            final(self).fee_payer == old(self).fee_payer,
            final(self).confirmed == 0,
            final(self).skipped == 0,
            match env {
                None => final(self).phase == Phase::Failed && final(self).failure == Some(
                    ResignError::FormatError,
                ),
                Some(e) => match prepare_spec(
                    e.payload@,
                    old(self).fee_payer@,
                    old(self).mode == Mode::Grouped,
                ) {
                    Err(err) => final(self).phase == Phase::Failed && final(self).failure
                        == Some(err),
                    Ok(ts) => {
                        &&& ts.len() == 0 ==> final(self).phase == Phase::Done
                        &&& ts.len() > 0 ==> final(self).phase == Phase::NeedAnchor && final(self).current@ == ts[0] && tx_views(final(self).pending@)
                            == ts.drop_first()
                    },
                },
            },
    {
        match env {
            None => {
                self.phase = Phase::Failed;
                self.failure = Some(ResignError::FormatError);
            },
            Some(e) => {
                let grouped = match self.mode {
                    Mode::Grouped => true,
                    Mode::Split => false,
                };
                match prepare_transactions(e.payload.as_str(), &self.fee_payer, grouped) {
                    Err(err) => {
                        self.phase = Phase::Failed;
                        self.failure = Some(err);
                    },
                    Ok(v) => {
                        let ghost ts = tx_views(v@);
                        self.pending = v;
                        let _staged: usize = self.pending.len();
                        assert(self.pending@.len() <= usize::MAX);
                        self.advance();
                        proof {
                            if ts.len() > 0 {
                                assert(tx_views(self.pending@) =~= ts.drop_first());
                            }
                        }
                    },
                }
            },
        }
    }

    /// The bytes the fee payer must sign: the staged message, serialized.
    pub fn message_bytes(&self) -> (r: Vec<u8>)
        requires
            self.wf(),
            self.phase == Phase::NeedSignature,
        ensures
            r@ == ser_message(self.current@.message),
    {
        serialize_message(&self.current.message)
    }

    /// Consumes the anchor fetch's outcome. Success stamps the anchor into
    /// the staged message, ready for signing; failure, an endpoint error,
    /// aborts the run in grouped mode — before any signing — and records
    /// the transaction as failed and passes over it in split mode.
    pub fn on_anchor(&mut self, anchor: Option<&Anchor>)
        requires
            old(self).wf(),
            old(self).phase == Phase::NeedAnchor,
            anchor matches Some(a) ==> a.wf(),
        ensures
            final(self).wf(),
            final(self).mode == old(self).mode,
            final(self).fee_payer == old(self).fee_payer,
            match anchor {
                Some(a) => final(self).phase == Phase::NeedSignature && final(self).current@
                    == (TransactionV {
                    signatures: old(self).current@.signatures,
                    message: MessageV { recent_anchor: a@, ..old(self).current@.message },
                }) && final(self).pending@ == old(self).pending@,
                None => {
                    &&& old(self).mode == Mode::Grouped ==> final(self).phase == Phase::Failed
                        && final(self).failure == Some(ResignError::EndpointError) && final(self).current == old(self).current
                    &&& old(self).mode == Mode::Split ==> final(self).skipped == old(
                        self,
                    ).skipped + 1 && (final(self).phase == Phase::Done || final(self).phase
                        == Phase::NeedAnchor)
                },
            },
    {
        match anchor {
            Some(a) => {
                self.current.message.recent_anchor = a.dup();
                self.phase = Phase::NeedSignature;
                assert(self.current@.message =~= (MessageV {
                    recent_anchor: a@,
                    ..old(self).current@.message
                }));
                assert(self.current@ =~= (TransactionV {
                    signatures: old(self).current@.signatures,
                    message: MessageV { recent_anchor: a@, ..old(self).current@.message },
                }));
            },
            None => {
                match self.mode {
                    Mode::Grouped => {
                        self.phase = Phase::Failed;
                        self.failure = Some(ResignError::EndpointError);
                    },
                    Mode::Split => {
                        self.skipped = self.skipped + 1;
                        self.advance();
                    },
                }
            },
        }
    }

    /// Consumes the signing outcome. Success places the signature in the
    /// fee payer's slot 0; failure, a key-load error, aborts the run in
    /// grouped mode and passes over the transaction in split mode.
    pub fn on_signature(&mut self, sig: Option<&Signature>)
        requires
            old(self).wf(),
            old(self).phase == Phase::NeedSignature,
            sig matches Some(s) ==> s.wf(),
        ensures
            final(self).wf(),
            final(self).mode == old(self).mode,
            final(self).fee_payer == old(self).fee_payer,
            match sig {
                Some(s) => final(self).phase == Phase::NeedSubmit && final(self).current@
                    == (TransactionV {
                    signatures: old(self).current@.signatures.update(0, s@),
                    message: old(self).current@.message,
                }) && final(self).pending@ == old(self).pending@,
                None => {
                    &&& old(self).mode == Mode::Grouped ==> final(self).phase == Phase::Failed
                        && final(self).failure == Some(ResignError::KeyLoadError)
                    &&& old(self).mode == Mode::Split ==> final(self).skipped == old(
                        self,
                    ).skipped + 1 && (final(self).phase == Phase::Done || final(self).phase
                        == Phase::NeedAnchor)
                },
            },
    {
        match sig {
            Some(s) => {
                assert(self.current.signatures@.len() >= 1);
                self.current.signatures.set(0, s.dup());
                self.phase = Phase::NeedSubmit;
                assert(self.current@.signatures =~= old(self).current@.signatures.update(
                    0,
                    s@,
                ));
                assert(self.current@ =~= (TransactionV {
                    signatures: old(self).current@.signatures.update(0, s@),
                    message: old(self).current@.message,
                }));
            },
            None => {
                match self.mode {
                    Mode::Grouped => {
                        self.phase = Phase::Failed;
                        self.failure = Some(ResignError::KeyLoadError);
                    },
                    Mode::Split => {
                        self.skipped = self.skipped + 1;
                        self.advance();
                    },
                }
            },
        }
    }

    /// Consumes the submission outcome. Confirmation counts the
    /// transaction and moves on; a submission failure ends the run in
    /// grouped mode and is recorded and passed over in split mode.
    pub fn on_submission(&mut self, confirmed: bool)
        requires
            old(self).wf(),
            old(self).phase == Phase::NeedSubmit,
        ensures
            final(self).wf(),
            final(self).mode == old(self).mode,
            final(self).fee_payer == old(self).fee_payer,
            confirmed ==> final(self).confirmed == old(self).confirmed + 1 && final(self).skipped == old(self).skipped && Self::advanced_from(*final(self), *old(self)),
            !confirmed ==> final(self).confirmed == old(self).confirmed && {
                &&& old(self).mode == Mode::Grouped ==> final(self).phase == Phase::Failed
                    && final(self).failure == Some(ResignError::EndpointError) && final(self).pending@ == old(self).pending@ && final(self).skipped == old(self).skipped
                &&& old(self).mode == Mode::Split ==> final(self).skipped == old(self).skipped
                    + 1 && Self::advanced_from(*final(self), *old(self))
            },
    {
        if confirmed {
            self.confirmed = self.confirmed + 1;
            self.advance();
        } else {
            match self.mode {
                Mode::Grouped => {
                    self.phase = Phase::Failed;
                    self.failure = Some(ResignError::EndpointError);
                },
                Mode::Split => {
                    self.skipped = self.skipped + 1;
                    self.advance();
                },
            }
        }
    }
}

/// A placeholder transaction for the phases in which none is staged.
fn empty_transaction() -> (r: SignedTransaction)
    ensures
        r@.signatures.len() == 0,
        r@.message.instructions.len() == 0,
{
    SignedTransaction {
        signatures: Vec::new(),
        message: CompiledMessage {
            header: MessageHeader {
                num_required_signatures: 0,
                num_readonly_signed: 0,
                num_readonly_unsigned: 0,
            },
            account_keys: Vec::new(),
            recent_anchor: Anchor { bytes: Vec::new() },
            instructions: Vec::new(),
        },
    }
}

} // verus!
