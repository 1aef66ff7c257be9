//! Data model: 32-byte identifiers, signatures, fully-qualified
//! instructions, compiled messages and signed transactions, together with
//! their mathematical views and well-formedness predicates.

use vstd::prelude::*;

verus! {

/// A 32-byte account or program identifier.
#[derive(Debug, Clone, PartialEq, Eq)]
pub struct Pubkey {
    pub bytes: Vec<u8>,
}

impl View for Pubkey {
    type V = Seq<u8>;

    open spec fn view(&self) -> Seq<u8> {
        self.bytes@
    }
}

impl Pubkey {
    pub open spec fn wf(&self) -> bool {
        self@.len() == 32
    }
}

/// A 32-byte recency anchor: a short-lived hash a transaction must carry to
/// prove it was constructed recently.
#[derive(Debug, Clone, PartialEq, Eq)]
pub struct Anchor {
    pub bytes: Vec<u8>,
}

impl View for Anchor {
    type V = Seq<u8>;

    open spec fn view(&self) -> Seq<u8> {
        self.bytes@
    }
}

impl Anchor {
    pub open spec fn wf(&self) -> bool {
        self@.len() == 32
    }
}

/// A 64-byte signature slot. A slot whose bytes are all zero is vacant
/// (reserved for a signer that has not signed yet).
#[derive(Debug, Clone, PartialEq, Eq)]
pub struct Signature {
    pub bytes: Vec<u8>,
}

impl View for Signature {
    type V = Seq<u8>;

    open spec fn view(&self) -> Seq<u8> {
        self.bytes@
    }
}

impl Signature {
    pub open spec fn wf(&self) -> bool {
        self@.len() == 64
    }
}

pub open spec fn sig_vacant(s: Seq<u8>) -> bool {
    forall|i: int| 0 <= i < s.len() ==> s[i] == 0u8
}

/// An account reference inside a fully-qualified instruction.
#[derive(Debug, Clone, PartialEq, Eq)]
pub struct AccountRef {
    pub key: Pubkey,
    pub is_signer: bool,
    pub is_writable: bool,
}

#[verifier::ext_equal]
pub struct AccountRefV {
    pub key: Seq<u8>,
    pub is_signer: bool,
    pub is_writable: bool,
}

impl View for AccountRef {
    type V = AccountRefV;

    open spec fn view(&self) -> AccountRefV {
        AccountRefV { key: self.key@, is_signer: self.is_signer, is_writable: self.is_writable }
    }
}

impl AccountRef {
    pub open spec fn wf(&self) -> bool {
        self.key.wf()
    }
}

/// A fully-qualified (self-describing) instruction: explicit program id,
/// explicit account references, opaque data.
#[derive(Debug, Clone, PartialEq, Eq)]
pub struct Instruction {
    pub program_id: Pubkey,
    pub accounts: Vec<AccountRef>,
    pub data: Vec<u8>,
}

#[verifier::ext_equal]
pub struct InstructionV {
    pub program_id: Seq<u8>,
    pub accounts: Seq<AccountRefV>,
    pub data: Seq<u8>,
}

impl View for Instruction {
    type V = InstructionV;

    open spec fn view(&self) -> InstructionV {
        InstructionV {
            program_id: self.program_id@,
            accounts: self.accounts@.map_values(|a: AccountRef| a@),
            data: self.data@,
        }
    }
}

impl Instruction {
    pub open spec fn wf(&self) -> bool {
        &&& self.program_id.wf()
        &&& forall|i: int| 0 <= i < self@.accounts.len() ==> (#[trigger] self@.accounts[i]).key.len() == 32
        &&& self@.accounts.len() <= 0xFFFF
        &&& self@.data.len() <= 0xFFFF
    }
}

/// The three header counts that partition the account-key table.
#[derive(Debug, Clone, Copy, PartialEq, Eq, Structural)]
pub struct MessageHeader {
    /// Number of leading keys that must sign; one signature slot each.
    pub num_required_signatures: u8,
    /// Number of trailing keys, among the signer keys, that are read-only.
    pub num_readonly_signed: u8,
    /// Number of trailing keys, among the non-signer keys, that are read-only.
    pub num_readonly_unsigned: u8,
}

/// An instruction in compiled form: accounts referenced by index into the
/// message's account-key table.
#[derive(Debug, Clone, PartialEq, Eq)]
pub struct CompiledInstruction {
    pub program_id_index: u8,
    pub account_indices: Vec<u8>,
    pub data: Vec<u8>,
}

#[verifier::ext_equal]
pub struct CompiledInstructionV {
    pub program_id_index: u8,
    pub account_indices: Seq<u8>,
    pub data: Seq<u8>,
}

impl View for CompiledInstruction {
    type V = CompiledInstructionV;

    open spec fn view(&self) -> CompiledInstructionV {
        CompiledInstructionV {
            program_id_index: self.program_id_index,
            account_indices: self.account_indices@,
            data: self.data@,
        }
    }
}

/// A compiled message: deduplicated account-key table, recency anchor and
/// index-referencing instructions.
#[derive(Debug, Clone, PartialEq, Eq)]
pub struct CompiledMessage {
    pub header: MessageHeader,
    pub account_keys: Vec<Pubkey>,
    pub recent_anchor: Anchor,
    pub instructions: Vec<CompiledInstruction>,
}

#[verifier::ext_equal]
pub struct MessageV {
    pub num_required_signatures: u8,
    pub num_readonly_signed: u8,
    pub num_readonly_unsigned: u8,
    pub account_keys: Seq<Seq<u8>>,
    pub recent_anchor: Seq<u8>,
    pub instructions: Seq<CompiledInstructionV>,
}

impl View for CompiledMessage {
    type V = MessageV;

    open spec fn view(&self) -> MessageV {
        MessageV {
            num_required_signatures: self.header.num_required_signatures,
            num_readonly_signed: self.header.num_readonly_signed,
            num_readonly_unsigned: self.header.num_readonly_unsigned,
            account_keys: self.account_keys@.map_values(|k: Pubkey| k@),
            recent_anchor: self.recent_anchor@,
            instructions: self.instructions@.map_values(|ix: CompiledInstruction| ix@),
        }
    }
}

/// A transaction: one signature slot per required signer, then the message.
#[derive(Debug, Clone, PartialEq, Eq)]
pub struct SignedTransaction {
    pub signatures: Vec<Signature>,
    pub message: CompiledMessage,
}

#[verifier::ext_equal]
pub struct TransactionV {
    pub signatures: Seq<Seq<u8>>,
    pub message: MessageV,
}

impl View for SignedTransaction {
    type V = TransactionV;

    open spec fn view(&self) -> TransactionV {
        TransactionV {
            signatures: self.signatures@.map_values(|s: Signature| s@),
            message: self.message@,
        }
    }
}

/// Well-formedness of one compiled instruction against a table of `n_keys`
/// account keys: every index is in range and lengths fit their wire prefix.
pub open spec fn wf_compiled_ix(ix: CompiledInstructionV, n_keys: int) -> bool {
    &&& (ix.program_id_index as int) < n_keys
    &&& forall|j: int| 0 <= j < ix.account_indices.len() ==> (#[trigger] ix.account_indices[j] as int) < n_keys
    &&& ix.account_indices.len() <= 0xFFFF
    &&& ix.data.len() <= 0xFFFF
}

/// No key occurs at two table positions.
pub open spec fn keys_distinct(keys: Seq<Seq<u8>>) -> bool {
    forall|i: int, j: int| 0 <= i < j < keys.len() ==> keys[i] != keys[j]
}

/// Well-formedness of a compiled message: the header counts describe a
/// valid four-way partition of the key table, the table is deduplicated,
/// every key and the anchor have their fixed widths, and every instruction
/// only references keys that exist.
pub open spec fn wf_message(m: MessageV) -> bool {
    &&& m.num_readonly_signed <= m.num_required_signatures
    &&& keys_distinct(m.account_keys)
    &&& m.num_required_signatures + m.num_readonly_unsigned <= m.account_keys.len()
    &&& m.account_keys.len() <= 0xFFFF
    &&& forall|i: int| 0 <= i < m.account_keys.len() ==> (#[trigger] m.account_keys[i]).len() == 32
    &&& m.recent_anchor.len() == 32
    &&& m.instructions.len() <= 0xFFFF
    &&& forall|i: int| 0 <= i < m.instructions.len() ==> wf_compiled_ix(#[trigger] m.instructions[i], m.account_keys.len() as int)
}

/// Well-formedness of a transaction: a well-formed message carrying exactly
/// one 64-byte signature slot per required signer.
pub open spec fn wf_transaction(t: TransactionV) -> bool {
    &&& wf_message(t.message)
    &&& t.signatures.len() == t.message.num_required_signatures
    &&& forall|i: int| 0 <= i < t.signatures.len() ==> (#[trigger] t.signatures[i]).len() == 64
}

/// Copies a byte vector; the copy's view equals the original's.
pub fn clone_bytes(v: &Vec<u8>) -> (r: Vec<u8>)
    ensures
        r@ == v@,
{
    let mut out: Vec<u8> = Vec::new();
    let mut i: usize = 0;
    while i < v.len()
        invariant
            0 <= i <= v@.len(),
            out@ == v@.subrange(0, i as int),
        decreases v@.len() - i,
    {
        out.push(v[i]);
        assert(out@ =~= v@.subrange(0, i + 1 as int));
        i = i + 1;
    }
    assert(out@ =~= v@);
    out
}

/// Byte-for-byte equality of two byte vectors.
pub fn bytes_eq(a: &Vec<u8>, b: &Vec<u8>) -> (r: bool)
    ensures
        r == (a@ == b@),
{
    if a.len() != b.len() {
        assert(a@ != b@) by {
            assert(a@.len() != b@.len());
        }
        return false;
    }
    let mut i: usize = 0;
    while i < a.len()
        invariant
            0 <= i <= a@.len(),
            a@.len() == b@.len(),
            forall|j: int| 0 <= j < i ==> a@[j] == b@[j],
        decreases a@.len() - i,
    {
        if a[i] != b[i] {
            return false;
        }
        i = i + 1;
    }
    assert(a@ =~= b@);
    true
}

impl Pubkey {
    /// Copies the key.
    pub fn dup(&self) -> (r: Pubkey)
        ensures
            r@ == self@,
    {
        Pubkey { bytes: clone_bytes(&self.bytes) }
    }

    /// Byte-for-byte equality of two keys.
    pub fn same_as(&self, other: &Pubkey) -> (r: bool)
        ensures
            r == (self@ == other@),
    {
        bytes_eq(&self.bytes, &other.bytes)
    }
}


impl Anchor {
    /// Copies the anchor.
    pub fn dup(&self) -> (r: Anchor)
        ensures
            r@ == self@,
    {
        Anchor { bytes: clone_bytes(&self.bytes) }
    }
}

impl Signature {
    /// Copies the signature.
    pub fn dup(&self) -> (r: Signature)
        ensures
            r@ == self@,
    {
        Signature { bytes: clone_bytes(&self.bytes) }
    }
}

impl AccountRef {
    /// Copies the account reference.
    pub fn dup(&self) -> (r: AccountRef)
        ensures
            r@ == self@,
    {
        AccountRef { key: self.key.dup(), is_signer: self.is_signer, is_writable: self.is_writable }
    }
}

impl Instruction {
    /// Copies the instruction.
    pub fn dup(&self) -> (r: Instruction)
        ensures
            r@ == self@,
    {
        let mut accounts: Vec<AccountRef> = Vec::new();
        let mut i: usize = 0;
        while i < self.accounts.len()
            invariant
                0 <= i <= self.accounts@.len(),
                accounts@.len() == i,
                forall|q: int| 0 <= q < i ==> (#[trigger] accounts@[q])@ == self.accounts@[q]@,
            decreases self.accounts@.len() - i,
        {
            accounts.push(self.accounts[i].dup());
            i = i + 1;
        }
        let r = Instruction {
            program_id: self.program_id.dup(),
            accounts: accounts,
            data: clone_bytes(&self.data),
        };
        assert(r@.accounts =~= self@.accounts);
        assert(r@ =~= self@);
        r
    }
}

} // verus!
