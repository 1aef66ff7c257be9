//! Message decompiler: expands a compiled message's index-referencing
//! instructions into fully-qualified instructions. Signer and writable
//! flags are reconstructed purely from an index's position in the four-way
//! partition that the header counts describe.

use vstd::prelude::*;
use crate::types::{
    AccountRef, AccountRefV, CompiledInstruction, CompiledInstructionV, CompiledMessage,
    Instruction, InstructionV, MessageV, Pubkey,
};
use crate::error::ResignError;

verus! {

/// Whether table position `i` holds a required signer.
pub open spec fn is_signer_at(m: MessageV, i: int) -> bool {
    i < m.num_required_signatures
}

/// Whether table position `i` is writable: the table is partitioned into
/// signer-writable, signer-readonly, non-signer-writable and
/// non-signer-readonly ranges, in that order.
pub open spec fn is_writable_at(m: MessageV, i: int) -> bool {
    if i < m.num_required_signatures {
        i < m.num_required_signatures - m.num_readonly_signed
    } else {
        i < m.account_keys.len() - m.num_readonly_unsigned
    }
}

/// Whether one compiled instruction only references existing keys.
pub open spec fn ix_indices_ok(m: MessageV, ix: CompiledInstructionV) -> bool {
    &&& (ix.program_id_index as int) < m.account_keys.len()
    &&& forall|j: int|
        0 <= j < ix.account_indices.len() ==> (#[trigger] ix.account_indices[j] as int)
            < m.account_keys.len()
}

/// Whether every compiled instruction of the message only references
/// existing keys.
pub open spec fn indices_ok(m: MessageV) -> bool {
    forall|i: int|
        0 <= i < m.instructions.len() ==> ix_indices_ok(m, #[trigger] m.instructions[i])
}

/// The fully-qualified instruction a compiled instruction denotes.
pub open spec fn decompiled_ix(m: MessageV, ix: CompiledInstructionV) -> InstructionV {
    InstructionV {
        program_id: m.account_keys[ix.program_id_index as int],
        accounts: Seq::new(
            ix.account_indices.len(),
            |j: int|
                AccountRefV {
                    key: m.account_keys[ix.account_indices[j] as int],
                    is_signer: is_signer_at(m, ix.account_indices[j] as int),
                    is_writable: is_writable_at(m, ix.account_indices[j] as int),
                },
        ),
        data: ix.data,
    }
}

/// The full decompilation of a message, in input order.
pub open spec fn decompiled(m: MessageV) -> Seq<InstructionV> {
    Seq::new(m.instructions.len(), |i: int| decompiled_ix(m, m.instructions[i]))
}

/// Decompiles a message: succeeds with the instruction sequence that
/// `decompiled` describes exactly when every referenced index is in range,
/// and fails with `MalformedMessageError` (and no partial result) on the
/// first out-of-range index.
pub fn decompile_message(m: &CompiledMessage) -> (r: Result<Vec<Instruction>, ResignError>)
    requires
        m@.num_readonly_signed <= m@.num_required_signatures,
        m@.num_required_signatures + m@.num_readonly_unsigned <= m@.account_keys.len(),
    ensures
        r is Ok <==> indices_ok(m@),
        r matches Ok(v) ==> v@.map_values(|x: Instruction| x@) == decompiled(m@),
        r matches Err(e) ==> e == ResignError::MalformedMessageError,
{
    let n_keys = m.account_keys.len();
    let nrs = m.header.num_required_signatures;
    let nro_s = m.header.num_readonly_signed;
    let nro_u = m.header.num_readonly_unsigned;
    let mut out: Vec<Instruction> = Vec::new();
    let mut i: usize = 0;
    while i < m.instructions.len()
        invariant
            0 <= i <= m@.instructions.len(),
            m@.instructions.len() == m.instructions@.len(),
            m@.instructions == m.instructions@.map_values(|x: CompiledInstruction| x@),
            m@.account_keys == m.account_keys@.map_values(|p: Pubkey| p@),
            m@.account_keys.len() == m.account_keys@.len(),
            n_keys == m@.account_keys.len(),
            nrs == m@.num_required_signatures,
            nro_s == m@.num_readonly_signed,
            nro_u == m@.num_readonly_unsigned,
            nro_s <= nrs,
            nrs + nro_u <= n_keys,
            out@.len() == i,
            forall|q: int|
                0 <= q < i ==> ix_indices_ok(m@, #[trigger] m@.instructions[q]),
            forall|q: int|
                0 <= q < i ==> (#[trigger] out@[q])@ == decompiled_ix(m@, m@.instructions[q]),
        decreases m@.instructions.len() - i,
    {
        let cix = &m.instructions[i];
        if (cix.program_id_index as usize) >= n_keys {
            assert(!ix_indices_ok(m@, m@.instructions[i as int]));
            return Err(ResignError::MalformedMessageError);
        }
        let mut accounts: Vec<AccountRef> = Vec::new();
        let mut j: usize = 0;
        while j < cix.account_indices.len()
            invariant
                0 <= j <= cix@.account_indices.len(),
                cix@ == m@.instructions[i as int],
                0 <= i < m@.instructions.len(),
                cix@.account_indices.len() == cix.account_indices@.len(),
                m@.account_keys == m.account_keys@.map_values(|p: Pubkey| p@),
                m@.account_keys.len() == m.account_keys@.len(),
                n_keys == m@.account_keys.len(),
                nrs == m@.num_required_signatures,
                nro_s == m@.num_readonly_signed,
                nro_u == m@.num_readonly_unsigned,
                nro_s <= nrs,
                nrs + nro_u <= n_keys,
                accounts@.len() == j,
                forall|q: int|
                    0 <= q < j ==> (#[trigger] cix@.account_indices[q] as int) < n_keys,
                forall|q: int|
                    0 <= q < j ==> (#[trigger] accounts@[q])@ == (AccountRefV {
                        key: m@.account_keys[cix@.account_indices[q] as int],
                        is_signer: is_signer_at(m@, cix@.account_indices[q] as int),
                        is_writable: is_writable_at(m@, cix@.account_indices[q] as int),
                    }),
            decreases cix@.account_indices.len() - j,
        {
            let idx = cix.account_indices[j];
            if (idx as usize) >= n_keys {
                assert(!((cix@.account_indices[j as int] as int) < n_keys));
                assert(!ix_indices_ok(m@, m@.instructions[i as int]));
                return Err(ResignError::MalformedMessageError);
            }
            let is_signer = idx < nrs;
            let is_writable = if idx < nrs {
                idx < nrs - nro_s
            } else {
                (idx as usize) < n_keys - (nro_u as usize)
            };
            let key = m.account_keys[idx as usize].dup();
            assert(key@ == m@.account_keys[idx as int]);
            accounts.push(AccountRef { key, is_signer, is_writable });
            j = j + 1;
        }
        let data = crate::types::clone_bytes(&cix.data);
        let program_id = m.account_keys[cix.program_id_index as usize].dup();
        let ix = Instruction { program_id, accounts, data };
        assert(ix@.accounts =~= decompiled_ix(m@, m@.instructions[i as int]).accounts);
        assert(ix@ =~= decompiled_ix(m@, m@.instructions[i as int]));
        out.push(ix);
        i = i + 1;
    }
    assert(out@.map_values(|x: Instruction| x@) =~= decompiled(m@));
    Ok(out)
}

} // verus!
