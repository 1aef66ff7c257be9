use resigner::builder::build_transaction;
use resigner::codec::{check_transaction, deserialize_transaction, serialize_transaction};
use resigner::config::{commitment_or_default, config_path_or_default, endpoint_url,
    invalid_command, invalid_subcommand, SignerKind, signer_kind, Configuration, RPCEndpoint,
    RPCs};
use resigner::decompile::decompile_message;
use resigner::envelope::{decode_base64, Envelope, EnvelopeParams};
use resigner::error::ResignError;
use resigner::run::{Mode, Phase, Run};
use resigner::types::{
    AccountRef, Anchor, CompiledInstruction, CompiledMessage, Instruction, MessageHeader, Pubkey,
    Signature, SignedTransaction,
};

fn key(b: u8) -> Pubkey {
    Pubkey { bytes: vec![b; 32] }
}

fn anchor(b: u8) -> Anchor {
    Anchor { bytes: vec![b; 32] }
}

fn sig(b: u8) -> Signature {
    Signature { bytes: vec![b; 64] }
}

/// A well-formed two-instruction transaction over keys [payer, a, b, prog].
fn sample_transaction() -> SignedTransaction {
    SignedTransaction {
        signatures: vec![sig(9)],
        message: CompiledMessage {
            header: MessageHeader {
                num_required_signatures: 1,
                num_readonly_signed: 0,
                num_readonly_unsigned: 1,
            },
            account_keys: vec![key(1), key(2), key(3), key(4)],
            recent_anchor: anchor(5),
            instructions: vec![
                CompiledInstruction {
                    program_id_index: 3,
                    account_indices: vec![0, 1],
                    data: vec![10, 11, 12],
                },
                CompiledInstruction {
                    program_id_index: 3,
                    account_indices: vec![2],
                    data: vec![13],
                },
            ],
        },
    }
}

#[test]
fn round_trip_byte_identical() {
    let t = sample_transaction();
    let bytes = serialize_transaction(&t);
    let t2 = deserialize_transaction(&bytes).expect("round trip must decode");
    assert_eq!(t2, t);
    // serializing again gives the same bytes
    let bytes2 = serialize_transaction(&t2);
    assert_eq!(bytes2, bytes);
}

#[test]
fn decode_rejects_truncated_input() {
    let t = sample_transaction();
    let mut bytes = serialize_transaction(&t);
    bytes.pop();
    assert_eq!(deserialize_transaction(&bytes), Err(ResignError::DecodeError));
}

#[test]
fn decode_rejects_trailing_bytes() {
    let t = sample_transaction();
    let mut bytes = serialize_transaction(&t);
    bytes.push(0);
    assert_eq!(deserialize_transaction(&bytes), Err(ResignError::DecodeError));
}

#[test]
fn decode_rejects_out_of_range_index() {
    let mut t = sample_transaction();
    // reference index 9 with only 4 keys: rejected at decode time
    t.message.instructions[0].account_indices[0] = 9;
    let bytes = serialize_transaction(&t);
    assert_eq!(deserialize_transaction(&bytes), Err(ResignError::DecodeError));
}

#[test]
fn decode_rejects_duplicate_table_keys() {
    let t = sample_transaction();
    let mut bytes = serialize_transaction(&t);
    // the key table starts after the signature count (2), one signature
    // (64), the header triple (3) and the key count (2); overwrite the
    // second key with the first
    let first: Vec<u8> = bytes[71..103].to_vec();
    bytes[103..135].copy_from_slice(&first);
    assert_eq!(deserialize_transaction(&bytes), Err(ResignError::DecodeError));
}

#[test]
fn grouped_build_shows_merged_flags_everywhere() {
    // one key marked readonly by one instruction and writable by another:
    // every decompiled reference of the grouped build reads back writable
    let payer = key(0xFE);
    let shared = key(7);
    let ix1 = Instruction {
        program_id: key(1),
        accounts: vec![AccountRef { key: shared.clone(), is_signer: false, is_writable: false }],
        data: vec![],
    };
    let ix2 = Instruction {
        program_id: key(1),
        accounts: vec![AccountRef { key: shared.clone(), is_signer: false, is_writable: true }],
        data: vec![],
    };
    let t = build_transaction(&vec![ix1, ix2], &payer).expect("fits");
    let out = decompile_message(&t.message).expect("decompiles");
    assert!(out[0].accounts[0].is_writable);
    assert!(out[1].accounts[0].is_writable);
    assert!(!out[0].accounts[0].is_signer);
}

#[test]
fn endpoint_choices_are_pure() {
    let rpcs = RPCs {
        primary_endpoint: RPCEndpoint {
            http_url: "http://h:1".to_string(),
            ws_url: "ws://h:2".to_string(),
        },
    };
    assert_eq!(endpoint_url(&rpcs, false), "http://h:1");
    assert_eq!(endpoint_url(&rpcs, true), "ws://h:2");
    assert_eq!(commitment_or_default(None), "confirmed");
    assert_eq!(commitment_or_default(Some("finalized".to_string())), "finalized");
}

#[test]
fn decode_rejects_inconsistent_header() {
    let mut t = sample_transaction();
    // more readonly signers than signers
    t.message.header.num_readonly_signed = 2;
    let bytes = serialize_transaction(&t);
    assert_eq!(deserialize_transaction(&bytes), Err(ResignError::DecodeError));
}

#[test]
fn serialized_layout_is_exact() {
    let t = SignedTransaction {
        signatures: vec![],
        message: CompiledMessage {
            header: MessageHeader {
                num_required_signatures: 0,
                num_readonly_signed: 0,
                num_readonly_unsigned: 0,
            },
            account_keys: vec![],
            recent_anchor: anchor(7),
            instructions: vec![],
        },
    };
    let bytes = serialize_transaction(&t);
    let mut expected: Vec<u8> = Vec::new();
    expected.extend_from_slice(&[0, 0]); // signature count
    expected.extend_from_slice(&[0, 0, 0]); // header triple
    expected.extend_from_slice(&[0, 0]); // key count
    expected.extend_from_slice(&[7; 32]); // anchor
    expected.extend_from_slice(&[0, 0]); // instruction count
    assert_eq!(bytes, expected);
}

#[test]
fn idempotent_decode_of_same_bytes() {
    let t = sample_transaction();
    let bytes = serialize_transaction(&t);
    let first = deserialize_transaction(&bytes);
    let second = deserialize_transaction(&bytes);
    assert_eq!(first, second);
}

#[test]
fn decompile_reconstructs_flags_from_partition() {
    // header counts (1, 0, 1) over keys [A, B, C]; instruction referencing
    // [0, 1, 2] under program id C
    let a = key(0xA);
    let b = key(0xB);
    let c = key(0xC);
    let m = CompiledMessage {
        header: MessageHeader {
            num_required_signatures: 1,
            num_readonly_signed: 0,
            num_readonly_unsigned: 1,
        },
        account_keys: vec![a.clone(), b.clone(), c.clone()],
        recent_anchor: anchor(0),
        instructions: vec![CompiledInstruction {
            program_id_index: 2,
            account_indices: vec![0, 1, 2],
            data: vec![42],
        }],
    };
    let out = decompile_message(&m).expect("in-range indices must decompile");
    assert_eq!(out.len(), 1);
    assert_eq!(out[0].program_id, c);
    assert_eq!(
        out[0].accounts,
        vec![
            AccountRef { key: a, is_signer: true, is_writable: true },
            AccountRef { key: b, is_signer: false, is_writable: true },
            AccountRef { key: c, is_signer: false, is_writable: false },
        ]
    );
    assert_eq!(out[0].data, vec![42]);
}

#[test]
fn decompile_rejects_out_of_range_index() {
    let m = CompiledMessage {
        header: MessageHeader {
            num_required_signatures: 1,
            num_readonly_signed: 0,
            num_readonly_unsigned: 1,
        },
        account_keys: vec![key(1), key(2), key(3)],
        recent_anchor: anchor(0),
        instructions: vec![CompiledInstruction {
            program_id_index: 0,
            account_indices: vec![3],
            data: vec![],
        }],
    };
    assert_eq!(decompile_message(&m), Err(ResignError::MalformedMessageError));
}

#[test]
fn build_injects_fee_payer_first() {
    // the payer never occurs in the instruction
    let payer = key(0xFE);
    let ix = Instruction {
        program_id: key(1),
        accounts: vec![AccountRef { key: key(2), is_signer: false, is_writable: true }],
        data: vec![1],
    };
    let t = build_transaction(&vec![ix], &payer).expect("small build fits");
    assert_eq!(t.message.account_keys[0], payer);
    assert!(t.message.header.num_required_signatures >= 1);
    // index 0 is signer + writable: inside the leading writable-signer range
    let writable_signers =
        t.message.header.num_required_signatures - t.message.header.num_readonly_signed;
    assert!(writable_signers >= 1);
    // one vacant signature slot per required signer
    assert_eq!(t.signatures.len(), t.message.header.num_required_signatures as usize);
    for s in &t.signatures {
        assert!(s.bytes.iter().all(|&x| x == 0));
    }
    assert!(check_transaction(&t));
}

#[test]
fn build_merges_flags_and_dedups() {
    let payer = key(0xFE);
    let shared = key(7);
    let ix1 = Instruction {
        program_id: key(1),
        accounts: vec![AccountRef { key: shared.clone(), is_signer: false, is_writable: false }],
        data: vec![],
    };
    let ix2 = Instruction {
        program_id: key(1),
        accounts: vec![AccountRef { key: shared.clone(), is_signer: false, is_writable: true }],
        data: vec![],
    };
    let t = build_transaction(&vec![ix1, ix2], &payer).expect("fits");
    // payer, shared (writable by merge), program id (readonly): 3 entries
    assert_eq!(t.message.account_keys.len(), 3);
    assert_eq!(t.message.account_keys[0], payer);
    assert_eq!(t.message.account_keys[1], shared);
    // shared is a non-signer writable entry: readonly_unsigned covers only
    // the program id
    assert_eq!(t.message.header.num_required_signatures, 1);
    assert_eq!(t.message.header.num_readonly_signed, 0);
    assert_eq!(t.message.header.num_readonly_unsigned, 1);
}

#[test]
fn split_and_grouped_agree_per_instruction() {
    let payer = key(0xFE);
    let mk = |p: u8, a: u8, d: u8| Instruction {
        program_id: key(p),
        accounts: vec![AccountRef { key: key(a), is_signer: false, is_writable: true }],
        data: vec![d],
    };
    let instrs = vec![mk(1, 11, 21), mk(2, 12, 22), mk(3, 13, 23)];
    let grouped = build_transaction(&instrs, &payer).expect("fits");
    let grouped_out = decompile_message(&grouped.message).expect("decompiles");
    assert_eq!(grouped_out.len(), 3);
    for i in 0..3 {
        let single = build_transaction(&vec![instrs[i].clone()], &payer).expect("fits");
        assert_eq!(single.message.instructions.len(), 1);
        let split_out = decompile_message(&single.message).expect("decompiles");
        assert_eq!(split_out.len(), 1);
        assert_eq!(split_out[0].program_id, grouped_out[i].program_id);
        assert_eq!(split_out[0].data, grouped_out[i].data);
        let split_keys: Vec<_> = split_out[0].accounts.iter().map(|a| a.key.clone()).collect();
        let grouped_keys: Vec<_> =
            grouped_out[i].accounts.iter().map(|a| a.key.clone()).collect();
        assert_eq!(split_keys, grouped_keys);
        assert_eq!(split_out[0].program_id, instrs[i].program_id);
        assert_eq!(split_out[0].data, instrs[i].data);
    }
}

#[test]
fn base64_decode_decodes() {
    assert_eq!(decode_base64("AQID"), Ok(vec![1, 2, 3]));
    assert_eq!(decode_base64(""), Ok(vec![]));
}

#[test]
fn base64_decode_rejects_bad_alphabet() {
    assert_eq!(decode_base64("!!!!"), Err(ResignError::EncodingError));
    assert_eq!(decode_base64("A"), Err(ResignError::EncodingError));
}

fn envelope_for(t: &SignedTransaction) -> Envelope {
    let bytes = serialize_transaction(t);
    Envelope {
        method: "sendTransaction".to_string(),
        jsonrpc: "2.0".to_string(),
        payload: base64::encode(&bytes),
        params: EnvelopeParams {
            encoding: "base64".to_string(),
            preflight_commitment: "confirmed".to_string(),
        },
        id: "1".to_string(),
    }
}

#[test]
fn end_to_end_grouped_resign_confirms() {
    // payload decodes to a message with 2 instructions and key table
    // [payer, a, b, prog]; resign with a fresh signer key x
    let t = sample_transaction();
    let env = envelope_for(&t);
    let x = key(0x77);
    let mut run = Run::start(Mode::Grouped, x.clone());
    assert_eq!(run.phase, Phase::NeedEnvelope);
    run.on_envelope(Some(&env));
    assert_eq!(run.phase, Phase::NeedAnchor);
    // the rebuilt transaction carries the new fee payer at index 0 and the
    // original two instructions in order
    assert_eq!(run.current.message.account_keys[0], x);
    assert_eq!(run.current.message.instructions.len(), 2);
    let rebuilt = decompile_message(&run.current.message).expect("decompiles");
    let original = decompile_message(&t.message).expect("decompiles");
    assert_eq!(rebuilt[0].program_id, original[0].program_id);
    assert_eq!(rebuilt[0].data, original[0].data);
    assert_eq!(rebuilt[1].program_id, original[1].program_id);
    assert_eq!(rebuilt[1].data, original[1].data);
    run.on_anchor(Some(&anchor(0xAB)));
    assert_eq!(run.phase, Phase::NeedSignature);
    assert_eq!(run.current.message.recent_anchor, anchor(0xAB));
    let msg_bytes = run.message_bytes();
    assert!(!msg_bytes.is_empty());
    run.on_signature(Some(&sig(0x55)));
    assert_eq!(run.phase, Phase::NeedSubmit);
    assert_eq!(run.current.signatures[0], sig(0x55));
    run.on_submission(true);
    assert_eq!(run.phase, Phase::Done);
    assert_eq!(run.confirmed, 1);
    assert_eq!(run.skipped, 0);
}

#[test]
fn end_to_end_anchor_failure_aborts_before_signing() {
    let t = sample_transaction();
    let env = envelope_for(&t);
    let x = key(0x77);
    let mut run = Run::start(Mode::Grouped, x);
    run.on_envelope(Some(&env));
    assert_eq!(run.phase, Phase::NeedAnchor);
    let staged = run.current.clone();
    run.on_anchor(None);
    assert_eq!(run.phase, Phase::Failed);
    assert_eq!(run.failure, Some(ResignError::EndpointError));
    // nothing was signed: the staged transaction is untouched, slots vacant
    assert_eq!(run.current, staged);
    assert!(run.current.signatures[0].bytes.iter().all(|&b| b == 0));
}

#[test]
fn split_mode_isolates_submission_failures() {
    let t = sample_transaction();
    let env = envelope_for(&t);
    let x = key(0x77);
    let mut run = Run::start(Mode::Split, x);
    run.on_envelope(Some(&env));
    assert_eq!(run.phase, Phase::NeedAnchor);
    // first transaction fails to submit; the run continues
    run.on_anchor(Some(&anchor(1)));
    run.on_signature(Some(&sig(2)));
    run.on_submission(false);
    assert_eq!(run.phase, Phase::NeedAnchor);
    assert_eq!(run.skipped, 1);
    // second transaction confirms
    run.on_anchor(Some(&anchor(3)));
    run.on_signature(Some(&sig(4)));
    run.on_submission(true);
    assert_eq!(run.phase, Phase::Done);
    assert_eq!(run.confirmed, 1);
    assert_eq!(run.skipped, 1);
}

#[test]
fn missing_envelope_is_a_format_error() {
    let mut run = Run::start(Mode::Grouped, key(1));
    run.on_envelope(None);
    assert_eq!(run.phase, Phase::Failed);
    assert_eq!(run.failure, Some(ResignError::FormatError));
}

#[test]
fn bad_payload_fails_with_encoding_error() {
    let mut env = envelope_for(&sample_transaction());
    env.payload = "not base64 !!".to_string();
    let mut run = Run::start(Mode::Grouped, key(1));
    run.on_envelope(Some(&env));
    assert_eq!(run.phase, Phase::Failed);
    assert_eq!(run.failure, Some(ResignError::EncodingError));
}

#[test]
fn garbage_bytes_fail_with_decode_error() {
    let mut env = envelope_for(&sample_transaction());
    env.payload = base64::encode(&[1, 2, 3]);
    let mut run = Run::start(Mode::Grouped, key(1));
    run.on_envelope(Some(&env));
    assert_eq!(run.phase, Phase::Failed);
    assert_eq!(run.failure, Some(ResignError::DecodeError));
}

#[test]
fn sign_failure_is_a_key_load_error() {
    let env = envelope_for(&sample_transaction());
    let mut run = Run::start(Mode::Grouped, key(1));
    run.on_envelope(Some(&env));
    run.on_anchor(Some(&anchor(1)));
    run.on_signature(None);
    assert_eq!(run.phase, Phase::Failed);
    assert_eq!(run.failure, Some(ResignError::KeyLoadError));
}

#[test]
fn signer_kind_selects_remote_device_by_prefix() {
    assert_eq!(signer_kind("usb://ledger"), SignerKind::RemoteDevice);
    assert_eq!(signer_kind("usb://ledger?key=0"), SignerKind::RemoteDevice);
    assert_eq!(signer_kind("/home/user/key.json"), SignerKind::LocalFile);
    assert_eq!(signer_kind("usb://ledge"), SignerKind::LocalFile);
    assert_eq!(signer_kind(""), SignerKind::LocalFile);
}

#[test]
fn config_path_falls_back_to_default() {
    assert_eq!(config_path_or_default(None), "config.yaml");
    assert_eq!(config_path_or_default(Some("c.yaml".to_string())), "c.yaml");
}

#[test]
fn default_configuration_has_placeholders() {
    let c = Configuration::default();
    assert_eq!(c.key_path, "");
    assert_eq!(c.rpc_endpoints.primary_endpoint.ws_url, "ws://api.mainnet-beta.solana.com");
    assert!(c.rpc_endpoints.primary_endpoint.http_url.contains("quiknode"));
}

#[test]
fn invalid_commands_are_reported() {
    assert_eq!(invalid_command(), Err(ResignError::FormatError));
    assert_eq!(invalid_subcommand("config"), Err(ResignError::FormatError));
}
