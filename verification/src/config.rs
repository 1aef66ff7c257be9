//! Configuration record and the pure decisions around it: the default
//! configuration, the config-path fallback, the signer-selection rule, and
//! the command-dispatch error reports.

use vstd::prelude::*;
use vstd::string::StrSliceExecFns;
use crate::error::ResignError;

verus! {

broadcast use vstd::string::to_string_from_display_ensures_for_str;

/// One network endpoint.
pub struct RPCEndpoint {
    pub http_url: String,
    pub ws_url: String,
}

/// The configured endpoints; only a single primary endpoint is modeled.
pub struct RPCs {
    pub primary_endpoint: RPCEndpoint,
}

/// Main configuration record.
pub struct Configuration {
    pub key_path: String,
    pub rpc_endpoints: RPCs,
}

impl Default for Configuration {
    /// The default configuration: placeholder endpoint values and an empty
    /// key path.
    fn default() -> (r: Configuration)
        ensures
            r.key_path@ == ""@,
            r.rpc_endpoints.primary_endpoint.http_url@ == "https://....quiknode.pro/.../"@,
            r.rpc_endpoints.primary_endpoint.ws_url@ == "ws://api.mainnet-beta.solana.com"@,
    {
        Configuration {
            key_path: "".to_string(),
            rpc_endpoints: RPCs {
                primary_endpoint: RPCEndpoint {
                    http_url: "https://....quiknode.pro/.../".to_string(),
                    ws_url: "ws://api.mainnet-beta.solana.com".to_string(),
                },
            },
        }
    }
}

/// The URL the endpoint client dials: the websocket URL when a socket is
/// asked for, the http URL otherwise; only the primary endpoint is
/// modeled.
pub fn endpoint_url(rpcs: &RPCs, ws: bool) -> (r: &String)
    ensures
        ws ==> r@ == rpcs.primary_endpoint.ws_url@,
        !ws ==> r@ == rpcs.primary_endpoint.http_url@,
{
    if ws {
        &rpcs.primary_endpoint.ws_url
    } else {
        &rpcs.primary_endpoint.http_url
    }
}

/// The commitment level a request names, or the conventional default.
pub fn commitment_or_default(commitment: Option<String>) -> (r: String)
    ensures
        match commitment {
            Some(s) => r@ == s@,
            None => r@ == "confirmed"@,
        },
{
    match commitment {
        Some(s) => s,
        None => "confirmed".to_string(),
    }
}

/// The configured config-file path, or the conventional default.
pub fn config_path_or_default(arg: Option<String>) -> (r: String)
    ensures
        match arg {
            Some(s) => r@ == s@,
            None => r@ == "config.yaml"@,
        },
{
    match arg {
        Some(s) => s,
        None => "config.yaml".to_string(),
    }
}

/// Which signer capability a key path selects.
#[derive(Debug, Clone, Copy, PartialEq, Eq, Structural)]
pub enum SignerKind {
    /// A key loaded from a file, signing in process.
    LocalFile,
    /// An interactive hardware-wallet signer reached over a URI.
    RemoteDevice,
}

/// Whether the path carries the hardware-wallet URI prefix.
pub open spec fn has_device_prefix(s: Seq<char>) -> bool {
    s.len() >= 12 && s.subrange(0, 12) == "usb://ledger"@
}

/// Selection rule of the signer abstraction: a key path beginning with the
/// hardware-wallet URI prefix resolves to the remote device; any other
/// path is read as a local key file.
pub fn signer_kind(key_path: &str) -> (r: SignerKind)
    ensures
        r == SignerKind::RemoteDevice <==> has_device_prefix(key_path@),
{
    let prefix: &str = "usb://ledger";
    proof {
        reveal_strlit("usb://ledger");
    }
    assert(prefix@.len() == 12);
    if key_path.unicode_len() < 12 {
        return SignerKind::LocalFile;
    }
    let mut i: usize = 0;
    while i < 12
        invariant
            0 <= i <= 12,
            key_path@.len() >= 12,
            prefix@ == "usb://ledger"@,
            prefix@.len() == 12,
            forall|q: int| 0 <= q < i ==> key_path@[q] == prefix@[q],
        decreases 12 - i,
    {
        if key_path.get_char(i) != prefix.get_char(i) {
            assert(key_path@[i as int] != prefix@[i as int]);
            assert(!has_device_prefix(key_path@)) by {
                if key_path@.subrange(0, 12) == "usb://ledger"@ {
                    assert(key_path@.subrange(0, 12)[i as int] == key_path@[i as int]);
                }
            };
            return SignerKind::LocalFile;
        }
        i = i + 1;
    }
    assert(key_path@.subrange(0, 12) =~= "usb://ledger"@);
    SignerKind::RemoteDevice
}

/// Reports a command that is not valid within its command group.
pub fn invalid_subcommand(command_group: &str) -> (r: Result<(), ResignError>)
    ensures
        r == Err::<(), ResignError>(ResignError::FormatError),
{
    let _ = command_group;
    Err(ResignError::FormatError)
}

/// Reports a command that is not valid at the top level.
pub fn invalid_command() -> (r: Result<(), ResignError>)
    ensures
        r == Err::<(), ResignError>(ResignError::FormatError),
{
    Err(ResignError::FormatError)
}

} // verus!
