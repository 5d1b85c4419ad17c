//! Which node a client talks to.

use vstd::prelude::*;

verus! {

/// The node that is used where none is named.
pub const DEFAULT_RPC_URL: &'static str = "https://api.mainnet-beta.solana.com/";

/// The address of the node to use: the one given, else the default.
pub fn rpc_url_or_default(rpc_url: Option<String>) -> (url: String)
    ensures
        url@ == match rpc_url {
            Some(given) => given@,
            None => DEFAULT_RPC_URL@,
        },
{
    match rpc_url {
        Some(given) => given,
        None => DEFAULT_RPC_URL.to_owned(),
    }
}

} // verus!
