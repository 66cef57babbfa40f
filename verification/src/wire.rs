//! Descriptions of the outbound calls the registry issues, and the JSON
//! encoding of their argument payloads through serde_json.
//!
//! The registry never performs a call itself: it hands the host a value
//! naming the target account, the method, and the encoded arguments, and the
//! host carries it out.

use vstd::prelude::*;

verus! {

/// The JSON byte encoding of one string, a function of its characters alone.
pub uninterp spec fn json_string_bytes(s: Seq<char>) -> Seq<u8>;

/// Relies on serde_json::to_vec for a string value: the result is the JSON
/// encoding of the string, determined by its characters alone.
#[verifier::external_body]
pub(crate) fn json_encode_id(id: &String) -> (r: Vec<u8>)
    ensures
        r@ == json_string_bytes(id@),
{
    match serde_json::to_vec(id) {
        Ok(v) => v,
        Err(_) => Vec::new(),
    }
}

/// One outbound call for the host to perform: the target account, the method
/// to invoke on it, and the JSON-encoded arguments.
pub struct OutboundCall {
    pub target: String,
    pub method: String,
    pub args: Vec<u8>,
}

/// The two best-effort calls a successful registration issues: the stake
/// balance query on the token contract, whose result the registry does not
/// gate on, and the reputation-service initialization of the new agent.
pub struct RegistrationEffects {
    pub balance_check: OutboundCall,
    pub reputation_init: OutboundCall,
}

} // verus!
