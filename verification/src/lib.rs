//! An API gateway core: a versioned-path router rebuilt atomically from
//! configuration snapshots, a plugin chain with short-circuit semantics, a
//! request pipeline with upstream header rewriting and gateway identity
//! headers, a key/value store, a sandboxed script runner, and a control-plane
//! synchronizer state machine.

pub mod body;
pub mod crypto;
pub mod kv;
pub mod models;
pub mod node;
pub mod response;
pub mod router;
pub mod runner;
pub mod sync;
pub mod patterns;
pub mod paths;
pub mod pipeline;
pub mod plugins;
pub mod projection;
pub mod value;

use vstd::prelude::*;

verus! {

/// The gateway's application name, as stamped into identity headers.
pub fn app_name() -> (r: String)
    ensures
        r@ == "bullg"@,
{
    String::from_str("bullg")
}

/// The gateway's application version, as stamped into identity headers.
pub fn app_version() -> (r: String)
    ensures
        r@ == "0.1.0"@,
{
    String::from_str("0.1.0")
}

/// The human-readable gateway name: the application name with a " Gateway" suffix.
pub fn gateway_name() -> (r: String)
    ensures
        r@ == "bullg"@ + " Gateway"@,
{
    let n = app_name();
    n.concat(" Gateway")
}

} // verus!
