#![verifier::loop_isolation(false)]

use vstd::prelude::*;

pub mod admin;
pub mod auth;
pub mod config;
pub mod error;
pub mod models;
pub mod rsvp;
pub mod schemas;
pub mod store;

verus! {

/// Liveness payload reported by the health endpoint.
pub struct Health {
    pub status: String,
}

/// Report that the service is up.
pub fn health() -> (h: Health)
    ensures
        h.status@ == "ok"@,
{
    Health { status: "ok".to_owned() }
}

} // verus!
