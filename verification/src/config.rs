//! Process configuration.

use vstd::prelude::*;

verus! {

/// What the process needs to run: the listen port and the address of the
/// backing store. Read from the environment by the surrounding binary.
pub struct Config {
    pub port: u16,
    pub database_url: String,
}

} // verus!
