//! The settings the server is started with.
use vstd::prelude::*;

verus! {

/// The settings of the server: the port it listens on.
#[derive(Clone, Copy, Debug, PartialEq, Eq, Structural)]
pub struct Config {
    pub port: u16,
}

} // verus!
