//! Small shared types.

use vstd::prelude::*;

verus! {

/// The replication role of a server.
#[derive(Debug, PartialEq, Eq)]
pub enum Role {
    /// A replica, with the host and the port of its master.
    Slave(String, String),
    /// A master, with its replication id.
    Master(String),
}

} // verus!
