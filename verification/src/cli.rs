//! The command-line client's arguments.

use vstd::prelude::*;

verus! {

/// The client's arguments.
#[derive(Debug, Clone)]
pub struct Cli {
    /// which node to talk to
    pub node: String,
    pub command: Command,
}

/// What the client asks of the node.
#[derive(Debug, Clone)]
pub enum Command {
    /// GET a value by key
    Get { key: String },
    /// SET a key to a value
    SetValue { key: String, value: String },
    /// DELETE a key
    Delete { key: String },
}

} // verus!
