//! The micro transport protocol.

use vstd::prelude::*;

verus! {

#[derive(Clone, Copy, Debug, PartialEq, Eq, Structural)]
pub enum UtpMessage {
    Data,
    Fin,
    State,
    Reset,
    Syn,
}

/// The numbers of a connection.
#[derive(Clone, Copy, Debug, PartialEq, Eq, Structural)]
pub struct UtpNumbers {
    pub connection_id: u16,
    pub seq_nr: u16,
    pub ack_nr: u16,
}

impl UtpNumbers {
    /// The numbers that a connection begins with.
    pub fn new() -> (numbers: Self)
        ensures
            numbers == (UtpNumbers { connection_id: 0, seq_nr: 1, ack_nr: 0 }),
    {
        UtpNumbers { connection_id: 0, seq_nr: 1, ack_nr: 0 }
    }
}

} // verus!
