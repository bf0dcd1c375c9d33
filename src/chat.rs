use vstd::prelude::*;

verus! {

/// A reference to a chat: its numeric identifier, or a symbolic handle that
/// the ledger resolves to one.
#[derive(Debug)]
pub enum ChatIdKind {
    ID(i64),
    Instance(String),
}

} // verus!
