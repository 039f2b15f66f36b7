//! The client's operations, each as a function of the replies that it gets.

use vstd::prelude::*;

verus! {

/// The Epoch client without its connections: each operation takes what the
/// outside answered and says what the client returns.
#[derive(Debug)]
pub struct EpochClient {}

} // verus!
