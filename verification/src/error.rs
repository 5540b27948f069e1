//! The error type raised at gadget construction and witness-assignment
//! boundaries and propagated undecorated through every composing gadget.

use vstd::prelude::*;

verus! {

/// A failure while building a circuit or assigning a witness: the error
/// type every gadget constructor and assignment propagates. All of this
/// library's constructors and assignments promise success in their
/// contracts, so no verified function produces a value of it; the type is
/// the propagation interface composing gadgets share.
#[derive(Clone, Copy, Debug, PartialEq, Eq, Structural)]
pub enum ZKVMError {
    /// A witness value inconsistent with the circuit's declared ranges.
    InvalidWitness,
}

} // verus!
