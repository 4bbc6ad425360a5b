use vstd::prelude::*;

verus! {

/// The service that sends and receives messages.
pub trait SignalManager {}

/// A signal manager that does nothing.
pub struct SignalManagerMock {}

impl SignalManagerMock {
    pub fn new() -> (r: SignalManagerMock) {
        SignalManagerMock {  }
    }
}

impl SignalManager for SignalManagerMock {}

} // verus!
