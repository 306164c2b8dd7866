//! Shared buffers for replies.

use std::sync::Arc;
use vstd::prelude::*;

verus! {

/// A buffer that can be handed to a writer while others still hold it.
#[derive(Debug)]
pub struct SharedBuffer<T>(pub Arc<T>);

impl<T> SharedBuffer<T> {
    pub fn new(t: Arc<T>) -> (buffer: SharedBuffer<T>)
        ensures
            buffer.0 == t,
    {
        SharedBuffer(t)
    }
}

impl View for SharedBuffer<Vec<u8>> {
    type V = Seq<u8>;

    /// The bytes in the buffer.
    open spec fn view(&self) -> Seq<u8> {
        (*self.0)@
    }
}

impl AsRef<[u8]> for SharedBuffer<Vec<u8>> {
    fn as_ref(&self) -> (bytes: &[u8])
        ensures
            bytes@ == self@,
    {
        self.0.as_slice()
    }
}

} // verus!
