use std::sync::Arc;
use vstd::prelude::*;

verus! {

/// An immutable byte buffer that several holders may share without copying.
#[derive(Debug)]
pub struct Blob {
    data: Arc<Vec<u8>>,
}

impl View for Blob {
    type V = Seq<u8>;

    closed spec fn view(&self) -> Seq<u8> {
        self.data@
    }
}

/// Relies on `Arc::clone`: the new pointer refers to the same value.
#[verifier::external_body]
fn share_bytes(a: &Arc<Vec<u8>>) -> (r: Arc<Vec<u8>>)
    ensures
        r@ == a@,
{
    Arc::clone(a)
}

impl Blob {
    /// Takes ownership of `bytes` as the blob's contents.
    pub fn from_vec(bytes: Vec<u8>) -> (r: Blob)
        ensures
            r@ == bytes@,
    {
        Blob { data: Arc::new(bytes) }
    }

    /// A second handle on the same contents.
    pub fn share(&self) -> (r: Blob)
        ensures
            r@ == self@,
    {
        Blob { data: share_bytes(&self.data) }
    }

    pub fn len(&self) -> (r: usize)
        ensures
            r == self@.len(),
    {
        self.data.len()
    }

    /// The contents as a slice.
    pub fn as_slice(&self) -> (r: &[u8])
        ensures
            r@ == self@,
    {
        self.data.as_slice()
    }

    /// A copy of the contents.
    pub fn to_vec(&self) -> (r: Vec<u8>)
        ensures
            r@ == self@,
    {
        vstd::slice::slice_to_vec(self.data.as_slice())
    }
}

} // verus!
