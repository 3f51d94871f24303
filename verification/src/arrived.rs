//! A Stream that arrived: its bytes, and where they came from.

use vstd::prelude::*;

verus! {

/// One Stream, with the URI that says what its origin knew.
#[derive(Debug, PartialEq, Eq)]
pub struct Arrived {
    pub origin_uri: String,
    pub bytes: Vec<u8>,
}

/// What an [`Arrived`] says.
#[verifier::ext_equal]
pub struct ArrivedView {
    pub origin_uri: Seq<char>,
    pub bytes: Seq<u8>,
}

impl View for Arrived {
    type V = ArrivedView;

    open spec fn view(&self) -> ArrivedView {
        ArrivedView { origin_uri: self.origin_uri@, bytes: self.bytes@ }
    }
}

impl DeepView for Arrived {
    type V = ArrivedView;

    open spec fn deep_view(&self) -> ArrivedView {
        self@
    }
}

impl Clone for Arrived {
    fn clone(&self) -> (copy: Self)
        ensures
            copy@ == self@,
    {
        Arrived {
            origin_uri: self.origin_uri.clone(),
            bytes: vstd::slice::slice_to_vec(self.bytes.as_slice()),
        }
    }
}

impl Arrived {
    /// `bytes` from `origin_uri`.
    #[must_use]
    pub fn new(origin_uri: String, bytes: Vec<u8>) -> (arrived: Self)
        ensures
            arrived@ == (ArrivedView { origin_uri: origin_uri@, bytes: bytes@ }),
    {
        Arrived { origin_uri, bytes }
    }
}

} // verus!
