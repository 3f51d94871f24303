//! What goes wrong between the two ends, and whether a later attempt might
//! not meet it.

use vstd::prelude::*;

verus! {

/// A failure in words, and whether trying again is worth anything.
#[derive(Debug, PartialEq, Eq)]
pub struct TransportError {
    pub message: String,
    /// A later attempt might not meet the same trouble.
    pub retryable: bool,
}

/// What a [`TransportError`] says.
#[verifier::ext_equal]
pub struct Fault {
    pub message: Seq<char>,
    pub retryable: bool,
}

impl View for TransportError {
    type V = Fault;

    open spec fn view(&self) -> Fault {
        Fault { message: self.message@, retryable: self.retryable }
    }
}

impl Clone for TransportError {
    fn clone(&self) -> (copy: Self)
        ensures
            copy == *self,
    {
        TransportError { message: self.message.clone(), retryable: self.retryable }
    }
}

impl TransportError {
    /// A failure that trying again will meet again.
    #[must_use]
    pub fn permanent(message: &str) -> (error: Self)
        ensures
            error@ == fault(message@),
    {
        TransportError { message: message.to_owned(), retryable: false }
    }

    /// A failure that a later attempt might not meet.
    #[must_use]
    pub fn retryable(message: &str) -> (error: Self)
        ensures
            error@ == (Fault { message: message@, retryable: true }),
    {
        TransportError { message: message.to_owned(), retryable: true }
    }
}

/// The failure that says `message` and is not worth another attempt.
pub open spec fn fault(message: Seq<char>) -> Fault {
    Fault { message, retryable: false }
}

/// A peer that does not speak the protocol, which no later attempt will
/// change.
#[must_use]
pub fn protocol_error(message: &str) -> (error: TransportError)
    ensures
        error@ == fault(message@),
{
    TransportError::permanent(message)
}

/// What a result says: the value's model, or the failure's.
pub open spec fn outcome<T: DeepView>(result: Result<T, TransportError>) -> Result<T::V, Fault> {
    match result {
        Ok(value) => Ok(value.deep_view()),
        Err(error) => Err(error@),
    }
}

/// The deep model of bytes is the bytes.
pub broadcast proof fn lemma_deep_bytes(bytes: Vec<u8>)
    ensures
        #[trigger] bytes.deep_view() == bytes@,
{
    assert(bytes.deep_view() =~= bytes@);
}

} // verus!
