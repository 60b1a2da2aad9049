//! What the clients share: how a request can fail.
use crate::text::same_text;
use vstd::prelude::*;

verus! {

/// Why a request failed, as far as the library reads it.
#[derive(Debug, Clone, PartialEq, Eq)]
pub struct RequestError {
    /// What went wrong, in words.
    pub message: String,
    /// Whether the registry answered that what was asked for does not exist.
    pub not_found: bool,
}

/// What a request brings.
pub type RequestResult<T> = Result<T, RequestError>;

impl RequestError {
    /// An error on the side of the client.
    pub fn client(message: String) -> (e: RequestError)
        ensures
            e.message == message,
            !e.not_found,
    {
        RequestError { message, not_found: false }
    }

    /// Whether the registry answered that what was asked for does not exist.
    pub fn is_not_found_error(&self) -> (b: bool)
        ensures
            b == self.not_found,
    {
        self.not_found
    }
}

/// Whether a result is a failure, which a cache keeps for a shorter time.
pub fn is_failure<T>(result: &RequestResult<T>) -> (b: bool)
    ensures
        b == result is Err,
{
    result.is_err()
}

/// Whether a value is missing, which a cache keeps for a shorter time.
pub fn is_absent<T>(value: &Option<T>) -> (b: bool)
    ensures
        b == value is None,
{
    value.is_none()
}

/// Whether no name stands twice in a list of things by their names. Such a list stands for a
/// map.
pub open spec fn has_distinct_names<T>(pairs: Seq<(String, T)>) -> bool {
    forall|i: int, j: int|
        0 <= i < j < pairs.len() ==> (#[trigger] pairs[i]).0@ != (#[trigger] pairs[j]).0@
}

/// Decides whether no name stands twice in a list of things by their names.
pub fn distinct_names<T>(pairs: &Vec<(String, T)>) -> (b: bool)
    ensures
        b == has_distinct_names(pairs@),
{
    let mut j: usize = 0;
    while j < pairs.len()
        invariant
            j <= pairs.len(),
            forall|a: int, b: int|
                0 <= a < b < j ==> (#[trigger] pairs@[a]).0@ != (#[trigger] pairs@[b]).0@,
        decreases pairs.len() - j,
    {
        let mut i: usize = 0;
        while i < j
            invariant
                i <= j < pairs.len(),
                forall|a: int| 0 <= a < i ==> (#[trigger] pairs@[a]).0@ != pairs@[j as int].0@,
            decreases j - i,
        {
            if same_text(pairs[i].0.as_str(), pairs[j].0.as_str()) {
                return false;
            }
            i = i + 1;
        }
        j = j + 1;
    }
    true
}

} // verus!
