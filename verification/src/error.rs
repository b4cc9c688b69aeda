use vstd::prelude::*;

verus! {

/// Errors that the processing logic reports.
#[derive(Debug, Clone)]
pub enum ProcessError {
    /// The inputs cannot be processed together as given; the text says why.
    InvalidInput(String),
}

/// `r` is an `InvalidInput` error with the text `msg`.
pub open spec fn is_invalid_input<T>(r: Result<T, ProcessError>, msg: Seq<char>) -> bool {
    r matches Err(ProcessError::InvalidInput(m)) && m@ == msg
}

} // verus!
