//! What stops a compilation.

use crate::bytes::{append, literal, text};
use vstd::prelude::*;

verus! {

/// Why a Make compilation could not go on.
#[derive(Debug)]
pub enum MakeError {
    /// The makefiles, or a recursive recipe of theirs, could not be evaluated.
    Evaluate(Vec<u8>),
    /// A recursive invocation names a directory with no makefile in it.
    MissingChildMakefile { directory: Vec<u8> },
}

/// What an error is, as its model.
pub ghost enum Failure {
    Evaluate(Seq<u8>),
    MissingChildMakefile(Seq<u8>),
}

impl MakeError {
    /// The error as its model.
    pub open spec fn model(&self) -> Failure {
        match self {
            MakeError::Evaluate(why) => Failure::Evaluate(why@),
            MakeError::MissingChildMakefile { directory } => Failure::MissingChildMakefile(
                directory@,
            ),
        }
    }
}

/// `before` followed by `after`, as one message.
pub fn message(before: &str, after: &[u8]) -> (said: Vec<u8>)
    ensures
        said@ == text(before) + after@,
{
    let mut said: Vec<u8> = literal(before);
    append(&mut said, after);
    said
}

} // verus!
