//! The closed set of error kinds the library reports.

use vstd::prelude::*;

verus! {

/// Everything that can go wrong in a backdrop operation.
///
/// `Transport` and `Io` carry the underlying collaborator's message so a
/// report can show the cause; the other kinds are fully described by the
/// variant itself.
#[derive(Debug)]
pub enum BackdropError {
    /// A configuration-service call failed (timeout, lost connection).
    Transport(String),
    /// A property value was absent or of an unexpected type.
    Schema,
    /// No monitor could be discovered from the property namespace.
    NoTopology,
    /// The candidate pool was exhausted without finding an existing file.
    NoImage,
    /// The list file could not be opened or read.
    Io(String),
    /// A list file offered for saving holds no currently existing image.
    Validation,
}

impl BackdropError {
    /// What a report prints for this error, before any carried cause.
    pub open spec fn describe_spec(&self) -> Seq<char> {
        match self {
            BackdropError::Transport(_) => "configuration service call failed"@,
            BackdropError::Schema => "property value absent or of unexpected type"@,
            BackdropError::NoTopology => "no monitors discovered"@,
            BackdropError::NoImage => "could not pick an image from the list"@,
            BackdropError::Io(_) => "could not read the list file"@,
            BackdropError::Validation => "list file holds no existing image"@,
        }
    }

    /// A short description of the error kind.
    pub fn describe(&self) -> (r: &'static str)
        ensures
            r@ == self.describe_spec(),
    {
        match self {
            BackdropError::Transport(_) => "configuration service call failed",
            BackdropError::Schema => "property value absent or of unexpected type",
            BackdropError::NoTopology => "no monitors discovered",
            BackdropError::NoImage => "could not pick an image from the list",
            BackdropError::Io(_) => "could not read the list file",
            BackdropError::Validation => "list file holds no existing image",
        }
    }
}

/// Judge a list file offered for saving by the trial pick over its
/// candidates: a pool without a single existing image is a validation
/// failure; any other selector failure keeps its cause.
pub fn list_validation(pick: Result<String, BackdropError>) -> (r: Result<(), BackdropError>)
    ensures
        pick is Ok ==> r is Ok,
        pick is Err ==> r is Err,
        (pick matches Err(e) && e is NoImage) ==> (r matches Err(e2) && e2 is Validation),
        (pick matches Err(e) && !(e is NoImage)) ==> r == Err::<(), BackdropError>(pick->Err_0),
{
    match pick {
        Ok(_) => Ok(()),
        Err(BackdropError::NoImage) => Err(BackdropError::Validation),
        Err(e) => Err(e),
    }
}

} // verus!
