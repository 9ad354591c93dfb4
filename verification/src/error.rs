use vstd::prelude::*;

verus! {

/// The errors of the command line program.
pub enum CliError {
    /// A request to the Actionbook API failed; the text says why.
    ApiError(String),
    /// The program could not do its own work (files, paths); the text says why.
    Internal(String),
}

} // verus!
