//! Resolution of the search parameters from a raw argument list.

use vstd::prelude::*;

verus! {

/// Why an argument list could not be resolved into [`Params`].
#[derive(Clone, Copy, Debug, PartialEq, Eq, Structural)]
pub enum ParseError {
    /// No query argument was supplied.
    MissingQuery,
    /// No file-path argument was supplied.
    MissingFilePath,
}

/// A resolved search request: what to look for, where, and whether the
/// search is case-insensitive.
pub struct Params {
    pub query: String,
    pub file_path: String,
    pub ignore_case: bool,
}

impl Params {
    /// Resolves [`Params`] from the raw argument list of an invocation.
    ///
    /// The first argument (the program name) is skipped; the next two
    /// become the query and the file path, and arguments beyond those are
    /// ignored.  `ignore_case` is the caller's environment toggle, passed
    /// through unchanged.
    pub fn build(args: &Vec<String>, ignore_case: bool) -> (r: Result<Params, ParseError>)
        ensures
            args@.len() <= 1 ==> r == Err::<Params, ParseError>(ParseError::MissingQuery),
            args@.len() == 2 ==> r == Err::<Params, ParseError>(ParseError::MissingFilePath),
            args@.len() >= 3 ==> (r matches Ok(p) && p.query == args@[1] && p.file_path
                == args@[2] && p.ignore_case == ignore_case),
    {
        if args.len() <= 1 {
            return Err(ParseError::MissingQuery);
        }
        if args.len() == 2 {
            return Err(ParseError::MissingFilePath);
        }
        let query = args[1].clone();
        let file_path = args[2].clone();
        Ok(Params { query, file_path, ignore_case })
    }
}

} // verus!
