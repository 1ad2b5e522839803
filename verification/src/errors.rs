//! Error values for the two ways a run can fail before any file is read:
//! a malformed path list, and a file name whose extension cannot be
//! classified for code fencing.

use vstd::prelude::*;
use vstd::string::StringExecFns;

verus! {

/// A path list that cannot be validated: it yields no tokens at all, or
/// one of its tokens does not satisfy the path grammar.
#[derive(Debug)]
pub enum ValidationError {
    /// Splitting the input left no tokens: no file paths were supplied.
    EmptyPathList,
    /// A token that does not satisfy the path grammar; carries the
    /// offending token exactly as it appeared in the option value.
    InvalidPath { path: String },
}

impl ValidationError {
    /// The human-readable description of the failure.
    pub fn message(&self) -> (r: String)
        ensures
            (self matches ValidationError::EmptyPathList ==> r@
                == "No file paths have been supplied."@),
            (self matches ValidationError::InvalidPath { path } ==> r@ == path@
                + " is not a valid path."@),
    {
        match self {
            ValidationError::EmptyPathList => String::from_str(
                "No file paths have been supplied.",
            ),
            ValidationError::InvalidPath { path } => path.clone().concat(" is not a valid path."),
        }
    }
}

/// A file name whose extension cannot be mapped to a fenced-code-block
/// language tag.
#[derive(Debug)]
pub enum ExtensionError {
    /// No extension pattern occurs in the file name at all.
    Missing { file: String, path: String },
    /// An extension was found but is not in the supported table; carries
    /// the raw extension text, dot included.
    Unsupported { extension: String },
}

impl ExtensionError {
    /// The human-readable description of the failure.
    pub fn message(&self) -> (r: String)
        ensures
            (self matches ExtensionError::Missing { file, path } ==> r@
                == "No extension was found for file with name '"@ + file@ + "' on path '"@ + path@
                + "'."@),
            (self matches ExtensionError::Unsupported { extension } ==> r@
                == "Unsupported extension "@ + extension@ + "."@),
    {
        match self {
            ExtensionError::Missing { file, path } => String::from_str(
                "No extension was found for file with name '",
            ).concat(file.as_str()).concat("' on path '").concat(path.as_str()).concat("'."),
            ExtensionError::Unsupported { extension } => String::from_str(
                "Unsupported extension ",
            ).concat(extension.as_str()).concat("."),
        }
    }
}

} // verus!
