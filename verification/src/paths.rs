//! Directories by the bytes of their paths.
use std::path::PathBuf;
use vstd::prelude::*;

verus! {

/// `std::path::PathBuf`, a path in the form of the platform. It need not be text.
#[verifier::external_type_specification]
#[verifier::external_body]
pub struct ExPathBuf(PathBuf);

/// The bytes that a `std::path::PathBuf` holds, in the encoding of the platform.
pub uninterp spec fn path_of(path: PathBuf) -> Seq<u8>;

/// `PathBuf::clone` duplicates the path: the copy holds the same bytes.
pub assume_specification[ <PathBuf as Clone>::clone ](path: &PathBuf) -> (copy: PathBuf)
    ensures
        path_of(copy) == path_of(*path),
;

} // verus!
