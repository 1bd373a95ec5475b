//! The types from outside that the library carries through.

use vstd::prelude::*;

verus! {

/// A path of the filesystem. The library carries paths through and never looks
/// into one.
#[verifier::external_type_specification]
#[verifier::external_body]
pub struct ExPathBuf(std::path::PathBuf);

/// A tag of the `id3` crate. The library speaks of what it holds, and never
/// looks into one.
#[verifier::external_type_specification]
#[verifier::external_body]
pub struct ExTag(id3::Tag);

/// A set of metadata blocks of the `metaflac` crate. The library speaks of
/// what it holds, and never looks into one.
#[verifier::external_type_specification]
#[verifier::external_body]
pub struct ExBlocks(metaflac::Tag);

} // verus!
