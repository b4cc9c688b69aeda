use vstd::prelude::*;

pub mod batches;
pub mod binary_op;
pub mod bytes;
pub mod chains;
pub mod concat;
pub mod error;
pub mod format;
pub mod hubs;
pub mod layout;
pub mod lights;
pub mod mask;
pub mod mesh;
pub mod ops;
pub mod placement;
pub mod pointwise;
pub mod raster;
pub mod route_index;
pub mod routes;
pub mod signature;
pub mod text;
pub mod tiles;

verus! {

/// The file-system path type that argument structs carry; the library only
/// moves such values around and never looks inside one.
#[verifier::external_type_specification]
#[verifier::external_body]
pub struct ExPathBuf(std::path::PathBuf);

} // verus!

verus! {

/// `PathBuf::clone` (which argument structs' derived `Clone` calls): copies
/// the path. Nothing is stated of the copy, since the library never looks
/// inside a path.
pub assume_specification[ <std::path::PathBuf as Clone>::clone ](p: &std::path::PathBuf) -> std::path::PathBuf;

} // verus!
