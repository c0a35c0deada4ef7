use vstd::prelude::*;

pub mod laws;
pub mod method;
pub mod path;
pub mod router;
pub mod tree;

pub use method::Method;
pub use path::join_paths;
pub use router::Router;

verus! {

} // verus!
