use vstd::prelude::*;

pub mod bytes;
pub mod codec;
pub mod commit;
pub mod compress;
pub mod hash;
pub mod history;
pub mod repo;
pub mod store;
pub mod tree;

verus! {

} // verus!
