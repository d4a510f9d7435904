pub mod enhvec;
pub mod inner;
pub mod laws;
pub mod integer;
pub mod order;
pub mod sets;
pub mod sorting;
pub mod state;
pub mod stats;

pub use enhvec::EnhVec;
pub use integer::Integer;
pub use state::Sorting;
