//! A bag: an unordered collection in which the same value may appear
//! several times, held in a growable array with an explicit count of live
//! entries and a capacity that grows by doubling.

pub mod bag;
pub mod element;
pub mod laws;

pub use bag::{Bag, BagError, BagIterator};
pub use element::plain_value;
