//! M3U / M3U8 playlist writing and stable entry identifiers, with the
//! behaviour of every function stated in its contract and proved by Verus.

pub mod text;
pub mod id;
pub mod attr_map;
pub mod types;
pub mod writer;
