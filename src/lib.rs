pub mod consensus;
pub mod contract;
pub mod id;
pub mod infringement;
pub mod learning;
pub mod model;
pub mod rating;
pub mod ratios;
pub mod visibility;
