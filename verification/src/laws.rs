//! What holds of the library as a whole, stated over the same functions
//! as the contracts and proved from their definitions.

pub mod rows;
pub mod scan;
pub mod search;
pub mod tables;
