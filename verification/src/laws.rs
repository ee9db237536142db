//! Laws of the operations, stated of the functions themselves: what must hold of
//! whatever a call returns, and how calls relate to each other.

pub mod findings;
pub mod runs;
pub mod shown;
pub mod trees;
