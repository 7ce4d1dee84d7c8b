//! Log-tail handling and run lookup for the runs service of an agent backend.

pub mod text;
pub mod log_tail;
pub mod json;
pub mod display;
pub mod run;
pub mod lookup;
