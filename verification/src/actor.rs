pub mod context;
pub mod supervisor;
