pub mod functions;
pub mod operations;
pub mod runtime;
pub mod values;
