//! A registry of management endpoints with dense record numbers and a single
//! default, and the command line that is built from the default record.

pub mod address;
pub mod host;
pub mod laws;
pub mod model;
pub mod table;
