pub mod authz;
pub mod cell;
pub mod convert;
pub mod error;
pub mod names;
pub mod passwd;
pub mod text;
