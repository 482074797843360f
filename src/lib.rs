//! Cuts the step trace of a zkWasm run into bounded slices for proof circuits,
//! keeping every host-call group whole, together with the tables and host helpers
//! that the slices are built from.

pub mod error_code;
pub mod etable;
pub mod jtable;
pub mod external_host_call_table;
pub mod slice;
pub mod flush_strategy;
pub mod transaction;
pub mod output;
pub mod bytes;
pub mod debug_helper;
pub mod function_dispatcher;
pub mod brtable;
pub mod imtable;
pub mod config;
pub mod tables;
pub mod kvpair;
