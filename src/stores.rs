//! Stand-alone stores of compile-time definitions.
pub mod variable_store;
