//! A verified value bridge between an embedded scripting runtime (the guest)
//! and a host application environment.
//!
//! The bridge is built around a closed tagged [`value::Value`] type that every
//! boundary crossing goes through:
//!
//! - [`from_guest`] turns a guest scalar or composite into a `Value`;
//! - [`reader`] turns a host value into a `Value`;
//! - [`materialize`] turns a `Value` into concrete host-side values;
//! - [`to_guest`] turns a host value or a `Value` into the guest's native
//!   representation.
//!
//! The converters lean on [`digits`] for the exact decimal forms the key
//! rules depend on, and [`config`] holds the library-selection flags the
//! guest runtime is created with. [`laws`] states and proves the
//! properties that relate the converters to one another.
//!
//! All conversions are pure and synchronous; the runtime glue that feeds them
//! (script loading, globals, callback delivery) lives outside this crate.

pub mod config;
pub mod digits;
pub mod error;
pub mod from_guest;
pub mod guest;
pub mod host;
pub mod laws;
pub mod materialize;
pub mod reader;
pub mod to_guest;
pub mod value;

pub use error::Error;
