//! Checked arithmetic over record types described by a schema.
//!
//! A record type is a named aggregate of fixed-width unsigned integer fields
//! and fixed-length arrays of such integers, optionally closed by a trailing
//! `_reserved` padding array. The [`schema`] module validates a raw field list
//! into a [`schema::Schema`]; the [`record`] and [`ops`] modules give every
//! record conforming to a schema its arithmetic API: construction, a zero
//! test, elementwise checked add/sub/mul/div, in-place assignment variants,
//! scalar multiply/divide, and fraction-based scaling at widened precision.
//! The [`laws`] module proves the algebraic laws that relate the operations.

pub mod assign;
pub mod laws;
pub mod ops;
pub mod record;
pub mod schema;
