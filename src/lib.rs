//! Resolution of message templates against named field values.
//!
//! A template such as `"user {name} logged in after {attempts: 3} tries"` is
//! split into literal text and named holes; the holes are then reconciled with
//! an extra list of field values into one record whose fields are unique by
//! name, laid out in sorted order, with a map from rendering order to that
//! sorted layout.
pub mod field;
pub mod resolve;
pub mod sort;
pub mod template;
pub mod record;
