//! Bookmark and tag bookkeeping: who saved which page, under which tags.
//!
//! A bookmark is one saved page, shared by everybody who saved its URL.
//! What a user attached to it, an ordered list of tags and two timestamps,
//! is kept apart in an association of that user with that bookmark, and
//! there is never more than one association per bookmark and user.
//!
//! * [`model`] holds the records and [`store`] the two tables with the
//!   operations on them; [`store_view`] says what each operation does, over
//!   plain sequences of rows.
//! * [`endpoints`] holds the request handlers and [`error`] the failures and
//!   their HTTP answers; [`client`] is the other end of the wire.
//! * [`theorems`] states what holds of the operations taken together.
//! * [`text`], [`field_errors`] and [`sequences`] hold what the others share.
//!
//! The library does no I/O and reads no clock. Users are identified by
//! 128-bit numbers, instants are microseconds since the Unix epoch, and the
//! current time and fresh identifiers are arguments of the operations that
//! need them.

pub mod client;
pub mod endpoints;
pub mod error;
pub mod field_errors;
pub mod model;
pub mod sequences;
pub mod store;
pub mod store_view;
pub mod text;
pub mod theorems;
