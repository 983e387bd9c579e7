//! Telemetry ingestion and status rendering for a terminal application
//! launcher.
//!
//! A background producer writes a stream of newline-delimited records to a
//! local socket. This crate reassembles the byte stream into records
//! ([`framing`]), decodes each record into a typed resource update
//! ([`record`]), folds the updates into a status map of rendered fragments
//! ([`status`]), and composes the fixed-order status rows that the interactive
//! loop redraws. It also holds the pure parts of the launcher itself: catalog
//! filtering, selection and key handling, icon-repaint bookkeeping, and the
//! preparation of a launch command ([`catalog`]).
//!
//! All terminal, socket and process work lives outside this crate; the
//! functions here are total on the plain values they are handed.

pub mod bytes;
pub mod catalog;
pub mod color;
pub mod framing;
pub mod record;
pub mod scan;
pub mod status;

pub use color::Rgb;
