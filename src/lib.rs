//! Samples of calls made across a language boundary, each of which returns a
//! value or a structured exception record that the host can catch.
pub mod boundary;
pub mod samples;
pub mod text;
pub mod record;
