//! The protocol layer of a small static-file server: parsing a request from
//! the text received, and writing the response to it.
//!
//! - [`text`] says what searching, splitting and trimming mean on sequences
//!   of characters, and [`scan`] does them on slices.
//! - [`http::grammar`] says what a request text means, and
//!   [`http::request`] parses it accordingly; [`http::laws`] holds what
//!   follows for every request.
//! - [`http::response`] builds the response from a request and from what
//!   was found at the path it asks for. Looking that up is left to the
//!   caller: nothing here touches the file system or the network.

pub mod http;
pub mod scan;
pub mod text;
