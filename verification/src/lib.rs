//! In-memory stores behind a small HTTP quote-and-link service: an
//! append-only collection of quotes with unique identifiers, and a
//! short-code-to-URL table. The store logic is verified; the HTTP
//! layer around it only moves plain values in and out.

pub mod errors;
pub mod greet;
pub mod ids;
pub mod links;
pub mod quotes;
pub mod shared;
