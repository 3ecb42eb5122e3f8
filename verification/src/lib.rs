//! A small URL-shortening library: it maps submitted links to short
//! URL-safe identifiers, decodes the two request-body encodings in which a
//! link may be submitted, and dispatches requests to the mapping store.

pub mod bytes;
pub mod form;
pub mod handler;
pub mod idgen;
pub mod multipart;
pub mod store;
