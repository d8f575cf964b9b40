//! Decoding of guitar tablature documents into one canonical song model.
//!
//! The library covers the zip-contained XML generation (token cursor,
//! property blocks, schema readers and the id-graph resolver) and the
//! sequential-offset binary generations, together with the duration and
//! tuplet arithmetic that both share.
pub mod duration;
pub mod signature;
pub mod song;
pub mod text;
pub mod token;
pub mod cursor;
pub mod property;
pub mod schema;
pub mod convert;
pub mod load;
pub mod binary;
pub mod legacy;
pub mod body;
pub mod tuxguitar;
