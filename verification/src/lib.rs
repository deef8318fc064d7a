//! A typed entity store and text round-trip engine for the STEP-style
//! exchange format used by building data models: numbered records,
//! keyword-dispatched codecs, schema attribute inheritance, and a
//! document driver that parses and re-serializes record sections
//! losslessly.

pub mod codec;
pub mod datamap;
pub mod geometry;
pub mod grammar;
pub mod id;
pub mod ifc;
pub mod material;
pub mod objects;
pub mod owner_history;
pub mod units;
