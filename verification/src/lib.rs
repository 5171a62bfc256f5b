//! A font design-space document model with its markup codec, and a descriptor
//! that selects which categories of a font source's data are loaded.
//!
//! A document is decoded in two steps: markup text is read into tokens
//! ([`reader`]), and the tokens are decoded into the model ([`designspace`]).
//! Encoding goes the other way ([`encode`], [`writer`]). That the tokens of a
//! document decode to the document is proved in [`round_trip`].

pub mod data_request;
pub mod designspace;
pub mod encode;
pub mod markup;
pub mod number;
pub mod reader;
pub mod round_trip;
pub mod structure;
pub mod writer;
