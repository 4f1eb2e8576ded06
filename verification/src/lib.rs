//! Conversion between two graph serialization formats: line-oriented GML
//! (`graph [ ... ]` blocks of `key value` pairs) and XML-based GraphML
//! (`<key>`, `<graph>`, `<node>`, `<edge>`, `<data>` elements).
//!
//! The core works on plain values: GML text as a vector of lines, GraphML
//! as a vector of XML events. Reading files and tokenizing XML belong to
//! the thin shim around this library.
//!
//! The passes live in [`gml_to_graphml`] (the GML line parser driving the
//! GraphML event writer in [`graphml_writer`]), [`graphml_to_gml`] (the
//! GraphML event parser driving the GML line writer in [`gml_writer`]), and
//! [`gml_filter`] (the GML cleanup pass). They share the value model in
//! [`value`], the dict/list encoding in [`json`], the attribute-key
//! registry in [`registry`], and the token grammars in [`numeric`]. The
//! laws the passes obey are stated and proved in [`laws`].
#![verifier::loop_isolation(false)]

pub mod errors;
pub mod gml_filter;
pub mod gml_to_graphml;
pub mod gml_writer;
pub mod graphml_to_gml;
pub mod graphml_writer;
pub mod json;
pub mod laws;
pub mod numeric;
pub mod registry;
pub mod strutil;
pub mod value;
pub mod xml;
