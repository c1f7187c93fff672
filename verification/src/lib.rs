//! Payload extraction from 3MF archives and conversion of XML documents into
//! navigation trees, with machine-checked contracts.

pub mod dom;
pub mod laws;
pub mod threemf_reader;
pub mod tree;
pub mod viewer;
