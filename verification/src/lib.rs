//! A small front end for a textual graph-description language: a scanner
//! that turns text into classified tokens, and a recursive-descent parser
//! that turns the token stream into a graph of nodes, edges and attributes.

pub mod graph;
pub mod parser;
pub mod token;
