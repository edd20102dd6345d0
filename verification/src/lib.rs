//! Turns a typed CloudFormation-style template into Mermaid flowchart markup:
//! it discovers which resources reference which others, collects the result as
//! a directed edge list, and renders one line of markup per edge.

pub mod ast;
pub mod cloudformation;
pub mod json;
pub mod laws;
pub mod text;
