//! Moxi: a small language for describing voxel art.
//!
//! Source text is lexed into tokens, parsed into an abstract syntax tree,
//! and evaluated against a name environment into a scene graph of placed
//! model instances; the scene graph flattens into a list of colored unit
//! cubes in world coordinates.

pub mod ast;
pub mod builtins;
pub mod colors;
pub mod commands;
pub mod expand;
pub mod export;
pub mod geom;
pub mod laws;
pub mod lexer;
pub mod parser;
pub mod runtime;
pub mod strutil;
pub mod types;
pub mod voxgrid;
