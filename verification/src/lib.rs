//! A verified scanner for TypeScript-style declaration files.
//!
//! The library reads declaration text (`interface Foo { ... }` or
//! `type Foo = { ... }`), collects the declared types with their
//! properties, partitions them into elemental (configured primitive)
//! and composite types, and links composite types to the types their
//! properties reference.

pub mod graph;
pub mod lexer;
pub mod parser;
pub mod settings;
pub mod types;
pub mod watch;

use vstd::prelude::*;

verus! {

/// A character that separates tokens: space, tab, carriage return or newline.
pub open spec fn is_space(c: char) -> bool {
    c == ' ' || c == '\t' || c == '\n' || c == '\r'
}

/// A character that may begin an identifier.
pub open spec fn is_ident_start(c: char) -> bool {
    ('a' <= c && c <= 'z') || ('A' <= c && c <= 'Z') || c == '_'
}

/// A character that may continue an identifier.
pub open spec fn is_ident_char(c: char) -> bool {
    is_ident_start(c) || ('0' <= c && c <= '9')
}

} // verus!
