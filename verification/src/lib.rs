//! Anonymous aggregate literals: the expansion of a unit, tuple or
//! named-field literal into a freshly declared generic type and the
//! expression that builds a value of it.
//!
//! A literal is `Name`, `Name(e0, e1)` or `Name { f0: e0, f1 }`, with or
//! without the name. It expands to one block, `{ struct ...; value }`: the
//! declaration of a type with one type parameter for each field, and the
//! value of that type which holds the expressions of the literal. A type
//! that the literal does not name gets a made-up name.
//!
//! - [`tokens`]: token streams and what the contracts say of them.
//! - [`syntax`]: what is left to the parser of Rust syntax.
//! - [`input`]: the tokens of one invocation, by position.
//! - [`buf`]: text in a buffer of fixed size.
//! - [`names`]: the names that an expansion makes up.
//! - [`error`]: the ways in which a literal is refused.
//! - [`model`]: what the expansion of a literal is.
//! - [`emit`]: the emitters of the pieces of an expansion.
//! - [`expand`]: the expansion itself.
//! - [`laws`]: what holds of every expansion.

pub mod buf;
pub mod emit;
pub mod error;
pub mod expand;
pub mod input;
pub mod laws;
pub mod model;
pub mod names;
pub mod syntax;
pub mod tokens;
