//! Type identities and location tags.
//!
//! A [`SpectaID`] names a type: it holds a canonical name, which is the scope
//! in which the type is declared, and an identity token, which tells the type
//! from every other. Identities are equal if their tokens are, and are
//! ordered by name first, so that a registry keyed by them is walked in an
//! order that does not change from one run to the next.
//!
//! An [`ImplLocation`] holds the text that says where a type was registered.

pub mod identity;
pub mod lexical;
pub mod location;
pub mod name;
pub mod relation;
pub mod text;
pub mod token;

pub use identity::SpectaID;
pub use location::ImplLocation;
