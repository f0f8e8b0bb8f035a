//! Semantic linking and validation of parsed ASN.1 top-level definitions.
//!
//! The crate takes the definitions of one or more ASN.1 modules, resolves the
//! references among them (class links, `COMPONENTS OF`, selection types,
//! object sets, values used in constraints), checks the linked definitions
//! and groups the valid ones by module.

pub mod intermediate;
pub mod modules;
pub mod order;
pub mod validator;
