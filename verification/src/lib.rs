//! A message hydration engine: templates for structured outbound messages
//! carry placeholder variables and base64-encoded nested sub-messages; given
//! a list of name/value bindings, the engine decodes the nesting, substitutes
//! the variables, and re-encodes the result for dispatch.

pub mod contract;
pub mod decode;
pub mod encode;
pub mod error;
pub mod subst;
pub mod table;
pub mod ext;
pub mod text;
