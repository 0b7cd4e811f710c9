//! The ways in which the library's operations fail.
use vstd::prelude::*;
use crate::protocol::ProtocolTypeError;

verus! {

#[verifier::external_type_specification]
#[verifier::external_body]
pub struct ExEnvsubstError(envsubst::Error);

/// A failure of rendering, configuration parsing or remote resolution.
#[derive(Debug)]
pub enum ResolveError {
    /// A template names a variable that is not bound; it holds the name.
    UndefinedVariable(String),
    /// The substitution engine refused its variables.
    Envsubst(envsubst::Error),
    /// A configuration line has no `=`.
    ConfigFileFormat,
    /// A resolved remote has no fetch URL.
    FetchRequired,
    /// A configured review protocol is not known.
    Protocol(ProtocolTypeError),
}

} // verus!
