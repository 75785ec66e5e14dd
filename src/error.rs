use vstd::prelude::*;

verus! {

/// What can go wrong while a timeline document is resolved.
#[derive(PartialEq, Eq, Structural, Clone, Copy, Debug)]
pub enum Error {
    /// A timecode string or number is malformed, or too large for a `u64` of nanoseconds.
    InvalidTimestamp,
    /// An effect entry matches no registered effect parser.
    UnknownEffectKey,
    /// A document node has the wrong type or the wrong number of keys.
    MalformedShape,
    /// A start, duration or in-point was set on a project, which has no external anchor.
    IllegalProjectMutation,
    /// An output file's extension names no known encoding.
    UnsupportedExtension,
}

impl Error {
    /// A short human-readable description.
    pub fn message(&self) -> (r: &'static str) {
        match self {
            Error::InvalidTimestamp => "invalid timestamp",
            Error::UnknownEffectKey => "unknown effect key",
            Error::MalformedShape => "malformed document shape",
            Error::IllegalProjectMutation => "a project has no start, duration or in-point to set",
            Error::UnsupportedExtension => "unsupported output extension",
        }
    }
}

/// Raised when the media discovery collaborator cannot describe a source.
pub struct DiscovererError(pub String);

impl DiscovererError {
    /// The description carried by this error.
    pub fn message(&self) -> (r: &String)
        ensures
            r@ == self.0@,
    {
        &self.0
    }
}

} // verus!
