//! Error taxonomy: each component surfaces failures to its caller
//! immediately; nothing is retried internally and no defaults are
//! substituted for missing required data.

use vstd::prelude::*;

verus! {

/// A manifest document could not be converted into a model instance.
#[derive(Clone, Debug, PartialEq, Eq)]
pub enum ParseError {
    /// A required field or element was absent; carries the path of the
    /// missing item.
    MissingField(String),
    /// A field held text that does not parse as its declared type;
    /// carries the path of the offending item and the raw text.
    InvalidValue(String, String),
}

/// A representation's media data could not be resolved to segment URLs.
#[derive(Clone, Copy, Debug, PartialEq, Eq, Structural)]
pub enum ResolutionError {
    /// The representation addresses its media through `SegmentBase` or
    /// `SegmentTemplate`, which are schema-recognized but not resolvable.
    UnsupportedAddressing,
}

/// A segmented or flat download aborted; nothing is retried.
#[derive(Clone, Copy, Debug, PartialEq, Eq, Structural)]
pub enum RetrievalError {
    /// The transport failed while fetching the segment at this ordinal
    /// index of the URL sequence.
    TransportFailure { index: usize },
    /// The caller-supplied per-chunk callback refused a chunk that
    /// arrived while fetching the segment at this ordinal index.
    CallbackFailure { index: usize },
}

/// The metadata endpoint's response could not be turned into a catalog.
#[derive(Clone, Copy, Debug, PartialEq, Eq, Structural)]
pub enum MetadataError {
    /// The transport failed before a complete response body arrived.
    Transport,
    /// The URL-encoded envelope did not decode, or it lacks the field
    /// that carries the payload.
    Envelope,
    /// The embedded payload does not match the expected schema.
    Schema,
}

impl ParseError {
    /// The path of the document item this error is about.
    pub fn path(&self) -> (r: &String)
        ensures
            r@ == self.path_spec(),
    {
        match self {
            ParseError::MissingField(p) => p,
            ParseError::InvalidValue(p, _) => p,
        }
    }

    /// The path of the document item this error is about.
    pub open spec fn path_spec(&self) -> Seq<char> {
        match self {
            ParseError::MissingField(p) => p@,
            ParseError::InvalidValue(p, _) => p@,
        }
    }
}

} // verus!
