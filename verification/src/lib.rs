//! An embeddable RDF quad store with a verified core: a term model,
//! a string dictionary, a fixed-width term encoding, a six-index
//! pattern-matching store, a loader for parsed RDF documents, and a
//! basic-graph-pattern evaluator.

use vstd::prelude::*;

pub mod model;
pub mod valid;
pub mod dict;
pub mod digits;
pub mod encoded;
pub mod store;
pub mod syntax;
pub mod rioread;
pub mod loader;
pub mod eval;

verus! {

/// The error kinds surfaced by the core.
#[derive(Debug)]
pub enum Error {
    /// A string offered as an IRI does not follow the RFC 3987 grammar.
    InvalidIri,
    /// A string offered as a language tag does not follow the BCP-47 grammar.
    InvalidLanguageTag,
    /// An external parser rejected a document; carries its message.
    ParseError(String),
    /// A target graph was supplied together with a dataset (quad) syntax.
    GraphNameNotApplicable,
    /// A MIME type that maps to no supported syntax.
    UnsupportedSyntax,
    /// A document whose statements do not fit the store's machine
    /// limits (dictionary ids and the blank-node counter are 64-bit).
    CapacityExceeded,
    /// An id stored in an index has no dictionary entry.
    DictionaryCorrupted,
}

impl Error {
    /// A short human-readable description of the error.
    pub fn message(&self) -> (r: String)
        ensures
            self is InvalidIri ==> r@ == "invalid IRI"@,
            self is InvalidLanguageTag ==> r@ == "invalid language tag"@,
            self matches Error::ParseError(m) ==> r@ == m@,
            self is GraphNameNotApplicable ==> r@
                == "the target graph name parameter is not available for dataset formats"@,
            self is UnsupportedSyntax ==> r@ == "not supported MIME type"@,
            self is CapacityExceeded ==> r@ == "document too large for this store"@,
            self is DictionaryCorrupted ==> r@ == "dictionary corrupted"@,
    {
        match self {
            Error::InvalidIri => "invalid IRI".to_owned(),
            Error::InvalidLanguageTag => "invalid language tag".to_owned(),
            Error::ParseError(m) => m.clone(),
            Error::GraphNameNotApplicable => {
                "the target graph name parameter is not available for dataset formats".to_owned()
            },
            Error::UnsupportedSyntax => "not supported MIME type".to_owned(),
            Error::CapacityExceeded => "document too large for this store".to_owned(),
            Error::DictionaryCorrupted => "dictionary corrupted".to_owned(),
        }
    }
}

} // verus!
