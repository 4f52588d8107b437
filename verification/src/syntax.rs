//! Identification of RDF syntaxes from MIME types.

use vstd::prelude::*;

verus! {

/// A syntax that carries triples.
#[derive(PartialEq, Eq, Structural, Clone, Copy, Debug)]
pub enum GraphSyntax {
    NTriples,
    Turtle,
    RdfXml,
}

/// A syntax that carries quads.
#[derive(PartialEq, Eq, Structural, Clone, Copy, Debug)]
pub enum DatasetSyntax {
    NQuads,
    TriG,
}

/// The graph syntax a MIME type names, if any.
pub open spec fn graph_syntax_of(m: Seq<char>) -> Option<GraphSyntax> {
    if m == "application/n-triples"@ {
        Some(GraphSyntax::NTriples)
    } else if m == "text/turtle"@ || m == "application/x-turtle"@ {
        Some(GraphSyntax::Turtle)
    } else if m == "application/rdf+xml"@ {
        Some(GraphSyntax::RdfXml)
    } else {
        None
    }
}

/// The dataset syntax a MIME type names, if any.
pub open spec fn dataset_syntax_of(m: Seq<char>) -> Option<DatasetSyntax> {
    if m == "application/n-quads"@ {
        Some(DatasetSyntax::NQuads)
    } else if m == "application/trig"@ {
        Some(DatasetSyntax::TriG)
    } else {
        None
    }
}

impl GraphSyntax {
    /// Maps a MIME type to the triple syntax it names.
    pub fn from_mime_type(mime: &str) -> (r: Option<GraphSyntax>)
        ensures
            r == graph_syntax_of(mime@),
    {
        let m: String = mime.to_owned();
        if m == "application/n-triples".to_owned() {
            Some(GraphSyntax::NTriples)
        } else if m == "text/turtle".to_owned() || m == "application/x-turtle".to_owned() {
            Some(GraphSyntax::Turtle)
        } else if m == "application/rdf+xml".to_owned() {
            Some(GraphSyntax::RdfXml)
        } else {
            None
        }
    }

    /// The canonical MIME type of the syntax.
    pub fn media_type(&self) -> (r: &'static str)
        ensures
            graph_syntax_of(r@) == Some(*self),
    {
        proof {
            reveal_strlit("application/n-triples");
            reveal_strlit("text/turtle");
            reveal_strlit("application/x-turtle");
            reveal_strlit("application/rdf+xml");
            assert("text/turtle"@.len() != "application/n-triples"@.len());
            assert("application/rdf+xml"@.len() != "application/n-triples"@.len());
            assert("application/rdf+xml"@.len() != "text/turtle"@.len());
            assert("application/rdf+xml"@.len() != "application/x-turtle"@.len());
        }
        match self {
            GraphSyntax::NTriples => "application/n-triples",
            GraphSyntax::Turtle => "text/turtle",
            GraphSyntax::RdfXml => "application/rdf+xml",
        }
    }
}

impl DatasetSyntax {
    /// Maps a MIME type to the quad syntax it names.
    pub fn from_mime_type(mime: &str) -> (r: Option<DatasetSyntax>)
        ensures
            r == dataset_syntax_of(mime@),
    {
        let m: String = mime.to_owned();
        if m == "application/n-quads".to_owned() {
            Some(DatasetSyntax::NQuads)
        } else if m == "application/trig".to_owned() {
            Some(DatasetSyntax::TriG)
        } else {
            None
        }
    }

    /// The canonical MIME type of the syntax.
    pub fn media_type(&self) -> (r: &'static str)
        ensures
            dataset_syntax_of(r@) == Some(*self),
    {
        proof {
            reveal_strlit("application/n-quads");
            reveal_strlit("application/trig");
            assert("application/trig"@.len() != "application/n-quads"@.len());
        }
        match self {
            DatasetSyntax::NQuads => "application/n-quads",
            DatasetSyntax::TriG => "application/trig",
        }
    }
}

} // verus!
