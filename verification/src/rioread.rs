//! The boundary to the external RDF parsers (`rio_turtle`, `rio_xml`):
//! declarations of their term model, conversion into the library's
//! plain parsed-triple form, and one trusted parsing wrapper per
//! syntax. What a parser yields is a function of the document text
//! alone, so each wrapper's result carries a name that the loader's
//! contracts build on.

use vstd::prelude::*;
use rio_api::model::NamedNode as RioNamedNode;
use rio_api::model::BlankNode as RioBlankNode;
use rio_api::model::Literal as RioLiteral;
use rio_api::model::Subject as RioSubject;
use rio_api::model::Term as RioTerm;
use rio_api::model::GraphName as RioGraphName;
use rio_api::model::Triple as RioTriple;
use rio_api::model::Quad as RioQuad;

verus! {

/// A parsed subject: a named node's IRI or a blank node's label.
pub enum ParsedSubject {
    Named(String),
    Blank(String),
}

/// A parsed object term.
pub enum ParsedTerm {
    Named(String),
    Blank(String),
    Simple(String),
    LangTagged(String, String),
    Typed(String, String),
}

/// A parsed triple, exactly as the parser handed it over.
pub struct ParsedTriple {
    pub subject: ParsedSubject,
    pub predicate: String,
    pub object: ParsedTerm,
}

/// A parsed quad; `graph` is `None` for the default graph.
pub struct ParsedQuad {
    pub subject: ParsedSubject,
    pub predicate: String,
    pub object: ParsedTerm,
    pub graph: Option<ParsedSubject>,
}

/// The mathematical value of a parsed subject.
#[verifier::ext_equal]
pub enum ParsedSubjectV {
    Named(Seq<char>),
    Blank(Seq<char>),
}

/// The mathematical value of a parsed object term.
#[verifier::ext_equal]
pub enum ParsedTermV {
    Named(Seq<char>),
    Blank(Seq<char>),
    Simple(Seq<char>),
    LangTagged(Seq<char>, Seq<char>),
    Typed(Seq<char>, Seq<char>),
}

/// The mathematical value of a parsed triple.
#[verifier::ext_equal]
pub struct ParsedTripleV {
    pub subject: ParsedSubjectV,
    pub predicate: Seq<char>,
    pub object: ParsedTermV,
}

/// The mathematical value of a parsed quad.
#[verifier::ext_equal]
pub struct ParsedQuadV {
    pub subject: ParsedSubjectV,
    pub predicate: Seq<char>,
    pub object: ParsedTermV,
    pub graph: Option<ParsedSubjectV>,
}

impl View for ParsedSubject {
    type V = ParsedSubjectV;

    open spec fn view(&self) -> ParsedSubjectV {
        match self {
            ParsedSubject::Named(s) => ParsedSubjectV::Named(s@),
            ParsedSubject::Blank(s) => ParsedSubjectV::Blank(s@),
        }
    }
}

impl View for ParsedTerm {
    type V = ParsedTermV;

    open spec fn view(&self) -> ParsedTermV {
        match self {
            ParsedTerm::Named(s) => ParsedTermV::Named(s@),
            ParsedTerm::Blank(s) => ParsedTermV::Blank(s@),
            ParsedTerm::Simple(s) => ParsedTermV::Simple(s@),
            ParsedTerm::LangTagged(s, l) => ParsedTermV::LangTagged(s@, l@),
            ParsedTerm::Typed(s, d) => ParsedTermV::Typed(s@, d@),
        }
    }
}

impl View for ParsedTriple {
    type V = ParsedTripleV;

    open spec fn view(&self) -> ParsedTripleV {
        ParsedTripleV { subject: self.subject@, predicate: self.predicate@, object: self.object@ }
    }
}

impl View for ParsedQuad {
    type V = ParsedQuadV;

    open spec fn view(&self) -> ParsedQuadV {
        ParsedQuadV {
            subject: self.subject@,
            predicate: self.predicate@,
            object: self.object@,
            graph: match &self.graph {
                Some(g) => Some(g@),
                None => None,
            },
        }
    }
}

/// The parsed-triple views of a run of parsed triples.
pub open spec fn triples_view(v: Seq<ParsedTriple>) -> Seq<ParsedTripleV> {
    v.map_values(|t: ParsedTriple| t@)
}

/// The parsed-quad views of a run of parsed quads.
pub open spec fn quads_view(v: Seq<ParsedQuad>) -> Seq<ParsedQuadV> {
    v.map_values(|q: ParsedQuad| q@)
}

// ---------------------------------------------------------------------
// Declarations of the external parsers' term model.

#[verifier::external_type_specification]
#[verifier::external_body]
pub struct ExRioNamedNode<'a>(RioNamedNode<'a>);

#[verifier::external_type_specification]
#[verifier::external_body]
pub struct ExRioBlankNode<'a>(RioBlankNode<'a>);

#[verifier::external_type_specification]
#[verifier::external_body]
pub struct ExRioLiteral<'a>(RioLiteral<'a>);

#[verifier::external_type_specification]
#[verifier::external_body]
pub struct ExRioSubject<'a>(RioSubject<'a>);

#[verifier::external_type_specification]
#[verifier::external_body]
pub struct ExRioTerm<'a>(RioTerm<'a>);

#[verifier::external_type_specification]
#[verifier::external_body]
pub struct ExRioGraphName<'a>(RioGraphName<'a>);

#[verifier::external_type_specification]
#[verifier::external_body]
pub struct ExRioTriple<'a>(RioTriple<'a>);

#[verifier::external_type_specification]
#[verifier::external_body]
pub struct ExRioQuad<'a>(RioQuad<'a>);

// ---------------------------------------------------------------------
// Conversion of the parsers' borrowed terms into owned plain values.
// An RDF-star triple term has no place in the plain form; it sets the
// failure flag and the parse is reported as an error.

/// Relies on rio_api's `Subject`: moves its fields into the plain
/// form, one arm per variant.
#[verifier::external_body]
fn conv_subject(s: &RioSubject<'_>, bad: &mut bool) -> ParsedSubject {
    match s {
        RioSubject::NamedNode(n) => ParsedSubject::Named(n.iri.to_owned()),
        RioSubject::BlankNode(b) => ParsedSubject::Blank(b.id.to_owned()),
        RioSubject::Triple(_) => {
            *bad = true;
            ParsedSubject::Named(String::new())
        },
    }
}

/// Relies on rio_api's `Term` and `Literal`: moves their fields into
/// the plain form, one arm per variant.
#[verifier::external_body]
fn conv_term(t: &RioTerm<'_>, bad: &mut bool) -> ParsedTerm {
    match t {
        RioTerm::NamedNode(n) => ParsedTerm::Named(n.iri.to_owned()),
        RioTerm::BlankNode(b) => ParsedTerm::Blank(b.id.to_owned()),
        RioTerm::Literal(RioLiteral::Simple { value }) => ParsedTerm::Simple((*value).to_owned()),
        RioTerm::Literal(RioLiteral::LanguageTaggedString { value, language }) =>
            ParsedTerm::LangTagged((*value).to_owned(), (*language).to_owned()),
        RioTerm::Literal(RioLiteral::Typed { value, datatype }) =>
            ParsedTerm::Typed((*value).to_owned(), datatype.iri.to_owned()),
        RioTerm::Triple(_) => { *bad = true; ParsedTerm::Named(String::new()) },
    }
}

/// Relies on rio_api's `Triple`: converts and collects one parsed
/// triple.
#[verifier::external_body]
fn conv_triple(t: &RioTriple<'_>, out: &mut Vec<ParsedTriple>, bad: &mut bool) {
    if *bad { return; }
    let subject = conv_subject(&t.subject, bad);
    let predicate = t.predicate.iri.to_owned();
    let object = conv_term(&t.object, bad);
    if !*bad { out.push(ParsedTriple { subject, predicate, object }); }
}

/// Relies on rio_api's `Quad` and `GraphName`: converts and collects
/// one parsed quad, one arm per graph-name variant.
#[verifier::external_body]
fn conv_quad(q: &RioQuad<'_>, out: &mut Vec<ParsedQuad>, bad: &mut bool) {
    if *bad { return; }
    let subject = conv_subject(&q.subject, bad);
    let predicate = q.predicate.iri.to_owned();
    let object = conv_term(&q.object, bad);
    let graph = match &q.graph_name {
        None => None,
        Some(RioGraphName::NamedNode(n)) =>
            Some(ParsedSubject::Named(n.iri.to_owned())),
        Some(RioGraphName::BlankNode(b)) =>
            Some(ParsedSubject::Blank(b.id.to_owned())),
    };
    if !*bad { out.push(ParsedQuad { subject, predicate, object, graph }); }
}

#[verifier::external_type_specification]
#[verifier::external_body]
#[verifier::reject_recursive_types(T)]
pub struct ExOxIri<T>(oxiri::Iri<T>);

/// Relies on oxiri's `Iri::parse`: validates the base IRI that the
/// Turtle, TriG and RDF/XML parsers resolve relative references
/// against; an empty string stands for no base.
#[verifier::external_body]
fn parse_base(base: &str) -> Result<Option<oxiri::Iri<String>>, String> {
    if base.is_empty() {
        return Ok(None);
    }
    match oxiri::Iri::parse(base.to_owned()) {
        Ok(b) => Ok(Some(b)),
        Err(e) => Err(e.to_string()),
    }
}

// ---------------------------------------------------------------------
// Names for what the parsers return: each document text determines
// the parse outcome. The first component is the run of statements the
// parser handed over before it finished or rejected the document (a
// syntax error, a bad base IRI, or an RDF-star term); the second is
// whether the whole document was accepted, in which case the run is
// the whole document. The parsers stream, so a rejected document
// still yields its prefix.

pub uninterp spec fn ntriples_doc(data: Seq<char>) -> (Seq<ParsedTripleV>, bool);

pub uninterp spec fn turtle_doc(data: Seq<char>, base: Seq<char>) -> (Seq<ParsedTripleV>, bool);

pub uninterp spec fn rdfxml_doc(data: Seq<char>, base: Seq<char>) -> (Seq<ParsedTripleV>, bool);

pub uninterp spec fn nquads_doc(data: Seq<char>) -> (Seq<ParsedQuadV>, bool);

pub uninterp spec fn trig_doc(data: Seq<char>, base: Seq<char>) -> (Seq<ParsedQuadV>, bool);

/// Relies on rio_turtle's `NTriplesParser`: parses the document,
/// streaming each triple to the callback in document order, and hands
/// back the run collected before the first rejection, if any; the
/// outcome is a function of the text alone.
#[verifier::external_body]
pub fn parse_ntriples(data: &str) -> (r: (Vec<ParsedTriple>, Option<String>))
    ensures
        triples_view(r.0@) == ntriples_doc(data@).0,
        r.1 is None <==> ntriples_doc(data@).1,
{
    let mut out: Vec<ParsedTriple> = Vec::new();
    let mut bad = false;
    let mut parser = rio_turtle::NTriplesParser::new(data.as_bytes());
    let res = rio_api::parser::TriplesParser::parse_all(&mut parser, &mut |t: RioTriple<'_>| -> Result<(), rio_turtle::TurtleError> { conv_triple(&t, &mut out, &mut bad); Ok(()) });
    match res {
        Ok(()) => if bad { (out, Some("RDF-star terms are not supported".to_owned())) } else { (out, None) },
        Err(e) => (out, Some(e.to_string())),
    }
}

/// Relies on rio_turtle's `TurtleParser` and oxiri's `Iri::parse` for
/// the base IRI: parses the document, streaming each triple to the
/// callback in document order, and hands back the run collected
/// before the first rejection, if any; the outcome is a function of
/// the text and the base alone. An empty base stands for none.
#[verifier::external_body]
pub fn parse_turtle(data: &str, base: &str) -> (r: (Vec<ParsedTriple>, Option<String>))
    ensures
        triples_view(r.0@) == turtle_doc(data@, base@).0,
        r.1 is None <==> turtle_doc(data@, base@).1,
{
    let base_iri = match parse_base(base) { Ok(b) => b, Err(e) => { return (Vec::new(), Some(e)); } };
    let mut out: Vec<ParsedTriple> = Vec::new();
    let mut bad = false;
    let mut parser = rio_turtle::TurtleParser::new(data.as_bytes(), base_iri);
    let res = rio_api::parser::TriplesParser::parse_all(&mut parser, &mut |t: RioTriple<'_>| -> Result<(), rio_turtle::TurtleError> { conv_triple(&t, &mut out, &mut bad); Ok(()) });
    match res {
        Ok(()) => if bad { (out, Some("RDF-star terms are not supported".to_owned())) } else { (out, None) },
        Err(e) => (out, Some(e.to_string())),
    }
}

/// Relies on rio_xml's `RdfXmlParser` and oxiri's `Iri::parse` for
/// the base IRI: parses the document, streaming each triple to the
/// callback in document order, and hands back the run collected
/// before the first rejection, if any; the outcome is a function of
/// the text and the base alone. An empty base stands for none.
#[verifier::external_body]
pub fn parse_rdfxml(data: &str, base: &str) -> (r: (Vec<ParsedTriple>, Option<String>))
    ensures
        triples_view(r.0@) == rdfxml_doc(data@, base@).0,
        r.1 is None <==> rdfxml_doc(data@, base@).1,
{
    let base_iri = match parse_base(base) { Ok(b) => b, Err(e) => { return (Vec::new(), Some(e)); } };
    let mut out: Vec<ParsedTriple> = Vec::new();
    let mut bad = false;
    let mut parser = rio_xml::RdfXmlParser::new(data.as_bytes(), base_iri);
    let res = rio_api::parser::TriplesParser::parse_all(&mut parser, &mut |t: RioTriple<'_>| -> Result<(), rio_xml::RdfXmlError> { conv_triple(&t, &mut out, &mut bad); Ok(()) });
    match res {
        Ok(()) => if bad { (out, Some("RDF-star terms are not supported".to_owned())) } else { (out, None) },
        Err(e) => (out, Some(e.to_string())),
    }
}

/// Relies on rio_turtle's `NQuadsParser`: parses the document,
/// streaming each quad to the callback in document order, and hands
/// back the run collected before the first rejection, if any; the
/// outcome is a function of the text alone.
#[verifier::external_body]
pub fn parse_nquads(data: &str) -> (r: (Vec<ParsedQuad>, Option<String>))
    ensures
        quads_view(r.0@) == nquads_doc(data@).0,
        r.1 is None <==> nquads_doc(data@).1,
{
    let mut out: Vec<ParsedQuad> = Vec::new();
    let mut bad = false;
    let mut parser = rio_turtle::NQuadsParser::new(data.as_bytes());
    let res = rio_api::parser::QuadsParser::parse_all(&mut parser, &mut |q: RioQuad<'_>| -> Result<(), rio_turtle::TurtleError> { conv_quad(&q, &mut out, &mut bad); Ok(()) });
    match res {
        Ok(()) => if bad { (out, Some("RDF-star terms are not supported".to_owned())) } else { (out, None) },
        Err(e) => (out, Some(e.to_string())),
    }
}

/// Relies on rio_turtle's `TriGParser` and oxiri's `Iri::parse` for
/// the base IRI: parses the document, streaming each quad to the
/// callback in document order, and hands back the run collected
/// before the first rejection, if any; the outcome is a function of
/// the text and the base alone. An empty base stands for none.
#[verifier::external_body]
pub fn parse_trig(data: &str, base: &str) -> (r: (Vec<ParsedQuad>, Option<String>))
    ensures
        quads_view(r.0@) == trig_doc(data@, base@).0,
        r.1 is None <==> trig_doc(data@, base@).1,
{
    let base_iri = match parse_base(base) { Ok(b) => b, Err(e) => { return (Vec::new(), Some(e)); } };
    let mut out: Vec<ParsedQuad> = Vec::new();
    let mut bad = false;
    let mut parser = rio_turtle::TriGParser::new(data.as_bytes(), base_iri);
    let res = rio_api::parser::QuadsParser::parse_all(&mut parser, &mut |q: RioQuad<'_>| -> Result<(), rio_turtle::TurtleError> { conv_quad(&q, &mut out, &mut bad); Ok(()) });
    match res {
        Ok(()) => if bad { (out, Some("RDF-star terms are not supported".to_owned())) } else { (out, None) },
        Err(e) => (out, Some(e.to_string())),
    }
}

} // verus!
