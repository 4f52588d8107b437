//! The RDF term model: named nodes, blank nodes, literals, and quads,
//! together with their mathematical views.

use vstd::prelude::*;
use crate::Error;
use crate::valid::{check_iri, check_language_tag, to_ascii_lower, ascii_lower, iri_ok, lang_tag_ok};

verus! {

/// The mathematical value of an RDF term. `DefaultGraph` only ever
/// stands in the graph-name position of a quad.
#[verifier::ext_equal]
pub enum TermV {
    Named { iri: Seq<char> },
    Blank { id: Seq<char> },
    Literal { value: Seq<char>, language: Option<Seq<char>>, datatype: Seq<char> },
    DefaultGraph,
}

/// The mathematical value of a quad.
#[verifier::ext_equal]
pub struct QuadV {
    pub subject: TermV,
    pub predicate: TermV,
    pub object: TermV,
    pub graph_name: TermV,
}

/// The IRI of the `xsd:string` datatype.
pub open spec fn xsd_string() -> Seq<char> {
    "http://www.w3.org/2001/XMLSchema#string"@
}

/// The IRI of the `xsd:boolean` datatype.
pub open spec fn xsd_boolean() -> Seq<char> {
    "http://www.w3.org/2001/XMLSchema#boolean"@
}

/// The IRI of the `rdf:langString` datatype, carried by every
/// language-tagged literal.
pub open spec fn rdf_lang_string() -> Seq<char> {
    "http://www.w3.org/1999/02/22-rdf-syntax-ns#langString"@
}

/// A well-formed literal: a language tag comes with the
/// `rdf:langString` datatype and is already lowercased.
pub open spec fn wf_literal(t: TermV) -> bool {
    t matches TermV::Literal { value, language, datatype } ==> (language matches Some(l)
        ==> datatype == rdf_lang_string() && l == ascii_lower(l))
}

/// An RDF IRI. `new` validates the string; `new_unchecked` trusts the
/// caller.
#[derive(Debug)]
pub struct NamedNode {
    iri: String,
}

impl View for NamedNode {
    type V = Seq<char>;

    closed spec fn view(&self) -> Seq<char> {
        self.iri@
    }
}

impl Clone for NamedNode {
    fn clone(&self) -> (r: Self)
        ensures
            r@ == self@,
    {
        NamedNode { iri: self.iri.clone() }
    }
}

impl NamedNode {
    /// Builds an IRI after validating it against the RFC 3987 grammar.
    pub fn new(iri: String) -> (r: Result<Self, Error>)
        ensures
            r matches Ok(n) ==> n@ == iri@ && iri_ok(iri@),
            r is Ok <==> iri_ok(iri@),
            r matches Err(e) ==> e is InvalidIri,
    {
        match check_iri(iri) {
            Ok(s) => Ok(NamedNode { iri: s }),
            Err(()) => Err(Error::InvalidIri),
        }
    }

    /// Builds an IRI after validating it (an older name of `new`).
    pub fn parse(iri: String) -> (r: Result<Self, Error>)
        ensures
            r matches Ok(n) ==> n@ == iri@ && iri_ok(iri@),
            r is Ok <==> iri_ok(iri@),
            r matches Err(e) ==> e is InvalidIri,
    {
        Self::new(iri)
    }

    /// Builds an IRI from a string the caller has already checked.
    pub fn new_unchecked(iri: String) -> (r: Self)
        ensures
            r@ == iri@,
    {
        NamedNode { iri }
    }

    pub fn as_str(&self) -> (r: &str)
        ensures
            r@ == self@,
    {
        self.iri.as_str()
    }

    pub fn into_string(self) -> (r: String)
        ensures
            r@ == self@,
    {
        self.iri
    }
}

/// An RDF blank node: an opaque identifier whose equality is by its
/// identifier string, within one dataset.
#[derive(Debug)]
pub struct BlankNode {
    id: String,
}

impl View for BlankNode {
    type V = Seq<char>;

    closed spec fn view(&self) -> Seq<char> {
        self.id@
    }
}

impl Clone for BlankNode {
    fn clone(&self) -> (r: Self)
        ensures
            r@ == self@,
    {
        BlankNode { id: self.id.clone() }
    }
}

impl BlankNode {
    pub fn new(id: String) -> (r: Self)
        ensures
            r@ == id@,
    {
        BlankNode { id }
    }

    pub fn as_str(&self) -> (r: &str)
        ensures
            r@ == self@,
    {
        self.id.as_str()
    }

    pub fn into_string(self) -> (r: String)
        ensures
            r@ == self@,
    {
        self.id
    }
}

#[derive(Debug)]
enum LiteralContent {
    Simple { value: String },
    LanguageTagged { value: String, language: String },
    Typed { value: String, datatype: NamedNode },
}

/// An RDF literal: a lexical form with either the plain `xsd:string`
/// datatype, a language tag (datatype `rdf:langString`), or an
/// explicit datatype IRI.
#[derive(Debug)]
pub struct Literal {
    content: LiteralContent,
}

impl View for Literal {
    type V = TermV;

    closed spec fn view(&self) -> TermV {
        match self.content {
            LiteralContent::Simple { value } => TermV::Literal {
                value: value@,
                language: None,
                datatype: xsd_string(),
            },
            LiteralContent::LanguageTagged { value, language } => TermV::Literal {
                value: value@,
                language: Some(language@),
                datatype: rdf_lang_string(),
            },
            LiteralContent::Typed { value, datatype } => TermV::Literal {
                value: value@,
                language: None,
                datatype: datatype@,
            },
        }
    }
}

impl Clone for Literal {
    fn clone(&self) -> (r: Self)
        ensures
            r@ == self@,
    {
        Literal {
            content: match &self.content {
                LiteralContent::Simple { value } => LiteralContent::Simple { value: value.clone() },
                LiteralContent::LanguageTagged { value, language } => {
                    LiteralContent::LanguageTagged {
                        value: value.clone(),
                        language: language.clone(),
                    }
                },
                LiteralContent::Typed { value, datatype } => LiteralContent::Typed {
                    value: value.clone(),
                    datatype: datatype.clone(),
                },
            },
        }
    }
}

impl Literal {
    /// A plain literal, whose datatype is `xsd:string`.
    pub fn new_simple_literal(value: String) -> (r: Self)
        ensures
            r@ == (TermV::Literal { value: value@, language: None, datatype: xsd_string() }),
            wf_literal(r@),
    {
        Literal { content: LiteralContent::Simple { value } }
    }

    /// A language-tagged literal. The tag is validated against the
    /// BCP-47 grammar and lowercased; the datatype is `rdf:langString`.
    pub fn new_language_tagged_literal(value: String, language: String) -> (r: Result<
        Self,
        Error,
    >)
        ensures
            r is Ok <==> lang_tag_ok(language@),
            r matches Ok(l) ==> l@ == (TermV::Literal {
                value: value@,
                language: Some(ascii_lower(language@)),
                datatype: rdf_lang_string(),
            }),
            r matches Ok(l) ==> wf_literal(l@),
            r matches Err(e) ==> e is InvalidLanguageTag,
    {
        match check_language_tag(language) {
            Ok(tag) => {
                let lower = to_ascii_lower(tag.as_str());
                proof {
                    lemma_ascii_lower_idempotent(tag@);
                }
                Ok(Literal {
                    content: LiteralContent::LanguageTagged { value, language: lower },
                })
            },
            Err(()) => Err(Error::InvalidLanguageTag),
        }
    }

    /// A language-tagged literal whose tag the caller has already
    /// validated and lowercased.
    pub fn new_language_tagged_literal_unchecked(value: String, language: String) -> (r: Self)
        ensures
            r@ == (TermV::Literal {
                value: value@,
                language: Some(language@),
                datatype: rdf_lang_string(),
            }),
    {
        Literal { content: LiteralContent::LanguageTagged { value, language } }
    }

    /// A literal with an explicit datatype. A datatype of `xsd:string`
    /// yields the same value as `new_simple_literal`.
    pub fn new_typed_literal(value: String, datatype: NamedNode) -> (r: Self)
        ensures
            r@ == (TermV::Literal {
                value: value@,
                language: None,
                datatype: datatype@,
            }),
            wf_literal(r@),
    {
        let xsd_string_iri: String = "http://www.w3.org/2001/XMLSchema#string".to_owned();
        if datatype.as_str().to_owned() == xsd_string_iri {
            Literal { content: LiteralContent::Simple { value } }
        } else {
            Literal { content: LiteralContent::Typed { value, datatype } }
        }
    }

    /// The lexical form.
    pub fn value(&self) -> (r: &str)
        ensures
            r@ == self@->Literal_value,
    {
        match &self.content {
            LiteralContent::Simple { value } => value.as_str(),
            LiteralContent::LanguageTagged { value, .. } => value.as_str(),
            LiteralContent::Typed { value, .. } => value.as_str(),
        }
    }

    /// The language tag, for a language-tagged literal.
    pub fn language(&self) -> (r: Option<&str>)
        ensures
            r matches Some(l) ==> self@->Literal_language == Some(l@),
            r is None ==> self@->Literal_language is None,
    {
        match &self.content {
            LiteralContent::LanguageTagged { language, .. } => Some(language.as_str()),
            _ => None,
        }
    }

    /// The datatype IRI.
    pub fn datatype(&self) -> (r: NamedNode)
        ensures
            r@ == self@->Literal_datatype,
    {
        match &self.content {
            LiteralContent::Simple { .. } => NamedNode::new_unchecked(
                "http://www.w3.org/2001/XMLSchema#string".to_owned(),
            ),
            LiteralContent::LanguageTagged { .. } => NamedNode::new_unchecked(
                "http://www.w3.org/1999/02/22-rdf-syntax-ns#langString".to_owned(),
            ),
            LiteralContent::Typed { datatype, .. } => datatype.clone(),
        }
    }
}

/// Every literal's value is a `Literal` term whose language tag, when
/// present, comes with the `rdf:langString` datatype.
pub proof fn lemma_literal_shape(l: &Literal)
    ensures
        l@ is Literal,
        l@->Literal_language matches Some(x) ==> l@->Literal_datatype == rdf_lang_string(),
{
}

/// Lowercasing a lowercased string changes nothing.
pub proof fn lemma_ascii_lower_idempotent(s: Seq<char>)
    ensures
        ascii_lower(ascii_lower(s)) == ascii_lower(s),
{
    assert(ascii_lower(ascii_lower(s)) =~= ascii_lower(s));
}

/// The three built-in datatype IRIs differ pairwise.
pub proof fn lemma_distinct_datatype_iris()
    ensures
        xsd_string() != rdf_lang_string(),
        xsd_string() != xsd_boolean(),
        xsd_boolean() != rdf_lang_string(),
{
    reveal_strlit("http://www.w3.org/2001/XMLSchema#string");
    reveal_strlit("http://www.w3.org/2001/XMLSchema#boolean");
    reveal_strlit("http://www.w3.org/1999/02/22-rdf-syntax-ns#langString");
    assert(xsd_string().len() != rdf_lang_string().len());
    assert(xsd_string().len() != xsd_boolean().len());
    assert(xsd_boolean().len() != rdf_lang_string().len());
}

/// Decides equality of two named nodes, by their IRI strings.
pub fn named_node_eq(a: &NamedNode, b: &NamedNode) -> (r: bool)
    ensures
        r == (a@ == b@),
{
    a.as_str().to_owned() == b.as_str().to_owned()
}

/// Decides equality of two blank nodes, by their identifiers.
pub fn blank_node_eq(a: &BlankNode, b: &BlankNode) -> (r: bool)
    ensures
        r == (a@ == b@),
{
    a.as_str().to_owned() == b.as_str().to_owned()
}

/// Decides equality of two literals, by lexical form, language tag
/// and datatype.
pub fn literal_eq(a: &Literal, b: &Literal) -> (r: bool)
    ensures
        r == (a@ == b@),
{
    proof {
        lemma_literal_shape(a);
        lemma_literal_shape(b);
    }
    let va: String = a.value().to_owned();
    let vb: String = b.value().to_owned();
    if !(va == vb) {
        return false;
    }
    match (a.language(), b.language()) {
        (Some(la), Some(lb)) => {
            if la.to_owned() == lb.to_owned() {
                proof {
                    assert(a@ =~= b@);
                }
                true
            } else {
                false
            }
        },
        (None, None) => {
            let da = a.datatype();
            let db = b.datatype();
            let r = named_node_eq(&da, &db);
            proof {
                if r {
                    assert(a@ =~= b@);
                }
            }
            r
        },
        _ => false,
    }
}

/// A term that may stand in the subject position of a quad.
#[derive(Debug)]
pub enum NamedOrBlankNode {
    NamedNode(NamedNode),
    BlankNode(BlankNode),
}

impl View for NamedOrBlankNode {
    type V = TermV;

    open spec fn view(&self) -> TermV {
        match self {
            NamedOrBlankNode::NamedNode(n) => TermV::Named { iri: n@ },
            NamedOrBlankNode::BlankNode(b) => TermV::Blank { id: b@ },
        }
    }
}

impl Clone for NamedOrBlankNode {
    fn clone(&self) -> (r: Self)
        ensures
            r@ == self@,
    {
        match self {
            NamedOrBlankNode::NamedNode(n) => NamedOrBlankNode::NamedNode(n.clone()),
            NamedOrBlankNode::BlankNode(b) => NamedOrBlankNode::BlankNode(b.clone()),
        }
    }
}

/// Any term that may stand in the object position of a quad.
#[derive(Debug)]
pub enum Term {
    NamedNode(NamedNode),
    BlankNode(BlankNode),
    Literal(Literal),
}

impl View for Term {
    type V = TermV;

    open spec fn view(&self) -> TermV {
        match self {
            Term::NamedNode(n) => TermV::Named { iri: n@ },
            Term::BlankNode(b) => TermV::Blank { id: b@ },
            Term::Literal(l) => l@,
        }
    }
}

impl Clone for Term {
    fn clone(&self) -> (r: Self)
        ensures
            r@ == self@,
    {
        match self {
            Term::NamedNode(n) => Term::NamedNode(n.clone()),
            Term::BlankNode(b) => Term::BlankNode(b.clone()),
            Term::Literal(l) => Term::Literal(l.clone()),
        }
    }
}

/// The name of the graph a quad belongs to; `DefaultGraph` is the
/// unnamed graph of the dataset.
#[derive(Debug)]
pub enum GraphName {
    NamedNode(NamedNode),
    BlankNode(BlankNode),
    DefaultGraph,
}

impl View for GraphName {
    type V = TermV;

    open spec fn view(&self) -> TermV {
        match self {
            GraphName::NamedNode(n) => TermV::Named { iri: n@ },
            GraphName::BlankNode(b) => TermV::Blank { id: b@ },
            GraphName::DefaultGraph => TermV::DefaultGraph,
        }
    }
}

impl Clone for GraphName {
    fn clone(&self) -> (r: Self)
        ensures
            r@ == self@,
    {
        match self {
            GraphName::NamedNode(n) => GraphName::NamedNode(n.clone()),
            GraphName::BlankNode(b) => GraphName::BlankNode(b.clone()),
            GraphName::DefaultGraph => GraphName::DefaultGraph,
        }
    }
}

/// A quad: a subject, predicate and object, together with the name of
/// the graph it belongs to.
#[derive(Debug)]
pub struct Quad {
    pub subject: NamedOrBlankNode,
    pub predicate: NamedNode,
    pub object: Term,
    pub graph_name: GraphName,
}

impl View for Quad {
    type V = QuadV;

    open spec fn view(&self) -> QuadV {
        QuadV {
            subject: self.subject@,
            predicate: TermV::Named { iri: self.predicate@ },
            object: self.object@,
            graph_name: self.graph_name@,
        }
    }
}

impl Clone for Quad {
    fn clone(&self) -> (r: Self)
        ensures
            r@ == self@,
    {
        Quad {
            subject: self.subject.clone(),
            predicate: self.predicate.clone(),
            object: self.object.clone(),
            graph_name: self.graph_name.clone(),
        }
    }
}

/// Decides equality of two subjects.
pub fn subject_eq(a: &NamedOrBlankNode, b: &NamedOrBlankNode) -> (r: bool)
    ensures
        r == (a@ == b@),
{
    match (a, b) {
        (NamedOrBlankNode::NamedNode(x), NamedOrBlankNode::NamedNode(y)) => named_node_eq(x, y),
        (NamedOrBlankNode::BlankNode(x), NamedOrBlankNode::BlankNode(y)) => blank_node_eq(x, y),
        _ => false,
    }
}

/// Decides equality of two object terms.
pub fn term_eq(a: &Term, b: &Term) -> (r: bool)
    ensures
        r == (a@ == b@),
{
    match (a, b) {
        (Term::NamedNode(x), Term::NamedNode(y)) => named_node_eq(x, y),
        (Term::BlankNode(x), Term::BlankNode(y)) => blank_node_eq(x, y),
        (Term::Literal(x), Term::Literal(y)) => literal_eq(x, y),
        _ => {
            proof {
                match a {
                    Term::Literal(l) => lemma_literal_shape(l),
                    _ => {},
                }
                match b {
                    Term::Literal(l) => lemma_literal_shape(l),
                    _ => {},
                }
            }
            false
        },
    }
}

/// Decides equality of two graph names.
pub fn graph_name_eq(a: &GraphName, b: &GraphName) -> (r: bool)
    ensures
        r == (a@ == b@),
{
    match (a, b) {
        (GraphName::NamedNode(x), GraphName::NamedNode(y)) => named_node_eq(x, y),
        (GraphName::BlankNode(x), GraphName::BlankNode(y)) => blank_node_eq(x, y),
        (GraphName::DefaultGraph, GraphName::DefaultGraph) => true,
        _ => false,
    }
}

/// Decides equality of two quads, position by position.
pub fn quad_eq(a: &Quad, b: &Quad) -> (r: bool)
    ensures
        r == (a@ == b@),
{
    let r = subject_eq(&a.subject, &b.subject) && named_node_eq(&a.predicate, &b.predicate)
        && term_eq(&a.object, &b.object) && graph_name_eq(&a.graph_name, &b.graph_name);
    proof {
        if r {
            assert(a@ =~= b@);
        }
    }
    r
}

impl Quad {
    pub fn new(
        subject: NamedOrBlankNode,
        predicate: NamedNode,
        object: Term,
        graph_name: GraphName,
    ) -> (r: Self)
        ensures
            r@ == (QuadV {
                subject: subject@,
                predicate: TermV::Named { iri: predicate@ },
                object: object@,
                graph_name: graph_name@,
            }),
    {
        Quad { subject, predicate, object, graph_name }
    }
}

} // verus!
