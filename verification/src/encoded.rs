//! The fixed-width encoded form of terms: a discriminant plus up to
//! two 64-bit payloads referencing the dictionary, with an inline
//! variant for canonical boolean literals. Encoded terms are the sole
//! currency of the indexes; their (discriminant, payload) order defines
//! every index sort order.

use vstd::prelude::*;
use crate::dict::{Dictionary, resolves, has_str, extends, max_dict_len};
use crate::model::{
    TermV, QuadV, NamedNode, BlankNode, Literal, NamedOrBlankNode, Term, GraphName, Quad,
    xsd_string, xsd_boolean, rdf_lang_string, lemma_distinct_datatype_iris,
};

verus! {

/// An encoded term: a tag and dictionary ids, or an inline value.
#[derive(PartialEq, Eq, Structural, Clone, Copy)]
pub enum EncodedTerm {
    DefaultGraph,
    NamedNode { iri_id: u64 },
    BlankNode { id_id: u64 },
    StringLiteral { value_id: u64 },
    LangStringLiteral { value_id: u64, language_id: u64 },
    TypedLiteral { value_id: u64, datatype_id: u64 },
    BooleanLiteral { value: bool },
}

/// An encoded quad.
#[derive(PartialEq, Eq, Structural, Clone, Copy)]
pub struct EncodedQuad {
    pub subject: EncodedTerm,
    pub predicate: EncodedTerm,
    pub object: EncodedTerm,
    pub graph_name: EncodedTerm,
}

/// A live dictionary id.
pub open spec fn valid_id(d: Seq<Seq<char>>, id: u64) -> bool {
    1 <= id <= d.len()
}

/// The string a live id names.
pub open spec fn str_of(d: Seq<Seq<char>>, id: u64) -> Seq<char> {
    d[id - 1]
}

/// The decoded value of an encoded term under dictionary contents `d`.
pub open spec fn decode_term(e: EncodedTerm, d: Seq<Seq<char>>) -> TermV {
    match e {
        EncodedTerm::DefaultGraph => TermV::DefaultGraph,
        EncodedTerm::NamedNode { iri_id } => TermV::Named { iri: str_of(d, iri_id) },
        EncodedTerm::BlankNode { id_id } => TermV::Blank { id: str_of(d, id_id) },
        EncodedTerm::StringLiteral { value_id } => TermV::Literal {
            value: str_of(d, value_id),
            language: None,
            datatype: xsd_string(),
        },
        EncodedTerm::LangStringLiteral { value_id, language_id } => TermV::Literal {
            value: str_of(d, value_id),
            language: Some(str_of(d, language_id)),
            datatype: rdf_lang_string(),
        },
        EncodedTerm::TypedLiteral { value_id, datatype_id } => TermV::Literal {
            value: str_of(d, value_id),
            language: None,
            datatype: str_of(d, datatype_id),
        },
        EncodedTerm::BooleanLiteral { value } => TermV::Literal {
            value: if value { "true"@ } else { "false"@ },
            language: None,
            datatype: xsd_boolean(),
        },
    }
}

/// All ids of the encoded term are live in `d`.
pub open spec fn wf_enc(e: EncodedTerm, d: Seq<Seq<char>>) -> bool {
    match e {
        EncodedTerm::DefaultGraph => true,
        EncodedTerm::NamedNode { iri_id } => valid_id(d, iri_id),
        EncodedTerm::BlankNode { id_id } => valid_id(d, id_id),
        EncodedTerm::StringLiteral { value_id } => valid_id(d, value_id),
        EncodedTerm::LangStringLiteral { value_id, language_id } => valid_id(d, value_id)
            && valid_id(d, language_id),
        EncodedTerm::TypedLiteral { value_id, datatype_id } => valid_id(d, value_id) && valid_id(
            d,
            datatype_id,
        ),
        EncodedTerm::BooleanLiteral { value } => true,
    }
}

/// A canonically encoded term: a `TypedLiteral` never stands where a
/// `StringLiteral` or inline `BooleanLiteral` is mandatory, so each
/// decoded value has exactly one encoding.
pub open spec fn canon_enc(e: EncodedTerm, d: Seq<Seq<char>>) -> bool {
    e matches EncodedTerm::TypedLiteral { value_id, datatype_id } ==> {
        &&& str_of(d, datatype_id) != xsd_string()
        &&& !(str_of(d, datatype_id) == xsd_boolean() && (str_of(d, value_id) == "true"@
            || str_of(d, value_id) == "false"@))
    }
}

/// The decoded value of an encoded quad.
pub open spec fn decode_quad(e: EncodedQuad, d: Seq<Seq<char>>) -> QuadV {
    QuadV {
        subject: decode_term(e.subject, d),
        predicate: decode_term(e.predicate, d),
        object: decode_term(e.object, d),
        graph_name: decode_term(e.graph_name, d),
    }
}

/// Well-formed encoded quad: live ids, canonical literals, and the
/// term kind that each position admits.
pub open spec fn wf_enc_quad(e: EncodedQuad, d: Seq<Seq<char>>) -> bool {
    &&& wf_enc(e.subject, d) && canon_enc(e.subject, d) && (e.subject is NamedNode
        || e.subject is BlankNode)
    &&& wf_enc(e.predicate, d) && (e.predicate is NamedNode)
    &&& wf_enc(e.object, d) && canon_enc(e.object, d) && !(e.object is DefaultGraph)
    &&& wf_enc(e.graph_name, d) && (e.graph_name is DefaultGraph || e.graph_name is NamedNode
        || e.graph_name is BlankNode)
}

/// Decoding is unchanged when the dictionary grows.
pub proof fn lemma_term_stable(e: EncodedTerm, d1: Seq<Seq<char>>, d2: Seq<Seq<char>>)
    requires
        wf_enc(e, d1),
        extends(d1, d2),
    ensures
        wf_enc(e, d2),
        canon_enc(e, d1) ==> canon_enc(e, d2),
        decode_term(e, d2) == decode_term(e, d1),
{
}

/// Quad decoding is unchanged when the dictionary grows.
pub proof fn lemma_quad_stable(e: EncodedQuad, d1: Seq<Seq<char>>, d2: Seq<Seq<char>>)
    requires
        wf_enc_quad(e, d1),
        extends(d1, d2),
    ensures
        wf_enc_quad(e, d2),
        decode_quad(e, d2) == decode_quad(e, d1),
{
    lemma_term_stable(e.subject, d1, d2);
    lemma_term_stable(e.predicate, d1, d2);
    lemma_term_stable(e.object, d1, d2);
    lemma_term_stable(e.graph_name, d1, d2);
}

/// Under a duplicate-free dictionary, canonically encoded terms that
/// decode to the same value are the same encoding.
pub proof fn lemma_decode_term_injective(
    e1: EncodedTerm,
    e2: EncodedTerm,
    d: Seq<Seq<char>>,
)
    requires
        forall|i: int, j: int| 0 <= i < j < d.len() ==> d[i] != d[j],
        wf_enc(e1, d),
        wf_enc(e2, d),
        canon_enc(e1, d),
        canon_enc(e2, d),
        decode_term(e1, d) == decode_term(e2, d),
    ensures
        e1 == e2,
{
    lemma_distinct_datatype_iris();
    reveal_strlit("true");
    reveal_strlit("false");
    assert("true"@.len() != "false"@.len());
    assert(forall|i1: u64, i2: u64|
        valid_id(d, i1) && valid_id(d, i2) && str_of(d, i1) == str_of(d, i2) ==> i1 == i2);
}

/// Under a duplicate-free dictionary, well-formed encoded quads that
/// decode to the same value are the same encoding.
pub proof fn lemma_decode_quad_injective(
    e1: EncodedQuad,
    e2: EncodedQuad,
    d: Seq<Seq<char>>,
)
    requires
        forall|i: int, j: int| 0 <= i < j < d.len() ==> d[i] != d[j],
        wf_enc_quad(e1, d),
        wf_enc_quad(e2, d),
        decode_quad(e1, d) == decode_quad(e2, d),
    ensures
        e1 == e2,
{
    lemma_decode_term_injective(e1.subject, e2.subject, d);
    lemma_decode_term_injective(e1.predicate, e2.predicate, d);
    lemma_decode_term_injective(e1.object, e2.object, d);
    lemma_decode_term_injective(e1.graph_name, e2.graph_name, d);
}

// ---------------------------------------------------------------------
// The total order on encoded terms: (discriminant, payload) pairs
// compared lexicographically.

/// The discriminant of an encoded term.
pub open spec fn rank(e: EncodedTerm) -> int {
    match e {
        EncodedTerm::DefaultGraph => 0,
        EncodedTerm::NamedNode { .. } => 1,
        EncodedTerm::BlankNode { .. } => 2,
        EncodedTerm::StringLiteral { .. } => 3,
        EncodedTerm::LangStringLiteral { .. } => 4,
        EncodedTerm::TypedLiteral { .. } => 5,
        EncodedTerm::BooleanLiteral { .. } => 6,
    }
}

/// The first payload of an encoded term.
pub open spec fn key1(e: EncodedTerm) -> int {
    match e {
        EncodedTerm::DefaultGraph => 0,
        EncodedTerm::NamedNode { iri_id } => iri_id as int,
        EncodedTerm::BlankNode { id_id } => id_id as int,
        EncodedTerm::StringLiteral { value_id } => value_id as int,
        EncodedTerm::LangStringLiteral { value_id, .. } => value_id as int,
        EncodedTerm::TypedLiteral { value_id, .. } => value_id as int,
        EncodedTerm::BooleanLiteral { value } => if value { 1 } else { 0 },
    }
}

/// The second payload of an encoded term.
pub open spec fn key2(e: EncodedTerm) -> int {
    match e {
        EncodedTerm::LangStringLiteral { language_id, .. } => language_id as int,
        EncodedTerm::TypedLiteral { datatype_id, .. } => datatype_id as int,
        _ => 0,
    }
}

/// The strict order on encoded terms.
pub open spec fn term_lt(a: EncodedTerm, b: EncodedTerm) -> bool {
    rank(a) < rank(b) || (rank(a) == rank(b) && (key1(a) < key1(b) || (key1(a) == key1(b)
        && key2(a) < key2(b))))
}

/// The (rank, key1, key2) triple determines the encoded term, so the
/// order is a strict total order.
pub proof fn lemma_term_order_total(a: EncodedTerm, b: EncodedTerm)
    ensures
        a == b <==> (!term_lt(a, b) && !term_lt(b, a)),
        !(term_lt(a, b) && term_lt(b, a)),
{
}

fn rank_exec(e: &EncodedTerm) -> (r: u8)
    ensures
        r as int == rank(*e),
{
    match e {
        EncodedTerm::DefaultGraph => 0,
        EncodedTerm::NamedNode { .. } => 1,
        EncodedTerm::BlankNode { .. } => 2,
        EncodedTerm::StringLiteral { .. } => 3,
        EncodedTerm::LangStringLiteral { .. } => 4,
        EncodedTerm::TypedLiteral { .. } => 5,
        EncodedTerm::BooleanLiteral { .. } => 6,
    }
}

fn key1_exec(e: &EncodedTerm) -> (r: u64)
    ensures
        r as int == key1(*e),
{
    match e {
        EncodedTerm::DefaultGraph => 0,
        EncodedTerm::NamedNode { iri_id } => *iri_id,
        EncodedTerm::BlankNode { id_id } => *id_id,
        EncodedTerm::StringLiteral { value_id } => *value_id,
        EncodedTerm::LangStringLiteral { value_id, .. } => *value_id,
        EncodedTerm::TypedLiteral { value_id, .. } => *value_id,
        EncodedTerm::BooleanLiteral { value } => if *value { 1 } else { 0 },
    }
}

fn key2_exec(e: &EncodedTerm) -> (r: u64)
    ensures
        r as int == key2(*e),
{
    match e {
        EncodedTerm::LangStringLiteral { language_id, .. } => *language_id,
        EncodedTerm::TypedLiteral { datatype_id, .. } => *datatype_id,
        _ => 0,
    }
}

/// Decides the strict order on encoded terms.
pub fn term_lt_exec(a: &EncodedTerm, b: &EncodedTerm) -> (r: bool)
    ensures
        r == term_lt(*a, *b),
{
    let ra = rank_exec(a);
    let rb = rank_exec(b);
    if ra != rb {
        ra < rb
    } else {
        let k1a = key1_exec(a);
        let k1b = key1_exec(b);
        if k1a != k1b {
            k1a < k1b
        } else {
            key2_exec(a) < key2_exec(b)
        }
    }
}

// ---------------------------------------------------------------------
// Encoding from the term model, interning strings as needed.

/// Encodes a named node.
pub fn encode_named(dict: &mut Dictionary, n: &NamedNode) -> (e: EncodedTerm)
    requires
        old(dict).wf(),
        old(dict)@.len() + 1 <= max_dict_len(),
    ensures
        final(dict).wf(),
        extends(old(dict)@, final(dict)@),
        final(dict)@.len() <= old(dict)@.len() + 1,
        wf_enc(e, final(dict)@) && canon_enc(e, final(dict)@),
        e is NamedNode,
        decode_term(e, final(dict)@) == (TermV::Named { iri: n@ }),
{
    let id = dict.intern(n.as_str().to_owned());
    EncodedTerm::NamedNode { iri_id: id }
}

/// Encodes a blank node.
pub fn encode_blank(dict: &mut Dictionary, b: &BlankNode) -> (e: EncodedTerm)
    requires
        old(dict).wf(),
        old(dict)@.len() + 1 <= max_dict_len(),
    ensures
        final(dict).wf(),
        extends(old(dict)@, final(dict)@),
        final(dict)@.len() <= old(dict)@.len() + 1,
        wf_enc(e, final(dict)@) && canon_enc(e, final(dict)@),
        e is BlankNode,
        decode_term(e, final(dict)@) == (TermV::Blank { id: b@ }),
{
    let id = dict.intern(b.as_str().to_owned());
    EncodedTerm::BlankNode { id_id: id }
}

/// Encodes a subject.
pub fn encode_subject(dict: &mut Dictionary, s: &NamedOrBlankNode) -> (e: EncodedTerm)
    requires
        old(dict).wf(),
        old(dict)@.len() + 1 <= max_dict_len(),
    ensures
        final(dict).wf(),
        extends(old(dict)@, final(dict)@),
        final(dict)@.len() <= old(dict)@.len() + 1,
        wf_enc(e, final(dict)@) && canon_enc(e, final(dict)@),
        e is NamedNode || e is BlankNode,
        decode_term(e, final(dict)@) == s@,
{
    match s {
        NamedOrBlankNode::NamedNode(n) => encode_named(dict, n),
        NamedOrBlankNode::BlankNode(b) => encode_blank(dict, b),
    }
}

/// Encodes a literal. The inline boolean form is mandatory when the
/// datatype is `xsd:boolean` and the lexical form is canonical, and a
/// datatype of `xsd:string` always takes the `StringLiteral` form, so
/// the encoding is canonical.
pub fn encode_literal(dict: &mut Dictionary, l: &Literal) -> (e: EncodedTerm)
    requires
        old(dict).wf(),
        old(dict)@.len() + 2 <= max_dict_len(),
    ensures
        final(dict).wf(),
        extends(old(dict)@, final(dict)@),
        final(dict)@.len() <= old(dict)@.len() + 2,
        wf_enc(e, final(dict)@) && canon_enc(e, final(dict)@),
        !(e is DefaultGraph) && !(e is NamedNode) && !(e is BlankNode),
        decode_term(e, final(dict)@) == l@,
{
    proof {
        crate::model::lemma_literal_shape(l);
    }
    let value: String = l.value().to_owned();
    match l.language() {
        Some(lang) => {
            let lang_owned = lang.to_owned();
            let value_id = dict.intern(value);
            let language_id = dict.intern(lang_owned);
            EncodedTerm::LangStringLiteral { value_id, language_id }
        },
        None => {
            let datatype = l.datatype();
            let dt_string: String = datatype.as_str().to_owned();
            let xsd_string_iri: String = "http://www.w3.org/2001/XMLSchema#string".to_owned();
            let xsd_boolean_iri: String = "http://www.w3.org/2001/XMLSchema#boolean".to_owned();
            if dt_string == xsd_string_iri {
                let value_id = dict.intern(value);
                EncodedTerm::StringLiteral { value_id }
            } else if dt_string == xsd_boolean_iri {
                let true_lex: String = "true".to_owned();
                let false_lex: String = "false".to_owned();
                if value == true_lex {
                    EncodedTerm::BooleanLiteral { value: true }
                } else if value == false_lex {
                    EncodedTerm::BooleanLiteral { value: false }
                } else {
                    let value_id = dict.intern(value);
                    let datatype_id = dict.intern(dt_string);
                    EncodedTerm::TypedLiteral { value_id, datatype_id }
                }
            } else {
                let value_id = dict.intern(value);
                let datatype_id = dict.intern(dt_string);
                EncodedTerm::TypedLiteral { value_id, datatype_id }
            }
        },
    }
}

/// Encodes an object term.
pub fn encode_object(dict: &mut Dictionary, t: &Term) -> (e: EncodedTerm)
    requires
        old(dict).wf(),
        old(dict)@.len() + 2 <= max_dict_len(),
    ensures
        final(dict).wf(),
        extends(old(dict)@, final(dict)@),
        final(dict)@.len() <= old(dict)@.len() + 2,
        wf_enc(e, final(dict)@) && canon_enc(e, final(dict)@),
        !(e is DefaultGraph),
        decode_term(e, final(dict)@) == t@,
{
    match t {
        Term::NamedNode(n) => encode_named(dict, n),
        Term::BlankNode(b) => encode_blank(dict, b),
        Term::Literal(l) => encode_literal(dict, l),
    }
}

/// Encodes a graph name.
pub fn encode_graph(dict: &mut Dictionary, g: &GraphName) -> (e: EncodedTerm)
    requires
        old(dict).wf(),
        old(dict)@.len() + 1 <= max_dict_len(),
    ensures
        final(dict).wf(),
        extends(old(dict)@, final(dict)@),
        final(dict)@.len() <= old(dict)@.len() + 1,
        wf_enc(e, final(dict)@) && canon_enc(e, final(dict)@),
        e is DefaultGraph || e is NamedNode || e is BlankNode,
        decode_term(e, final(dict)@) == g@,
{
    match g {
        GraphName::NamedNode(n) => encode_named(dict, n),
        GraphName::BlankNode(b) => encode_blank(dict, b),
        GraphName::DefaultGraph => EncodedTerm::DefaultGraph,
    }
}

// ---------------------------------------------------------------------
// Decoding back to the term model.

fn resolve_checked<'a>(dict: &'a Dictionary, id: u64) -> (r: &'a String)
    requires
        valid_id(dict@, id),
    ensures
        r@ == str_of(dict@, id),
{
    match dict.resolve(id) {
        Some(s) => s,
        None => vstd::pervasive::unreached(),
    }
}

/// Decodes a subject position.
pub fn decode_subject_exec(dict: &Dictionary, e: &EncodedTerm) -> (r: NamedOrBlankNode)
    requires
        wf_enc(*e, dict@),
        *e is NamedNode || *e is BlankNode,
    ensures
        r@ == decode_term(*e, dict@),
{
    match e {
        EncodedTerm::NamedNode { iri_id } => NamedOrBlankNode::NamedNode(
            NamedNode::new_unchecked(resolve_checked(dict, *iri_id).clone()),
        ),
        EncodedTerm::BlankNode { id_id } => NamedOrBlankNode::BlankNode(
            BlankNode::new(resolve_checked(dict, *id_id).clone()),
        ),
        _ => vstd::pervasive::unreached(),
    }
}

/// Decodes a predicate position.
pub fn decode_predicate_exec(dict: &Dictionary, e: &EncodedTerm) -> (r: NamedNode)
    requires
        wf_enc(*e, dict@),
        *e is NamedNode,
    ensures
        decode_term(*e, dict@) == (TermV::Named { iri: r@ }),
{
    match e {
        EncodedTerm::NamedNode { iri_id } => NamedNode::new_unchecked(
            resolve_checked(dict, *iri_id).clone(),
        ),
        _ => vstd::pervasive::unreached(),
    }
}

/// Decodes an object position.
pub fn decode_object_exec(dict: &Dictionary, e: &EncodedTerm) -> (r: Term)
    requires
        wf_enc(*e, dict@),
        !(*e is DefaultGraph),
    ensures
        r@ == decode_term(*e, dict@),
{
    match e {
        EncodedTerm::NamedNode { iri_id } => Term::NamedNode(
            NamedNode::new_unchecked(resolve_checked(dict, *iri_id).clone()),
        ),
        EncodedTerm::BlankNode { id_id } => Term::BlankNode(
            BlankNode::new(resolve_checked(dict, *id_id).clone()),
        ),
        EncodedTerm::StringLiteral { value_id } => Term::Literal(
            Literal::new_simple_literal(resolve_checked(dict, *value_id).clone()),
        ),
        EncodedTerm::LangStringLiteral { value_id, language_id } => Term::Literal(
            Literal::new_language_tagged_literal_unchecked(
                resolve_checked(dict, *value_id).clone(),
                resolve_checked(dict, *language_id).clone(),
            ),
        ),
        EncodedTerm::TypedLiteral { value_id, datatype_id } => Term::Literal(
            Literal::new_typed_literal(
                resolve_checked(dict, *value_id).clone(),
                NamedNode::new_unchecked(resolve_checked(dict, *datatype_id).clone()),
            ),
        ),
        EncodedTerm::BooleanLiteral { value } => {
            let lex: String = if *value { "true".to_owned() } else { "false".to_owned() };
            let dt = NamedNode::new_unchecked(
                "http://www.w3.org/2001/XMLSchema#boolean".to_owned(),
            );
            proof {
                lemma_distinct_datatype_iris();
            }
            Term::Literal(Literal::new_typed_literal(lex, dt))
        },
        _ => vstd::pervasive::unreached(),
    }
}

/// Decodes a graph-name position.
pub fn decode_graph_exec(dict: &Dictionary, e: &EncodedTerm) -> (r: GraphName)
    requires
        wf_enc(*e, dict@),
        *e is DefaultGraph || *e is NamedNode || *e is BlankNode,
    ensures
        r@ == decode_term(*e, dict@),
{
    match e {
        EncodedTerm::DefaultGraph => GraphName::DefaultGraph,
        EncodedTerm::NamedNode { iri_id } => GraphName::NamedNode(
            NamedNode::new_unchecked(resolve_checked(dict, *iri_id).clone()),
        ),
        EncodedTerm::BlankNode { id_id } => GraphName::BlankNode(
            BlankNode::new(resolve_checked(dict, *id_id).clone()),
        ),
        _ => vstd::pervasive::unreached(),
    }
}

/// Decodes a stored quad. Composed with `encode_quad` this is the
/// round-trip: the result's value is exactly the encoded quad's
/// decoded value.
pub fn decode_quad_exec(dict: &Dictionary, e: &EncodedQuad) -> (r: Quad)
    requires
        wf_enc_quad(*e, dict@),
    ensures
        r@ == decode_quad(*e, dict@),
{
    let subject = decode_subject_exec(dict, &e.subject);
    let predicate = decode_predicate_exec(dict, &e.predicate);
    let object = decode_object_exec(dict, &e.object);
    let graph_name = decode_graph_exec(dict, &e.graph_name);
    Quad { subject, predicate, object, graph_name }
}

/// Encodes a quad, interning at most six strings. Decoding the result
/// under the grown dictionary gives back exactly the quad's value:
/// the round-trip `decode(encode(q)) == q` is this function's
/// postcondition together with `decode_quad_exec`'s.
pub fn encode_quad(dict: &mut Dictionary, q: &Quad) -> (e: EncodedQuad)
    requires
        old(dict).wf(),
        old(dict)@.len() + 6 <= max_dict_len(),
    ensures
        final(dict).wf(),
        extends(old(dict)@, final(dict)@),
        final(dict)@.len() <= old(dict)@.len() + 6,
        wf_enc_quad(e, final(dict)@),
        decode_quad(e, final(dict)@) == q@,
{
    let subject = encode_subject(dict, &q.subject);
    let ghost d1 = dict@;
    let predicate = encode_named(dict, &q.predicate);
    let ghost d2 = dict@;
    let object = encode_object(dict, &q.object);
    let ghost d3 = dict@;
    let graph_name = encode_graph(dict, &q.graph_name);
    let ghost d4 = dict@;
    proof {
        assert(extends(d1, d4));
        assert(extends(d2, d4));
        lemma_term_stable(subject, d1, d4);
        lemma_term_stable(predicate, d2, d4);
        lemma_term_stable(object, d3, d4);
    }
    EncodedQuad { subject, predicate, object, graph_name }
}

} // verus!
