//! The loader adapter: turns parsed triples and quads into stored
//! quads, interning strings on the fly and renaming each document's
//! blank-node labels to freshly allocated store-side identifiers, so
//! that two documents' labels never collide.

use vstd::prelude::*;
use crate::Error;
use crate::dict::max_dict_len;
use crate::digits::{dec_str, u64_to_dec};
use crate::model::{
    TermV, QuadV, NamedNode, BlankNode, Literal, NamedOrBlankNode, Term, GraphName, Quad,
    xsd_string, rdf_lang_string,
};
use crate::rioread::{
    ParsedSubject, ParsedTerm, ParsedTriple, ParsedQuad, ParsedSubjectV, ParsedTermV,
    ParsedTripleV, ParsedQuadV, triples_view, quads_view, parse_ntriples, parse_turtle,
    parse_rdfxml, parse_nquads, parse_trig, ntriples_doc, turtle_doc, rdfxml_doc, nquads_doc,
    trig_doc,
};
use crate::store::MemoryStore;
use crate::syntax::{GraphSyntax, DatasetSyntax, graph_syntax_of, dataset_syntax_of};
use crate::valid::ascii_lower;

verus! {

/// The state a load threads along: the quads so far, the document's
/// label table, and the next fresh blank-node number.
#[verifier::ext_equal]
pub struct LoadResV {
    pub quads: Set<QuadV>,
    pub labels: Map<Seq<char>, Seq<char>>,
    pub ctr: nat,
}

/// The store-side identifier of a blank-node label: the one the table
/// already holds, or a freshly rendered number.
pub open spec fn alloc_blank(
    labels: Map<Seq<char>, Seq<char>>,
    ctr: nat,
    lbl: Seq<char>,
) -> (Seq<char>, Map<Seq<char>, Seq<char>>, nat) {
    if labels.contains_key(lbl) {
        (labels[lbl], labels, ctr)
    } else {
        (dec_str(ctr), labels.insert(lbl, dec_str(ctr)), ctr + 1)
    }
}

/// The term a parsed subject loads to.
pub open spec fn load_subject_v(
    labels: Map<Seq<char>, Seq<char>>,
    ctr: nat,
    s: ParsedSubjectV,
) -> (TermV, Map<Seq<char>, Seq<char>>, nat) {
    match s {
        ParsedSubjectV::Named(iri) => (TermV::Named { iri }, labels, ctr),
        ParsedSubjectV::Blank(lbl) => {
            let (id, m, c) = alloc_blank(labels, ctr, lbl);
            (TermV::Blank { id }, m, c)
        },
    }
}

/// The term a parsed object loads to. A language tag from the parser
/// is lowercased, as the term constructors do.
pub open spec fn load_object_v(
    labels: Map<Seq<char>, Seq<char>>,
    ctr: nat,
    o: ParsedTermV,
) -> (TermV, Map<Seq<char>, Seq<char>>, nat) {
    match o {
        ParsedTermV::Named(iri) => (TermV::Named { iri }, labels, ctr),
        ParsedTermV::Blank(lbl) => {
            let (id, m, c) = alloc_blank(labels, ctr, lbl);
            (TermV::Blank { id }, m, c)
        },
        ParsedTermV::Simple(value) => (
            TermV::Literal { value, language: None, datatype: xsd_string() },
            labels,
            ctr,
        ),
        ParsedTermV::LangTagged(value, lang) => (
            TermV::Literal {
                value,
                language: Some(ascii_lower(lang)),
                datatype: rdf_lang_string(),
            },
            labels,
            ctr,
        ),
        ParsedTermV::Typed(value, datatype) => (
            TermV::Literal { value, language: None, datatype },
            labels,
            ctr,
        ),
    }
}

/// Loading one parsed triple into the graph `g`.
pub open spec fn load_one_v(st: LoadResV, t: ParsedTripleV, g: TermV) -> LoadResV {
    let (sv, m1, c1) = load_subject_v(st.labels, st.ctr, t.subject);
    let (ov, m2, c2) = load_object_v(m1, c1, t.object);
    LoadResV {
        quads: st.quads.insert(
            QuadV {
                subject: sv,
                predicate: TermV::Named { iri: t.predicate },
                object: ov,
                graph_name: g,
            },
        ),
        labels: m2,
        ctr: c2,
    }
}

/// Loading a run of parsed triples into the graph `g`, in order.
pub open spec fn load_triples_v(st: LoadResV, ts: Seq<ParsedTripleV>, g: TermV) -> LoadResV
    decreases ts.len(),
{
    if ts.len() == 0 {
        st
    } else {
        load_triples_v(load_one_v(st, ts[0], g), ts.drop_first(), g)
    }
}

/// The graph a parsed quad belongs to.
pub open spec fn load_graph_name_v(
    labels: Map<Seq<char>, Seq<char>>,
    ctr: nat,
    g: Option<ParsedSubjectV>,
) -> (TermV, Map<Seq<char>, Seq<char>>, nat) {
    match g {
        None => (TermV::DefaultGraph, labels, ctr),
        Some(s) => load_subject_v(labels, ctr, s),
    }
}

/// Loading one parsed quad, honoring its own graph name.
pub open spec fn load_one_quad_v(st: LoadResV, q: ParsedQuadV) -> LoadResV {
    let (sv, m1, c1) = load_subject_v(st.labels, st.ctr, q.subject);
    let (ov, m2, c2) = load_object_v(m1, c1, q.object);
    let (gv, m3, c3) = load_graph_name_v(m2, c2, q.graph);
    LoadResV {
        quads: st.quads.insert(
            QuadV {
                subject: sv,
                predicate: TermV::Named { iri: q.predicate },
                object: ov,
                graph_name: gv,
            },
        ),
        labels: m3,
        ctr: c3,
    }
}

/// Loading a run of parsed quads, in order.
pub open spec fn load_quads_v(st: LoadResV, qs: Seq<ParsedQuadV>) -> LoadResV
    decreases qs.len(),
{
    if qs.len() == 0 {
        st
    } else {
        load_quads_v(load_one_quad_v(st, qs[0]), qs.drop_first())
    }
}

/// Peeling the last triple off a load.
pub proof fn lemma_load_triples_snoc(st: LoadResV, ts: Seq<ParsedTripleV>, t: ParsedTripleV, g: TermV)
    ensures
        load_triples_v(st, ts.push(t), g) == load_one_v(load_triples_v(st, ts, g), t, g),
    decreases ts.len(),
{
    if ts.len() == 0 {
        assert(ts.push(t)[0] == t);
        assert(ts.push(t).drop_first() =~= Seq::<ParsedTripleV>::empty());
        assert(load_triples_v(st, ts, g) == st);
        assert(load_triples_v(st, ts.push(t), g) == load_triples_v(
            load_one_v(st, t, g),
            ts.push(t).drop_first(),
            g,
        ));
        assert(load_triples_v(load_one_v(st, t, g), ts.push(t).drop_first(), g) == load_one_v(
            st,
            t,
            g,
        ));
    } else {
        assert(ts.push(t)[0] == ts[0]);
        assert(ts.push(t).drop_first() =~= ts.drop_first().push(t));
        lemma_load_triples_snoc(load_one_v(st, ts[0], g), ts.drop_first(), t, g);
        assert(load_triples_v(st, ts.push(t), g) == load_triples_v(
            load_one_v(st, ts[0], g),
            ts.drop_first().push(t),
            g,
        ));
        assert(load_triples_v(st, ts, g) == load_triples_v(
            load_one_v(st, ts[0], g),
            ts.drop_first(),
            g,
        ));
    }
}

/// Peeling the last quad off a load.
pub proof fn lemma_load_quads_snoc(st: LoadResV, qs: Seq<ParsedQuadV>, q: ParsedQuadV)
    ensures
        load_quads_v(st, qs.push(q)) == load_one_quad_v(load_quads_v(st, qs), q),
    decreases qs.len(),
{
    if qs.len() == 0 {
        assert(qs.push(q)[0] == q);
        assert(qs.push(q).drop_first() =~= Seq::<ParsedQuadV>::empty());
        assert(load_quads_v(st, qs) == st);
        assert(load_quads_v(st, qs.push(q)) == load_quads_v(
            load_one_quad_v(st, q),
            qs.push(q).drop_first(),
        ));
        assert(load_quads_v(load_one_quad_v(st, q), qs.push(q).drop_first())
            == load_one_quad_v(st, q));
    } else {
        assert(qs.push(q)[0] == qs[0]);
        assert(qs.push(q).drop_first() =~= qs.drop_first().push(q));
        lemma_load_quads_snoc(load_one_quad_v(st, qs[0]), qs.drop_first(), q);
        assert(load_quads_v(st, qs.push(q)) == load_quads_v(
            load_one_quad_v(st, qs[0]),
            qs.drop_first().push(q),
        ));
        assert(load_quads_v(st, qs) == load_quads_v(load_one_quad_v(st, qs[0]), qs.drop_first()));
    }
}

/// Whether a document of `n` statements is sure to fit the machine
/// limits of the store: the dictionary grows by at most six entries
/// and the blank-node counter by at most three per statement.
pub open spec fn fits(dict: nat, ctr: nat, n: nat) -> bool {
    &&& n <= 0xffff_ffff
    &&& dict + 6 * n <= max_dict_len()
    &&& ctr + 3 * n <= u64::MAX
}

/// The base IRI an optional argument stands for; none is the empty
/// string.
pub open spec fn base_view(b: Option<&str>) -> Seq<char> {
    match b {
        Some(s) => s@,
        None => Seq::empty(),
    }
}

/// What parsing a document of the given triple syntax yields: the
/// streamed run of triples and whether the document was accepted.
pub open spec fn graph_doc(s: GraphSyntax, data: Seq<char>, base: Seq<char>) -> (
    Seq<ParsedTripleV>,
    bool,
) {
    match s {
        GraphSyntax::NTriples => ntriples_doc(data),
        GraphSyntax::Turtle => turtle_doc(data, base),
        GraphSyntax::RdfXml => rdfxml_doc(data, base),
    }
}

/// What parsing a document of the given quad syntax yields: the
/// streamed run of quads and whether the document was accepted.
pub open spec fn dataset_doc(s: DatasetSyntax, data: Seq<char>, base: Seq<char>) -> (
    Seq<ParsedQuadV>,
    bool,
) {
    match s {
        DatasetSyntax::NQuads => nquads_doc(data),
        DatasetSyntax::TriG => trig_doc(data, base),
    }
}

/// The graph a triple document is loaded into: the given target, or
/// the default graph when none is named.
pub open spec fn load_target_v(g: Option<&GraphName>) -> TermV {
    match g {
        Some(t) => t@,
        None => TermV::DefaultGraph,
    }
}

/// What loading a triple document leaves behind and reports: the
/// streamed run is folded into the store whether or not the document
/// was accepted in full, and a rejection is reported; a run over the
/// machine limits loads nothing and is reported as such.
pub open spec fn graph_load_post(
    pre_quads: Set<QuadV>,
    pre_dict: nat,
    pre_ctr: nat,
    post_quads: Set<QuadV>,
    post_ctr: nat,
    r: Result<(), Error>,
    s: GraphSyntax,
    data: Seq<char>,
    base: Seq<char>,
    g: TermV,
) -> bool {
    let (ts, ok) = graph_doc(s, data, base);
    if fits(pre_dict, pre_ctr, ts.len()) {
        let st = load_triples_v(
            LoadResV { quads: pre_quads, labels: Map::empty(), ctr: pre_ctr },
            ts,
            g,
        );
        &&& post_quads == st.quads
        &&& post_ctr == st.ctr
        &&& (r is Ok <==> ok)
        &&& (r matches Err(e) ==> e is ParseError)
    } else {
        &&& r matches Err(e) && e is CapacityExceeded
        &&& post_quads == pre_quads
        &&& post_ctr == pre_ctr
    }
}

/// What loading a quad document leaves behind and reports, as
/// `graph_load_post` with each quad keeping its own graph name.
pub open spec fn dataset_load_post(
    pre_quads: Set<QuadV>,
    pre_dict: nat,
    pre_ctr: nat,
    post_quads: Set<QuadV>,
    post_ctr: nat,
    r: Result<(), Error>,
    s: DatasetSyntax,
    data: Seq<char>,
    base: Seq<char>,
) -> bool {
    let (qs, ok) = dataset_doc(s, data, base);
    if fits(pre_dict, pre_ctr, qs.len()) {
        let st = load_quads_v(
            LoadResV { quads: pre_quads, labels: Map::empty(), ctr: pre_ctr },
            qs,
        );
        &&& post_quads == st.quads
        &&& post_ctr == st.ctr
        &&& (r is Ok <==> ok)
        &&& (r matches Err(e) ==> e is ParseError)
    } else {
        &&& r matches Err(e) && e is CapacityExceeded
        &&& post_quads == pre_quads
        &&& post_ctr == pre_ctr
    }
}

/// The label table an exec label vector stands for.
pub open spec fn table_matches(
    v: Seq<(String, String)>,
    m: Map<Seq<char>, Seq<char>>,
) -> bool {
    &&& (forall|k: Seq<char>| m.contains_key(k) <==> exists|j: int| 0 <= j < v.len() && (#[trigger] v[j]).0@ == k)
    &&& (forall|j: int| 0 <= j < v.len() ==> m.contains_key((#[trigger] v[j]).0@) && m[v[j].0@] == v[j].1@)
}

/// Looks a blank-node label up in the document's table.
fn lookup_label(v: &Vec<(String, String)>, key: &String) -> (r: Option<String>)
    ensures
        r matches Some(a) ==> exists|j: int| 0 <= j < v@.len() && (#[trigger] v@[j]).0@ == key@
            && v@[j].1@ == a@,
        r is None ==> forall|j: int| 0 <= j < v@.len() ==> (#[trigger] v@[j]).0@ != key@,
{
    let n = v.len();
    let mut i: usize = 0;
    while i < n
        invariant
            n == v@.len(),
            i <= n,
            forall|j: int| 0 <= j < i ==> (#[trigger] v@[j]).0@ != key@,
        decreases n - i,
    {
        if v[i].0 == *key {
            return Some(v[i].1.clone());
        }
        i = i + 1;
    }
    None
}

impl MemoryStore {
    /// Resolves a parsed subject to a term, renaming blank labels
    /// through the document's table.
    fn load_subject(
        &mut self,
        table: &mut Vec<(String, String)>,
        s: &ParsedSubject,
        Ghost(m): Ghost<Map<Seq<char>, Seq<char>>>,
    ) -> (r: (NamedOrBlankNode, Ghost<Map<Seq<char>, Seq<char>>>))
        requires
            table_matches(old(table)@, m),
            old(self).counter() < u64::MAX,
        ensures
            final(self).wf() == old(self).wf(),
            final(self)@ == old(self)@,
            final(self).dict_size() == old(self).dict_size(),
            table_matches(final(table)@, r.1@),
            (r.0@, r.1@, final(self).counter() as nat) == load_subject_v(
                m,
                old(self).counter(),
                s@,
            ),
            final(self).counter() <= old(self).counter() + 1,
    {
        match s {
            ParsedSubject::Named(iri) => (
                NamedOrBlankNode::NamedNode(NamedNode::new_unchecked(iri.clone())),
                Ghost(m),
            ),
            ParsedSubject::Blank(lbl) => {
                match lookup_label(table, lbl) {
                    Some(a) => {
                        proof {
                            assert(m.contains_key(lbl@));
                            assert(m[lbl@] == a@);
                        }
                        (NamedOrBlankNode::BlankNode(BlankNode::new(a)), Ghost(m))
                    },
                    None => {
                        proof {
                            assert(!m.contains_key(lbl@));
                        }
                        let c = self.alloc_blank_id();
                        let a = u64_to_dec(c);
                        table.push((lbl.clone(), a.clone()));
                        let ghost m2 = m.insert(lbl@, dec_str(c as nat));
                        proof {
                            assert forall|k: Seq<char>| m2.contains_key(k) <==> exists|j: int|
                                0 <= j < table@.len() && (#[trigger] table@[j]).0@ == k by {
                                if m2.contains_key(k) {
                                    if k == lbl@ {
                                        assert(table@[table@.len() - 1].0@ == k);
                                    } else {
                                        let j = choose|j: int|
                                            0 <= j < old(table)@.len() && (#[trigger] old(
                                                table,
                                            )@[j]).0@ == k;
                                        assert(table@[j].0@ == k);
                                    }
                                }
                                if exists|j: int|
                                    0 <= j < table@.len() && (#[trigger] table@[j]).0@ == k {
                                    let j = choose|j: int|
                                        0 <= j < table@.len() && (#[trigger] table@[j]).0@ == k;
                                    if j < table@.len() - 1 {
                                        assert(old(table)@[j].0@ == k);
                                    }
                                }
                            }
                        }
                        (NamedOrBlankNode::BlankNode(BlankNode::new(a)), Ghost(m2))
                    },
                }
            },
        }
    }

    /// Resolves a parsed object to a term, renaming blank labels
    /// through the document's table.
    fn load_object(
        &mut self,
        table: &mut Vec<(String, String)>,
        o: &ParsedTerm,
        Ghost(m): Ghost<Map<Seq<char>, Seq<char>>>,
    ) -> (r: (Term, Ghost<Map<Seq<char>, Seq<char>>>))
        requires
            table_matches(old(table)@, m),
            old(self).counter() < u64::MAX,
        ensures
            final(self).wf() == old(self).wf(),
            final(self)@ == old(self)@,
            final(self).dict_size() == old(self).dict_size(),
            table_matches(final(table)@, r.1@),
            (r.0@, r.1@, final(self).counter() as nat) == load_object_v(
                m,
                old(self).counter(),
                o@,
            ),
            final(self).counter() <= old(self).counter() + 1,
    {
        match o {
            ParsedTerm::Named(iri) => (
                Term::NamedNode(NamedNode::new_unchecked(iri.clone())),
                Ghost(m),
            ),
            ParsedTerm::Blank(lbl) => {
                let (n, gm) = self.load_subject(table, &ParsedSubject::Blank(lbl.clone()), Ghost(m));
                match n {
                    NamedOrBlankNode::BlankNode(b) => (Term::BlankNode(b), gm),
                    NamedOrBlankNode::NamedNode(_) => vstd::pervasive::unreached(),
                }
            },
            ParsedTerm::Simple(value) => (
                Term::Literal(Literal::new_simple_literal(value.clone())),
                Ghost(m),
            ),
            ParsedTerm::LangTagged(value, lang) => {
                let lower = crate::valid::to_ascii_lower(lang.as_str());
                (
                    Term::Literal(
                        Literal::new_language_tagged_literal_unchecked(value.clone(), lower),
                    ),
                    Ghost(m),
                )
            },
            ParsedTerm::Typed(value, datatype) => (
                Term::Literal(
                    Literal::new_typed_literal(
                        value.clone(),
                        NamedNode::new_unchecked(datatype.clone()),
                    ),
                ),
                Ghost(m),
            ),
        }
    }

    /// Loads already-parsed triples into the given graph: exactly the
    /// fold of the triples over the store, with this document's blank
    /// labels renamed to fresh identifiers.
    pub fn load_parsed_triples(
        &mut self,
        triples: &Vec<ParsedTriple>,
        to_graph_name: &GraphName,
    )
        requires
            old(self).wf(),
            old(self).dict_size() + 6 * triples@.len() <= max_dict_len(),
            old(self).counter() + 2 * triples@.len() <= u64::MAX,
        ensures
            final(self).wf(),
            ({
                let st = load_triples_v(
                    LoadResV {
                        quads: old(self)@,
                        labels: Map::empty(),
                        ctr: old(self).counter(),
                    },
                    triples_view(triples@),
                    to_graph_name@,
                );
                final(self)@ == st.quads && final(self).counter() == st.ctr
            }),
            final(self).dict_size() <= old(self).dict_size() + 6 * triples@.len(),
    {
        let ghost st0 = LoadResV {
            quads: old(self)@,
            labels: Map::empty(),
            ctr: old(self).counter(),
        };
        let ghost ts = triples_view(triples@);
        let mut table: Vec<(String, String)> = Vec::new();
        let ghost mut m = Map::<Seq<char>, Seq<char>>::empty();
        proof {
            assert(table_matches(table@, m));
            assert(ts.take(0) =~= Seq::<ParsedTripleV>::empty());
        }
        let n = triples.len();
        let mut i: usize = 0;
        while i < n
            invariant
                n == triples@.len(),
                ts == triples_view(triples@),
                st0 == (LoadResV {
                    quads: old(self)@,
                    labels: Map::empty(),
                    ctr: old(self).counter(),
                }),
                i <= n,
                old(self).dict_size() + 6 * n <= max_dict_len(),
                old(self).counter() + 2 * n <= u64::MAX,
                self.wf(),
                table_matches(table@, m),
                load_triples_v(st0, ts.take(i as int), to_graph_name@) == (LoadResV {
                    quads: self@,
                    labels: m,
                    ctr: self.counter() as nat,
                }),
                self.dict_size() <= old(self).dict_size() + 6 * i,
                self.counter() <= old(self).counter() + 2 * i,
            decreases n - i,
        {
            let t = &triples[i];
            let ghost m_in = m;
            let ghost c_in = self.counter();
            let (s_term, gm1) = self.load_subject(&mut table, &t.subject, Ghost(m));
            proof {
                m = gm1@;
            }
            let (o_term, gm2) = self.load_object(&mut table, &t.object, Ghost(m));
            proof {
                m = gm2@;
            }
            let q = Quad::new(
                s_term,
                NamedNode::new_unchecked(t.predicate.clone()),
                o_term,
                to_graph_name.clone(),
            );
            self.insert(&q);
            proof {
                assert(ts.take(i + 1) =~= ts.take(i as int).push(ts[i as int]));
                lemma_load_triples_snoc(st0, ts.take(i as int), ts[i as int], to_graph_name@);
                assert(ts[i as int] == t@);
                assert(load_triples_v(st0, ts.take(i + 1), to_graph_name@) == (LoadResV {
                    quads: self@,
                    labels: m,
                    ctr: self.counter() as nat,
                }));
            }
            i = i + 1;
        }
        proof {
            assert(ts.take(n as int) =~= ts);
        }
    }

    /// Loads already-parsed quads, honoring each quad's graph name:
    /// exactly the fold of the quads over the store, with this
    /// document's blank labels renamed to fresh identifiers.
    pub fn load_parsed_quads(&mut self, quads: &Vec<ParsedQuad>)
        requires
            old(self).wf(),
            old(self).dict_size() + 6 * quads@.len() <= max_dict_len(),
            old(self).counter() + 3 * quads@.len() <= u64::MAX,
        ensures
            final(self).wf(),
            ({
                let st = load_quads_v(
                    LoadResV {
                        quads: old(self)@,
                        labels: Map::empty(),
                        ctr: old(self).counter(),
                    },
                    quads_view(quads@),
                );
                final(self)@ == st.quads && final(self).counter() == st.ctr
            }),
            final(self).dict_size() <= old(self).dict_size() + 6 * quads@.len(),
    {
        let ghost st0 = LoadResV {
            quads: old(self)@,
            labels: Map::empty(),
            ctr: old(self).counter(),
        };
        let ghost qs = quads_view(quads@);
        let mut table: Vec<(String, String)> = Vec::new();
        let ghost mut m = Map::<Seq<char>, Seq<char>>::empty();
        proof {
            assert(table_matches(table@, m));
            assert(qs.take(0) =~= Seq::<ParsedQuadV>::empty());
        }
        let n = quads.len();
        let mut i: usize = 0;
        while i < n
            invariant
                n == quads@.len(),
                qs == quads_view(quads@),
                st0 == (LoadResV {
                    quads: old(self)@,
                    labels: Map::empty(),
                    ctr: old(self).counter(),
                }),
                i <= n,
                old(self).dict_size() + 6 * n <= max_dict_len(),
                old(self).counter() + 3 * n <= u64::MAX,
                self.wf(),
                table_matches(table@, m),
                load_quads_v(st0, qs.take(i as int)) == (LoadResV {
                    quads: self@,
                    labels: m,
                    ctr: self.counter() as nat,
                }),
                self.dict_size() <= old(self).dict_size() + 6 * i,
                self.counter() <= old(self).counter() + 3 * i,
            decreases n - i,
        {
            let q = &quads[i];
            let (s_term, gm1) = self.load_subject(&mut table, &q.subject, Ghost(m));
            proof {
                m = gm1@;
            }
            let (o_term, gm2) = self.load_object(&mut table, &q.object, Ghost(m));
            proof {
                m = gm2@;
            }
            let g_term: GraphName = match &q.graph {
                None => GraphName::DefaultGraph,
                Some(gs) => {
                    let (gn, gm3) = self.load_subject(&mut table, gs, Ghost(m));
                    proof {
                        m = gm3@;
                    }
                    match gn {
                        NamedOrBlankNode::NamedNode(nn) => GraphName::NamedNode(nn),
                        NamedOrBlankNode::BlankNode(b) => GraphName::BlankNode(b),
                    }
                },
            };
            let quad = Quad::new(
                s_term,
                NamedNode::new_unchecked(q.predicate.clone()),
                o_term,
                g_term,
            );
            self.insert(&quad);
            proof {
                assert(qs.take(i + 1) =~= qs.take(i as int).push(qs[i as int]));
                lemma_load_quads_snoc(st0, qs.take(i as int), qs[i as int]);
                assert(qs[i as int] == q@);
                assert(load_quads_v(st0, qs.take(i + 1)) == (LoadResV {
                    quads: self@,
                    labels: m,
                    ctr: self.counter() as nat,
                }));
            }
            i = i + 1;
        }
        proof {
            assert(qs.take(n as int) =~= qs);
        }
    }

    /// Whether a document of `n` statements fits this store's limits.
    fn check_capacity(&self, n: usize) -> (r: bool)
        ensures
            r == fits(self.dict_size(), self.counter(), n as nat),
    {
        let n64 = n as u64;
        if n64 > 0xffff_ffffu64 {
            return false;
        }
        let dict = self.dict_len() as u64;
        let ctr = self.counter_value();
        let cap: u64 = 0xffff_ffff_ffff_fffeu64;
        if dict > cap {
            return false;
        }
        if 6 * n64 > cap - dict {
            return false;
        }
        if 3 * n64 > u64::MAX - ctr {
            return false;
        }
        true
    }

    /// Parses a triple document into the given graph. The parser
    /// streams: every triple it handed over before rejecting the
    /// document is loaded and stays, and the rejection is then
    /// reported as a `ParseError`. A document over the machine limits
    /// is reported as `CapacityExceeded` and loads nothing.
    pub fn load_graph(
        &mut self,
        data: &str,
        syntax: GraphSyntax,
        to_graph_name: &GraphName,
        base_iri: Option<&str>,
    ) -> (r: Result<(), Error>)
        requires
            old(self).wf(),
        ensures
            final(self).wf(),
            graph_load_post(
                old(self)@,
                old(self).dict_size(),
                old(self).counter(),
                final(self)@,
                final(self).counter(),
                r,
                syntax,
                data@,
                base_view(base_iri),
                to_graph_name@,
            ),
    {
        let base = match base_iri {
            Some(b) => b,
            None => "",
        };
        proof {
            reveal_strlit("");
            assert(""@ =~= Seq::<char>::empty());
        }
        let (ts, perr) = match syntax {
            GraphSyntax::NTriples => parse_ntriples(data),
            GraphSyntax::Turtle => parse_turtle(data, base),
            GraphSyntax::RdfXml => parse_rdfxml(data, base),
        };
        if self.check_capacity(ts.len()) {
            self.load_parsed_triples(&ts, to_graph_name);
            match perr {
                None => Ok(()),
                Some(msg) => Err(Error::ParseError(msg)),
            }
        } else {
            Err(Error::CapacityExceeded)
        }
    }

    /// Parses a quad document, honoring each quad's own graph name.
    /// The parser streams: every quad it handed over before rejecting
    /// the document is loaded and stays, and the rejection is then
    /// reported as a `ParseError`. A document over the machine limits
    /// is reported as `CapacityExceeded` and loads nothing.
    pub fn load_dataset(
        &mut self,
        data: &str,
        syntax: DatasetSyntax,
        base_iri: Option<&str>,
    ) -> (r: Result<(), Error>)
        requires
            old(self).wf(),
        ensures
            final(self).wf(),
            dataset_load_post(
                old(self)@,
                old(self).dict_size(),
                old(self).counter(),
                final(self)@,
                final(self).counter(),
                r,
                syntax,
                data@,
                base_view(base_iri),
            ),
    {
        let base = match base_iri {
            Some(b) => b,
            None => "",
        };
        proof {
            reveal_strlit("");
            assert(""@ =~= Seq::<char>::empty());
        }
        let (qs, perr) = match syntax {
            DatasetSyntax::NQuads => parse_nquads(data),
            DatasetSyntax::TriG => parse_trig(data, base),
        };
        if self.check_capacity(qs.len()) {
            self.load_parsed_quads(&qs);
            match perr {
                None => Ok(()),
                Some(msg) => Err(Error::ParseError(msg)),
            }
        } else {
            Err(Error::CapacityExceeded)
        }
    }

    /// Loads a document whose syntax a MIME type names. A triple
    /// syntax goes to the given graph (default when none is given); a
    /// quad syntax honors the graphs in the document, and naming a
    /// target graph for it is an error; an unknown MIME type is an
    /// error. The supported syntaxes behave exactly as `load_graph`
    /// and `load_dataset` do.
    pub fn load(
        &mut self,
        data: &str,
        mime_type: &str,
        base_iri: Option<&str>,
        to_graph_name: Option<&GraphName>,
    ) -> (r: Result<(), Error>)
        requires
            old(self).wf(),
        ensures
            final(self).wf(),
            ({
                match graph_syntax_of(mime_type@) {
                    Some(s) => graph_load_post(
                        old(self)@,
                        old(self).dict_size(),
                        old(self).counter(),
                        final(self)@,
                        final(self).counter(),
                        r,
                        s,
                        data@,
                        base_view(base_iri),
                        load_target_v(to_graph_name),
                    ),
                    None => match dataset_syntax_of(mime_type@) {
                        Some(s) => if to_graph_name is Some {
                            r matches Err(e) && e is GraphNameNotApplicable && final(self)@
                                == old(self)@ && final(self).counter() == old(self).counter()
                        } else {
                            dataset_load_post(
                                old(self)@,
                                old(self).dict_size(),
                                old(self).counter(),
                                final(self)@,
                                final(self).counter(),
                                r,
                                s,
                                data@,
                                base_view(base_iri),
                            )
                        },
                        None => r matches Err(e) && e is UnsupportedSyntax && final(self)@
                            == old(self)@ && final(self).counter() == old(self).counter(),
                    },
                }
            }),
    {
        let graph_syntax = GraphSyntax::from_mime_type(mime_type);
        match graph_syntax {
            Some(s) => {
                proof {
                    lemma_syntax_disjoint(mime_type@);
                }
                match to_graph_name {
                    Some(g) => self.load_graph(data, s, g, base_iri),
                    None => self.load_graph(data, s, &GraphName::DefaultGraph, base_iri),
                }
            },
            None => {
                match DatasetSyntax::from_mime_type(mime_type) {
                    Some(s) => {
                        if to_graph_name.is_some() {
                            Err(Error::GraphNameNotApplicable)
                        } else {
                            self.load_dataset(data, s, base_iri)
                        }
                    },
                    None => Err(Error::UnsupportedSyntax),
                }
            },
        }
    }
}

/// A blank node whose identifier was rendered from a number at least
/// `c`.
pub open spec fn term_blank_ge(t: TermV, c: nat) -> bool {
    exists|c2: nat| c <= c2 && t == (TermV::Blank { id: dec_str(c2) })
}

/// A quad holding a blank node allocated at or after `c`.
pub open spec fn quad_blank_ge(q: QuadV, c: nat) -> bool {
    term_blank_ge(q.subject, c) || term_blank_ge(q.object, c) || term_blank_ge(q.graph_name, c)
}

/// No quad of the set holds a blank node allocated at or after `c`.
/// An empty store satisfies this for counter zero, and every load
/// re-establishes it at the new counter.
pub open spec fn blanks_below(s: Set<QuadV>, c: nat) -> bool {
    forall|q: QuadV| s.contains(q) ==> !quad_blank_ge(q, c)
}

/// Every label the table maps is rendered from a number in
/// `[c0, hi)`.
pub open spec fn labels_in(m: Map<Seq<char>, Seq<char>>, c0: nat, hi: nat) -> bool {
    forall|l: Seq<char>| m.contains_key(l) ==> exists|c2: nat| c0 <= c2 < hi && m[l] == dec_str(c2)
}

proof fn lemma_blank_ge_mono(t: TermV, c1: nat, c2: nat)
    requires
        c1 <= c2,
        term_blank_ge(t, c2),
    ensures
        term_blank_ge(t, c1),
{
}

/// An identifier rendered from a number below `hi` is not one rendered
/// from a number at or past `hi`.
proof fn lemma_blank_id_not_ge(c3: nat, hi: nat)
    requires
        c3 < hi,
    ensures
        !term_blank_ge(TermV::Blank { id: dec_str(c3) }, hi),
{
    if term_blank_ge(TermV::Blank { id: dec_str(c3) }, hi) {
        let c2 = choose|c2: nat|
            hi <= c2 && (TermV::Blank { id: dec_str(c3) }) == (TermV::Blank { id: dec_str(c2) });
        crate::digits::lemma_dec_str_injective(c3, c2);
    }
}

/// One load keeps every blank identifier it allocates below the
/// counter it ends with, so the new store again has its blanks below
/// its counter.
proof fn lemma_load_keeps_blanks_below(st: LoadResV, ts: Seq<ParsedTripleV>, g: TermV, c0: nat)
    requires
        st.ctr >= c0,
        blanks_below(st.quads, st.ctr),
        labels_in(st.labels, c0, st.ctr),
        !(g is Blank),
    ensures
        ({
            let st1 = load_triples_v(st, ts, g);
            &&& st1.ctr >= st.ctr
            &&& blanks_below(st1.quads, st1.ctr)
            &&& labels_in(st1.labels, c0, st1.ctr)
            &&& forall|q: QuadV| st.quads.contains(q) ==> st1.quads.contains(q)
        }),
    decreases ts.len(),
{
    if ts.len() > 0 {
        let t = ts[0];
        let stm = load_one_v(st, t, g);
        let (sv, m1, c1) = load_subject_v(st.labels, st.ctr, t.subject);
        let (ov, m2, c2) = load_object_v(m1, c1, t.object);
        let nq = QuadV {
            subject: sv,
            predicate: TermV::Named { iri: t.predicate },
            object: ov,
            graph_name: g,
        };
        assert(c2 >= st.ctr);
        assert(labels_in(m2, c0, c2));
        assert(!term_blank_ge(sv, c2)) by {
            if t.subject is Blank {
                if st.labels.contains_key(t.subject->Blank_0) {
                    let c3 = choose|c3: nat|
                        c0 <= c3 < st.ctr && st.labels[t.subject->Blank_0] == dec_str(c3);
                    lemma_blank_id_not_ge(c3, c2);
                } else {
                    lemma_blank_id_not_ge(st.ctr, c2);
                }
            }
        }
        assert(!term_blank_ge(ov, c2)) by {
            if t.object is Blank {
                if m1.contains_key(t.object->Blank_0) {
                    let c3 = choose|c3: nat|
                        c0 <= c3 < c1 && m1[t.object->Blank_0] == dec_str(c3);
                    lemma_blank_id_not_ge(c3, c2);
                } else {
                    lemma_blank_id_not_ge(c1, c2);
                }
            }
        }
        assert(!quad_blank_ge(nq, c2));
        assert(blanks_below(stm.quads, stm.ctr)) by {
            assert forall|q: QuadV| stm.quads.contains(q) implies !quad_blank_ge(q, stm.ctr) by {
                if q == nq {
                } else {
                    assert(st.quads.contains(q));
                    assert(!quad_blank_ge(q, st.ctr));
                    if term_blank_ge(q.subject, stm.ctr) {
                        lemma_blank_ge_mono(q.subject, st.ctr, stm.ctr);
                    }
                    if term_blank_ge(q.object, stm.ctr) {
                        lemma_blank_ge_mono(q.object, st.ctr, stm.ctr);
                    }
                    if term_blank_ge(q.graph_name, stm.ctr) {
                        lemma_blank_ge_mono(q.graph_name, st.ctr, stm.ctr);
                    }
                }
            }
        }
        lemma_load_keeps_blanks_below(stm, ts.drop_first(), g, c0);
    }
}

/// Blank-node isolation: a load renames a document's blank labels to
/// identifiers drawn from the store's counter, so the quads a second
/// load of the same document adds for its blank nodes are disjoint
/// from every quad the store held after the first — the two copies
/// never conflate. The premise holds of a freshly created store and is
/// re-established by every load.
pub proof fn lemma_blank_node_isolation(
    s: Set<QuadV>,
    ts: Seq<ParsedTripleV>,
    g: TermV,
    c0: nat,
)
    requires
        blanks_below(s, c0),
        !(g is Blank),
    ensures
        ({
            let st1 = load_triples_v(LoadResV { quads: s, labels: Map::empty(), ctr: c0 }, ts, g);
            let st2 = load_triples_v(
                LoadResV { quads: st1.quads, labels: Map::empty(), ctr: st1.ctr },
                ts,
                g,
            );
            &&& blanks_below(st1.quads, st1.ctr)
            &&& blanks_below(st2.quads, st2.ctr)
            &&& forall|q: QuadV|
                st2.quads.contains(q) && quad_blank_ge(q, st1.ctr) ==> !st1.quads.contains(q)
                    && !s.contains(q)
        }),
{
    let st0 = LoadResV { quads: s, labels: Map::empty(), ctr: c0 };
    lemma_load_keeps_blanks_below(st0, ts, g, c0);
    let st1 = load_triples_v(st0, ts, g);
    let st0b = LoadResV { quads: st1.quads, labels: Map::empty(), ctr: st1.ctr };
    lemma_load_keeps_blanks_below(st0b, ts, g, st1.ctr);
    let st2 = load_triples_v(st0b, ts, g);
    assert forall|q: QuadV|
        st2.quads.contains(q) && quad_blank_ge(q, st1.ctr) implies !st1.quads.contains(q)
            && !s.contains(q) by {
        assert(!quad_blank_ge(q, st1.ctr) || !st1.quads.contains(q));
        if s.contains(q) {
            assert(st1.quads.contains(q));
        }
    }
}

/// No MIME type names both a triple syntax and a quad syntax.
pub proof fn lemma_syntax_disjoint(m: Seq<char>)
    ensures
        !(graph_syntax_of(m) is Some && dataset_syntax_of(m) is Some),
{
    reveal_strlit("application/n-triples");
    reveal_strlit("text/turtle");
    reveal_strlit("application/x-turtle");
    reveal_strlit("application/rdf+xml");
    reveal_strlit("application/n-quads");
    reveal_strlit("application/trig");
    assert("application/n-quads"@.len() != "application/n-triples"@.len());
    assert("application/n-quads"@.len() != "text/turtle"@.len());
    assert("application/n-quads"@.len() != "application/x-turtle"@.len());
    assert("application/n-quads"@[12] != "application/rdf+xml"@[12]);
    assert("application/trig"@.len() != "application/n-triples"@.len());
    assert("application/trig"@.len() != "text/turtle"@.len());
    assert("application/trig"@.len() != "application/x-turtle"@.len());
    assert("application/trig"@.len() != "application/rdf+xml"@.len());
}

} // verus!
