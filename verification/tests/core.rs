use rudf::model::{BlankNode, GraphName, Literal, NamedNode, NamedOrBlankNode, Quad, Term};
use rudf::store::MemoryStore;
use rudf::syntax::{DatasetSyntax, GraphSyntax};
use rudf::eval::{GraphNamePattern, QuadPattern, TermPattern};
use rudf::Error;

fn named(iri: &str) -> NamedNode {
    NamedNode::new(iri.to_string()).unwrap()
}

fn simple_quad() -> Quad {
    Quad::new(
        NamedOrBlankNode::NamedNode(named("http://ex/s")),
        named("http://ex/p"),
        Term::NamedNode(named("http://ex/o")),
        GraphName::DefaultGraph,
    )
}

fn subject_iri(q: &Quad) -> String {
    match &q.subject {
        NamedOrBlankNode::NamedNode(n) => n.as_str().to_string(),
        NamedOrBlankNode::BlankNode(b) => format!("_:{}", b.as_str()),
    }
}

fn subject_blank_id(q: &Quad) -> String {
    match &q.subject {
        NamedOrBlankNode::BlankNode(b) => b.as_str().to_string(),
        _ => panic!("expected a blank subject"),
    }
}

fn object_blank_id(q: &Quad) -> String {
    match &q.object {
        Term::BlankNode(b) => b.as_str().to_string(),
        _ => panic!("expected a blank object"),
    }
}

#[test]
fn insert_contains_len() {
    let mut store = MemoryStore::new();
    let q = simple_quad();
    store.insert(&q);
    assert!(store.contains(&q));
    assert_eq!(store.len(), 1);
    store.insert(&q);
    assert_eq!(store.len(), 1);
}

#[test]
fn insert_remove_contains() {
    let mut store = MemoryStore::new();
    let q = simple_quad();
    store.insert(&q);
    store.remove(&q);
    assert!(!store.contains(&q));
    assert_eq!(store.len(), 0);
}

#[test]
fn remove_absent_is_noop() {
    let mut store = MemoryStore::new();
    let q = simple_quad();
    store.remove(&q);
    assert_eq!(store.len(), 0);
}

#[test]
fn pattern_match_on_predicate() {
    let mut store = MemoryStore::new();
    store.insert(&simple_quad());
    let p = named("http://ex/p");
    let found = store.quads_for_pattern(None, Some(&p), None, None);
    assert_eq!(found.len(), 1);
    assert_eq!(subject_iri(&found[0]), "http://ex/s");
    let other = named("http://ex/other");
    let missed = store.quads_for_pattern(None, Some(&other), None, None);
    assert_eq!(missed.len(), 0);
}

#[test]
fn pattern_match_all_positions_bound() {
    let mut store = MemoryStore::new();
    let q = simple_quad();
    store.insert(&q);
    let s = NamedOrBlankNode::NamedNode(named("http://ex/s"));
    let p = named("http://ex/p");
    let o = Term::NamedNode(named("http://ex/o"));
    let g = GraphName::DefaultGraph;
    let found = store.quads_for_pattern(Some(&s), Some(&p), Some(&o), Some(&g));
    assert_eq!(found.len(), 1);
}

#[test]
fn select_all_variables() {
    let mut store = MemoryStore::new();
    store.insert(&simple_quad());
    let patterns = vec![QuadPattern {
        subject: TermPattern::Variable(0),
        predicate: TermPattern::Variable(1),
        object: TermPattern::Variable(2),
        graph_name: GraphNamePattern::Constant(GraphName::DefaultGraph),
    }];
    let solutions = store.evaluate_bgp(&patterns, 3);
    assert_eq!(solutions.len(), 1);
    let projected = rudf::eval::project(&solutions, &vec![0usize], 3);
    assert_eq!(projected.len(), 1);
    match &projected[0][0] {
        Some(Term::NamedNode(n)) => assert_eq!(n.as_str(), "http://ex/s"),
        _ => panic!("expected the subject binding"),
    }
}

#[test]
fn ask_and_join() {
    let mut store = MemoryStore::new();
    store.insert(&simple_quad());
    store.insert(&Quad::new(
        NamedOrBlankNode::NamedNode(named("http://ex/o")),
        named("http://ex/p2"),
        Term::NamedNode(named("http://ex/z")),
        GraphName::DefaultGraph,
    ));
    // ?x p ?y . ?y p2 ?z — a join through ?y.
    let patterns = vec![
        QuadPattern {
            subject: TermPattern::Variable(0),
            predicate: TermPattern::Constant(Term::NamedNode(named("http://ex/p"))),
            object: TermPattern::Variable(1),
            graph_name: GraphNamePattern::Constant(GraphName::DefaultGraph),
        },
        QuadPattern {
            subject: TermPattern::Variable(1),
            predicate: TermPattern::Constant(Term::NamedNode(named("http://ex/p2"))),
            object: TermPattern::Variable(2),
            graph_name: GraphNamePattern::Constant(GraphName::DefaultGraph),
        },
    ];
    assert!(store.ask_bgp(&patterns, 3));
    let solutions = store.evaluate_bgp(&patterns, 3);
    assert_eq!(solutions.len(), 1);
    match &solutions[0][2] {
        Some(Term::NamedNode(n)) => assert_eq!(n.as_str(), "http://ex/z"),
        _ => panic!("expected ?z bound"),
    }
}

#[test]
fn turtle_load_default_graph() {
    let mut store = MemoryStore::new();
    store
        .load_graph(
            "<a> <b> <c> .",
            GraphSyntax::Turtle,
            &GraphName::DefaultGraph,
            Some("http://ex/"),
        )
        .unwrap();
    let g = GraphName::DefaultGraph;
    let found = store.quads_for_pattern(None, None, None, Some(&g));
    assert_eq!(found.len(), 1);
    assert_eq!(subject_iri(&found[0]), "http://ex/a");
}

#[test]
fn ntriples_load() {
    let mut store = MemoryStore::new();
    store
        .load_graph(
            "<http://ex/a> <http://ex/b> \"v\"@EN .",
            GraphSyntax::NTriples,
            &GraphName::DefaultGraph,
            None,
        )
        .unwrap();
    assert_eq!(store.len(), 1);
    let found = store.quads_for_pattern(None, None, None, None);
    match &found[0].object {
        Term::Literal(l) => {
            assert_eq!(l.value(), "v");
            assert_eq!(l.language(), Some("en"));
        },
        _ => panic!("expected a literal object"),
    }
}

#[test]
fn nquads_graph_preservation() {
    let mut store = MemoryStore::new();
    store
        .load_dataset(
            "<http://ex/a> <http://ex/b> <http://ex/c> <http://ex/g> .",
            DatasetSyntax::NQuads,
            None,
        )
        .unwrap();
    let g = GraphName::NamedNode(named("http://ex/g"));
    let in_g = store.quads_for_pattern(None, None, None, Some(&g));
    assert_eq!(in_g.len(), 1);
    let dg = GraphName::DefaultGraph;
    let in_default = store.quads_for_pattern(None, None, None, Some(&dg));
    assert_eq!(in_default.len(), 0);
}

#[test]
fn blank_node_isolation() {
    let mut store = MemoryStore::new();
    let doc = "_:x <http://ex/p> _:x .";
    store
        .load_graph(doc, GraphSyntax::NTriples, &GraphName::DefaultGraph, None)
        .unwrap();
    store
        .load_graph(doc, GraphSyntax::NTriples, &GraphName::DefaultGraph, None)
        .unwrap();
    assert_eq!(store.len(), 2);
    let found = store.quads_for_pattern(None, None, None, None);
    assert_eq!(found.len(), 2);
    let s0 = subject_blank_id(&found[0]);
    let o0 = object_blank_id(&found[0]);
    let s1 = subject_blank_id(&found[1]);
    let o1 = object_blank_id(&found[1]);
    // Within one load the label maps to one id; across loads they differ.
    assert_eq!(s0, o0);
    assert_eq!(s1, o1);
    assert_ne!(s0, s1);
}

#[test]
fn load_dispatch_by_mime_type() {
    let mut store = MemoryStore::new();
    store
        .load(
            "<http://ex/a> <http://ex/b> <http://ex/c> .",
            "application/n-triples",
            None,
            None,
        )
        .unwrap();
    assert_eq!(store.len(), 1);
    let err = store
        .load("x", "text/unknown", None, None)
        .unwrap_err();
    assert!(matches!(err, Error::UnsupportedSyntax));
    assert_eq!(store.len(), 1);
}

#[test]
fn target_graph_refused_for_datasets() {
    let mut store = MemoryStore::new();
    let g = GraphName::NamedNode(named("http://ex/g"));
    let err = store
        .load(
            "<http://ex/a> <http://ex/b> <http://ex/c> .",
            "application/n-quads",
            None,
            Some(&g),
        )
        .unwrap_err();
    assert!(matches!(err, Error::GraphNameNotApplicable));
    assert_eq!(store.len(), 0);
}

#[test]
fn parse_error_reported_nothing_parsed() {
    let mut store = MemoryStore::new();
    store.insert(&simple_quad());
    let err = store
        .load_graph(
            "this is not turtle at all <",
            GraphSyntax::Turtle,
            &GraphName::DefaultGraph,
            None,
        )
        .unwrap_err();
    assert!(matches!(err, Error::ParseError(_)));
    assert_eq!(store.len(), 1);
}

#[test]
fn parse_error_keeps_streamed_prefix() {
    let mut store = MemoryStore::new();
    let data = "<http://ex/a> <http://ex/b> <http://ex/c> .\nthis line is not a triple";
    let err = store
        .load_graph(data, GraphSyntax::NTriples, &GraphName::DefaultGraph, None)
        .unwrap_err();
    assert!(matches!(err, Error::ParseError(_)));
    // The triple parsed before the failure was inserted and stays.
    assert_eq!(store.len(), 1);
    let found = store.quads_for_pattern(None, None, None, None);
    assert_eq!(subject_iri(&found[0]), "http://ex/a");
}

#[test]
fn literal_round_trip_through_store() {
    let mut store = MemoryStore::new();
    let dt = named("http://ex/dt");
    let objects = vec![
        Term::Literal(Literal::new_simple_literal("plain".to_string())),
        Term::Literal(
            Literal::new_language_tagged_literal("hallo".to_string(), "DE".to_string()).unwrap(),
        ),
        Term::Literal(Literal::new_typed_literal("42".to_string(), dt)),
        Term::Literal(Literal::new_typed_literal(
            "true".to_string(),
            named("http://www.w3.org/2001/XMLSchema#boolean"),
        )),
        Term::BlankNode(BlankNode::new("b0".to_string())),
    ];
    for (i, o) in objects.into_iter().enumerate() {
        let q = Quad::new(
            NamedOrBlankNode::NamedNode(named(&format!("http://ex/s{}", i))),
            named("http://ex/p"),
            o,
            GraphName::DefaultGraph,
        );
        store.insert(&q);
        assert!(store.contains(&q));
    }
    assert_eq!(store.len(), 5);
    let all = store.quads_for_pattern(None, None, None, None);
    assert_eq!(all.len(), 5);
    let mut seen_lang = false;
    let mut seen_bool = false;
    for q in &all {
        if let Term::Literal(l) = &q.object {
            if l.language() == Some("de") {
                assert_eq!(l.value(), "hallo");
                assert_eq!(
                    l.datatype().as_str(),
                    "http://www.w3.org/1999/02/22-rdf-syntax-ns#langString"
                );
                seen_lang = true;
            }
            if l.value() == "true" {
                assert_eq!(
                    l.datatype().as_str(),
                    "http://www.w3.org/2001/XMLSchema#boolean"
                );
                seen_bool = true;
            }
        }
    }
    assert!(seen_lang && seen_bool);
}

#[test]
fn typed_xsd_string_collapses_to_simple() {
    let l = Literal::new_typed_literal(
        "v".to_string(),
        named("http://www.w3.org/2001/XMLSchema#string"),
    );
    assert_eq!(l.value(), "v");
    assert_eq!(l.language(), None);
    assert_eq!(l.datatype().as_str(), "http://www.w3.org/2001/XMLSchema#string");
}

#[test]
fn named_node_validation() {
    let ok = NamedNode::new("http://example.com/foo".to_string()).unwrap();
    assert_eq!(ok.as_str(), "http://example.com/foo");
    assert_eq!(
        NamedNode::new_unchecked("http://e/".to_string()).into_string(),
        "http://e/"
    );
    let err = NamedNode::new("not an iri".to_string()).unwrap_err();
    assert!(matches!(err, Error::InvalidIri));
    let err2 = NamedNode::parse("relative/path".to_string()).unwrap_err();
    assert!(matches!(err2, Error::InvalidIri));
    let ok2 = NamedNode::parse("http://example.com/bar".to_string()).unwrap();
    assert_eq!(ok2.as_str(), "http://example.com/bar");
}

#[test]
fn language_tag_validation_and_lowercasing() {
    let l = Literal::new_language_tagged_literal("v".to_string(), "EN-Latn".to_string()).unwrap();
    assert_eq!(l.language(), Some("en-latn"));
    let err =
        Literal::new_language_tagged_literal("v".to_string(), "12-!!".to_string()).unwrap_err();
    assert!(matches!(err, Error::InvalidLanguageTag));
}

#[test]
fn mime_type_mapping() {
    assert!(matches!(
        GraphSyntax::from_mime_type("application/n-triples"),
        Some(GraphSyntax::NTriples)
    ));
    assert!(matches!(
        GraphSyntax::from_mime_type("text/turtle"),
        Some(GraphSyntax::Turtle)
    ));
    assert!(matches!(
        GraphSyntax::from_mime_type("application/x-turtle"),
        Some(GraphSyntax::Turtle)
    ));
    assert!(matches!(
        GraphSyntax::from_mime_type("application/rdf+xml"),
        Some(GraphSyntax::RdfXml)
    ));
    assert!(GraphSyntax::from_mime_type("application/n-quads").is_none());
    assert!(matches!(
        DatasetSyntax::from_mime_type("application/n-quads"),
        Some(DatasetSyntax::NQuads)
    ));
    assert!(matches!(
        DatasetSyntax::from_mime_type("application/trig"),
        Some(DatasetSyntax::TriG)
    ));
    assert_eq!(GraphSyntax::NTriples.media_type(), "application/n-triples");
    assert_eq!(DatasetSyntax::TriG.media_type(), "application/trig");
}

#[test]
fn rdfxml_load() {
    let data = "<?xml version=\"1.0\"?>\
        <rdf:RDF xmlns:rdf=\"http://www.w3.org/1999/02/22-rdf-syntax-ns#\" xmlns:ex=\"http://ex/\">\
        <rdf:Description rdf:about=\"http://ex/a\"><ex:b rdf:resource=\"http://ex/c\"/></rdf:Description>\
        </rdf:RDF>";
    let mut store = MemoryStore::new();
    store
        .load_graph(data, GraphSyntax::RdfXml, &GraphName::DefaultGraph, None)
        .unwrap();
    assert_eq!(store.len(), 1);
    let found = store.quads_for_pattern(None, None, None, None);
    assert_eq!(subject_iri(&found[0]), "http://ex/a");
}

#[test]
fn trig_load() {
    let data = "<http://ex/g> { <http://ex/a> <http://ex/b> <http://ex/c> . }";
    let mut store = MemoryStore::new();
    store.load_dataset(data, DatasetSyntax::TriG, None).unwrap();
    let g = GraphName::NamedNode(named("http://ex/g"));
    assert_eq!(store.quads_for_pattern(None, None, None, Some(&g)).len(), 1);
}

#[test]
fn dictionary_ids_are_stable() {
    let mut d = rudf::dict::Dictionary::new();
    let a = d.intern("alpha".to_string());
    let b = d.intern("beta".to_string());
    let a2 = d.intern("alpha".to_string());
    assert!(a >= 1);
    assert_eq!(a, a2);
    assert_ne!(a, b);
    assert_eq!(d.resolve(a).unwrap(), "alpha");
    assert_eq!(d.resolve(b).unwrap(), "beta");
    assert!(d.resolve(0).is_none());
    assert!(d.resolve(3).is_none());
}

#[test]
fn decimal_rendering() {
    assert_eq!(rudf::digits::u64_to_dec(0), "0");
    assert_eq!(rudf::digits::u64_to_dec(42), "42");
    assert_eq!(rudf::digits::u64_to_dec(18446744073709551615), "18446744073709551615");
}

#[test]
fn distinct_limit_offset() {
    let a = vec![Some(Term::NamedNode(named("http://ex/a")))];
    let a2 = vec![Some(Term::NamedNode(named("http://ex/a")))];
    let b = vec![Some(Term::NamedNode(named("http://ex/b")))];
    let rows = vec![a, a2, b];
    let unique = rudf::eval::distinct(&rows);
    assert_eq!(unique.len(), 2);
    let capped = rudf::eval::limit(&rows, 1);
    assert_eq!(capped.len(), 1);
    let rest = rudf::eval::offset(&rows, 2);
    assert_eq!(rest.len(), 1);
    match &rest[0][0] {
        Some(Term::NamedNode(n)) => assert_eq!(n.as_str(), "http://ex/b"),
        _ => panic!("expected the last binding"),
    }
    assert_eq!(rudf::eval::offset(&rows, 9).len(), 0);
    assert_eq!(rudf::eval::limit(&rows, 9).len(), 3);
}

#[test]
fn error_messages() {
    assert_eq!(Error::InvalidIri.message(), "invalid IRI");
    assert_eq!(
        Error::ParseError("boom".to_string()).message(),
        "boom"
    );
    assert_eq!(Error::UnsupportedSyntax.message(), "not supported MIME type");
}

#[test]
fn ascii_lowercasing() {
    assert_eq!(rudf::valid::to_ascii_lower("AbC-09"), "abc-09");
    assert_eq!(rudf::valid::to_ascii_lower(""), "");
}
