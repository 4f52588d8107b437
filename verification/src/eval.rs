//! The basic-graph-pattern evaluator: takes an algebra of quad
//! patterns over numbered variables — an external query parser
//! delivers such a tree — and produces the variable bindings that the
//! store supports, with the wrappers that SELECT, ASK, DISTINCT,
//! LIMIT and OFFSET need.

use vstd::prelude::*;
use crate::model::{
    TermV, QuadV, NamedNode, NamedOrBlankNode, Term, GraphName, Quad, term_eq,
};
use crate::store::{MemoryStore, matches_pattern, opt_subject_v, opt_named_v, opt_term_v,
    opt_graph_v};

verus! {

/// One position of a quad pattern: a constant term or a variable.
pub enum TermPattern {
    Constant(Term),
    Variable(usize),
}

/// The graph-name position of a quad pattern.
pub enum GraphNamePattern {
    Constant(GraphName),
    Variable(usize),
}

/// A quad pattern over numbered variables.
pub struct QuadPattern {
    pub subject: TermPattern,
    pub predicate: TermPattern,
    pub object: TermPattern,
    pub graph_name: GraphNamePattern,
}

/// The mathematical value of one pattern position.
#[verifier::ext_equal]
pub enum TermPatternV {
    Constant(TermV),
    Variable(nat),
}

/// The mathematical value of a quad pattern.
#[verifier::ext_equal]
pub struct QuadPatternV {
    pub subject: TermPatternV,
    pub predicate: TermPatternV,
    pub object: TermPatternV,
    pub graph_name: TermPatternV,
}

impl View for TermPattern {
    type V = TermPatternV;

    open spec fn view(&self) -> TermPatternV {
        match self {
            TermPattern::Constant(t) => TermPatternV::Constant(t@),
            TermPattern::Variable(v) => TermPatternV::Variable(*v as nat),
        }
    }
}

impl View for GraphNamePattern {
    type V = TermPatternV;

    open spec fn view(&self) -> TermPatternV {
        match self {
            GraphNamePattern::Constant(g) => TermPatternV::Constant(g@),
            GraphNamePattern::Variable(v) => TermPatternV::Variable(*v as nat),
        }
    }
}

impl View for QuadPattern {
    type V = QuadPatternV;

    open spec fn view(&self) -> QuadPatternV {
        QuadPatternV {
            subject: self.subject@,
            predicate: self.predicate@,
            object: self.object@,
            graph_name: self.graph_name@,
        }
    }
}

/// The value of one optionally bound term.
pub open spec fn view_opt(o: Option<Term>) -> Option<TermV> {
    match o {
        Some(t) => Some(t@),
        None => None,
    }
}

/// A binding: for each variable, the term it is bound to, if any.
pub open spec fn binding_view(b: Seq<Option<Term>>) -> Seq<Option<TermV>> {
    b.map_values(|o: Option<Term>| view_opt(o))
}

/// The binding with no variable bound.
pub open spec fn empty_binding(nvars: nat) -> Seq<Option<TermV>> {
    Seq::new(nvars, |i: int| None)
}

/// Every variable of the pattern is one of the query's variables.
pub open spec fn pattern_wf(p: QuadPatternV, nvars: nat) -> bool {
    &&& (p.subject matches TermPatternV::Variable(v) ==> v < nvars)
    &&& (p.predicate matches TermPatternV::Variable(v) ==> v < nvars)
    &&& (p.object matches TermPatternV::Variable(v) ==> v < nvars)
    &&& (p.graph_name matches TermPatternV::Variable(v) ==> v < nvars)
}

pub open spec fn patterns_wf(ps: Seq<QuadPatternV>, nvars: nat) -> bool {
    forall|i: int| 0 <= i < ps.len() ==> pattern_wf(#[trigger] ps[i], nvars)
}

/// Matching one pattern position against one term, under a binding:
/// a constant must equal the term; an unbound variable is bound to
/// it; a bound variable must agree with it.
pub open spec fn pat_step(
    b: Seq<Option<TermV>>,
    p: TermPatternV,
    t: TermV,
) -> Option<Seq<Option<TermV>>> {
    match p {
        TermPatternV::Constant(c) => if c == t {
            Some(b)
        } else {
            None
        },
        TermPatternV::Variable(v) => match b[v as int] {
            None => Some(b.update(v as int, Some(t))),
            Some(u) => if u == t {
                Some(b)
            } else {
                None
            },
        },
    }
}

/// Matching the graph-name position: as `pat_step`, except that a
/// variable ranges over named graphs only and never binds the default
/// graph.
pub open spec fn graph_step(
    b: Seq<Option<TermV>>,
    p: TermPatternV,
    t: TermV,
) -> Option<Seq<Option<TermV>>> {
    match p {
        TermPatternV::Constant(c) => if c == t {
            Some(b)
        } else {
            None
        },
        TermPatternV::Variable(v) => if t is DefaultGraph {
            None
        } else {
            pat_step(b, p, t)
        },
    }
}

/// Matching a whole quad pattern against a stored quad, position by
/// position in subject, predicate, object, graph order.
pub open spec fn quad_match(
    b: Seq<Option<TermV>>,
    p: QuadPatternV,
    q: QuadV,
) -> Option<Seq<Option<TermV>>> {
    match pat_step(b, p.subject, q.subject) {
        None => None,
        Some(b1) => match pat_step(b1, p.predicate, q.predicate) {
            None => None,
            Some(b2) => match pat_step(b2, p.object, q.object) {
                None => None,
                Some(b3) => graph_step(b3, p.graph_name, q.graph_name),
            },
        },
    }
}

/// A pattern step only adds bindings; what is bound stays bound, to
/// the same term.
pub proof fn lemma_pat_step_monotone(b: Seq<Option<TermV>>, p: TermPatternV, t: TermV)
    requires
        p matches TermPatternV::Variable(v) ==> v < b.len(),
    ensures
        pat_step(b, p, t) matches Some(b2) ==> b2.len() == b.len() && forall|v: int|
            0 <= v < b.len() && b[v] is Some ==> b2[v] == b[v],
        graph_step(b, p, t) matches Some(b2) ==> b2.len() == b.len() && forall|v: int|
            0 <= v < b.len() && b[v] is Some ==> b2[v] == b[v],
{
}

/// The semantics of a basic graph pattern: `out` extends `b` exactly
/// when each pattern in turn is matched by some stored quad.
pub open spec fn bgp_matches(
    s: Set<QuadV>,
    ps: Seq<QuadPatternV>,
    b: Seq<Option<TermV>>,
    out: Seq<Option<TermV>>,
) -> bool
    decreases ps.len(),
{
    if ps.len() == 0 {
        out == b
    } else {
        exists|q: QuadV|
            #[trigger] s.contains(q) && quad_match(b, ps[0], q) is Some && bgp_matches(
                s,
                ps.drop_first(),
                quad_match(b, ps[0], q)->Some_0,
                out,
            )
    }
}

/// One more pattern after a basic graph pattern: some intermediate
/// binding of the prefix is extended by some stored quad.
pub open spec fn bgp_then(
    s: Set<QuadV>,
    ps: Seq<QuadPatternV>,
    p: QuadPatternV,
    b: Seq<Option<TermV>>,
    out: Seq<Option<TermV>>,
) -> bool {
    exists|mid: Seq<Option<TermV>>, q: QuadV|
        bgp_matches(s, ps, b, mid) && s.contains(q) && #[trigger] quad_match(mid, p, q) == Some(
            out,
        )
}

/// Peeling the last pattern off a basic graph pattern.
pub proof fn lemma_bgp_snoc(
    s: Set<QuadV>,
    ps: Seq<QuadPatternV>,
    p: QuadPatternV,
    b: Seq<Option<TermV>>,
    out: Seq<Option<TermV>>,
)
    ensures
        bgp_matches(s, ps.push(p), b, out) <==> bgp_then(s, ps, p, b, out),
    decreases ps.len(),
{
    if ps.len() == 0 {
        assert(ps.push(p)[0] == p);
        assert(ps.push(p).drop_first() =~= Seq::<QuadPatternV>::empty());
        if bgp_matches(s, ps.push(p), b, out) {
            let q = choose|q: QuadV|
                #[trigger] s.contains(q) && quad_match(b, p, q) is Some && bgp_matches(
                    s,
                    Seq::<QuadPatternV>::empty(),
                    quad_match(b, p, q)->Some_0,
                    out,
                );
            assert(bgp_matches(s, ps, b, b));
            assert(quad_match(b, p, q) == Some(out));
            assert(bgp_then(s, ps, p, b, out));
        }
        if bgp_then(s, ps, p, b, out) {
            let (mid, q) = choose|mid: Seq<Option<TermV>>, q: QuadV|
                bgp_matches(s, ps, b, mid) && s.contains(q) && #[trigger] quad_match(mid, p, q)
                    == Some(out);
            assert(mid == b);
            assert(s.contains(q) && quad_match(b, ps.push(p)[0], q) is Some && bgp_matches(
                s,
                ps.push(p).drop_first(),
                quad_match(b, ps.push(p)[0], q)->Some_0,
                out,
            ));
        }
    } else {
        assert(ps.push(p)[0] == ps[0]);
        assert(ps.push(p).drop_first() =~= ps.drop_first().push(p));
        if bgp_matches(s, ps.push(p), b, out) {
            let q0 = choose|q0: QuadV|
                #[trigger] s.contains(q0) && quad_match(b, ps[0], q0) is Some && bgp_matches(
                    s,
                    ps.drop_first().push(p),
                    quad_match(b, ps[0], q0)->Some_0,
                    out,
                );
            let b1 = quad_match(b, ps[0], q0)->Some_0;
            lemma_bgp_snoc(s, ps.drop_first(), p, b1, out);
            let (mid, q) = choose|mid: Seq<Option<TermV>>, q: QuadV|
                bgp_matches(s, ps.drop_first(), b1, mid) && s.contains(q) && #[trigger]
                quad_match(mid, p, q) == Some(out);
            assert(s.contains(q0) && quad_match(b, ps[0], q0) is Some && bgp_matches(
                s,
                ps.drop_first(),
                quad_match(b, ps[0], q0)->Some_0,
                mid,
            ));
            assert(bgp_matches(s, ps, b, mid));
            assert(bgp_then(s, ps, p, b, out));
        }
        if bgp_then(s, ps, p, b, out) {
            let (mid, q) = choose|mid: Seq<Option<TermV>>, q: QuadV|
                bgp_matches(s, ps, b, mid) && s.contains(q) && #[trigger] quad_match(mid, p, q)
                    == Some(out);
            let q1 = choose|q1: QuadV|
                #[trigger] s.contains(q1) && quad_match(b, ps[0], q1) is Some && bgp_matches(
                    s,
                    ps.drop_first(),
                    quad_match(b, ps[0], q1)->Some_0,
                    mid,
                );
            let b1 = quad_match(b, ps[0], q1)->Some_0;
            lemma_bgp_snoc(s, ps.drop_first(), p, b1, out);
            assert(bgp_matches(s, ps.drop_first(), b1, mid) && s.contains(q) && quad_match(
                mid,
                p,
                q,
            ) == Some(out));
            assert(bgp_then(s, ps.drop_first(), p, b1, out));
            assert(bgp_matches(s, ps.drop_first().push(p), b1, out));
            assert(s.contains(q1) && quad_match(b, ps.push(p)[0], q1) is Some && bgp_matches(
                s,
                ps.push(p).drop_first(),
                quad_match(b, ps.push(p)[0], q1)->Some_0,
                out,
            ));
        }
    }
}

// ---------------------------------------------------------------------
// The executable evaluator.

/// The pattern views of a run of patterns.
pub open spec fn pats_view(ps: Seq<QuadPattern>) -> Seq<QuadPatternV> {
    ps.map_values(|p: QuadPattern| p@)
}

/// Copies a binding, term by term.
fn clone_binding(b: &Vec<Option<Term>>) -> (r: Vec<Option<Term>>)
    ensures
        binding_view(r@) == binding_view(b@),
        r@.len() == b@.len(),
{
    let mut r: Vec<Option<Term>> = Vec::new();
    let n = b.len();
    let mut i: usize = 0;
    while i < n
        invariant
            n == b@.len(),
            i <= n,
            r@.len() == i,
            forall|j: int| 0 <= j < i ==> binding_view(r@)[j] == binding_view(b@)[j],
        decreases n - i,
    {
        let e: Option<Term> = match &b[i] {
            Some(t) => Some(t.clone()),
            None => None,
        };
        r.push(e);
        i = i + 1;
    }
    proof {
        assert(binding_view(r@) =~= binding_view(b@));
    }
    r
}

/// A subject as a term.
fn subject_as_term(s: &NamedOrBlankNode) -> (r: Term)
    ensures
        r@ == s@,
{
    match s {
        NamedOrBlankNode::NamedNode(n) => Term::NamedNode(n.clone()),
        NamedOrBlankNode::BlankNode(b) => Term::BlankNode(b.clone()),
    }
}

/// One matching step against a term position.
fn step_term(b: Vec<Option<Term>>, p: &TermPattern, t: &Term) -> (r: Option<Vec<Option<Term>>>)
    requires
        p@ matches TermPatternV::Variable(v) ==> v < b@.len(),
    ensures
        r is None ==> pat_step(binding_view(b@), p@, t@) is None,
        r matches Some(b2) ==> pat_step(binding_view(b@), p@, t@) == Some(binding_view(b2@))
            && b2@.len() == b@.len(),
{
    match p {
        TermPattern::Constant(c) => {
            if term_eq(c, t) {
                Some(b)
            } else {
                None
            }
        },
        TermPattern::Variable(v) => {
            let cur: Option<bool> = match &b[*v] {
                Some(u) => Some(term_eq(u, t)),
                None => None,
            };
            match cur {
                Some(true) => Some(b),
                Some(false) => None,
                None => {
                    let mut b2 = b;
                    b2[*v] = Some(t.clone());
                    proof {
                        assert(binding_view(b2@) =~= binding_view(b@).update(
                            *v as int,
                            Some(t@),
                        ));
                    }
                    Some(b2)
                },
            }
        },
    }
}

/// One matching step against the graph-name position.
fn step_graph(b: Vec<Option<Term>>, p: &GraphNamePattern, g: &GraphName) -> (r: Option<
    Vec<Option<Term>>,
>)
    requires
        p@ matches TermPatternV::Variable(v) ==> v < b@.len(),
    ensures
        r is None ==> graph_step(binding_view(b@), p@, g@) is None,
        r matches Some(b2) ==> graph_step(binding_view(b@), p@, g@) == Some(binding_view(b2@))
            && b2@.len() == b@.len(),
{
    match p {
        GraphNamePattern::Constant(c) => {
            if crate::model::graph_name_eq(c, g) {
                Some(b)
            } else {
                None
            }
        },
        GraphNamePattern::Variable(v) => {
            let gt: Term = match g {
                GraphName::NamedNode(n) => Term::NamedNode(n.clone()),
                GraphName::BlankNode(bn) => Term::BlankNode(bn.clone()),
                GraphName::DefaultGraph => {
                    return None;
                },
            };
            let cur: Option<bool> = match &b[*v] {
                Some(u) => Some(term_eq(u, &gt)),
                None => None,
            };
            match cur {
                Some(true) => Some(b),
                Some(false) => None,
                None => {
                    let mut b2 = b;
                    b2[*v] = Some(gt);
                    proof {
                        assert(binding_view(b2@) =~= binding_view(b@).update(
                            *v as int,
                            Some(g@),
                        ));
                    }
                    Some(b2)
                },
            }
        },
    }
}

/// Matches one quad against one pattern under a binding, extending it.
fn quad_match_exec(b: &Vec<Option<Term>>, p: &QuadPattern, q: &Quad) -> (r: Option<
    Vec<Option<Term>>,
>)
    requires
        pattern_wf(p@, b@.len() as nat),
    ensures
        r is None ==> quad_match(binding_view(b@), p@, q@) is None,
        r matches Some(b2) ==> quad_match(binding_view(b@), p@, q@) == Some(binding_view(b2@))
            && b2@.len() == b@.len(),
{
    let b0 = clone_binding(b);
    let st = subject_as_term(&q.subject);
    let b1 = match step_term(b0, &p.subject, &st) {
        None => {
            return None;
        },
        Some(x) => x,
    };
    let pt = Term::NamedNode(q.predicate.clone());
    let b2 = match step_term(b1, &p.predicate, &pt) {
        None => {
            return None;
        },
        Some(x) => x,
    };
    let b3 = match step_term(b2, &p.object, &q.object) {
        None => {
            return None;
        },
        Some(x) => x,
    };
    step_graph(b3, &p.graph_name, &q.graph_name)
}

/// The bound term a pattern position forces, under a binding, if any.
fn subst_term(p: &TermPattern, b: &Vec<Option<Term>>) -> (r: Option<Term>)
    requires
        p@ matches TermPatternV::Variable(v) ==> v < b@.len(),
    ensures
        r matches Some(x) ==> match p@ {
            TermPatternV::Constant(c) => c == x@,
            TermPatternV::Variable(v) => binding_view(b@)[v as int] == Some(x@),
        },
{
    match p {
        TermPattern::Constant(c) => Some(c.clone()),
        TermPattern::Variable(v) => match &b[*v] {
            Some(u) => Some(u.clone()),
            None => None,
        },
    }
}

/// The subject form of a bound term, if it can stand as a subject.
fn term_as_subject(t: Term) -> (r: Option<NamedOrBlankNode>)
    ensures
        r matches Some(x) ==> x@ == t@,
{
    match t {
        Term::NamedNode(n) => Some(NamedOrBlankNode::NamedNode(n)),
        Term::BlankNode(b) => Some(NamedOrBlankNode::BlankNode(b)),
        Term::Literal(_) => None,
    }
}

/// The named-node form of a bound term, if it is one.
fn term_as_named(t: Term) -> (r: Option<NamedNode>)
    ensures
        r matches Some(x) ==> t@ == (TermV::Named { iri: x@ }),
{
    match t {
        Term::NamedNode(n) => Some(n),
        _ => None,
    }
}

/// The graph-name form of a bound term.
fn term_as_graph(t: Term) -> (r: Option<GraphName>)
    ensures
        r matches Some(x) ==> x@ == t@,
{
    match t {
        Term::NamedNode(n) => Some(GraphName::NamedNode(n)),
        Term::BlankNode(b) => Some(GraphName::BlankNode(b)),
        Term::Literal(_) => None,
    }
}

/// The graph-name the pattern forces under a binding, if any.
fn subst_graph(p: &GraphNamePattern, b: &Vec<Option<Term>>) -> (r: Option<GraphName>)
    requires
        p@ matches TermPatternV::Variable(v) ==> v < b@.len(),
    ensures
        r matches Some(x) ==> match p@ {
            TermPatternV::Constant(c) => c == x@,
            TermPatternV::Variable(v) => binding_view(b@)[v as int] == Some(x@),
        },
{
    match p {
        GraphNamePattern::Constant(c) => Some(c.clone()),
        GraphNamePattern::Variable(v) => match &b[*v] {
            Some(u) => term_as_graph(u.clone()),
            None => None,
        },
    }
}

/// What a bound pattern argument says of every quad the pattern
/// matches: a quad matching under `mid` agrees with the argument.
proof fn lemma_subst_covers(
    mid: Seq<Option<TermV>>,
    pv: QuadPatternV,
    q: QuadV,
    sv: Option<TermV>,
    pvv: Option<TermV>,
    ov: Option<TermV>,
    gv: Option<TermV>,
)
    requires
        pattern_wf(pv, mid.len() as nat),
        quad_match(mid, pv, q) is Some,
        sv matches Some(x) ==> match pv.subject {
            TermPatternV::Constant(c) => c == x,
            TermPatternV::Variable(v) => mid[v as int] == Some(x),
        },
        pvv matches Some(x) ==> match pv.predicate {
            TermPatternV::Constant(c) => c == x,
            TermPatternV::Variable(v) => mid[v as int] == Some(x),
        },
        ov matches Some(x) ==> match pv.object {
            TermPatternV::Constant(c) => c == x,
            TermPatternV::Variable(v) => mid[v as int] == Some(x),
        },
        gv matches Some(x) ==> match pv.graph_name {
            TermPatternV::Constant(c) => c == x,
            TermPatternV::Variable(v) => mid[v as int] == Some(x),
        },
    ensures
        matches_pattern(q, sv, pvv, ov, gv),
{
    let b1 = pat_step(mid, pv.subject, q.subject)->Some_0;
    let b2 = pat_step(b1, pv.predicate, q.predicate)->Some_0;
    let b3 = pat_step(b2, pv.object, q.object)->Some_0;
    lemma_pat_step_monotone(mid, pv.subject, q.subject);
    lemma_pat_step_monotone(b1, pv.predicate, q.predicate);
    lemma_pat_step_monotone(b2, pv.object, q.object);
    lemma_pat_step_monotone(b3, pv.graph_name, q.graph_name);
}

impl MemoryStore {
    /// Evaluates a basic graph pattern over the store: the result
    /// holds exactly the bindings of the `nvars` variables that the
    /// pattern semantics admits, starting from the empty binding —
    /// each admitted binding exactly once. Patterns are taken in
    /// source order; each one is answered by a `quads_for_pattern`
    /// scan with the bound positions substituted.
    #[verifier::rlimit(100)]
    pub fn evaluate_bgp(&self, patterns: &Vec<QuadPattern>, nvars: usize) -> (r: Vec<
        Vec<Option<Term>>,
    >)
        requires
            self.wf(),
            patterns_wf(pats_view(patterns@), nvars as nat),
        ensures
            forall|j: int|
                0 <= j < r@.len() ==> (#[trigger] r@[j])@.len() == nvars && bgp_matches(
                    self@,
                    pats_view(patterns@),
                    empty_binding(nvars as nat),
                    binding_view(r@[j]@),
                ),
            forall|out: Seq<Option<TermV>>|
                bgp_matches(self@, pats_view(patterns@), empty_binding(nvars as nat), out)
                    ==> exists|j: int|
                    0 <= j < r@.len() && binding_view((#[trigger] r@[j])@) == out,
            forall|j1: int, j2: int|
                0 <= j1 < j2 < r@.len() ==> binding_view((#[trigger] r@[j1])@) != binding_view(
                    (#[trigger] r@[j2])@,
                ),
    {
        let ghost psv = pats_view(patterns@);
        let ghost init = empty_binding(nvars as nat);
        let mut first: Vec<Option<Term>> = Vec::new();
        let mut vi: usize = 0;
        while vi < nvars
            invariant
                vi <= nvars,
                first@.len() == vi,
                forall|j: int| 0 <= j < vi ==> first@[j] is None,
            decreases nvars - vi,
        {
            first.push(None);
            vi = vi + 1;
        }
        let mut acc: Vec<Vec<Option<Term>>> = Vec::new();
        proof {
            assert(binding_view(first@) =~= init);
        }
        let ghost fv = binding_view(first@);
        acc.push(first);
        proof {
            assert(psv.take(0) =~= Seq::<QuadPatternV>::empty());
            assert(bgp_matches(self@, psv.take(0), init, init));
            assert(binding_view(acc@[0]@) == init);
            assert forall|out: Seq<Option<TermV>>|
                bgp_matches(self@, psv.take(0), init, out) implies exists|j: int|
                0 <= j < acc@.len() && binding_view((#[trigger] acc@[j])@) == out by {
                assert(out == init);
                assert(binding_view((acc@[0])@) == out);
            }
        }
        let np = patterns.len();
        let mut pi: usize = 0;
        while pi < np
            invariant
                self.wf(),
                np == patterns@.len(),
                pi <= np,
                psv == pats_view(patterns@),
                init == empty_binding(nvars as nat),
                patterns_wf(psv, nvars as nat),
                forall|j: int|
                    0 <= j < acc@.len() ==> (#[trigger] acc@[j])@.len() == nvars && bgp_matches(
                        self@,
                        psv.take(pi as int),
                        init,
                        binding_view(acc@[j]@),
                    ),
                forall|out: Seq<Option<TermV>>|
                    bgp_matches(self@, psv.take(pi as int), init, out) ==> exists|j: int|
                        0 <= j < acc@.len() && binding_view((#[trigger] acc@[j])@) == out,
            decreases np - pi,
        {
            let pat = &patterns[pi];
            let ghost pv = pat@;
            proof {
                assert(psv[pi as int] == pv);
                assert(pattern_wf(pv, nvars as nat));
            }
            let mut next: Vec<Vec<Option<Term>>> = Vec::new();
            let na = acc.len();
            let mut bi: usize = 0;
            while bi < na
                invariant
                    self.wf(),
                    np == patterns@.len(),
                    pi < np,
                    psv == pats_view(patterns@),
                    init == empty_binding(nvars as nat),
                    patterns_wf(psv, nvars as nat),
                    pv == psv[pi as int],
                    pat@ == pv,
                    pattern_wf(pv, nvars as nat),
                    na == acc@.len(),
                    bi <= na,
                    forall|j: int|
                        0 <= j < acc@.len() ==> (#[trigger] acc@[j])@.len() == nvars
                            && bgp_matches(
                            self@,
                            psv.take(pi as int),
                            init,
                            binding_view(acc@[j]@),
                        ),
                    forall|j: int|
                        0 <= j < next@.len() ==> (#[trigger] next@[j])@.len() == nvars
                            && bgp_matches(
                            self@,
                            psv.take(pi + 1),
                            init,
                            binding_view(next@[j]@),
                        ),
                    forall|bi2: int, q: QuadV|
                        0 <= bi2 < bi && self@.contains(q) && #[trigger] quad_match(
                            binding_view(acc@[bi2]@),
                            pv,
                            q,
                        ) is Some ==> exists|j: int|
                            0 <= j < next@.len() && binding_view((#[trigger] next@[j])@)
                                == quad_match(binding_view(acc@[bi2]@), pv, q)->Some_0,
                decreases na - bi,
            {
                let b = &acc[bi];
                let ghost mid = binding_view(b@);
                proof {
                    assert((acc@[bi as int])@.len() == nvars);
                    assert(b@.len() == nvars);
                    assert(mid.len() == nvars);
                }
                let sa: Option<NamedOrBlankNode> = match subst_term(&pat.subject, b) {
                    Some(t) => term_as_subject(t),
                    None => None,
                };
                let pa: Option<NamedNode> = match subst_term(&pat.predicate, b) {
                    Some(t) => term_as_named(t),
                    None => None,
                };
                let oa: Option<Term> = subst_term(&pat.object, b);
                let ga: Option<GraphName> = subst_graph(&pat.graph_name, b);
                let sar = sa.as_ref();
                let par = pa.as_ref();
                let oar = oa.as_ref();
                let gar = ga.as_ref();
                let quads = self.quads_for_pattern(sar, par, oar, gar);
                proof {
                    assert forall|q: QuadV|
                        self@.contains(q) && #[trigger] quad_match(mid, pv, q) is Some
                        implies exists|i2: int|
                        0 <= i2 < quads@.len() && (#[trigger] quads@[i2])@ == q by {
                        lemma_subst_covers(
                            mid,
                            pv,
                            q,
                            opt_subject_v(sar),
                            opt_named_v(par),
                            opt_term_v(oar),
                            opt_graph_v(gar),
                        );
                    }
                }
                let nq = quads.len();
                let mut k: usize = 0;
                while k < nq
                    invariant
                        self.wf(),
                        np == patterns@.len(),
                        pi < np,
                        psv == pats_view(patterns@),
                        init == empty_binding(nvars as nat),
                        patterns_wf(psv, nvars as nat),
                        pv == psv[pi as int],
                        pat@ == pv,
                        pattern_wf(pv, nvars as nat),
                        na == acc@.len(),
                        bi < na,
                        mid == binding_view(acc@[bi as int]@),
                        mid.len() == nvars,
                        bgp_matches(self@, psv.take(pi as int), init, mid),
                        nq == quads@.len(),
                        k <= nq,
                        forall|i2: int|
                            0 <= i2 < quads@.len() ==> self@.contains((#[trigger] quads@[i2])@),
                        forall|q: QuadV|
                            self@.contains(q) && #[trigger] quad_match(mid, pv, q) is Some
                                ==> exists|i2: int|
                                0 <= i2 < quads@.len() && (#[trigger] quads@[i2])@ == q,
                        forall|j: int|
                            0 <= j < next@.len() ==> (#[trigger] next@[j])@.len() == nvars
                                && bgp_matches(
                                self@,
                                psv.take(pi + 1),
                                init,
                                binding_view(next@[j]@),
                            ),
                        forall|bi2: int, q: QuadV|
                            0 <= bi2 < bi && self@.contains(q) && #[trigger] quad_match(
                                binding_view(acc@[bi2]@),
                                pv,
                                q,
                            ) is Some ==> exists|j: int|
                                0 <= j < next@.len() && binding_view((#[trigger] next@[j])@)
                                    == quad_match(binding_view(acc@[bi2]@), pv, q)->Some_0,
                        forall|i2: int|
                            0 <= i2 < k && #[trigger] quad_match(mid, pv, quads@[i2]@) is Some
                                ==> exists|j: int|
                                0 <= j < next@.len() && binding_view((#[trigger] next@[j])@)
                                    == quad_match(mid, pv, quads@[i2]@)->Some_0,
                    decreases nq - k,
                {
                    let q = &quads[k];
                    let ghost next0 = next@;
                    proof {
                        assert((acc@[bi as int])@.len() == nvars);
                    }
                    match quad_match_exec(&acc[bi], pat, q) {
                        Some(b2) => {
                            proof {
                                assert(self@.contains(q@));
                                assert(quad_match(mid, pv, q@) == Some(binding_view(b2@)));
                                assert(bgp_then(self@, psv.take(pi as int), pv, init,
                                    binding_view(b2@)));
                                lemma_bgp_snoc(
                                    self@,
                                    psv.take(pi as int),
                                    pv,
                                    init,
                                    binding_view(b2@),
                                );
                                assert(psv.take(pi + 1) =~= psv.take(pi as int).push(pv));
                            }
                            next.push(b2);
                        },
                        None => {},
                    }
                    proof {
                        assert(forall|j: int|
                            0 <= j < next0.len() ==> next@[j] == next0[j]);
                        assert forall|bi2: int, q2: QuadV|
                            0 <= bi2 < bi && self@.contains(q2) && #[trigger] quad_match(
                                binding_view(acc@[bi2]@),
                                pv,
                                q2,
                            ) is Some implies exists|j: int|
                            0 <= j < next@.len() && binding_view((#[trigger] next@[j])@)
                                == quad_match(binding_view(acc@[bi2]@), pv, q2)->Some_0 by {
                            let j = choose|j: int|
                                0 <= j < next0.len() && binding_view((#[trigger] next0[j])@)
                                    == quad_match(binding_view(acc@[bi2]@), pv, q2)->Some_0;
                            assert(binding_view((next@[j])@) == quad_match(
                                binding_view(acc@[bi2]@),
                                pv,
                                q2,
                            )->Some_0);
                        }
                        assert forall|i2: int|
                            0 <= i2 < k + 1 && #[trigger] quad_match(mid, pv, quads@[i2]@)
                                is Some implies exists|j: int|
                            0 <= j < next@.len() && binding_view((#[trigger] next@[j])@)
                                == quad_match(mid, pv, quads@[i2]@)->Some_0 by {
                            if i2 < k {
                                let j = choose|j: int|
                                    0 <= j < next0.len() && binding_view((#[trigger] next0[j])@)
                                        == quad_match(mid, pv, quads@[i2]@)->Some_0;
                                assert(binding_view((next@[j])@) == quad_match(
                                    mid,
                                    pv,
                                    quads@[i2]@,
                                )->Some_0);
                            } else {
                                assert(binding_view((next@[next@.len() - 1])@) == quad_match(
                                    mid,
                                    pv,
                                    quads@[i2]@,
                                )->Some_0);
                            }
                        }
                    }
                    k = k + 1;
                }
                proof {
                    assert forall|q: QuadV|
                        self@.contains(q) && #[trigger] quad_match(
                            binding_view(acc@[bi as int]@),
                            pv,
                            q,
                        ) is Some implies exists|j: int|
                        0 <= j < next@.len() && binding_view((#[trigger] next@[j])@)
                            == quad_match(binding_view(acc@[bi as int]@), pv, q)->Some_0 by {
                        let i2 = choose|i2: int|
                            0 <= i2 < quads@.len() && (#[trigger] quads@[i2])@ == q;
                        assert(quad_match(mid, pv, quads@[i2]@) is Some);
                    }
                }
                bi = bi + 1;
            }
            proof {
                assert(psv.take(pi + 1) =~= psv.take(pi as int).push(pv));
                assert forall|out: Seq<Option<TermV>>|
                    #[trigger] bgp_matches(self@, psv.take(pi + 1), init, out) implies exists|
                    j: int,
                |
                    0 <= j < next@.len() && binding_view((#[trigger] next@[j])@) == out by {
                    lemma_bgp_snoc(self@, psv.take(pi as int), pv, init, out);
                    assert(bgp_then(self@, psv.take(pi as int), pv, init, out));
                    let (mid, q) = choose|mid: Seq<Option<TermV>>, q: QuadV|
                        bgp_matches(self@, psv.take(pi as int), init, mid) && self@.contains(q)
                            && #[trigger] quad_match(mid, pv, q) == Some(out);
                    let bi2 = choose|bi2: int|
                        0 <= bi2 < acc@.len() && binding_view((#[trigger] acc@[bi2])@) == mid;
                    assert(quad_match(binding_view(acc@[bi2]@), pv, q) is Some);
                }
            }
            acc = next;
            pi = pi + 1;
        }
        let result = distinct(&acc);
        proof {
            assert(psv.take(np as int) =~= psv);
            assert forall|j: int| 0 <= j < result@.len() implies (#[trigger] result@[j])@.len()
                == nvars && bgp_matches(self@, psv, init, binding_view(result@[j]@)) by {
                assert(has_binding(acc@, binding_view((result@[j])@)));
                let i2 = choose|i2: int|
                    0 <= i2 < acc@.len() && binding_view((#[trigger] acc@[i2])@)
                        == binding_view((result@[j])@);
                assert(bgp_matches(self@, psv.take(np as int), init, binding_view(acc@[i2]@)));
                assert((result@[j])@.len() == binding_view((result@[j])@).len());
                assert((acc@[i2])@.len() == binding_view((acc@[i2])@).len());
            }
            assert forall|out: Seq<Option<TermV>>|
                bgp_matches(self@, psv, init, out) implies exists|j: int|
                0 <= j < result@.len() && binding_view((#[trigger] result@[j])@) == out by {
                assert(bgp_matches(self@, psv.take(np as int), init, out));
                let i2 = choose|i2: int|
                    0 <= i2 < acc@.len() && binding_view((#[trigger] acc@[i2])@) == out;
                assert(has_binding(acc@, binding_view((acc@[i2])@)));
                assert(has_binding(result@, binding_view((acc@[i2])@)));
                let j = choose|j: int|
                    0 <= j < result@.len() && binding_view((#[trigger] result@[j])@) == out;
                assert(binding_view((result@[j])@) == out);
            }
        }
        result
    }

    /// Whether the basic graph pattern has any solution: the ASK form.
    pub fn ask_bgp(&self, patterns: &Vec<QuadPattern>, nvars: usize) -> (r: bool)
        requires
            self.wf(),
            patterns_wf(pats_view(patterns@), nvars as nat),
        ensures
            r == exists|out: Seq<Option<TermV>>|
                bgp_matches(self@, pats_view(patterns@), empty_binding(nvars as nat), out),
    {
        let sols = self.evaluate_bgp(patterns, nvars);
        if sols.len() > 0 {
            proof {
                assert(bgp_matches(
                    self@,
                    pats_view(patterns@),
                    empty_binding(nvars as nat),
                    binding_view(sols@[0]@),
                ));
            }
            true
        } else {
            false
        }
    }
}

/// Decides equality of two bindings, variable by variable.
pub fn binding_eq(a: &Vec<Option<Term>>, b: &Vec<Option<Term>>) -> (r: bool)
    ensures
        r == (binding_view(a@) == binding_view(b@)),
{
    if a.len() != b.len() {
        return false;
    }
    let n = a.len();
    let mut i: usize = 0;
    while i < n
        invariant
            n == a@.len(),
            b@.len() == n,
            i <= n,
            forall|j: int| 0 <= j < i ==> view_opt(#[trigger] a@[j]) == view_opt(b@[j]),
        decreases n - i,
    {
        let same = match (&a[i], &b[i]) {
            (Some(x), Some(y)) => term_eq(x, y),
            (None, None) => true,
            _ => false,
        };
        if !same {
            proof {
                assert(binding_view(a@)[i as int] != binding_view(b@)[i as int]);
            }
            return false;
        }
        i = i + 1;
    }
    proof {
        assert(binding_view(a@) =~= binding_view(b@));
    }
    true
}

/// Whether some binding of the run has this value.
pub open spec fn has_binding(bs: Seq<Vec<Option<Term>>>, v: Seq<Option<TermV>>) -> bool {
    exists|j: int| 0 <= j < bs.len() && binding_view((#[trigger] bs[j])@) == v
}

proof fn lemma_has_binding_push(bs: Seq<Vec<Option<Term>>>, e: Vec<Option<Term>>, v: Seq<Option<TermV>>)
    requires
        has_binding(bs, v),
    ensures
        has_binding(bs.push(e), v),
{
    let j = choose|j: int| 0 <= j < bs.len() && binding_view((#[trigger] bs[j])@) == v;
    assert(binding_view((bs.push(e)[j])@) == v);
}

/// Drops repeated bindings, keeping first occurrences in order: the
/// DISTINCT wrapper. The result lists exactly the binding values of
/// the input, each once.
pub fn distinct(bindings: &Vec<Vec<Option<Term>>>) -> (r: Vec<Vec<Option<Term>>>)
    ensures
        forall|j: int|
            0 <= j < r@.len() ==> has_binding(bindings@, binding_view((#[trigger] r@[j])@)),
        forall|i: int|
            0 <= i < bindings@.len() ==> has_binding(
                r@,
                binding_view((#[trigger] bindings@[i])@),
            ),
        forall|j1: int, j2: int|
            0 <= j1 < j2 < r@.len() ==> binding_view((#[trigger] r@[j1])@) != binding_view(
                (#[trigger] r@[j2])@,
            ),
{
    let mut out: Vec<Vec<Option<Term>>> = Vec::new();
    let n = bindings.len();
    let mut i: usize = 0;
    while i < n
        invariant
            n == bindings@.len(),
            i <= n,
            forall|j: int|
                0 <= j < out@.len() ==> has_binding(
                    bindings@,
                    binding_view((#[trigger] out@[j])@),
                ),
            forall|i2: int|
                0 <= i2 < i ==> has_binding(out@, binding_view((#[trigger] bindings@[i2])@)),
            forall|j1: int, j2: int|
                0 <= j1 < j2 < out@.len() ==> binding_view((#[trigger] out@[j1])@)
                    != binding_view((#[trigger] out@[j2])@),
        decreases n - i,
    {
        let b = &bindings[i];
        let m = out.len();
        let mut k: usize = 0;
        let mut seen = false;
        while k < m
            invariant
                m == out@.len(),
                k <= m,
                seen ==> has_binding(out@, binding_view(b@)),
                !seen ==> forall|j: int|
                    0 <= j < k ==> binding_view((#[trigger] out@[j])@) != binding_view(b@),
            decreases m - k,
        {
            if !seen {
                if binding_eq(&out[k], b) {
                    seen = true;
                    proof {
                        assert(binding_view((out@[k as int])@) == binding_view(b@));
                        assert(has_binding(out@, binding_view(b@)));
                    }
                }
            }
            k = k + 1;
        }
        let ghost out0 = out@;
        if !seen {
            out.push(clone_binding(b));
            proof {
                assert(out@ == out0.push(out@[out@.len() - 1]));
                assert(binding_view((out@[out@.len() - 1])@) == binding_view(b@));
                assert(has_binding(out@, binding_view(b@)));
                assert(has_binding(bindings@, binding_view((out@[out@.len() - 1])@)));
                assert forall|j: int| 0 <= j < out0.len() implies has_binding(
                    bindings@,
                    binding_view((#[trigger] out@[j])@),
                ) by {
                    assert(out@[j] == out0[j]);
                }
                assert forall|i2: int| 0 <= i2 < i implies has_binding(
                    out@,
                    binding_view((#[trigger] bindings@[i2])@),
                ) by {
                    lemma_has_binding_push(
                        out0,
                        out@[out@.len() - 1],
                        binding_view((bindings@[i2])@),
                    );
                }
                assert forall|j1: int, j2: int| 0 <= j1 < j2 < out@.len() implies binding_view(
                    (#[trigger] out@[j1])@,
                ) != binding_view((#[trigger] out@[j2])@) by {
                    if j2 == out@.len() - 1 {
                        assert(out@[j1] == out0[j1]);
                        assert(binding_view((out0[j1])@) != binding_view(b@));
                    } else {
                        assert(out@[j1] == out0[j1] && out@[j2] == out0[j2]);
                    }
                }
            }
        }
        i = i + 1;
    }
    out
}

/// Keeps at most the first `n` bindings: the LIMIT wrapper.
pub fn limit(bindings: &Vec<Vec<Option<Term>>>, n: usize) -> (r: Vec<Vec<Option<Term>>>)
    ensures
        n <= bindings@.len() ==> binding_run_view(r@) == binding_run_view(
            bindings@.take(n as int),
        ),
        n > bindings@.len() ==> binding_run_view(r@) == binding_run_view(bindings@),
{
    let len = bindings.len();
    let stop: usize = if n < len {
        n
    } else {
        len
    };
    let mut r: Vec<Vec<Option<Term>>> = Vec::new();
    let mut i: usize = 0;
    while i < stop
        invariant
            len == bindings@.len(),
            stop <= len,
            i <= stop,
            r@.len() == i,
            forall|j: int|
                0 <= j < r@.len() ==> binding_view((#[trigger] r@[j])@) == binding_view(
                    bindings@[j]@,
                ),
        decreases stop - i,
    {
        r.push(clone_binding(&bindings[i]));
        i = i + 1;
    }
    proof {
        if n <= bindings@.len() {
            assert(binding_run_view(r@) =~= binding_run_view(bindings@.take(n as int)));
        } else {
            assert(binding_run_view(r@) =~= binding_run_view(bindings@));
        }
    }
    r
}

/// Drops the first `n` bindings: the OFFSET wrapper.
pub fn offset(bindings: &Vec<Vec<Option<Term>>>, n: usize) -> (r: Vec<Vec<Option<Term>>>)
    ensures
        n <= bindings@.len() ==> binding_run_view(r@) == binding_run_view(
            bindings@.skip(n as int),
        ),
        n > bindings@.len() ==> r@.len() == 0,
{
    let mut r: Vec<Vec<Option<Term>>> = Vec::new();
    let len = bindings.len();
    let mut i: usize = if n < len {
        n
    } else {
        len
    };
    let ghost start = i;
    while i < len
        invariant
            len == bindings@.len(),
            start <= i <= len,
            r@.len() == i - start,
            forall|j: int|
                0 <= j < r@.len() ==> binding_view((#[trigger] r@[j])@) == binding_view(
                    bindings@[start + j]@,
                ),
        decreases len - i,
    {
        r.push(clone_binding(&bindings[i]));
        i = i + 1;
    }
    proof {
        if n <= bindings@.len() {
            assert(binding_run_view(r@) =~= binding_run_view(bindings@.skip(n as int)));
        }
    }
    r
}

/// The binding values of a run of bindings.
pub open spec fn binding_run_view(bs: Seq<Vec<Option<Term>>>) -> Seq<Seq<Option<TermV>>> {
    bs.map_values(|b: Vec<Option<Term>>| binding_view(b@))
}

/// The projection of a binding onto chosen variables.
pub open spec fn project_view(b: Seq<Option<TermV>>, vars: Seq<usize>) -> Seq<Option<TermV>> {
    Seq::new(vars.len(), |i: int| b[vars[i] as int])
}

/// Restricts each binding to the chosen variables, in their order:
/// the SELECT projection.
pub fn project(bindings: &Vec<Vec<Option<Term>>>, vars: &Vec<usize>, nvars: usize) -> (r: Vec<
    Vec<Option<Term>>,
>)
    requires
        forall|i: int| 0 <= i < vars@.len() ==> #[trigger] vars@[i] < nvars,
        forall|j: int| 0 <= j < bindings@.len() ==> (#[trigger] bindings@[j])@.len() == nvars,
    ensures
        r@.len() == bindings@.len(),
        forall|j: int|
            0 <= j < r@.len() ==> binding_view((#[trigger] r@[j])@) == project_view(
                binding_view(bindings@[j]@),
                vars@,
            ),
{
    let mut r: Vec<Vec<Option<Term>>> = Vec::new();
    let n = bindings.len();
    let mut j: usize = 0;
    while j < n
        invariant
            n == bindings@.len(),
            j <= n,
            forall|i: int| 0 <= i < vars@.len() ==> #[trigger] vars@[i] < nvars,
            forall|j2: int|
                0 <= j2 < bindings@.len() ==> (#[trigger] bindings@[j2])@.len() == nvars,
            r@.len() == j,
            forall|j2: int|
                0 <= j2 < j ==> binding_view((#[trigger] r@[j2])@) == project_view(
                    binding_view(bindings@[j2]@),
                    vars@,
                ),
        decreases n - j,
    {
        let b = &bindings[j];
        let mut row: Vec<Option<Term>> = Vec::new();
        let nv = vars.len();
        let mut i: usize = 0;
        while i < nv
            invariant
                nv == vars@.len(),
                i <= nv,
                b@.len() == nvars,
                forall|i2: int| 0 <= i2 < vars@.len() ==> #[trigger] vars@[i2] < nvars,
                row@.len() == i,
                forall|i2: int|
                    0 <= i2 < i ==> view_opt(#[trigger] row@[i2]) == view_opt(
                        b@[vars@[i2] as int],
                    ),
            decreases nv - i,
        {
            let v = vars[i];
            let e: Option<Term> = match &b[v] {
                Some(t) => Some(t.clone()),
                None => None,
            };
            row.push(e);
            i = i + 1;
        }
        proof {
            assert(binding_view(row@) =~= project_view(binding_view(b@), vars@));
        }
        r.push(row);
        j = j + 1;
    }
    r
}

} // verus!
