//! The in-memory quad store: six ordered indexes over encoded quads,
//! kept mutually consistent, with pattern scans over the best index.

use vstd::prelude::*;
use vstd::seq_lib::*;
use crate::dict::{Dictionary, extends, max_dict_len};
use crate::model::{TermV, QuadV, NamedNode, NamedOrBlankNode, Term, GraphName, Quad, quad_eq,
    subject_eq, named_node_eq, term_eq, graph_name_eq};
use crate::encoded::{
    EncodedTerm, EncodedQuad, term_lt, term_lt_exec, wf_enc_quad, decode_quad, encode_quad,
    decode_quad_exec, lemma_quad_stable,
};

verus! {

/// The six key permutations; the name spells the key order.
#[derive(Clone, Copy)]
pub enum IndexKind {
    Spog,
    Posg,
    Ospg,
    Gspo,
    Gpos,
    Gosp,
}

/// The key of a quad under a permutation.
pub open spec fn quad_key(k: IndexKind, q: EncodedQuad) -> (EncodedTerm, EncodedTerm, EncodedTerm, EncodedTerm) {
    match k {
        IndexKind::Spog => (q.subject, q.predicate, q.object, q.graph_name),
        IndexKind::Posg => (q.predicate, q.object, q.subject, q.graph_name),
        IndexKind::Ospg => (q.object, q.subject, q.predicate, q.graph_name),
        IndexKind::Gspo => (q.graph_name, q.subject, q.predicate, q.object),
        IndexKind::Gpos => (q.graph_name, q.predicate, q.object, q.subject),
        IndexKind::Gosp => (q.graph_name, q.object, q.subject, q.predicate),
    }
}

/// The strict lexicographic order of an index.
pub open spec fn quad_lt(k: IndexKind, a: EncodedQuad, b: EncodedQuad) -> bool {
    let ka = quad_key(k, a);
    let kb = quad_key(k, b);
    term_lt(ka.0, kb.0) || (ka.0 == kb.0 && (term_lt(ka.1, kb.1) || (ka.1 == kb.1 && (term_lt(
        ka.2,
        kb.2,
    ) || (ka.2 == kb.2 && term_lt(ka.3, kb.3))))))
}

/// Every permutation covers all four positions, so the key determines
/// the quad and the order is a strict total order.
pub proof fn lemma_quad_order_total(k: IndexKind, a: EncodedQuad, b: EncodedQuad)
    ensures
        a == b <==> (!quad_lt(k, a, b) && !quad_lt(k, b, a)),
        !(quad_lt(k, a, b) && quad_lt(k, b, a)),
{
    crate::encoded::lemma_term_order_total(quad_key(k, a).0, quad_key(k, b).0);
    crate::encoded::lemma_term_order_total(quad_key(k, a).1, quad_key(k, b).1);
    crate::encoded::lemma_term_order_total(quad_key(k, a).2, quad_key(k, b).2);
    crate::encoded::lemma_term_order_total(quad_key(k, a).3, quad_key(k, b).3);
}

/// The order of an index is transitive.
pub proof fn lemma_quad_lt_trans(k: IndexKind, a: EncodedQuad, b: EncodedQuad, c: EncodedQuad)
    requires
        quad_lt(k, a, b),
        quad_lt(k, b, c),
    ensures
        quad_lt(k, a, c),
{
}

/// Decides the strict order of an index.
pub fn quad_lt_exec(k: IndexKind, a: &EncodedQuad, b: &EncodedQuad) -> (r: bool)
    ensures
        r == quad_lt(k, *a, *b),
{
    let (a0, a1, a2, a3) = match k {
        IndexKind::Spog => (&a.subject, &a.predicate, &a.object, &a.graph_name),
        IndexKind::Posg => (&a.predicate, &a.object, &a.subject, &a.graph_name),
        IndexKind::Ospg => (&a.object, &a.subject, &a.predicate, &a.graph_name),
        IndexKind::Gspo => (&a.graph_name, &a.subject, &a.predicate, &a.object),
        IndexKind::Gpos => (&a.graph_name, &a.predicate, &a.object, &a.subject),
        IndexKind::Gosp => (&a.graph_name, &a.object, &a.subject, &a.predicate),
    };
    let (b0, b1, b2, b3) = match k {
        IndexKind::Spog => (&b.subject, &b.predicate, &b.object, &b.graph_name),
        IndexKind::Posg => (&b.predicate, &b.object, &b.subject, &b.graph_name),
        IndexKind::Ospg => (&b.object, &b.subject, &b.predicate, &b.graph_name),
        IndexKind::Gspo => (&b.graph_name, &b.subject, &b.predicate, &b.object),
        IndexKind::Gpos => (&b.graph_name, &b.predicate, &b.object, &b.subject),
        IndexKind::Gosp => (&b.graph_name, &b.object, &b.subject, &b.predicate),
    };
    if term_lt_exec(a0, b0) {
        true
    } else if !(*a0 == *b0) {
        false
    } else if term_lt_exec(a1, b1) {
        true
    } else if !(*a1 == *b1) {
        false
    } else if term_lt_exec(a2, b2) {
        true
    } else if !(*a2 == *b2) {
        false
    } else {
        term_lt_exec(a3, b3)
    }
}

/// A strictly sorted index.
pub open spec fn sorted(k: IndexKind, s: Seq<EncodedQuad>) -> bool {
    forall|i: int, j: int| 0 <= i < j < s.len() ==> quad_lt(k, s[i], s[j])
}

/// Inserts a quad known to be absent at its sorted position.
fn insert_sorted(v: &mut Vec<EncodedQuad>, k: IndexKind, q: EncodedQuad)
    requires
        sorted(k, old(v)@),
        !old(v)@.contains(q),
    ensures
        sorted(k, final(v)@),
        final(v)@.len() == old(v)@.len() + 1,
        forall|x: EncodedQuad| final(v)@.contains(x) <==> (old(v)@.contains(x) || x == q),
{
    let ghost orig = v@;
    let mut i: usize = 0;
    loop
        invariant
            v@ == orig,
            sorted(k, orig),
            !orig.contains(q),
            i <= orig.len(),
            forall|j: int| 0 <= j < i ==> quad_lt(k, orig[j], q),
        ensures
            v@ == orig,
            i <= orig.len(),
            forall|j: int| 0 <= j < i ==> quad_lt(k, orig[j], q),
            i < orig.len() ==> !quad_lt(k, orig[i as int], q),
        decreases orig.len() - i,
    {
        if i >= v.len() {
            break;
        }
        if !quad_lt_exec(k, &v[i], &q) {
            break;
        }
        i = i + 1;
    }
    proof {
        assert forall|j: int| i <= j < orig.len() implies quad_lt(k, q, orig[j]) by {
            assert(orig[i as int] != q && orig[j] != q);
            lemma_quad_order_total(k, q, orig[i as int]);
            if j > i {
                lemma_quad_lt_trans(k, q, orig[i as int], orig[j]);
            }
        }
    }
    v.insert(i, q);
    proof {
        let s2 = v@;
        orig.insert_ensures(i as int, q);
        assert forall|a: int, b: int| 0 <= a < b < s2.len() implies quad_lt(k, s2[a], s2[b]) by {
            assert(a < i ==> s2[a] == orig[a]);
            assert(a == i ==> s2[a] == q);
            assert(a > i ==> s2[a] == orig[a - 1]);
            assert(b < i ==> s2[b] == orig[b]);
            assert(b == i ==> s2[b] == q);
            assert(b > i ==> s2[b] == orig[b - 1]);
        }
        assert forall|x: EncodedQuad| s2.contains(x) <==> (orig.contains(x) || x == q) by {
            if s2.contains(x) {
                let a = choose|a: int| 0 <= a < s2.len() && s2[a] == x;
                if a < i {
                    assert(orig[a] == x);
                } else if a > i {
                    assert(orig[a - 1] == x);
                }
            }
            if orig.contains(x) {
                let a = choose|a: int| 0 <= a < orig.len() && orig[a] == x;
                if a < i {
                    assert(s2[a] == x);
                } else {
                    assert(s2[a + 1] == x);
                }
            }
            if x == q {
                assert(s2[i as int] == x);
            }
        }
    }
}

/// Removes one quad from an index, by value.
fn remove_from_index(v: &mut Vec<EncodedQuad>, k: IndexKind, q: &EncodedQuad)
    requires
        sorted(k, old(v)@),
    ensures
        sorted(k, final(v)@),
        forall|x: EncodedQuad| final(v)@.contains(x) <==> (old(v)@.contains(x) && x != *q),
        old(v)@.contains(*q) ==> final(v)@.len() == old(v)@.len() - 1,
        !old(v)@.contains(*q) ==> final(v)@ == old(v)@,
{
    let ghost orig = v@;
    proof {
        assert forall|a: int, b: int| 0 <= a < b < orig.len() implies orig[a] != orig[b] by {
            lemma_quad_order_total(k, orig[a], orig[b]);
        }
    }
    let n = v.len();
    let mut i: usize = 0;
    while i < n
        invariant
            old(v)@ == orig,
            v@ == orig,
            n == orig.len(),
            i <= n,
            sorted(k, orig),
            forall|j: int| 0 <= j < i ==> orig[j] != *q,
        decreases n - i,
    {
        if v[i] == *q {
            v.remove(i);
            proof {
                let s2 = v@;
                assert(orig[i as int] == *q);
                assert(s2 =~= orig.subrange(0, i as int) + orig.subrange(
                    i + 1,
                    orig.len() as int,
                ));
                assert forall|a: int, b: int| 0 <= a < b < s2.len() implies quad_lt(
                    k,
                    s2[a],
                    s2[b],
                ) by {
                    assert(s2[a] == if a < i { orig[a] } else { orig[a + 1] });
                    assert(s2[b] == if b < i { orig[b] } else { orig[b + 1] });
                }
                assert forall|x: EncodedQuad| s2.contains(x) <==> (orig.contains(x) && x != *q)
                    by {
                    if s2.contains(x) {
                        let a = choose|a: int| 0 <= a < s2.len() && s2[a] == x;
                        if a < i {
                            assert(orig[a] == x);
                            assert(x != *q);
                        } else {
                            assert(orig[a + 1] == x);
                            assert(i < a + 1 < orig.len());
                            assert(quad_lt(k, orig[i as int], orig[a + 1]));
                            lemma_quad_order_total(k, orig[i as int], orig[a + 1]);
                            assert(x != *q);
                        }
                        assert(orig.contains(x));
                    }
                    if orig.contains(x) && x != *q {
                        let a = choose|a: int| 0 <= a < orig.len() && orig[a] == x;
                        assert(a != i);
                        if a < i {
                            assert(s2[a] == x);
                        } else {
                            assert(s2[a - 1] == x);
                        }
                        assert(s2.contains(x));
                    }
                }
                assert(orig.contains(*q));
            }
            return;
        }
        i = i + 1;
    }
    proof {
        assert(forall|j: int| 0 <= j < orig.len() ==> orig[j] != *q);
        assert(!orig.contains(*q));
    }
}

/// The decoded values of a run of encoded quads.
pub open spec fn decode_seq(s: Seq<EncodedQuad>, d: Seq<Seq<char>>) -> Seq<QuadV> {
    s.map_values(|e: EncodedQuad| decode_quad(e, d))
}

/// The view of a bound-or-wildcard subject argument.
pub open spec fn opt_subject_v(s: Option<&NamedOrBlankNode>) -> Option<TermV> {
    match s {
        Some(x) => Some(x@),
        None => None,
    }
}

/// The view of a bound-or-wildcard predicate argument.
pub open spec fn opt_named_v(p: Option<&NamedNode>) -> Option<TermV> {
    match p {
        Some(x) => Some(TermV::Named { iri: x@ }),
        None => None,
    }
}

/// The view of a bound-or-wildcard object argument.
pub open spec fn opt_term_v(o: Option<&Term>) -> Option<TermV> {
    match o {
        Some(x) => Some(x@),
        None => None,
    }
}

/// The view of a bound-or-wildcard graph-name argument.
pub open spec fn opt_graph_v(g: Option<&GraphName>) -> Option<TermV> {
    match g {
        Some(x) => Some(x@),
        None => None,
    }
}

/// Whether a quad matches the bound positions of a pattern.
pub open spec fn matches_pattern(
    q: QuadV,
    s: Option<TermV>,
    p: Option<TermV>,
    o: Option<TermV>,
    g: Option<TermV>,
) -> bool {
    &&& (s matches Some(t) ==> q.subject == t)
    &&& (p matches Some(t) ==> q.predicate == t)
    &&& (o matches Some(t) ==> q.object == t)
    &&& (g matches Some(t) ==> q.graph_name == t)
}

/// The index whose leading bound columns cover the most bound
/// positions; ties go to the earlier index in the fixed order.
pub open spec fn serving_index(s: bool, p: bool, o: bool, g: bool) -> IndexKind {
    if g {
        if s && p {
            IndexKind::Gspo
        } else if p && o {
            IndexKind::Gpos
        } else if o {
            IndexKind::Gosp
        } else if s {
            IndexKind::Gspo
        } else if p {
            IndexKind::Gpos
        } else {
            IndexKind::Gspo
        }
    } else {
        if s && p {
            IndexKind::Spog
        } else if s && o {
            IndexKind::Ospg
        } else if s {
            IndexKind::Spog
        } else if p {
            IndexKind::Posg
        } else if o {
            IndexKind::Ospg
        } else {
            IndexKind::Spog
        }
    }
}

/// Filtering a run with one more element at the end.
proof fn lemma_filter_push(s: Seq<QuadV>, x: QuadV, pred: spec_fn(QuadV) -> bool)
    ensures
        s.push(x).filter(pred) == if pred(x) {
            s.filter(pred).push(x)
        } else {
            s.filter(pred)
        },
{
    reveal(Seq::filter);
    assert(s.push(x).drop_last() =~= s);
    assert(s.push(x).last() == x);
}

/// The in-memory store: the dictionary, the blank-node counter, and
/// the six indexes.
pub struct MemoryStore {
    dict: Dictionary,
    bnode_counter: u64,
    spog: Vec<EncodedQuad>,
    posg: Vec<EncodedQuad>,
    ospg: Vec<EncodedQuad>,
    gspo: Vec<EncodedQuad>,
    gpos: Vec<EncodedQuad>,
    gosp: Vec<EncodedQuad>,
}

impl View for MemoryStore {
    type V = Set<QuadV>;

    /// The store's value: the set of decoded quads.
    closed spec fn view(&self) -> Set<QuadV> {
        decode_seq(self.spog@, self.dict@).to_set()
    }
}

impl MemoryStore {
    /// The dictionary contents.
    pub closed spec fn dict_view(self) -> Seq<Seq<char>> {
        self.dict@
    }

    /// How many dictionary entries are live.
    pub open spec fn dict_size(self) -> nat {
        self.dict_view().len()
    }

    /// The next fresh blank-node number.
    pub closed spec fn counter(self) -> nat {
        self.bnode_counter as nat
    }

    /// The encoded contents of the subject-led index.
    pub closed spec fn spog_enc(self) -> Seq<EncodedQuad> {
        self.spog@
    }

    /// The encoded contents of one index.
    pub closed spec fn index_enc(self, k: IndexKind) -> Seq<EncodedQuad> {
        match k {
            IndexKind::Spog => self.spog@,
            IndexKind::Posg => self.posg@,
            IndexKind::Ospg => self.ospg@,
            IndexKind::Gspo => self.gspo@,
            IndexKind::Gpos => self.gpos@,
            IndexKind::Gosp => self.gosp@,
        }
    }

    /// The decoded contents of one index, in its key order.
    pub open spec fn index_quads(self, k: IndexKind) -> Seq<QuadV> {
        decode_seq(self.index_enc(k), self.dict_view())
    }

    /// The scan a pattern is answered with: the serving index's
    /// decoded run, restricted to the quads that agree with every
    /// bound position, in the index's key order.
    pub open spec fn pattern_scan(
        self,
        sv: Option<TermV>,
        pv: Option<TermV>,
        ov: Option<TermV>,
        gv: Option<TermV>,
    ) -> Seq<QuadV> {
        self.index_quads(
            serving_index(sv is Some, pv is Some, ov is Some, gv is Some),
        ).filter(|q: QuadV| matches_pattern(q, sv, pv, ov, gv))
    }

    /// The store invariant: a duplicate-free dictionary, six strictly
    /// sorted indexes holding the same encoded quads, every stored
    /// quad well formed, and no two stored quads decoding alike.
    pub closed spec fn wf(self) -> bool {
        &&& self.dict.wf()
        &&& self.dict@.len() <= max_dict_len()
        &&& sorted(IndexKind::Spog, self.spog@)
        &&& sorted(IndexKind::Posg, self.posg@)
        &&& sorted(IndexKind::Ospg, self.ospg@)
        &&& sorted(IndexKind::Gspo, self.gspo@)
        &&& sorted(IndexKind::Gpos, self.gpos@)
        &&& sorted(IndexKind::Gosp, self.gosp@)
        &&& (forall|x: EncodedQuad| #[trigger] self.posg@.contains(x) == self.spog@.contains(x))
        &&& (forall|x: EncodedQuad| #[trigger] self.ospg@.contains(x) == self.spog@.contains(x))
        &&& (forall|x: EncodedQuad| #[trigger] self.gspo@.contains(x) == self.spog@.contains(x))
        &&& (forall|x: EncodedQuad| #[trigger] self.gpos@.contains(x) == self.spog@.contains(x))
        &&& (forall|x: EncodedQuad| #[trigger] self.gosp@.contains(x) == self.spog@.contains(x))
        &&& (forall|i: int|
            0 <= i < self.spog@.len() ==> wf_enc_quad(#[trigger] self.spog@[i], self.dict@))
        &&& (forall|i: int, j: int|
            0 <= i < j < self.spog@.len() ==> decode_quad(self.spog@[i], self.dict@)
                != decode_quad(self.spog@[j], self.dict@))
    }

    /// An empty store.
    pub fn new() -> (r: Self)
        ensures
            r.wf(),
            r@ == Set::<QuadV>::empty(),
            r.dict_size() == 0,
            r.counter() == 0,
    {
        let r = MemoryStore {
            dict: Dictionary::new(),
            bnode_counter: 0,
            spog: Vec::new(),
            posg: Vec::new(),
            ospg: Vec::new(),
            gspo: Vec::new(),
            gpos: Vec::new(),
            gosp: Vec::new(),
        };
        proof {
            assert(decode_seq(r.spog@, r.dict@) =~= Seq::<QuadV>::empty());
            assert(r@ =~= Set::<QuadV>::empty());
        }
        r
    }

    /// How many dictionary entries are live.
    pub fn dict_len(&self) -> (r: usize)
        ensures
            r == self.dict_size(),
    {
        self.dict.len()
    }

    /// The next fresh blank-node number, without allocating it.
    pub fn counter_value(&self) -> (r: u64)
        ensures
            r == self.counter(),
    {
        self.bnode_counter
    }

    /// Hands out the next fresh blank-node number.
    pub fn alloc_blank_id(&mut self) -> (r: u64)
        requires
            old(self).counter() < u64::MAX,
        ensures
            r == old(self).counter(),
            final(self).counter() == old(self).counter() + 1,
            final(self).wf() == old(self).wf(),
            final(self)@ == old(self)@,
            final(self).dict_size() == old(self).dict_size(),
    {
        let r = self.bnode_counter;
        self.bnode_counter = self.bnode_counter + 1;
        r
    }

    /// Whether the store holds this quad.
    pub fn contains(&self, quad: &Quad) -> (r: bool)
        requires
            self.wf(),
        ensures
            r == self@.contains(quad@),
    {
        let n = self.spog.len();
        let mut i: usize = 0;
        while i < n
            invariant
                self.wf(),
                n == self.spog@.len(),
                i <= n,
                forall|j: int|
                    0 <= j < i ==> decode_quad(self.spog@[j], self.dict@) != quad@,
            decreases n - i,
        {
            let dq = decode_quad_exec(&self.dict, &self.spog[i]);
            if quad_eq(&dq, quad) {
                proof {
                    assert(decode_seq(self.spog@, self.dict@)[i as int] == quad@);
                    assert(decode_seq(self.spog@, self.dict@).contains(quad@));
                }
                return true;
            }
            i = i + 1;
        }
        proof {
            assert forall|j: int| 0 <= j < decode_seq(self.spog@, self.dict@).len()
                implies decode_seq(self.spog@, self.dict@)[j] != quad@ by {}
            assert(!decode_seq(self.spog@, self.dict@).contains(quad@));
        }
        false
    }

    /// How many quads the store holds.
    pub fn len(&self) -> (r: usize)
        requires
            self.wf(),
        ensures
            r == self@.len(),
            self@.finite(),
    {
        proof {
            let ds = decode_seq(self.spog@, self.dict@);
            assert(ds.no_duplicates());
            ds.unique_seq_to_set();
        }
        self.spog.len()
    }

    /// Adds a quad to all six indexes; inserting a quad the store
    /// already holds changes nothing.
    #[verifier::rlimit(50)]
    pub fn insert(&mut self, quad: &Quad)
        requires
            old(self).wf(),
            old(self).dict_size() + 6 <= max_dict_len(),
        ensures
            final(self).wf(),
            final(self)@ == old(self)@.insert(quad@),
            final(self).dict_size() <= old(self).dict_size() + 6,
            final(self).counter() == old(self).counter(),
    {
        if self.contains(quad) {
            proof {
                assert(final(self)@ =~= old(self)@.insert(quad@));
            }
            return;
        }
        let ghost d0 = self.dict@;
        let ghost spog0 = self.spog@;
        let e = encode_quad(&mut self.dict, quad);
        let ghost d1 = self.dict@;
        proof {
            assert forall|i: int| 0 <= i < spog0.len() implies wf_enc_quad(
                #[trigger] spog0[i],
                d1,
            ) && decode_quad(spog0[i], d1) == decode_quad(spog0[i], d0) by {
                lemma_quad_stable(spog0[i], d0, d1);
            }
            assert(decode_seq(spog0, d1) =~= decode_seq(spog0, d0));
            assert(!decode_seq(spog0, d0).contains(quad@));
            assert forall|i: int| 0 <= i < spog0.len() implies spog0[i] != e by {
                assert(decode_seq(spog0, d0)[i] == decode_quad(spog0[i], d1));
            }
            assert(!spog0.contains(e));
            assert(!self.posg@.contains(e) && !self.ospg@.contains(e) && !self.gspo@.contains(e)
                && !self.gpos@.contains(e) && !self.gosp@.contains(e));
        }
        insert_sorted(&mut self.spog, IndexKind::Spog, e);
        insert_sorted(&mut self.posg, IndexKind::Posg, e);
        insert_sorted(&mut self.ospg, IndexKind::Ospg, e);
        insert_sorted(&mut self.gspo, IndexKind::Gspo, e);
        insert_sorted(&mut self.gpos, IndexKind::Gpos, e);
        insert_sorted(&mut self.gosp, IndexKind::Gosp, e);
        proof {
            let s2 = self.spog@;
            // Well-formedness and distinct decodings of the new spog run.
            assert forall|i: int| 0 <= i < s2.len() implies wf_enc_quad(
                #[trigger] s2[i],
                self.dict@,
            ) by {
                assert(s2.contains(s2[i]));
                if s2[i] == e {
                } else {
                    assert(spog0.contains(s2[i]));
                }
            }
            assert forall|i: int, j: int| 0 <= i < j < s2.len() implies decode_quad(
                s2[i],
                self.dict@,
            ) != decode_quad(s2[j], self.dict@) by {
                assert(s2.contains(s2[i]) && s2.contains(s2[j]));
                lemma_quad_order_total(IndexKind::Spog, s2[i], s2[j]);
                assert(s2[i] != s2[j]);
                if s2[i] == e {
                    assert(spog0.contains(s2[j]));
                    let a = choose|a: int| 0 <= a < spog0.len() && spog0[a] == s2[j];
                    assert(decode_seq(spog0, d0)[a] == decode_quad(s2[j], self.dict@));
                    assert(decode_quad(s2[i], self.dict@) == quad@);
                } else if s2[j] == e {
                    assert(spog0.contains(s2[i]));
                    let a = choose|a: int| 0 <= a < spog0.len() && spog0[a] == s2[i];
                    assert(decode_seq(spog0, d0)[a] == decode_quad(s2[i], self.dict@));
                    assert(decode_quad(s2[j], self.dict@) == quad@);
                } else {
                    let a = choose|a: int| 0 <= a < spog0.len() && spog0[a] == s2[i];
                    let b = choose|b: int| 0 <= b < spog0.len() && spog0[b] == s2[j];
                    assert(decode_quad(spog0[a], self.dict@) == decode_quad(spog0[a], d0));
                    assert(decode_quad(spog0[b], self.dict@) == decode_quad(spog0[b], d0));
                    lemma_quad_order_total(IndexKind::Spog, spog0[a], spog0[b]);
                    assert(a != b);
                    if a < b {
                    } else {
                    }
                }
            }
            // The view grew by exactly the new quad.
            assert forall|x: QuadV| final(self)@.contains(x) <==> (old(self)@.contains(x) || x
                == quad@) by {
                if final(self)@.contains(x) {
                    let i = choose|i: int|
                        0 <= i < s2.len() && decode_seq(s2, self.dict@)[i] == x;
                    assert(s2.contains(s2[i]));
                    if s2[i] == e {
                    } else {
                        let a = choose|a: int| 0 <= a < spog0.len() && spog0[a] == s2[i];
                        assert(decode_seq(spog0, d0)[a] == x);
                        assert(old(self)@.contains(x));
                    }
                }
                if old(self)@.contains(x) {
                    let i = choose|i: int|
                        0 <= i < spog0.len() && decode_seq(spog0, d0)[i] == x;
                    assert(s2.contains(spog0[i]));
                    let a = choose|a: int| 0 <= a < s2.len() && s2[a] == spog0[i];
                    assert(decode_seq(s2, self.dict@)[a] == x);
                }
                if x == quad@ {
                    assert(s2.contains(e));
                    let a = choose|a: int| 0 <= a < s2.len() && s2[a] == e;
                    assert(decode_seq(s2, self.dict@)[a] == x);
                }
            }
            assert(final(self)@ =~= old(self)@.insert(quad@));
        }
    }

    /// Removes a quad from all six indexes; removing a quad the store
    /// does not hold changes nothing.
    #[verifier::rlimit(50)]
    pub fn remove(&mut self, quad: &Quad)
        requires
            old(self).wf(),
        ensures
            final(self).wf(),
            final(self)@ == old(self)@.remove(quad@),
            final(self).dict_size() == old(self).dict_size(),
            final(self).counter() == old(self).counter(),
    {
        let ghost spog0 = self.spog@;
        let ghost d = self.dict@;
        // Find the encoded form of the quad, if it is stored.
        let n = self.spog.len();
        let mut i: usize = 0;
        let mut found: Option<EncodedQuad> = None;
        while i < n
            invariant
                *self == *old(self),
                self.wf(),
                self.spog@ == spog0,
                self.dict@ == d,
                n == spog0.len(),
                i <= n,
                found matches Some(f) ==> spog0.contains(f) && decode_quad(f, d) == quad@,
                found is None ==> forall|j: int|
                    0 <= j < i ==> decode_quad(spog0[j], d) != quad@,
            decreases n - i,
        {
            if found.is_none() {
                let dq = decode_quad_exec(&self.dict, &self.spog[i]);
                if quad_eq(&dq, quad) {
                    found = Some(self.spog[i]);
                    proof {
                        assert(spog0.contains(spog0[i as int]));
                    }
                }
            }
            i = i + 1;
        }
        match found {
            None => {
                proof {
                    assert forall|j: int| 0 <= j < decode_seq(spog0, d).len()
                        implies decode_seq(spog0, d)[j] != quad@ by {}
                    assert(!decode_seq(spog0, d).contains(quad@));
                    assert(!old(self)@.contains(quad@));
                    assert(final(self)@ =~= old(self)@.remove(quad@));
                }
            },
            Some(e) => {
                remove_from_index(&mut self.spog, IndexKind::Spog, &e);
                remove_from_index(&mut self.posg, IndexKind::Posg, &e);
                remove_from_index(&mut self.ospg, IndexKind::Ospg, &e);
                remove_from_index(&mut self.gspo, IndexKind::Gspo, &e);
                remove_from_index(&mut self.gpos, IndexKind::Gpos, &e);
                remove_from_index(&mut self.gosp, IndexKind::Gosp, &e);
                proof {
                    let s2 = self.spog@;
                    assert forall|x: EncodedQuad| #[trigger] s2.contains(x) implies
                        spog0.contains(x) by {}
                    assert forall|i2: int| 0 <= i2 < s2.len() implies wf_enc_quad(
                        #[trigger] s2[i2],
                        d,
                    ) by {
                        assert(s2.contains(s2[i2]));
                        let a = choose|a: int| 0 <= a < spog0.len() && spog0[a] == s2[i2];
                    }
                    assert forall|i2: int, j2: int| 0 <= i2 < j2 < s2.len() implies decode_quad(
                        s2[i2],
                        d,
                    ) != decode_quad(s2[j2], d) by {
                        lemma_quad_order_total(IndexKind::Spog, s2[i2], s2[j2]);
                        assert(s2[i2] != s2[j2]);
                        assert(s2.contains(s2[i2]) && s2.contains(s2[j2]));
                        assert(spog0.contains(s2[i2]) && spog0.contains(s2[j2]));
                        let a = choose|a: int| 0 <= a < spog0.len() && spog0[a] == s2[i2];
                        let b = choose|b: int| 0 <= b < spog0.len() && spog0[b] == s2[j2];
                        assert(spog0[a] != spog0[b]);
                        if a < b {
                            assert(decode_quad(spog0[a], d) != decode_quad(spog0[b], d));
                        } else {
                            assert(b < a);
                            assert(decode_quad(spog0[b], d) != decode_quad(spog0[a], d));
                        }
                    }
                    // The view lost exactly the quad's value.
                    assert forall|x: QuadV| final(self)@.contains(x) <==> (old(self)@.contains(x)
                        && x != quad@) by {
                        if final(self)@.contains(x) {
                            let i2 = choose|i2: int|
                                0 <= i2 < s2.len() && decode_seq(s2, d)[i2] == x;
                            assert(s2.contains(s2[i2]));
                            assert(s2[i2] != e);
                            let a = choose|a: int| 0 <= a < spog0.len() && spog0[a] == s2[i2];
                            assert(decode_seq(spog0, d)[a] == x);
                            assert(old(self)@.contains(x));
                            let b = choose|b: int| 0 <= b < spog0.len() && spog0[b] == e;
                            if x == quad@ {
                                assert(decode_quad(spog0[a], d) == decode_quad(spog0[b], d));
                                assert(a == b);
                                assert(false);
                            }
                        }
                        if old(self)@.contains(x) && x != quad@ {
                            let i2 = choose|i2: int|
                                0 <= i2 < spog0.len() && decode_seq(spog0, d)[i2] == x;
                            assert(spog0[i2] != e);
                            assert(s2.contains(spog0[i2]));
                            let a = choose|a: int| 0 <= a < s2.len() && s2[a] == spog0[i2];
                            assert(decode_seq(s2, d)[a] == x);
                        }
                    }
                    assert(final(self)@ =~= old(self)@.remove(quad@));
                }
            },
        }
    }
    /// The index whose leading bound columns cover the most bound
    /// positions; ties go to the earlier index in the fixed order.
    fn choose_index(s: bool, p: bool, o: bool, g: bool) -> (r: IndexKind)
        ensures
            r == serving_index(s, p, o, g),
    {
        if g {
            if s && p {
                IndexKind::Gspo
            } else if p && o {
                IndexKind::Gpos
            } else if o {
                IndexKind::Gosp
            } else if s {
                IndexKind::Gspo
            } else if p {
                IndexKind::Gpos
            } else {
                IndexKind::Gspo
            }
        } else {
            if s && p {
                IndexKind::Spog
            } else if s && o {
                IndexKind::Ospg
            } else if s {
                IndexKind::Spog
            } else if p {
                IndexKind::Posg
            } else if o {
                IndexKind::Ospg
            } else {
                IndexKind::Spog
            }
        }
    }

    /// All quads matching the bound positions of the pattern: exactly
    /// the stored quads that agree with every bound position. The scan
    /// walks the index whose leading key columns serve the pattern.
    #[verifier::rlimit(100)]
    pub fn quads_for_pattern(
        &self,
        subject: Option<&NamedOrBlankNode>,
        predicate: Option<&NamedNode>,
        object: Option<&Term>,
        graph_name: Option<&GraphName>,
    ) -> (r: Vec<Quad>)
        requires
            self.wf(),
        ensures
            forall|i: int|
                0 <= i < r@.len() ==> self@.contains(#[trigger] r@[i]@) && matches_pattern(
                    r@[i]@,
                    opt_subject_v(subject),
                    opt_named_v(predicate),
                    opt_term_v(object),
                    opt_graph_v(graph_name),
                ),
            forall|x: QuadV|
                self@.contains(x) && matches_pattern(
                    x,
                    opt_subject_v(subject),
                    opt_named_v(predicate),
                    opt_term_v(object),
                    opt_graph_v(graph_name),
                ) ==> exists|i: int| 0 <= i < r@.len() && #[trigger] r@[i]@ == x,
            forall|i: int, j: int| 0 <= i < j < r@.len() ==> (#[trigger] r@[i])@ != (
            #[trigger] r@[j])@,
            r@.map_values(|q: Quad| q@) == self.pattern_scan(
                opt_subject_v(subject),
                opt_named_v(predicate),
                opt_term_v(object),
                opt_graph_v(graph_name),
            ),
    {
        let ghost sv = opt_subject_v(subject);
        let ghost pv = opt_named_v(predicate);
        let ghost ov = opt_term_v(object);
        let ghost gv = opt_graph_v(graph_name);
        let k = Self::choose_index(
            subject.is_some(),
            predicate.is_some(),
            object.is_some(),
            graph_name.is_some(),
        );
        let idx: &Vec<EncodedQuad> = match k {
            IndexKind::Spog => &self.spog,
            IndexKind::Posg => &self.posg,
            IndexKind::Ospg => &self.ospg,
            IndexKind::Gspo => &self.gspo,
            IndexKind::Gpos => &self.gpos,
            IndexKind::Gosp => &self.gosp,
        };
        proof {
            assert(forall|x: EncodedQuad| #[trigger] idx@.contains(x) == self.spog@.contains(x));
            assert(idx@ == self.index_enc(k));
            lemma_index_decoded_nodup(self, k);
            assert forall|j1: int, j2: int| 0 <= j1 < j2 < idx@.len() implies decode_quad(
                #[trigger] idx@[j1],
                self.dict@,
            ) != decode_quad(#[trigger] idx@[j2], self.dict@) by {
                assert(self.index_quads(k)[j1] != self.index_quads(k)[j2]);
            }
        }
        let ghost pred = |q: QuadV| matches_pattern(q, sv, pv, ov, gv);
        proof {
            reveal(Seq::filter);
            assert(decode_seq(idx@.take(0), self.dict@) =~= Seq::<QuadV>::empty());
            assert(Seq::<QuadV>::empty().filter(pred) =~= Seq::<QuadV>::empty());
        }
        let n = idx.len();
        let mut out: Vec<Quad> = Vec::new();
        let ghost mut srcs: Seq<int> = Seq::empty();
        let mut i: usize = 0;
        while i < n
            invariant
                self.wf(),
                n == idx@.len(),
                i <= n,
                sv == opt_subject_v(subject),
                pv == opt_named_v(predicate),
                ov == opt_term_v(object),
                gv == opt_graph_v(graph_name),
                forall|x: EncodedQuad| #[trigger] idx@.contains(x) == self.spog@.contains(x),
                forall|j: int|
                    0 <= j < out@.len() ==> self@.contains(#[trigger] out@[j]@) && matches_pattern(
                        out@[j]@,
                        sv,
                        pv,
                        ov,
                        gv,
                    ),
                forall|j: int|
                    0 <= j < i && matches_pattern(
                        decode_quad(#[trigger] idx@[j], self.dict@),
                        sv,
                        pv,
                        ov,
                        gv,
                    ) ==> exists|m: int|
                        0 <= m < out@.len() && out@[m]@ == decode_quad(idx@[j], self.dict@),
                forall|j1: int, j2: int|
                    0 <= j1 < j2 < idx@.len() ==> decode_quad(#[trigger] idx@[j1], self.dict@)
                        != decode_quad(#[trigger] idx@[j2], self.dict@),
                srcs.len() == out@.len(),
                forall|m: int|
                    0 <= m < srcs.len() ==> 0 <= #[trigger] srcs[m] < i,
                forall|m1: int, m2: int| 0 <= m1 < m2 < srcs.len() ==> srcs[m1] < srcs[m2],
                forall|m: int|
                    0 <= m < srcs.len() ==> (#[trigger] out@[m])@ == decode_quad(
                        idx@[srcs[m]],
                        self.dict@,
                    ),
                idx@ == self.index_enc(k),
                k == serving_index(subject is Some, predicate is Some, object is Some,
                    graph_name is Some),
                pred == (|q: QuadV| matches_pattern(q, sv, pv, ov, gv)),
                out@.map_values(|q: Quad| q@) == decode_seq(idx@.take(i as int), self.dict@)
                    .filter(pred),
            decreases n - i,
        {
            let ghost out0 = out@;
            proof {
                assert(idx@.contains(idx@[i as int]));
                assert(self.spog@.contains(idx@[i as int]));
                let a = choose|a: int|
                    0 <= a < self.spog@.len() && self.spog@[a] == idx@[i as int];
                assert(wf_enc_quad(self.spog@[a], self.dict@));
                assert(decode_seq(self.spog@, self.dict@)[a] == decode_quad(
                    idx@[i as int],
                    self.dict@,
                ));
                assert(self@.contains(decode_quad(idx@[i as int], self.dict@)));
            }
            let dq = decode_quad_exec(&self.dict, &idx[i]);
            let ms = match subject {
                Some(s) => subject_eq(s, &dq.subject),
                None => true,
            };
            let mp = match predicate {
                Some(p) => named_node_eq(p, &dq.predicate),
                None => true,
            };
            let mo = match object {
                Some(o) => term_eq(o, &dq.object),
                None => true,
            };
            let mg = match graph_name {
                Some(g) => graph_name_eq(g, &dq.graph_name),
                None => true,
            };
            let ghost dqv = dq@;
            proof {
                assert(dqv == decode_quad(idx@[i as int], self.dict@));
                assert(ms == (sv matches Some(t) ==> dqv.subject == t));
                assert(mp == (pv matches Some(t) ==> dqv.predicate == t));
                assert(mo == (ov matches Some(t) ==> dqv.object == t));
                assert(mg == (gv matches Some(t) ==> dqv.graph_name == t));
            }
            let ghost outv0 = out@.map_values(|q: Quad| q@);
            let ghost taken = decode_seq(idx@.take(i as int), self.dict@);
            if ms && mp && mo && mg {
                out.push(dq);
                proof {
                    srcs = srcs.push(i as int);
                    assert(out@[out@.len() - 1]@ == dqv);
                    assert(matches_pattern(dqv, sv, pv, ov, gv));
                }
            } else {
                proof {
                    assert(!matches_pattern(dqv, sv, pv, ov, gv));
                }
            }
            proof {
                assert(decode_seq(idx@.take(i + 1), self.dict@) =~= taken.push(dqv));
                lemma_filter_push(taken, dqv, pred);
                if ms && mp && mo && mg {
                    assert(out@.map_values(|q: Quad| q@) =~= outv0.push(dqv));
                    assert(out@.map_values(|q: Quad| q@) =~= decode_seq(
                        idx@.take(i + 1),
                        self.dict@,
                    ).filter(pred));
                } else {
                    assert(out@.map_values(|q: Quad| q@) =~= decode_seq(
                        idx@.take(i + 1),
                        self.dict@,
                    ).filter(pred));
                }
            }
            proof {
                assert forall|j: int|
                    0 <= j < i + 1 && matches_pattern(
                        decode_quad(#[trigger] idx@[j], self.dict@),
                        sv,
                        pv,
                        ov,
                        gv,
                    ) implies exists|m: int|
                    0 <= m < out@.len() && out@[m]@ == decode_quad(idx@[j], self.dict@) by {
                    if j == i {
                        assert(out@[out@.len() - 1]@ == dqv);
                    } else {
                        let m = choose|m: int|
                            0 <= m < out0.len() && out0[m]@ == decode_quad(
                                idx@[j],
                                self.dict@,
                            );
                        assert(out@[m]@ == decode_quad(idx@[j], self.dict@));
                    }
                }
            }
            i = i + 1;
        }
        proof {
            assert(idx@.take(n as int) =~= idx@);
            assert(out@.map_values(|q: Quad| q@) == self.index_quads(k).filter(pred));
            assert(self.index_quads(k).filter(pred) == self.pattern_scan(sv, pv, ov, gv));
            assert forall|m1: int, m2: int| 0 <= m1 < m2 < out@.len() implies (
            #[trigger] out@[m1])@ != (#[trigger] out@[m2])@ by {
                assert((out@[m1])@ == decode_quad(idx@[srcs[m1]], self.dict@));
                assert((out@[m2])@ == decode_quad(idx@[srcs[m2]], self.dict@));
                assert(0 <= srcs[m1] < srcs[m2] < idx@.len());
            }
            assert forall|x: QuadV| self@.contains(x) && matches_pattern(x, sv, pv, ov, gv)
                implies exists|m: int| 0 <= m < out@.len() && #[trigger] out@[m]@ == x by {
                let a = choose|a: int|
                    0 <= a < self.spog@.len() && decode_seq(self.spog@, self.dict@)[a] == x;
                assert(self.spog@.contains(self.spog@[a]));
                assert(idx@.contains(self.spog@[a]));
                let j = choose|j: int| 0 <= j < idx@.len() && idx@[j] == self.spog@[a];
                assert(decode_quad(idx@[j], self.dict@) == x);
            }
        }
        out
    }
}

/// Filtering keeps a run whose every element the predicate accepts.
proof fn lemma_filter_all(s: Seq<QuadV>, pred: spec_fn(QuadV) -> bool)
    requires
        forall|i: int| 0 <= i < s.len() ==> pred(#[trigger] s[i]),
    ensures
        s.filter(pred) == s,
    decreases s.len(),
{
    reveal(Seq::filter);
    if s.len() > 0 {
        lemma_filter_all(s.drop_last(), pred);
        assert(s.drop_last().push(s.last()) =~= s);
    }
}

/// The size of the store is the length of the all-wildcard scan:
/// every stored quad appears in it exactly once.
pub proof fn lemma_len_is_scan_len(s: &MemoryStore)
    requires
        s.wf(),
    ensures
        s.pattern_scan(None, None, None, None).len() == s@.len(),
{
    let run = s.index_quads(IndexKind::Spog);
    let pred = |q: QuadV| matches_pattern(q, None, None, None, None);
    lemma_filter_all(run, pred);
    assert(s.pattern_scan(None, None, None, None) == run);
    lemma_index_decoded_nodup(s, IndexKind::Spog);
    run.unique_seq_to_set();
    assert(run.to_set() =~= s@);
}

/// After inserting a quad the store contains it; its size is the same
/// if it already did, and one larger otherwise. Together with the
/// postconditions of `insert`, `contains` and `len` this is the
/// insert/contains law.
pub proof fn lemma_insert_contains_len(s: Set<QuadV>, q: QuadV)
    requires
        s.finite(),
    ensures
        s.insert(q).contains(q),
        s.contains(q) ==> s.insert(q).len() == s.len(),
        !s.contains(q) ==> s.insert(q).len() == s.len() + 1,
{
    if s.contains(q) {
        assert(s.insert(q) =~= s);
    }
}

/// Inserting a quad and then removing it leaves a store that does not
/// contain it. Together with the postconditions of `insert`, `remove`
/// and `contains` this is the insert/remove law.
pub proof fn lemma_insert_then_remove(s: Set<QuadV>, q: QuadV)
    ensures
        !s.insert(q).remove(q).contains(q),
        s.insert(q).remove(q) == s.remove(q),
{
    assert(s.insert(q).remove(q) =~= s.remove(q));
}

/// Index consistency: in a well-formed store — and every store the
/// public operations return is well formed — all six indexes hold the
/// same multiset of decoded quads.
pub proof fn lemma_index_consistency(s: &MemoryStore, k1: IndexKind, k2: IndexKind)
    requires
        s.wf(),
    ensures
        s.index_quads(k1).to_multiset() == s.index_quads(k2).to_multiset(),
{
    broadcast use vstd::seq_lib::group_to_multiset_ensures;

    lemma_index_decoded_nodup(s, k1);
    lemma_index_decoded_nodup(s, k2);
    let d1 = s.index_quads(k1);
    let d2 = s.index_quads(k2);
    d1.lemma_multiset_has_no_duplicates();
    d2.lemma_multiset_has_no_duplicates();
    assert forall|x: QuadV| d1.to_multiset().count(x) == d2.to_multiset().count(x) by {
        lemma_index_member(s, k1, k2, x);
        assert(d1.contains(x) <==> d1.to_multiset().count(x) > 0);
        assert(d2.contains(x) <==> d2.to_multiset().count(x) > 0);
    }
    assert(d1.to_multiset() =~= d2.to_multiset());
}

/// A value decoded out of one index is in every other index too.
proof fn lemma_index_member(s: &MemoryStore, k1: IndexKind, k2: IndexKind, x: QuadV)
    requires
        s.wf(),
    ensures
        s.index_quads(k1).contains(x) <==> s.index_quads(k2).contains(x),
{
    let e1 = s.index_enc(k1);
    let e2 = s.index_enc(k2);
    assert(forall|y: EncodedQuad| #[trigger] e1.contains(y) == s.spog_enc().contains(y));
    assert(forall|y: EncodedQuad| #[trigger] e2.contains(y) == s.spog_enc().contains(y));
    if s.index_quads(k1).contains(x) {
        let a = choose|a: int| 0 <= a < e1.len() && s.index_quads(k1)[a] == x;
        assert(e1.contains(e1[a]));
        assert(e2.contains(e1[a]));
        let b = choose|b: int| 0 <= b < e2.len() && e2[b] == e1[a];
        assert(s.index_quads(k2)[b] == x);
    }
    if s.index_quads(k2).contains(x) {
        let a = choose|a: int| 0 <= a < e2.len() && s.index_quads(k2)[a] == x;
        assert(e2.contains(e2[a]));
        assert(e1.contains(e2[a]));
        let b = choose|b: int| 0 <= b < e1.len() && e1[b] == e2[a];
        assert(s.index_quads(k1)[b] == x);
    }
}

/// Each index's decoded run repeats no quad.
proof fn lemma_index_decoded_nodup(s: &MemoryStore, k: IndexKind)
    requires
        s.wf(),
    ensures
        s.index_quads(k).no_duplicates(),
{
    let e = s.index_enc(k);
    assert(forall|y: EncodedQuad| #[trigger] e.contains(y) == s.spog_enc().contains(y));
    assert forall|i: int, j: int| 0 <= i < j < e.len() implies s.index_quads(k)[i]
        != s.index_quads(k)[j] by {
        lemma_quad_order_total(k, e[i], e[j]);
        assert(e[i] != e[j]);
        assert(e.contains(e[i]) && e.contains(e[j]));
        assert(s.spog_enc().contains(e[i]) && s.spog_enc().contains(e[j]));
        let a = choose|a: int| 0 <= a < s.spog_enc().len() && s.spog_enc()[a] == e[i];
        let b = choose|b: int| 0 <= b < s.spog_enc().len() && s.spog_enc()[b] == e[j];
        assert(s.spog_enc()[a] != s.spog_enc()[b]);
        if a < b {
            assert(decode_quad(s.spog_enc()[a], s.dict_view()) != decode_quad(
                s.spog_enc()[b],
                s.dict_view(),
            ));
        } else {
            assert(b < a);
            assert(decode_quad(s.spog_enc()[b], s.dict_view()) != decode_quad(
                s.spog_enc()[a],
                s.dict_view(),
            ));
        }
    }
    assert(s.index_quads(k).no_duplicates());
}

} // verus!
