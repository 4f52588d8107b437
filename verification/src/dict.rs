//! The string dictionary: a bidirectional mapping between strings and
//! stable identifiers that are at least 1. It is append-only; an entry
//! lives as long as the store.

use vstd::prelude::*;

verus! {

/// The largest id the dictionary will hand out.
pub open spec fn max_dict_len() -> nat {
    0xffff_ffff_ffff_fffe
}

/// A dictionary entry's id is its position plus one; id 0 is reserved.
pub struct Dictionary {
    entries: Vec<String>,
}

impl View for Dictionary {
    type V = Seq<Seq<char>>;

    closed spec fn view(&self) -> Seq<Seq<char>> {
        self.entries@.map_values(|s: String| s@)
    }
}

/// Whether `id` is a live id of dictionary contents `d` naming `s`.
pub open spec fn resolves(d: Seq<Seq<char>>, id: u64, s: Seq<char>) -> bool {
    1 <= id <= d.len() && d[id - 1] == s
}

/// Whether `s` has an entry in dictionary contents `d`.
pub open spec fn has_str(d: Seq<Seq<char>>, s: Seq<char>) -> bool {
    exists|i: int| 0 <= i < d.len() && d[i] == s
}

/// `d2` extends `d1` without touching existing entries.
pub open spec fn extends(d1: Seq<Seq<char>>, d2: Seq<Seq<char>>) -> bool {
    d1.len() <= d2.len() && forall|i: int| 0 <= i < d1.len() ==> d2[i] == d1[i]
}

impl Dictionary {
    /// No two entries hold the same string, so each string has at most
    /// one id.
    pub open spec fn wf(&self) -> bool {
        forall|i: int, j: int|
            0 <= i < j < self@.len() ==> self@[i] != self@[j]
    }

    pub fn new() -> (r: Self)
        ensures
            r.wf(),
            r@.len() == 0,
    {
        let r = Dictionary { entries: Vec::new() };
        proof {
            assert(r@ =~= Seq::<Seq<char>>::empty());
        }
        r
    }

    /// How many entries are live.
    pub fn len(&self) -> (r: usize)
        ensures
            r == self@.len(),
    {
        self.entries.len()
    }

    /// The id of `s` if it has one already.
    pub fn lookup(&self, s: &String) -> (r: Option<u64>)
        requires
            self@.len() <= max_dict_len(),
        ensures
            r matches Some(id) ==> resolves(self@, id, s@),
            r is None ==> !has_str(self@, s@),
    {
        let n = self.entries.len();
        let mut i: usize = 0;
        while i < n
            invariant
                n == self@.len() <= max_dict_len(),
                i <= n,
                forall|j: int| 0 <= j < i ==> self@[j] != s@,
            decreases n - i,
        {
            if self.entries[i] == *s {
                return Some((i as u64) + 1);
            }
            i = i + 1;
        }
        None
    }

    /// Returns the existing id of `s`, or allocates the next one.
    pub fn intern(&mut self, s: String) -> (r: u64)
        requires
            old(self).wf(),
            old(self)@.len() <= max_dict_len(),
        ensures
            final(self).wf(),
            resolves(final(self)@, r, s@),
            extends(old(self)@, final(self)@),
            has_str(old(self)@, s@) ==> final(self)@ == old(self)@,
            !has_str(old(self)@, s@) ==> final(self)@ == old(self)@.push(s@) && r == old(
                self,
            )@.len() + 1,
            final(self)@.len() <= old(self)@.len() + 1,
    {
        match self.lookup(&s) {
            Some(id) => {
                proof {
                    assert(has_str(self@, s@));
                }
                id
            },
            None => {
                let id = (self.entries.len() as u64) + 1;
                self.entries.push(s);
                proof {
                    assert(self@ =~= old(self)@.push(s@));
                }
                id
            },
        }
    }

    /// The string an id names. Every id previously returned by
    /// `intern` resolves; any other id is a corruption.
    pub fn resolve(&self, id: u64) -> (r: Option<&String>)
        ensures
            r matches Some(s) ==> resolves(self@, id, s@),
            r is None ==> !(1 <= id <= self@.len()),
    {
        if 1 <= id && (id - 1) < (self.entries.len() as u64) {
            let i = (id - 1) as usize;
            Some(&self.entries[i])
        } else {
            None
        }
    }
}

} // verus!
