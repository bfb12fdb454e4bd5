//! The append-only set of (caller, callee) 2-grams ever observed in
//! accepted API-combination programs, shared across rounds, and the
//! extraction of such 2-grams from a program's call sequence.

use vstd::prelude::*;
use crate::strutil::str_eq;

verus! {

/// Whether the pair `(a, b)` occurs in the sequence.
pub open spec fn pair_in(s: Seq<(String, String)>, a: Seq<char>, b: Seq<char>) -> bool {
    exists|i: int| 0 <= i < s.len() && (#[trigger] s[i]).0@ == a && s[i].1@ == b
}

/// No pair occurs twice.
pub open spec fn distinct_pairs(s: Seq<(String, String)>) -> bool {
    forall|i: int, j: int|
        0 <= i < s.len() && 0 <= j < s.len() && i != j ==> !((#[trigger] s[i]).0@ == (
        #[trigger] s[j]).0@ && s[i].1@ == s[j].1@)
}

/// The set after inserting `p`: unchanged when the pair is already known,
/// appended otherwise.
pub open spec fn inserted(s: Seq<(String, String)>, p: (String, String)) -> Seq<(String, String)> {
    if pair_in(s, p.0@, p.1@) {
        s
    } else {
        s.push(p)
    }
}

/// Law: insertion is idempotent. Inserting a pair twice changes nothing the
/// second time, so the set grows by at most one per distinct pair, and a
/// pair already present is never appended again.
pub proof fn lemma_insert_idempotent(s: Seq<(String, String)>, p: (String, String))
    ensures
        inserted(inserted(s, p), p) == inserted(s, p),
        inserted(s, p).len() <= s.len() + 1,
        pair_in(s, p.0@, p.1@) ==> inserted(s, p) == s,
        pair_in(inserted(s, p), p.0@, p.1@),
{
    if !pair_in(s, p.0@, p.1@) {
        assert(s.push(p)[s.len() as int] == p);
    }
}

/// The character-level value of a pair list: each pair as its two views.
pub open spec fn view_pairs(s: Seq<(String, String)>) -> Seq<(Seq<char>, Seq<char>)> {
    s.map_values(|p: (String, String)| (p.0@, p.1@))
}

/// Whether a view-level pair occurs in a view-level pair list.
pub open spec fn vp_in(s: Seq<(Seq<char>, Seq<char>)>, p: (Seq<char>, Seq<char>)) -> bool {
    exists|i: int| 0 <= i < s.len() && s[i] == p
}

/// `pair_in` is membership of the view-level pair.
pub proof fn lemma_pair_in_is_vp_in(s: Seq<(String, String)>, a: Seq<char>, b: Seq<char>)
    ensures
        pair_in(s, a, b) == vp_in(view_pairs(s), (a, b)),
{
    if pair_in(s, a, b) {
        let i = choose|i: int| 0 <= i < s.len() && (#[trigger] s[i]).0@ == a && s[i].1@ == b;
        assert(view_pairs(s)[i] == (a, b));
    }
    if vp_in(view_pairs(s), (a, b)) {
        let i = choose|i: int| 0 <= i < view_pairs(s).len() && view_pairs(s)[i] == (a, b);
        assert(s[i].0@ == a && s[i].1@ == b);
    }
}

/// The consecutive 2-grams of a call sequence, at the view level.
pub open spec fn two_grams_v(calls: Seq<Seq<char>>) -> Seq<(Seq<char>, Seq<char>)> {
    if calls.len() >= 2 {
        Seq::new((calls.len() - 1) as nat, |i: int| (calls[i], calls[i + 1]))
    } else {
        Seq::<(Seq<char>, Seq<char>)>::empty()
    }
}

/// Record one view-level pair against a state of (known set, novel list):
/// a pair already known changes nothing; a new one is appended to both.
pub open spec fn record_pair_v(
    state: (Seq<(Seq<char>, Seq<char>)>, Seq<(Seq<char>, Seq<char>)>),
    p: (Seq<char>, Seq<char>),
) -> (Seq<(Seq<char>, Seq<char>)>, Seq<(Seq<char>, Seq<char>)>) {
    if vp_in(state.0, p) {
        state
    } else {
        (state.0.push(p), state.1.push(p))
    }
}

/// Record a list of view-level pairs, in order.
pub open spec fn record_pairs_v(
    state: (Seq<(Seq<char>, Seq<char>)>, Seq<(Seq<char>, Seq<char>)>),
    pairs: Seq<(Seq<char>, Seq<char>)>,
) -> (Seq<(Seq<char>, Seq<char>)>, Seq<(Seq<char>, Seq<char>)>)
    decreases pairs.len(),
{
    if pairs.len() == 0 {
        state
    } else {
        record_pair_v(record_pairs_v(state, pairs.drop_last()), pairs.last())
    }
}

/// The append-only set of discovered API pairs.
pub struct DiscoveredPairSet {
    /// The pairs in discovery order, none twice.
    pub pairs: Vec<(String, String)>,
}

impl DiscoveredPairSet {
    /// Well-formed: no pair recorded twice.
    pub open spec fn wf(self) -> bool {
        distinct_pairs(self.pairs@)
    }

    /// An empty set.
    pub fn new() -> (r: DiscoveredPairSet)
        ensures
            r.pairs@ =~= Seq::<(String, String)>::empty(),
            r.wf(),
    {
        DiscoveredPairSet { pairs: Vec::new() }
    }

    /// How many distinct pairs have ever been observed.
    pub fn len(&self) -> (r: usize)
        ensures
            r == self.pairs.len(),
    {
        self.pairs.len()
    }

    /// Whether the pair `(a, b)` has been observed.
    pub fn contains(&self, a: &str, b: &str) -> (r: bool)
        ensures
            r == pair_in(self.pairs@, a@, b@),
    {
        let n: usize = self.pairs.len();
        let mut i: usize = 0;
        while i < n
            invariant
                i <= n,
                n == self.pairs.len(),
                forall|j: int|
                    0 <= j < i ==> !((#[trigger] self.pairs@[j]).0@ == a@ && self.pairs@[j].1@
                        == b@),
            decreases n - i,
        {
            if str_eq(self.pairs[i].0.as_str(), a) && str_eq(self.pairs[i].1.as_str(), b) {
                return true;
            }
            i = i + 1;
        }
        false
    }

    /// Record a pair; reports whether it was new. A pair already present
    /// leaves the set unchanged.
    pub fn insert(&mut self, pair: (String, String)) -> (is_new: bool)
        requires
            old(self).wf(),
        ensures
            is_new == !pair_in(old(self).pairs@, pair.0@, pair.1@),
            final(self).pairs@ == inserted(old(self).pairs@, pair),
            final(self).wf(),
            final(self).pairs.len() <= old(self).pairs.len() + 1,
    {
        if self.contains(pair.0.as_str(), pair.1.as_str()) {
            false
        } else {
            let ghost pre = self.pairs@;
            self.pairs.push(pair);
            proof {
                assert(self.pairs@[pre.len() as int] == pair);
                assert forall|i: int, j: int|
                    0 <= i < self.pairs@.len() && 0 <= j < self.pairs@.len() && i != j implies !((
                #[trigger] self.pairs@[i]).0@ == (#[trigger] self.pairs@[j]).0@
                    && self.pairs@[i].1@ == self.pairs@[j].1@) by {
                    if i < pre.len() && j < pre.len() {
                        assert(self.pairs@[i] == pre[i] && self.pairs@[j] == pre[j]);
                    } else if i < pre.len() {
                        assert(self.pairs@[i] == pre[i] && self.pairs@[j] == pair);
                        assert(!pair_in(pre, pair.0@, pair.1@));
                    } else {
                        assert(self.pairs@[j] == pre[j] && self.pairs@[i] == pair);
                        assert(!pair_in(pre, pair.0@, pair.1@));
                    }
                }
            }
            true
        }
    }
}

/// The consecutive (caller, callee) 2-grams of a call sequence, in program
/// order: one pair per adjacent window.
pub fn extract_2gram_pairs(calls: &Vec<String>) -> (r: Vec<(String, String)>)
    ensures
        calls.len() >= 2 ==> r.len() == calls.len() - 1,
        calls.len() < 2 ==> r.len() == 0,
        forall|i: int|
            0 <= i < r.len() ==> (#[trigger] r@[i]).0@ == calls@[i]@ && r@[i].1@ == calls@[i
                + 1]@,
{
    let mut out: Vec<(String, String)> = Vec::new();
    let n: usize = calls.len();
    if n < 2 {
        return out;
    }
    let mut i: usize = 0;
    while i < n - 1
        invariant
            2 <= n,
            n == calls.len(),
            i <= n - 1,
            out.len() == i,
            forall|j: int|
                0 <= j < i ==> (#[trigger] out@[j]).0@ == calls@[j]@ && out@[j].1@ == calls@[j
                    + 1]@,
        decreases n - 1 - i,
    {
        out.push((calls[i].clone(), calls[i + 1].clone()));
        i = i + 1;
    }
    out
}

} // verus!
