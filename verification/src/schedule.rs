//! The feedback scheduler: owns the name-to-seed energy mapping, rebuilds it
//! from coverage and usage counters each round, reinforces it from newly
//! discovered API pairs, and takes the randomized policy decisions that
//! steer prompt construction.

use vstd::prelude::*;
use crate::energy::{COVERAGE_SCALE, Energy, Seed, sat64};
use crate::random::{prob_coin, rand_comb_len, sum_weights, uniform_index, weighted_choose};
use crate::strutil::{distinct_strings, str_eq};
use crate::config::DEFAULT_COMB_LEN;
use crate::prompt::Prompt;

verus! {

/// No two seeds of the sequence share a name.
pub open spec fn distinct_seed_names(s: Seq<Seed>) -> bool {
    forall|i: int, j: int| 0 <= i < s.len() && 0 <= j < s.len() && i != j ==> s[i].name@ != s[j].name@
}

/// The index of the first entry keyed `name` in an association list, or -1
/// when there is none.
pub open spec fn assoc_index_of(s: Seq<(String, u32)>, name: Seq<char>) -> int
    decreases s.len(),
{
    if s.len() == 0 {
        -1
    } else if s[0].0@ == name {
        0
    } else {
        let rest = assoc_index_of(s.drop_first(), name);
        if rest < 0 {
            -1
        } else {
            1 + rest
        }
    }
}

/// `assoc_index_of` is exactly the first matching index.
pub proof fn lemma_assoc_index_of(s: Seq<(String, u32)>, name: Seq<char>)
    ensures
        assoc_index_of(s, name) == -1 ==> (forall|i: int| 0 <= i < s.len() ==> s[i].0@ != name),
        assoc_index_of(s, name) != -1 ==> {
            let idx = assoc_index_of(s, name);
            &&& 0 <= idx < s.len()
            &&& s[idx].0@ == name
            &&& forall|j: int| 0 <= j < idx ==> s[j].0@ != name
        },
    decreases s.len(),
{
    if s.len() == 0 {
    } else if s[0].0@ == name {
    } else {
        let rest = s.drop_first();
        lemma_assoc_index_of(rest, name);
        assert(forall|j: int| 1 <= j < s.len() ==> (#[trigger] s[j]).0@ == rest[j - 1].0@);
    }
}

/// The value bound to `name` in an association list, first match wins.
pub open spec fn assoc_find(s: Seq<(String, u32)>, name: Seq<char>) -> Option<u32> {
    let idx = assoc_index_of(s, name);
    if idx < 0 {
        None
    } else {
        Some(s[idx].1)
    }
}

/// The value bound to `name`, or zero when the list does not know the name.
pub open spec fn assoc_find_or_zero(s: Seq<(String, u32)>, name: Seq<char>) -> u32 {
    match assoc_find(s, name) {
        Some(v) => v,
        None => 0,
    }
}

/// The index of the first seed named `name`, or -1 when there is none.
pub open spec fn seed_index_of(s: Seq<Seed>, name: Seq<char>) -> int
    decreases s.len(),
{
    if s.len() == 0 {
        -1
    } else if s[0].name@ == name {
        0
    } else {
        let rest = seed_index_of(s.drop_first(), name);
        if rest < 0 {
            -1
        } else {
            1 + rest
        }
    }
}

/// `seed_index_of` is exactly the first matching index.
pub proof fn lemma_seed_index_of(s: Seq<Seed>, name: Seq<char>)
    ensures
        seed_index_of(s, name) == -1 ==> (forall|i: int| 0 <= i < s.len() ==> s[i].name@ != name),
        seed_index_of(s, name) != -1 ==> {
            let idx = seed_index_of(s, name);
            &&& 0 <= idx < s.len()
            &&& s[idx].name@ == name
            &&& forall|j: int| 0 <= j < idx ==> s[j].name@ != name
        },
    decreases s.len(),
{
    if s.len() == 0 {
    } else if s[0].name@ == name {
    } else {
        let rest = s.drop_first();
        lemma_seed_index_of(rest, name);
        assert(forall|j: int|
            1 <= j < s.len() ==> (#[trigger] s[j]).name@ == rest[j - 1].name@);
    }
}

/// The scheduler: the seed table, the power-schedule exponent, the API
/// catalog, and the durable usage counters it is rebuilt from.
pub struct Schedule {
    /// One seed per scheduled artifact, names distinct.
    pub seeds: Vec<Seed>,
    /// Exponent of the power-schedule denominator.
    pub exponent: u32,
    /// The names of the library's exported APIs, in catalog order.
    pub catalog: Vec<String>,
    /// How often each API was executed, keyed by name.
    pub exec_counter: Vec<(String, u32)>,
    /// How often each API appeared in a prompt, keyed by name.
    pub prompt_counter: Vec<(String, u32)>,
}

impl Default for Schedule {
    /// A scheduler over an empty catalog.
    fn default() -> (r: Schedule)
        ensures
            r.seeds@ =~= Seq::<Seed>::empty(),
            r.exponent == 1,
            r.catalog@ =~= Seq::<String>::empty(),
            r.wf(),
    {
        Schedule::new(Vec::new())
    }
}

impl Schedule {
    /// Well-formed: every seed is, and no name is scheduled twice.
    pub open spec fn wf(self) -> bool {
        &&& forall|i: int| 0 <= i < self.seeds.len() ==> (#[trigger] self.seeds[i]).wf()
        &&& distinct_seed_names(self.seeds@)
        &&& distinct_strings(self.catalog@)
    }

    /// A fresh scheduler over the given API catalog, with no seeds yet and
    /// the default exponent of one.
    pub fn new(catalog: Vec<String>) -> (r: Schedule)
        requires
            distinct_strings(catalog@),
        ensures
            r.seeds@ =~= Seq::<Seed>::empty(),
            r.exponent == 1,
            r.catalog == catalog,
            r.exec_counter@ =~= Seq::<(String, u32)>::empty(),
            r.prompt_counter@ =~= Seq::<(String, u32)>::empty(),
            r.wf(),
    {
        Schedule {
            seeds: Vec::new(),
            exponent: 1,
            catalog,
            exec_counter: Vec::new(),
            prompt_counter: Vec::new(),
        }
    }

    /// The next-prompt choice of driver mode, with the round's API coverage
    /// supplied by the caller's observer: rebuild all energies, then either
    /// leave the prompt to a deterministic line-mutation (returning true)
    /// or install a fresh energy-weighted combination.
    pub fn mutate_prompt(
        &mut self,
        api_coverage: &Vec<(String, u32)>,
        prompt: &mut Prompt,
        corpus_size: usize,
    ) -> (deterministic: bool)
        requires
            old(self).wf(),
            forall|i: int|
                0 <= i < old(self).catalog.len() ==> assoc_find(
                    api_coverage@,
                    (#[trigger] old(self).catalog@[i])@,
                ) is Some,
            forall|j: int| 0 <= j < api_coverage.len() ==> (#[trigger] api_coverage@[j]).1
                <= COVERAGE_SCALE,
            old(self).catalog.len() >= DEFAULT_COMB_LEN,
        ensures
            final(self).wf(),
            final(self).seeds.len() == old(self).catalog.len(),
            final(self).catalog == old(self).catalog,
            deterministic ==> *final(prompt) == *old(prompt),
            !deterministic ==> {
                &&& 1 <= final(prompt).combination.len() <= DEFAULT_COMB_LEN
                &&& final(prompt).wf()
            },
    {
        self.update_energies(api_coverage);
        self.update_prompt(prompt, corpus_size)
    }

    /// The first seed with the given name, if any is scheduled.
    pub fn get_seed_by_name<'a>(&'a self, name: &str) -> (r: Option<&'a Seed>)
        ensures
            match r {
                Some(seed) => {
                    let idx = seed_index_of(self.seeds@, name@);
                    &&& idx >= 0
                    &&& *seed == self.seeds@[idx]
                    &&& seed.name@ == name@
                },
                None => forall|i: int|
                    0 <= i < self.seeds.len() ==> self.seeds@[i].name@ != name@,
            },
    {
        let n: usize = self.seeds.len();
        let mut i: usize = 0;
        while i < n
            invariant
                i <= n,
                n == self.seeds.len(),
                forall|j: int| 0 <= j < i ==> self.seeds@[j].name@ != name@,
            decreases n - i,
        {
            if str_eq(self.seeds[i].name.as_str(), name) {
                proof {
                    lemma_seed_index_of(self.seeds@, name@);
                }
                return Some(&self.seeds[i]);
            }
            i = i + 1;
        }
        None
    }

    /// Install the usage counters recovered from durable logs, replacing
    /// whatever counters the scheduler held.
    pub fn snyc_from_str(
        &mut self,
        exec_counter: Vec<(String, u32)>,
        prompt_counter: Vec<(String, u32)>,
    )
        ensures
            final(self).exec_counter == exec_counter,
            final(self).prompt_counter == prompt_counter,
            final(self).seeds == old(self).seeds,
            final(self).exponent == old(self).exponent,
            final(self).catalog == old(self).catalog,
    {
        self.exec_counter = exec_counter;
        self.prompt_counter = prompt_counter;
    }

    /// Rebuild the seed table for API-combination mode: one seed per catalog
    /// entry, every counter unused, every energy the base value one.
    pub fn initialize_energies_for_api_mode(&mut self)
        requires
            old(self).wf(),
        ensures
            final(self).seeds.len() == old(self).catalog.len(),
            forall|i: int|
                0 <= i < final(self).seeds.len() ==> {
                    &&& (#[trigger] final(self).seeds@[i]).name@ == old(self).catalog@[i]@
                    &&& final(self).seeds@[i].energy == (Energy { num: 1, den: 1 })
                },
            final(self).exponent == old(self).exponent,
            final(self).catalog == old(self).catalog,
            final(self).exec_counter == old(self).exec_counter,
            final(self).prompt_counter == old(self).prompt_counter,
            final(self).wf(),
    {
        let n: usize = self.catalog.len();
        let mut seeds: Vec<Seed> = Vec::new();
        let mut i: usize = 0;
        while i < n
            invariant
                i <= n,
                n == self.catalog.len(),
                seeds.len() == i,
                forall|j: int|
                    0 <= j < i ==> {
                        &&& (#[trigger] seeds@[j]).name@ == self.catalog@[j]@
                        &&& seeds@[j].energy == (Energy { num: 1, den: 1 })
                        &&& seeds@[j].wf()
                    },
            decreases n - i,
        {
            let seed = Seed::new_for_api_mode(self.catalog[i].as_str());
            seeds.push(seed);
            i = i + 1;
        }
        self.seeds = seeds;
    }

    /// Whether the current prompt should be abandoned early: the success
    /// ratio has fallen under one in ten, or ten programs failed before any
    /// success at all.
    pub fn should_shuffle(&self, succ: usize, total: usize) -> (r: bool)
        ensures
            r == if succ == 0 {
                total >= 10
            } else {
                (succ as int) * 10 < total as int
            },
    {
        if succ == 0 && total >= 10 {
            return true;
        }
        if succ == 0 && total < 10 {
            return false;
        }
        if ((succ as u128) * 10) < (total as u128) {
            return true;
        }
        false
    }

    /// Weighted coin for corpus deletion. The caller supplies the deletion
    /// probability `1 - sigmoid(success rate; threshold 0.1, steepness 10)`
    /// in parts per million; the smooth sigmoid itself is evaluated outside
    /// the verified core, in floating point.
    pub fn should_delete(&self, delete_prob_ppm: u32) -> (r: bool)
        ensures
            delete_prob_ppm == 0 ==> !r,
            delete_prob_ppm >= COVERAGE_SCALE ==> r,
    {
        prob_coin(delete_prob_ppm)
    }

    /// Rebuild the whole seed table from the catalog, the supplied coverage
    /// map, and the stored usage counters. A catalog entry without a
    /// coverage value would be a catalog/state desync, which is ruled out up
    /// front rather than tolerated.
    pub fn update_energies(&mut self, api_coverage: &Vec<(String, u32)>)
        requires
            old(self).wf(),
            forall|i: int|
                0 <= i < old(self).catalog.len() ==> assoc_find(
                    api_coverage@,
                    (#[trigger] old(self).catalog@[i])@,
                ) is Some,
            forall|j: int| 0 <= j < api_coverage.len() ==> (#[trigger] api_coverage@[j]).1
                <= COVERAGE_SCALE,
        ensures
            final(self).seeds.len() == old(self).catalog.len(),
            forall|i: int|
                0 <= i < final(self).seeds.len() ==> {
                    let name = old(self).catalog@[i]@;
                    &&& (#[trigger] final(self).seeds@[i]).name@ == name
                    &&& final(self).seeds@[i].coverage == assoc_find(
                        api_coverage@,
                        name,
                    ).unwrap()
                    &&& final(self).seeds@[i].exec_count == assoc_find_or_zero(
                        old(self).exec_counter@,
                        name,
                    )
                    &&& final(self).seeds@[i].prompt_count == assoc_find_or_zero(
                        old(self).prompt_counter@,
                        name,
                    )
                    &&& final(self).seeds@[i].energy == Seed::scheduled_energy(
                        final(self).seeds@[i].coverage as nat,
                        final(self).seeds@[i].exec_count as nat,
                        final(self).seeds@[i].prompt_count as nat,
                        old(self).exponent as nat,
                    )
                },
            final(self).exponent == old(self).exponent,
            final(self).catalog == old(self).catalog,
            final(self).exec_counter == old(self).exec_counter,
            final(self).prompt_counter == old(self).prompt_counter,
            final(self).wf(),
    {
        let n: usize = self.catalog.len();
        let mut seeds: Vec<Seed> = Vec::new();
        let mut i: usize = 0;
        while i < n
            invariant
                i <= n,
                n == self.catalog.len(),
                *self == *old(self),
                old(self).wf(),
                forall|k: int|
                    0 <= k < self.catalog.len() ==> assoc_find(
                        api_coverage@,
                        (#[trigger] self.catalog@[k])@,
                    ) is Some,
                forall|j: int| 0 <= j < api_coverage.len() ==> (#[trigger] api_coverage@[j]).1
                    <= COVERAGE_SCALE,
                seeds.len() == i,
                forall|k: int|
                    0 <= k < i ==> {
                        let name = self.catalog@[k]@;
                        &&& (#[trigger] seeds@[k]).name@ == name
                        &&& seeds@[k].coverage == assoc_find(api_coverage@, name).unwrap()
                        &&& seeds@[k].exec_count == assoc_find_or_zero(
                            self.exec_counter@,
                            name,
                        )
                        &&& seeds@[k].prompt_count == assoc_find_or_zero(
                            self.prompt_counter@,
                            name,
                        )
                        &&& seeds@[k].energy == Seed::scheduled_energy(
                            seeds@[k].coverage as nat,
                            seeds@[k].exec_count as nat,
                            seeds@[k].prompt_count as nat,
                            self.exponent as nat,
                        )
                        &&& seeds@[k].wf()
                    },
            decreases n - i,
        {
            proof {
                lemma_assoc_index_of(api_coverage@, self.catalog@[i as int]@);
            }
            let coverage: u32 = match assoc_lookup(api_coverage, self.catalog[i].as_str()) {
                Some(v) => v,
                None => {
                    proof {
                        assert(false);
                    }
                    0
                },
            };
            let exec_count: u32 = assoc_lookup_or_zero(
                &self.exec_counter,
                self.catalog[i].as_str(),
            );
            let prompt_count: u32 = assoc_lookup_or_zero(
                &self.prompt_counter,
                self.catalog[i].as_str(),
            );
            let seed = Seed::new(
                self.catalog[i].as_str(),
                coverage,
                exec_count,
                prompt_count,
                self.exponent,
            );
            seeds.push(seed);
            i = i + 1;
        }
        self.seeds = seeds;
    }
}

/// `seed` with its energy raised by one (numerator clamped on overflow).
pub open spec fn bumped(seed: Seed) -> Seed {
    Seed {
        energy: Energy { num: sat64(seed.energy.num as int + seed.energy.den as int), den: seed.energy.den },
        ..seed
    }
}

/// Raise by one the energy of the first seed named `name`; without such a
/// seed the table is unchanged.
pub open spec fn reinforce_one(s: Seq<Seed>, name: Seq<char>) -> Seq<Seed> {
    let idx = seed_index_of(s, name);
    if idx < 0 {
        s
    } else {
        s.update(idx, bumped(s[idx]))
    }
}

/// Apply `reinforce_one` for the caller and then the callee of every pair,
/// in order.
pub open spec fn reinforce_pairs(s: Seq<Seed>, pairs: Seq<(String, String)>) -> Seq<Seed>
    decreases pairs.len(),
{
    if pairs.len() == 0 {
        s
    } else {
        let prev = reinforce_pairs(s, pairs.drop_last());
        reinforce_one(reinforce_one(prev, pairs.last().0@), pairs.last().1@)
    }
}

/// Reinforcement never renames, reorders, or shrinks: every seed keeps its
/// name, counters and denominator, and its energy numerator never drops.
pub proof fn lemma_reinforce_pairs_preserves(s: Seq<Seed>, pairs: Seq<(String, String)>)
    ensures
        reinforce_pairs(s, pairs).len() == s.len(),
        forall|i: int|
            0 <= i < s.len() ==> {
                let t = #[trigger] reinforce_pairs(s, pairs)[i];
                &&& t.name@ == s[i].name@
                &&& t.coverage == s[i].coverage
                &&& t.exec_count == s[i].exec_count
                &&& t.prompt_count == s[i].prompt_count
                &&& t.energy.den == s[i].energy.den
                &&& t.energy.num >= s[i].energy.num
            },
    decreases pairs.len(),
{
    if pairs.len() == 0 {
    } else {
        lemma_reinforce_pairs_preserves(s, pairs.drop_last());
        let prev = reinforce_pairs(s, pairs.drop_last());
        lemma_seed_index_of(prev, pairs.last().0@);
        let mid = reinforce_one(prev, pairs.last().0@);
        lemma_seed_index_of(mid, pairs.last().1@);
    }
}

impl Schedule {
    /// Additive reinforcement from newly observed API pairs: both members of
    /// every pair gain one energy; an empty set is a no-op.
    pub fn update_energies_from_api_pairs(&mut self, api_pairs: &Vec<(String, String)>)
        requires
            old(self).wf(),
        ensures
            final(self).seeds@ == reinforce_pairs(old(self).seeds@, api_pairs@),
            api_pairs.len() == 0 ==> final(self).seeds@ == old(self).seeds@,
            final(self).exponent == old(self).exponent,
            final(self).catalog == old(self).catalog,
            final(self).exec_counter == old(self).exec_counter,
            final(self).prompt_counter == old(self).prompt_counter,
            final(self).wf(),
    {
        let ghost s0 = self.seeds@;
        if api_pairs.is_empty() {
            return;
        }
        let n: usize = api_pairs.len();
        let mut k: usize = 0;
        while k < n
            invariant
                k <= n,
                n == api_pairs.len(),
                self.seeds@ == reinforce_pairs(s0, api_pairs@.take(k as int)),
                self.exponent == old(self).exponent,
                self.catalog == old(self).catalog,
                self.exec_counter == old(self).exec_counter,
                self.prompt_counter == old(self).prompt_counter,
            decreases n - k,
        {
            proof {
                assert(api_pairs@.take(k as int + 1).drop_last() =~= api_pairs@.take(k as int));
            }
            reinforce_name(&mut self.seeds, api_pairs[k].0.as_str());
            reinforce_name(&mut self.seeds, api_pairs[k].1.as_str());
            k = k + 1;
        }
        proof {
            assert(api_pairs@.take(n as int) =~= api_pairs@);
            lemma_reinforce_pairs_preserves(s0, api_pairs@);
            assert forall|i: int| 0 <= i < self.seeds.len() implies (
            #[trigger] self.seeds[i]).wf() by {
                assert(old(self).seeds[i].wf());
            }
        }
    }
}

/// Raise by one the energy of the first seed named `name`, if any.
pub fn reinforce_name(seeds: &mut Vec<Seed>, name: &str)
    ensures
        final(seeds)@ == reinforce_one(old(seeds)@, name@),
{
    proof {
        lemma_seed_index_of(seeds@, name@);
    }
    let n: usize = seeds.len();
    let mut i: usize = 0;
    while i < n
        invariant
            i <= n,
            n == seeds.len(),
            *seeds == *old(seeds),
            forall|j: int| 0 <= j < i ==> (#[trigger] seeds@[j]).name@ != name@,
        decreases n - i,
    {
        if str_eq(seeds[i].name.as_str(), name) {
            proof {
                lemma_seed_index_of(seeds@, name@);
            }
            seeds[i].reinforce();
            return;
        }
        i = i + 1;
    }
}

/// The value bound to `name` in the association table, if any.
pub fn assoc_lookup(table: &Vec<(String, u32)>, name: &str) -> (r: Option<u32>)
    ensures
        r == assoc_find(table@, name@),
{
    proof {
        lemma_assoc_index_of(table@, name@);
    }
    let n: usize = table.len();
    let mut i: usize = 0;
    while i < n
        invariant
            i <= n,
            n == table.len(),
            forall|j: int| 0 <= j < i ==> (#[trigger] table@[j]).0@ != name@,
        decreases n - i,
    {
        if str_eq(table[i].0.as_str(), name) {
            proof {
                lemma_assoc_index_of(table@, name@);
            }
            return Some(table[i].1);
        }
        i = i + 1;
    }
    None
}

/// The value bound to `name`, or zero when the table does not know it.
pub fn assoc_lookup_or_zero(table: &Vec<(String, u32)>, name: &str) -> (r: u32)
    ensures
        r == assoc_find_or_zero(table@, name@),
{
    match assoc_lookup(table, name) {
        Some(v) => v,
        None => 0,
    }
}

/// Whether `x` is the name of some seed of the table.
pub open spec fn name_in_seeds(seeds: Seq<Seed>, x: Seq<char>) -> bool {
    exists|j: int| 0 <= j < seeds.len() && (#[trigger] seeds[j]).name@ == x
}

/// Whether `x` occurs among the strings of `comb`.
pub open spec fn name_in_list(comb: Seq<String>, x: Seq<char>) -> bool {
    exists|i: int| 0 <= i < comb.len() && (#[trigger] comb[i])@ == x
}

/// Appending never removes a name, and makes the appended name present.
pub proof fn lemma_name_in_list_push(comb: Seq<String>, s: String, x: Seq<char>)
    ensures
        name_in_list(comb, x) ==> name_in_list(comb.push(s), x),
        s@ == x ==> name_in_list(comb.push(s), x),
{
    if name_in_list(comb, x) {
        let i = choose|i: int| 0 <= i < comb.len() && (#[trigger] comb[i])@ == x;
        assert(comb.push(s)[i]@ == x);
    }
    if s@ == x {
        assert(comb.push(s)[comb.len() as int]@ == x);
    }
}

/// Whether some string of `v` equals `name`.
pub fn contains_name(v: &Vec<String>, name: &str) -> (r: bool)
    ensures
        r == name_in_list(v@, name@),
{
    let n: usize = v.len();
    let mut i: usize = 0;
    while i < n
        invariant
            i <= n,
            n == v.len(),
            forall|j: int| 0 <= j < i ==> (#[trigger] v@[j])@ != name@,
        decreases n - i,
    {
        if str_eq(v[i].as_str(), name) {
            return true;
        }
        i = i + 1;
    }
    false
}

/// A duplicate-free list whose strings all occur in another duplicate-free
/// list is no longer than that list.
pub proof fn lemma_list_covers_list(names: Seq<String>, comb: Seq<String>)
    requires
        distinct_strings(names),
        distinct_strings(comb),
        forall|k: int| 0 <= k < names.len() ==> name_in_list(comb, (#[trigger] names[k])@),
    ensures
        comb.len() >= names.len(),
{
    broadcast use vstd::set::group_set_axioms;

    let nv = names.map_values(|s: String| s@);
    let cv = comb.map_values(|s: String| s@);
    assert(nv.no_duplicates());
    assert(cv.no_duplicates());
    nv.unique_seq_to_set();
    cv.unique_seq_to_set();
    assert forall|x: Seq<char>| nv.to_set().contains(x) implies cv.to_set().contains(x) by {
        let k = choose|k: int| 0 <= k < nv.len() && nv[k] == x;
        assert(names[k]@ == x);
        let i = choose|i: int| 0 <= i < comb.len() && (#[trigger] comb[i])@ == x;
        assert(cv[i] == x);
        assert(cv.contains(x));
    }
    vstd::seq_lib::seq_to_set_is_finite(cv);
    vstd::set_lib::lemma_len_subset(nv.to_set(), cv.to_set());
}

/// Complete a partial combination to `len` distinct names by a
/// deterministic scan of `names`: the full length is always reached.
pub fn complete_from_names(names: &Vec<String>, comb: &mut Vec<String>, len: usize)
    requires
        distinct_strings(names@),
        len <= names.len(),
        old(comb).len() <= len,
        distinct_strings(old(comb)@),
        forall|i: int| 0 <= i < old(comb).len() ==> name_in_list(
            names@,
            (#[trigger] old(comb)@[i])@,
        ),
    ensures
        final(comb).len() == len,
        distinct_strings(final(comb)@),
        forall|i: int| 0 <= i < final(comb).len() ==> name_in_list(
            names@,
            (#[trigger] final(comb)@[i])@,
        ),
{
    let n: usize = names.len();
    let mut j: usize = 0;
    while j < n
        invariant
            j <= n,
            n == names.len(),
            distinct_strings(names@),
            len <= names.len(),
            comb.len() <= len,
            distinct_strings(comb@),
            forall|i: int| 0 <= i < comb.len() ==> name_in_list(
                names@,
                (#[trigger] comb@[i])@,
            ),
            comb.len() < len ==> forall|k: int|
                0 <= k < j ==> name_in_list(comb@, (#[trigger] names@[k])@),
        decreases n - j,
    {
        let ghost pre = comb@;
        let mut pushed: bool = false;
        if comb.len() < len {
            if !contains_name(comb, names[j].as_str()) {
                comb.push(names[j].clone());
                pushed = true;
            }
        }
        proof {
            if pushed {
                assert(comb@ == pre.push(names@[j as int]));
                assert forall|i: int|
                    0 <= i < comb@.len() implies name_in_list(
                    names@,
                    (#[trigger] comb@[i])@,
                ) by {
                    if i < pre.len() {
                        assert(comb@[i] == pre[i]);
                    } else {
                        assert(comb@[i] == names@[j as int]);
                        assert(names@[j as int]@ == comb@[i]@);
                    }
                }
                assert forall|i2: int, j2: int|
                    0 <= i2 < comb@.len() && 0 <= j2 < comb@.len() && i2 != j2 implies comb@[
                    i2
                ]@ != comb@[j2]@ by {
                    if i2 < pre.len() && j2 < pre.len() {
                        assert(comb@[i2] == pre[i2] && comb@[j2] == pre[j2]);
                    } else if i2 < pre.len() {
                        assert(comb@[i2] == pre[i2] && comb@[j2]@ == names@[j as int]@);
                        assert(!name_in_list(pre, names@[j as int]@));
                    } else {
                        assert(comb@[j2] == pre[j2] && comb@[i2]@ == names@[j as int]@);
                        assert(!name_in_list(pre, names@[j as int]@));
                    }
                }
            }
            if comb@.len() < len {
                assert forall|k: int|
                    0 <= k < j + 1 implies name_in_list(
                    comb@,
                    (#[trigger] names@[k])@,
                ) by {
                    if pushed {
                        if k < j {
                            lemma_name_in_list_push(pre, names@[j as int], names@[k]@);
                        } else {
                            lemma_name_in_list_push(
                                pre,
                                names@[j as int],
                                names@[j as int]@,
                            );
                        }
                    }
                }
            }
        }
        j = j + 1;
    }
    proof {
        if comb.len() < len {
            lemma_list_covers_list(names@, comb@);
        }
    }
}

/// A uniformly random combination of `len` distinct catalog names, drawn
/// without regard to energy. When the draws stall, the combination is
/// completed deterministically, so the full length is always reached.
pub fn rand_choose_combination(catalog: &Vec<String>, len: usize) -> (r: Vec<String>)
    requires
        distinct_strings(catalog@),
        len <= catalog.len(),
    ensures
        r.len() == len,
        distinct_strings(r@),
        forall|i: int| 0 <= i < r.len() ==> name_in_list(catalog@, (#[trigger] r@[i])@),
{
    let mut comb: Vec<String> = Vec::new();
    if len == 0 {
        return comb;
    }
    let mut attempts: usize = 0;
    let max_attempts: usize = 4096;
    while comb.len() < len && attempts < max_attempts
        invariant
            distinct_strings(catalog@),
            len <= catalog.len(),
            comb.len() <= len,
            distinct_strings(comb@),
            forall|i: int| 0 <= i < comb.len() ==> name_in_list(
                catalog@,
                (#[trigger] comb@[i])@,
            ),
        decreases max_attempts - attempts,
    {
        let idx: usize = uniform_index(catalog.len());
        if !contains_name(&comb, catalog[idx].as_str()) {
            let ghost pre = comb@;
            comb.push(catalog[idx].clone());
            proof {
                assert forall|i: int|
                    0 <= i < comb@.len() implies name_in_list(
                    catalog@,
                    (#[trigger] comb@[i])@,
                ) by {
                    if i < pre.len() {
                        assert(comb@[i] == pre[i]);
                    } else {
                        assert(comb@[i] == catalog@[idx as int]);
                        assert(catalog@[idx as int]@ == comb@[i]@);
                    }
                }
                assert forall|i2: int, j2: int|
                    0 <= i2 < comb@.len() && 0 <= j2 < comb@.len() && i2 != j2 implies comb@[
                    i2
                ]@ != comb@[j2]@ by {
                    if i2 < pre.len() && j2 < pre.len() {
                        assert(comb@[i2] == pre[i2] && comb@[j2] == pre[j2]);
                    } else if i2 < pre.len() {
                        assert(comb@[i2] == pre[i2] && comb@[j2]@ == catalog@[idx as int]@);
                        assert(!name_in_list(pre, catalog@[idx as int]@));
                    } else {
                        assert(comb@[j2] == pre[j2] && comb@[i2]@ == catalog@[idx as int]@);
                        assert(!name_in_list(pre, catalog@[idx as int]@));
                    }
                }
            }
        }
        attempts = attempts + 1;
    }
    complete_from_names(catalog, &mut comb, len);
    comb
}

/// The deterministic-mutation probability for a corpus of the given size,
/// in parts per million: `min(size / 100, 0.8)`.
pub open spec fn mutate_prob_ppm(corpus_size: nat) -> nat {
    if corpus_size * 10000 < 800000 {
        corpus_size * 10000
    } else {
        800000
    }
}

/// The deterministic-mutation probability never decreases with corpus size
/// and is capped at eight tenths.
pub proof fn lemma_mutate_prob_monotone(a: nat, b: nat)
    requires
        a <= b,
    ensures
        mutate_prob_ppm(a) <= mutate_prob_ppm(b),
        mutate_prob_ppm(b) <= 800000,
{
    vstd::arithmetic::mul::lemma_mul_inequality(a as int, b as int, 10000);
}

/// The deterministic-mutation probability, computed.
pub fn mutate_prob_ppm_exec(corpus_size: usize) -> (r: u32)
    ensures
        r == mutate_prob_ppm(corpus_size as nat),
{
    if corpus_size >= 80 {
        800000
    } else {
        (corpus_size as u32) * 10000
    }
}

/// A weighted coin for choosing deterministic mutation over fresh assembly:
/// fires with probability `min(corpus_size / 100, 0.8)`, so never on an
/// empty corpus.
pub fn should_deterministic_mutate(corpus_size: usize) -> (r: bool)
    ensures
        corpus_size == 0 ==> !r,
{
    let prob: u32 = mutate_prob_ppm_exec(corpus_size);
    prob_coin(prob)
}

/// Fixed-point scale used to turn a rational energy into a selection weight.
pub const ENERGY_WEIGHT_SCALE: u64 = 0x100000000;

/// The selection weight of an energy: its value in units of
/// `1 / ENERGY_WEIGHT_SCALE`, rounded down. A zero energy always weighs
/// zero.
pub open spec fn energy_weight(e: Energy) -> u64 {
    if e.den == 0 {
        0
    } else {
        (sat64((e.num as int) * (ENERGY_WEIGHT_SCALE as int)) as int / e.den as int) as u64
    }
}

/// The selection weights of a seed table.
pub open spec fn weights_of(seeds: Seq<Seed>) -> Seq<u64> {
    seeds.map_values(|s: Seed| energy_weight(s.energy))
}

/// The selection weight of an energy, computed.
pub fn energy_weight_exec(e: Energy) -> (r: u64)
    ensures
        r == energy_weight(e),
{
    if e.den == 0 {
        0
    } else {
        crate::energy::sat_mul_u64(e.num, ENERGY_WEIGHT_SCALE) / e.den
    }
}

/// A positively weighted energy is nonzero.
pub proof fn lemma_weight_pos_energy_pos(e: Energy)
    requires
        energy_weight(e) > 0,
    ensures
        !e.is_zero(),
{
    if e.num == 0 {
        assert((0 as int) * (ENERGY_WEIGHT_SCALE as int) == 0);
    }
}

impl Schedule {
    /// One energy-weighted draw over the seed table, by index. Whenever any
    /// seed has positive selection weight, a zero-energy seed is never
    /// drawn; when all weights are zero the draw falls back to a uniform
    /// choice.
    pub fn choose_index_by_energy(&self) -> (i: usize)
        requires
            self.seeds.len() > 0,
        ensures
            i < self.seeds.len(),
            sum_weights(weights_of(self.seeds@)) > 0 ==> energy_weight(
                self.seeds@[i as int].energy,
            ) > 0 && !self.seeds@[i as int].energy.is_zero(),
    {
        let n: usize = self.seeds.len();
        let mut ws: Vec<u64> = Vec::new();
        let mut j: usize = 0;
        while j < n
            invariant
                j <= n,
                n == self.seeds.len(),
                ws.len() == j,
                forall|k: int| 0 <= k < j ==> ws@[k] == energy_weight(
                    (#[trigger] self.seeds@[k]).energy,
                ),
            decreases n - j,
        {
            let w: u64 = energy_weight_exec(self.seeds[j].energy);
            ws.push(w);
            j = j + 1;
        }
        proof {
            assert(ws@ =~= weights_of(self.seeds@));
        }
        let i: usize = weighted_choose(&ws);
        proof {
            if sum_weights(weights_of(self.seeds@)) > 0 {
                lemma_weight_pos_energy_pos(self.seeds@[i as int].energy);
            }
        }
        i
    }

    /// One energy-weighted draw over the seed table, by name.
    pub fn choose_api_by_energy<'a>(&'a self) -> (r: &'a str)
        requires
            self.seeds.len() > 0,
        ensures
            exists|i: int|
                0 <= i < self.seeds.len() && r@ == (#[trigger] self.seeds@[i]).name@ && (
                sum_weights(weights_of(self.seeds@)) > 0 ==> !self.seeds@[i].energy.is_zero()),
    {
        let i: usize = self.choose_index_by_energy();
        let r: &str = self.seeds[i].name.as_str();
        proof {
            assert(0 <= (i as int) && (i as int) < self.seeds.len() && r@ == self.seeds@[
                i as int
            ].name@ && (sum_weights(weights_of(self.seeds@)) > 0 ==> !self.seeds@[
                i as int
            ].energy.is_zero()));
        }
        r
    }

    /// Assemble a combination of `len` distinct scheduled API names by
    /// repeated energy-weighted draws, rejecting names already chosen. When
    /// the draws stall, the combination is completed deterministically from
    /// the seed table, so the full length is always reached.
    pub fn assemble_high_energy_combiantion(&self, len: usize) -> (r: Vec<String>)
        requires
            self.wf(),
            len <= self.seeds.len(),
        ensures
            r.len() == len,
            distinct_strings(r@),
            forall|i: int| 0 <= i < r.len() ==> name_in_seeds(self.seeds@, (#[trigger] r@[i])@),
    {
        let mut comb: Vec<String> = Vec::new();
        if len == 0 {
            return comb;
        }
        let mut attempts: usize = 0;
        let max_attempts: usize = 4096;
        while comb.len() < len && attempts < max_attempts
            invariant
                self.wf(),
                len <= self.seeds.len(),
                comb.len() <= len,
                distinct_strings(comb@),
                forall|i: int|
                    0 <= i < comb.len() ==> name_in_seeds(self.seeds@, (#[trigger] comb@[i])@),
            decreases max_attempts - attempts,
        {
            let api: &str = self.choose_api_by_energy();
            if !contains_name(&comb, api) {
                let ghost pre = comb@;
                comb.push(api.to_owned());
                proof {
                    assert forall|i: int|
                        0 <= i < comb@.len() implies name_in_seeds(
                        self.seeds@,
                        (#[trigger] comb@[i])@,
                    ) by {
                        if i < pre.len() {
                            assert(comb@[i] == pre[i]);
                        } else {
                            assert(comb@[i]@ == api@);
                            let w = choose|w: int|
                                0 <= w < self.seeds.len() && api@ == (
                                #[trigger] self.seeds@[w]).name@;
                            assert(self.seeds@[w].name@ == comb@[i]@);
                        }
                    }
                    assert forall|i: int, j: int|
                        0 <= i < comb@.len() && 0 <= j < comb@.len() && i != j implies comb@[i]@
                        != comb@[j]@ by {
                        if i < pre.len() && j < pre.len() {
                            assert(comb@[i] == pre[i] && comb@[j] == pre[j]);
                        } else if i < pre.len() {
                            assert(comb@[i] == pre[i] && comb@[j]@ == api@);
                            assert(!name_in_list(pre, api@));
                        } else {
                            assert(comb@[j] == pre[j] && comb@[i]@ == api@);
                            assert(!name_in_list(pre, api@));
                        }
                    }
                }
            }
            attempts = attempts + 1;
        }
        self.complete_combination(&mut comb, len);
        comb
    }

    /// Complete a partial combination to `len` distinct scheduled names by a
    /// deterministic scan of the seed table.
    fn complete_combination(&self, comb: &mut Vec<String>, len: usize)
        requires
            self.wf(),
            len <= self.seeds.len(),
            old(comb).len() <= len,
            distinct_strings(old(comb)@),
            forall|i: int|
                0 <= i < old(comb).len() ==> name_in_seeds(
                    self.seeds@,
                    (#[trigger] old(comb)@[i])@,
                ),
        ensures
            final(comb).len() == len,
            distinct_strings(final(comb)@),
            forall|i: int|
                0 <= i < final(comb).len() ==> name_in_seeds(
                    self.seeds@,
                    (#[trigger] final(comb)@[i])@,
                ),
    {
        let n: usize = self.seeds.len();
        let mut names: Vec<String> = Vec::new();
        let mut j: usize = 0;
        while j < n
            invariant
                j <= n,
                n == self.seeds.len(),
                names.len() == j,
                forall|k: int| 0 <= k < j ==> (#[trigger] names@[k])@ == self.seeds@[k].name@,
            decreases n - j,
        {
            names.push(self.seeds[j].name.clone());
            j = j + 1;
        }
        proof {
            assert forall|x: Seq<char>| name_in_list(names@, x) == name_in_seeds(
                self.seeds@,
                x,
            ) by {
                if name_in_list(names@, x) {
                    let i = choose|i: int| 0 <= i < names@.len() && (#[trigger] names@[i])@ == x;
                    assert(self.seeds@[i].name@ == x);
                }
                if name_in_seeds(self.seeds@, x) {
                    let i = choose|i: int|
                        0 <= i < self.seeds@.len() && (#[trigger] self.seeds@[i]).name@ == x;
                    assert(names@[i]@ == x);
                }
            }
            assert(distinct_strings(names@));
        }
        complete_from_names(&names, comb, len);
    }

    /// Choose the next prompt. A weighted coin, fired by corpus size,
    /// decides between a deterministic line-mutation of the current prompt
    /// (left to the caller, combination untouched) and a fresh
    /// energy-weighted assembly installed here.
    pub fn update_prompt(&self, prompt: &mut Prompt, corpus_size: usize) -> (deterministic: bool)
        requires
            self.wf(),
            DEFAULT_COMB_LEN <= self.seeds.len(),
        ensures
            deterministic ==> *final(prompt) == *old(prompt),
            deterministic ==> corpus_size > 0,
            !deterministic ==> {
                &&& 1 <= final(prompt).combination.len() <= DEFAULT_COMB_LEN
                &&& distinct_strings(final(prompt).combination@)
                &&& forall|i: int|
                    0 <= i < final(prompt).combination.len() ==> name_in_seeds(
                        self.seeds@,
                        (#[trigger] final(prompt).combination@[i])@,
                    )
                &&& final(prompt).wf()
            },
    {
        if should_deterministic_mutate(corpus_size) {
            true
        } else {
            let len: usize = rand_comb_len(DEFAULT_COMB_LEN);
            let comb: Vec<String> = self.assemble_high_energy_combiantion(len);
            prompt.set_combination(comb);
            false
        }
    }

    /// Choose the next prompt in API-combination mode: always a fresh
    /// energy-weighted assembly.
    pub fn update_prompt_for_api_mode(&self, prompt: &mut Prompt)
        requires
            self.wf(),
            DEFAULT_COMB_LEN <= self.seeds.len(),
        ensures
            1 <= final(prompt).combination.len() <= DEFAULT_COMB_LEN,
            distinct_strings(final(prompt).combination@),
            forall|i: int|
                0 <= i < final(prompt).combination.len() ==> name_in_seeds(
                    self.seeds@,
                    (#[trigger] final(prompt).combination@[i])@,
                ),
            final(prompt).wf(),
    {
        let len: usize = rand_comb_len(DEFAULT_COMB_LEN);
        let comb: Vec<String> = self.assemble_high_energy_combiantion(len);
        prompt.set_combination(comb);
    }

    /// An energy-weighted draw among the members of an existing combination,
    /// by position. Every member must be a scheduled seed: an unknown name
    /// would be a catalog/state desync.
    pub fn choose_low_energy_api(&self, combination: &Vec<String>) -> (r: usize)
        requires
            combination.len() > 0,
            forall|i: int|
                0 <= i < combination.len() ==> seed_index_of(
                    self.seeds@,
                    (#[trigger] combination@[i])@,
                ) >= 0,
        ensures
            r < combination.len(),
            sum_weights(combination_weights(self.seeds@, combination@)) > 0
                ==> combination_weights(self.seeds@, combination@)[r as int] > 0,
    {
        let n: usize = combination.len();
        let mut ws: Vec<u64> = Vec::new();
        let mut j: usize = 0;
        while j < n
            invariant
                j <= n,
                n == combination.len(),
                ws.len() == j,
                forall|k: int| 0 <= k < j ==> ws@[k] == combination_weights(
                    self.seeds@,
                    combination@,
                )[k],
                forall|i: int|
                    0 <= i < combination.len() ==> seed_index_of(
                        self.seeds@,
                        (#[trigger] combination@[i])@,
                    ) >= 0,
            decreases n - j,
        {
            proof {
                lemma_seed_index_of(self.seeds@, combination@[j as int]@);
            }
            let seed = match self.get_seed_by_name(combination[j].as_str()) {
                Some(seed) => seed,
                None => {
                    proof {
                        assert(false);
                    }
                    &self.seeds[0]
                },
            };
            let w: u64 = energy_weight_exec(seed.energy);
            ws.push(w);
            j = j + 1;
        }
        proof {
            assert(ws@ =~= combination_weights(self.seeds@, combination@));
        }
        weighted_choose(&ws)
    }
}

/// The selection weight each member of a combination carries: the weight of
/// its first scheduled seed, or zero for a name that is not scheduled.
pub open spec fn combination_weights(seeds: Seq<Seed>, comb: Seq<String>) -> Seq<u64> {
    comb.map_values(
        |name: String|
            {
                let idx = seed_index_of(seeds, name@);
                if idx >= 0 {
                    energy_weight(seeds[idx].energy)
                } else {
                    0u64
                }
            },
    )
}

} // verus!
