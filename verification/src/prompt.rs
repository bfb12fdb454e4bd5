//! The prompt handed to the LLM each round: an ordered combination of
//! distinct API names. The fuzz loop owns one prompt and replaces its
//! combination round by round.

use vstd::prelude::*;
use crate::strutil::distinct_strings;

verus! {

/// One round's prompt: the API combination the LLM is asked to exercise.
pub struct Prompt {
    /// The chosen APIs, in order, no name twice.
    pub combination: Vec<String>,
}

impl Prompt {
    /// A well-formed prompt never repeats an API.
    pub open spec fn wf(self) -> bool {
        distinct_strings(self.combination@)
    }

    /// A prompt over the given combination.
    pub fn from_combination(combination: Vec<String>) -> (r: Prompt)
        ensures
            r.combination == combination,
    {
        Prompt { combination }
    }

    /// Replace the combination wholesale.
    pub fn set_combination(&mut self, combination: Vec<String>)
        ensures
            final(self).combination == combination,
    {
        self.combination = combination;
    }

    /// How many APIs the current combination holds.
    pub fn combination_len(&self) -> (r: usize)
        ensures
            r == self.combination.len(),
    {
        self.combination.len()
    }
}

} // verus!
