//! The round-based fuzz-loop core: the session state that survives across
//! rounds (scheduler, quiet-round counter, program ids, the discovered-pair
//! set), the per-round bookkeeping, and the decisions that steer the loop.
//! The blocking outside work of a round — LLM generation, validation,
//! compilation — is performed by the caller, which hands the outcomes back
//! to these functions.

use vstd::prelude::*;
use crate::config::GenerationModeP;
use crate::pairs::{
    DiscoveredPairSet, extract_2gram_pairs, lemma_pair_in_is_vp_in, pair_in, record_pairs_v,
    two_grams_v, view_pairs,
};
use crate::schedule::{Schedule, reinforce_pairs};
use crate::strutil::{dec_value, digit_run_len, find_at, find_sub, parse_usize_prefix, skip_spaces, space_run_len};

verus! {

/// Relies on tree-sitter with its C++ grammar: the callee texts of the
/// call expressions of a source text, in traversal order. The parse
/// depends on the source text alone, so its result carries a name.
pub uninterp spec fn calls_of(source: Seq<char>) -> Seq<Seq<char>>;

/// Relies on tree_sitter::Parser::parse with tree_sitter_cpp::LANGUAGE:
/// walks the parse tree of `source` and collects, for every call
/// expression, the text of its function child.
#[verifier::external_body]
pub fn extract_function_calls(source: &str) -> (r: Vec<String>)
    ensures
        r.deep_view() == calls_of(source@),
{
    let mut parser = tree_sitter::Parser::new();
    parser.set_language(&tree_sitter_cpp::LANGUAGE.into()).expect("failed to load C++ grammar");
    let tree = parser.parse(source, None).expect("failed to parse source");
    let mut calls: Vec<String> = Vec::new();
    let mut cursor = tree.root_node().walk();
    collect_calls_recursive(source, &mut cursor, &mut calls);
    calls
}

/// The cursor type of tree-sitter's parse trees, opaque to the verifier.
#[verifier::external_type_specification]
#[verifier::external_body]
pub struct ExTreeCursor<'a>(tree_sitter::TreeCursor<'a>);

/// Relies on tree-sitter's cursor traversal (goto_first_child,
/// goto_next_sibling, goto_parent, child_by_field_name, utf8_text); only
/// the wrapper above calls it.
#[verifier::external_body]
fn collect_calls_recursive(source: &str, cursor: &mut tree_sitter::TreeCursor, calls: &mut Vec<
    String,
>) {
    let node = cursor.node();
    if node.kind() == "call_expression" {
        if let Some(function_node) = node.child_by_field_name("function") {
            if let Ok(text) = function_node.utf8_text(source.as_bytes()) {
                calls.push(text.to_string());
            }
        }
    }
    if cursor.goto_first_child() {
        collect_calls_recursive(source, cursor, calls);
        while cursor.goto_next_sibling() {
            collect_calls_recursive(source, cursor, calls);
        }
        cursor.goto_parent();
    }
}

/// One candidate driver program: its id, assigned at acceptance time, and
/// its source text.
pub struct Program {
    /// Monotonically increasing id, unique within a session.
    pub id: usize,
    /// The program's source text.
    pub statements: String,
}

impl Program {
    /// A program with the given id and source text.
    pub fn new(id: usize, statements: String) -> (r: Program)
        ensures
            r.id == id,
            r.statements == statements,
    {
        Program { id, statements }
    }
}

/// Success and failure counts of generated programs, per round and global.
pub struct RoundCounter {
    /// Successes in the current round.
    pub rc_succ: usize,
    /// Programs checked in the current round.
    pub rc_total: usize,
    /// Successes over the whole session.
    pub gc_succ: usize,
    /// Programs checked over the whole session.
    pub gc_total: usize,
}

impl RoundCounter {
    /// All counts zero.
    pub fn new() -> (r: RoundCounter)
        ensures
            r.rc_succ == 0 && r.rc_total == 0 && r.gc_succ == 0 && r.gc_total == 0,
    {
        RoundCounter { rc_succ: 0, rc_total: 0, gc_succ: 0, gc_total: 0 }
    }

    /// Count one accepted program.
    pub fn log_succ(&mut self)
        requires
            old(self).rc_succ < usize::MAX,
            old(self).rc_total < usize::MAX,
            old(self).gc_succ < usize::MAX,
            old(self).gc_total < usize::MAX,
        ensures
            final(self).rc_succ == old(self).rc_succ + 1,
            final(self).rc_total == old(self).rc_total + 1,
            final(self).gc_succ == old(self).gc_succ + 1,
            final(self).gc_total == old(self).gc_total + 1,
    {
        self.rc_succ = self.rc_succ + 1;
        self.rc_total = self.rc_total + 1;
        self.gc_succ = self.gc_succ + 1;
        self.gc_total = self.gc_total + 1;
    }

    /// Count one rejected program.
    pub fn log_err(&mut self)
        requires
            old(self).rc_total < usize::MAX,
            old(self).gc_total < usize::MAX,
        ensures
            final(self).rc_succ == old(self).rc_succ,
            final(self).rc_total == old(self).rc_total + 1,
            final(self).gc_succ == old(self).gc_succ,
            final(self).gc_total == old(self).gc_total + 1,
    {
        self.rc_total = self.rc_total + 1;
        self.gc_total = self.gc_total + 1;
    }

    /// Start a new round: the per-round counts return to zero, the global
    /// counts stay.
    pub fn reset_round(&mut self)
        ensures
            final(self).rc_succ == 0,
            final(self).rc_total == 0,
            final(self).gc_succ == old(self).gc_succ,
            final(self).gc_total == old(self).gc_total,
    {
        self.rc_succ = 0;
        self.rc_total = 0;
    }

    /// Successes in the current round.
    pub fn get_rc_succ(&self) -> (r: usize)
        ensures
            r == self.rc_succ,
    {
        self.rc_succ
    }

    /// Programs checked in the current round.
    pub fn get_rc_total(&self) -> (r: usize)
        ensures
            r == self.rc_total,
    {
        self.rc_total
    }

    /// Programs checked over the whole session.
    pub fn get_gc_total(&self) -> (r: usize)
        ensures
            r == self.gc_total,
    {
        self.gc_total
    }
}

/// The programs whose check result is clean, in order.
pub open spec fn accepted_of(programs: Seq<Program>, res: Seq<Option<String>>) -> Seq<Program>
    decreases programs.len(),
{
    if programs.len() == 0 {
        Seq::<Program>::empty()
    } else {
        let rest = accepted_of(programs.drop_last(), res.drop_last());
        if res.last() is None {
            rest.push(programs.last())
        } else {
            rest
        }
    }
}

/// The programs whose check reported an error, each with its diagnostic, in
/// order.
pub open spec fn rejected_of(programs: Seq<Program>, res: Seq<Option<String>>) -> Seq<
    (Program, String),
>
    decreases programs.len(),
{
    if programs.len() == 0 {
        Seq::<(Program, String)>::empty()
    } else {
        let rest = rejected_of(programs.drop_last(), res.drop_last());
        match res.last() {
            Some(msg) => rest.push((programs.last(), msg)),
            None => rest,
        }
    }
}

/// Split checked programs into the accepted ones and the rejected ones with
/// their diagnostics, preserving order. One check result is owed per
/// program: a missing result would be a validator desync.
pub fn split_checked_programs(programs: Vec<Program>, check_res: Vec<Option<String>>) -> (r: (
    Vec<Program>,
    Vec<(Program, String)>,
))
    requires
        programs.len() == check_res.len(),
    ensures
        r.0@ == accepted_of(programs@, check_res@),
        r.1@ == rejected_of(programs@, check_res@),
{
    let ghost po = programs@;
    let ghost ro = check_res@;
    let mut programs = programs;
    let mut check_res = check_res;
    let mut succ: Vec<Program> = Vec::new();
    let mut rej: Vec<(Program, String)> = Vec::new();
    let n: usize = programs.len();
    let mut k: usize = 0;
    while k < n
        invariant
            k <= n,
            n == po.len() && n == ro.len(),
            programs@ =~= po.skip(k as int),
            check_res@ =~= ro.skip(k as int),
            succ@ == accepted_of(po.take(k as int), ro.take(k as int)),
            rej@ == rejected_of(po.take(k as int), ro.take(k as int)),
        decreases n - k,
    {
        proof {
            assert(po.take(k as int + 1).drop_last() =~= po.take(k as int));
            assert(ro.take(k as int + 1).drop_last() =~= ro.take(k as int));
            assert(po.take(k as int + 1).last() == po[k as int]);
            assert(ro.take(k as int + 1).last() == ro[k as int]);
            assert(programs@[0] == po[k as int]);
            assert(check_res@[0] == ro[k as int]);
        }
        let program: Program = programs.remove(0);
        let result: Option<String> = check_res.remove(0);
        match result {
            None => succ.push(program),
            Some(msg) => rej.push((program, msg)),
        }
        proof {
            assert(programs@ =~= po.skip(k as int + 1));
            assert(check_res@ =~= ro.skip(k as int + 1));
        }
        k = k + 1;
    }
    proof {
        assert(po.take(n as int) =~= po);
        assert(ro.take(n as int) =~= ro);
    }
    (succ, rej)
}

/// The quiet-round count recorded in a log text: the value of the decimal
/// number after the first `quiet_round:` key that follows the first
/// round-summary marker, spaces in between allowed.
pub open spec fn quiet_round_parse(content: Seq<char>) -> Option<int> {
    let m1 = find_at(content, "[Mutate Loop]: loop:"@);
    if m1 < 0 {
        None
    } else {
        let rest = content.skip(m1);
        let m2 = find_at(rest, "quiet_round:"@);
        if m2 < 0 {
            None
        } else {
            let p0 = m2 + "quiet_round:"@.len();
            let p = p0 + space_run_len(rest, p0);
            let k = digit_run_len(rest, p);
            if k == 0 {
                None
            } else {
                Some(dec_value(rest.subrange(p, p + k)))
            }
        }
    }
}

/// Record, program text by program text, the call-expression 2-grams of
/// each into a state of (known pair set, round-novel list), all at the
/// character level.
pub open spec fn record_programs_v(
    state: (Seq<(Seq<char>, Seq<char>)>, Seq<(Seq<char>, Seq<char>)>),
    statements: Seq<Seq<char>>,
) -> (Seq<(Seq<char>, Seq<char>)>, Seq<(Seq<char>, Seq<char>)>)
    decreases statements.len(),
{
    if statements.len() == 0 {
        state
    } else {
        record_pairs_v(
            record_programs_v(state, statements.drop_last()),
            two_grams_v(calls_of(statements.last())),
        )
    }
}

/// A pair found in a sequence is still found after anything is appended.
proof fn lemma_pair_in_concat_left(s: Seq<(String, String)>, t: Seq<(String, String)>, a: Seq<
    char,
>, b: Seq<char>)
    ensures
        pair_in(s, a, b) ==> pair_in(s + t, a, b),
{
    if pair_in(s, a, b) {
        let i = choose|i: int| 0 <= i < s.len() && (#[trigger] s[i]).0@ == a && s[i].1@ == b;
        assert((s + t)[i] == s[i]);
    }
}

/// The fuzz-loop session state: the scheduler, the convergence counters,
/// the program-id source, and — in API-combination mode — the shared
/// discovered-pair set.
pub struct Fuzzer {
    /// The feedback scheduler.
    pub schedule: Schedule,
    /// Consecutive rounds without a new signal.
    pub quiet_round: usize,
    /// The next program id to hand out.
    pub seed_id: usize,
    /// Which kind of artifact this session generates.
    pub generation_mode: GenerationModeP,
    /// How many accepted programs end a round.
    pub fuzz_round_succ: usize,
    /// How many quiet rounds mean convergence.
    pub fuzz_converge_round: usize,
    /// Whether seeds are rechecked once the loop has half-converged.
    pub recheck: bool,
    /// Whether prompts are mutated purely at random instead of by energy.
    pub disable_power_schedule: bool,
    /// Every (caller, callee) 2-gram ever observed.
    pub discovered_pairs: DiscoveredPairSet,
}

impl Fuzzer {
    /// Well-formed: the scheduler and the pair set are.
    pub open spec fn wf(self) -> bool {
        self.schedule.wf() && self.discovered_pairs.wf()
    }

    /// A fresh session around the given scheduler and settings.
    pub fn new(
        schedule: Schedule,
        generation_mode: GenerationModeP,
        fuzz_round_succ: usize,
        fuzz_converge_round: usize,
        recheck: bool,
        disable_power_schedule: bool,
    ) -> (r: Fuzzer)
        ensures
            r.schedule == schedule,
            r.quiet_round == 0,
            r.seed_id == 0,
            r.generation_mode == generation_mode,
            r.fuzz_round_succ == fuzz_round_succ,
            r.fuzz_converge_round == fuzz_converge_round,
            r.recheck == recheck,
            r.disable_power_schedule == disable_power_schedule,
            r.discovered_pairs.pairs@ =~= Seq::<(String, String)>::empty(),
            schedule.wf() ==> r.wf(),
    {
        Fuzzer {
            schedule,
            quiet_round: 0,
            seed_id: 0,
            generation_mode,
            fuzz_round_succ,
            fuzz_converge_round,
            recheck,
            disable_power_schedule,
            discovered_pairs: DiscoveredPairSet::new(),
        }
    }

    /// Hand out the next program id: ids are assigned monotonically, one
    /// per candidate, starting at zero.
    pub fn inc_seed_id(&mut self) -> (r: usize)
        requires
            old(self).seed_id < usize::MAX,
        ensures
            r == old(self).seed_id,
            final(self).seed_id == old(self).seed_id + 1,
            final(self).schedule == old(self).schedule,
            final(self).quiet_round == old(self).quiet_round,
            final(self).generation_mode == old(self).generation_mode,
            final(self).fuzz_round_succ == old(self).fuzz_round_succ,
            final(self).fuzz_converge_round == old(self).fuzz_converge_round,
            final(self).recheck == old(self).recheck,
            final(self).disable_power_schedule == old(self).disable_power_schedule,
            final(self).discovered_pairs == old(self).discovered_pairs,
    {
        let id: usize = self.seed_id;
        self.seed_id = self.seed_id + 1;
        id
    }

    /// Assign each freshly generated program its id, in order.
    pub fn assign_ids(&mut self, programs: Vec<Program>) -> (r: Vec<Program>)
        requires
            old(self).seed_id + programs.len() <= usize::MAX,
        ensures
            r.len() == programs.len(),
            forall|i: int|
                0 <= i < r.len() ==> (#[trigger] r@[i]).id == old(self).seed_id + i && r@[
                    i
                ].statements == programs@[i].statements,
            final(self).seed_id == old(self).seed_id + programs.len(),
            final(self).schedule == old(self).schedule,
            final(self).quiet_round == old(self).quiet_round,
            final(self).generation_mode == old(self).generation_mode,
            final(self).fuzz_round_succ == old(self).fuzz_round_succ,
            final(self).fuzz_converge_round == old(self).fuzz_converge_round,
            final(self).recheck == old(self).recheck,
            final(self).disable_power_schedule == old(self).disable_power_schedule,
            final(self).discovered_pairs == old(self).discovered_pairs,
    {
        let ghost po = programs@;
        let mut programs = programs;
        let mut out: Vec<Program> = Vec::new();
        let n: usize = programs.len();
        let mut k: usize = 0;
        while k < n
            invariant
                k <= n,
                n == po.len(),
                programs@ =~= po.skip(k as int),
                out.len() == k,
                old(self).seed_id + n <= usize::MAX,
                self.seed_id == old(self).seed_id + k,
                forall|i: int|
                    0 <= i < k ==> (#[trigger] out@[i]).id == old(self).seed_id + i && out@[
                        i
                    ].statements == po[i].statements,
                self.schedule == old(self).schedule,
                self.quiet_round == old(self).quiet_round,
                self.generation_mode == old(self).generation_mode,
                self.fuzz_round_succ == old(self).fuzz_round_succ,
                self.fuzz_converge_round == old(self).fuzz_converge_round,
                self.recheck == old(self).recheck,
                self.disable_power_schedule == old(self).disable_power_schedule,
                self.discovered_pairs == old(self).discovered_pairs,
            decreases n - k,
        {
            proof {
                assert(programs@[0] == po[k as int]);
            }
            let mut program: Program = programs.remove(0);
            let id: usize = self.inc_seed_id();
            program.id = id;
            out.push(program);
            proof {
                assert(programs@ =~= po.skip(k as int + 1));
            }
            k = k + 1;
        }
        out
    }

    /// Converged: the quiet rounds have reached the configured threshold.
    pub fn is_converge(&self) -> (r: bool)
        ensures
            r == (self.quiet_round >= self.fuzz_converge_round),
    {
        self.quiet_round >= self.fuzz_converge_round
    }

    /// Stuck: the round produced no accepted program at all.
    pub fn is_stuck(&self, len: usize) -> (r: bool)
        ensures
            r == (len == 0),
    {
        len == 0
    }

    /// Whether the seed corpus should be rechecked: the loop is half way to
    /// convergence and rechecking is enabled.
    pub fn should_recheck(&self) -> (r: bool)
        ensures
            r == (self.quiet_round >= self.fuzz_converge_round / 2 && self.recheck),
    {
        if self.quiet_round >= self.fuzz_converge_round / 2 && self.recheck {
            return true;
        }
        false
    }

    /// Per-round convergence bookkeeping: a new signal clears the quiet
    /// counter; a round with accepted programs but no new signal raises it;
    /// a stuck round leaves it alone.
    pub fn record_round_signal(&mut self, has_new: bool, is_stuck: bool)
        requires
            old(self).quiet_round < usize::MAX,
        ensures
            final(self).quiet_round == if has_new {
                0int
            } else if !is_stuck {
                old(self).quiet_round + 1
            } else {
                old(self).quiet_round as int
            },
            final(self).schedule == old(self).schedule,
            final(self).seed_id == old(self).seed_id,
            final(self).generation_mode == old(self).generation_mode,
            final(self).fuzz_round_succ == old(self).fuzz_round_succ,
            final(self).fuzz_converge_round == old(self).fuzz_converge_round,
            final(self).recheck == old(self).recheck,
            final(self).disable_power_schedule == old(self).disable_power_schedule,
            final(self).discovered_pairs == old(self).discovered_pairs,
    {
        if has_new {
            self.quiet_round = 0;
        } else if !is_stuck {
            self.quiet_round = self.quiet_round + 1;
        }
    }

    /// Absorb one round's accepted API-combination programs: extract each
    /// program's call-expression 2-grams, record them in the shared pair
    /// set, and reinforce the energies of the APIs of every newly
    /// discovered pair. Returns the round's newly discovered pairs in
    /// discovery order: at the character level, set and novel list are
    /// exactly the fold of `record_pairs_v` over every program's 2-grams.
    pub fn absorb_api_programs(&mut self, programs: &Vec<Program>) -> (novel: Vec<
        (String, String),
    >)
        requires
            old(self).wf(),
        ensures
            (view_pairs(final(self).discovered_pairs.pairs@), view_pairs(novel@))
                == record_programs_v(
                (view_pairs(old(self).discovered_pairs.pairs@), Seq::empty()),
                programs@.map_values(|p: Program| p.statements@),
            ),
            final(self).discovered_pairs.pairs@ == old(self).discovered_pairs.pairs@ + novel@,
            forall|i: int|
                0 <= i < novel.len() ==> !pair_in(
                    old(self).discovered_pairs.pairs@,
                    (#[trigger] novel@[i]).0@,
                    novel@[i].1@,
                ),
            final(self).schedule.seeds@ == reinforce_pairs(old(self).schedule.seeds@, novel@),
            final(self).schedule.catalog == old(self).schedule.catalog,
            final(self).schedule.exponent == old(self).schedule.exponent,
            final(self).wf(),
            final(self).quiet_round == old(self).quiet_round,
            final(self).seed_id == old(self).seed_id,
            final(self).generation_mode == old(self).generation_mode,
            final(self).fuzz_round_succ == old(self).fuzz_round_succ,
            final(self).fuzz_converge_round == old(self).fuzz_converge_round,
            final(self).recheck == old(self).recheck,
            final(self).disable_power_schedule == old(self).disable_power_schedule,
    {
        let ghost set0 = self.discovered_pairs.pairs@;
        let ghost stmts = programs@.map_values(|p: Program| p.statements@);
        let ghost init = (view_pairs(set0), Seq::<(Seq<char>, Seq<char>)>::empty());
        let mut novel: Vec<(String, String)> = Vec::new();
        let n: usize = programs.len();
        let mut i: usize = 0;
        proof {
            assert(view_pairs(novel@) =~= init.1);
        }
        while i < n
            invariant
                i <= n,
                n == programs.len(),
                stmts == programs@.map_values(|p: Program| p.statements@),
                init == (view_pairs(set0), Seq::<(Seq<char>, Seq<char>)>::empty()),
                (view_pairs(self.discovered_pairs.pairs@), view_pairs(novel@))
                    == record_programs_v(init, stmts.take(i as int)),
                self.discovered_pairs.pairs@ == set0 + novel@,
                self.discovered_pairs.wf(),
                forall|k: int|
                    0 <= k < novel.len() ==> !pair_in(
                        set0,
                        (#[trigger] novel@[k]).0@,
                        novel@[k].1@,
                    ),
                self.schedule == old(self).schedule,
                old(self).wf(),
                set0 == old(self).discovered_pairs.pairs@,
                self.quiet_round == old(self).quiet_round,
                self.seed_id == old(self).seed_id,
                self.generation_mode == old(self).generation_mode,
                self.fuzz_round_succ == old(self).fuzz_round_succ,
                self.fuzz_converge_round == old(self).fuzz_converge_round,
                self.recheck == old(self).recheck,
                self.disable_power_schedule == old(self).disable_power_schedule,
            decreases n - i,
        {
            let ghost state_at_program = record_programs_v(init, stmts.take(i as int));
            let calls: Vec<String> = extract_function_calls(programs[i].statements.as_str());
            let mut pairs: Vec<(String, String)> = extract_2gram_pairs(&calls);
            let ghost grams = two_grams_v(calls_of(programs@[i as int].statements@));
            proof {
                assert(view_pairs(pairs@) =~= grams);
            }
            let ghost pv0 = view_pairs(pairs@);
            let m: usize = pairs.len();
            let mut j: usize = 0;
            while j < m
                invariant
                    j <= m,
                    m == pv0.len(),
                    view_pairs(pairs@) =~= pv0.skip(j as int),
                    pairs.len() == m - j,
                    (view_pairs(self.discovered_pairs.pairs@), view_pairs(novel@))
                        == record_pairs_v(state_at_program, pv0.take(j as int)),
                    self.discovered_pairs.pairs@ == set0 + novel@,
                    self.discovered_pairs.wf(),
                    forall|k: int|
                        0 <= k < novel.len() ==> !pair_in(
                            set0,
                            (#[trigger] novel@[k]).0@,
                            novel@[k].1@,
                        ),
                    self.schedule == old(self).schedule,
                    old(self).wf(),
                    set0 == old(self).discovered_pairs.pairs@,
                    self.quiet_round == old(self).quiet_round,
                    self.seed_id == old(self).seed_id,
                    self.generation_mode == old(self).generation_mode,
                    self.fuzz_round_succ == old(self).fuzz_round_succ,
                    self.fuzz_converge_round == old(self).fuzz_converge_round,
                    self.recheck == old(self).recheck,
                    self.disable_power_schedule == old(self).disable_power_schedule,
                decreases m - j,
            {
                proof {
                    assert(view_pairs(pairs@)[0] == pv0[j as int]);
                    assert(pv0.take(j as int + 1).drop_last() =~= pv0.take(j as int));
                    assert(pv0.take(j as int + 1).last() == pv0[j as int]);
                }
                let ghost pre_pairs = pairs@;
                let pair: (String, String) = pairs.remove(0);
                proof {
                    assert(pairs@ =~= pre_pairs.drop_first());
                    assert forall|k: int|
                        0 <= k < pairs@.len() implies (#[trigger] view_pairs(pairs@)[k])
                        == pv0.skip(j as int + 1)[k] by {
                        assert(pairs@[k] == pre_pairs[k + 1]);
                        assert(view_pairs(pre_pairs)[k + 1] == pv0.skip(j as int)[k + 1]);
                    }
                }
                let copy: (String, String) = (pair.0.clone(), pair.1.clone());
                let ghost pre_set = self.discovered_pairs.pairs@;
                let ghost pre_novel = novel@;
                proof {
                    assert((pair.0@, pair.1@) == pv0[j as int]);
                    lemma_pair_in_is_vp_in(pre_set, pair.0@, pair.1@);
                }
                let is_new: bool = self.discovered_pairs.insert(pair);
                if is_new {
                    novel.push(copy);
                    proof {
                        assert(self.discovered_pairs.pairs@ =~= set0 + novel@);
                        lemma_pair_in_concat_left(set0, pre_novel, copy.0@, copy.1@);
                        assert(view_pairs(self.discovered_pairs.pairs@) =~= view_pairs(
                            pre_set,
                        ).push(pv0[j as int]));
                        assert(view_pairs(novel@) =~= view_pairs(pre_novel).push(
                            pv0[j as int],
                        ));
                    }
                }
                proof {
                    assert(view_pairs(pairs@) =~= pv0.skip(j as int + 1));
                }
                j = j + 1;
            }
            proof {
                assert(pv0.take(m as int) =~= pv0);
                assert(pv0 =~= grams);
                assert(stmts.take(i as int + 1).drop_last() =~= stmts.take(i as int));
                assert(stmts.take(i as int + 1).last() == programs@[i as int].statements@);
            }
            i = i + 1;
        }
        proof {
            assert(stmts.take(n as int) =~= stmts);
        }
        self.schedule.update_energies_from_api_pairs(&novel);
        novel
    }

    /// Restore the quiet-round counter from the text of a previous run's
    /// log: the decimal number after the first `quiet_round:` that follows
    /// the first round-summary marker. Without such a number (or with one
    /// that does not fit the machine) the counter is left alone.
    pub fn sync_quiet_round(&mut self, content: &str)
        ensures
            ({
                let parsed = quiet_round_parse(content@);
                match parsed {
                    Some(v) => if 0 <= v <= usize::MAX {
                        final(self).quiet_round == v
                    } else {
                        final(self).quiet_round == old(self).quiet_round
                    },
                    None => final(self).quiet_round == old(self).quiet_round,
                }
            }),
            final(self).schedule == old(self).schedule,
            final(self).seed_id == old(self).seed_id,
            final(self).generation_mode == old(self).generation_mode,
            final(self).fuzz_round_succ == old(self).fuzz_round_succ,
            final(self).fuzz_converge_round == old(self).fuzz_converge_round,
            final(self).recheck == old(self).recheck,
            final(self).disable_power_schedule == old(self).disable_power_schedule,
            final(self).discovered_pairs == old(self).discovered_pairs,
    {
        proof {
            reveal_strlit("[Mutate Loop]: loop:");
            reveal_strlit("quiet_round:");
        }
        let marker: &str = "[Mutate Loop]: loop:";
        let key: &str = "quiet_round:";
        let idx: usize = match find_sub(content, marker) {
            Some(i) => i,
            None => {
                return ;
            },
        };
        proof {
            crate::strutil::lemma_find_at(content@, marker@);
        }
        let n: usize = content.unicode_len();
        let rest: &str = content.substring_char(idx, n);
        proof {
            assert(rest@ =~= content@.skip(idx as int));
        }
        let jdx: usize = match find_sub(rest, key) {
            Some(j) => j,
            None => {
                return ;
            },
        };
        proof {
            crate::strutil::lemma_find_at(rest@, key@);
        }
        let after_key: usize = jdx + key.unicode_len();
        let start: usize = skip_spaces(rest, after_key);
        match parse_usize_prefix(rest, start) {
            Some(v) => {
                self.quiet_round = v;
            },
            None => {},
        }
    }

    /// Clear the quiet counter, as after a recheck of the evolved corpus.
    pub fn reset_quiet_round(&mut self)
        ensures
            final(self).quiet_round == 0,
            final(self).schedule == old(self).schedule,
            final(self).seed_id == old(self).seed_id,
            final(self).generation_mode == old(self).generation_mode,
            final(self).fuzz_round_succ == old(self).fuzz_round_succ,
            final(self).fuzz_converge_round == old(self).fuzz_converge_round,
            final(self).recheck == old(self).recheck,
            final(self).disable_power_schedule == old(self).disable_power_schedule,
            final(self).discovered_pairs == old(self).discovered_pairs,
    {
        self.quiet_round = 0;
    }
}

} // verus!
