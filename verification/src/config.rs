//! Session-wide settings of the fuzzing pipeline: the generation mode, the
//! LLM handler kind, per-project library configuration, and the numeric
//! policy constants of the core.

use vstd::prelude::*;
use crate::strutil::{replace_all, replace_all_exec};

verus! {

/// System-role template for fuzz-driver generation.
pub const SYSTEM_GEN_TEMPLATE: &'static str = "Act as a C++ langauge Developer, write a fuzz driver that follow user's instructions.\nThe prototype of fuzz dirver is: `extern \"C\" int LLVMFuzzerTestOneInput(const uint8_t data, size_t size)`.\n\n";

/// System-role template for API-combination generation.
pub const SYSTEM_API_TEMPLATE: &'static str = "Act as an API usage synthesizer. Generate valid combinations of available APIs from the target library, ensuring there are no logical or syntactical errors in the code.\nThe prototype of the API generator is: `extern \"C\" int LLVMGeneratorTestOneInput(const uint8_t data, size_t size)`.\n";

/// How many successive lines a deterministic prompt mutation touches.
pub const MUTATE_LINE: usize = 3;

/// Upper bound on sampled program count per request.
pub const MAX_SAMPLE_LEN: usize = 20;

/// Default number of APIs in a freshly assembled combination.
pub const DEFAULT_COMB_LEN: usize = 5;

/// Which kind of artifact a session generates.
#[derive(Debug, Clone, PartialEq, Eq, Structural)]
pub enum GenerationModeP {
    /// Generate a fuzz driver around `LLVMFuzzerTestOneInput`.
    FuzzDriver,
    /// Generate plain API-combination programs.
    ApiCombination,
}

/// Which client carries requests to the LLM service.
#[derive(Debug, Clone, PartialEq, Eq, Structural)]
pub enum HandlerType {
    /// The vendor's own client.
    Openai,
    /// A plain HTTP client.
    Http,
}

/// Per-project library configuration.
#[derive(Debug, Clone)]
pub struct LibConfig {
    /// The project name used by the build script.
    pub project_name: String,
    /// The name of the statically linked library.
    pub static_lib_name: String,
    /// The name of the dynamically linked library.
    pub dyn_lib_name: String,
    /// Functions that generated programs must not call.
    pub ban: Option<Vec<String>>,
    /// Whether fuzzer input must be null-terminated.
    pub null_term: Option<bool>,
    /// Extra flags passed to the C compiler.
    pub extra_c_flags: Option<Vec<String>>,
    /// Whether a landmark corpus example is inserted into prompts.
    pub landmark: Option<bool>,
    /// Types that must be forced into the prompt context.
    pub force_types: Option<Vec<String>>,
    /// Whether the library is fuzzed in fork mode.
    pub fuzz_fork: Option<bool>,
    /// A short description of the library for the LLM.
    pub desc: Option<String>,
    /// Statements that initialize the library in every driver.
    pub spec_stmts: Option<String>,
    /// An additional initialization file copied beside each fused core.
    pub init_file: Option<String>,
    /// Extra address-sanitizer options.
    pub asan_option: Option<String>,
    /// Whether `fmemopen` must be avoided in generated drivers.
    pub disable_fmemopen: Option<bool>,
    /// Memory limit handed to the fuzzer, in megabytes.
    pub rss_limit_mb: Option<usize>,
}

impl LibConfig {
    /// Whether fuzzer input must be terminated with a null byte; absent
    /// means no.
    pub fn should_terminate_with_null(&self) -> (r: bool)
        ensures
            r == (self.null_term == Some(true)),
    {
        if let Some(term) = &self.null_term {
            return *term;
        }
        false
    }
}

impl Default for LibConfig {
    /// An empty configuration: every optional setting absent.
    fn default() -> (r: LibConfig)
        ensures
            r.project_name@ == Seq::<char>::empty(),
            r.static_lib_name@ == Seq::<char>::empty(),
            r.dyn_lib_name@ == Seq::<char>::empty(),
            r.ban is None,
            r.null_term is None,
            r.extra_c_flags is None,
            r.landmark is None,
            r.force_types is None,
            r.fuzz_fork is None,
            r.desc is None,
            r.spec_stmts is None,
            r.init_file is None,
            r.asan_option is None,
            r.disable_fmemopen is None,
            r.rss_limit_mb is None,
    {
        LibConfig {
            project_name: String::new(),
            static_lib_name: String::new(),
            dyn_lib_name: String::new(),
            ban: None,
            null_term: None,
            extra_c_flags: None,
            landmark: None,
            force_types: None,
            fuzz_fork: None,
            desc: None,
            spec_stmts: None,
            init_file: None,
            asan_option: None,
            disable_fmemopen: None,
            rss_limit_mb: None,
        }
    }
}

/// The session settings, owned by the session rather than read from
/// ambient process state. The sampling temperature is carried in
/// thousandths.
#[derive(Debug, Clone)]
pub struct Config {
    /// Which kind of artifact the session generates.
    pub generation_mode: GenerationModeP,
    /// The target project to fuzz.
    pub target: String,
    /// How many outputs are sampled per LLM request.
    pub n_sample: u8,
    /// Sampling temperature, in thousandths.
    pub temperature_milli: u32,
    /// Whether prompts are mutated purely at random instead of by energy.
    pub disable_power_schedule: bool,
    /// How many accepted programs end a round.
    pub fuzz_round_succ: usize,
    /// How many quiet rounds mean convergence.
    pub fuzz_converge_round: usize,
    /// Cores used to run the fuzzers in parallel.
    pub cores: usize,
    /// Core cap of the sanitization phase.
    pub max_cores: usize,
    /// Whether branch hits raise the power-schedule exponent.
    pub exponent_branch: bool,
    /// Whether seeds are rechecked during the loop.
    pub recheck: bool,
    /// Whether condensed fuzzers run after the loop.
    pub fuzzer_run: bool,
    /// Which client carries LLM requests.
    pub handler_type: HandlerType,
}

impl Config {
    /// The name of the target library.
    pub fn get_library_name(&self) -> (r: String)
        ensures
            r@ == self.target@,
    {
        self.target.clone()
    }

    /// How many outputs are sampled per LLM request.
    pub fn get_sample_num(&self) -> (r: u8)
        ensures
            r == self.n_sample,
    {
        self.n_sample
    }

    /// Which client carries LLM requests.
    pub fn get_handler_type(&self) -> (r: HandlerType)
        ensures
            r == self.handler_type,
    {
        match self.handler_type {
            HandlerType::Openai => HandlerType::Openai,
            HandlerType::Http => HandlerType::Http,
        }
    }

    /// The fixed settings used by self-tests: driver mode, ten samples at
    /// temperature six tenths, ten cores, one success per round, ten quiet
    /// rounds to converge.
    pub fn init_test(target: &str) -> (r: Config)
        ensures
            r.generation_mode == GenerationModeP::FuzzDriver,
            r.target@ == target@,
            r.n_sample == 10,
            r.temperature_milli == 600,
            r.disable_power_schedule == false,
            r.fuzz_round_succ == 1,
            r.fuzz_converge_round == 10,
            r.cores == 10,
            r.max_cores == 0,
            r.exponent_branch == false,
            r.recheck == false,
            r.fuzzer_run == false,
            r.handler_type == HandlerType::Openai,
    {
        Config {
            generation_mode: GenerationModeP::FuzzDriver,
            target: target.to_owned(),
            n_sample: 10,
            temperature_milli: 600,
            disable_power_schedule: false,
            fuzz_round_succ: 1,
            fuzz_converge_round: 10,
            cores: 10,
            max_cores: 0,
            exponent_branch: false,
            recheck: false,
            fuzzer_run: false,
            handler_type: HandlerType::Openai,
        }
    }
}

/// The system-role template of the given generation mode.
pub fn get_sys_gen_template(mode: &GenerationModeP) -> (r: &'static str)
    ensures
        *mode == GenerationModeP::FuzzDriver ==> r@ == SYSTEM_GEN_TEMPLATE@,
        *mode == GenerationModeP::ApiCombination ==> r@ == SYSTEM_API_TEMPLATE@,
{
    match mode {
        GenerationModeP::FuzzDriver => SYSTEM_GEN_TEMPLATE,
        GenerationModeP::ApiCombination => SYSTEM_API_TEMPLATE,
    }
}

/// The user-role template with every project placeholder replaced by the
/// target's name.
pub fn get_user_gen_template(template: &str, project: &str) -> (r: String)
    ensures
        r@ == replace_all(template@, "{project}"@, project@),
{
    proof {
        reveal_strlit("{project}");
    }
    replace_all_exec(template, "{project}", project)
}

/// Finish the user-role chat template: prepend the landmark corpus example
/// when one exists, append the library's fixed driver opening when one is
/// configured, and swap the in-memory input file for an on-disk one where
/// `fmemopen` is disabled.
pub fn get_user_chat_template(
    template: &str,
    landmark: Option<&str>,
    init_stmts: Option<&str>,
    disable_fmemopen: bool,
) -> (r: String)
    ensures
        ({
            let with_landmark = match landmark {
                Some(l) => "The input data is: "@ + l@ + "\n\n\n."@ + template@,
                None => template@,
            };
            let with_init = match init_stmts {
                Some(stmts) => with_landmark + "\nThe begining of the fuzz driver is: \n"@
                    + stmts@,
                None => with_landmark,
            };
            if disable_fmemopen {
                r@ == replace_all(
                    with_init,
                    "fmemopen((void *)data, size, \"rb\")"@,
                    "fopen(\"input_file\", \"rb\")"@,
                )
            } else {
                r@ == with_init
            }
        }),
{
    let mut out: String = String::new();
    match landmark {
        Some(l) => {
            out.append("The input data is: ");
            out.append(l);
            out.append("\n\n\n.");
            out.append(template);
        },
        None => {
            out.append(template);
        },
    }
    match init_stmts {
        Some(stmts) => {
            out.append("\nThe begining of the fuzz driver is: \n");
            out.append(stmts);
        },
        None => {},
    }
    proof {
        assert(Seq::<char>::empty() + "The input data is: "@ =~= "The input data is: "@);
        assert(Seq::<char>::empty() + template@ =~= template@);
    }
    if disable_fmemopen {
        proof {
            reveal_strlit("fmemopen((void *)data, size, \"rb\")");
        }
        replace_all_exec(out.as_str(), "fmemopen((void *)data, size, \"rb\")", "fopen(\"input_file\", \"rb\")")
    } else {
        out
    }
}

} // verus!
