//! The configuration model: every section with its defaults, rule levels, the
//! embedding similarity threshold, path patterns, rule-id canonicalisation against a
//! rule catalogue, and the validation a loaded configuration must pass.
use vstd::prelude::*;

use crate::findings::{Confidence, Severity};
use crate::sorting::{
    chars_le, lemma_chars_le_antisymmetric, lemma_chars_le_reflexive, lemma_chars_le_total, lemma_chars_le_transitive, str_le,
};
use crate::globs::{glob_error, glob_set_matches, spec_glob_error, spec_glob_set_builds, spec_glob_set_match};
use crate::integrations::spec_strip_root;
use crate::text::{
    spec_join, chars_eq, chars_of, contains_char, contains_chars, ends_with, extend_chars, lower_chars, occurs_at,
    replace_char, spec_lower, spec_replace_char, spec_trim, starts_with, string_from_chars, trim_chars,
};

verus! {

/// The file name looked for when no configuration path is given.
pub const DEFAULT_CONFIG_FILE: &'static str = "codehealth.toml";

/// The documented default configuration.
pub const DEFAULT_CONFIG_TEXT: &'static str = r#"# codehealth configuration

[project]
languages = ["typescript", "tsx", "python", "rust"]
frameworks = ["react", "fastapi"]

[duplication]
enabled = true
detect_names = true
detect_exact = true
detect_structural = true
detect_near = false
detect_semantic_candidates = false
min_tokens = 40
min_lines = 5
min_confidence = "medium"
structural_normalize_literals = false
structural_min_nodes = 5
structural_max_opaque_percent = 25
near_similarity_threshold = 82
near_hash_functions = 96
near_lsh_bands = 24
near_lsh_rows = 4
near_common_shingle_max_percent = 5
near_common_shingle_min_occurrences = 20
near_max_bucket_size = 200
near_max_candidate_pairs = 250000
semantic_property_reads_are_pure = false
semantic_normalize_boolean_returns = true
semantic_normalize_commutative_ops = true
semantic_normalize_comparisons = true

[style]
simplify_boolean_returns = true
prefer_expression_arrows = true
prefer_guard_clauses = false
autofix_safe_only = true

[react]
enabled = true
max_component_lines = 180
max_props = 8
detect_prop_drilling = true
prop_drilling_depth = 3

[fastapi]
enabled = true
detect_duplicate_routes = true
detect_blocking_async_calls = true
require_response_model = "warn"
blocking_call_allowlist = []
blocking_call_patterns = ["requests.get", "requests.post", "requests.put", "requests.patch", "requests.delete", "time.sleep", "open(", ".read(", ".write("]

[rust]
enabled = true
clippy_enabled = false
clippy_command = "cargo"
clippy_args = ["clippy", "--message-format=json", "--all-targets", "--all-features"]
clippy_timeout_ms = 120000
max_function_lines = 80
max_params = 6
max_unwraps = 2
max_match_depth = 4

[scanner]
include = []
exclude = []
max_file_size_bytes = 1048576
follow_symlinks = false
include_generated = false
include_binary = false
detect_javascript = true

[ci]
fail_on = ["new_high"]
baseline = ".codehealth/baseline.json"
# baseline_owner = "platform"

[ignore]
paths = [
  ".git",
  "node_modules",
  "dist",
  "build",
  "coverage",
  "target",
  ".venv",
  "venv",
  ".mypy_cache",
  ".pytest_cache",
  ".ruff_cache",
  ".next",
  ".turbo",
]

[rules]
"duplicate.exact.body" = "error"
"duplicate.exact.file" = "error"
"duplicate.name.class" = "warn"
"duplicate.name.function" = "warn"
"duplicate.name.method" = "warn"
"duplicate.name.react_component" = "warn"
"duplicate.name.react_hook" = "warn"
"duplicate.name.fastapi_route_handler" = "warn"
"duplicate.name.rust_type" = "warn"
"duplicate.name.rust_impl_method" = "warn"
"duplicate.structural.function" = "warn"
"duplicate.near.function" = "warn"
"duplicate.semantic.function" = "warn"
"duplicate.semantic.vector_candidate" = "info"
"style.boolean_return_simplifiable" = "warn"
"style.expression_arrow_simplifiable" = "warn"
"style.unnecessary_else_after_return" = "info"
"style.nested_conditional" = "info"
"style.guard_clause" = "info"
"style.duplicated_literal" = "info"
"style.large_function" = "warn"
"style.high_parameter_count" = "warn"
"style.complex_condition" = "info"
"python.broad_exception" = "warn"
"python.repeated_validation_logic" = "info"
"python.duplicated_route_handler_business_logic" = "warn"
"rust.large_function" = "warn"
"rust.too_many_parameters" = "warn"
"rust.duplicate_free_function" = "warn"
"rust.duplicate_impl_method" = "warn"
"rust.duplicate_trait_method_implementation" = "warn"
"rust.repeated_match_arm_body" = "info"
"rust.suspicious_unwrap_policy" = "warn"
"rust.expect_without_context" = "info"
"rust.repeated_error_mapping" = "info"
"rust.manual_option_result_pattern_candidate" = "info"
"rust.deeply_nested_match" = "warn"
"rust.large_enum_variant_logic" = "info"
"rust.repeated_result_handling" = "info"
"rust.repeated_conversion_function" = "info"
"rust.repeated_validation_logic" = "info"
"rust.repeated_serde_glue" = "info"
"rust.clippy_unavailable" = "info"
"rust.clippy_run_failed" = "info"
"react.large_component" = "warn"
"react.too_many_props" = "warn"
"react.deeply_nested_jsx" = "warn"
"react.duplicate_component_shape" = "warn"
"react.repeated_hook_logic" = "warn"
"react.unnecessary_effect_candidate" = "info"
"react.derived_state_candidate" = "info"
"react.inline_component_inside_render" = "warn"
"react.unstable_list_key" = "warn"
"react.missing_key" = "warn"
"react.prop_drilling_candidate" = "warn"
"react.large_context_provider" = "warn"
"react.mixed_data_fetching_and_rendering" = "warn"
"react.component_too_many_responsibilities" = "warn"
"react.redundant_fragment" = "info"
"fastapi.duplicate.route" = "error"
"fastapi.route_conflict" = "error"
"fastapi.blocking_call_in_async_route" = "warn"
"fastapi.missing_response_model" = "warn"
"fastapi.large_route_handler" = "warn"
"fastapi.business_logic_in_route" = "warn"
"fastapi.repeated_dependency_logic" = "warn"
"fastapi.repeated_auth_logic" = "warn"
"fastapi.broad_exception_in_route" = "warn"
"fastapi.inconsistent_status_code" = "info"
"fastapi.duplicated_pydantic_model" = "info"
"fastapi.route_handler_duplicate_logic" = "warn"
"fastapi.sync_db_call_inside_async_route" = "warn"
"fastapi.requests_call_inside_async_route" = "warn"

[rule_options."duplicate.exact.file"]
include_paths = []
exclude_paths = []

[rule_options."duplicate.exact.body"]
min_tokens = 40
min_lines = 5
include_paths = []
exclude_paths = []

[rule_options."duplicate.structural.function"]
min_tokens = 5
min_lines = 1
include_paths = []
exclude_paths = []

[rule_options."duplicate.near.function"]
min_tokens = 40
min_lines = 5
min_confidence = "medium"
include_paths = []
exclude_paths = []

[rule_options."duplicate.semantic.function"]
min_tokens = 5
min_lines = 1
min_confidence = "medium"
include_paths = []
exclude_paths = []

[rule_options."style.large_function"]
max_lines = 80
include_paths = []
exclude_paths = []

[rule_options."style.high_parameter_count"]
max_params = 6
include_paths = []
exclude_paths = []

[rule_options."style.complex_condition"]
max_condition_terms = 3
include_paths = []
exclude_paths = []

[rule_options."style.duplicated_literal"]
max_literal_occurrences = 3
include_paths = []
exclude_paths = []

[rule_options."rust.large_function"]
max_lines = 80
include_paths = []
exclude_paths = []

[rule_options."rust.too_many_parameters"]
max_params = 6
include_paths = []
exclude_paths = []

[rule_options."rust.duplicate_free_function"]
min_lines = 3
min_tokens = 20
include_paths = []
exclude_paths = []

[rule_options."rust.duplicate_impl_method"]
min_lines = 3
min_tokens = 20
include_paths = []
exclude_paths = []

[rule_options."rust.duplicate_trait_method_implementation"]
min_lines = 3
min_tokens = 20
include_paths = []
exclude_paths = []

[rule_options."rust.suspicious_unwrap_policy"]
max_unwraps = 2
include_paths = []
exclude_paths = []

[rule_options."rust.deeply_nested_match"]
max_depth = 4
include_paths = []
exclude_paths = []

[rule_options."rust.large_enum_variant_logic"]
max_params = 6
include_paths = []
exclude_paths = []

[rule_options."rust.repeated_result_handling"]
min_nodes = 2
include_paths = []
exclude_paths = []

[rule_options."rust.repeated_error_mapping"]
min_nodes = 2
include_paths = []
exclude_paths = []

[rule_options."rust.repeated_conversion_function"]
min_lines = 3
min_tokens = 20
include_paths = []
exclude_paths = []

[rule_options."rust.repeated_validation_logic"]
min_nodes = 2
include_paths = []
exclude_paths = []

[rule_options."rust.repeated_serde_glue"]
min_lines = 3
min_tokens = 20
include_paths = []
exclude_paths = []

[rule_options."react.large_component"]
max_lines = 180
include_paths = []
exclude_paths = []

[rule_options."react.too_many_props"]
max_params = 8
include_paths = []
exclude_paths = []

[rule_options."react.deeply_nested_jsx"]
max_depth = 5
include_paths = []
exclude_paths = []

[rule_options."react.duplicate_component_shape"]
min_nodes = 3
include_paths = []
exclude_paths = []

[rule_options."react.prop_drilling_candidate"]
max_depth = 3
include_paths = []
exclude_paths = []

[rule_options."react.large_context_provider"]
max_context_values = 6
include_paths = []
exclude_paths = []

[rule_options."react.component_too_many_responsibilities"]
max_responsibilities = 5
include_paths = []
exclude_paths = []

[rule_options."fastapi.large_route_handler"]
max_lines = 80
include_paths = []
exclude_paths = []

[rule_options."fastapi.repeated_dependency_logic"]
min_nodes = 3
include_paths = []
exclude_paths = []

[rule_options."fastapi.repeated_auth_logic"]
min_nodes = 3
include_paths = []
exclude_paths = []

[rule_options."fastapi.duplicated_pydantic_model"]
min_nodes = 3
include_paths = []
exclude_paths = []

[rule_options."fastapi.route_handler_duplicate_logic"]
min_lines = 5
min_tokens = 40
include_paths = []
exclude_paths = []

[report]
default_format = "text"
color = "auto"

[scoring]
enabled = true

[embeddings]
enabled = false
provider = "none"
privacy_mode = "disabled"
similarity_threshold = 0.80
candidate_limit = 100
cache_vectors = true

[integrations]
eslint = false
biome = false
tsc = false
ruff = false
mypy = false
pyright = false
cargo_check = false
clippy = false
semgrep = false
fail_on_tool_error = false
timeout_ms = 120000
eslint_command = "eslint"
eslint_args = ["--format", "json", "."]
biome_command = "biome"
biome_args = ["ci", "--reporter=json"]
tsc_command = "tsc"
tsc_args = ["--noEmit", "--pretty", "false"]
ruff_command = "ruff"
ruff_args = ["check", "--output-format=json", "."]
mypy_command = "mypy"
mypy_args = ["--show-column-numbers", "--no-error-summary", "."]
pyright_command = "pyright"
pyright_args = ["--outputjson"]
cargo_check_command = "cargo"
cargo_check_args = ["check", "--message-format=json"]
clippy_command = "cargo"
clippy_args = ["clippy", "--message-format=json", "--all-targets", "--all-features"]
semgrep_command = "semgrep"
semgrep_args = ["scan", "--json"]

[cache]
enabled = true
dir = ".codehealth/cache"
"#;

/// The default configuration as TOML text.
pub fn default_config_toml() -> (r: &'static str)
    ensures
        r@ == DEFAULT_CONFIG_TEXT@,
{
    DEFAULT_CONFIG_TEXT
}

/// How a rule is configured: inherit its default, switched off, or at a severity.
#[derive(Debug, Clone, Copy, PartialEq, Eq, Structural)]
pub enum RuleLevel {
    Inherit,
    Off,
    Severity(Severity),
}

impl RuleLevel {
    /// The severity this level sets, if any.
    pub fn severity(self) -> (r: Option<Severity>)
        ensures
            r == match self {
                RuleLevel::Severity(s) => Some(s),
                _ => None,
            },
    {
        match self {
            RuleLevel::Inherit => None,
            RuleLevel::Off => None,
            RuleLevel::Severity(severity) => Some(severity),
        }
    }

    /// Whether the rule is switched off.
    pub fn is_off(self) -> (r: bool)
        ensures
            r == (self == RuleLevel::Off),
    {
        matches!(self, RuleLevel::Off)
    }

    /// The level a configuration word names, case and surrounding whitespace ignored.
    pub open spec fn spec_parse(value: Seq<char>) -> Option<RuleLevel> {
        let v = spec_lower(spec_trim(value));
        if v == "inherit"@ {
            Some(RuleLevel::Inherit)
        } else if v == "off"@ || v == "disabled"@ {
            Some(RuleLevel::Off)
        } else if v == "info"@ {
            Some(RuleLevel::Severity(Severity::Info))
        } else if v == "low"@ {
            Some(RuleLevel::Severity(Severity::Low))
        } else if v == "warn"@ || v == "warning"@ || v == "medium"@ {
            Some(RuleLevel::Severity(Severity::Medium))
        } else if v == "high"@ || v == "error"@ {
            Some(RuleLevel::Severity(Severity::High))
        } else if v == "critical"@ {
            Some(RuleLevel::Severity(Severity::Critical))
        } else {
            None
        }
    }

    /// Reads a rule level; the error names the rejected word and the accepted ones.
    pub fn parse(value: &str) -> (r: Result<RuleLevel, String>)
        ensures
            match r {
                Ok(level) => RuleLevel::spec_parse(value@) == Some(level),
                Err(message) => RuleLevel::spec_parse(value@) is None && message@ == "invalid rule level '"@
                    + spec_lower(spec_trim(value@))
                    + "', expected off, info, low, warn, medium, high, error, or critical"@,
            },
    {
        let v = lower_chars(trim_chars(chars_of(value).as_slice()).as_slice());
        if eq_str(&v, "inherit") {
            Ok(RuleLevel::Inherit)
        } else if eq_str(&v, "off") || eq_str(&v, "disabled") {
            Ok(RuleLevel::Off)
        } else if eq_str(&v, "info") {
            Ok(RuleLevel::Severity(Severity::Info))
        } else if eq_str(&v, "low") {
            Ok(RuleLevel::Severity(Severity::Low))
        } else if eq_str(&v, "warn") || eq_str(&v, "warning") || eq_str(&v, "medium") {
            Ok(RuleLevel::Severity(Severity::Medium))
        } else if eq_str(&v, "high") || eq_str(&v, "error") {
            Ok(RuleLevel::Severity(Severity::High))
        } else if eq_str(&v, "critical") {
            Ok(RuleLevel::Severity(Severity::Critical))
        } else {
            let mut message = String::from_str("invalid rule level '");
            message.append(crate::text::string_from_chars(v.as_slice()).as_str());
            message.append("', expected off, info, low, warn, medium, high, error, or critical");
            Err(message)
        }
    }

    /// The word a level is written as.
    pub fn label(self) -> (r: &'static str)
        ensures
            RuleLevel::spec_parse(r@) == Some(self),
    {
        proof {
            reveal_strlit("inherit");
            reveal_strlit("off");
            reveal_strlit("info");
            reveal_strlit("low");
            reveal_strlit("medium");
            reveal_strlit("high");
            reveal_strlit("critical");
            reveal_strlit("disabled");
            reveal_strlit("warn");
            reveal_strlit("warning");
            reveal_strlit("error");
        }
        let r = match self {
            RuleLevel::Inherit => "inherit",
            RuleLevel::Off => "off",
            RuleLevel::Severity(Severity::Info) => "info",
            RuleLevel::Severity(Severity::Low) => "low",
            RuleLevel::Severity(Severity::Medium) => "medium",
            RuleLevel::Severity(Severity::High) => "high",
            RuleLevel::Severity(Severity::Critical) => "critical",
        };
        proof {
            crate::text::lemma_trim_lower_plain(r@);
        }
        r
    }
}

fn eq_str(a: &Vec<char>, b: &str) -> (r: bool)
    ensures
        r == (a@ == b@),
{
    chars_eq(a.as_slice(), chars_of(b).as_slice())
}

/// A similarity threshold in hundredths of a percent.
#[derive(Debug, Clone, Copy, PartialEq, Eq, Structural)]
pub struct SimilarityThreshold {
    pub basis_points: u16,
}

impl SimilarityThreshold {
    pub fn from_basis_points(basis_points: u16) -> (r: SimilarityThreshold)
        ensures
            r.basis_points == basis_points,
    {
        SimilarityThreshold { basis_points }
    }

    pub fn basis_points(self) -> (r: u16)
        ensures
            r == self.basis_points,
    {
        self.basis_points
    }

    /// The threshold as a whole percentage, rounded half up; 100 when it does not fit.
    pub fn as_percent(self) -> (r: u8)
        ensures
            r == (if (self.basis_points + 50) / 100 > 255 {
                100
            } else {
                (self.basis_points + 50) / 100
            }),
    {
        let p: usize = (self.basis_points as usize + 50) / 100;
        if p > 255 {
            100
        } else {
            p as u8
        }
    }
}

/// The values a default `SimilarityThreshold` holds.
pub open spec fn is_default_similarity_threshold(r: SimilarityThreshold) -> bool {
    &&& r.basis_points == 8000
}

impl Default for SimilarityThreshold {
    fn default() -> (r: SimilarityThreshold)
        ensures
            is_default_similarity_threshold(r),
    {
        SimilarityThreshold { basis_points: 8000 }
    }
}

/// The languages and frameworks a project uses.
#[derive(Debug, Clone)]
pub struct ProjectConfig {
    pub languages: Vec<String>,
    pub frameworks: Vec<String>,
}

/// The values a default `ProjectConfig` holds.
pub open spec fn is_default_project(r: ProjectConfig) -> bool {
    &&& text_views(r.languages@) =~= seq!["typescript"@, "tsx"@, "python"@, "rust"@]
    &&& text_views(r.frameworks@) =~= seq!["react"@, "fastapi"@]
}

impl Default for ProjectConfig {
    fn default() -> (r: ProjectConfig)
        ensures
            is_default_project(r),
    {
        ProjectConfig {
            languages: text_list(&["typescript", "tsx", "python", "rust"]),
            frameworks: text_list(&["react", "fastapi"]),
        }
    }
}

/// Which duplicate detectors run and their thresholds.
#[derive(Debug, Clone)]
pub struct DuplicationConfig {
    pub enabled: bool,
    pub detect_names: bool,
    pub detect_exact: bool,
    pub detect_structural: bool,
    pub detect_near: bool,
    pub detect_semantic_candidates: bool,
    pub min_tokens: usize,
    pub min_lines: usize,
    pub min_confidence: Confidence,
    pub structural_normalize_literals: bool,
    pub structural_min_nodes: usize,
    pub structural_max_opaque_percent: u8,
    pub near_similarity_threshold: u8,
    pub near_hash_functions: usize,
    pub near_lsh_bands: usize,
    pub near_lsh_rows: usize,
    pub near_common_shingle_max_percent: u8,
    pub near_common_shingle_min_occurrences: usize,
    pub near_max_bucket_size: usize,
    pub near_max_candidate_pairs: usize,
    pub semantic_property_reads_are_pure: bool,
    pub semantic_normalize_boolean_returns: bool,
    pub semantic_normalize_commutative_ops: bool,
    pub semantic_normalize_comparisons: bool,
}

/// The values a default `DuplicationConfig` holds.
pub open spec fn is_default_duplication(r: DuplicationConfig) -> bool {
    &&& r.enabled == true
    &&& r.detect_names == true
    &&& r.detect_exact == true
    &&& r.detect_structural == true
    &&& r.detect_near == false
    &&& r.detect_semantic_candidates == false
    &&& r.min_tokens == 40
    &&& r.min_lines == 5
    &&& r.min_confidence == Confidence::Medium
    &&& r.structural_normalize_literals == false
    &&& r.structural_min_nodes == 5
    &&& r.structural_max_opaque_percent == 25
    &&& r.near_similarity_threshold == 82
    &&& r.near_hash_functions == 96
    &&& r.near_lsh_bands == 24
    &&& r.near_lsh_rows == 4
    &&& r.near_common_shingle_max_percent == 5
    &&& r.near_common_shingle_min_occurrences == 20
    &&& r.near_max_bucket_size == 200
    &&& r.near_max_candidate_pairs == 250000
    &&& r.semantic_property_reads_are_pure == false
    &&& r.semantic_normalize_boolean_returns == true
    &&& r.semantic_normalize_commutative_ops == true
    &&& r.semantic_normalize_comparisons == true
}

impl Default for DuplicationConfig {
    fn default() -> (r: DuplicationConfig)
        ensures
            is_default_duplication(r),
    {
        DuplicationConfig {
            enabled: true,
            detect_names: true,
            detect_exact: true,
            detect_structural: true,
            detect_near: false,
            detect_semantic_candidates: false,
            min_tokens: 40,
            min_lines: 5,
            min_confidence: Confidence::Medium,
            structural_normalize_literals: false,
            structural_min_nodes: 5,
            structural_max_opaque_percent: 25,
            near_similarity_threshold: 82,
            near_hash_functions: 96,
            near_lsh_bands: 24,
            near_lsh_rows: 4,
            near_common_shingle_max_percent: 5,
            near_common_shingle_min_occurrences: 20,
            near_max_bucket_size: 200,
            near_max_candidate_pairs: 250000,
            semantic_property_reads_are_pure: false,
            semantic_normalize_boolean_returns: true,
            semantic_normalize_commutative_ops: true,
            semantic_normalize_comparisons: true,
        }
    }
}

/// Style suggestions that are enabled.
#[derive(Debug, Clone)]
pub struct StyleConfig {
    pub simplify_boolean_returns: bool,
    pub prefer_expression_arrows: bool,
    pub prefer_guard_clauses: bool,
    pub autofix_safe_only: bool,
}

/// The values a default `StyleConfig` holds.
pub open spec fn is_default_style(r: StyleConfig) -> bool {
    &&& r.simplify_boolean_returns == true
    &&& r.prefer_expression_arrows == true
    &&& r.prefer_guard_clauses == false
    &&& r.autofix_safe_only == true
}

impl Default for StyleConfig {
    fn default() -> (r: StyleConfig)
        ensures
            is_default_style(r),
    {
        StyleConfig {
            simplify_boolean_returns: true,
            prefer_expression_arrows: true,
            prefer_guard_clauses: false,
            autofix_safe_only: true,
        }
    }
}

/// React checks and their limits.
#[derive(Debug, Clone)]
pub struct ReactConfig {
    pub enabled: bool,
    pub max_component_lines: usize,
    pub max_props: usize,
    pub detect_prop_drilling: bool,
    pub prop_drilling_depth: usize,
}

/// The values a default `ReactConfig` holds.
pub open spec fn is_default_react(r: ReactConfig) -> bool {
    &&& r.enabled == true
    &&& r.max_component_lines == 180
    &&& r.max_props == 8
    &&& r.detect_prop_drilling == true
    &&& r.prop_drilling_depth == 3
}

impl Default for ReactConfig {
    fn default() -> (r: ReactConfig)
        ensures
            is_default_react(r),
    {
        ReactConfig {
            enabled: true,
            max_component_lines: 180,
            max_props: 8,
            detect_prop_drilling: true,
            prop_drilling_depth: 3,
        }
    }
}

/// FastAPI checks.
#[derive(Debug, Clone)]
pub struct FastApiConfig {
    pub enabled: bool,
    pub detect_duplicate_routes: bool,
    pub detect_blocking_async_calls: bool,
    pub require_response_model: String,
    pub blocking_call_allowlist: Vec<String>,
    pub blocking_call_patterns: Vec<String>,
}

/// The values a default `FastApiConfig` holds.
pub open spec fn is_default_fastapi(r: FastApiConfig) -> bool {
    &&& r.enabled == true
    &&& r.detect_duplicate_routes == true
    &&& r.detect_blocking_async_calls == true
    &&& r.require_response_model@ == "warn"@
    &&& r.blocking_call_allowlist@.len() == 0
    &&& text_views(r.blocking_call_patterns@) =~= seq!["requests.get"@, "requests.post"@, "requests.put"@, "requests.patch"@, "requests.delete"@, "time.sleep"@, "open("@, ".read("@, ".write("@]
}

impl Default for FastApiConfig {
    fn default() -> (r: FastApiConfig)
        ensures
            is_default_fastapi(r),
    {
        FastApiConfig {
            enabled: true,
            detect_duplicate_routes: true,
            detect_blocking_async_calls: true,
            require_response_model: String::from_str("warn"),
            blocking_call_allowlist: Vec::new(),
            blocking_call_patterns: text_list(&["requests.get", "requests.post", "requests.put", "requests.patch", "requests.delete", "time.sleep", "open(", ".read(", ".write("]),
        }
    }
}

/// Rust checks and the Clippy run.
#[derive(Debug, Clone)]
pub struct RustConfig {
    pub enabled: bool,
    pub clippy_enabled: bool,
    pub clippy_command: String,
    pub clippy_args: Vec<String>,
    pub clippy_timeout_ms: u64,
    pub max_function_lines: usize,
    pub max_params: usize,
    pub max_unwraps: usize,
    pub max_match_depth: usize,
}

/// The values a default `RustConfig` holds.
pub open spec fn is_default_rust(r: RustConfig) -> bool {
    &&& r.enabled == true
    &&& r.clippy_enabled == false
    &&& r.clippy_command@ == "cargo"@
    &&& text_views(r.clippy_args@) =~= seq!["clippy"@, "--message-format=json"@, "--all-targets"@, "--all-features"@]
    &&& r.clippy_timeout_ms == 120000
    &&& r.max_function_lines == 80
    &&& r.max_params == 6
    &&& r.max_unwraps == 2
    &&& r.max_match_depth == 4
}

impl Default for RustConfig {
    fn default() -> (r: RustConfig)
        ensures
            is_default_rust(r),
    {
        RustConfig {
            enabled: true,
            clippy_enabled: false,
            clippy_command: String::from_str("cargo"),
            clippy_args: text_list(&["clippy", "--message-format=json", "--all-targets", "--all-features"]),
            clippy_timeout_ms: 120000,
            max_function_lines: 80,
            max_params: 6,
            max_unwraps: 2,
            max_match_depth: 4,
        }
    }
}

/// Which files a scan reads.
#[derive(Debug, Clone)]
pub struct ScannerConfig {
    /// The patterns of the files to scan.
    pub include_patterns: Vec<String>,
    pub exclude: Vec<String>,
    pub max_file_size_bytes: u64,
    pub follow_symlinks: bool,
    pub include_generated: bool,
    pub include_binary: bool,
    pub detect_javascript: bool,
}

/// The values a default `ScannerConfig` holds.
pub open spec fn is_default_scanner(r: ScannerConfig) -> bool {
    &&& r.include_patterns@.len() == 0
    &&& r.exclude@.len() == 0
    &&& r.max_file_size_bytes == 1048576
    &&& r.follow_symlinks == false
    &&& r.include_generated == false
    &&& r.include_binary == false
    &&& r.detect_javascript == true
}

impl Default for ScannerConfig {
    fn default() -> (r: ScannerConfig)
        ensures
            is_default_scanner(r),
    {
        ScannerConfig {
            include_patterns: Vec::new(),
            exclude: Vec::new(),
            max_file_size_bytes: 1048576,
            follow_symlinks: false,
            include_generated: false,
            include_binary: false,
            detect_javascript: true,
        }
    }
}

/// When CI fails and where the baseline lives.
#[derive(Debug, Clone)]
pub struct CiConfig {
    pub fail_on: Vec<String>,
    pub baseline: Option<String>,
    pub block_new_findings_only: bool,
    pub baseline_owner: Option<String>,
}

/// The values a default `CiConfig` holds.
pub open spec fn is_default_ci(r: CiConfig) -> bool {
    &&& r.fail_on@.len() == 0
    &&& opt_text_is(r.baseline, ".codehealth/baseline.json"@)
    &&& r.block_new_findings_only == true
    &&& r.baseline_owner is None
}

impl Default for CiConfig {
    fn default() -> (r: CiConfig)
        ensures
            is_default_ci(r),
    {
        CiConfig {
            fail_on: Vec::new(),
            baseline: Some(String::from_str(".codehealth/baseline.json")),
            block_new_findings_only: true,
            baseline_owner: None,
        }
    }
}

/// Paths every scan skips.
#[derive(Debug, Clone)]
pub struct IgnoreConfig {
    pub paths: Vec<String>,
}

/// The values a default `IgnoreConfig` holds.
pub open spec fn is_default_ignore(r: IgnoreConfig) -> bool {
    &&& r.paths@.len() == 0
}

impl Default for IgnoreConfig {
    fn default() -> (r: IgnoreConfig)
        ensures
            is_default_ignore(r),
    {
        IgnoreConfig {
            paths: Vec::new(),
        }
    }
}

/// Per-rule thresholds and path filters.
#[derive(Debug, Clone)]
pub struct RuleOptions {
    pub min_tokens: Option<usize>,
    pub min_lines: Option<usize>,
    pub min_confidence: Option<Confidence>,
    pub max_lines: Option<usize>,
    pub max_params: Option<usize>,
    pub max_condition_terms: Option<usize>,
    pub max_literal_occurrences: Option<usize>,
    pub max_unwraps: Option<usize>,
    pub max_depth: Option<usize>,
    pub min_nodes: Option<usize>,
    pub max_context_values: Option<usize>,
    pub max_responsibilities: Option<usize>,
    pub include_paths: Vec<String>,
    pub exclude_paths: Vec<String>,
}

/// The values a default `RuleOptions` holds.
pub open spec fn is_default_rule_options(r: RuleOptions) -> bool {
    &&& r.min_tokens is None
    &&& r.min_lines is None
    &&& r.min_confidence is None
    &&& r.max_lines is None
    &&& r.max_params is None
    &&& r.max_condition_terms is None
    &&& r.max_literal_occurrences is None
    &&& r.max_unwraps is None
    &&& r.max_depth is None
    &&& r.min_nodes is None
    &&& r.max_context_values is None
    &&& r.max_responsibilities is None
    &&& r.include_paths@.len() == 0
    &&& r.exclude_paths@.len() == 0
}

impl Default for RuleOptions {
    fn default() -> (r: RuleOptions)
        ensures
            is_default_rule_options(r),
    {
        RuleOptions {
            min_tokens: None,
            min_lines: None,
            min_confidence: None,
            max_lines: None,
            max_params: None,
            max_condition_terms: None,
            max_literal_occurrences: None,
            max_unwraps: None,
            max_depth: None,
            min_nodes: None,
            max_context_values: None,
            max_responsibilities: None,
            include_paths: Vec::new(),
            exclude_paths: Vec::new(),
        }
    }
}

/// Rule levels that apply to some paths only.
#[derive(Debug, Clone)]
pub struct PathOverride {
    pub paths: Vec<String>,
    pub rules: Vec<(String, RuleLevel)>,
}

/// The values a default `PathOverride` holds.
pub open spec fn is_default_path_override(r: PathOverride) -> bool {
    &&& r.paths@.len() == 0
    &&& r.rules@.len() == 0
}

impl Default for PathOverride {
    fn default() -> (r: PathOverride)
        ensures
            is_default_path_override(r),
    {
        PathOverride {
            paths: Vec::new(),
            rules: Vec::new(),
        }
    }
}

/// How reports are rendered by default.
#[derive(Debug, Clone)]
pub struct ReportConfig {
    pub default_format: String,
    pub color: String,
}

/// The values a default `ReportConfig` holds.
pub open spec fn is_default_report(r: ReportConfig) -> bool {
    &&& r.default_format@ == "text"@
    &&& r.color@ == "auto"@
}

impl Default for ReportConfig {
    fn default() -> (r: ReportConfig)
        ensures
            is_default_report(r),
    {
        ReportConfig {
            default_format: String::from_str("text"),
            color: String::from_str("auto"),
        }
    }
}

/// Whether the health score is computed.
#[derive(Debug, Clone)]
pub struct ScoringConfig {
    pub enabled: bool,
}

/// The values a default `ScoringConfig` holds.
pub open spec fn is_default_scoring(r: ScoringConfig) -> bool {
    &&& r.enabled == true
}

impl Default for ScoringConfig {
    fn default() -> (r: ScoringConfig)
        ensures
            is_default_scoring(r),
    {
        ScoringConfig {
            enabled: true,
        }
    }
}

/// Embedding-based candidates and their privacy.
#[derive(Debug, Clone)]
pub struct EmbeddingsConfig {
    pub enabled: bool,
    pub provider: String,
    pub privacy_mode: String,
    pub similarity_threshold: SimilarityThreshold,
    pub candidate_limit: usize,
    pub cache_vectors: bool,
}

/// The values a default `EmbeddingsConfig` holds.
pub open spec fn is_default_embeddings(r: EmbeddingsConfig) -> bool {
    &&& r.enabled == false
    &&& r.provider@ == "none"@
    &&& r.privacy_mode@ == "disabled"@
    &&& r.similarity_threshold.basis_points == 8000
    &&& r.candidate_limit == 100
    &&& r.cache_vectors == true
}

impl Default for EmbeddingsConfig {
    fn default() -> (r: EmbeddingsConfig)
        ensures
            is_default_embeddings(r),
    {
        EmbeddingsConfig {
            enabled: false,
            provider: String::from_str("none"),
            privacy_mode: String::from_str("disabled"),
            similarity_threshold: SimilarityThreshold { basis_points: 8000 },
            candidate_limit: 100,
            cache_vectors: true,
        }
    }
}

/// Which external tools run and how.
#[derive(Debug, Clone)]
pub struct IntegrationsConfig {
    pub eslint: bool,
    pub biome: bool,
    pub tsc: bool,
    pub ruff: bool,
    pub mypy: bool,
    pub pyright: bool,
    pub cargo_check: bool,
    pub clippy: bool,
    pub semgrep: bool,
    pub fail_on_tool_error: bool,
    pub timeout_ms: u64,
    pub eslint_command: String,
    pub eslint_args: Vec<String>,
    pub biome_command: String,
    pub biome_args: Vec<String>,
    pub tsc_command: String,
    pub tsc_args: Vec<String>,
    pub ruff_command: String,
    pub ruff_args: Vec<String>,
    pub mypy_command: String,
    pub mypy_args: Vec<String>,
    pub pyright_command: String,
    pub pyright_args: Vec<String>,
    pub cargo_check_command: String,
    pub cargo_check_args: Vec<String>,
    pub clippy_command: String,
    pub clippy_args: Vec<String>,
    pub semgrep_command: String,
    pub semgrep_args: Vec<String>,
}

/// The values a default `IntegrationsConfig` holds.
pub open spec fn is_default_integrations(r: IntegrationsConfig) -> bool {
    &&& r.eslint == false
    &&& r.biome == false
    &&& r.tsc == false
    &&& r.ruff == false
    &&& r.mypy == false
    &&& r.pyright == false
    &&& r.cargo_check == false
    &&& r.clippy == false
    &&& r.semgrep == false
    &&& r.fail_on_tool_error == false
    &&& r.timeout_ms == 120000
    &&& r.eslint_command@ == "eslint"@
    &&& text_views(r.eslint_args@) =~= seq!["--format"@, "json"@, "."@]
    &&& r.biome_command@ == "biome"@
    &&& text_views(r.biome_args@) =~= seq!["ci"@, "--reporter=json"@]
    &&& r.tsc_command@ == "tsc"@
    &&& text_views(r.tsc_args@) =~= seq!["--noEmit"@, "--pretty"@, "false"@]
    &&& r.ruff_command@ == "ruff"@
    &&& text_views(r.ruff_args@) =~= seq!["check"@, "--output-format=json"@, "."@]
    &&& r.mypy_command@ == "mypy"@
    &&& text_views(r.mypy_args@) =~= seq!["--show-column-numbers"@, "--no-error-summary"@, "."@]
    &&& r.pyright_command@ == "pyright"@
    &&& text_views(r.pyright_args@) =~= seq!["--outputjson"@]
    &&& r.cargo_check_command@ == "cargo"@
    &&& text_views(r.cargo_check_args@) =~= seq!["check"@, "--message-format=json"@]
    &&& r.clippy_command@ == "cargo"@
    &&& text_views(r.clippy_args@) =~= seq!["clippy"@, "--message-format=json"@, "--all-targets"@, "--all-features"@]
    &&& r.semgrep_command@ == "semgrep"@
    &&& text_views(r.semgrep_args@) =~= seq!["scan"@, "--json"@]
}

impl Default for IntegrationsConfig {
    fn default() -> (r: IntegrationsConfig)
        ensures
            is_default_integrations(r),
    {
        IntegrationsConfig {
            eslint: false,
            biome: false,
            tsc: false,
            ruff: false,
            mypy: false,
            pyright: false,
            cargo_check: false,
            clippy: false,
            semgrep: false,
            fail_on_tool_error: false,
            timeout_ms: 120000,
            eslint_command: String::from_str("eslint"),
            eslint_args: text_list(&["--format", "json", "."]),
            biome_command: String::from_str("biome"),
            biome_args: text_list(&["ci", "--reporter=json"]),
            tsc_command: String::from_str("tsc"),
            tsc_args: text_list(&["--noEmit", "--pretty", "false"]),
            ruff_command: String::from_str("ruff"),
            ruff_args: text_list(&["check", "--output-format=json", "."]),
            mypy_command: String::from_str("mypy"),
            mypy_args: text_list(&["--show-column-numbers", "--no-error-summary", "."]),
            pyright_command: String::from_str("pyright"),
            pyright_args: text_list(&["--outputjson"]),
            cargo_check_command: String::from_str("cargo"),
            cargo_check_args: text_list(&["check", "--message-format=json"]),
            clippy_command: String::from_str("cargo"),
            clippy_args: text_list(&["clippy", "--message-format=json", "--all-targets", "--all-features"]),
            semgrep_command: String::from_str("semgrep"),
            semgrep_args: text_list(&["scan", "--json"]),
        }
    }
}

/// Where cached data is kept.
#[derive(Debug, Clone)]
pub struct CacheConfig {
    pub enabled: bool,
    pub dir: String,
}

/// The values a default `CacheConfig` holds.
pub open spec fn is_default_cache(r: CacheConfig) -> bool {
    &&& r.enabled == true
    &&& r.dir@ == ".codehealth/cache"@
}

impl Default for CacheConfig {
    fn default() -> (r: CacheConfig)
        ensures
            is_default_cache(r),
    {
        CacheConfig {
            enabled: true,
            dir: String::from_str(".codehealth/cache"),
        }
    }
}


/// The texts of a list of strings.
pub open spec fn text_views(v: Seq<String>) -> Seq<Seq<char>> {
    v.map_values(|s: String| s@)
}

/// The option holds exactly the given text.
pub open spec fn opt_text_is(o: Option<String>, t: Seq<char>) -> bool {
    match o {
        Some(s) => s@ == t,
        None => false,
    }
}

/// Owned copies of the given texts.
pub fn text_list(items: &[&str]) -> (r: Vec<String>)
    ensures
        text_views(r@) == items@.map_values(|s: &str| s@),
{
    let mut out: Vec<String> = Vec::new();
    for i in 0..items.len()
        invariant
            text_views(out@) == items@.take(i as int).map_values(|s: &str| s@),
    {
        let item = String::from_str(items[i]);
        let ghost before = text_views(out@);
        out.push(item);
        assert(text_views(out@) =~= before.push(items@[i as int]@));
        assert(text_views(out@) =~= items@.take(i + 1).map_values(|s: &str| s@));
    }
    assert(items@.take(items@.len() as int) =~= items@);
    out
}

impl IntegrationsConfig {
    /// Whether any external tool is switched on.
    pub fn any_enabled(&self) -> (r: bool)
        ensures
            r == (self.eslint || self.biome || self.tsc || self.ruff || self.mypy || self.pyright
                || self.cargo_check || self.clippy || self.semgrep),
    {
        self.eslint || self.biome || self.tsc || self.ruff || self.mypy || self.pyright
            || self.cargo_check || self.clippy || self.semgrep
    }
}

/// The whole configuration.
#[derive(Debug, Clone)]
pub struct CodehealthConfig {
    pub project: ProjectConfig,
    pub duplication: DuplicationConfig,
    pub style: StyleConfig,
    pub react: ReactConfig,
    pub fastapi: FastApiConfig,
    pub rust: RustConfig,
    pub scanner: ScannerConfig,
    pub ci: CiConfig,
    pub ignore: IgnoreConfig,
    /// Rule levels by rule id, in rule-id order.
    pub rules: Vec<(String, RuleLevel)>,
    /// Rule options by rule id, in rule-id order.
    pub rule_options: Vec<(String, RuleOptions)>,
    pub path_overrides: Vec<PathOverride>,
    pub report: ReportConfig,
    pub scoring: ScoringConfig,
    pub embeddings: EmbeddingsConfig,
    pub integrations: IntegrationsConfig,
    pub cache: CacheConfig,
}

/// The values a default configuration holds: every section at its defaults and no
/// rule levels, rule options or path overrides.
pub open spec fn is_default_config(c: CodehealthConfig) -> bool {
    &&& is_default_project(c.project)
    &&& is_default_duplication(c.duplication)
    &&& is_default_style(c.style)
    &&& is_default_react(c.react)
    &&& is_default_fastapi(c.fastapi)
    &&& is_default_rust(c.rust)
    &&& is_default_scanner(c.scanner)
    &&& is_default_ci(c.ci)
    &&& is_default_ignore(c.ignore)
    &&& c.rules@.len() == 0
    &&& c.rule_options@.len() == 0
    &&& c.path_overrides@.len() == 0
    &&& is_default_report(c.report)
    &&& is_default_scoring(c.scoring)
    &&& is_default_embeddings(c.embeddings)
    &&& is_default_integrations(c.integrations)
    &&& is_default_cache(c.cache)
}

impl Default for CodehealthConfig {
    fn default() -> (r: CodehealthConfig)
        ensures
            is_default_config(r),
    {
        CodehealthConfig {
            project: ProjectConfig::default(),
            duplication: DuplicationConfig::default(),
            style: StyleConfig::default(),
            react: ReactConfig::default(),
            fastapi: FastApiConfig::default(),
            rust: RustConfig::default(),
            scanner: ScannerConfig::default(),
            ci: CiConfig::default(),
            ignore: IgnoreConfig::default(),
            rules: Vec::new(),
            rule_options: Vec::new(),
            path_overrides: Vec::new(),
            report: ReportConfig::default(),
            scoring: ScoringConfig::default(),
            embeddings: EmbeddingsConfig::default(),
            integrations: IntegrationsConfig::default(),
            cache: CacheConfig::default(),
        }
    }
}

/// A problem found while validating a configuration.
#[derive(Debug, Clone)]
pub enum ConfigValidationError {
    UnknownRule { context: String, rule_id: String, known_rules: Vec<String> },
    InvalidValue { context: String, value: String, expected: Vec<String> },
    InvalidGlob { context: String, pattern: String, message: String },
}

/// The problems of one failed validation step.
#[derive(Debug, Clone)]
pub struct ValidationErrors(pub Vec<ConfigValidationError>);

/// Why a configuration could not be loaded.
#[derive(Debug, Clone)]
pub enum ConfigError {
    Read { path: String, message: String },
    Parse { path: String, message: String },
    Validation(ValidationErrors),
}

/// A note about a configuration that loaded.
#[derive(Debug, Clone)]
pub struct ConfigWarning {
    pub message: String,
}

/// A configuration together with where it was read from.
#[derive(Debug, Clone)]
pub struct LoadedConfig {
    pub config: CodehealthConfig,
    pub path: Option<String>,
    pub warnings: Vec<ConfigWarning>,
}

/// A validation problem as texts.
pub enum ErrorView {
    UnknownRule { context: Seq<char>, rule_id: Seq<char>, known_rules: Seq<Seq<char>> },
    InvalidValue { context: Seq<char>, value: Seq<char>, expected: Seq<Seq<char>> },
    InvalidGlob { context: Seq<char>, pattern: Seq<char>, message: Seq<char> },
}

pub open spec fn error_view(e: ConfigValidationError) -> ErrorView {
    match e {
        ConfigValidationError::UnknownRule { context, rule_id, known_rules } => ErrorView::UnknownRule {
            context: context@,
            rule_id: rule_id@,
            known_rules: text_views(known_rules@),
        },
        ConfigValidationError::InvalidValue { context, value, expected } => ErrorView::InvalidValue {
            context: context@,
            value: value@,
            expected: text_views(expected@),
        },
        ConfigValidationError::InvalidGlob { context, pattern, message } => ErrorView::InvalidGlob {
            context: context@,
            pattern: pattern@,
            message: message@,
        },
    }
}

/// Joins texts with a separator.
pub fn join_strings(parts: &Vec<String>, sep: &str) -> (r: String)
    ensures
        r@ == spec_join(text_views(parts@), sep@),
{
    let mut r = String::new();
    for i in 0..parts.len()
        invariant
            r@ == spec_join(text_views(parts@.take(i as int)), sep@),
    {
        if i > 0 {
            r.append(sep);
        }
        r.append(parts[i].as_str());
        assert(text_views(parts@.take(i + 1)).drop_last() =~= text_views(parts@.take(i as int)));
        assert(text_views(parts@.take(i + 1)).last() == parts@[i as int]@);
        if i == 0 {
            assert(r@ =~= spec_join(text_views(parts@.take(i + 1)), sep@));
        }
    }
    assert(parts@.take(parts@.len() as int) =~= parts@);
    r
}

/// The sentence that describes a validation problem.
pub open spec fn problem_message(e: ErrorView) -> Seq<char> {
    match e {
        ErrorView::UnknownRule { context, rule_id, known_rules } => "unknown rule id '"@ + rule_id + "' in "@ + context
            + "; known rules: "@ + spec_join(known_rules, ", "@),
        ErrorView::InvalidValue { context, value, expected } => "invalid value '"@ + value + "' in "@ + context
            + "; expected one of: "@ + spec_join(expected, ", "@),
        ErrorView::InvalidGlob { context, pattern, message } => "invalid glob '"@ + pattern + "' in "@ + context + ": "@
            + message,
    }
}

/// The sentences of several problems, separated by `; `.
pub open spec fn problems_message(es: Seq<ErrorView>) -> Seq<char> {
    spec_join(es.map_values(|e: ErrorView| problem_message(e)), "; "@)
}

/// The text that describes why a configuration could not be loaded.
pub open spec fn config_error_message(e: ConfigError) -> Seq<char> {
    match e {
        ConfigError::Read { path, .. } => "failed to read config at "@ + path@,
        ConfigError::Parse { path, .. } => "failed to parse config at "@ + path@,
        ConfigError::Validation(ValidationErrors(es)) => "invalid config: "@ + problems_message(error_views(es@)),
    }
}

impl ConfigValidationError {
    /// The sentence that describes the problem.
    pub fn message(&self) -> (r: String)
        ensures
            r@ == problem_message(error_view(*self)),
    {
        let mut r = String::new();
        match self {
            ConfigValidationError::UnknownRule { context, rule_id, known_rules } => {
                r.append("unknown rule id '");
                r.append(rule_id.as_str());
                r.append("' in ");
                r.append(context.as_str());
                r.append("; known rules: ");
                r.append(join_strings(known_rules, ", ").as_str());
            },
            ConfigValidationError::InvalidValue { context, value, expected } => {
                r.append("invalid value '");
                r.append(value.as_str());
                r.append("' in ");
                r.append(context.as_str());
                r.append("; expected one of: ");
                r.append(join_strings(expected, ", ").as_str());
            },
            ConfigValidationError::InvalidGlob { context, pattern, message } => {
                r.append("invalid glob '");
                r.append(pattern.as_str());
                r.append("' in ");
                r.append(context.as_str());
                r.append(": ");
                r.append(message.as_str());
            },
        }
        proof {
            assert(r@ =~= problem_message(error_view(*self)));
        }
        r
    }
}

impl ValidationErrors {
    /// The sentences of all the problems, separated by `; `.
    pub fn message(&self) -> (r: String)
        ensures
            r@ == problems_message(error_views(self.0@)),
    {
        let mut parts: Vec<String> = Vec::new();
        for i in 0..self.0.len()
            invariant
                parts@.len() == i,
                forall|j: int| 0 <= j < i ==> (#[trigger] parts@[j])@ == problem_message(error_view(self.0@[j])),
        {
            parts.push(self.0[i].message());
        }
        assert(text_views(parts@) =~= error_views(self.0@).map_values(|e: ErrorView| problem_message(e)));
        join_strings(&parts, "; ")
    }
}

impl ConfigError {
    /// The text that describes the error.
    pub fn message(&self) -> (r: String)
        ensures
            r@ == config_error_message(*self),
    {
        let mut r = String::new();
        match self {
            ConfigError::Read { path, .. } => {
                r.append("failed to read config at ");
                r.append(path.as_str());
            },
            ConfigError::Parse { path, .. } => {
                r.append("failed to parse config at ");
                r.append(path.as_str());
            },
            ConfigError::Validation(errors) => {
                r.append("invalid config: ");
                r.append(errors.message().as_str());
            },
        }
        r
    }
}

pub open spec fn error_views(es: Seq<ConfigValidationError>) -> Seq<ErrorView> {
    es.map_values(|e: ConfigValidationError| error_view(e))
}

/// The validation problems an error carries, if it is a validation error.
pub open spec fn validation_errors(r: Result<(), ConfigError>) -> Option<Seq<ErrorView>> {
    match r {
        Err(e) => error_list(e),
        Ok(()) => None,
    }
}

/// The outcome of one validation step: no problems, or the problems it found.
pub open spec fn step_result(r: Result<(), ConfigError>, errors: Seq<ErrorView>) -> bool {
    if errors.len() == 0 {
        r is Ok
    } else {
        validation_errors(r) == Some(errors)
    }
}

/// ASCII case-insensitive equality.
pub open spec fn eq_ignore_ascii_case(a: Seq<char>, b: Seq<char>) -> bool {
    spec_lower(a) == spec_lower(b)
}

/// The values that no allowed word matches, case ignored, each as an invalid-value
/// problem listing the allowed words.
pub open spec fn enum_list_errors(context: Seq<char>, values: Seq<Seq<char>>, allowed: Seq<Seq<char>>) -> Seq<ErrorView>
    decreases values.len(),
{
    if values.len() == 0 {
        seq![]
    } else {
        let earlier = enum_list_errors(context, values.drop_last(), allowed);
        let v = values.last();
        if exists|k: int| 0 <= k < allowed.len() && eq_ignore_ascii_case(#[trigger] allowed[k], v) {
            earlier
        } else {
            earlier.push(ErrorView::InvalidValue { context, value: v, expected: allowed })
        }
    }
}

fn any_eq_ignore_ascii_case(allowed: &[&str], value: &str) -> (r: bool)
    ensures
        r == exists|k: int| 0 <= k < allowed@.len() && eq_ignore_ascii_case(#[trigger] allowed@[k]@, value@),
{
    let v = lower_chars(chars_of(value).as_slice());
    for k in 0..allowed.len()
        invariant
            v@ == spec_lower(value@),
            forall|j: int| 0 <= j < k ==> !eq_ignore_ascii_case(#[trigger] allowed@[j]@, value@),
    {
        let a = lower_chars(chars_of(allowed[k]).as_slice());
        if chars_eq(a.as_slice(), v.as_slice()) {
            return true;
        }
    }
    false
}

/// Refuses every value that is not one of the allowed words (case ignored).
fn validate_enum_list(context: &str, values: &[String], allowed: &[&str]) -> (r: Result<(), ConfigError>)
    ensures
        step_result(r, enum_list_errors(context@, text_views(values@), allowed@.map_values(|a: &str| a@))),
{
    let ghost av = allowed@.map_values(|a: &str| a@);
    let ghost vv = text_views(values@);
    let mut errors: Vec<ConfigValidationError> = Vec::new();
    for i in 0..values.len()
        invariant
            av == allowed@.map_values(|a: &str| a@),
            vv == text_views(values@),
            error_views(errors@) == enum_list_errors(context@, vv.take(i as int), av),
    {
        assert(vv.take(i + 1).drop_last() =~= vv.take(i as int));
        assert(vv.take(i + 1).last() == values@[i as int]@);
        let found = any_eq_ignore_ascii_case(allowed, values[i].as_str());
        proof {
            if found {
                let k = choose|k: int| 0 <= k < allowed@.len() && eq_ignore_ascii_case(#[trigger] allowed@[k]@, values@[i as int]@);
                assert(av[k] == allowed@[k]@);
            } else {
                assert forall|k: int| 0 <= k < av.len() implies !eq_ignore_ascii_case(#[trigger] av[k], vv.take(i + 1).last()) by {
                    assert(av[k] == allowed@[k]@);
                }
            }
        }
        if !found {
            let ghost before = error_views(errors@);
            let expected = text_list(allowed);
            errors.push(
                ConfigValidationError::InvalidValue {
                    context: String::from_str(context),
                    value: values[i].clone(),
                    expected,
                },
            );
            assert(error_views(errors@) =~= before.push(error_view(errors@.last())));
        }
    }
    assert(vv.take(vv.len() as int) =~= vv);
    if errors.len() == 0 {
        Ok(())
    } else {
        Err(ConfigError::Validation(ValidationErrors(errors)))
    }
}

/// The problem a value outside 1..=max would be, as a positive-integer problem.
pub open spec fn positive_errors(value: nat, context: Seq<char>) -> Seq<ErrorView> {
    if value == 0 {
        seq![ErrorView::InvalidValue { context, value: seq!['0'], expected: seq!["positive integer"@] }]
    } else {
        seq![]
    }
}

fn invalid_value(context: &str, value: String, expected: &str) -> (r: Result<(), ConfigError>)
    ensures
        validation_errors(r) == Some(seq![ErrorView::InvalidValue { context: context@, value: value@, expected: seq![expected@] }]),
{
    let mut list: Vec<String> = Vec::new();
    list.push(String::from_str(expected));
    let mut errors: Vec<ConfigValidationError> = Vec::new();
    errors.push(ConfigValidationError::InvalidValue { context: String::from_str(context), value, expected: list });
    assert(text_views(errors@[0]->InvalidValue_expected@) =~= seq![expected@]);
    assert(error_views(errors@) =~= seq![ErrorView::InvalidValue { context: context@, value: value@, expected: seq![expected@] }]);
    Err(ConfigError::Validation(ValidationErrors(errors)))
}

/// Refuses zero.
fn validate_positive(value: u64, context: &str) -> (r: Result<(), ConfigError>)
    ensures
        step_result(r, positive_errors(value as nat, context@)),
{
    if value == 0 {
        let zero = crate::text::decimal(0);
        assert(crate::text::spec_decimal(0) =~= seq!['0']);
        return invalid_value(context, zero, "positive integer");
    }
    Ok(())
}

/// The problem of a percentage above 100.
pub open spec fn percentage_errors(value: u8, context: Seq<char>) -> Seq<ErrorView> {
    if value > 100 {
        seq![ErrorView::InvalidValue { context, value: crate::text::spec_decimal(value as nat), expected: seq!["integer from 0 through 100"@] }]
    } else {
        seq![]
    }
}

/// Refuses percentages above 100.
fn validate_percentage(value: u8, context: &str) -> (r: Result<(), ConfigError>)
    ensures
        step_result(r, percentage_errors(value, context@)),
{
    if value > 100 {
        return invalid_value(context, crate::text::decimal(value as usize), "integer from 0 through 100");
    }
    Ok(())
}

/// The problem of an embedding provider other than `none`.
pub open spec fn provider_errors(value: Seq<char>) -> Seq<ErrorView> {
    if eq_ignore_ascii_case(value, "none"@) {
        seq![]
    } else {
        let expected = if eq_ignore_ascii_case(value, "local"@) || eq_ignore_ascii_case(value, "external"@) {
            seq!["none (local and external providers are reserved for a future version)"@]
        } else {
            seq!["none"@]
        };
        seq![ErrorView::InvalidValue { context: "embeddings.provider"@, value, expected }]
    }
}

fn eq_ignore_case_str(a: &str, b: &str) -> (r: bool)
    ensures
        r == eq_ignore_ascii_case(a@, b@),
{
    chars_eq(lower_chars(chars_of(a).as_slice()).as_slice(), lower_chars(chars_of(b).as_slice()).as_slice())
}

/// Only the `none` provider is available; `local` and `external` are reserved.
fn validate_embedding_provider(value: &str) -> (r: Result<(), ConfigError>)
    ensures
        step_result(r, provider_errors(value@)),
{
    if eq_ignore_case_str(value, "none") {
        return Ok(());
    }
    if eq_ignore_case_str("local", value) || eq_ignore_case_str("external", value) {
        proof {
            assert(eq_ignore_ascii_case(value@, "local"@) == eq_ignore_ascii_case("local"@, value@));
        }
        invalid_value("embeddings.provider", String::from_str(value), "none (local and external providers are reserved for a future version)")
    } else {
        invalid_value("embeddings.provider", String::from_str(value), "none")
    }
}

/// A value below 10000 written with four digits.
pub open spec fn four_digits(n: nat) -> Seq<char> {
    seq![
        crate::text::digit_char(n / 1000),
        crate::text::digit_char((n / 100) % 10),
        crate::text::digit_char((n / 10) % 10),
        crate::text::digit_char(n % 10),
    ]
}

/// Basis points written as a ratio with four decimals.
pub open spec fn ratio_text(basis_points: nat) -> Seq<char> {
    crate::text::spec_decimal(basis_points / 10000) + seq!['.'] + four_digits(basis_points % 10000)
}

fn ratio_text_exec(basis_points: u16) -> (r: String)
    ensures
        r@ == ratio_text(basis_points as nat),
{
    let whole = crate::text::decimal((basis_points / 10000) as usize);
    let frac = (basis_points % 10000) as usize;
    let mut out = chars_of(whole.as_str());
    out.push('.');
    out.push(digit((frac / 1000) as usize));
    out.push(digit((frac / 100) % 10));
    out.push(digit((frac / 10) % 10));
    out.push(digit(frac % 10));
    assert(out@ =~= ratio_text(basis_points as nat));
    string_from_chars(out.as_slice())
}

fn digit(d: usize) -> (r: char)
    requires
        d < 10,
    ensures
        r == crate::text::digit_char(d as nat),
{
    let b: u8 = 48u8 + (d as u8);
    b as char
}

/// The problem of a similarity threshold outside (0, 1].
pub open spec fn threshold_errors(value: SimilarityThreshold, context: Seq<char>) -> Seq<ErrorView> {
    if value.basis_points == 0 || value.basis_points > 10000 {
        seq![ErrorView::InvalidValue { context, value: ratio_text(value.basis_points as nat), expected: seq!["number greater than 0.0 and at most 1.0"@] }]
    } else {
        seq![]
    }
}

/// Refuses thresholds of zero or above one.
fn validate_similarity_threshold(value: SimilarityThreshold, context: &str) -> (r: Result<(), ConfigError>)
    ensures
        step_result(r, threshold_errors(value, context@)),
{
    if value.basis_points == 0 || value.basis_points > 10000 {
        return invalid_value(context, ratio_text_exec(value.basis_points), "number greater than 0.0 and at most 1.0");
    }
    Ok(())
}

/// A pattern that uses glob syntax.
pub open spec fn has_glob_chars(p: Seq<char>) -> bool {
    p.contains('*') || p.contains('?') || p.contains('[')
}

/// The glob patterns that do not compile, with the compiler's message.
pub open spec fn pattern_errors(patterns: Seq<Seq<char>>, context: Seq<char>) -> Seq<ErrorView>
    decreases patterns.len(),
{
    if patterns.len() == 0 {
        seq![]
    } else {
        let earlier = pattern_errors(patterns.drop_last(), context);
        let p = patterns.last();
        if has_glob_chars(p) && spec_glob_error(p) is Some {
            earlier.push(ErrorView::InvalidGlob { context, pattern: p, message: spec_glob_error(p)->0 })
        } else {
            earlier
        }
    }
}

fn has_glob_chars_exec(p: &Vec<char>) -> (r: bool)
    ensures
        r == has_glob_chars(p@),
{
    contains_char(p.as_slice(), '*') || contains_char(p.as_slice(), '?') || contains_char(p.as_slice(), '[')
}

/// Refuses glob patterns that do not compile.
fn validate_patterns(patterns: &[String], context: &str) -> (r: Result<(), ConfigError>)
    ensures
        step_result(r, pattern_errors(text_views(patterns@), context@)),
{
    let ghost pv = text_views(patterns@);
    let mut errors: Vec<ConfigValidationError> = Vec::new();
    for i in 0..patterns.len()
        invariant
            pv == text_views(patterns@),
            error_views(errors@) == pattern_errors(pv.take(i as int), context@),
    {
        assert(pv.take(i + 1).drop_last() =~= pv.take(i as int));
        assert(pv.take(i + 1).last() == patterns@[i as int]@);
        let p = chars_of(patterns[i].as_str());
        if has_glob_chars_exec(&p) {
            match glob_error(patterns[i].as_str()) {
                Some(message) => {
                    let ghost before = error_views(errors@);
                    errors.push(
                        ConfigValidationError::InvalidGlob {
                            context: String::from_str(context),
                            pattern: patterns[i].clone(),
                            message,
                        },
                    );
                    assert(error_views(errors@) =~= before.push(error_view(errors@.last())));
                },
                None => {},
            }
        }
    }
    assert(pv.take(pv.len() as int) =~= pv);
    if errors.len() == 0 {
        Ok(())
    } else {
        Err(ConfigError::Validation(ValidationErrors(errors)))
    }
}

/// Whether one pattern matches a path, given the path relative to the root and the whole
/// path, both with `/` separators. A pattern without glob syntax names a file or a
/// directory: it matches the path itself, a path under it, or a path with it as a
/// trailing component or a directory component. A glob pattern matches either text,
/// directly or after any leading directories (`**/`), as a `globset` set of the valid
/// globs does.
pub open spec fn spec_path_matches_pattern(relative: Seq<char>, normalized: Seq<char>, pattern: Seq<char>) -> bool {
    let p = spec_replace_char(spec_trim(pattern), '\\', '/');
    if p.len() == 0 {
        false
    } else if !has_glob_chars(p) {
        ||| relative == p
        ||| normalized == p
        ||| (p.len() + 1 <= relative.len() && relative.take(p.len() as int + 1) == p + seq!['/'])
        ||| (p.len() + 1 <= normalized.len() && normalized.skip(normalized.len() - (p.len() + 1)) == seq!['/'] + p)
        ||| (exists|q: int| occurs_at(normalized, seq!['/'] + p + seq!['/'], q))
    } else {
        let globs = glob_candidates(p);
        spec_glob_set_builds(globs) && (spec_glob_set_match(globs, relative) || spec_glob_set_match(globs, normalized))
    }
}

/// The globs a pattern stands for: the pattern itself and, unless it already starts
/// with `**/`, the pattern under any leading directories.
pub open spec fn glob_candidates(p: Seq<char>) -> Seq<Seq<char>> {
    if p.len() >= 3 && p.take(3) == "**/"@ {
        seq![p]
    } else {
        seq![p, "**/"@ + p]
    }
}

/// A glob pattern that does not start with `**/` is also tried under any leading
/// directories: the path is matched against the set made of the pattern and of
/// `**/` followed by the pattern, so a path that `**/p` matches is matched by `p`
/// (`generated/**` excludes `packages/app/generated/api.ts`). A pattern that already
/// starts with `**/` is matched as it stands.
pub proof fn lemma_glob_pattern_matches_under_any_directories(relative: Seq<char>, normalized: Seq<char>, pattern: Seq<char>)
    requires
        has_glob_chars(spec_replace_char(spec_trim(pattern), '\\', '/')),
    ensures
        ({
            let p = spec_replace_char(spec_trim(pattern), '\\', '/');
            let set = if p.len() >= 3 && p.take(3) == "**/"@ {
                seq![p]
            } else {
                seq![p, "**/"@ + p]
            };
            &&& !(p.len() >= 3 && p.take(3) == "**/"@) ==> set.len() == 2 && set[0] == p && set[1] == "**/"@ + p
            &&& spec_path_matches_pattern(relative, normalized, pattern) == (spec_glob_set_builds(set) && (spec_glob_set_match(
                set,
                relative,
            ) || spec_glob_set_match(set, normalized)))
        }),
{
    let p = spec_replace_char(spec_trim(pattern), '\\', '/');
    if p.len() == 0 {
        assert(!has_glob_chars(p));
    }
}

/// A pattern without glob syntax names a file or a directory: it matches the path
/// itself, every path under it, and every path that has it as a directory component or
/// as its last component; it matches nothing else.
pub proof fn lemma_plain_pattern_names_file_or_directory(relative: Seq<char>, normalized: Seq<char>, pattern: Seq<char>)
    requires
        spec_replace_char(spec_trim(pattern), '\\', '/').len() > 0,
        !has_glob_chars(spec_replace_char(spec_trim(pattern), '\\', '/')),
    ensures
        ({
            let p = spec_replace_char(spec_trim(pattern), '\\', '/');
            let under = relative.len() > p.len() && relative.take(p.len() as int) == p && relative[p.len() as int] == '/';
            let last = normalized.len() > p.len() && normalized.skip(normalized.len() - p.len()) == p
                && normalized[normalized.len() - p.len() - 1] == '/';
            let inner = exists|q: int|
                0 <= q && q + p.len() + 2 <= normalized.len() && normalized[q] == '/' && #[trigger] normalized.subrange(
                    q + 1,
                    q + 1 + p.len(),
                ) == p && normalized[q + 1 + p.len()] == '/';
            spec_path_matches_pattern(relative, normalized, pattern) == (relative == p || normalized == p || under || last
                || inner)
        }),
{
    let p = spec_replace_char(spec_trim(pattern), '\\', '/');
    let w = seq!['/'] + p + seq!['/'];
    if relative.len() > p.len() {
        if relative.take(p.len() as int + 1) == p + seq!['/'] {
            assert(relative.take(p.len() as int) =~= relative.take(p.len() as int + 1).take(p.len() as int));
            assert(relative[p.len() as int] == relative.take(p.len() as int + 1)[p.len() as int]);
            assert((p + seq!['/']).take(p.len() as int) =~= p);
        }
        if relative.take(p.len() as int) == p && relative[p.len() as int] == '/' {
            assert(relative.take(p.len() as int + 1) =~= p + seq!['/']);
        }
    }
    if normalized.len() > p.len() {
        let k = normalized.len() - (p.len() + 1);
        if normalized.skip(k) == seq!['/'] + p {
            assert(normalized.skip(normalized.len() - p.len()) =~= normalized.skip(k).skip(1));
            assert(normalized[k] == normalized.skip(k)[0]);
            assert((seq!['/'] + p).skip(1) =~= p);
        }
        if normalized.skip(normalized.len() - p.len()) == p && normalized[normalized.len() - p.len() - 1] == '/' {
            assert(normalized.skip(k) =~= seq!['/'] + p);
        }
    }
    assert((p.len() + 1 <= relative.len() && relative.take(p.len() as int + 1) == p + seq!['/']) == (relative.len()
        > p.len() && relative.take(p.len() as int) == p && relative[p.len() as int] == '/'));
    assert((p.len() + 1 <= normalized.len() && normalized.skip(normalized.len() - (p.len() + 1)) == seq!['/'] + p) == (
    normalized.len() > p.len() && normalized.skip(normalized.len() - p.len()) == p && normalized[normalized.len()
        - p.len() - 1] == '/'));
    assert((exists|q: int| occurs_at(normalized, w, q)) == (exists|q: int|
        0 <= q && q + p.len() + 2 <= normalized.len() && normalized[q] == '/' && #[trigger] normalized.subrange(
            q + 1,
            q + 1 + p.len(),
        ) == p && normalized[q + 1 + p.len()] == '/')) by {
        if exists|q: int| occurs_at(normalized, w, q) {
            let q = choose|q: int| occurs_at(normalized, w, q);
            assert(w.subrange(1, 1 + p.len() as int) =~= p);
            assert(w[0] == '/' && w[1 + p.len() as int] == '/');
            assert(normalized.subrange(q + 1, q + 1 + p.len()) =~= normalized.subrange(q, q + w.len()).subrange(1, 1 + p.len() as int));
            assert(normalized[q] == normalized.subrange(q, q + w.len())[0]);
            assert(normalized[q + 1 + p.len()] == normalized.subrange(q, q + w.len())[1 + p.len() as int]);
        }
        if exists|q: int|
            0 <= q && q + p.len() + 2 <= normalized.len() && normalized[q] == '/' && #[trigger] normalized.subrange(
                q + 1,
                q + 1 + p.len(),
            ) == p && normalized[q + 1 + p.len()] == '/' {
            let q = choose|q: int|
                0 <= q && q + p.len() + 2 <= normalized.len() && normalized[q] == '/' && #[trigger] normalized.subrange(
                    q + 1,
                    q + 1 + p.len(),
                ) == p && normalized[q + 1 + p.len()] == '/';
            assert forall|j: int| 0 <= j < w.len() implies normalized.subrange(q, q + w.len())[j] == w[j] by {
                if 1 <= j <= p.len() {
                    assert(normalized.subrange(q + 1, q + 1 + p.len())[j - 1] == normalized[q + j]);
                }
            }
            assert(normalized.subrange(q, q + w.len()) =~= w);
            assert(occurs_at(normalized, w, q));
        }
    }
}

fn path_matches_pattern(relative: &str, normalized: &str, pattern: &str) -> (r: bool)
    ensures
        r == spec_path_matches_pattern(relative@, normalized@, pattern@),
{
    let p = replace_char(trim_chars(chars_of(pattern).as_slice()).as_slice(), '\\', '/');
    if p.len() == 0 {
        return false;
    }
    let rel = chars_of(relative);
    let norm = chars_of(normalized);
    if !has_glob_chars_exec(&p) {
        let mut with_slash = p.clone();
        with_slash.push('/');
        let mut slash_before: Vec<char> = Vec::new();
        slash_before.push('/');
        extend_chars(&mut slash_before, p.as_slice());
        let mut surrounded = slash_before.clone();
        surrounded.push('/');
        assert(with_slash@ =~= p@ + seq!['/']);
        assert(slash_before@ =~= seq!['/'] + p@);
        assert(surrounded@ =~= seq!['/'] + p@ + seq!['/']);
        return chars_eq(rel.as_slice(), p.as_slice()) || chars_eq(norm.as_slice(), p.as_slice())
            || starts_with(rel.as_slice(), with_slash.as_slice()) || ends_with(norm.as_slice(), slash_before.as_slice())
            || contains_chars(norm.as_slice(), surrounded.as_slice());
    }
    let pattern_text = string_from_chars(p.as_slice());
    let mut any_dirs = String::from_str("**/");
    any_dirs.append(pattern_text.as_str());
    let prefix: Vec<char> = vec!['*', '*', '/'];
    proof {
        reveal_strlit("**/");
        assert(prefix@ =~= "**/"@);
    }
    let mut globs: Vec<String> = Vec::new();
    globs.push(pattern_text);
    if !starts_with(p.as_slice(), prefix.as_slice()) {
        globs.push(any_dirs);
    }
    assert(text_views(globs@) =~= glob_candidates(p@));
    match glob_set_matches(&globs, relative, normalized) {
        Some((a, b)) => a || b,
        None => false,
    }
}

/// A path in `/`-separated form: relative to `root` when it lies under it.
pub open spec fn relative_text(root: Seq<char>, path: Seq<char>) -> Seq<char> {
    spec_replace_char(spec_strip_root(root, path), '\\', '/')
}

/// Whether any pattern matches the path, relative to `root` or as a whole.
pub open spec fn spec_path_matches_any(root: Seq<char>, path: Seq<char>, patterns: Seq<Seq<char>>) -> bool {
    exists|k: int|
        0 <= k < patterns.len() && spec_path_matches_pattern(
            relative_text(root, path),
            spec_replace_char(path, '\\', '/'),
            #[trigger] patterns[k],
        )
}

/// Whether the path matches any of the patterns; no patterns match nothing.
pub fn path_matches_any(root: &str, path: &str, patterns: &[String]) -> (r: bool)
    ensures
        r == spec_path_matches_any(root@, path@, text_views(patterns@)),
{
    if patterns.len() == 0 {
        return false;
    }
    let path_chars = chars_of(path);
    let normalized = string_from_chars(replace_char(path_chars.as_slice(), '\\', '/').as_slice());
    let relative = string_from_chars(
        crate::integrations::normalize_path(chars_of(root).as_slice(), path_chars.as_slice()).as_slice(),
    );
    let ghost pv = text_views(patterns@);
    for k in 0..patterns.len()
        invariant
            pv == text_views(patterns@),
            normalized@ == spec_replace_char(path@, '\\', '/'),
            relative@ == relative_text(root@, path@),
            forall|j: int| 0 <= j < k ==> !spec_path_matches_pattern(relative@, normalized@, #[trigger] pv[j]),
    {
        assert(pv[k as int] == patterns@[k as int]@);
        if path_matches_pattern(relative.as_str(), normalized.as_str(), patterns[k].as_str()) {
            return true;
        }
    }
    false
}

/// One rule of the catalogue: its canonical id and the aliases it also answers to.
#[derive(Debug, Clone)]
pub struct CatalogRule {
    pub code: String,
    pub aliases: Vec<String>,
}

/// The rules a configuration may name.
#[derive(Debug, Clone)]
pub struct RuleCatalog {
    pub rules: Vec<CatalogRule>,
}

/// The canonical id of `id`: the code of the first catalogue rule whose code or one of
/// whose aliases is `id`.
pub open spec fn canonical_from(rules: Seq<CatalogRule>, id: Seq<char>, k: int) -> Option<Seq<char>>
    decreases rules.len() - k,
{
    if k < 0 || k >= rules.len() {
        None
    } else if rules[k].code@ == id || text_views(rules[k].aliases@).contains(id) {
        Some(rules[k].code@)
    } else {
        canonical_from(rules, id, k + 1)
    }
}

pub open spec fn spec_canonical_rule_id(catalog: RuleCatalog, id: Seq<char>) -> Option<Seq<char>> {
    canonical_from(catalog.rules@, id, 0)
}

fn contains_text(list: &Vec<String>, value: &str) -> (r: bool)
    ensures
        r == text_views(list@).contains(value@),
{
    let v = chars_of(value);
    for i in 0..list.len()
        invariant
            v@ == value@,
            forall|j: int| 0 <= j < i ==> list@[j]@ != value@,
    {
        if chars_eq(chars_of(list[i].as_str()).as_slice(), v.as_slice()) {
            assert(text_views(list@)[i as int] == value@);
            return true;
        }
    }
    assert forall|j: int| 0 <= j < text_views(list@).len() implies text_views(list@)[j] != value@ by {
        assert(text_views(list@)[j] == list@[j]@);
    }
    false
}

impl RuleCatalog {
    /// The canonical id of a rule id or alias, if the catalogue knows it.
    pub fn canonical_rule_id(&self, id: &str) -> (r: Option<String>)
        ensures
            match r {
                Some(c) => spec_canonical_rule_id(*self, id@) == Some(c@),
                None => spec_canonical_rule_id(*self, id@) is None,
            },
    {
        for k in 0..self.rules.len()
            invariant
                canonical_from(self.rules@, id@, k as int) == canonical_from(self.rules@, id@, 0),
        {
            let rule = &self.rules[k];
            if chars_eq(chars_of(rule.code.as_str()).as_slice(), chars_of(id).as_slice()) || contains_text(&rule.aliases, id) {
                return Some(rule.code.clone());
            }
        }
        None
    }

    /// The canonical ids, in catalogue order.
    pub open spec fn spec_known_ids(self) -> Seq<Seq<char>> {
        self.rules@.map_values(|r: CatalogRule| r.code@)
    }

    /// The canonical ids, in catalogue order.
    pub fn known_rule_ids(&self) -> (r: Vec<String>)
        ensures
            text_views(r@) == self.spec_known_ids(),
    {
        let mut out: Vec<String> = Vec::new();
        for k in 0..self.rules.len()
            invariant
                text_views(out@) == self.rules@.take(k as int).map_values(|r: CatalogRule| r.code@),
        {
            let ghost before = text_views(out@);
            out.push(self.rules[k].code.clone());
            assert(text_views(out@) =~= before.push(self.rules@[k as int].code@));
            assert(text_views(out@) =~= self.rules@.take(k + 1).map_values(|r: CatalogRule| r.code@));
        }
        assert(self.rules@.take(self.rules@.len() as int) =~= self.rules@);
        out
    }
}

/// The entries of a key-ordered map with keys as texts.
pub open spec fn entry_views<V>(es: Seq<(String, V)>) -> Seq<(Seq<char>, V)> {
    es.map_values(|e: (String, V)| (e.0@, e.1))
}

/// The first position whose key is not below `k`.
pub open spec fn insert_position<V>(s: Seq<(Seq<char>, V)>, k: Seq<char>, i: int) -> int
    decreases s.len() - i,
{
    if i < 0 || i >= s.len() {
        s.len() as int
    } else if chars_le(k, s[i].0) {
        i
    } else {
        insert_position(s, k, i + 1)
    }
}

/// A key-ordered map with `k` set to `v`, as `BTreeMap::insert` leaves it.
pub open spec fn insert_entry<V>(s: Seq<(Seq<char>, V)>, k: Seq<char>, v: V) -> Seq<(Seq<char>, V)> {
    let p = insert_position(s, k, 0);
    if p < s.len() && s[p].0 == k {
        s.update(p, (k, v))
    } else {
        s.insert(p, (k, v))
    }
}

/// Keys strictly increase: each key occurs once, in key order, as a `BTreeMap` holds them.
pub open spec fn keys_strictly_sorted<V>(es: Seq<(Seq<char>, V)>) -> bool {
    forall|i: int, j: int| 0 <= i < j < es.len() ==> chars_le(#[trigger] es[i].0, #[trigger] es[j].0) && es[i].0 != es[j].0
}

proof fn lemma_insert_position<V>(s: Seq<(Seq<char>, V)>, k: Seq<char>, i: int)
    requires
        0 <= i <= s.len(),
        forall|j: int| 0 <= j < i ==> !chars_le(k, #[trigger] s[j].0),
    ensures
        i <= insert_position(s, k, i) <= s.len(),
        forall|j: int| 0 <= j < insert_position(s, k, i) ==> !chars_le(k, #[trigger] s[j].0),
        insert_position(s, k, i) < s.len() ==> chars_le(k, s[insert_position(s, k, i)].0),
    decreases s.len() - i,
{
    if i < s.len() && !chars_le(k, s[i].0) {
        lemma_insert_position(s, k, i + 1);
    }
}

/// Inserting into a map whose keys strictly increase keeps them strictly increasing.
pub proof fn lemma_insert_entry_keeps_keys_sorted<V>(s: Seq<(Seq<char>, V)>, k: Seq<char>, v: V)
    requires
        keys_strictly_sorted(s),
    ensures
        keys_strictly_sorted(insert_entry(s, k, v)),
{
    lemma_insert_position(s, k, 0);
    let p = insert_position(s, k, 0);
    let r = insert_entry(s, k, v);
    assert forall|j: int| 0 <= j < p implies chars_le(#[trigger] s[j].0, k) && s[j].0 != k by {
        lemma_chars_le_total(k, s[j].0);
        if s[j].0 == k {
            lemma_chars_le_reflexive(k);
        }
    }
    assert forall|j: int| p <= j < s.len() implies chars_le(k, #[trigger] s[j].0) by {
        if j > p {
            lemma_chars_le_transitive(k, s[p].0, s[j].0);
        }
    }
    if p < s.len() && s[p].0 == k {
        assert forall|i: int, j: int| 0 <= i < j < r.len() implies chars_le(#[trigger] r[i].0, #[trigger] r[j].0) && r[i].0
            != r[j].0 by {
            assert(r[i].0 == s[i].0 && r[j].0 == s[j].0);
        }
    } else {
        assert forall|i: int, j: int| 0 <= i < j < r.len() implies chars_le(#[trigger] r[i].0, #[trigger] r[j].0) && r[i].0
            != r[j].0 by {
            if j < p {
                assert(r[i] == s[i] && r[j] == s[j]);
            } else if j == p {
                assert(r[i] == s[i]);
            } else if i < p {
                assert(r[i] == s[i] && r[j] == s[j - 1]);
                lemma_chars_le_transitive(s[i].0, k, s[j - 1].0);
                if s[i].0 == s[j - 1].0 {
                    lemma_chars_le_antisymmetric(s[i].0, k);
                }
            } else if i == p {
                assert(r[j] == s[j - 1]);
                if j - 1 == p {
                    assert(s[p].0 != k);
                } else {
                    if k == s[j - 1].0 {
                        lemma_chars_le_antisymmetric(k, s[p].0);
                    }
                }
            } else {
                assert(r[i] == s[i - 1] && r[j] == s[j - 1]);
            }
        }
    }
}

/// Canonical rule maps hold each rule once, in key order, whatever order and aliases
/// the configuration file used.
pub proof fn lemma_canonical_entries_sorted<V>(catalog: RuleCatalog, es: Seq<(Seq<char>, V)>)
    ensures
        keys_strictly_sorted(canonical_entries(catalog, es)),
    decreases es.len(),
{
    if es.len() > 0 {
        lemma_canonical_entries_sorted(catalog, es.drop_last());
        lemma_insert_entry_keeps_keys_sorted(
            canonical_entries(catalog, es.drop_last()),
            spec_canonical_rule_id(catalog, es.last().0)->0,
            es.last().1,
        );
    }
}

/// The first key the catalogue does not know, by position.
pub open spec fn first_unknown<V>(catalog: RuleCatalog, es: Seq<(Seq<char>, V)>, i: int) -> Option<int>
    decreases es.len() - i,
{
    if i < 0 || i >= es.len() {
        None
    } else if spec_canonical_rule_id(catalog, es[i].0) is None {
        Some(i)
    } else {
        first_unknown(catalog, es, i + 1)
    }
}

/// The map with every key replaced by its canonical id, later entries overriding
/// earlier ones with the same canonical id.
pub open spec fn canonical_entries<V>(catalog: RuleCatalog, es: Seq<(Seq<char>, V)>) -> Seq<(Seq<char>, V)>
    decreases es.len(),
{
    if es.len() == 0 {
        seq![]
    } else {
        insert_entry(
            canonical_entries(catalog, es.drop_last()),
            spec_canonical_rule_id(catalog, es.last().0)->0,
            es.last().1,
        )
    }
}

/// The problem of an unknown rule id, listing the catalogue's ids.
pub open spec fn unknown_rule_error(catalog: RuleCatalog, context: Seq<char>, id: Seq<char>) -> ErrorView {
    ErrorView::UnknownRule { context, rule_id: id, known_rules: catalog.spec_known_ids() }
}

/// The problem of the first unknown key of a map, if any.
pub open spec fn unknown_errors<V>(catalog: RuleCatalog, context: Seq<char>, es: Seq<(Seq<char>, V)>) -> Seq<ErrorView> {
    match first_unknown(catalog, es, 0) {
        Some(i) => seq![unknown_rule_error(catalog, context, es[i].0)],
        None => seq![],
    }
}

fn find_unknown<V>(catalog: &RuleCatalog, entries: &Vec<(String, V)>) -> (r: Option<usize>)
    ensures
        match r {
            Some(i) => first_unknown(*catalog, entry_views(entries@), 0) == Some(i as int),
            None => first_unknown(*catalog, entry_views(entries@), 0) is None,
        },
{
    let ghost ev = entry_views(entries@);
    for i in 0..entries.len()
        invariant
            ev == entry_views(entries@),
            first_unknown(*catalog, ev, i as int) == first_unknown(*catalog, ev, 0),
    {
        assert(ev[i as int].0 == entries@[i as int].0@);
        if catalog.canonical_rule_id(entries[i].0.as_str()).is_none() {
            return Some(i);
        }
    }
    None
}

fn unknown_rule(catalog: &RuleCatalog, context: String, id: String) -> (r: Result<(), ConfigError>)
    ensures
        validation_errors(r) == Some(seq![unknown_rule_error(*catalog, context@, id@)]),
{
    let mut errors: Vec<ConfigValidationError> = Vec::new();
    errors.push(ConfigValidationError::UnknownRule { context, rule_id: id, known_rules: catalog.known_rule_ids() });
    assert(error_views(errors@) =~= seq![error_view(errors@[0])]);
    Err(ConfigError::Validation(ValidationErrors(errors)))
}

/// Checks that every key of a map is known.
fn check_known<V>(catalog: &RuleCatalog, context: String, entries: &Vec<(String, V)>) -> (r: Result<(), ConfigError>)
    ensures
        step_result(r, unknown_errors(*catalog, context@, entry_views(entries@))),
{
    match find_unknown(catalog, entries) {
        Some(i) => {
            proof {
                lemma_first_unknown_bound(*catalog, entry_views(entries@), 0);
            }
            assert(entry_views(entries@)[i as int].0 == entries@[i as int].0@);
            unknown_rule(catalog, context, entries[i].0.clone())
        },
        None => Ok(()),
    }
}

pub fn insert_entry_exec<V>(map: &mut Vec<(String, V)>, key: String, value: V)
    ensures
        entry_views(final(map)@) == insert_entry(entry_views(old(map)@), key@, value),
{
    let ghost mv = entry_views(map@);
    let mut p: usize = 0;
    while p < map.len() && !str_le(key.as_str(), map[p].0.as_str())
        invariant
            mv == entry_views(map@),
            p <= map@.len(),
            insert_position(mv, key@, p as int) == insert_position(mv, key@, 0),
        decreases map.len() - p,
    {
        assert(mv[p as int].0 == map@[p as int].0@);
        p = p + 1;
    }
    if p < map.len() {
        assert(mv[p as int].0 == map@[p as int].0@);
    }
    let ghost k = key@;
    if p < map.len() && chars_eq(chars_of(key.as_str()).as_slice(), chars_of(map[p].0.as_str()).as_slice()) {
        let _ = map.remove(p);
        map.insert(p, (key, value));
        assert(entry_views(map@) =~= mv.update(p as int, (k, value)));
    } else {
        map.insert(p, (key, value));
        assert(entry_views(map@) =~= mv.insert(p as int, (k, value)));
    }
}

/// Replaces every key by its canonical id; all keys must be known.
fn canonicalize_entries<V>(catalog: &RuleCatalog, entries: Vec<(String, V)>) -> (r: Vec<(String, V)>)
    requires
        first_unknown(*catalog, entry_views(entries@), 0) is None,
    ensures
        entry_views(r@) == canonical_entries(*catalog, entry_views(entries@)),
{
    let ghost all = entry_views(entries@);
    let n = entries.len();
    let mut rest = entries;
    let mut out: Vec<(String, V)> = Vec::new();
    let mut i: usize = 0;
    proof {
        lemma_first_unknown_none(*catalog, all, 0);
    }
    while rest.len() > 0
        invariant
            all.len() == n,
            i + rest@.len() == n,
            forall|j: int| 0 <= j < rest@.len() ==> (rest@[j].0@, rest@[j].1) == all[i + j],
            forall|j: int| 0 <= j < all.len() ==> spec_canonical_rule_id(*catalog, #[trigger] all[j].0) is Some,
            entry_views(out@) == canonical_entries(*catalog, all.take(i as int)),
        decreases rest.len(),
    {
        let ghost old_rest = rest@;
        let (key, value) = rest.remove(0);
        assert(all[i as int] == (key@, value));
        assert(all.take(i + 1).drop_last() =~= all.take(i as int));
        assert(spec_canonical_rule_id(*catalog, all[i as int].0) is Some);
        let canonical = match catalog.canonical_rule_id(key.as_str()) {
            Some(c) => c,
            None => {
                assert(false);
                key
            },
        };
        insert_entry_exec(&mut out, canonical, value);
        i = i + 1;
        proof {
            assert forall|j: int| 0 <= j < rest@.len() implies (rest@[j].0@, rest@[j].1) == all[i + j] by {
                assert(rest@[j] == old_rest[j + 1]);
            }
        }
    }
    assert(all.take(n as int) =~= all);
    out
}

proof fn lemma_first_unknown_bound<V>(catalog: RuleCatalog, es: Seq<(Seq<char>, V)>, i: int)
    requires
        0 <= i,
    ensures
        match first_unknown(catalog, es, i) {
            Some(k) => i <= k < es.len(),
            None => true,
        },
    decreases es.len() - i,
{
    if i < es.len() && spec_canonical_rule_id(catalog, es[i].0) is Some {
        lemma_first_unknown_bound(catalog, es, i + 1);
    }
}

proof fn lemma_first_unknown_none<V>(catalog: RuleCatalog, es: Seq<(Seq<char>, V)>, i: int)
    requires
        0 <= i,
        first_unknown(catalog, es, i) is None,
    ensures
        forall|j: int| i <= j < es.len() ==> spec_canonical_rule_id(catalog, #[trigger] es[j].0) is Some,
    decreases es.len() - i,
{
    if i < es.len() {
        lemma_first_unknown_none(catalog, es, i + 1);
    }
}


/// The problem of a near-duplicate threshold of zero.
pub open spec fn nonzero_threshold_errors(value: u8) -> Seq<ErrorView> {
    if value == 0 {
        seq![ErrorView::InvalidValue { context: "duplication.near_similarity_threshold"@, value: seq!['0'], expected: seq!["integer from 1 through 100"@] }]
    } else {
        seq![]
    }
}

fn validate_nonzero_threshold(value: u8) -> (r: Result<(), ConfigError>)
    ensures
        step_result(r, nonzero_threshold_errors(value)),
{
    if value == 0 {
        let zero = crate::text::decimal(0);
        assert(crate::text::spec_decimal(0) =~= seq!['0']);
        return invalid_value("duplication.near_similarity_threshold", zero, "integer from 1 through 100");
    }
    Ok(())
}

/// The problem of LSH settings whose bands times rows overflows or differs from the
/// number of hash functions.
pub open spec fn lsh_errors(bands: usize, rows: usize, hash_functions: usize) -> Seq<ErrorView> {
    if bands * rows > usize::MAX {
        seq![ErrorView::InvalidValue { context: "duplication.near_lsh_bands"@, value: crate::text::spec_decimal(bands as nat), expected: seq!["multiplication with duplication.near_lsh_rows must fit usize"@] }]
    } else if hash_functions != bands * rows {
        seq![ErrorView::InvalidValue { context: "duplication.near_hash_functions"@, value: crate::text::spec_decimal(hash_functions as nat), expected: seq!["equal to duplication.near_lsh_bands * duplication.near_lsh_rows"@] }]
    } else {
        seq![]
    }
}

fn validate_lsh(bands: usize, rows: usize, hash_functions: usize) -> (r: Result<(), ConfigError>)
    ensures
        step_result(r, lsh_errors(bands, rows, hash_functions)),
{
    match bands.checked_mul(rows) {
        None => invalid_value("duplication.near_lsh_bands", crate::text::decimal(bands), "multiplication with duplication.near_lsh_rows must fit usize"),
        Some(product) => {
            if hash_functions != product {
                invalid_value("duplication.near_hash_functions", crate::text::decimal(hash_functions), "equal to duplication.near_lsh_bands * duplication.near_lsh_rows")
            } else {
                Ok(())
            }
        },
    }
}

fn validate_single(context: &str, value: &String, allowed: &[&str]) -> (r: Result<(), ConfigError>)
    ensures
        step_result(r, enum_list_errors(context@, seq![value@], allowed@.map_values(|a: &str| a@))),
{
    let mut values: Vec<String> = Vec::new();
    values.push(value.clone());
    assert(text_views(values@) =~= seq![value@]);
    validate_enum_list(context, values.as_slice(), allowed)
}

fn validate_languages(values: &[String]) -> (r: Result<(), ConfigError>)
    ensures
        step_result(r, enum_list_errors("project.languages"@, text_views(values@), seq!["typescript"@, "tsx"@, "python"@, "rust"@])),
{
    let allowed = ["typescript", "tsx", "python", "rust"];
    assert(allowed@.map_values(|a: &str| a@) =~= seq!["typescript"@, "tsx"@, "python"@, "rust"@]);
    validate_enum_list("project.languages", values, &allowed)
}

fn validate_frameworks(values: &[String]) -> (r: Result<(), ConfigError>)
    ensures
        step_result(r, enum_list_errors("project.frameworks"@, text_views(values@), seq!["react"@, "fastapi"@])),
{
    let allowed = ["react", "fastapi"];
    assert(allowed@.map_values(|a: &str| a@) =~= seq!["react"@, "fastapi"@]);
    validate_enum_list("project.frameworks", values, &allowed)
}

fn validate_fail_on(values: &[String]) -> (r: Result<(), ConfigError>)
    ensures
        step_result(r, enum_list_errors("ci.fail_on"@, text_views(values@), seq!["high"@, "new_high"@, "new_medium"@])),
{
    let allowed = ["high", "new_high", "new_medium"];
    assert(allowed@.map_values(|a: &str| a@) =~= seq!["high"@, "new_high"@, "new_medium"@]);
    validate_enum_list("ci.fail_on", values, &allowed)
}

fn validate_report_format(value: &String) -> (r: Result<(), ConfigError>)
    ensures
        step_result(r, enum_list_errors("report.default_format"@, seq![value@], seq!["text"@, "json"@, "sarif"@, "html"@, "markdown"@, "md"@])),
{
    let allowed = ["text", "json", "sarif", "html", "markdown", "md"];
    assert(allowed@.map_values(|a: &str| a@) =~= seq!["text"@, "json"@, "sarif"@, "html"@, "markdown"@, "md"@]);
    validate_single("report.default_format", value, &allowed)
}

fn validate_embedding_privacy_mode(value: &String) -> (r: Result<(), ConfigError>)
    ensures
        step_result(r, enum_list_errors("embeddings.privacy_mode"@, seq![value@], seq!["disabled"@, "local_only"@, "external_opt_in"@])),
{
    let allowed = ["disabled", "local_only", "external_opt_in"];
    assert(allowed@.map_values(|a: &str| a@) =~= seq!["disabled"@, "local_only"@, "external_opt_in"@]);
    validate_single("embeddings.privacy_mode", value, &allowed)
}

fn validate_response_model_level(value: &String) -> (r: Result<(), ConfigError>)
    ensures
        step_result(r, enum_list_errors("fastapi.require_response_model"@, seq![value@], seq!["off"@, "warn"@, "error"@])),
{
    let allowed = ["off", "warn", "error"];
    assert(allowed@.map_values(|a: &str| a@) =~= seq!["off"@, "warn"@, "error"@]);
    validate_single("fastapi.require_response_model", value, &allowed)
}

/// The problems of the first failing check of the single-valued settings, in the
/// order they are checked; empty when all pass.
pub open spec fn scalar_errors(c: CodehealthConfig) -> Seq<ErrorView> {
    let s0 = enum_list_errors("project.languages"@, text_views(c.project.languages@), seq!["typescript"@, "tsx"@, "python"@, "rust"@]);
    if s0.len() > 0 {
        s0
    } else {
        let s1 = enum_list_errors("project.frameworks"@, text_views(c.project.frameworks@), seq!["react"@, "fastapi"@]);
        if s1.len() > 0 {
            s1
        } else {
            let s2 = enum_list_errors("ci.fail_on"@, text_views(c.ci.fail_on@), seq!["high"@, "new_high"@, "new_medium"@]);
            if s2.len() > 0 {
                s2
            } else {
                let s3 = enum_list_errors("report.default_format"@, seq![c.report.default_format@], seq!["text"@, "json"@, "sarif"@, "html"@, "markdown"@, "md"@]);
                if s3.len() > 0 {
                    s3
                } else {
                    let s4 = provider_errors(c.embeddings.provider@);
                    if s4.len() > 0 {
                        s4
                    } else {
                        let s5 = enum_list_errors("embeddings.privacy_mode"@, seq![c.embeddings.privacy_mode@], seq!["disabled"@, "local_only"@, "external_opt_in"@]);
                        if s5.len() > 0 {
                            s5
                        } else {
                            let s6 = threshold_errors(c.embeddings.similarity_threshold, "embeddings.similarity_threshold"@);
                            if s6.len() > 0 {
                                s6
                            } else {
                                let s7 = positive_errors(c.embeddings.candidate_limit as nat, "embeddings.candidate_limit"@);
                                if s7.len() > 0 {
                                    s7
                                } else {
                                    let s8 = positive_errors(c.integrations.timeout_ms as nat, "integrations.timeout_ms"@);
                                    if s8.len() > 0 {
                                        s8
                                    } else {
                                        let s9 = enum_list_errors("fastapi.require_response_model"@, seq![c.fastapi.require_response_model@], seq!["off"@, "warn"@, "error"@]);
                                        if s9.len() > 0 {
                                            s9
                                        } else {
                                            let s10 = pattern_errors(text_views(c.scanner.include_patterns@), "scanner.include"@);
                                            if s10.len() > 0 {
                                                s10
                                            } else {
                                                let s11 = pattern_errors(text_views(c.scanner.exclude@), "scanner.exclude"@);
                                                if s11.len() > 0 {
                                                    s11
                                                } else {
                                                    let s12 = positive_errors(c.scanner.max_file_size_bytes as nat, "scanner.max_file_size_bytes"@);
                                                    if s12.len() > 0 {
                                                        s12
                                                    } else {
                                                        let s13 = percentage_errors(c.duplication.structural_max_opaque_percent, "duplication.structural_max_opaque_percent"@);
                                                        if s13.len() > 0 {
                                                            s13
                                                        } else {
                                                            let s14 = percentage_errors(c.duplication.near_similarity_threshold, "duplication.near_similarity_threshold"@);
                                                            if s14.len() > 0 {
                                                                s14
                                                            } else {
                                                                let s15 = nonzero_threshold_errors(c.duplication.near_similarity_threshold);
                                                                if s15.len() > 0 {
                                                                    s15
                                                                } else {
                                                                    let s16 = positive_errors(c.duplication.near_hash_functions as nat, "duplication.near_hash_functions"@);
                                                                    if s16.len() > 0 {
                                                                        s16
                                                                    } else {
                                                                        let s17 = positive_errors(c.duplication.near_lsh_bands as nat, "duplication.near_lsh_bands"@);
                                                                        if s17.len() > 0 {
                                                                            s17
                                                                        } else {
                                                                            let s18 = positive_errors(c.duplication.near_lsh_rows as nat, "duplication.near_lsh_rows"@);
                                                                            if s18.len() > 0 {
                                                                                s18
                                                                            } else {
                                                                                let s19 = percentage_errors(c.duplication.near_common_shingle_max_percent, "duplication.near_common_shingle_max_percent"@);
                                                                                if s19.len() > 0 {
                                                                                    s19
                                                                                } else {
                                                                                    let s20 = positive_errors(c.duplication.near_common_shingle_min_occurrences as nat, "duplication.near_common_shingle_min_occurrences"@);
                                                                                    if s20.len() > 0 {
                                                                                        s20
                                                                                    } else {
                                                                                        let s21 = positive_errors(c.duplication.near_max_bucket_size as nat, "duplication.near_max_bucket_size"@);
                                                                                        if s21.len() > 0 {
                                                                                            s21
                                                                                        } else {
                                                                                            let s22 = positive_errors(c.duplication.near_max_candidate_pairs as nat, "duplication.near_max_candidate_pairs"@);
                                                                                            if s22.len() > 0 {
                                                                                                s22
                                                                                            } else {
                                                                                                let s23 = lsh_errors(c.duplication.near_lsh_bands, c.duplication.near_lsh_rows, c.duplication.near_hash_functions);
                                                                                                if s23.len() > 0 {
                                                                                                    s23
                                                                                                } else {
                                                                                                    seq![]
                                                                                                }
                                                                                            }
                                                                                        }
                                                                                    }
                                                                                }
                                                                            }
                                                                        }
                                                                    }
                                                                }
                                                            }
                                                        }
                                                    }
                                                }
                                            }
                                        }
                                    }
                                }
                            }
                        }
                    }
                }
            }
        }
    }
}

/// Runs the checks of the single-valued settings, stopping at the first that fails.
fn validate_scalars(c: &CodehealthConfig) -> (r: Result<(), ConfigError>)
    ensures
        step_result(r, scalar_errors(*c)),
{
    let r0 = validate_languages(c.project.languages.as_slice());
    if r0.is_err() {
        return r0;
    }
    let r1 = validate_frameworks(c.project.frameworks.as_slice());
    if r1.is_err() {
        return r1;
    }
    let r2 = validate_fail_on(c.ci.fail_on.as_slice());
    if r2.is_err() {
        return r2;
    }
    let r3 = validate_report_format(&c.report.default_format);
    if r3.is_err() {
        return r3;
    }
    let r4 = validate_embedding_provider(c.embeddings.provider.as_str());
    if r4.is_err() {
        return r4;
    }
    let r5 = validate_embedding_privacy_mode(&c.embeddings.privacy_mode);
    if r5.is_err() {
        return r5;
    }
    let r6 = validate_similarity_threshold(c.embeddings.similarity_threshold, "embeddings.similarity_threshold");
    if r6.is_err() {
        return r6;
    }
    let r7 = validate_positive(c.embeddings.candidate_limit as u64, "embeddings.candidate_limit");
    if r7.is_err() {
        return r7;
    }
    let r8 = validate_positive(c.integrations.timeout_ms, "integrations.timeout_ms");
    if r8.is_err() {
        return r8;
    }
    let r9 = validate_response_model_level(&c.fastapi.require_response_model);
    if r9.is_err() {
        return r9;
    }
    let r10 = validate_patterns(c.scanner.include_patterns.as_slice(), "scanner.include");
    if r10.is_err() {
        return r10;
    }
    let r11 = validate_patterns(c.scanner.exclude.as_slice(), "scanner.exclude");
    if r11.is_err() {
        return r11;
    }
    let r12 = validate_positive(c.scanner.max_file_size_bytes, "scanner.max_file_size_bytes");
    if r12.is_err() {
        return r12;
    }
    let r13 = validate_percentage(c.duplication.structural_max_opaque_percent, "duplication.structural_max_opaque_percent");
    if r13.is_err() {
        return r13;
    }
    let r14 = validate_percentage(c.duplication.near_similarity_threshold, "duplication.near_similarity_threshold");
    if r14.is_err() {
        return r14;
    }
    let r15 = validate_nonzero_threshold(c.duplication.near_similarity_threshold);
    if r15.is_err() {
        return r15;
    }
    let r16 = validate_positive(c.duplication.near_hash_functions as u64, "duplication.near_hash_functions");
    if r16.is_err() {
        return r16;
    }
    let r17 = validate_positive(c.duplication.near_lsh_bands as u64, "duplication.near_lsh_bands");
    if r17.is_err() {
        return r17;
    }
    let r18 = validate_positive(c.duplication.near_lsh_rows as u64, "duplication.near_lsh_rows");
    if r18.is_err() {
        return r18;
    }
    let r19 = validate_percentage(c.duplication.near_common_shingle_max_percent, "duplication.near_common_shingle_max_percent");
    if r19.is_err() {
        return r19;
    }
    let r20 = validate_positive(c.duplication.near_common_shingle_min_occurrences as u64, "duplication.near_common_shingle_min_occurrences");
    if r20.is_err() {
        return r20;
    }
    let r21 = validate_positive(c.duplication.near_max_bucket_size as u64, "duplication.near_max_bucket_size");
    if r21.is_err() {
        return r21;
    }
    let r22 = validate_positive(c.duplication.near_max_candidate_pairs as u64, "duplication.near_max_candidate_pairs");
    if r22.is_err() {
        return r22;
    }
    let r23 = validate_lsh(c.duplication.near_lsh_bands, c.duplication.near_lsh_rows, c.duplication.near_hash_functions);
    if r23.is_err() {
        return r23;
    }
    Ok(())
}

/// The validation problems an error carries, if it is a validation error.
pub open spec fn error_list(e: ConfigError) -> Option<Seq<ErrorView>> {
    match e {
        ConfigError::Validation(ValidationErrors(es)) => Some(error_views(es@)),
        _ => None,
    }
}

/// The context text of a path override's field.
pub open spec fn override_context(i: int, field: Seq<char>) -> Seq<char> {
    "path_overrides["@ + crate::text::spec_decimal(i as nat) + "]."@ + field
}

/// The problems of the first path override, from position `i` on, with an unknown rule
/// id or an invalid path pattern.
pub open spec fn override_errors(catalog: RuleCatalog, os: Seq<PathOverride>, i: int) -> Seq<ErrorView>
    decreases os.len() - i,
{
    if i < 0 || i >= os.len() {
        seq![]
    } else {
        let u = unknown_errors(catalog, override_context(i, "rules"@), entry_views(os[i].rules@));
        if u.len() > 0 {
            u
        } else {
            let p = pattern_errors(text_views(os[i].paths@), override_context(i, "paths"@));
            if p.len() > 0 {
                p
            } else {
                override_errors(catalog, os, i + 1)
            }
        }
    }
}

/// The problems of the first rule's path filters, from position `i` on, that hold an
/// invalid pattern.
pub open spec fn option_pattern_errors(es: Seq<(Seq<char>, RuleOptions)>, i: int) -> Seq<ErrorView>
    decreases es.len() - i,
{
    if i < 0 || i >= es.len() {
        seq![]
    } else {
        let inc = pattern_errors(text_views(es[i].1.include_paths@), "rule_options."@ + es[i].0 + ".include_paths"@);
        if inc.len() > 0 {
            inc
        } else {
            let exc = pattern_errors(text_views(es[i].1.exclude_paths@), "rule_options."@ + es[i].0 + ".exclude_paths"@);
            if exc.len() > 0 {
                exc
            } else {
                option_pattern_errors(es, i + 1)
            }
        }
    }
}

/// The problems of the first check a configuration fails, in the order the checks
/// run; empty when it is valid.
pub open spec fn config_errors(c: CodehealthConfig, catalog: RuleCatalog) -> Seq<ErrorView> {
    let s = scalar_errors(c);
    if s.len() > 0 {
        s
    } else {
        let u1 = unknown_errors(catalog, "rules"@, entry_views(c.rules@));
        if u1.len() > 0 {
            u1
        } else {
            let u2 = unknown_errors(catalog, "rule_options"@, entry_views(c.rule_options@));
            if u2.len() > 0 {
                u2
            } else {
                let o = override_errors(catalog, c.path_overrides@, 0);
                if o.len() > 0 {
                    o
                } else {
                    let g = pattern_errors(text_views(c.ignore.paths@), "ignore.paths"@);
                    if g.len() > 0 {
                        g
                    } else {
                        option_pattern_errors(canonical_entries(catalog, entry_views(c.rule_options@)), 0)
                    }
                }
            }
        }
    }
}

/// `new` is `old` with every rule id canonicalised.
pub open spec fn normalized_from(old: CodehealthConfig, new: CodehealthConfig, catalog: RuleCatalog) -> bool {
    &&& entry_views(new.rules@) == canonical_entries(catalog, entry_views(old.rules@))
    &&& entry_views(new.rule_options@) == canonical_entries(catalog, entry_views(old.rule_options@))
    &&& new.path_overrides@.len() == old.path_overrides@.len()
    &&& forall|i: int|
        0 <= i < old.path_overrides@.len() ==> (#[trigger] new.path_overrides@[i]).paths == old.path_overrides@[i].paths
            && entry_views(new.path_overrides@[i].rules@) == canonical_entries(catalog, entry_views(old.path_overrides@[i].rules@))
}

/// Every rule map of the configuration holds each rule once, in key order.
pub open spec fn rule_maps_sorted(c: CodehealthConfig) -> bool {
    &&& keys_strictly_sorted(entry_views(c.rules@))
    &&& keys_strictly_sorted(entry_views(c.rule_options@))
    &&& forall|i: int| 0 <= i < c.path_overrides@.len() ==> keys_strictly_sorted(entry_views(#[trigger] c.path_overrides@[i].rules@))
}

/// Every section but the rule maps and path overrides is the same.
pub open spec fn other_sections_unchanged(old: CodehealthConfig, new: CodehealthConfig) -> bool {
    &&& new.project == old.project
    &&& new.duplication == old.duplication
    &&& new.style == old.style
    &&& new.react == old.react
    &&& new.fastapi == old.fastapi
    &&& new.rust == old.rust
    &&& new.scanner == old.scanner
    &&& new.ci == old.ci
    &&& new.ignore == old.ignore
    &&& new.report == old.report
    &&& new.scoring == old.scoring
    &&& new.embeddings == old.embeddings
    &&& new.integrations == old.integrations
    &&& new.cache == old.cache
}

fn into_result(r: Result<(), ConfigError>) -> (out: Result<Vec<ConfigWarning>, ConfigError>)
    requires
        r is Err,
    ensures
        out matches Err(e) && r == Err::<(), ConfigError>(e),
{
    match r {
        Err(e) => Err(e),
        Ok(()) => Err(ConfigError::Read { path: String::new(), message: String::new() }),
    }
}

fn rule_options_context(id: &String, field: &str) -> (r: String)
    ensures
        r@ == "rule_options."@ + id@ + field@,
{
    let mut out = String::from_str("rule_options.");
    out.append(id.as_str());
    out.append(field);
    out
}

fn override_context_exec(i: usize, field: &str) -> (r: String)
    ensures
        r@ == "path_overrides["@ + crate::text::spec_decimal(i as nat) + "]."@ + field@,
{
    let mut out = String::from_str("path_overrides[");
    out.append(crate::text::decimal(i).as_str());
    out.append("].");
    out.append(field);
    out
}

impl CodehealthConfig {
    /// Validates the configuration and rewrites every rule id to its canonical form.
    /// The checks run in a fixed order and the first that fails is reported with all
    /// the problems it found; on success no warnings are returned.
    pub fn normalize_and_validate(&mut self, catalog: &RuleCatalog) -> (r: Result<Vec<ConfigWarning>, ConfigError>)
        ensures
            (r is Ok) == (config_errors(*old(self), *catalog).len() == 0),
            r matches Err(e) ==> error_list(e) == Some(config_errors(*old(self), *catalog)),
            r matches Ok(w) ==> w@.len() == 0 && normalized_from(*old(self), *final(self), *catalog),
            r is Ok ==> rule_maps_sorted(*final(self)),
            other_sections_unchanged(*old(self), *final(self)),
    {
        let ghost start = *self;
        let r = validate_scalars(self);
        if r.is_err() {
            return into_result(r);
        }
        let r = check_known(catalog, String::from_str("rules"), &self.rules);
        if r.is_err() {
            return into_result(r);
        }
        let mut rules: Vec<(String, RuleLevel)> = Vec::new();
        core::mem::swap(&mut rules, &mut self.rules);
        self.rules = canonicalize_entries(catalog, rules);
        let r = check_known(catalog, String::from_str("rule_options"), &self.rule_options);
        if r.is_err() {
            return into_result(r);
        }
        let mut options: Vec<(String, RuleOptions)> = Vec::new();
        core::mem::swap(&mut options, &mut self.rule_options);
        self.rule_options = canonicalize_entries(catalog, options);
        let mut rest: Vec<PathOverride> = Vec::new();
        core::mem::swap(&mut rest, &mut self.path_overrides);
        let ghost all = rest@;
        let n = rest.len();
        let mut done: Vec<PathOverride> = Vec::new();
        let mut i: usize = 0;
        while rest.len() > 0
            invariant
                start == *old(self),
                all == start.path_overrides@,
                all.len() == n,
                i + rest@.len() == n,
                done@.len() == i,
                forall|j: int| 0 <= j < rest@.len() ==> rest@[j] == all[i + j],
                forall|j: int|
                    0 <= j < i ==> (#[trigger] done@[j]).paths == all[j].paths && entry_views(done@[j].rules@)
                        == canonical_entries(*catalog, entry_views(all[j].rules@)),
                override_errors(*catalog, all, 0) == override_errors(*catalog, all, i as int),
                other_sections_unchanged(start, *self),
                entry_views(self.rules@) == canonical_entries(*catalog, entry_views(start.rules@)),
                entry_views(self.rule_options@) == canonical_entries(*catalog, entry_views(start.rule_options@)),
                scalar_errors(start).len() == 0,
                unknown_errors(*catalog, "rules"@, entry_views(start.rules@)).len() == 0,
                unknown_errors(*catalog, "rule_options"@, entry_views(start.rule_options@)).len() == 0,
            decreases rest.len(),
        {
            let ghost old_rest = rest@;
            let current = rest.remove(0);
            assert(current == all[i as int]);
            let r = check_known(catalog, override_context_exec(i, "rules"), &current.rules);
            proof {
                assert(override_errors(*catalog, all, i as int) == {
                    let u = unknown_errors(*catalog, override_context(i as int, "rules"@), entry_views(all[i as int].rules@));
                    if u.len() > 0 {
                        u
                    } else {
                        let p = pattern_errors(text_views(all[i as int].paths@), override_context(i as int, "paths"@));
                        if p.len() > 0 {
                            p
                        } else {
                            override_errors(*catalog, all, i + 1)
                        }
                    }
                });
            }
            if r.is_err() {
                proof {
                    let u = unknown_errors(*catalog, override_context(i as int, "rules"@), entry_views(all[i as int].rules@));
                    assert(u.len() > 0);
                    assert(override_errors(*catalog, all, i as int) == u);
                    assert(override_errors(*catalog, all, 0) == u);
                    assert(scalar_errors(start).len() == 0);
                    assert(config_errors(start, *catalog) == u);
                    assert(validation_errors(r) == Some(u));
                }
                done.push(current);
                done.append(&mut rest);
                core::mem::swap(&mut done, &mut self.path_overrides);
                return into_result(r);
            }
            let PathOverride { paths, rules } = current;
            let canonical = canonicalize_entries(catalog, rules);
            let updated = PathOverride { paths, rules: canonical };
            let r = validate_patterns(updated.paths.as_slice(), override_context_exec(i, "paths").as_str());
            if r.is_err() {
                done.push(updated);
                done.append(&mut rest);
                core::mem::swap(&mut done, &mut self.path_overrides);
                return into_result(r);
            }
            done.push(updated);
            i = i + 1;
            proof {
                assert forall|j: int| 0 <= j < rest@.len() implies rest@[j] == all[i + j] by {
                    assert(rest@[j] == old_rest[j + 1]);
                }
            }
        }
        self.path_overrides = done;
        let r = validate_patterns(self.ignore.paths.as_slice(), "ignore.paths");
        if r.is_err() {
            return into_result(r);
        }
        let ghost es = entry_views(self.rule_options@);
        proof {
            lemma_canonical_entries_sorted(*catalog, entry_views(start.rules@));
            lemma_canonical_entries_sorted(*catalog, entry_views(start.rule_options@));
            assert forall|j: int| 0 <= j < self.path_overrides@.len() implies keys_strictly_sorted(
                entry_views(#[trigger] self.path_overrides@[j].rules@),
            ) by {
                lemma_canonical_entries_sorted(*catalog, entry_views(start.path_overrides@[j].rules@));
            }
        }
        assert(config_errors(start, *catalog) == option_pattern_errors(es, 0));
        for k in 0..self.rule_options.len()
            invariant
                start == *old(self),
                es == entry_views(self.rule_options@),
                config_errors(start, *catalog) == option_pattern_errors(es, 0),
                option_pattern_errors(es, 0) == option_pattern_errors(es, k as int),
                other_sections_unchanged(start, *self),
                normalized_from(start, *self, *catalog),
                rule_maps_sorted(*self),
        {
            let (id, opts) = (&self.rule_options[k].0, &self.rule_options[k].1);
            assert(es[k as int] == (id@, *opts));
            let r = validate_patterns(opts.include_paths.as_slice(), rule_options_context(id, ".include_paths").as_str());
            if r.is_err() {
                return into_result(r);
            }
            let r = validate_patterns(opts.exclude_paths.as_slice(), rule_options_context(id, ".exclude_paths").as_str());
            if r.is_err() {
                return into_result(r);
            }
        }
        Ok(Vec::new())
    }
}

/// The directory that `PathBuf::pop` leaves: the path without its last component, or
/// `None` for an empty path or the root.
pub open spec fn spec_parent(p: Seq<char>) -> Option<Seq<char>> {
    let t = crate::normalize::trim_path_tail(p);
    if t.len() == 0 {
        None
    } else {
        let k = crate::normalize::last_index_of(t, '/');
        if k < 0 {
            Some(seq![])
        } else {
            let head = crate::normalize::trim_path_tail(t.take(k));
            if head.len() == 0 {
                if t[0] == '/' {
                    Some(seq!['/'])
                } else {
                    Some(seq![])
                }
            } else {
                Some(head)
            }
        }
    }
}

pub proof fn lemma_trim_path_tail_prefix(p: Seq<char>)
    ensures
        crate::normalize::trim_path_tail(p).len() <= p.len(),
        crate::normalize::trim_path_tail(p) == p.take(crate::normalize::trim_path_tail(p).len() as int),
    decreases p.len(),
{
    if p.len() >= 1 && p.last() == '/' {
        lemma_trim_path_tail_prefix(p.drop_last());
        assert(p.drop_last().take(crate::normalize::trim_path_tail(p.drop_last()).len() as int) =~= p.take(
            crate::normalize::trim_path_tail(p.drop_last()).len() as int,
        ));
    } else if p.len() >= 2 && p.last() == '.' && p[p.len() - 2] == '/' {
        lemma_trim_path_tail_prefix(p.drop_last());
        assert(p.drop_last().take(crate::normalize::trim_path_tail(p.drop_last()).len() as int) =~= p.take(
            crate::normalize::trim_path_tail(p.drop_last()).len() as int,
        ));
    } else {
        assert(p.take(p.len() as int) =~= p);
    }
}

proof fn lemma_trim_path_tail_end(p: Seq<char>)
    ensures
        crate::normalize::trim_path_tail(p).len() > 0 ==> crate::normalize::trim_path_tail(p).last() != '/',
    decreases p.len(),
{
    if p.len() >= 1 && p.last() == '/' {
        lemma_trim_path_tail_end(p.drop_last());
    } else if p.len() >= 2 && p.last() == '.' && p[p.len() - 2] == '/' {
        lemma_trim_path_tail_end(p.drop_last());
    }
}

pub proof fn lemma_parent_shorter(p: Seq<char>)
    ensures
        match spec_parent(p) {
            Some(q) => q.len() < p.len(),
            None => true,
        },
{
    let t = crate::normalize::trim_path_tail(p);
    lemma_trim_path_tail_prefix(p);
    lemma_trim_path_tail_end(p);
    if t.len() > 0 {
        let k = crate::normalize::last_index_of(t, '/');
        crate::normalize::lemma_last_index_bounds_pub(t, '/');
        if k >= 0 {
            lemma_trim_path_tail_prefix(t.take(k));
        }
    }
}

/// The configuration files looked for from `dir` upwards: one in `dir`, then one in
/// each parent in turn.
pub open spec fn config_candidates_from(dir: Seq<char>) -> Seq<Seq<char>>
    decreases dir.len(),
{
    let here = crate::integrations::spec_path_join(dir, DEFAULT_CONFIG_FILE@);
    match spec_parent(dir) {
        Some(up) => {
            proof {
                lemma_parent_shorter(dir);
            }
            seq![here] + config_candidates_from(up)
        },
        None => seq![here],
    }
}

pub(crate) fn parent_exec(p: &Vec<char>) -> (r: Option<Vec<char>>)
    ensures
        match r {
            Some(q) => spec_parent(p@) == Some(q@),
            None => spec_parent(p@) is None,
        },
{
    let end = crate::normalize::trim_path_tail_len(p);
    if end == 0 {
        return None;
    }
    let t = crate::text::slice_chars(p.as_slice(), 0, end);
    assert(t@ =~= p@.take(end as int));
    let mut k = t.len();
    assert(t@.take(k as int) =~= t@);
    while k > 0 && t[k - 1] != '/'
        invariant
            k <= t@.len(),
            crate::normalize::last_index_of(t@.take(k as int), '/') == crate::normalize::last_index_of(t@, '/'),
        decreases k,
    {
        assert(t@.take(k as int).drop_last() =~= t@.take(k - 1));
        k = k - 1;
    }
    if k == 0 {
        assert(t@.take(0) =~= Seq::<char>::empty());
        return Some(Vec::new());
    }
    assert(t@.take(k as int).last() == t@[k - 1]);
    let head_full = crate::text::slice_chars(t.as_slice(), 0, k - 1);
    assert(head_full@ =~= t@.take(k - 1));
    let head_end = crate::normalize::trim_path_tail_len(&head_full);
    if head_end == 0 {
        assert(head_full@.take(0) =~= Seq::<char>::empty());
        if t[0] == '/' {
            let mut root: Vec<char> = Vec::new();
            root.push('/');
            assert(root@ =~= seq!['/']);
            return Some(root);
        }
        return Some(Vec::new());
    }
    Some(crate::text::slice_chars(head_full.as_slice(), 0, head_end))
}

/// The configuration files to look for, nearest first.
pub fn config_candidates(cwd: &str) -> (r: Vec<String>)
    ensures
        text_views(r@) == config_candidates_from(cwd@),
{
    let file = chars_of(DEFAULT_CONFIG_FILE);
    let mut current = chars_of(cwd);
    let mut out: Vec<String> = Vec::new();
    let ghost start = cwd@;
    loop
        invariant
            start == cwd@,
            file@ == DEFAULT_CONFIG_FILE@,
            text_views(out@) + config_candidates_from(current@) == config_candidates_from(start),
        decreases current@.len(),
    {
        let here = crate::integrations::path_join(current.as_slice(), file.as_slice());
        let ghost before = text_views(out@);
        out.push(string_from_chars(here.as_slice()));
        assert(text_views(out@) =~= before.push(here@));
        proof {
            lemma_parent_shorter(current@);
        }
        match parent_exec(&current) {
            Some(up) => {
                assert(config_candidates_from(current@) =~= seq![here@] + config_candidates_from(up@));
                assert(text_views(out@) + config_candidates_from(up@) =~= before + config_candidates_from(current@));
                current = up;
            },
            None => {
                assert(text_views(out@) =~= before + config_candidates_from(current@));
                return out;
            },
        }
    }
}

/// The configuration to use: the explicit path if given, else the first candidate that
/// exists (`exists[i]` tells whether `candidates[i]` does).
pub open spec fn spec_discover(explicit: Option<Seq<char>>, candidates: Seq<Seq<char>>, exists: Seq<bool>) -> Option<Seq<char>> {
    match explicit {
        Some(p) => Some(p),
        None => {
            if exists_some(exists, candidates.len()) {
                Some(candidates[first_true(exists, 0)])
            } else {
                None
            }
        },
    }
}

/// Some of the first `n` flags is set.
pub open spec fn exists_some(flags: Seq<bool>, n: nat) -> bool {
    exists|i: int| 0 <= i < n && i < flags.len() && flags[i]
}

/// The position of the first set flag at or after `i`.
pub open spec fn first_true(flags: Seq<bool>, i: int) -> int
    decreases flags.len() - i,
{
    if i < 0 || i >= flags.len() {
        flags.len() as int
    } else if flags[i] {
        i
    } else {
        first_true(flags, i + 1)
    }
}

/// Chooses the configuration file: the explicit one, or the nearest candidate that
/// exists.
pub fn discover_config_path(explicit: Option<&str>, candidates: &[String], exists: &[bool]) -> (r: Option<String>)
    requires
        candidates@.len() == exists@.len(),
    ensures
        match r {
            Some(p) => spec_discover(
                match explicit {
                    Some(e) => Some(e@),
                    None => None,
                },
                text_views(candidates@),
                exists@,
            ) == Some(p@),
            None => spec_discover(
                match explicit {
                    Some(e) => Some(e@),
                    None => None,
                },
                text_views(candidates@),
                exists@,
            ) is None,
        },
{
    if let Some(e) = explicit {
        return Some(String::from_str(e));
    }
    for i in 0..candidates.len()
        invariant
            explicit is None,
            candidates@.len() == exists@.len(),
            forall|j: int| 0 <= j < i ==> !exists@[j],
            first_true(exists@, 0) == first_true(exists@, i as int),
    {
        if exists[i] {
            assert(text_views(candidates@)[i as int] == candidates@[i as int]@);
            assert(exists@[i as int]);
            assert(exists_some(exists@, candidates@.len()));
            assert(first_true(exists@, i as int) == i);
            assert(text_views(candidates@).len() == candidates@.len());
            assert(spec_discover(None, text_views(candidates@), exists@) == Some(candidates@[i as int]@));
            let found = candidates[i].clone();
            assert(found@ == candidates@[i as int]@);
            return Some(found);
        }
    }
    assert(!exists_some(exists@, candidates@.len()));
    None
}

/// The configuration file a command should use or create: the discovered one, or
/// `codehealth.toml` in the working directory.
pub fn config_path(explicit: Option<&str>, cwd: &str, candidates: &[String], exists: &[bool]) -> (r: String)
    requires
        candidates@.len() == exists@.len(),
    ensures
        r@ == match spec_discover(
            match explicit {
                Some(e) => Some(e@),
                None => None,
            },
            text_views(candidates@),
            exists@,
        ) {
            Some(p) => p,
            None => crate::integrations::spec_path_join(cwd@, DEFAULT_CONFIG_FILE@),
        },
{
    match discover_config_path(explicit, candidates, exists) {
        Some(p) => p,
        None => string_from_chars(
            crate::integrations::path_join(chars_of(cwd).as_slice(), chars_of(DEFAULT_CONFIG_FILE).as_slice()).as_slice(),
        ),
    }
}

proof fn lemma_enum_values_allowed(context: Seq<char>, values: Seq<Seq<char>>, allowed: Seq<Seq<char>>)
    requires
        forall|i: int| 0 <= i < values.len() ==> allowed.contains(#[trigger] values[i]),
    ensures
        enum_list_errors(context, values, allowed).len() == 0,
    decreases values.len(),
{
    if values.len() > 0 {
        lemma_enum_values_allowed(context, values.drop_last(), allowed);
        let v = values.last();
        assert(allowed.contains(values[values.len() - 1]));
        let k = choose|k: int| 0 <= k < allowed.len() && allowed[k] == v;
        assert(eq_ignore_ascii_case(allowed[k], v));
    }
}

/// A configuration at its defaults passes every check, whatever the rule catalogue.
pub proof fn lemma_default_config_valid(c: CodehealthConfig, catalog: RuleCatalog)
    requires
        is_default_config(c),
    ensures
        config_errors(c, catalog).len() == 0,
{
    let languages = seq!["typescript"@, "tsx"@, "python"@, "rust"@];
    assert forall|i: int| 0 <= i < languages.len() implies languages.contains(#[trigger] languages[i]) by {}
    lemma_enum_values_allowed("project.languages"@, text_views(c.project.languages@), languages);
    let frameworks = seq!["react"@, "fastapi"@];
    assert forall|i: int| 0 <= i < frameworks.len() implies frameworks.contains(#[trigger] frameworks[i]) by {}
    lemma_enum_values_allowed("project.frameworks"@, text_views(c.project.frameworks@), frameworks);
    assert(text_views(c.ci.fail_on@) =~= seq![]);
    let formats = seq!["text"@, "json"@, "sarif"@, "html"@, "markdown"@, "md"@];
    assert(formats[0] == c.report.default_format@);
    lemma_enum_values_allowed("report.default_format"@, seq![c.report.default_format@], formats);
    assert(eq_ignore_ascii_case(c.embeddings.provider@, "none"@));
    let modes = seq!["disabled"@, "local_only"@, "external_opt_in"@];
    assert(modes[0] == c.embeddings.privacy_mode@);
    lemma_enum_values_allowed("embeddings.privacy_mode"@, seq![c.embeddings.privacy_mode@], modes);
    let levels = seq!["off"@, "warn"@, "error"@];
    assert(levels[1] == c.fastapi.require_response_model@);
    lemma_enum_values_allowed("fastapi.require_response_model"@, seq![c.fastapi.require_response_model@], levels);
    assert(text_views(c.scanner.include_patterns@) =~= seq![]);
    assert(text_views(c.scanner.exclude@) =~= seq![]);
    assert(text_views(c.ignore.paths@) =~= seq![]);
    assert(entry_views(c.rules@) =~= seq![]);
    assert(entry_views(c.rule_options@) =~= seq![]);
    assert(scalar_errors(c).len() == 0);
}

impl CodehealthConfig {
    /// Finishes loading: the parsed configuration (the defaults when no file was found)
    /// is validated and normalised, and returned with the path it came from.
    pub fn load_with_metadata(path: Option<String>, parsed: Option<CodehealthConfig>, catalog: &RuleCatalog) -> (r: Result<LoadedConfig, ConfigError>)
        ensures
            match parsed {
                Some(c) => (r is Ok) == (config_errors(c, *catalog).len() == 0),
                None => r is Ok,
            },
            r matches Ok(loaded) ==> loaded.path == path && loaded.warnings@.len() == 0 && (match parsed {
                Some(c) => normalized_from(c, loaded.config, *catalog) && other_sections_unchanged(c, loaded.config),
                None => is_default_config(loaded.config),
            }),
            r matches Err(e) ==> (match parsed {
                Some(c) => error_list(e) == Some(config_errors(c, *catalog)),
                None => false,
            }),
    {
        let mut config = match parsed {
            Some(c) => c,
            None => CodehealthConfig::default(),
        };
        let ghost before = config;
        proof {
            if parsed is None {
                lemma_default_config_valid(before, *catalog);
            }
        }
        match config.normalize_and_validate(catalog) {
            Ok(warnings) => {
                proof {
                    if parsed is None {
                        assert(entry_views(before.rules@) =~= seq![]);
                        assert(entry_views(before.rule_options@) =~= seq![]);
                        assert(entry_views(config.rules@).len() == config.rules@.len());
                        assert(entry_views(config.rule_options@).len() == config.rule_options@.len());
                    }
                }
                Ok(LoadedConfig { config, path, warnings })
            },
            Err(e) => Err(e),
        }
    }

    /// The validated configuration alone.
    pub fn load(path: Option<String>, parsed: Option<CodehealthConfig>, catalog: &RuleCatalog) -> (r: Result<CodehealthConfig, ConfigError>)
        ensures
            match parsed {
                Some(c) => (r is Ok) == (config_errors(c, *catalog).len() == 0) && (r matches Ok(v) ==> normalized_from(c, v, *catalog) && other_sections_unchanged(c, v)),
                None => r matches Ok(v) && is_default_config(v),
            },
    {
        match CodehealthConfig::load_with_metadata(path, parsed, catalog) {
            Ok(loaded) => Ok(loaded.config),
            Err(e) => Err(e),
        }
    }

    /// Validates a configuration as `load_with_metadata` does.
    pub fn validate_path(path: Option<String>, parsed: Option<CodehealthConfig>, catalog: &RuleCatalog) -> (r: Result<LoadedConfig, ConfigError>)
        ensures
            match parsed {
                Some(c) => (r is Ok) == (config_errors(c, *catalog).len() == 0),
                None => r matches Ok(loaded) && is_default_config(loaded.config),
            },
            r matches Ok(loaded) ==> loaded.path == path && loaded.warnings@.len() == 0,
            r matches Err(e) ==> (match parsed {
                Some(c) => error_list(e) == Some(config_errors(c, *catalog)),
                None => false,
            }),
    {
        CodehealthConfig::load_with_metadata(path, parsed, catalog)
    }
}

} // verus!
