use codehealth::config::{
    path_matches_any, CatalogRule, CodehealthConfig, ConfigError, ConfigValidationError,
    RuleCatalog, RuleLevel, SimilarityThreshold, ValidationErrors,
};
use codehealth::findings::Severity;
use codehealth::suppressions::parse_suppressions;

fn catalog() -> RuleCatalog {
    RuleCatalog {
        rules: vec![
            CatalogRule {
                code: "duplicate.exact.file".to_string(),
                aliases: vec!["duplicate.exact_file".to_string()],
            },
            CatalogRule {
                code: "duplicate.exact.body".to_string(),
                aliases: vec!["duplicate.exact_body".to_string()],
            },
        ],
    }
}

#[test]
fn missing_default_config_returns_defaults() {
    let loaded =
        CodehealthConfig::load_with_metadata(None, None, &catalog()).expect("default config loads");

    assert!(loaded.path.is_none());
    assert_eq!(loaded.config.report.default_format, "text");
    assert_eq!(loaded.config.project.languages.len(), 4);
    assert_eq!(loaded.config.scanner.max_file_size_bytes, 1024 * 1024);
    assert!(loaded.config.scanner.detect_javascript);
    assert!(loaded.config.ci.block_new_findings_only);
    assert!(loaded.config.scoring.enabled);
    assert!(!loaded.config.embeddings.enabled);
    assert_eq!(loaded.config.embeddings.provider, "none");
}

#[test]
fn canonicalizes_rule_aliases() {
    let mut config = CodehealthConfig::default();
    config.rules = vec![("duplicate.exact_file".to_string(), RuleLevel::Off)];

    config.normalize_and_validate(&catalog()).expect("valid aliases");

    assert_eq!(config.rules.len(), 1);
    assert_eq!(config.rules[0].0, "duplicate.exact.file");
    assert_eq!(config.rules[0].1, RuleLevel::Off);
}

#[test]
fn parses_scoring_enabled_flag() {
    let mut config = CodehealthConfig::default();
    config.scoring.enabled = false;

    config.normalize_and_validate(&catalog()).expect("valid scoring config");

    assert!(!config.scoring.enabled);
}

#[test]
fn accepts_markdown_report_format() {
    let mut config = CodehealthConfig::default();
    config.report.default_format = "markdown".to_string();

    config.normalize_and_validate(&catalog()).expect("valid report format");

    assert_eq!(config.report.default_format, "markdown");
}

#[test]
fn parses_baseline_owner() {
    let mut config = CodehealthConfig::default();
    config.ci.baseline_owner = Some("platform".to_string());

    config.normalize_and_validate(&catalog()).expect("valid ci config");

    assert_eq!(config.ci.baseline_owner.as_deref(), Some("platform"));
}

#[test]
fn rejects_unknown_rule_ids() {
    let mut config = CodehealthConfig::default();
    config.rules = vec![("unknown.rule".to_string(), RuleLevel::Severity(Severity::Medium))];

    let error = config.normalize_and_validate(&catalog()).expect_err("unknown rule");

    assert!(error.message().contains("unknown rule id 'unknown.rule'"));
}

#[test]
fn rejects_invalid_rule_levels() {
    let error = RuleLevel::parse("sometimes").expect_err("invalid level");

    assert!(error.contains("invalid rule level"));
}

#[test]
fn validates_scanner_options() {
    let mut config = CodehealthConfig::default();
    config.scanner.include_patterns = vec!["src/**".to_string()];
    config.scanner.exclude = vec!["target/**".to_string()];
    config.scanner.max_file_size_bytes = 0;

    let error = config.normalize_and_validate(&catalog()).expect_err("invalid scanner");

    assert!(error.message().contains("scanner.max_file_size_bytes"));
}

#[test]
fn validates_near_duplicate_lsh_options() {
    let mut config = CodehealthConfig::default();
    config.duplication.near_hash_functions = 95;
    config.duplication.near_lsh_bands = 24;
    config.duplication.near_lsh_rows = 4;

    let error = config
        .normalize_and_validate(&catalog())
        .expect_err("invalid near duplicate config");

    assert!(error.message().contains("duplication.near_hash_functions"));
}

#[test]
fn rejects_reserved_embedding_providers() {
    for provider in ["local", "external"] {
        let mut config = CodehealthConfig::default();
        config.embeddings.provider = provider.to_string();

        let error = config.normalize_and_validate(&catalog()).expect_err("reserved provider");

        let message = error.message();
        assert!(message.contains("embeddings.provider"));
        assert!(message.contains("reserved"));
    }
}

#[test]
fn validates_embedding_privacy_threshold_and_limit() {
    let mut config = CodehealthConfig::default();
    config.embeddings.privacy_mode = "network".to_string();
    let error = config.normalize_and_validate(&catalog()).expect_err("invalid privacy");
    assert!(error.message().contains("embeddings.privacy_mode"));

    let mut config = CodehealthConfig::default();
    config.embeddings.similarity_threshold = SimilarityThreshold::from_basis_points(0);
    let error = config.normalize_and_validate(&catalog()).expect_err("invalid threshold");
    assert!(error.message().contains("embeddings.similarity_threshold"));

    let mut config = CodehealthConfig::default();
    config.embeddings.candidate_limit = 0;
    let error = config.normalize_and_validate(&catalog()).expect_err("invalid limit");
    assert!(error.message().contains("embeddings.candidate_limit"));
}

#[test]
fn path_matcher_matches_directory_names() {
    assert!(path_matches_any(
        "repo",
        "repo/target/debug/main.rs",
        &["target".to_string()]
    ));
}

#[test]
fn parses_next_line_suppression_with_alias_and_warning() {
    let suppressions = parse_suppressions(
        "a.ts",
        "// codehealth-ignore-next-line duplicate.exact_file\nexport const a = 1;",
        &catalog(),
    );

    assert_eq!(suppressions.len(), 1);
    assert_eq!(suppressions[0].rule_id, "duplicate.exact.file");
    assert_eq!(suppressions[0].target_start_line, 2);
    assert_eq!(suppressions[0].warnings, vec!["suppression reason is missing"]);
}

#[test]
fn config_error_messages_name_the_problem() {
    let read = ConfigError::Read { path: "codehealth.toml".to_string(), message: "missing".to_string() };
    assert_eq!(read.message(), "failed to read config at codehealth.toml");
    let parse = ConfigError::Parse { path: "codehealth.toml".to_string(), message: "bad".to_string() };
    assert_eq!(parse.message(), "failed to parse config at codehealth.toml");
    let errors = ConfigError::Validation(ValidationErrors(vec![
        ConfigValidationError::UnknownRule {
            context: "rules".to_string(),
            rule_id: "x".to_string(),
            known_rules: vec!["a".to_string(), "b".to_string()],
        },
        ConfigValidationError::InvalidValue {
            context: "report.default_format".to_string(),
            value: "pdf".to_string(),
            expected: vec!["text".to_string(), "json".to_string()],
        },
        ConfigValidationError::InvalidGlob {
            context: "ignore.paths".to_string(),
            pattern: "[".to_string(),
            message: "unclosed".to_string(),
        },
    ]));
    assert_eq!(
        errors.message(),
        "invalid config: unknown rule id 'x' in rules; known rules: a, b; invalid value 'pdf' in report.default_format; expected one of: text, json; invalid glob '[' in ignore.paths: unclosed"
    );
}

#[test]
fn oversized_glob_pattern_matches_nothing() {
    let pattern = "?".repeat(100_000);
    assert!(!path_matches_any("/repo", "/repo/src/a.ts", &[pattern]));
}
