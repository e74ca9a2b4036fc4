use codehealth::config::IntegrationsConfig;
use codehealth::integrations::ExternalTool;
use codehealth::tool_plan::{plan_external_tools, ConfigFileKind, WorkspaceConfigFile};

fn config_file(path: &str, kind: ConfigFileKind) -> WorkspaceConfigFile {
    WorkspaceConfigFile { path: path.to_string(), kind }
}

fn strings(items: &[&str]) -> Vec<String> {
    items.iter().map(|s| s.to_string()).collect()
}

#[test]
fn nothing_is_planned_when_no_tool_is_enabled() {
    let config = IntegrationsConfig::default();
    let plan = plan_external_tools(&config, &"/repo".to_string(), &strings(&[]), &Vec::new(), &strings(&["typescript"]));
    assert!(plan.invocations.is_empty());
    assert!(!plan.clippy_without_manifest);
}

#[test]
fn eslint_runs_once_per_config_directory_in_path_order() {
    let config = IntegrationsConfig { eslint: true, ..IntegrationsConfig::default() };
    let files = vec![
        config_file("/repo/web2/eslint.config.js", ConfigFileKind::EslintConfig),
        config_file("/repo/web/.eslintrc.json", ConfigFileKind::EslintConfig),
        config_file("/repo/web/eslint.config.js", ConfigFileKind::EslintConfig),
        config_file("/repo/tsconfig.json", ConfigFileKind::TsconfigJson),
    ];
    let plan = plan_external_tools(&config, &"/repo".to_string(), &strings(&[]), &files, &strings(&["typescript"]));
    assert_eq!(plan.invocations.len(), 2);
    assert_eq!(plan.invocations[0].tool, ExternalTool::Eslint);
    assert_eq!(plan.invocations[0].cwd, "/repo/web");
    assert_eq!(plan.invocations[1].cwd, "/repo/web2");
    assert_eq!(plan.invocations[0].command, config.eslint_command);
    assert_eq!(plan.invocations[0].manifest_dir, None);
}

#[test]
fn a_tool_without_config_runs_at_the_root_when_its_files_exist() {
    let config = IntegrationsConfig { ruff: true, ..IntegrationsConfig::default() };
    let plan = plan_external_tools(&config, &"/repo".to_string(), &strings(&[]), &Vec::new(), &strings(&["python"]));
    assert_eq!(plan.invocations.len(), 1);
    assert_eq!(plan.invocations[0].tool, ExternalTool::Ruff);
    assert_eq!(plan.invocations[0].cwd, "/repo");
    let none = plan_external_tools(&config, &"/repo".to_string(), &strings(&[]), &Vec::new(), &strings(&["rust"]));
    assert!(none.invocations.is_empty());
}

#[test]
fn clippy_without_a_manifest_is_reported() {
    let config = IntegrationsConfig { clippy: true, ..IntegrationsConfig::default() };
    let plan = plan_external_tools(&config, &"/repo".to_string(), &strings(&[]), &Vec::new(), &strings(&["rust"]));
    assert!(plan.invocations.is_empty());
    assert!(plan.clippy_without_manifest);
}

#[test]
fn cargo_check_runs_per_manifest_with_its_path() {
    let config = IntegrationsConfig { cargo_check: true, cargo_check_args: strings(&["check"]), ..IntegrationsConfig::default() };
    let manifests = strings(&["/repo/crates/a/Cargo.toml", "/repo/crates/b/Cargo.toml"]);
    let plan = plan_external_tools(&config, &"/repo".to_string(), &manifests, &Vec::new(), &strings(&["rust"]));
    assert_eq!(plan.invocations.len(), 2);
    assert_eq!(plan.invocations[0].tool, ExternalTool::CargoCheck);
    assert_eq!(plan.invocations[0].args, strings(&["check", "--manifest-path", "/repo/crates/a/Cargo.toml"]));
    assert_eq!(plan.invocations[0].cwd, "/repo");
    assert_eq!(plan.invocations[0].manifest_dir, Some("/repo/crates/a".to_string()));
    assert_eq!(plan.invocations[1].manifest_dir, Some("/repo/crates/b".to_string()));
    assert!(!plan.clippy_without_manifest);
}

#[test]
fn cargo_check_runs_once_at_a_workspace_root() {
    let config = IntegrationsConfig { cargo_check: true, ..IntegrationsConfig::default() };
    let manifests = strings(&["/repo/crates/a/Cargo.toml", "/repo/Cargo.toml"]);
    let plan = plan_external_tools(&config, &"/repo".to_string(), &manifests, &Vec::new(), &strings(&["rust"]));
    assert_eq!(plan.invocations.len(), 1);
    assert_eq!(plan.invocations[0].args, config.cargo_check_args);
    assert_eq!(plan.invocations[0].manifest_dir, Some("/repo".to_string()));
}
