use flatai::resolve;
use flatai::Config;
use flatai::Project;
use flatai::SelectorError;

fn sample_config() -> Config {
    Config {
        general_files: vec!["Cargo.toml".to_string(), "README.md".to_string()],
        projects: vec![
            Project {
                project_type: "rust".to_string(),
                file_types: vec!["rs".to_string()],
                file_names: vec!["build.rs".to_string()],
            },
            Project {
                project_type: "node".to_string(),
                file_types: vec!["js".to_string(), "ts".to_string()],
                file_names: vec!["package.json".to_string()],
            },
        ],
    }
}

#[test]
fn resolve_project_includes_general_files() {
    let config = sample_config();
    let t = "rust".to_string();
    let rule = resolve(&config, Some(&t)).ok().unwrap();
    assert!(rule.names.contains(&"Cargo.toml".to_string()));
    assert!(rule.names.contains(&"README.md".to_string()));
    assert!(rule.names.contains(&"build.rs".to_string()));
}

#[test]
fn resolve_project_extensions_are_own_only() {
    let config = sample_config();
    let t = "node".to_string();
    let rule = resolve(&config, Some(&t)).ok().unwrap();
    assert!(rule.extensions.contains(&"js".to_string()));
    assert!(rule.extensions.contains(&"ts".to_string()));
    assert!(!rule.extensions.contains(&"rs".to_string()));
    // general files augment the name set only, never the extension set
    assert!(!rule.extensions.contains(&"Cargo.toml".to_string()));
}

#[test]
fn resolve_union_extensions_cover_all_projects() {
    let config = sample_config();
    let rule = resolve(&config, None).ok().unwrap();
    assert!(rule.extensions.contains(&"rs".to_string()));
    assert!(rule.extensions.contains(&"js".to_string()));
    assert!(rule.extensions.contains(&"ts".to_string()));
    assert!(!rule.extensions.contains(&"py".to_string()));
    assert!(rule.names.contains(&"build.rs".to_string()));
    assert!(rule.names.contains(&"package.json".to_string()));
    assert!(rule.names.contains(&"Cargo.toml".to_string()));
}

#[test]
fn resolve_unknown_project_type_fails() {
    let config = sample_config();
    let t = "nonexistent".to_string();
    match resolve(&config, Some(&t)) {
        Ok(_) => panic!("an unknown project type must be rejected"),
        Err(SelectorError::UnknownProjectType(name)) => assert_eq!(name, "nonexistent"),
    }
}

#[test]
fn resolve_known_type_never_fails_on_nonempty_config() {
    let config = sample_config();
    let t = "node".to_string();
    assert!(resolve(&config, Some(&t)).is_ok());
}

#[test]
fn resolve_takes_first_matching_project() {
    let config = Config {
        general_files: vec![],
        projects: vec![
            Project {
                project_type: "rust".to_string(),
                file_types: vec!["rs".to_string()],
                file_names: vec![],
            },
            Project {
                project_type: "rust".to_string(),
                file_types: vec!["toml".to_string()],
                file_names: vec![],
            },
        ],
    };
    let t = "rust".to_string();
    let rule = resolve(&config, Some(&t)).ok().unwrap();
    assert!(rule.extensions.contains(&"rs".to_string()));
    assert!(!rule.extensions.contains(&"toml".to_string()));
}

#[test]
fn resolve_empty_config_union_is_empty() {
    let config = Config { general_files: vec![], projects: vec![] };
    let rule = resolve(&config, None).ok().unwrap();
    assert!(rule.extensions.is_empty());
    assert!(rule.names.is_empty());
}
