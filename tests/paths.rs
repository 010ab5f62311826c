use skills_cli::error::SkillError;
use skills_cli::paths::{file_name, join_path, split_path, validate_relative_path, validate_skill_name};
use skills_cli::store::{validate_skill, SkillSource, StorePaths};

#[test]
fn relative_path_examples() {
    assert!(validate_relative_path("skills/foo").is_ok());
    assert_eq!(validate_relative_path("../etc/passwd"), Err(SkillError::InvalidSkillPath));
    assert_eq!(validate_relative_path("/abs/path"), Err(SkillError::InvalidSkillPath));
}

#[test]
fn relative_path_segments() {
    assert!(validate_relative_path("skills/foo..bar").is_ok());
    assert!(validate_relative_path("a/./b").is_ok());
    assert!(validate_relative_path("").is_ok());
    assert!(validate_relative_path("a/..").is_err());
    assert!(validate_relative_path("a/../b").is_err());
    assert!(validate_relative_path("..").is_err());
}

#[test]
fn skill_name_rules() {
    assert!(validate_skill_name("greet").is_ok());
    assert_eq!(validate_skill_name("a/b"), Err(SkillError::InvalidSkillName));
    assert_eq!(validate_skill_name("a\\b"), Err(SkillError::InvalidSkillName));
    assert_eq!(validate_skill_name("."), Err(SkillError::InvalidSkillName));
    assert_eq!(validate_skill_name(".."), Err(SkillError::InvalidSkillName));
    assert!(validate_skill_name("...").is_ok());
}

#[test]
fn file_name_is_last_component() {
    assert_eq!(file_name("skills/greet"), Some("greet".to_string()));
    assert_eq!(file_name("skills/greet/"), Some("greet".to_string()));
    assert_eq!(file_name("skills/greet/."), Some("greet".to_string()));
    assert_eq!(file_name("greet"), Some("greet".to_string()));
    assert_eq!(file_name(""), None);
    assert_eq!(file_name("/"), None);
    assert_eq!(file_name("a/.."), None);
}

#[test]
fn split_keeps_empty_pieces() {
    assert_eq!(split_path("a//b/"), vec!["a", "", "b", ""]);
    assert_eq!(split_path(""), vec![""]);
}

#[test]
fn join_uses_one_separator() {
    assert_eq!(join_path("/home/u", "x"), "/home/u/x");
    assert_eq!(join_path("/home/u/", "x"), "/home/u/x");
    assert_eq!(join_path("", "x"), "x");
    assert_eq!(join_path("/home/u", "/etc"), "/etc");
    assert_eq!(join_path("a", ""), "a/");
}

#[test]
fn store_paths_layout() {
    let p = StorePaths::new("/h".to_string());
    assert_eq!(p.global_dir(), "/h/.agents/skills");
    assert_eq!(p.agent_dir("codex"), "/h/.codex/skills");
    assert_eq!(p.store_entry("s"), "/h/.agents/skills/s");
    assert_eq!(p.agent_link("codex", "s"), "/h/.codex/skills/s");
}

#[test]
fn skill_source_checks() {
    assert_eq!(validate_skill(SkillSource { is_dir: false, has_manifest: true }), Err(SkillError::SkillDirNotFound));
    assert_eq!(validate_skill(SkillSource { is_dir: true, has_manifest: false }), Err(SkillError::ManifestMissing));
    assert_eq!(validate_skill(SkillSource { is_dir: true, has_manifest: true }), Ok(()));
}
