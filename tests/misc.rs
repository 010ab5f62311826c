use skills_cli::banner::{spaced_banner, spaced_lines, BANNER};
use skills_cli::config::{ConfigManager, Settings};
use skills_cli::error::SkillError;
use skills_cli::perms::{executable_mode, is_shell_script, set_executable_permissions, ModeChange};
use skills_cli::store::{list_agents, SkillStore};
use skills_cli::workspace::{is_script_type, needs_confirmation, project_target, ProjectTarget};

#[test]
fn list_runs() {
    let store = SkillStore::from_entries(vec!["greet".to_string(), "search".to_string()]);
    assert_eq!(store.list(), &vec!["greet".to_string(), "search".to_string()]);
}

#[test]
fn agents_are_dot_dirs_with_skills() {
    let entries = vec![
        (".gemini".to_string(), true),
        (".cache".to_string(), false),
        ("notes".to_string(), true),
        (".codex".to_string(), true),
    ];
    assert_eq!(list_agents(&entries), vec!["gemini".to_string(), "codex".to_string()]);
    assert!(list_agents(&vec![]).is_empty());
}

#[test]
fn executable_bits_follow_read_bits() {
    assert_eq!(executable_mode(0o644), 0o755);
    assert_eq!(executable_mode(0o600), 0o700);
    assert_eq!(executable_mode(0o755), 0o755);
    assert_eq!(executable_mode(0o004), 0o105);
    assert_eq!(executable_mode(0o000), 0o000);
}

#[test]
fn shell_scripts_by_extension() {
    assert!(is_shell_script("setup.sh"));
    assert!(!is_shell_script(".sh"));
    assert!(!is_shell_script("setup.ps1"));
    assert!(!is_shell_script("sh"));
}

#[test]
fn permission_changes_for_scripts_only() {
    let files = vec![
        ("a.sh".to_string(), 0o644),
        ("b.md".to_string(), 0o644),
        ("c.sh".to_string(), 0o755),
        ("d.sh".to_string(), 0o640),
    ];
    assert_eq!(
        set_executable_permissions(&files),
        vec![ModeChange { index: 0, mode: 0o755 }, ModeChange { index: 3, mode: 0o750 }]
    );
}

#[test]
fn banner_is_spaced() {
    assert_eq!(spaced_lines("ab\nc"), "a b \nc \n");
    assert_eq!(spaced_lines(""), "\n");
    let b = spaced_banner();
    assert_eq!(b.lines().count(), BANNER.lines().count());
    assert!(b.starts_with("█ █ "));
}

#[test]
fn project_placement() {
    assert_eq!(project_target(None, true), Ok(ProjectTarget::CurrentDir));
    assert_eq!(project_target(Some(".".to_string()), false), Ok(ProjectTarget::CurrentDir));
    assert_eq!(project_target(Some("app".to_string()), false), Ok(ProjectTarget::NewDir("app".to_string())));
    assert_eq!(project_target(None, false), Err(SkillError::MissingProjectName));
    assert!(needs_confirmation(&ProjectTarget::CurrentDir, 3, false));
    assert!(!needs_confirmation(&ProjectTarget::CurrentDir, 3, true));
    assert!(!needs_confirmation(&ProjectTarget::CurrentDir, 0, false));
    assert!(!needs_confirmation(&ProjectTarget::NewDir("x".to_string()), 3, false));
}

#[test]
fn config_manager_paths_and_settings() {
    let mut m = ConfigManager::new("/h/.blink".to_string(), Settings { json: "{}".to_string() });
    assert_eq!(m.sessions_dir(), "/h/.blink/sessions");
    assert_eq!(m.config_dir(), "/h/.blink");
    m.settings_mut().json = "{\"a\":1}".to_string();
    assert_eq!(m.settings().json, "{\"a\":1}");
}

#[test]
fn config_directory_prefers_home() {
    let h = Some("/home/u".to_string());
    let p = Some("C:/Users/u".to_string());
    assert_eq!(ConfigManager::config_directory(h.clone(), p.clone()), Some("/home/u/.blink".to_string()));
    assert_eq!(ConfigManager::config_directory(None, p), Some("C:/Users/u/.blink".to_string()));
    assert_eq!(ConfigManager::config_directory(None, None), None);
}

#[test]
fn error_messages() {
    assert_eq!(SkillError::InvalidSkillPath.message(), "Invalid skill path");
    assert_eq!(SkillError::AlreadyInstalled.message(), "Skill already exists in global store");
    assert_eq!(SkillError::ManifestMissing.message(), "SKILL.md not found in skill directory");
    assert_eq!(SkillError::UnsafeArchivePath.message(), "Archive contains invalid path");
    assert_eq!(SkillError::RepoFormat.message(), "Repo must be owner/repo");
    assert_eq!(SkillError::InvalidUrl.message(), "Invalid GitHub URL");
    assert_eq!(SkillError::SkillDirNotFound.message(), "Skill directory not found");
    assert_eq!(SkillError::InvalidSkillName.message(), "Invalid skill name");
    assert_eq!(SkillError::EmptyArchive.message(), "Empty archive");
}

#[test]
fn script_types() {
    assert!(is_script_type("sh"));
    assert!(is_script_type("ps"));
    assert!(!is_script_type("bash"));
    assert!(!is_script_type("hs"));
    assert!(!is_script_type(""));
}
