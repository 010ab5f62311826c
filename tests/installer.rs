use skills_cli::archive::{normalize_layout, repo_checkout, safe_extract, ExtractStep};
use skills_cli::error::SkillError;
use skills_cli::paths::validate_relative_path;
use skills_cli::source::resolve_source;
use skills_cli::store::{SkillSource, SkillStore, StorePaths, UninstallOutcome};
use std::io::Write;

fn zip_of(files: &[(&str, &[u8])], dirs: &[&str]) -> Vec<u8> {
    let mut w = zip::ZipWriter::new(std::io::Cursor::new(Vec::new()));
    let options = zip::write::SimpleFileOptions::default();
    for d in dirs {
        w.add_directory(*d, options).unwrap();
    }
    for (name, data) in files {
        w.start_file(*name, options).unwrap();
        w.write_all(data).unwrap();
    }
    w.finish().unwrap().into_inner()
}

fn paths_of(steps: &[ExtractStep]) -> Vec<String> {
    steps.iter().map(|s| s.path.join("/")).collect()
}

const DEST: &str = "/tmp/home";

const VALID: SkillSource = SkillSource { is_dir: true, has_manifest: true };

#[test]
fn install_fails_with_invalid_path() {
    let r = validate_relative_path("../bad");
    assert_eq!(r, Err(SkillError::InvalidSkillPath));
    assert!(r.unwrap_err().message().contains("Invalid skill path"));
}

#[test]
fn safe_extract_blocks_traversal_via_real_zip() {
    let bytes = zip_of(&[("../../evil.txt", b"evil")], &[]);
    match safe_extract(DEST, &bytes) {
        Err(e) => assert_eq!(e, SkillError::UnsafeArchivePath),
        Ok(_) => panic!("a traversing entry was accepted"),
    }
}

#[test]
fn list_command_runs() {
    let store = SkillStore::from_entries(vec![]);
    assert!(store.list().is_empty());
}

#[test]
fn traversal_anywhere_refuses_whole_archive() {
    let bytes = zip_of(&[("ok.txt", b"fine"), ("a/../../evil.txt", b"evil")], &[]);
    assert_eq!(safe_extract(DEST, &bytes).err(), Some(SkillError::UnsafeArchivePath));
    let bytes = zip_of(&[("/etc/evil.txt", b"evil")], &[]);
    assert_eq!(safe_extract(DEST, &bytes).err(), Some(SkillError::UnsafeArchivePath));
}

#[test]
fn entry_that_resolves_back_inside_is_kept() {
    let bytes = zip_of(&[("../home/x.txt", b"x"), ("a/../../home/y.txt", b"y")], &[]);
    let steps = safe_extract(DEST, &bytes).unwrap();
    assert_eq!(paths_of(&steps), vec!["x.txt".to_string(), "y.txt".to_string()]);
    let bytes = zip_of(&[("/tmp/home/z.txt", b"z")], &[]);
    assert_eq!(paths_of(&safe_extract(DEST, &bytes).unwrap()), vec!["z.txt".to_string()]);
    let bytes = zip_of(&[("../homework/x.txt", b"x")], &[]);
    assert_eq!(safe_extract(DEST, &bytes).err(), Some(SkillError::UnsafeArchivePath));
}

#[test]
fn relative_destination_is_resolved_too() {
    let bytes = zip_of(&[("../out/x.txt", b"x")], &[]);
    assert_eq!(paths_of(&safe_extract("out", &bytes).unwrap()), vec!["x.txt".to_string()]);
    let bytes = zip_of(&[("../x.txt", b"x")], &[]);
    assert_eq!(safe_extract("..", &bytes).err(), Some(SkillError::UnsafeArchivePath));
    assert_eq!(safe_extract("out", &bytes).err(), Some(SkillError::UnsafeArchivePath));
}

#[test]
fn dot_dot_that_stays_inside_is_resolved() {
    let bytes = zip_of(&[("a/../b.txt", b"x"), ("./c/./d.txt", b"y")], &[]);
    let steps = safe_extract(DEST, &bytes).unwrap();
    assert_eq!(paths_of(&steps), vec!["b.txt".to_string(), "c/d.txt".to_string()]);
}

#[test]
fn extraction_reads_entry_contents() {
    let bytes = zip_of(&[("top/a.txt", b"alpha"), ("top/sub/b.txt", b"beta")], &["top/"]);
    let steps = safe_extract(DEST, &bytes).unwrap();
    assert_eq!(steps.len(), 3);
    assert_eq!(paths_of(&steps), vec!["top".to_string(), "top/a.txt".to_string(), "top/sub/b.txt".to_string()]);
    assert!(steps[0].is_dir);
    assert!(!steps[1].is_dir);
    assert_eq!(steps[1].data, b"alpha".to_vec());
    assert_eq!(steps[2].data, b"beta".to_vec());
}

#[test]
fn malformed_bytes_are_refused() {
    assert_eq!(safe_extract(DEST, &b"not a zip".to_vec()).err(), Some(SkillError::MalformedArchive));
}

#[test]
fn flattening_promotes_wrapper_contents() {
    let bytes = zip_of(&[("repo-main/README.md", b"r"), ("repo-main/skills/greet/SKILL.md", b"s")], &["repo-main/"]);
    let steps = normalize_layout(safe_extract(DEST, &bytes).unwrap());
    assert_eq!(paths_of(&steps), vec!["".to_string(), "README.md".to_string(), "skills/greet/SKILL.md".to_string()]);
    assert!(steps.iter().all(|s| s.path.first().map_or(true, |p| p != "repo-main")));
}

#[test]
fn no_flattening_with_two_top_entries() {
    let bytes = zip_of(&[("a/x.txt", b"1"), ("b/y.txt", b"2")], &[]);
    let steps = normalize_layout(safe_extract(DEST, &bytes).unwrap());
    assert_eq!(paths_of(&steps), vec!["a/x.txt".to_string(), "b/y.txt".to_string()]);
}

#[test]
fn no_flattening_of_single_file() {
    let bytes = zip_of(&[("only.txt", b"1")], &[]);
    let steps = normalize_layout(safe_extract(DEST, &bytes).unwrap());
    assert_eq!(paths_of(&steps), vec!["only.txt".to_string()]);
}

#[test]
fn checkout_of_empty_archive_fails() {
    let bytes = zip_of(&[], &[]);
    assert_eq!(repo_checkout(DEST, &bytes).err(), Some(SkillError::EmptyArchive));
}

#[test]
fn checkout_flattens_repository_root() {
    let bytes = zip_of(&[("Hello-World-main/skills/greet/SKILL.md", b"# greet")], &[]);
    let steps = repo_checkout(DEST, &bytes).unwrap();
    assert_eq!(paths_of(&steps), vec!["skills/greet/SKILL.md".to_string()]);
}

#[test]
fn install_twice_conflicts() {
    let mut store = SkillStore::new();
    let plan = store.install("gemini", "skills/foo", VALID).unwrap();
    assert_eq!(plan.name, "foo");
    assert!(!plan.replace_link);
    let second = store.install("gemini", "skills/foo", VALID);
    assert_eq!(second.err(), Some(SkillError::AlreadyInstalled));
    assert_eq!(store.list(), &vec!["foo".to_string()]);
}

#[test]
fn install_conflicts_with_listed_store_entry() {
    let mut store = SkillStore::from_entries(vec!["foo".to_string()]);
    assert_eq!(store.install("codex", "foo", VALID).err(), Some(SkillError::AlreadyInstalled));
}

#[test]
fn install_replaces_existing_agent_link() {
    let mut store = SkillStore::new();
    store.note_link("gemini", "bar");
    let plan = store.install("gemini", "x/bar", VALID).unwrap();
    assert!(plan.replace_link);
}

#[test]
fn uninstall_missing_link_is_not_an_error() {
    let mut store = SkillStore::from_entries(vec!["foo".to_string()]);
    assert_eq!(store.uninstall("gemini", "foo"), UninstallOutcome::NotFound);
    assert_eq!(store.list(), &vec!["foo".to_string()]);
}

#[test]
fn uninstall_removes_only_the_link() {
    let mut store = SkillStore::new();
    store.install("gemini", "skills/foo", VALID).unwrap();
    assert_eq!(store.uninstall("gemini", "foo"), UninstallOutcome::Removed);
    assert_eq!(store.uninstall("gemini", "foo"), UninstallOutcome::NotFound);
    assert_eq!(store.list(), &vec!["foo".to_string()]);
    assert_eq!(store.install("gemini", "skills/foo", VALID).err(), Some(SkillError::AlreadyInstalled));
}

#[test]
fn missing_manifest_fails_before_store_changes() {
    let mut store = SkillStore::new();
    let src = SkillSource { is_dir: true, has_manifest: false };
    let r = store.install("gemini", "skills/greet", src);
    assert_eq!(r.err(), Some(SkillError::ManifestMissing));
    assert_eq!(SkillError::ManifestMissing.message(), "SKILL.md not found in skill directory");
    assert!(store.list().is_empty());
    assert!(store.install("gemini", "skills/greet", VALID).is_ok());
}

#[test]
fn install_error_order() {
    let mut store = SkillStore::new();
    let no_dir = SkillSource { is_dir: false, has_manifest: false };
    assert_eq!(store.install("g", "../x", VALID).err(), Some(SkillError::InvalidSkillPath));
    assert_eq!(store.install("g", "/abs/x", VALID).err(), Some(SkillError::InvalidSkillPath));
    assert_eq!(store.install("g", "skills/x", no_dir).err(), Some(SkillError::SkillDirNotFound));
    assert_eq!(store.install("g", "", VALID).err(), Some(SkillError::InvalidSkillPath));
    assert_eq!(store.install("g", "skills/a\\b", VALID).err(), Some(SkillError::InvalidSkillName));
    assert!(store.list().is_empty());
}

#[test]
fn end_to_end_install_greet_for_gemini() {
    let (owner, repo) = resolve_source(Some("octocat/Hello-World".to_string()), None).unwrap();
    assert_eq!((owner.as_str(), repo.as_str()), ("octocat", "Hello-World"));
    assert!(validate_relative_path("skills/greet").is_ok());
    let bytes = zip_of(&[("Hello-World-main/skills/greet/SKILL.md", b"# greet")], &[]);
    let steps = repo_checkout(DEST, &bytes).unwrap();
    assert!(paths_of(&steps).contains(&"skills/greet/SKILL.md".to_string()));
    let paths = StorePaths::new("/home/u".to_string());
    let mut store = SkillStore::new();
    let plan = store.install("gemini", "skills/greet", VALID).unwrap();
    assert_eq!(paths.store_entry(&plan.name), "/home/u/.agents/skills/greet");
    assert_eq!(paths.agent_link("gemini", &plan.name), "/home/u/.gemini/skills/greet");
    let again = store.install("gemini", "skills/greet", VALID);
    assert_eq!(again.err().map(|e| e.message()), Some("Skill already exists in global store"));
    assert_eq!(store.list(), &vec!["greet".to_string()]);
}
