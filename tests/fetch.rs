use skills_cli::error::SkillError;
use skills_cli::source::{
    asset_pattern, bearer_value, choose_token, latest_release_url, release_date, day_or_raw, release_version, resolve_source, select_asset,
    ReleaseAsset, SourceReference,
};

fn asset(name: &str) -> ReleaseAsset {
    ReleaseAsset { name: name.to_string(), size: 10, download_url: format!("https://example.test/{}", name) }
}

#[test]
fn install_requires_repo_or_url() {
    assert_eq!(resolve_source(None, None), Err(SkillError::MissingSource));
    assert_eq!(SkillError::MissingSource.message(), "Provide --repo or --url");
}

#[test]
fn resolve_from_repo() {
    assert_eq!(resolve_source(Some("owner/repo".to_string()), None), Ok(("owner".to_string(), "repo".to_string())));
    assert_eq!(resolve_source(Some("owner".to_string()), None), Err(SkillError::RepoFormat));
    assert_eq!(resolve_source(Some("a/b/c".to_string()), None), Err(SkillError::RepoFormat));
    assert_eq!(resolve_source(Some("owner/".to_string()), None), Err(SkillError::RepoFormat));
}

#[test]
fn resolve_from_url() {
    let u = Some("https://github.com/octocat/Hello-World".to_string());
    assert_eq!(resolve_source(None, u), Ok(("octocat".to_string(), "Hello-World".to_string())));
    let u = Some("https://github.com/octocat/Hello-World/tree/main".to_string());
    assert_eq!(resolve_source(None, u), Ok(("octocat".to_string(), "Hello-World".to_string())));
    assert_eq!(resolve_source(None, Some("https://github.com/octocat".to_string())), Err(SkillError::InvalidUrl));
    let both = resolve_source(Some("a/b".to_string()), Some("https://github.com/c/d".to_string()));
    assert_eq!(both, Ok(("a".to_string(), "b".to_string())));
}

#[test]
fn archive_and_release_urls() {
    let s = SourceReference { owner: "octocat".to_string(), repo: "Hello-World".to_string(), reference: "main".to_string() };
    assert_eq!(s.archive_url(), "https://codeload.github.com/octocat/Hello-World/zip/main");
    assert_eq!(latest_release_url("bl1nk-bot", "skill-cli"), "https://api.github.com/repos/bl1nk-bot/skill-cli/releases/latest");
}

#[test]
fn asset_selection_takes_first_zip_match() {
    let pattern = asset_pattern("codex", "sh");
    assert_eq!(pattern, "bl1nk-template-codex-sh");
    let assets = vec![
        asset("bl1nk-template-gemini-sh-v1.zip"),
        asset("bl1nk-template-codex-sh-v1.tar.gz"),
        asset("bl1nk-template-codex-sh-v1.zip"),
        asset("x-bl1nk-template-codex-sh.zip"),
    ];
    assert_eq!(select_asset(&assets, &pattern), Ok(2));
    assert_eq!(select_asset(&assets, "bl1nk-template-qwen-ps"), Err(SkillError::NoMatchingAsset));
    assert_eq!(select_asset(&vec![], &pattern), Err(SkillError::NoMatchingAsset));
}

#[test]
fn token_precedence() {
    let s = |x: &str| Some(x.to_string());
    assert_eq!(choose_token(s("flag"), s("gh"), s("github")), s("flag"));
    assert_eq!(choose_token(None, s("gh"), s("github")), s("gh"));
    assert_eq!(choose_token(None, None, s("github")), s("github"));
    assert_eq!(choose_token(None, None, None), None);
    assert_eq!(bearer_value("abc"), "Bearer abc");
}

#[test]
fn version_drops_leading_v() {
    assert_eq!(release_version("v1.2.3"), "1.2.3");
    assert_eq!(release_version("vv2"), "2");
    assert_eq!(release_version("1.0"), "1.0");
    assert_eq!(release_version(""), "");
}

#[test]
fn release_dates() {
    assert_eq!(release_date("2024-03-05T10:20:30Z"), "2024-03-05");
    assert_eq!(release_date("1996-12-19T16:39:57-08:00"), "1996-12-19");
    assert_eq!(release_date("yesterday"), "yesterday");
    assert_eq!(day_or_raw(Some("2024-01-02".to_string()), "raw"), "2024-01-02");
    assert_eq!(day_or_raw(None, "raw"), "raw");
}
