use skills_manager::clawhub::{self, ClawHubItem, ClawHubNative, ClawHubOwner};
use skills_manager::download::{
    archive_request, choose_skill_root, parse_download_source, read_limited,
    sanitize_relative_subpath, DownloadSource,
};
use skills_manager::skillsmp::{self, Envelope, OnlineSkill, Pagination, SearchData};
use skills_manager::skillssh::{self, SearchSkill};
use skills_manager::translation::{
    check_settings_request, check_text, key_kind, session_key, validate_endpoint,
    BasicTranslationConfig, KeyKind,
};

fn text(value: &serde_json::Value, key: &str) -> String {
    value[key].as_str().unwrap_or_default().to_string()
}

fn number(value: &serde_json::Value, key: &str) -> u64 {
    value[key].as_u64().unwrap_or(0)
}

/// Reads a ClawHub answer the way the application does.
fn clawhub_items(raw: &str) -> Vec<ClawHubItem> {
    let value: serde_json::Value = serde_json::from_str(raw).unwrap();
    value["results"]
        .as_array()
        .unwrap()
        .iter()
        .map(|item| ClawHubItem {
            id: text(item, "id"),
            slug: text(item, "slug"),
            display_name: text(item, "displayName"),
            summary: text(item, "summary"),
            downloads: number(item, "downloads"),
            source: text(item, "source"),
            canonical_url: text(item, "canonicalUrl"),
            owner_handle: text(item, "ownerHandle"),
            owner: item.get("owner").map(|owner| ClawHubOwner {
                handle: text(owner, "handle"),
                display_name: text(owner, "displayName"),
            }),
            native: item.get("native").map(|native| ClawHubNative {
                categories: native["skill"]["categories"]
                    .as_array()
                    .map(|values| {
                        values
                            .iter()
                            .map(|v| v.as_str().unwrap_or_default().to_string())
                            .collect()
                    })
                    .unwrap_or_default(),
                stars: native["skill"]["stats"]["stars"].as_u64(),
            }),
        })
        .collect()
}

/// Reads a SkillsMP answer the way the application does (`None` where the
/// answer does not have the expected shape).
fn skillsmp_envelope(raw: &str) -> Option<Envelope> {
    let value: serde_json::Value = serde_json::from_str(raw).ok()?;
    let success = value.get("success")?.as_bool()?;
    let data = match value.get("data") {
        None => None,
        Some(data) => {
            let pagination = &data["pagination"];
            Some(SearchData {
                skills: data["skills"]
                    .as_array()?
                    .iter()
                    .map(|item| OnlineSkill {
                        id: text(item, "id"),
                        name: text(item, "name"),
                        author: text(item, "author"),
                        description: text(item, "description"),
                        github_url: text(item, "githubUrl"),
                        stars: number(item, "stars"),
                    })
                    .collect(),
                pagination: Pagination {
                    page: pagination["page"].as_u64()?,
                    limit: pagination["limit"].as_u64()?,
                    total: pagination["total"].as_u64()?,
                    has_next: pagination["hasNext"].as_bool()?,
                },
            })
        }
    };
    Some(Envelope { success, data })
}

fn skillsmp_parse(
    raw: &str,
    limit: u64,
    offset: u64,
    remaining: Option<u64>,
) -> Result<skillsmp::SkillsMpResponse, String> {
    match skillsmp_envelope(raw) {
        Some(envelope) => skillsmp::map_response(&envelope, limit, offset, remaining),
        None => Err("SkillsMP 返回格式异常 / Invalid API response".to_string()),
    }
}

fn skillssh_items(raw: &str) -> Vec<SearchSkill> {
    let value: serde_json::Value = serde_json::from_str(raw).unwrap();
    value["skills"]
        .as_array()
        .unwrap()
        .iter()
        .map(|item| SearchSkill {
            id: text(item, "id"),
            name: text(item, "name"),
            installs: number(item, "installs"),
            source: text(item, "source"),
        })
        .collect()
}

const SKILLSMP_FIXTURE: &str = r#"{"success":true,"data":{"skills":[{"id":"demo","name":"PDF","author":"alice","description":"PDF tools","githubUrl":"https://github.com/alice/skills/tree/main/pdf","stars":12}],"pagination":{"page":1,"limit":20,"total":1,"hasNext":true,"totalIsExact":false}}}"#;

#[test]
fn maps_only_native_clawhub_results() {
    let raw = r#"{"results":[{"id":"clawhub:one","slug":"react","displayName":"React","summary":"React workflow","downloads":42,"source":"clawhub","canonicalUrl":"/alice/skills/react","ownerHandle":"alice","owner":{"handle":"alice","displayName":"Alice"},"native":{"skill":{"categories":["development"],"stats":{"stars":3}}}},{"id":"skills-sh:x/y/z","slug":"z","displayName":"z","source":"skills-sh"}]}"#;
    let result = clawhub::map_results(&clawhub_items(raw), 20);
    assert_eq!(result.skills.len(), 1);
    assert_eq!(result.skills[0].market_id, "clawhub");
    assert_eq!(
        result.skills[0].source_url,
        "https://clawhub.ai/api/v1/download?slug=react"
    );
    assert_eq!(
        result.skills[0].detail_url,
        "https://clawhub.ai/alice/skills/react"
    );
    assert_eq!(result.skills[0].installs, 42);
    assert_eq!(result.skills[0].stars, 3);
}

#[test]
fn rejects_empty_queries_and_pagination() {
    assert!(clawhub::validate_request("", 20, 0).is_err());
    assert!(clawhub::validate_request("react", 20, 20).is_err());
    assert!(clawhub::validate_request("react", 20, 0).is_ok());
}

#[test]
fn clawhub_limits_results_and_encodes_slugs() {
    let raw = r#"{"results":[{"id":"a","slug":"a b","displayName":"A","source":"clawhub","canonicalUrl":"","ownerHandle":"bob","owner":{"handle":"bob","displayName":"  "}},{"id":"b","slug":"b","displayName":"B","source":"clawhub","ownerHandle":"carol"}]}"#;
    let result = clawhub::map_results(&clawhub_items(raw), 1);
    assert_eq!(result.skills.len(), 1);
    assert_eq!(result.total, 1);
    assert_eq!(result.skills[0].id, "clawhub:a");
    assert_eq!(
        result.skills[0].source_url,
        "https://clawhub.ai/api/v1/download?slug=a%20b"
    );
    assert_eq!(result.skills[0].detail_url, "https://clawhub.ai/bob/skills/a b");
    assert_eq!(result.skills[0].author, "bob");
    assert_eq!(result.skills[0].namespace, "");
    assert_eq!(result.skills[0].stars, 0);
}

#[test]
fn clawhub_rejects_long_and_control_queries() {
    assert_eq!(
        clawhub::validate_request("bad\u{7}query", 20, 0).unwrap_err(),
        "ClawHub：请输入 1–200 个字符的搜索词 / Enter a search keyword"
    );
    assert!(clawhub::validate_request(&"x".repeat(201), 20, 0).is_err());
    assert!(clawhub::validate_request(&"x".repeat(200), 50, 0).is_ok());
    assert_eq!(
        clawhub::validate_request("react", 51, 0).unwrap_err(),
        "ClawHub：该搜索接口不支持继续翻页 / Search pagination is unavailable"
    );
}

#[test]
fn maps_online_results_and_uses_has_next_instead_of_estimated_total() {
    let result = skillsmp_parse(SKILLSMP_FIXTURE, 20, 0, Some(49)).unwrap();
    assert!(result.has_next);
    assert_eq!(result.skills[0].market_id, "skillsmp");
    assert_eq!(
        result.skills[0].source_url,
        "https://github.com/alice/skills/tree/main/pdf"
    );
    assert_eq!(result.skills[0].stars, 12);
    assert_eq!(result.daily_remaining, Some(49));
}

#[test]
fn rejects_bad_queries_and_pagination_before_network_requests() {
    for q in ["", "   ", "*", "a*b"] {
        assert!(skillsmp::validate_request(q, 20, 0).is_err());
    }
    assert!(skillsmp::validate_request("中文 PDF", 20, 0).is_ok());
    assert!(skillsmp::validate_request("pdf", 0, 0).is_err());
    assert!(skillsmp::validate_request("pdf", 51, 0).is_err());
    assert!(skillsmp::validate_request("pdf", 20, 1).is_err());
    assert!(skillsmp::validate_request("pdf", 20, 1000).is_err());
}

#[test]
fn disables_unsafe_download_links_without_hiding_search_results() {
    for url in [
        "https://github.com.evil.test/a/b",
        "file:///secret",
        "https://github.com/a/b/blob/main/SKILL.md",
        "https://github.com/a/b/tree/main/%2e%2e/private",
    ] {
        let raw = SKILLSMP_FIXTURE.replace("https://github.com/alice/skills/tree/main/pdf", url);
        let result = skillsmp_parse(&raw, 20, 0, None).unwrap();
        assert_eq!(result.skills.len(), 1);
        assert!(result.skills[0].source_url.is_empty());
    }
}

#[test]
fn rejects_malformed_or_error_responses() {
    for raw in [
        "<html>blocked</html>",
        "{}",
        r#"{"success":false,"error":{"code":"DAILY_QUOTA_EXCEEDED"}}"#,
    ] {
        assert!(skillsmp_parse(raw, 20, 0, None).is_err());
    }
}

#[test]
fn skillsmp_refuses_inconsistent_pages_and_stops_after_fifty() {
    let wrong_page = SKILLSMP_FIXTURE.replace("\"page\":1", "\"page\":2");
    assert_eq!(
        skillsmp_parse(&wrong_page, 20, 0, None).unwrap_err(),
        "SkillsMP 分页响应不一致，请刷新重试 / Unexpected pagination"
    );
    let last_page = SKILLSMP_FIXTURE.replace("\"page\":1", "\"page\":50");
    let result = skillsmp_parse(&last_page, 20, 980, None).unwrap();
    assert!(!result.has_next);
    assert_eq!(result.offset, 980);
    let no_data = r#"{"success":true}"#;
    assert_eq!(
        skillsmp_parse(no_data, 20, 0, None).unwrap_err(),
        "SkillsMP 响应缺少数据 / Missing response data"
    );
}

#[test]
fn supported_github_links_are_repositories_or_directories() {
    assert!(skillsmp::supported_github_url("https://github.com/alice/skills"));
    assert!(skillsmp::supported_github_url("https://github.com/alice/skills/"));
    assert!(skillsmp::supported_github_url(
        "https://github.com/alice/skills/tree/main/pdf"
    ));
    assert!(!skillsmp::supported_github_url("https://github.com/alice"));
    assert!(!skillsmp::supported_github_url("https://github.com/alice/skills?x=1"));
    assert!(!skillsmp::supported_github_url("https://github.com/alice/skills/tree/main"));
    assert!(!skillsmp::supported_github_url("https://github.com/alice//skills"));
}

#[test]
fn maps_anonymous_compatibility_results() {
    let raw = r#"{"skills":[{"id":"vercel-labs/agent-skills/react","name":"react","installs":123,"source":"vercel-labs/agent-skills"}]}"#;
    let result = skillssh::map_results(&skillssh_items(raw), 20);
    assert_eq!(
        result.skills[0].source_url,
        "https://github.com/vercel-labs/agent-skills"
    );
    assert_eq!(
        result.skills[0].detail_url,
        "https://skills.sh/vercel-labs/agent-skills/react"
    );
    assert_eq!(result.skills[0].installs, 123);
}

#[test]
fn rejects_untrusted_sources() {
    let raw = r#"{"skills":[{"id":"evil","name":"evil","source":"../evil"}]}"#;
    assert!(skillssh::map_results(&skillssh_items(raw), 20)
        .skills
        .is_empty());
}

#[test]
fn skillssh_author_and_query_rules() {
    let raw = r#"{"skills":[{"id":"a/b/c","name":"c","source":"a/b"}]}"#;
    let result = skillssh::map_results(&skillssh_items(raw), 20);
    assert_eq!(result.skills[0].author, "a");
    assert_eq!(result.skills[0].description, "Skill published from a/b");
    assert_eq!(result.skills[0].id, "skillssh:a/b/c");
    assert!(skillssh::valid_source("owner/repo"));
    assert!(!skillssh::valid_source("owner/repo/extra"));
    assert!(!skillssh::valid_source("owner/.."));
    assert!(skillssh::validate_request("a", 20, 0).is_err());
    assert!(skillssh::validate_request("ab", 20, 0).is_ok());
    assert!(skillssh::validate_request("ab", 20, 20).is_err());
}

#[test]
fn parses_github_repo_url() {
    let parsed = parse_download_source("https://github.com/owner/repo").unwrap();
    assert_eq!(
        parsed,
        DownloadSource::GitHubRepo {
            owner: "owner".to_string(),
            repo: "repo".to_string(),
        }
    );
}

#[test]
fn oversized_download_is_rejected_instead_of_silently_truncated() {
    assert_eq!(read_limited(b"1234", 4).unwrap(), b"1234");
    assert!(read_limited(b"12345", 4).is_err());
}

#[test]
fn parses_github_tree_url() {
    let parsed =
        parse_download_source("https://github.com/anthropics/skills/tree/main/skills/docx")
            .unwrap();
    assert_eq!(
        parsed,
        DownloadSource::GitHubTree {
            owner: "anthropics".to_string(),
            repo: "skills".to_string(),
            git_ref: "main".to_string(),
            subpath: "skills/docx".to_string(),
        }
    );
}

#[test]
fn parses_zip_url() {
    let parsed =
        parse_download_source("https://example.com/files/skill-pack.zip?download=1").unwrap();
    assert_eq!(
        parsed,
        DownloadSource::ZipUrl {
            url: "https://example.com/files/skill-pack.zip?download=1".to_string(),
        }
    );
}

#[test]
fn rejects_unsupported_url() {
    let error = parse_download_source("https://example.com/skill-page").unwrap_err();
    assert!(error.contains("仅支持"));
}

#[test]
fn github_links_and_subpaths_edge_cases() {
    assert_eq!(
        parse_download_source("  https://github.com/owner/repo.git?tab=1  ").unwrap(),
        DownloadSource::GitHubRepo {
            owner: "owner".to_string(),
            repo: "repo".to_string(),
        }
    );
    assert_eq!(
        parse_download_source("https://github.com/owner").unwrap_err(),
        "GitHub 链接格式无效，至少需要 owner/repo"
    );
    assert_eq!(
        parse_download_source("https://github.com/owner/.git").unwrap_err(),
        "GitHub 链接格式无效，缺少 owner 或 repo"
    );
    assert_eq!(
        parse_download_source("https://github.com/o/r/tree/main").unwrap_err(),
        "GitHub 子目录链接格式无效，缺少分支或路径"
    );
    assert_eq!(
        parse_download_source("https://github.com/o/r/blob/main/SKILL.md").unwrap_err(),
        "暂不支持 GitHub 文件链接，请改用仓库、目录或 ZIP 链接"
    );
    assert_eq!(
        parse_download_source("https://github.com/o/r/tree/main/../x").unwrap_err(),
        "GitHub 子目录路径无效"
    );
    assert_eq!(
        parse_download_source("https://github.com/o/r/tree/main/./.").unwrap_err(),
        "GitHub 子目录路径不能为空"
    );
    assert_eq!(
        parse_download_source("https://github.com/o/r/issues").unwrap(),
        DownloadSource::GitHubRepo {
            owner: "o".to_string(),
            repo: "r".to_string(),
        }
    );
    assert_eq!(
        parse_download_source("   ").unwrap_err(),
        "缺少有效的源码地址 (Source URL)"
    );
    assert!(parse_download_source("http://example.com/A.ZIP").is_ok());
    assert_eq!(sanitize_relative_subpath("a/./b//c").unwrap(), "a/b/c");
    assert!(sanitize_relative_subpath("/abs").is_err());
}

#[test]
fn archive_requests_and_root_choice() {
    let tree = parse_download_source("https://github.com/o/r/tree/feature/x/skills").unwrap();
    assert_eq!(tree.preferred_subpath(), Some("x/skills".to_string()));
    let request = archive_request(&tree);
    assert_eq!(
        request.url,
        "https://api.github.com/repos/o/r/zipball/feature"
    );
    assert_eq!(request.headers.len(), 3);
    let repo = parse_download_source("https://github.com/o/r").unwrap();
    assert_eq!(repo.preferred_subpath(), None);
    assert_eq!(
        archive_request(&repo).url,
        "https://api.github.com/repos/o/r/zipball/HEAD"
    );
    let names = vec![Some("First".to_string()), None, Some("Other-Skill".to_string())];
    assert_eq!(choose_skill_root(&names, "other-skill"), Ok(2));
    assert_eq!(choose_skill_root(&names, "missing"), Ok(0));
    assert!(choose_skill_root(&Vec::new(), "x").is_err());
}

#[test]
fn archive_ref_is_percent_encoded() {
    let source = DownloadSource::GitHubTree {
        owner: "o".to_string(),
        repo: "r".to_string(),
        git_ref: "release/1.0 beta".to_string(),
        subpath: "s".to_string(),
    };
    assert_eq!(
        archive_request(&source).url,
        "https://api.github.com/repos/o/r/zipball/release%2F1.0%20beta"
    );
}

#[test]
fn remote_http_endpoint_is_rejected() {
    assert!(validate_endpoint("http://api.example.com", false).is_err());
}

#[test]
fn localhost_http_endpoint_is_allowed_for_libretranslate() {
    assert!(validate_endpoint("http://127.0.0.1:5000", true).is_ok());
    assert!(validate_endpoint("http://localhost:5000", true).is_ok());
}

#[test]
fn default_settings_are_valid() {
    let settings = BasicTranslationConfig::default();
    assert_eq!(settings.provider, "azure");
    assert!(check_settings_request(
        0,
        0,
        &settings,
        &"gemini".to_string(),
        &"https://generativelanguage.googleapis.com".to_string(),
        &"gemini-2.5-flash".to_string(),
        true,
        &None,
        &None,
    )
    .is_ok());
}

#[test]
fn stale_revision_is_rejected() {
    let settings = BasicTranslationConfig::default();
    assert!(check_settings_request(
        0,
        2,
        &settings,
        &"gemini".to_string(),
        &"https://generativelanguage.googleapis.com".to_string(),
        &"gemini-2.5-flash".to_string(),
        true,
        &Some("basic-secret".to_string()),
        &Some("advanced-secret".to_string()),
    )
    .is_err());
}

#[test]
fn advanced_temperature_must_be_bounded() {
    let settings = BasicTranslationConfig::default();
    let temperature = 1.5f64;
    assert_eq!(
        check_settings_request(
            0,
            0,
            &settings,
            &"gemini".to_string(),
            &"https://generativelanguage.googleapis.com".to_string(),
            &"gemini-2.5-flash".to_string(),
            (0.0..=1.0).contains(&temperature),
            &Some("basic-secret".to_string()),
            &Some("advanced-secret".to_string()),
        )
        .unwrap_err(),
        "Temperature must be between 0 and 1"
    );
}

#[test]
fn settings_texts_keys_and_providers() {
    assert_eq!(check_text(" ", "model", 10, true).unwrap_err(), "model is required");
    assert_eq!(check_text("a\nb", "region", 10, false).unwrap_err(), "Invalid region");
    assert_eq!(check_text("abcd", "region", 3, false).unwrap_err(), "Invalid region");
    assert!(check_text("", "region", 3, false).is_ok());
    assert!(validate_endpoint("", false).is_ok());
    assert!(validate_endpoint("https://example.com///", false).is_ok());
    assert!(validate_endpoint("http://localhost:5000", false).is_err());
    let mut settings = BasicTranslationConfig::default();
    settings.provider = "unknown".to_string();
    assert_eq!(
        check_settings_request(
            0,
            0,
            &settings,
            &"gemini".to_string(),
            &String::new(),
            &"m".to_string(),
            true,
            &None,
            &None
        )
        .unwrap_err(),
        "Unsupported basic translation provider"
    );
    let settings = BasicTranslationConfig::default();
    assert_eq!(
        check_settings_request(
            0,
            0,
            &settings,
            &"gemini".to_string(),
            &String::new(),
            &"m".to_string(),
            true,
            &Some("a\0b".to_string()),
            &None
        )
        .unwrap_err(),
        "Invalid API key"
    );
    assert_eq!(session_key(Some("  ".to_string())), None);
    assert_eq!(session_key(Some("k".to_string())), Some("k".to_string()));
    assert_eq!(key_kind("basic"), Ok(KeyKind::Basic));
    assert_eq!(key_kind("advanced"), Ok(KeyKind::Advanced));
    assert!(key_kind("other").is_err());
}
