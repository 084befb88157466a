use skills_manager::create_skill::{
    check_create_request, new_skill_document, render_skill_document, CreateSkillRequest,
};
use skills_manager::discovery::{describe_discovered_skill, detect_skill_provider};
use skills_manager::document::{
    is_standard_skill_name, parse_skill_document, skill_body_has_content,
    skill_content_without_uuid,
};
use skills_manager::editing::{check_edit_size, check_skill_edit, SkillEdit};
use skills_manager::github_sync::{
    apply_binding, blob_sha, check_remote, excluded, finished_status, normalize_repository,
    sync_start, unbound_config, validate_binding, worker_reports_error, BindRequest, SyncConfig,
    SyncStart,
};
use skills_manager::identity::{
    ensure_uuid_in_content, is_canonical_uuid, is_valid_skill_uuid, normalize_skill_uuid,
    replace_or_insert_uuid, skill_name_from_content, skill_uuid_from_content,
    write_uuid_into_content,
};

const UUID: &str = "550e8400-e29b-41d4-a716-446655440000";

#[test]
fn validates_agent_skills_frontmatter() {
    let multiline = parse_skill_document(
        "---\nname: sample\ndescription: |-\n  First line\n  ---\n  Last line\n---\n# Body",
    );
    assert_eq!(
        multiline.description.as_deref(),
        Some("First line --- Last line")
    );
    let metadata = parse_skill_document(
        "---\nname: sample-skill\nuuid: 550e8400-e29b-41d4-a716-446655440000\ndescription: A useful sample skill.\n---\n# Sample\n",
    );
    assert!(metadata.has_frontmatter);
    assert_eq!(metadata.name.as_deref(), Some("sample-skill"));
    assert_eq!(
        metadata.description.as_deref(),
        Some("A useful sample skill.")
    );
    assert_eq!(
        metadata.uuid.as_deref(),
        Some("550e8400-e29b-41d4-a716-446655440000")
    );
    assert!(is_standard_skill_name("sample-skill"));
    assert!(!is_standard_skill_name("Sample Skill"));
}

#[test]
fn documents_without_closing_frontmatter_have_no_fields() {
    let metadata = parse_skill_document("---\nname: open\n");
    assert!(!metadata.has_frontmatter);
    assert_eq!(metadata.name, None);
    let quoted = parse_skill_document("\u{feff}---\nname: 'quoted'\nUUID: x\n---\n");
    assert_eq!(quoted.name.as_deref(), Some("quoted"));
    assert_eq!(quoted.uuid, None);
    assert!(!skill_body_has_content("---\nname: a\n---\n   \n"));
    assert!(skill_body_has_content("---\nname: a\n---\nbody"));
    assert!(!is_standard_skill_name("bad--name"));
    assert!(!is_standard_skill_name("-bad"));
    assert!(!is_standard_skill_name(&"a".repeat(65)));
}

#[test]
fn identity_is_read_and_written() {
    let document = format!("---\nname: sample\nuuid: \"{}\"\n---\nbody\n", UUID.to_uppercase());
    assert_eq!(skill_uuid_from_content(&document).as_deref(), Some(UUID));
    assert_eq!(skill_name_from_content(&document).as_deref(), Some("sample"));
    assert_eq!(normalize_skill_uuid(" {550E8400-E29B-41D4-A716-446655440000} ").as_deref(), Some(UUID));
    assert!(is_valid_skill_uuid(UUID));
    assert!(!is_valid_skill_uuid("../bad"));
    assert!(is_canonical_uuid(UUID));
    assert!(!is_canonical_uuid(&UUID.to_uppercase()));
    let inserted = replace_or_insert_uuid("# Compatible skill\n", UUID);
    assert!(inserted.starts_with("---\nuuid: "));
    assert!(inserted.contains("# Compatible skill"));
    assert_eq!(skill_uuid_from_content(&inserted).as_deref(), Some(UUID));
}

#[test]
fn preserves_an_existing_valid_uuid() {
    let content = format!("---\nname: sample\nuuid: {UUID}\n---\n");
    let (uuid, rewrite) = ensure_uuid_in_content(&content, None, "c56a4180-65aa-42ec-a945-5fd21dec0538").unwrap();
    assert_eq!(uuid, UUID);
    assert_eq!(rewrite, None);
}

#[test]
fn adds_frontmatter_when_it_is_missing() {
    let fresh = "c56a4180-65aa-42ec-a945-5fd21dec0538";
    let (generated, rewrite) = ensure_uuid_in_content("# Compatible skill\n", None, fresh).unwrap();
    assert!(is_valid_skill_uuid(&generated));
    let updated = rewrite.unwrap();
    assert!(updated.starts_with("---\nuuid: "));
    assert!(updated.contains("# Compatible skill"));
}

#[test]
fn explicit_write_replaces_a_remote_uuid_during_update() {
    let old_uuid = "550e8400-e29b-41d4-a716-446655440000";
    let remote_uuid = "c56a4180-65aa-42ec-a945-5fd21dec0538";
    let content = format!("---\nname: sample\nuuid: {remote_uuid}\n---\n");
    let (uuid, updated) = write_uuid_into_content(&content, old_uuid).unwrap();
    assert_eq!(uuid, old_uuid);
    assert_eq!(skill_uuid_from_content(&updated).as_deref(), Some(old_uuid));
    assert!(write_uuid_into_content(&content, "not-a-uuid").is_err());
}

#[test]
fn content_comparison_ignores_identity() {
    let a = format!("---\nname: x\nuuid: {UUID}\n---\nbody");
    let b = "---\nname: x\n---\nbody";
    assert_eq!(skill_content_without_uuid(&a), skill_content_without_uuid(b));
    assert_eq!(skill_content_without_uuid(b), "---\nname: x\n---\nbody");
}

#[test]
fn discovered_skills_are_described() {
    assert_eq!(detect_skill_provider("/home/a/.codex/skills/x"), "Codex");
    assert_eq!(detect_skill_provider("C:\\Users\\A\\.Cursor\\skills\\x"), "Cursor");
    assert_eq!(detect_skill_provider("/tools/custom-skill"), "Generic SKILL.md");
    assert_eq!(detect_skill_provider("/home/a/.config/opencode/skills/x"), "OpenCode");
    assert_eq!(detect_skill_provider("/home/a/.opencode/skills/x"), "OpenCode");
    let standard = describe_discovered_skill(
        "standard-skill",
        "/p/.codex/skills/standard-skill",
        "/p/.codex/skills/standard-skill/SKILL.md",
        "---\nname: standard-skill\ndescription: Standard metadata.\n---\n",
    );
    assert!(standard.is_standard);
    assert_eq!(standard.provider, "Codex");
    assert_eq!(standard.id, "/p/.codex/skills/standard-skill");
    let custom = describe_discovered_skill(
        "custom-skill",
        "/p/tools/custom-skill",
        "/p/tools/custom-skill/SKILL.md",
        "# Custom CLI skill\n",
    );
    assert!(!custom.is_standard);
    assert_eq!(custom.name, "custom-skill");
    assert_eq!(
        custom.issues,
        vec!["missing_frontmatter", "missing_name", "missing_description"]
    );
    let mismatched = describe_discovered_skill(
        "dir",
        "/p/dir",
        "/p/dir/SKILL.md",
        &format!("---\nname: Bad Name\nuuid: {UUID}\ndescription: {}\n---\n", "d".repeat(1025)),
    );
    assert_eq!(mismatched.id, UUID);
    assert_eq!(
        mismatched.issues,
        vec!["invalid_name", "directory_name_mismatch", "description_too_long"]
    );
}

fn managed_document(name: &str, description: &str, body: &str) -> String {
    format!("---\nname: {name}\nuuid: {UUID}\ndescription: {description}\n---\n{body}")
}

#[test]
fn edit_rules_follow_the_checks_in_order() {
    let original = managed_document("sample-skill", "Original description.", "\n# Original body\n");
    assert_eq!(check_skill_edit(&original, &original, &original), Ok(SkillEdit::Unchanged));
    let edited = managed_document("sample-skill", "New description.", "\n# New body\n");
    assert_eq!(check_skill_edit(&original, &original, &edited), Ok(SkillEdit::Replace));
    assert!(check_skill_edit(&original, "Externally changed", &edited)
        .unwrap_err()
        .contains("外部修改"));
    let renamed = managed_document("renamed-skill", "New description.", "\n# New body\n");
    assert!(check_skill_edit(&original, &original, &renamed)
        .unwrap_err()
        .contains("重命名"));
    let no_uuid = edited.replace(&format!("uuid: {UUID}\n"), "");
    assert!(check_skill_edit(&original, &original, &no_uuid)
        .unwrap_err()
        .contains("UUID"));
    let blank_description = edited.replace("description: New description.", "description:");
    assert!(check_skill_edit(&original, &original, &blank_description).is_err());
    let blank_body = managed_document("sample-skill", "New description.", "\n   \n");
    assert_eq!(
        check_skill_edit(&original, &original, &blank_body).unwrap_err(),
        "正文不能为空 / Skill body cannot be empty"
    );
    assert!(check_edit_size(&"x".repeat(1_048_576)).is_ok());
    assert!(check_edit_size(&"x".repeat(1_048_577)).is_err());
}

#[test]
fn validates_github_repository_and_branch() {
    assert!(validate_binding("alice/skills", "main").is_ok());
    assert!(validate_binding("alice/skills", "backup/skills").is_ok());
    for repo in [
        "https://evil.test/a/b",
        "a/b/c",
        "a/..",
        "a/b?token=x",
        "a/",
    ] {
        assert!(validate_binding(repo, "main").is_err());
    }
    for branch in ["", "../main", "main?x=y", "-main", "main.lock", "a//b"] {
        assert!(validate_binding("alice/skills", branch).is_err());
    }
}

#[test]
fn excludes_secrets_and_tool_state() {
    for path in [
        ".git/config",
        "one/.env",
        "one/.env.local",
        "one/token.pem",
        "one/node_modules/a.js",
        "one/id_rsa",
    ] {
        assert!(excluded(path), "{path}");
    }
    assert!(!excluded("one/SKILL.md"));
    assert!(!excluded("one/assets/icon.png"));
}

#[test]
fn excluded_names_ignore_case() {
    assert!(excluded("Skills/demo/.ENV"));
    assert!(excluded("Skills/NODE_MODULES/x"));
    assert!(excluded("keys/Server.KEY"));
    assert!(!excluded("Skills/envoy/readme.md"));
}

#[test]
fn does_not_overwrite_unrecognized_remote_snapshot() {
    assert!(check_remote(None, "", "new").is_ok());
    assert!(check_remote(Some("old"), "old", "new").is_ok());
    assert!(check_remote(Some("same"), "", "same").is_ok());
    assert!(check_remote(Some("other"), "old", "new").is_err());
    assert!(check_remote(None, "old", "new").is_err());
}

#[test]
fn hashes_binary_files_as_git_blobs() {
    assert_eq!(
        blob_sha(b"hello\n"),
        "ce013625030ba8dba906f756967f9e9ca394464a"
    );
}

#[test]
fn hashes_the_empty_file() {
    assert_eq!(blob_sha(b""), "e69de29bb2d1d6434b8b29ae775ad8c2e48c5391");
}

#[test]
fn binding_is_normalized_and_keeps_history_of_the_same_repository() {
    assert_eq!(
        normalize_repository("  https://github.com/alice/skills.git/  "),
        "alice/skills"
    );
    let current = SyncConfig {
        repository: "alice/skills".to_string(),
        branch: "main".to_string(),
        automatic: false,
        last_tree: "tree".to_string(),
        last_success: Some(7),
    };
    let same = apply_binding(
        &current,
        &BindRequest {
            repository: "https://github.com/alice/skills".to_string(),
            branch: " main ".to_string(),
            automatic: true,
        },
    )
    .unwrap();
    assert_eq!(same.last_tree, "tree");
    assert_eq!(same.last_success, Some(7));
    assert!(same.automatic);
    let other = apply_binding(
        &current,
        &BindRequest {
            repository: "bob/skills".to_string(),
            branch: "main".to_string(),
            automatic: false,
        },
    )
    .unwrap();
    assert_eq!(other.last_tree, "");
    assert_eq!(other.last_success, None);
    let unbound = apply_binding(
        &current,
        &BindRequest {
            repository: "   ".to_string(),
            branch: "main".to_string(),
            automatic: true,
        },
    )
    .unwrap();
    assert_eq!(unbound.repository, "");
    assert!(!unbound.automatic);
    assert!(apply_binding(
        &current,
        &BindRequest {
            repository: "a/b/c".to_string(),
            branch: "main".to_string(),
            automatic: true,
        },
    )
    .is_err());
}

#[test]
fn sync_run_decisions() {
    let mut config = unbound_config();
    assert_eq!(sync_start(true, &config), Ok(SyncStart::ReportOnly));
    assert_eq!(
        sync_start(false, &config).unwrap_err(),
        "Bind a GitHub repository first"
    );
    config.repository = "alice/skills".to_string();
    config.automatic = true;
    assert_eq!(sync_start(true, &config), Ok(SyncStart::Upload));
    let done = finished_status(Ok(3));
    assert_eq!(done.files, 3);
    assert_eq!(done.message, "Backup is up to date");
    let failed = finished_status(Err("boom".to_string()));
    assert_eq!(failed.error.as_deref(), Some("boom"));
    assert!(worker_reports_error(&None));
    assert!(!worker_reports_error(&Some(skills_manager::github_sync::uploading_status())));
}

fn create_request(name: &str) -> CreateSkillRequest {
    CreateSkillRequest {
        name: name.into(),
        description: "Description: \"quoted\"\n---\nname: other".into(),
        body: "# Instructions\nDo useful work.".into(),
    }
}

#[test]
fn creates_identity_and_preserves_existing_files() {
    for invalid in ["../outside", "UPPER", "con", "bad--name", ""] {
        assert!(check_create_request(&create_request(invalid)).is_err());
    }
    let (document, uuid) = new_skill_document(&create_request("sample-skill")).unwrap();
    assert_eq!(skill_uuid_from_content(&document).as_deref(), Some(uuid.as_str()));
    assert!(document.contains("\n  ---\n  name: other\n---\n"));
}

#[test]
fn created_document_layout() {
    let document = render_skill_document(
        &CreateSkillRequest {
            name: " demo ".into(),
            description: " One\nTwo ".into(),
            body: "\nBody\n".into(),
        },
        UUID,
    );
    assert_eq!(
        document,
        format!("---\nname: demo\nuuid: {UUID}\ndescription: |-\n  One\n  Two\n---\n\nBody\n")
    );
    assert_eq!(skill_name_from_content(&document).as_deref(), Some("demo"));
    assert_eq!(
        check_create_request(&CreateSkillRequest {
            name: "ok".into(),
            description: "d".repeat(1025),
            body: "b".into(),
        })
        .unwrap_err(),
        "描述需为 1–1024 个字符 / Invalid description"
    );
    assert_eq!(
        check_create_request(&CreateSkillRequest {
            name: "com1".into(),
            description: "d".into(),
            body: "b".into(),
        })
        .unwrap_err(),
        "此名称是 Windows 保留名称 / Reserved Windows name"
    );
}

#[test]
fn written_uuids_are_ignored_when_comparing_copies() {
    let plain = "---\r\nname: x\r\ndescription: d\r\n---\r\nbody\r\n";
    let written = skills_manager::identity::replace_or_insert_uuid(plain, UUID);
    assert!(written.contains(UUID));
    assert_eq!(skill_content_without_uuid(&written), skill_content_without_uuid(plain));
    let replaced = skills_manager::identity::replace_or_insert_uuid(
        "---\nuuid: c56a4180-65aa-42ec-a945-5fd21dec0538\nname: x\n---\nbody",
        UUID,
    );
    assert_eq!(
        skill_content_without_uuid(&replaced),
        skill_content_without_uuid("---\nname: x\n---\nbody")
    );
}
