use skills_manager::backup::{
    add_to_backup, backup_folder, check_files_found, check_listing_complete, check_skills_directory,
    check_unchanged_meanwhile, check_uploaded_id, check_walk_entry, contents_to_upload, needs_commit,
    record_backup, remote_files, sort_by_name, unchanged, upload_name, RemoteEntry, WalkEntry,
};
use skills_manager::github_sync::SyncConfig;
use skills_manager::importing::{
    import_step, ImportAction, ImportEvent, ImportSource, candidate_target_name, check_batch, identical_managed, import_done, import_failed, import_reply,
    imported_before, inspection_verdict, install_failed, normalize_record_names, numbered_name,
    preferred_uuid, record_import, record_matches_source, same_uuid_managed, summarize_imports,
    unquote_yaml_scalar, InstallFailure, ManagedSkillRecord, SourceInspection,
};
use skills_manager::linking::{
    add_used_by, adopt_already_managed, adopt_copy_restored, adopt_relinked, classify_ide_entry,
    default_ide_dirs, existing_entry_note, link_failure_message, linked_note, project_ide_patterns,
    project_uninstall_dirs, removal_message, should_copy_for_target, target_outside_message,
    target_unsafe_message, ExistingEntry, IdeEntry, LinkKind,
};
use skills_manager::recovery::{
    check_restore_identity, check_restore_target, check_delete_confirmation, check_recycle_request, check_snapshot_id, check_snapshot_restore,
    check_snapshot_tree, check_trash_id, check_trash_record, distinct_targets, move_failed_message,
    newest_first, record_failed_message, recycled_message, snapshots_of, Snapshot, TrashItem,
    TreeEntry,
};
use skills_manager::text::{ascii_lowercase_text, decimal_text};
use skills_manager::discovery::skill_metadata;
use skills_manager::types::{LocalSkill, SkillImportItemResult};
use skills_manager::updates::{
    check_install_dir, check_target_free, check_update_request, update_identity,
};

const UUID_A: &str = "550e8400-e29b-41d4-a716-446655440000";
const UUID_B: &str = "c56a4180-65aa-42ec-a945-5fd21dec0538";

fn inspection(canonical: Option<&str>) -> SourceInspection {
    SourceInspection {
        canonical: canonical.map(str::to_string),
        is_directory: true,
        has_skill_file: true,
        inside_manager: false,
        listing_error: None,
        name: "Demo".to_string(),
    }
}

fn record(uuid: &str, name: &str, target: &str) -> ManagedSkillRecord {
    ManagedSkillRecord {
        uuid: uuid.to_string(),
        name: name.to_string(),
        source_path: "/src".to_string(),
        target_path: target.to_string(),
        imported_at_unix: 1,
    }
}

fn item(status: &str) -> SkillImportItemResult {
    SkillImportItemResult {
        source_path: "/s".into(),
        name: "n".into(),
        target_path: None,
        status: status.into(),
        message: format!("{status} message"),
    }
}

#[test]
fn inspection_stops_imports_in_order() {
    let missing = inspection_verdict("/raw", "raw", inspection(None)).unwrap();
    assert_eq!(missing.status, "failed");
    assert_eq!(missing.source_path, "/raw");
    assert_eq!(missing.name, "raw");
    assert_eq!(missing.message, "Source path does not exist");
    assert!(missing.target_path.is_none());

    let mut facts = inspection(Some("/real"));
    facts.is_directory = false;
    facts.has_skill_file = false;
    let not_dir = inspection_verdict("/raw", "raw", facts).unwrap();
    assert_eq!(not_dir.message, "Source path must be a directory");

    let mut facts = inspection(Some("/real"));
    facts.has_skill_file = false;
    assert_eq!(
        inspection_verdict("/raw", "raw", facts).unwrap().message,
        "The selected directory does not contain SKILL.md"
    );

    let mut facts = inspection(Some("/real"));
    facts.inside_manager = true;
    facts.listing_error = Some("unreadable".into());
    let managed = inspection_verdict("/raw", "raw", facts).unwrap();
    assert_eq!(managed.status, "skipped");
    assert_eq!(managed.source_path, "/real");
    assert_eq!(managed.name, "Demo");
    assert_eq!(managed.target_path.as_deref(), Some("/real"));
    assert_eq!(managed.message, "Skill is already managed");

    let mut facts = inspection(Some("/real"));
    facts.listing_error = Some("unreadable".into());
    let unreadable = inspection_verdict("/raw", "raw", facts).unwrap();
    assert_eq!(unreadable.status, "failed");
    assert_eq!(unreadable.message, "unreadable");

    assert!(inspection_verdict("/raw", "raw", inspection(Some("/real"))).is_none());
}

#[test]
fn earlier_imports_of_a_source_are_recognized() {
    assert_eq!(preferred_uuid(&Some(UUID_A.into()), UUID_B).as_deref(), Some(UUID_A));
    assert_eq!(preferred_uuid(&None, UUID_B).as_deref(), Some(UUID_B));
    assert_eq!(preferred_uuid(&None, "   "), None);

    assert!(record_matches_source(&Some(UUID_A.into()), UUID_A, false));
    assert!(!record_matches_source(&Some(UUID_A.into()), UUID_B, true));
    assert!(record_matches_source(&None, UUID_B, true));
    assert!(!record_matches_source(&None, UUID_B, false));

    let before = imported_before("/s", "n", "/t");
    assert_eq!(before.status, "skipped");
    assert_eq!(before.message, "Skill from this source is already managed");
    assert_eq!(
        same_uuid_managed("/s", "n", "/e").message,
        "A skill with the same UUID is already managed"
    );
    let identical = identical_managed("/s", "n", "/t");
    assert_eq!(identical.message, "An identical skill is already managed");
    assert_eq!(identical.target_path.as_deref(), Some("/t"));
}

#[test]
fn import_targets_are_numbered_from_two() {
    assert_eq!(decimal_text(0), "0");
    assert_eq!(decimal_text(1234567890123), "1234567890123");
    assert_eq!(numbered_name("demo", 12), "demo-12");
    assert_eq!(candidate_target_name("demo", 0), "demo");
    assert_eq!(candidate_target_name("demo", 1), "demo");
    assert_eq!(candidate_target_name("demo", 2), "demo-2");
    assert_eq!(candidate_target_name("demo", 10), "demo-10");
}

#[test]
fn install_failures_and_completions_are_reported() {
    let copy = install_failed("/s", "n", InstallFailure::Copy("disk full".into()));
    assert_eq!(copy.status, "failed");
    assert_eq!(copy.message, "disk full");
    assert_eq!(
        install_failed("/s", "n", InstallFailure::MissingSkillFile).message,
        "Copied skill is missing SKILL.md"
    );
    assert_eq!(
        install_failed("/s", "n", InstallFailure::Uuid("locked".into())).message,
        "Failed to assign skill UUID: locked"
    );
    assert_eq!(
        install_failed("/s", "n", InstallFailure::Finalize("busy".into())).message,
        "Failed to finalize import: busy"
    );
    let done = import_done("/s", "n", "/t", None);
    assert_eq!(done.status, "imported");
    assert_eq!(done.message, "Imported into Skill Manager");
    assert_eq!(done.target_path.as_deref(), Some("/t"));
    assert_eq!(
        import_done("/s", "n", "/t", Some("denied".into())).message,
        "Imported, but metadata could not be saved: denied"
    );
    let failed = import_failed("/s", "n", "boom");
    assert_eq!(import_reply(failed), Err("boom".to_string()));
    assert_eq!(import_reply(item("skipped")), Ok("skipped message".to_string()));
    assert_eq!(import_reply(item("imported")), Ok("imported message".to_string()));
}

#[test]
fn batch_imports_count_each_item_once() {
    assert_eq!(
        check_batch(&vec![]),
        Err("No skills were selected for import".to_string())
    );
    assert!(check_batch(&vec!["/a".to_string()]).is_ok());
    let batch = summarize_imports(vec![
        item("imported"),
        item("skipped"),
        item("failed"),
        item("imported"),
        item("failed"),
    ]);
    assert_eq!(batch.items.len(), 5);
    assert_eq!(batch.imported, 2);
    assert_eq!(batch.skipped, 1);
    assert_eq!(batch.failed, 2);
    assert_eq!(batch.imported + batch.skipped + batch.failed, batch.items.len());
}

#[test]
fn the_import_index_keeps_one_entry_per_uuid_and_target() {
    let records = vec![
        record(UUID_A, "a", "/t/a"),
        record("other", "b", "/t/b"),
        record("third", "c", "/t/new"),
    ];
    let updated = record_import(records, record(UUID_A, "a2", "/t/new"));
    let names: Vec<&str> = updated.iter().map(|r| r.name.as_str()).collect();
    assert_eq!(names, vec!["b", "a2"]);
    let fresh = record_import(vec![], record(UUID_B, "x", "/t/x"));
    assert_eq!(fresh.len(), 1);
    assert_eq!(fresh[0].uuid, UUID_B);
}

#[test]
fn normalizes_existing_quoted_names_in_import_metadata() {
    let records = vec![ManagedSkillRecord {
        uuid: String::new(),
        name: "\"sample-skill\"".to_string(),
        source_path: "/root/source".to_string(),
        target_path: "/home/Skill Manager/Skills/sample-skill".to_string(),
        imported_at_unix: 1,
    }];
    let (normalized, changed) = normalize_record_names(records);
    assert!(changed);
    assert_eq!(normalized[0].name, "sample-skill");
    assert_eq!(normalized[0].target_path, "/home/Skill Manager/Skills/sample-skill");
    assert_eq!(normalized[0].imported_at_unix, 1);
    let (again, changed_again) = normalize_record_names(normalized);
    assert!(!changed_again);
    assert_eq!(again[0].name, "sample-skill");
    assert_eq!(unquote_yaml_scalar("  ' quoted '  "), "quoted");
    assert_eq!(unquote_yaml_scalar("\"mixed'"), "\"mixed'");
}

#[test]
fn link_notes_and_errors() {
    assert_eq!(
        existing_entry_note("Cursor", ExistingEntry::LinkedHere),
        "Cursor: already linked"
    );
    assert_eq!(
        existing_entry_note("Cursor", ExistingEntry::SyncedHere),
        "Cursor: already synced"
    );
    assert_eq!(
        existing_entry_note("Cursor", ExistingEntry::Occupied),
        "Cursor: target already exists"
    );
    assert_eq!(linked_note("Codex", LinkKind::Symlink, "/x/s"), "Codex: /x/s");
    assert_eq!(linked_note("Qoder", LinkKind::SyncedCopy, "/q/s"), "Qoder: synced /q/s");
    assert_eq!(linked_note("Kiro", LinkKind::Junction, "/k/s"), "Kiro: junction /k/s");
    assert_eq!(
        link_failure_message("demo", "Trae", &vec![]),
        "Failed to create a link for demo in Trae: unknown error"
    );
    assert_eq!(
        link_failure_message(
            "demo",
            "Trae",
            &vec!["symlink: denied".to_string(), "junction: failed".to_string()]
        ),
        "Failed to create a link for demo in Trae: symlink: denied; junction: failed"
    );
    assert_eq!(
        target_outside_message("Kiro"),
        "Target directory is outside the allowed directories: Kiro"
    );
    assert_eq!(
        target_unsafe_message("Kiro"),
        "Target directory failed the path safety check: Kiro"
    );
    assert!(should_copy_for_target("C:\\Users\\me\\.Qoder\\Skills"));
    assert!(should_copy_for_target("/home/me/.qoder/skills"));
    assert!(!should_copy_for_target("/home/me/.qoder/skills/x"));
    assert!(!should_copy_for_target("/home/me/.cursor/skills"));
}

#[test]
fn adoption_and_uninstall_messages() {
    assert_eq!(adopt_already_managed("demo"), "demo is already managed");
    assert_eq!(adopt_relinked("demo", "Cursor"), "Managed demo and re-linked it to Cursor");
    assert_eq!(
        adopt_copy_restored("demo", "Cursor", &vec!["symlink: denied".to_string()]),
        "Managed demo in Skills Manager, but failed to create a link for Cursor. Restored a local copy instead. symlink: denied"
    );
    assert_eq!(removal_message(true), "Link removed");
    assert_eq!(removal_message(false), "Directory removed");
}

fn local_skill(path: &str) -> LocalSkill {
    LocalSkill {
        id: "id".into(),
        uuid: "id".into(),
        name: "demo".into(),
        description: String::new(),
        path: path.into(),
        source: "manager".into(),
        source_url: None,
        ide: None,
        used_by: Vec::new(),
    }
}

fn ide_entry(is_directory: bool, is_link: bool, link: Option<&str>) -> IdeEntry {
    IdeEntry {
        path: "/home/.cursor/skills/demo".into(),
        is_directory,
        is_link,
        link_resolved: link.map(str::to_string),
        copy_target: None,
        has_skill_file: true,
        name: "demo".into(),
    }
}

#[test]
fn ide_entries_point_back_at_managed_skills() {
    let manager_paths = vec![("/m/demo".to_string(), 1usize), ("/m/demo".to_string(), 0usize)];
    let mut skills = vec![local_skill("/m/other"), local_skill("/m/demo")];

    let linked = classify_ide_entry(
        ide_entry(false, true, Some("/m/demo")),
        "Cursor",
        &manager_paths,
        &mut skills,
    )
    .unwrap();
    assert!(linked.managed);
    assert_eq!(linked.source, "link");
    assert_eq!(linked.ide, "Cursor");
    assert_eq!(linked.id, "/home/.cursor/skills/demo");
    assert_eq!(skills[1].used_by, vec!["Cursor".to_string()]);
    assert!(skills[0].used_by.is_empty());

    classify_ide_entry(
        ide_entry(false, true, Some("/m/demo")),
        "Cursor",
        &manager_paths,
        &mut skills,
    );
    assert_eq!(skills[1].used_by, vec!["Cursor".to_string()]);

    let local = classify_ide_entry(ide_entry(true, false, None), "Kiro", &manager_paths, &mut skills)
        .unwrap();
    assert!(!local.managed);
    assert_eq!(local.source, "local");

    let dangling =
        classify_ide_entry(ide_entry(false, true, None), "Kiro", &manager_paths, &mut skills)
            .unwrap();
    assert!(!dangling.managed);
    assert_eq!(dangling.source, "link");

    let mut copy = ide_entry(true, false, None);
    copy.has_skill_file = false;
    copy.copy_target = Some("/m/demo".into());
    let synced = classify_ide_entry(copy, "Qoder", &manager_paths, &mut skills).unwrap();
    assert!(synced.managed);
    assert_eq!(synced.source, "link");
    assert_eq!(skills[1].used_by, vec!["Cursor".to_string(), "Qoder".to_string()]);

    let mut plain_file = ide_entry(false, false, None);
    plain_file.has_skill_file = true;
    assert!(classify_ide_entry(plain_file, "Kiro", &manager_paths, &mut skills).is_none());
    let mut empty_dir = ide_entry(true, false, None);
    empty_dir.has_skill_file = false;
    assert!(classify_ide_entry(empty_dir, "Kiro", &manager_paths, &mut skills).is_none());

    let mut one = local_skill("/m/x");
    add_used_by(&mut one, "Codex");
    add_used_by(&mut one, "Codex");
    assert_eq!(one.used_by, vec!["Codex".to_string()]);
}

#[test]
fn ide_directories_looked_at() {
    let defaults = default_ide_dirs();
    assert_eq!(defaults.len(), 9);
    assert_eq!(defaults[0].label, "Antigravity");
    assert_eq!(defaults[0].relative_dir, ".gemini/antigravity/skills");
    assert_eq!(defaults[7].label, "VSCode");
    assert_eq!(defaults[7].relative_dir, ".github/skills");
    let patterns = project_ide_patterns();
    assert_eq!(patterns.len(), 11);
    assert_eq!(patterns[5].label, "OpenClaw");
    assert_eq!(patterns[6].relative_dir, ".opencode/skills");
    assert_eq!(
        project_uninstall_dirs(),
        vec![
            ".codex/skills".to_string(),
            ".trae/skills".to_string(),
            ".opencode/skills".to_string(),
            ".skills-manager/skills".to_string()
        ]
    );
}

#[test]
fn newest_entries_come_first_and_ties_keep_their_order() {
    let sorted = newest_first(vec![(1u64, "a"), (3, "b"), (1, "c"), (2, "d")]);
    let names: Vec<&str> = sorted.iter().map(|p| p.1).collect();
    assert_eq!(names, vec!["b", "d", "a", "c"]);
    assert!(newest_first::<u8>(vec![]).is_empty());
}

#[test]
fn recycle_bin_requests_are_checked() {
    assert!(check_trash_id(UUID_A).is_ok());
    assert_eq!(check_trash_id("../bad"), Err("Invalid recycle bin ID".to_string()));
    assert_eq!(
        check_trash_id("550E8400-E29B-41D4-A716-446655440000"),
        Err("Invalid recycle bin ID".to_string())
    );
    assert_eq!(check_snapshot_id("../invalid"), Err("Invalid snapshot ID".to_string()));
    assert!(check_snapshot_id(UUID_B).is_ok());
    assert!(check_delete_confirmation("DELETE").is_ok());
    assert_eq!(
        check_delete_confirmation("delete"),
        Err("Type DELETE to confirm permanent deletion".to_string())
    );
    assert_eq!(check_recycle_request(&vec![]), Err("No Skills selected".to_string()));
    assert_eq!(
        distinct_targets(vec!["/a".into(), "/b".into(), "/a".into(), "/c".into(), "/b".into()]),
        vec!["/a".to_string(), "/b".to_string(), "/c".to_string()]
    );
    assert_eq!(recycled_message(3), "已移入回收站 3 项 / Recycled 3 Skills");
    assert_eq!(
        record_failed_message(1, "full"),
        "Recycled 1; cannot save recovery record: full"
    );
    assert_eq!(
        move_failed_message(0, "cross-device"),
        "已移入回收站 0 项；其余未完成 / Recycled 0; move failed: cross-device"
    );
    let item = TrashItem {
        id: UUID_A.into(),
        name: "demo".into(),
        uuid: None,
        original_path: "/x".into(),
        deleted_at: 5,
    };
    assert!(check_trash_record(&item, UUID_A).is_ok());
    assert_eq!(
        check_trash_record(&item, UUID_B),
        Err("Recycle bin metadata mismatch".to_string())
    );
}

fn snapshot(id: &str, skill: &str, at: u64) -> Snapshot {
    Snapshot {
        id: id.into(),
        skill_uuid: skill.into(),
        created_at: at,
        reason: "before-update".into(),
    }
}

#[test]
fn history_restores_only_the_same_skill() {
    let record = snapshot(UUID_B, UUID_A, 7);
    let same = Some(UUID_A.to_string());
    assert!(check_snapshot_restore(&record, UUID_B, &same, &same).is_ok());
    let mismatch = Err("Snapshot UUID mismatch; restore refused".to_string());
    assert_eq!(check_snapshot_restore(&record, UUID_A, &same, &same), mismatch);
    assert_eq!(check_snapshot_restore(&record, UUID_B, &None, &same), mismatch);
    assert_eq!(
        check_snapshot_restore(&record, UUID_B, &same, &Some(UUID_B.to_string())),
        mismatch
    );
    let mine = snapshots_of(
        vec![snapshot("1", UUID_A, 1), snapshot("2", UUID_B, 2), snapshot("3", UUID_A, 3)],
        UUID_A,
    );
    let ids: Vec<&str> = mine.iter().map(|s| s.id.as_str()).collect();
    assert_eq!(ids, vec!["1", "3"]);
}

fn tree_entry(is_link: bool, size: u64) -> TreeEntry {
    TreeEntry { is_link, is_reparse_point: false, size }
}

#[test]
fn snapshot_trees_are_plain_and_bounded() {
    assert!(check_snapshot_tree(&vec![]).is_ok());
    assert!(check_snapshot_tree(&vec![tree_entry(false, 209715200)]).is_ok());
    assert_eq!(
        check_snapshot_tree(&vec![tree_entry(false, 209715200), tree_entry(false, 1)]),
        Err("Snapshot exceeds 200 MiB limit".to_string())
    );
    assert_eq!(
        check_snapshot_tree(&vec![tree_entry(false, 10), tree_entry(true, 0)]),
        Err("Snapshots cannot contain symbolic links".to_string())
    );
    assert_eq!(
        check_snapshot_tree(&vec![TreeEntry { is_link: false, is_reparse_point: true, size: 0 }]),
        Err("Snapshots cannot contain reparse points".to_string())
    );
    assert_eq!(
        check_snapshot_tree(&vec![tree_entry(false, u64::MAX), tree_entry(false, u64::MAX)]),
        Err("Snapshot exceeds 200 MiB limit".to_string())
    );
}

fn walk(is_link: bool, is_file: bool, inside: bool, size: u64) -> WalkEntry {
    WalkEntry { is_link, is_file, inside_storage: inside, size }
}

#[test]
fn backup_takes_plain_files_within_limits() {
    assert_eq!(
        check_walk_entry(&walk(true, true, true, 1)),
        Err("Sync stopped: symbolic links or junctions are not supported in managed Skills"
            .to_string())
    );
    assert_eq!(check_walk_entry(&walk(false, false, false, 1)), Ok(false));
    assert_eq!(
        check_walk_entry(&walk(false, true, false, 1)),
        Err("File is outside managed storage".to_string())
    );
    assert_eq!(
        check_walk_entry(&walk(false, true, true, 5 * 1024 * 1024 + 1)),
        Err("A file exceeds the 5 MiB sync limit".to_string())
    );
    assert_eq!(check_walk_entry(&walk(false, true, true, 5 * 1024 * 1024)), Ok(true));
    let limit = Err("Sync limit exceeded: 500 files / 20 MiB".to_string());
    assert_eq!(add_to_backup(10, 0, 5), Ok(15));
    assert_eq!(add_to_backup(20 * 1024 * 1024, 3, 1), limit);
    assert_eq!(add_to_backup(0, 500, 1), limit);
    assert_eq!(add_to_backup(0, 499, 20 * 1024 * 1024), Ok(20 * 1024 * 1024));
    assert!(check_skills_directory(true).is_ok());
    assert_eq!(
        check_skills_directory(false),
        Err("Managed Skills directory is missing; refusing to erase the backup".to_string())
    );
    assert_eq!(
        check_files_found(0),
        Err("No managed files to upload; refusing to erase the remote backup".to_string())
    );
    assert_eq!(upload_name("Skills\\demo\\SKILL.md"), "Skills/demo/SKILL.md");
    let sorted = sort_by_name(vec![
        ("Skills/b".to_string(), 1),
        ("Skills/a/z".to_string(), 2),
        (".metadata/x".to_string(), 3),
        ("Skills/a".to_string(), 4),
    ]);
    let names: Vec<&str> = sorted.iter().map(|p| p.0.as_str()).collect();
    assert_eq!(names, vec![".metadata/x", "Skills/a", "Skills/a/z", "Skills/b"]);
}

fn remote(path: Option<&str>, kind: &str, mode: &str, sha: Option<&str>) -> RemoteEntry {
    RemoteEntry {
        path: path.map(str::to_string),
        kind: kind.into(),
        mode: mode.into(),
        sha: sha.map(str::to_string),
    }
}

#[test]
fn remote_backup_must_be_a_folder_of_plain_files() {
    assert_eq!(backup_folder(&vec![remote(Some("README.md"), "blob", "100644", Some("r"))]), Ok(None));
    assert_eq!(
        backup_folder(&vec![
            remote(Some("README.md"), "blob", "100644", Some("r")),
            remote(Some("SkillManager"), "tree", "040000", Some("t1")),
            remote(Some("SkillManager"), "blob", "100644", Some("t2")),
        ]),
        Ok(Some("t1".to_string()))
    );
    assert_eq!(
        backup_folder(&vec![remote(Some("SkillManager"), "blob", "100644", Some("x"))]),
        Err("Remote SkillManager path is not a directory".to_string())
    );
    assert_eq!(
        check_listing_complete(true, false),
        Err("Repository tree is too large".to_string())
    );
    assert_eq!(
        check_listing_complete(true, true),
        Err("Remote backup tree is too large".to_string())
    );
    assert_eq!(
        remote_files(&vec![
            remote(Some("Skills"), "tree", "040000", Some("d")),
            remote(Some("Skills/a.md"), "blob", "100644", Some("s1")),
        ]),
        Ok(vec![("Skills/a.md".to_string(), "s1".to_string())])
    );
    assert_eq!(
        remote_files(&vec![remote(Some("run.sh"), "blob", "100755", Some("s"))]),
        Err("Remote backup contains unsupported file modes; manual review required".to_string())
    );
    assert_eq!(
        remote_files(&vec![remote(None, "blob", "100644", Some("s"))]),
        Err("Missing GitHub field: path".to_string())
    );
    assert_eq!(
        remote_files(&vec![remote(Some("a"), "blob", "100644", None)]),
        Err("Missing GitHub field: sha".to_string())
    );
}

fn pairs(v: &[(&str, &str)]) -> Vec<(String, String)> {
    v.iter().map(|(a, b)| (a.to_string(), b.to_string())).collect()
}

#[test]
fn unchanged_backups_upload_nothing() {
    let local = pairs(&[("Skills/a", "1"), ("Skills/b", "2")]);
    assert!(unchanged(&local, &pairs(&[("Skills/b", "2"), ("Skills/a", "1")])));
    assert!(unchanged(&local, &pairs(&[("Skills/a", "0"), ("Skills/b", "2"), ("Skills/a", "1")])));
    assert!(!unchanged(&local, &pairs(&[("Skills/a", "1")])));
    assert!(!unchanged(&local, &pairs(&[("Skills/a", "1"), ("Skills/b", "3")])));
    assert!(!unchanged(&local, &pairs(&[("Skills/a", "1"), ("Skills/b", "2"), ("x", "9")])));
    assert_eq!(
        contents_to_upload(&local, &pairs(&[("Other/place", "2")])),
        vec![true, false]
    );
    assert_eq!(contents_to_upload(&local, &local), vec![false, false]);
    assert!(check_uploaded_id("abc", "abc").is_ok());
    assert_eq!(
        check_uploaded_id("abd", "abc"),
        Err("GitHub blob checksum mismatch".to_string())
    );
    assert!(check_unchanged_meanwhile(true).is_ok());
    assert!(check_unchanged_meanwhile(false).is_err());
    assert!(needs_commit(&None, "t"));
    assert!(needs_commit(&Some("s".into()), "t"));
    assert!(!needs_commit(&Some("t".into()), "t"));
    let mut config = SyncConfig {
        repository: "o/r".into(),
        branch: "main".into(),
        automatic: true,
        last_tree: String::new(),
        last_success: None,
    };
    record_backup(&mut config, "t9".into(), 42);
    assert_eq!(config.last_tree, "t9");
    assert_eq!(config.last_success, Some(42));
    assert_eq!(config.repository, "o/r");
}

#[test]
fn updates_refuse_another_skill() {
    assert_eq!(check_install_dir("  "), Err("安装目录不能为空".to_string()));
    assert!(check_install_dir("/x").is_ok());
    assert_eq!(
        check_update_request("/x", " "),
        Err("缺少有效的源码地址 (Source URL)，无法更新".to_string())
    );
    assert_eq!(check_update_request("", ""), Err("安装目录不能为空".to_string()));
    assert!(check_update_request("/x", "https://github.com/o/r").is_ok());

    assert_eq!(
        update_identity("demo", &None, true, false, &None, &None),
        Err("指定的 Skill 更新目标不存在".to_string())
    );
    assert_eq!(
        update_identity("demo", &None, false, false, &Some(" other ".into()), &None),
        Err("Skill 名称不匹配，已拒绝更新错误的 Skill".to_string())
    );
    assert_eq!(
        update_identity(
            " demo ",
            &Some(format!(" {} ", UUID_A.to_uppercase())),
            true,
            true,
            &Some("demo".into()),
            &Some(UUID_B.into())
        ),
        Err("Skill UUID 不匹配，已拒绝更新错误的 Skill".to_string())
    );
    assert_eq!(
        update_identity("demo", &Some(UUID_A.to_uppercase()), false, false, &None, &None),
        Ok(Some(UUID_A.to_string()))
    );
    assert_eq!(
        update_identity("demo", &Some("not-a-uuid".into()), false, true, &None, &Some(UUID_B.into())),
        Ok(Some(UUID_B.to_string()))
    );
    assert_eq!(update_identity("demo", &None, false, false, &None, &None), Ok(None));
    assert!(check_target_free(false, false).is_ok());
    assert!(check_target_free(true, true).is_ok());
    assert_eq!(
        check_target_free(true, false),
        Err("目标目录已存在，请更换名称或先清理".to_string())
    );
}

#[test]
fn listing_metadata_and_keys() {
    let (name, description) = skill_metadata("dir", None);
    assert_eq!(name, "dir");
    assert_eq!(description, "");
    let (name, description) =
        skill_metadata("dir", Some("---\nname: ' '\ndescription: Helps.\n---\nbody"));
    assert_eq!(name, "dir");
    assert_eq!(description, "Helps.");
    let (name, _) = skill_metadata("dir", Some("---\nname: \"demo\"\n---\n"));
    assert_eq!(name, "demo");
    assert_eq!(ascii_lowercase_text("/Home/ÄB/Skill.MD"), "/home/Äb/skill.md");
}

#[test]
fn restores_go_back_only_into_free_managed_places() {
    assert!(check_restore_target(true, true, false).is_ok());
    assert_eq!(
        check_restore_target(false, true, true),
        Err("Original managed directory is unavailable".to_string())
    );
    assert_eq!(
        check_restore_target(true, false, false),
        Err("Original managed directory is unavailable".to_string())
    );
    assert_eq!(
        check_restore_target(true, true, true),
        Err("原位置已存在文件，未覆盖。请先处理同名目录 / Original path is occupied".to_string())
    );
    assert!(check_restore_identity(false).is_ok());
    assert_eq!(
        check_restore_identity(true),
        Err("管理库已存在相同 UUID，请先处理身份冲突 / UUID already exists in library".to_string())
    );
}

fn import_source(uuid: Option<&str>) -> ImportSource {
    ImportSource {
        source_path: "/raw/demo".into(),
        canonical: "/real/demo".into(),
        name: "demo".into(),
        uuid: uuid.map(str::to_string),
    }
}

fn report(action: ImportAction) -> SkillImportItemResult {
    match action {
        ImportAction::Report(r) => r,
        _ => panic!("expected a report"),
    }
}

#[test]
fn import_steps_follow_the_checks_in_order() {
    let with_uuid = import_source(Some(UUID_A));
    let without = import_source(None);
    assert!(matches!(
        import_step(&with_uuid, ImportAction::CheckRecord(0), ImportEvent::RecordUnrelated),
        ImportAction::CheckRecord(1)
    ));
    let failed = report(import_step(
        &with_uuid,
        ImportAction::CheckRecord(2),
        ImportEvent::RecordFailed("denied".into()),
    ));
    assert_eq!(failed.status, "failed");
    assert_eq!(failed.source_path, "/raw/demo");
    assert_eq!(failed.message, "denied");
    let before = report(import_step(
        &with_uuid,
        ImportAction::CheckRecord(0),
        ImportEvent::RecordTarget { target_path: "/m/demo".into(), target_uuid: UUID_A.into(), same_files: false },
    ));
    assert_eq!(before.status, "skipped");
    assert_eq!(before.source_path, "/real/demo");
    assert_eq!(before.target_path.as_deref(), Some("/m/demo"));
    assert_eq!(before.message, "Skill from this source is already managed");
    assert!(matches!(
        import_step(
            &with_uuid,
            ImportAction::CheckRecord(0),
            ImportEvent::RecordTarget { target_path: "/m/x".into(), target_uuid: UUID_B.into(), same_files: true },
        ),
        ImportAction::CheckRecord(1)
    ));
    assert!(matches!(
        import_step(
            &without,
            ImportAction::CheckRecord(0),
            ImportEvent::RecordTarget { target_path: "/m/x".into(), target_uuid: UUID_B.into(), same_files: true },
        ),
        ImportAction::Report(_)
    ));
    match import_step(&with_uuid, ImportAction::CheckRecord(3), ImportEvent::NoRecordsLeft) {
        ImportAction::FindByUuid(u) => assert_eq!(u, UUID_A),
        _ => panic!("expected a UUID lookup"),
    }
    assert!(matches!(
        import_step(&without, ImportAction::CheckRecord(3), ImportEvent::NoRecordsLeft),
        ImportAction::CompareFirstTarget
    ));
    let owned = report(import_step(
        &with_uuid,
        ImportAction::FindByUuid(UUID_A.into()),
        ImportEvent::UuidOwner(Some("/m/other".into())),
    ));
    assert_eq!(owned.message, "A skill with the same UUID is already managed");
    assert!(matches!(
        import_step(&with_uuid, ImportAction::FindByUuid(UUID_A.into()), ImportEvent::UuidOwner(None)),
        ImportAction::CompareFirstTarget
    ));
    assert!(matches!(
        import_step(&without, ImportAction::CompareFirstTarget, ImportEvent::FirstTargetFree),
        ImportAction::Install
    ));
    assert!(matches!(
        import_step(
            &without,
            ImportAction::CompareFirstTarget,
            ImportEvent::FirstTarget { path: "/m/demo".into(), comparison: Ok(false) },
        ),
        ImportAction::Install
    ));
    let identical = report(import_step(
        &without,
        ImportAction::CompareFirstTarget,
        ImportEvent::FirstTarget { path: "/m/demo".into(), comparison: Ok(true) },
    ));
    assert_eq!(identical.message, "An identical skill is already managed");
    let broken = report(import_step(
        &without,
        ImportAction::CompareFirstTarget,
        ImportEvent::FirstTarget { path: "/m/demo".into(), comparison: Err("unreadable".into()) },
    ));
    assert_eq!(broken.status, "failed");
    assert_eq!(broken.message, "unreadable");
}
