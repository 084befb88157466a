use skills_manager::backup::RemoteEntry;
use skills_manager::backup_run::{upload_step, UploadAction, UploadContext, UploadEvent};
use skills_manager::github_sync::excluded;
use skills_manager::importing::{
    import_step, record_import, ImportAction, ImportEvent, ImportSource, ManagedSkillRecord,
};
use skills_manager::packages::{validate_store, PackageStore, SkillPackage};

const UUID_A: &str = "550e8400-e29b-41d4-a716-446655440000";
const UUID_B: &str = "c56a4180-65aa-42ec-a945-5fd21dec0538";
const P1: &str = "11111111-1111-4111-8111-111111111111";
const P2: &str = "22222222-2222-4222-8222-222222222222";

fn entry(uuid: &str, source: &str, target: &str) -> ManagedSkillRecord {
    ManagedSkillRecord {
        uuid: uuid.into(),
        name: "demo".into(),
        source_path: source.into(),
        target_path: target.into(),
        imported_at_unix: 1,
    }
}

#[test]
fn a_second_import_of_a_source_is_skipped_with_its_first_target() {
    let records = vec![entry(UUID_B, "/other", "/m/other")];
    let index = record_import(records, entry(UUID_A, "/real/demo", "/m/demo"));
    assert_eq!(index.len(), 2);
    assert_eq!(index[1].target_path, "/m/demo");
    let source = ImportSource {
        source_path: "/raw/demo".into(),
        canonical: "/real/demo".into(),
        name: "demo".into(),
        uuid: Some(UUID_A.into()),
    };
    let mut action = ImportAction::CheckRecord(0);
    for record in &index {
        let event = if record.source_path == source.canonical {
            ImportEvent::RecordTarget {
                target_path: record.target_path.clone(),
                target_uuid: UUID_A.into(),
                same_files: false,
            }
        } else {
            ImportEvent::RecordUnrelated
        };
        action = import_step(&source, action, event);
    }
    match action {
        ImportAction::Report(report) => {
            assert_eq!(report.status, "skipped");
            assert_eq!(report.target_path.as_deref(), Some("/m/demo"));
            assert_eq!(report.message, "Skill from this source is already managed");
        }
        _ => panic!("the second import should end with a report"),
    }
}

fn package(id: &str, position: u32, members: Vec<&str>) -> SkillPackage {
    SkillPackage {
        id: id.into(),
        name: "Group".into(),
        description: String::new(),
        skill_uuids: members.into_iter().map(str::to_string).collect(),
        position,
        created_at: 1,
        updated_at: 1,
    }
}

#[test]
fn valid_stores_put_groups_at_each_position_once() {
    let store = validate_store(PackageStore {
        schema_version: 3,
        revision: 4,
        uncategorized_position: 1,
        packages: vec![package(P2, 2, vec![UUID_B]), package(P1, 0, vec![UUID_A])],
    })
    .unwrap();
    let mut positions: Vec<u32> = store.packages.iter().map(|p| p.position).collect();
    assert_eq!(positions, vec![0, 2]);
    positions.push(store.uncategorized_position);
    positions.sort();
    assert_eq!(positions, vec![0, 1, 2]);
}

#[test]
fn stores_with_a_skill_in_two_packages_or_an_unknown_schema_are_refused() {
    let twice = PackageStore {
        schema_version: 2,
        revision: 0,
        uncategorized_position: 0,
        packages: vec![package(P1, 1, vec![UUID_A]), package(P2, 2, vec![UUID_A])],
    };
    assert!(validate_store(twice).is_err());
    let unknown = PackageStore {
        schema_version: 4,
        revision: 0,
        uncategorized_position: 0,
        packages: vec![],
    };
    assert!(validate_store(unknown).is_err());
}

#[test]
fn excluded_names_ignore_ascii_case() {
    assert!(excluded("Work/.ENV"));
    assert!(excluded("notes/ID_RSA"));
    assert!(excluded("Node_Modules/x.md"));
    assert!(excluded("keys/Server.PEM"));
    assert!(!excluded("Work/notes.md"));
}

fn remote(path: &str, kind: &str, mode: &str, sha: &str) -> RemoteEntry {
    RemoteEntry {
        path: Some(path.into()),
        kind: kind.into(),
        mode: mode.into(),
        sha: Some(sha.into()),
    }
}

fn upload_view(a: UploadAction) -> (&'static str, Vec<String>) {
    match a {
        UploadAction::ReadRepositoryTree => ("read_repository", vec![]),
        UploadAction::ReadBackupTree(s) => ("read_backup", vec![s]),
        UploadAction::UploadBlob { remote, uploads, index } => (
            "upload",
            vec![remote.unwrap_or_default(), format!("{:?}", uploads), index.to_string()],
        ),
        UploadAction::WriteTree { remote } => ("write_tree", vec![remote.unwrap_or_default()]),
        UploadAction::CheckLocal { remote, desired } => {
            ("check_local", vec![remote.unwrap_or_default(), desired])
        }
        UploadAction::Commit(d) => ("commit", vec![d]),
        UploadAction::Finish(t) => ("finish", vec![t]),
        UploadAction::Fail(m) => ("fail", vec![m]),
    }
}

fn upload_ctx(previous: &str) -> UploadContext {
    UploadContext {
        local: vec![("Skills/a.md".into(), "s1".into()), ("Skills/b.md".into(), "s2".into())],
        previous: previous.into(),
    }
}

#[test]
fn a_first_backup_uploads_every_file_then_commits() {
    let ctx = upload_ctx("");
    let listing = UploadEvent::RepositoryTree {
        truncated: false,
        entries: vec![remote("README.md", "blob", "100644", "r")],
    };
    let a = upload_step(&ctx, UploadAction::ReadRepositoryTree, listing);
    assert_eq!(
        upload_view(a),
        ("upload", vec!["".to_string(), "[true, true]".to_string(), "0".to_string()])
    );
    let first = UploadAction::UploadBlob { remote: None, uploads: vec![true, true], index: 0 };
    assert_eq!(
        upload_view(upload_step(&ctx, first, UploadEvent::BlobUploaded("other".into()))),
        ("fail", vec!["GitHub blob checksum mismatch".to_string()])
    );
    let first = UploadAction::UploadBlob { remote: None, uploads: vec![true, true], index: 0 };
    let second = upload_step(&ctx, first, UploadEvent::BlobUploaded("s1".into()));
    assert_eq!(upload_view(second).1[2], "1");
    let second = UploadAction::UploadBlob { remote: None, uploads: vec![true, true], index: 1 };
    let write = upload_step(&ctx, second, UploadEvent::BlobUploaded("s2".into()));
    assert_eq!(upload_view(write), ("write_tree", vec!["".to_string()]));
    let check = upload_step(
        &ctx,
        UploadAction::WriteTree { remote: None },
        UploadEvent::TreeWritten("t1".into()),
    );
    assert_eq!(upload_view(check), ("check_local", vec!["".to_string(), "t1".to_string()]));
    let check = || UploadAction::CheckLocal { remote: None, desired: "t1".into() };
    assert_eq!(
        upload_view(upload_step(&ctx, check(), UploadEvent::LocalChecked(false))),
        ("fail", vec!["Local Skills changed during upload; no commit was published. Retry once changes finish.".to_string()])
    );
    assert_eq!(
        upload_view(upload_step(&ctx, check(), UploadEvent::LocalChecked(true))),
        ("commit", vec!["t1".to_string()])
    );
    assert_eq!(
        upload_view(upload_step(&ctx, UploadAction::Commit("t1".into()), UploadEvent::Committed)),
        ("finish", vec!["t1".to_string()])
    );
}

#[test]
fn a_backup_never_touches_a_foreign_remote_folder() {
    let ctx = upload_ctx("t0");
    let listing = UploadEvent::RepositoryTree {
        truncated: false,
        entries: vec![remote("SkillManager", "tree", "040000", "x9")],
    };
    assert_eq!(
        upload_view(upload_step(&ctx, UploadAction::ReadRepositoryTree, listing)),
        ("read_backup", vec!["x9".to_string()])
    );
    let files = UploadEvent::BackupTree {
        truncated: false,
        entries: vec![remote("Skills/a.md", "blob", "100644", "s1")],
    };
    assert_eq!(
        upload_view(upload_step(&ctx, UploadAction::ReadBackupTree("x9".into()), files)),
        ("fail", vec!["Remote SkillManager folder changed or belongs to another backup. Sync stopped to protect remote data; reconcile manually or bind a different repository/branch.".to_string()])
    );
    let ours = upload_ctx("x9");
    let files = UploadEvent::BackupTree {
        truncated: false,
        entries: vec![remote("Skills/a.md", "blob", "100644", "s1")],
    };
    assert_eq!(
        upload_view(upload_step(&ours, UploadAction::ReadBackupTree("x9".into()), files)),
        ("upload", vec!["x9".to_string(), "[false, true]".to_string(), "1".to_string()])
    );
    let same = UploadEvent::BackupTree {
        truncated: false,
        entries: vec![
            remote("Skills/a.md", "blob", "100644", "s1"),
            remote("Skills/b.md", "blob", "100644", "s2"),
        ],
    };
    assert_eq!(
        upload_view(upload_step(&ctx, UploadAction::ReadBackupTree("x9".into()), same)),
        ("finish", vec!["x9".to_string()])
    );
    assert_eq!(
        upload_view(upload_step(
            &ctx,
            UploadAction::WriteTree { remote: Some("x9".into()) },
            UploadEvent::TreeWritten("t5".into())
        ))
        .0,
        "fail"
    );
    assert_eq!(
        upload_view(upload_step(
            &ctx,
            UploadAction::ReadRepositoryTree,
            UploadEvent::RepositoryTree { truncated: true, entries: vec![] }
        )),
        ("fail", vec!["Repository tree is too large".to_string()])
    );
}
