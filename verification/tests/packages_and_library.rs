use skills_manager::library::{
    save_library_entry, validate_library, SaveSkillLibraryEntryRequest, SkillLibraryEntry,
    SkillLibraryStore,
};
use skills_manager::packages::{
    assign_package_members, delete_package, reorder_packages, save_package, validate_store,
    AssignPackageMembersRequest, PackageStore, ReorderPackagesRequest, SavePackageRequest,
    SkillPackage,
};

const FIRST: &str = "550e8400-e29b-41d4-a716-446655440000";
const SECOND: &str = "c56a4180-65aa-42ec-a945-5fd21dec0538";
const P1: &str = "11111111-1111-4111-8111-111111111111";
const P2: &str = "22222222-2222-4222-8222-222222222222";
const UNCATEGORIZED: &str = "__uncategorized__";

fn empty_store() -> PackageStore {
    validate_store(PackageStore {
        schema_version: 3,
        revision: 0,
        uncategorized_position: 0,
        packages: Vec::new(),
    })
    .unwrap()
}

fn request(id: Option<&str>, revision: u64, members: Vec<&str>, name: &str) -> SavePackageRequest {
    SavePackageRequest {
        id: id.map(str::to_string),
        name: name.into(),
        description: "Description".into(),
        skill_uuids: members.into_iter().map(str::to_string).collect(),
        revision,
    }
}

fn managed() -> Vec<String> {
    vec![FIRST.to_string(), SECOND.to_string()]
}

#[test]
fn package_lifecycle_preserves_skills_and_missing_references() {
    let store = empty_store();
    let created = save_package(
        &store,
        &request(None, 0, vec![FIRST, FIRST], " Test "),
        &managed(),
        10,
        P1,
    )
    .unwrap();
    assert_eq!(created.packages[0].name, "Test");
    assert_eq!(created.packages[0].skill_uuids, vec![FIRST.to_string()]);
    assert_eq!(created.packages[0].position, 1);
    assert_eq!(created.packages[0].created_at, 10);
    let id = created.packages[0].id.clone();
    assert!(save_package(&created, &request(Some(&id), 0, vec![], "Test"), &managed(), 11, P2).is_err());
    assert!(save_package(&created, &request(None, 1, vec![P2], "Test"), &managed(), 11, P2).is_err());
    let updated = save_package(
        &created,
        &request(Some(&id), 1, vec![FIRST], "Test"),
        &Vec::new(),
        12,
        P2,
    )
    .unwrap();
    assert_eq!(updated.packages[0].id, id);
    assert_eq!(updated.packages[0].created_at, 10);
    assert_eq!(updated.packages[0].updated_at, 12);
    assert_eq!(updated.revision, 2);
    assert!(delete_package(&updated, &id, 1).is_err());
    assert!(delete_package(&updated, &id, 2).unwrap().packages.is_empty());
}

#[test]
fn package_texts_and_members_are_checked() {
    let store = empty_store();
    assert_eq!(
        save_package(&store, &request(None, 0, vec![], "  "), &managed(), 1, P1).unwrap_err(),
        "包名称需为 1–100 字符，描述最多 4000 字符 / Invalid package name or description"
    );
    assert_eq!(
        save_package(&store, &request(None, 0, vec!["nope"], "A"), &managed(), 1, P1).unwrap_err(),
        "Invalid member UUID"
    );
    assert_eq!(
        save_package(&store, &request(None, 0, vec![P2], "A"), &managed(), 1, P1).unwrap_err(),
        format!("Skill is not managed / Skill 未托管: {P2}")
    );
    assert_eq!(
        save_package(&store, &request(Some(P2), 0, vec![], "A"), &managed(), 1, P1).unwrap_err(),
        "Package no longer exists"
    );
}

#[test]
fn assigning_members_moves_skills_between_packages_and_reorders_them() {
    let first = save_package(&empty_store(), &request(None, 0, vec![FIRST], "First package"), &managed(), 1, P1).unwrap();
    let first_id = first.packages[0].id.clone();
    let second = save_package(&first, &request(None, first.revision, vec![SECOND], "Second package"), &managed(), 2, P2).unwrap();
    let second_id = second.packages[1].id.clone();
    let assigned = assign_package_members(
        &second,
        &AssignPackageMembersRequest {
            package_id: Some(second_id.clone()),
            skill_uuids: vec![FIRST.to_string()],
            revision: second.revision,
        },
        &managed(),
        3,
    )
    .unwrap();
    assert!(assigned.packages[0].skill_uuids.is_empty());
    assert_eq!(
        assigned.packages[1].skill_uuids,
        vec![SECOND.to_string(), FIRST.to_string()]
    );
    assert_eq!(assigned.packages[1].updated_at, 3);
    let reordered = reorder_packages(
        &assigned,
        &ReorderPackagesRequest {
            group_ids: vec![second_id.clone(), UNCATEGORIZED.into(), first_id.clone()],
            revision: assigned.revision,
        },
    )
    .unwrap();
    assert_eq!(reordered.packages[0].id, second_id);
    assert_eq!(reordered.packages[0].position, 0);
    assert_eq!(reordered.packages[1].id, first_id);
    assert_eq!(reordered.packages[1].position, 2);
    assert_eq!(reordered.uncategorized_position, 1);
    let uncategorized = assign_package_members(
        &reordered,
        &AssignPackageMembersRequest {
            package_id: None,
            skill_uuids: vec![FIRST.to_string()],
            revision: reordered.revision,
        },
        &managed(),
        4,
    )
    .unwrap();
    assert!(uncategorized
        .packages
        .iter()
        .all(|package| package.skill_uuids.len() <= 1));
    assert!(!uncategorized.packages[0]
        .skill_uuids
        .contains(&FIRST.to_string()));
}

fn legacy_package(id: &str, name: &str, members: Vec<&str>, created: u64) -> SkillPackage {
    SkillPackage {
        id: id.into(),
        name: name.into(),
        description: String::new(),
        skill_uuids: members.into_iter().map(str::to_string).collect(),
        position: 0,
        created_at: created,
        updated_at: created,
    }
}

#[test]
fn schema_one_migration_keeps_the_first_package_membership() {
    let legacy = PackageStore {
        schema_version: 1,
        revision: 4,
        uncategorized_position: 0,
        packages: vec![
            legacy_package(P1, "One", vec![FIRST], 1),
            legacy_package(P2, "Two", vec![FIRST], 2),
        ],
    };
    let migrated = validate_store(legacy).unwrap();
    assert_eq!(migrated.schema_version, 3);
    assert_eq!(migrated.packages[0].skill_uuids.len(), 1);
    assert!(migrated.packages[1].skill_uuids.is_empty());
    assert_eq!(migrated.uncategorized_position, 0);
    assert_eq!(migrated.packages[0].position, 1);
    assert_eq!(migrated.packages[1].position, 2);
}

#[test]
fn stored_configurations_are_checked() {
    let shared = PackageStore {
        schema_version: 2,
        revision: 0,
        uncategorized_position: 0,
        packages: vec![
            legacy_package(P1, "One", vec![FIRST], 1),
            legacy_package(P2, "Two", vec![FIRST], 2),
        ],
    };
    assert_eq!(
        validate_store(shared).unwrap_err(),
        "A Skill can belong to only one package"
    );
    let duplicate = PackageStore {
        schema_version: 3,
        revision: 0,
        uncategorized_position: 0,
        packages: vec![legacy_package(P1, "One", vec![], 1), legacy_package(P1, "Two", vec![], 2)],
    };
    assert_eq!(
        validate_store(duplicate).unwrap_err(),
        "Invalid or duplicate UUID in skill-packages.json"
    );
    let mut a = legacy_package(P1, "One", vec![], 1);
    a.position = 2;
    let mut b = legacy_package(P2, "Two", vec![], 2);
    b.position = 0;
    let unordered = PackageStore {
        schema_version: 3,
        revision: 0,
        uncategorized_position: 1,
        packages: vec![a, b],
    };
    let sorted = validate_store(unordered).unwrap();
    assert_eq!(sorted.packages[0].id, P2);
    assert_eq!(sorted.packages[1].id, P1);
    let mut c = legacy_package(P1, "One", vec![], 1);
    c.position = 5;
    let gap = PackageStore {
        schema_version: 3,
        revision: 0,
        uncategorized_position: 0,
        packages: vec![c],
    };
    assert_eq!(
        validate_store(gap).unwrap_err(),
        "Invalid Skill group positions in skill-packages.json"
    );
    let future = PackageStore {
        schema_version: 4,
        revision: 0,
        uncategorized_position: 0,
        packages: vec![],
    };
    assert_eq!(
        validate_store(future).unwrap_err(),
        "Unsupported skill package configuration version"
    );
}

#[test]
fn reorder_requires_every_group_and_can_move_uncategorized() {
    let first = save_package(&empty_store(), &request(None, 0, vec![], "First"), &managed(), 1, P1).unwrap();
    let first_id = first.packages[0].id.clone();
    let second = save_package(&first, &request(None, first.revision, vec![], "Second"), &managed(), 2, P2).unwrap();
    let second_id = second.packages[1].id.clone();
    assert!(reorder_packages(
        &second,
        &ReorderPackagesRequest {
            group_ids: vec![first_id.clone(), second_id.clone()],
            revision: second.revision,
        }
    )
    .is_err());
    assert!(reorder_packages(
        &second,
        &ReorderPackagesRequest {
            group_ids: vec![UNCATEGORIZED.into(), first_id.clone(), first_id.clone()],
            revision: second.revision,
        }
    )
    .is_err());
    let reordered = reorder_packages(
        &second,
        &ReorderPackagesRequest {
            group_ids: vec![first_id.clone(), second_id.clone(), UNCATEGORIZED.into()],
            revision: second.revision,
        },
    )
    .unwrap();
    assert_eq!(reordered.uncategorized_position, 2);
    assert_eq!(reordered.packages[0].position, 0);
    assert_eq!(reordered.packages[1].position, 1);
    let after_delete = delete_package(&reordered, &first_id, reordered.revision).unwrap();
    assert_eq!(after_delete.packages[0].id, second_id);
    assert_eq!(after_delete.packages[0].position, 0);
    assert_eq!(after_delete.uncategorized_position, 1);
}

fn library_request(uuid: &str, favorite: bool, tags: Vec<&str>, revision: u64) -> SaveSkillLibraryEntryRequest {
    SaveSkillLibraryEntryRequest {
        uuid: uuid.into(),
        favorite,
        tags: tags.into_iter().map(str::to_string).collect(),
        revision,
    }
}

#[test]
fn saves_normalized_favorites_and_tags_with_revision_checks() {
    let store = SkillLibraryStore::default();
    let store = save_library_entry(&store, &library_request(FIRST, true, vec![" Work ", "work", "Windows"], 0)).unwrap();
    assert_eq!(store.revision, 1);
    assert_eq!(store.entries[0].tags, vec!["Work", "Windows"]);
    assert!(save_library_entry(&store, &library_request(FIRST, false, vec![], 0)).is_err());
    let empty = save_library_entry(&store, &library_request(FIRST, false, vec![], 1)).unwrap();
    assert!(empty.entries.is_empty());
}

#[test]
fn library_entries_are_ordered_and_checked() {
    let store = SkillLibraryStore::default();
    let store = save_library_entry(&store, &library_request(SECOND, true, vec![], 0)).unwrap();
    let store = save_library_entry(&store, &library_request(&FIRST.to_uppercase(), false, vec!["a"], 1)).unwrap();
    assert_eq!(store.entries[0].uuid, FIRST);
    assert_eq!(store.entries[1].uuid, SECOND);
    assert_eq!(
        save_library_entry(&store, &library_request("bad", true, vec![], 2)).unwrap_err(),
        "Invalid Skill UUID"
    );
    assert_eq!(
        save_library_entry(&store, &library_request(FIRST, true, vec![&"x".repeat(33)], 2)).unwrap_err(),
        "每个标签最多 32 个字符 / Tags are limited to 32 characters"
    );
    let many: Vec<String> = (0..21).map(|i| format!("t{i}")).collect();
    let many_refs: Vec<&str> = many.iter().map(String::as_str).collect();
    assert_eq!(
        save_library_entry(&store, &library_request(FIRST, true, many_refs, 2)).unwrap_err(),
        "每个 Skill 最多 20 个标签 / Up to 20 tags per Skill"
    );
    let invalid = SkillLibraryStore {
        schema_version: 1,
        revision: 0,
        entries: vec![SkillLibraryEntry {
            uuid: FIRST.into(),
            favorite: true,
            tags: vec![String::new()],
        }],
    };
    assert_eq!(
        validate_library(invalid).unwrap_err(),
        "Invalid entry in skill-library.json"
    );
}

#[test]
fn deleting_a_package_leaves_its_members_uncategorized() {
    let first = save_package(&empty_store(), &request(None, 0, vec![FIRST], "First"), &managed(), 1, P1).unwrap();
    let second =
        save_package(&first, &request(None, first.revision, vec![SECOND], "Second"), &managed(), 2, P2)
            .unwrap();
    let after = delete_package(&second, P1, second.revision).unwrap();
    assert_eq!(after.packages.len(), 1);
    assert!(after.packages.iter().all(|p| !p.skill_uuids.contains(&FIRST.to_string())));
    assert_eq!(after.packages[0].skill_uuids, vec![SECOND.to_string()]);

    let moved = save_package(&second, &request(Some(P2), second.revision, vec![FIRST, SECOND], "Both"), &managed(), 3, P1)
        .unwrap();
    assert_eq!(moved.packages[1].id, P2);
    assert_eq!(moved.packages[1].created_at, 2);
    assert_eq!(moved.packages[1].position, second.packages[1].position);
    assert!(moved.packages[0].skill_uuids.is_empty());

    let reordered = reorder_packages(
        &moved,
        &ReorderPackagesRequest {
            group_ids: vec![P2.to_string(), UNCATEGORIZED.into(), P1.to_string()],
            revision: moved.revision,
        },
    )
    .unwrap();
    assert_eq!(reordered.packages[0].id, P2);
    assert_eq!(reordered.packages[0].skill_uuids, vec![FIRST.to_string(), SECOND.to_string()]);
    assert_eq!(reordered.packages[0].name, "Both");
}

#[test]
fn saving_a_package_takes_its_members_from_the_others() {
    let first = save_package(&empty_store(), &request(None, 0, vec![FIRST, SECOND], "First"), &managed(), 1, P1).unwrap();
    let second = save_package(
        &first,
        &request(None, first.revision, vec![SECOND, SECOND.to_uppercase().as_str(), FIRST], "Second"),
        &managed(),
        2,
        P2,
    )
    .unwrap();
    assert_eq!(second.revision, first.revision + 1);
    assert!(second.packages[0].skill_uuids.is_empty());
    assert_eq!(second.packages[0].name, "First");
    assert_eq!(second.packages[0].updated_at, 1);
    assert_eq!(second.packages[1].id, P2);
    assert_eq!(second.packages[1].skill_uuids, vec![SECOND.to_string(), FIRST.to_string()]);
    assert_eq!(second.packages[1].position, 2);
}
