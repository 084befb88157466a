use skills_manager::dir_names::sanitize_skill_dir_name;
use skills_manager::linking::{
    adopt_step, check_link_source, ide_dir_usable, link_step, normalize_components,
    path_within_any_root,
    uninstall_decision, uninstall_roots, AdoptAction, AdoptContext, AdoptEvent, ExistingEntry,
    IdeDirPath, LinkAction, LinkContext, LinkEvent,
};

fn parts(v: &[&str]) -> Vec<String> {
    v.iter().map(|s| s.to_string()).collect()
}

fn strings(v: &[&str]) -> Vec<String> {
    parts(v)
}

/// A link action as a kind and its texts.
fn link_view(a: LinkAction) -> (&'static str, Vec<String>) {
    match a {
        LinkAction::CheckTarget => ("check", vec![]),
        LinkAction::TryCopy => ("copy", vec![]),
        LinkAction::TrySymlink(e) => ("symlink", e),
        LinkAction::TryJunction(e) => ("junction", e),
        LinkAction::Linked(n) => ("linked", vec![n]),
        LinkAction::Skipped(n) => ("skipped", vec![n]),
        LinkAction::Fail(m) => ("fail", vec![m]),
    }
}

/// An adoption action as a kind and its texts.
fn adopt_view(a: AdoptAction) -> (&'static str, Vec<String>) {
    match a {
        AdoptAction::Inspect => ("inspect", vec![]),
        AdoptAction::CopyIn(n) => ("copy_in", vec![n]),
        AdoptAction::RemoveOriginal(n) => ("remove", vec![n]),
        AdoptAction::Link(n) => ("link", vec![n]),
        AdoptAction::LinkJunction(n, e) => ("junction", [vec![n], e].concat()),
        AdoptAction::RestoreCopy(n, e) => ("restore", [vec![n], e].concat()),
        AdoptAction::Done(Ok(m)) => ("ok", vec![m]),
        AdoptAction::Done(Err(m)) => ("err", vec![m]),
    }
}

fn link_ctx(copy_first: bool, junction_available: bool) -> LinkContext {
    LinkContext {
        skill_name: "demo".to_string(),
        target_name: "Cursor".to_string(),
        link_path: "/home/u/.cursor/skills/demo".to_string(),
        copy_first,
        junction_available,
    }
}

fn checked(within: bool, resolved: bool, existing: Option<ExistingEntry>) -> LinkEvent {
    LinkEvent::Checked { within_allowed: within, resolved_within_allowed: resolved, existing }
}

#[test]
fn paths_lie_within_roots_by_whole_components() {
    let roots = vec![parts(&["/", "home", "u"]), parts(&["/", "work", "proj"])];
    assert!(path_within_any_root(&parts(&["/", "home", "u", ".cursor", "skills"]), &roots));
    assert!(path_within_any_root(&parts(&["/", "work", "proj"]), &roots));
    assert!(!path_within_any_root(&parts(&["/", "home", "user2", "x"]), &roots));
    assert!(!path_within_any_root(&parts(&["/", "home"]), &roots));
    assert!(!path_within_any_root(&parts(&["/", "home", "u"]), &vec![]));
}

#[test]
fn uninstall_removes_only_inside_allowed_roots() {
    let roots = vec![parts(&["/", "home", "u", ".codex", "skills"])];
    let inside = parts(&["/", "home", "u", ".codex", "skills"]);
    assert_eq!(uninstall_decision(&inside, &roots, true), Ok(true));
    assert_eq!(uninstall_decision(&inside, &roots, false), Ok(false));
    let outside = parts(&["/", "etc"]);
    assert_eq!(
        uninstall_decision(&outside, &roots, true),
        Err("Target path is outside the allowed directories".to_string())
    );
}

#[test]
fn linked_skills_come_from_the_manager_storage() {
    let roots = vec![parts(&["/", "home", "u", "Skill Manager", "Skills"])];
    assert_eq!(check_link_source(None, &roots), Err("Local skill path does not exist".to_string()));
    let inside = parts(&["/", "home", "u", "Skill Manager", "Skills", "demo"]);
    assert_eq!(check_link_source(Some(&inside), &roots), Ok(()));
    let outside = parts(&["/", "tmp", "demo"]);
    assert_eq!(
        check_link_source(Some(&outside), &roots),
        Err("Local skill path must stay inside Skills Manager storage".to_string())
    );
}

#[test]
fn uninstall_roots_cover_manager_ide_and_project_directories() {
    let manager = vec![parts(&["/", "h", "Skill Manager", "Skills"])];
    let home = parts(&["/", "h"]);
    let dirs = vec![
        IdeDirPath { components: parts(&[".cursor", "skills"]), absolute: false },
        IdeDirPath { components: parts(&["/", "opt", "skills"]), absolute: true },
    ];
    let project = parts(&["/", "p"]);
    let roots = uninstall_roots(&manager, &dirs, &home, Some(&project)).unwrap();
    assert_eq!(
        roots,
        vec![
            parts(&["/", "h", "Skill Manager", "Skills"]),
            parts(&["/", "h", ".cursor", "skills"]),
            parts(&["/", "opt", "skills"]),
            parts(&["/", "p", ".codex", "skills"]),
            parts(&["/", "p", ".trae", "skills"]),
            parts(&["/", "p", ".opencode", "skills"]),
            parts(&["/", "p", ".skills-manager", "skills"]),
        ]
    );
    let no_project = uninstall_roots(&manager, &dirs, &home, None).unwrap();
    assert_eq!(no_project.len(), 3);
}

#[test]
fn uninstall_refuses_unusable_ide_directories() {
    let manager = vec![parts(&["/", "h", "Skill Manager", "Skills"])];
    let home = parts(&["/", "h"]);
    let climbing = IdeDirPath { components: parts(&["..", "etc"]), absolute: false };
    let blank = IdeDirPath { components: vec![], absolute: false };
    assert!(!ide_dir_usable(&climbing));
    assert!(!ide_dir_usable(&blank));
    assert!(ide_dir_usable(&IdeDirPath { components: parts(&[".kiro", "skills"]), absolute: false }));
    for dir in [climbing, blank] {
        assert_eq!(
            uninstall_roots(&manager, &vec![dir], &home, None),
            Err("Invalid IDE directory".to_string())
        );
    }
}

#[test]
fn link_targets_are_checked_before_anything_is_made() {
    let ctx = link_ctx(false, false);
    assert_eq!(
        link_view(link_step(&ctx, LinkAction::CheckTarget, checked(false, false, None))),
        ("fail", strings(&["Target directory is outside the allowed directories: Cursor"]))
    );
    assert_eq!(
        link_view(link_step(&ctx, LinkAction::CheckTarget, checked(true, false, None))),
        ("fail", strings(&["Target directory failed the path safety check: Cursor"]))
    );
    assert_eq!(
        link_view(link_step(
            &ctx,
            LinkAction::CheckTarget,
            checked(true, true, Some(ExistingEntry::LinkedHere))
        )),
        ("skipped", strings(&["Cursor: already linked"]))
    );
    assert_eq!(
        link_view(link_step(
            &ctx,
            LinkAction::CheckTarget,
            checked(true, true, Some(ExistingEntry::SyncedHere))
        )),
        ("skipped", strings(&["Cursor: already synced"]))
    );
    assert_eq!(
        link_view(link_step(
            &ctx,
            LinkAction::CheckTarget,
            checked(true, true, Some(ExistingEntry::Occupied))
        )),
        ("skipped", strings(&["Cursor: target already exists"]))
    );
    assert_eq!(
        link_view(link_step(&ctx, LinkAction::CheckTarget, checked(true, true, None))),
        ("symlink", vec![])
    );
    assert_eq!(
        link_view(link_step(&link_ctx(true, true), LinkAction::CheckTarget, checked(true, true, None))),
        ("copy", vec![])
    );
}

#[test]
fn link_ways_are_tried_in_order_until_one_works() {
    let ctx = link_ctx(true, true);
    assert_eq!(
        link_view(link_step(&ctx, LinkAction::TryCopy, LinkEvent::Created)),
        ("linked", strings(&["Cursor: synced /home/u/.cursor/skills/demo"]))
    );
    assert_eq!(
        link_view(link_step(&ctx, LinkAction::TryCopy, LinkEvent::CopyFailed("denied".into()))),
        ("symlink", strings(&["copy: denied"]))
    );
    assert_eq!(
        link_view(link_step(&ctx, LinkAction::TryCopy, LinkEvent::MarkerFailed("full".into()))),
        ("symlink", strings(&["copy marker: full"]))
    );
    assert_eq!(
        link_view(link_step(&ctx, LinkAction::TrySymlink(vec![]), LinkEvent::Created)),
        ("linked", strings(&["Cursor: /home/u/.cursor/skills/demo"]))
    );
    assert_eq!(
        link_view(link_step(
            &ctx,
            LinkAction::TrySymlink(strings(&["copy: denied"])),
            LinkEvent::SymlinkFailed("no privilege".into())
        )),
        ("junction", strings(&["copy: denied", "symlink: no privilege"]))
    );
    assert_eq!(
        link_view(link_step(&ctx, LinkAction::TryJunction(vec![]), LinkEvent::Created)),
        ("linked", strings(&["Cursor: junction /home/u/.cursor/skills/demo"]))
    );
    assert_eq!(
        link_view(link_step(
            &ctx,
            LinkAction::TryJunction(strings(&["symlink: no privilege"])),
            LinkEvent::JunctionFailed("mklink /J failed: denied".into())
        )),
        (
            "fail",
            strings(&["Failed to create a link for demo in Cursor: symlink: no privilege; junction: mklink /J failed: denied"])
        )
    );
}

#[test]
fn without_junctions_a_failed_symlink_stops_the_request() {
    let ctx = link_ctx(false, false);
    assert_eq!(
        link_view(link_step(
            &ctx,
            LinkAction::TrySymlink(vec![]),
            LinkEvent::SymlinkFailed("exists".into())
        )),
        ("fail", strings(&["Failed to create a link for demo in Cursor: symlink: exists"]))
    );
}

fn adopt_ctx(junction_available: bool) -> AdoptContext {
    AdoptContext { ide_label: "Cursor".to_string(), junction_available }
}

fn inspected(
    within_home: bool,
    present: bool,
    resolved: Option<&str>,
    has_skill_file: bool,
    managed: Option<Option<&str>>,
    same_as_managed: bool,
) -> AdoptEvent {
    AdoptEvent::Inspected {
        within_home,
        present,
        resolved: resolved.map(str::to_string),
        has_skill_file,
        name: "demo".to_string(),
        managed_present: managed.is_some(),
        managed_resolved: managed.flatten().map(str::to_string),
        same_as_managed,
    }
}

#[test]
fn adoption_checks_the_entry_before_touching_it() {
    let ctx = adopt_ctx(false);
    let step = |event| adopt_view(adopt_step(&ctx, AdoptAction::Inspect, event));
    assert_eq!(
        step(inspected(false, true, Some("/h/.cursor/skills/demo"), true, None, false)),
        ("err", strings(&["IDE skill path must stay inside the home directory"]))
    );
    assert_eq!(
        step(inspected(true, false, None, false, None, false)),
        ("err", strings(&["IDE skill path does not exist"]))
    );
    assert_eq!(
        step(inspected(true, true, Some("/m/demo"), true, Some(None), false)),
        ("err", strings(&["Managed skill path does not exist"]))
    );
    assert_eq!(
        step(inspected(true, true, Some("/m/demo"), true, Some(Some("/m/demo")), false)),
        ("ok", strings(&["demo is already managed"]))
    );
    assert_eq!(
        step(inspected(true, true, Some("/h/.cursor/skills/demo"), true, Some(Some("/m/demo")), true)),
        ("remove", strings(&["demo"]))
    );
    assert_eq!(
        step(inspected(true, true, None, false, Some(Some("/m/demo")), false)),
        ("remove", strings(&["demo"]))
    );
    assert_eq!(
        step(inspected(true, true, Some("/h/.cursor/skills/demo"), true, Some(Some("/m/demo")), false)),
        ("err", strings(&["demo is already managed with different contents"]))
    );
    assert_eq!(
        step(inspected(true, true, None, false, None, false)),
        ("err", strings(&["IDE skill path does not exist"]))
    );
    assert_eq!(
        step(inspected(true, true, Some("/h/.cursor/skills/demo"), false, None, false)),
        ("err", strings(&["Target directory does not contain SKILL.md"]))
    );
    assert_eq!(
        step(inspected(true, true, Some("/h/.cursor/skills/demo"), true, None, false)),
        ("copy_in", strings(&["demo"]))
    );
}

#[test]
fn adoption_copies_removes_and_links_back() {
    let ctx = adopt_ctx(false);
    let name = || "demo".to_string();
    assert_eq!(
        adopt_view(adopt_step(&ctx, AdoptAction::CopyIn(name()), AdoptEvent::Succeeded)),
        ("remove", strings(&["demo"]))
    );
    assert_eq!(
        adopt_view(adopt_step(&ctx, AdoptAction::CopyIn(name()), AdoptEvent::Failed("disk".into()))),
        ("err", strings(&["disk"]))
    );
    assert_eq!(
        adopt_view(adopt_step(&ctx, AdoptAction::RemoveOriginal(name()), AdoptEvent::Succeeded)),
        ("link", strings(&["demo"]))
    );
    assert_eq!(
        adopt_view(adopt_step(&ctx, AdoptAction::Link(name()), AdoptEvent::Succeeded)),
        ("ok", strings(&["Managed demo and re-linked it to Cursor"]))
    );
    assert_eq!(
        adopt_view(adopt_step(&ctx, AdoptAction::Link(name()), AdoptEvent::Failed("denied".into()))),
        ("restore", strings(&["demo", "symlink: denied"]))
    );
    assert_eq!(
        adopt_view(adopt_step(
            &adopt_ctx(true),
            AdoptAction::Link(name()),
            AdoptEvent::Failed("denied".into())
        )),
        ("junction", strings(&["demo", "symlink: denied"]))
    );
    assert_eq!(
        adopt_view(adopt_step(
            &ctx,
            AdoptAction::LinkJunction(name(), strings(&["symlink: denied"])),
            AdoptEvent::Failed("mklink /J failed: x".into())
        )),
        ("restore", strings(&["demo", "symlink: denied", "junction: mklink /J failed: x"]))
    );
    assert_eq!(
        adopt_view(adopt_step(
            &ctx,
            AdoptAction::RestoreCopy(name(), strings(&["symlink: denied"])),
            AdoptEvent::Succeeded
        )),
        (
            "err",
            strings(&["Managed demo in Skills Manager, but failed to create a link for Cursor. Restored a local copy instead. symlink: denied"])
        )
    );
    assert_eq!(
        adopt_view(adopt_step(
            &ctx,
            AdoptAction::RestoreCopy(name(), vec![]),
            AdoptEvent::Failed("copy failed".into())
        )),
        ("err", strings(&["copy failed"]))
    );
}

#[test]
fn skill_directory_names_are_single_safe_directories() {
    assert_eq!(sanitize_skill_dir_name(" My Skill! ", "x"), "My-Skill");
    assert_eq!(sanitize_skill_dir_name("a/b\\c", "x"), "a-b-c");
    assert_eq!(sanitize_skill_dir_name("../etc", "x"), "etc");
    assert_eq!(sanitize_skill_dir_name("技能_v1.2", "x"), "技能_v1.2");
    assert_eq!(sanitize_skill_dir_name("..", "https://github.com/acme/b-repo/"), "b-repo");
    assert_eq!(sanitize_skill_dir_name("", "/tmp/some dir.v2"), "somedirv2");
    assert_eq!(sanitize_skill_dir_name("---", "///"), "skill");
    assert_eq!(sanitize_skill_dir_name("", ""), "skill");
}

#[test]
fn paths_are_normalized_by_components() {
    assert_eq!(
        normalize_components(&parts(&["/", "home", "u", "..", "v", ".", "skills"]), 1),
        parts(&["/", "home", "v", "skills"])
    );
    assert_eq!(normalize_components(&parts(&["/", "..", "etc"]), 1), parts(&["/", "..", "etc"]));
    assert_eq!(normalize_components(&parts(&["a", "..", ".."]), 0), parts(&[".."]));
    assert_eq!(normalize_components(&parts(&[".", "a"]), 0), parts(&["a"]));
    assert_eq!(normalize_components(&vec![], 0), Vec::<String>::new());
}
