//! Linking managed skills into IDE skill directories: the notes and errors a
//! link request gives, which IDE entries point back at managed skills, and
//! the IDE directories that are looked at by default.
use crate::packages::{string_views, strings_contain};
use crate::text::{
    ascii_lower, chars_ends_with, chars_of, char_to_ascii_lower, ends_with, join, join_chars,
    string_of, views,
};
use crate::types::{IdeSkill, LocalSkill};
use vstd::prelude::*;

verus! {

/// What a link target already holds under the skill's name.
#[derive(Debug, Clone, Copy, PartialEq, Eq, Structural)]
pub enum ExistingEntry {
    /// A link to this very skill.
    LinkedHere,
    /// A synced copy of this very skill.
    SyncedHere,
    /// Something else.
    Occupied,
}

pub open spec fn existing_entry_note_of(target_name: Seq<char>, existing: ExistingEntry) -> Seq<char> {
    target_name + match existing {
        ExistingEntry::LinkedHere => ": already linked"@,
        ExistingEntry::SyncedHere => ": already synced"@,
        ExistingEntry::Occupied => ": target already exists"@,
    }
}

/// The note for a link target that is skipped because its entry exists.
pub fn existing_entry_note(target_name: &str, existing: ExistingEntry) -> (r: String)
    ensures
        r@ == existing_entry_note_of(target_name@, existing),
{
    let suffix = match existing {
        ExistingEntry::LinkedHere => ": already linked",
        ExistingEntry::SyncedHere => ": already synced",
        ExistingEntry::Occupied => ": target already exists",
    };
    crate::text::concat2(target_name, suffix)
}

/// How a skill was made to appear in a target directory.
#[derive(Debug, Clone, Copy, PartialEq, Eq, Structural)]
pub enum LinkKind {
    Symlink,
    /// A copy with a marker that names the managed skill.
    SyncedCopy,
    /// A directory junction.
    Junction,
}

pub open spec fn linked_note_of(target_name: Seq<char>, kind: LinkKind, link_path: Seq<char>) -> Seq<
    char,
> {
    target_name + match kind {
        LinkKind::Symlink => ": "@,
        LinkKind::SyncedCopy => ": synced "@,
        LinkKind::Junction => ": junction "@,
    } + link_path
}

/// The note for a link target where the skill now appears.
pub fn linked_note(target_name: &str, kind: LinkKind, link_path: &str) -> (r: String)
    ensures
        r@ == linked_note_of(target_name@, kind, link_path@),
{
    let middle = match kind {
        LinkKind::Symlink => ": ",
        LinkKind::SyncedCopy => ": synced ",
        LinkKind::Junction => ": junction ",
    };
    let a = crate::text::concat2(target_name, middle);
    crate::text::concat2(a.as_str(), link_path)
}

/// The detail of a failure from the errors of each way tried: joined by
/// `"; "`, or `unknown error` where there are none.
pub open spec fn failure_detail(errors: Seq<Seq<char>>) -> Seq<char> {
    if errors.len() == 0 {
        "unknown error"@
    } else {
        join(errors, "; "@)
    }
}

fn failure_detail_text(errors: &Vec<String>) -> (r: String)
    ensures
        r@ == failure_detail(string_views(errors@)),
{
    if errors.len() == 0 {
        return String::from_str("unknown error");
    }
    let mut parts: Vec<Vec<char>> = Vec::new();
    let mut i: usize = 0;
    while i < errors.len()
        invariant
            i <= errors.len(),
            views(parts@) == string_views(errors@).subrange(0, i as int),
        decreases errors.len() - i,
    {
        let p = chars_of(errors[i].as_str());
        proof {
            crate::text::lemma_views_push(parts@, p);
        }
        parts.push(p);
        assert(string_views(errors@).subrange(0, i + 1) =~= string_views(errors@).subrange(
            0,
            i as int,
        ).push(errors@[i as int]@));
        i += 1;
    }
    assert(string_views(errors@).subrange(0, errors.len() as int) =~= string_views(errors@));
    let sep = chars_of("; ");
    let joined = join_chars(&parts, &sep);
    string_of(&joined)
}

pub open spec fn link_failure_message_of(
    skill_name: Seq<char>,
    target_name: Seq<char>,
    errors: Seq<Seq<char>>,
) -> Seq<char> {
    "Failed to create a link for "@ + skill_name + " in "@ + target_name + ": "@ + failure_detail(
        errors,
    )
}

/// The error of a link request when no way of linking worked for a target.
pub fn link_failure_message(skill_name: &str, target_name: &str, errors: &Vec<String>) -> (r: String)
    ensures
        r@ == link_failure_message_of(skill_name@, target_name@, string_views(errors@)),
{
    let detail = failure_detail_text(errors);
    let a = crate::text::concat2("Failed to create a link for ", skill_name);
    let b = crate::text::concat2(a.as_str(), " in ");
    let c = crate::text::concat2(b.as_str(), target_name);
    let d = crate::text::concat2(c.as_str(), ": ");
    crate::text::concat2(d.as_str(), detail.as_str())
}

/// The error for a link target outside the home and project directories.
pub fn target_outside_message(target_name: &str) -> (r: String)
    ensures
        r@ == "Target directory is outside the allowed directories: "@ + target_name@,
{
    crate::text::concat2("Target directory is outside the allowed directories: ", target_name)
}

/// The error for a link target that resolves outside the home and project
/// directories.
pub fn target_unsafe_message(target_name: &str) -> (r: String)
    ensures
        r@ == "Target directory failed the path safety check: "@ + target_name@,
{
    crate::text::concat2("Target directory failed the path safety check: ", target_name)
}

/// Targets into which a skill is copied rather than linked: on Windows, the
/// `.qoder/skills` directories, whatever the case and the slashes.
pub open spec fn copies_for_target(target_dir: Seq<char>) -> bool {
    ends_with(
        ascii_lower(target_dir.map_values(|c: char| if c == '\\' { '/' } else { c })),
        "/.qoder/skills"@,
    )
}

pub fn should_copy_for_target(target_dir: &str) -> (r: bool)
    ensures
        r == copies_for_target(target_dir@),
{
    let v = chars_of(target_dir);
    let mut w: Vec<char> = Vec::new();
    let mut i: usize = 0;
    while i < v.len()
        invariant
            i <= v.len(),
            w@ == ascii_lower(
                v@.subrange(0, i as int).map_values(|c: char| if c == '\\' { '/' } else { c }),
            ),
        decreases v.len() - i,
    {
        let c = if v[i] == '\\' {
            '/'
        } else {
            v[i]
        };
        w.push(char_to_ascii_lower(c));
        assert(v@.subrange(0, i + 1).map_values(|c: char| if c == '\\' { '/' } else { c })
            =~= v@.subrange(0, i as int).map_values(|c: char| if c == '\\' { '/' } else { c }).push(
            c,
        ));
        assert(w@ =~= ascii_lower(
            v@.subrange(0, i + 1).map_values(|c: char| if c == '\\' { '/' } else { c }),
        ));
        i += 1;
    }
    assert(v@.subrange(0, v.len() as int) =~= v@);
    let suffix = chars_of("/.qoder/skills");
    chars_ends_with(&w, &suffix)
}

/// The message of an adoption of an IDE skill that already is the managed
/// one.
pub fn adopt_already_managed(name: &str) -> (r: String)
    ensures
        r@ == name@ + " is already managed"@,
{
    crate::text::concat2(name, " is already managed")
}

/// The refusal of an adoption whose name is taken in the store by a skill
/// with other contents.
pub fn adopt_conflict(name: &str) -> (r: String)
    ensures
        r@ == name@ + " is already managed with different contents"@,
{
    crate::text::concat2(name, " is already managed with different contents")
}

/// The message of an adoption whose link back into the IDE worked.
pub fn adopt_relinked(name: &str, ide_label: &str) -> (r: String)
    ensures
        r@ == "Managed "@ + name@ + " and re-linked it to "@ + ide_label@,
{
    let a = crate::text::concat2("Managed ", name);
    let b = crate::text::concat2(a.as_str(), " and re-linked it to ");
    crate::text::concat2(b.as_str(), ide_label)
}

pub open spec fn adopt_copy_restored_of(
    name: Seq<char>,
    ide_label: Seq<char>,
    errors: Seq<Seq<char>>,
) -> Seq<char> {
    "Managed "@ + name + " in Skills Manager, but failed to create a link for "@ + ide_label
        + ". Restored a local copy instead. "@ + failure_detail(errors)
}

/// The error of an adoption whose link back into the IDE failed, after a
/// copy was put back in the link's place.
pub fn adopt_copy_restored(name: &str, ide_label: &str, errors: &Vec<String>) -> (r: String)
    ensures
        r@ == adopt_copy_restored_of(name@, ide_label@, string_views(errors@)),
{
    let detail = failure_detail_text(errors);
    let a = crate::text::concat2("Managed ", name);
    let b = crate::text::concat2(a.as_str(), " in Skills Manager, but failed to create a link for ");
    let c = crate::text::concat2(b.as_str(), ide_label);
    let d = crate::text::concat2(c.as_str(), ". Restored a local copy instead. ");
    crate::text::concat2(d.as_str(), detail.as_str())
}

/// The message of an uninstall: a link or a whole directory was removed.
pub fn removal_message(was_link: bool) -> (r: String)
    ensures
        r@ == if was_link {
            "Link removed"@
        } else {
            "Directory removed"@
        },
{
    if was_link {
        String::from_str("Link removed")
    } else {
        String::from_str("Directory removed")
    }
}

/// A skill's list of IDEs after `label` is added to it: unchanged where it
/// is there already.
pub open spec fn with_user(used_by: Seq<Seq<char>>, label: Seq<char>) -> Seq<Seq<char>> {
    if used_by.contains(label) {
        used_by
    } else {
        used_by.push(label)
    }
}

/// Records that the IDE `label` uses the skill.
pub fn add_used_by(skill: &mut LocalSkill, label: &str)
    ensures
        string_views(final(skill).used_by@) == with_user(string_views(old(skill).used_by@), label@),
        final(skill).id == old(skill).id,
        final(skill).uuid == old(skill).uuid,
        final(skill).name == old(skill).name,
        final(skill).description == old(skill).description,
        final(skill).path == old(skill).path,
        final(skill).source == old(skill).source,
        final(skill).source_url == old(skill).source_url,
        final(skill).ide == old(skill).ide,
{
    let l = String::from_str(label);
    if !strings_contain(&skill.used_by, &l) {
        skill.used_by.push(l);
        assert(string_views(skill.used_by@) =~= string_views(old(skill).used_by@).push(label@));
    }
}

/// The position in `manager_paths` of the first managed skill at `target`.
pub open spec fn first_match(manager_paths: Seq<(Seq<char>, usize)>, target: Seq<char>) -> Option<int>
    decreases manager_paths.len(),
{
    if manager_paths.len() == 0 {
        None
    } else {
        match first_match(manager_paths.drop_last(), target) {
            Some(k) => Some(k),
            None => if manager_paths.last().0 == target {
                Some(manager_paths.len() - 1)
            } else {
                None
            },
        }
    }
}

pub open spec fn path_pairs(v: Seq<(String, usize)>) -> Seq<(Seq<char>, usize)> {
    v.map_values(|p: (String, usize)| (p.0@, p.1))
}

proof fn lemma_first_match(manager_paths: Seq<(Seq<char>, usize)>, target: Seq<char>)
    ensures
        match first_match(manager_paths, target) {
            Some(k) => 0 <= k < manager_paths.len() && manager_paths[k].0 == target && forall|j: int|
                0 <= j < k ==> (#[trigger] manager_paths[j]).0 != target,
            None => forall|j: int|
                0 <= j < manager_paths.len() ==> (#[trigger] manager_paths[j]).0 != target,
        },
    decreases manager_paths.len(),
{
    if manager_paths.len() > 0 {
        let dl = manager_paths.drop_last();
        lemma_first_match(dl, target);
        assert forall|j: int| 0 <= j < dl.len() implies dl[j] == manager_paths[j] by {}
    }
}

/// The position of the first managed skill at `target`.
fn find_manager_path(manager_paths: &Vec<(String, usize)>, target: &String) -> (r: Option<usize>)
    ensures
        match r {
            Some(i) => i < manager_paths.len() && first_match(path_pairs(manager_paths@), target@)
                == Some(i as int),
            None => first_match(path_pairs(manager_paths@), target@) is None,
        },
{
    proof {
        lemma_first_match(path_pairs(manager_paths@), target@);
    }
    let mut i: usize = 0;
    while i < manager_paths.len()
        invariant
            i <= manager_paths.len(),
            forall|j: int| 0 <= j < i ==> (#[trigger] path_pairs(manager_paths@)[j]).0 != target@,
        decreases manager_paths.len() - i,
    {
        if manager_paths[i].0 == *target {
            assert(path_pairs(manager_paths@)[i as int].0 == target@);
            proof {
                lemma_first_match(path_pairs(manager_paths@), target@);
                let m = first_match(path_pairs(manager_paths@), target@);
                if let Some(k) = m {
                    if k < i {
                        assert(path_pairs(manager_paths@)[k].0 != target@);
                    } else if k > i {
                        assert(path_pairs(manager_paths@)[i as int].0 != target@);
                    }
                }
            }
            return Some(i);
        }
        assert(path_pairs(manager_paths@)[i as int].0 != target@);
        i += 1;
    }
    None
}

/// What was found of one entry of an IDE skill directory.
pub struct IdeEntry {
    pub path: String,
    /// Whether the entry is a directory (a link is not).
    pub is_directory: bool,
    /// Whether the entry is a symbolic link.
    pub is_link: bool,
    /// Where the link leads, resolved, where it resolves.
    pub link_resolved: Option<String>,
    /// The managed skill a synced copy's marker names, if any.
    pub copy_target: Option<String>,
    pub has_skill_file: bool,
    /// The skill's name, or the entry's file name where it has no `SKILL.md`.
    pub name: String,
}

/// Whether an entry of an IDE directory is listed: a directory or a link
/// that holds a `SKILL.md`, is a link, or is a synced copy.
pub open spec fn entry_listed(e: IdeEntry) -> bool {
    (e.is_directory || e.is_link) && (e.has_skill_file || e.is_link || e.copy_target is Some)
}

/// The managed skill an entry stands for, if any: the one its link resolves
/// to, or for a synced copy the one its marker names.
pub open spec fn entry_points_at(e: IdeEntry) -> Option<Seq<char>> {
    if e.is_link {
        match e.link_resolved {
            Some(t) => Some(t@),
            None => None,
        }
    } else {
        match e.copy_target {
            Some(t) => Some(t@),
            None => None,
        }
    }
}

/// Where among the managed skills an entry's target is found.
pub open spec fn entry_match(e: IdeEntry, manager_paths: Seq<(Seq<char>, usize)>) -> Option<int> {
    match entry_points_at(e) {
        Some(t) => first_match(manager_paths, t),
        None => None,
    }
}

/// The position among the managed skills of the one a listed entry points
/// at, if any.
pub open spec fn updated_skill(e: IdeEntry, manager_paths: Seq<(Seq<char>, usize)>) -> Option<int> {
    if entry_listed(e) {
        match entry_match(e, manager_paths) {
            Some(k) => Some(manager_paths[k].1 as int),
            None => None,
        }
    } else {
        None
    }
}

/// Lists one entry of an IDE skill directory, and records on the managed
/// skill it points at (the first listed with that path) that the IDE uses
/// it. Entries that are neither skill directories, links nor synced copies
/// are not listed.
pub fn classify_ide_entry(
    entry: IdeEntry,
    ide_label: &str,
    manager_paths: &Vec<(String, usize)>,
    manager_skills: &mut Vec<LocalSkill>,
) -> (r: Option<IdeSkill>)
    ensures
        r is Some <==> entry_listed(entry),
        r matches Some(s) ==> {
            &&& s.id@ == entry.path@
            &&& s.path@ == entry.path@
            &&& s.name@ == entry.name@
            &&& s.ide@ == ide_label@
            &&& s.source@ == if entry.is_link || entry.copy_target is Some {
                "link"@
            } else {
                "local"@
            }
            &&& s.managed == entry_match(entry, path_pairs(manager_paths@)) is Some
        },
        final(manager_skills).len() == old(manager_skills).len(),
        forall|j: int|
            0 <= j < old(manager_skills).len() && updated_skill(entry, path_pairs(manager_paths@))
                != Some(j) ==> #[trigger] final(manager_skills)@[j] == old(manager_skills)@[j],
        updated_skill(entry, path_pairs(manager_paths@)) matches Some(j) ==> (j < old(
            manager_skills,
        ).len() ==> {
            &&& string_views(final(manager_skills)@[j].used_by@) == with_user(
                string_views(old(manager_skills)@[j].used_by@),
                ide_label@,
            )
            &&& final(manager_skills)@[j].id == old(manager_skills)@[j].id
            &&& final(manager_skills)@[j].uuid == old(manager_skills)@[j].uuid
            &&& final(manager_skills)@[j].name == old(manager_skills)@[j].name
            &&& final(manager_skills)@[j].description == old(manager_skills)@[j].description
            &&& final(manager_skills)@[j].path == old(manager_skills)@[j].path
            &&& final(manager_skills)@[j].source == old(manager_skills)@[j].source
            &&& final(manager_skills)@[j].source_url == old(manager_skills)@[j].source_url
            &&& final(manager_skills)@[j].ide == old(manager_skills)@[j].ide
        }),
{
    if !entry.is_directory && !entry.is_link {
        return None;
    }
    if !entry.has_skill_file && !entry.is_link && entry.copy_target.is_none() {
        return None;
    }
    let target: Option<&String> = if entry.is_link {
        entry.link_resolved.as_ref()
    } else {
        entry.copy_target.as_ref()
    };
    let found = match target {
        Some(t) => find_manager_path(manager_paths, t),
        None => None,
    };
    let managed = found.is_some();
    match found {
        Some(k) => {
            let idx = manager_paths[k].1;
            if idx < manager_skills.len() {
                let mut skill = manager_skills.remove(idx);
                add_used_by(&mut skill, ide_label);
                manager_skills.insert(idx, skill);
                assert forall|j: int|
                    0 <= j < manager_skills.len() && j != idx implies #[trigger] manager_skills@[j]
                    == old(manager_skills)@[j] by {}
            }
        },
        None => {},
    }
    let source = if entry.is_link || entry.copy_target.is_some() {
        String::from_str("link")
    } else {
        String::from_str("local")
    };
    let id = entry.path.clone();
    Some(
        IdeSkill {
            id,
            name: entry.name,
            path: entry.path,
            ide: String::from_str(ide_label),
            source,
            managed,
        },
    )
}

/// An IDE directory: its label and its path under the home directory.
pub struct IdeDirSpec {
    pub label: String,
    pub relative_dir: String,
}

/// The IDE skill directories looked at where the request names none, each
/// under the home directory.
pub fn default_ide_dirs() -> (r: Vec<IdeDirSpec>)
    ensures
        r.len() == 9,
        r@[0].label@ == "Antigravity"@ && r@[0].relative_dir@ == ".gemini/antigravity/skills"@,
        r@[1].label@ == "CodeBuddy"@ && r@[1].relative_dir@ == ".codebuddy/skills"@,
        r@[2].label@ == "Codex"@ && r@[2].relative_dir@ == ".codex/skills"@,
        r@[3].label@ == "Cursor"@ && r@[3].relative_dir@ == ".cursor/skills"@,
        r@[4].label@ == "Kiro"@ && r@[4].relative_dir@ == ".kiro/skills"@,
        r@[5].label@ == "Qoder"@ && r@[5].relative_dir@ == ".qoder/skills"@,
        r@[6].label@ == "Trae"@ && r@[6].relative_dir@ == ".trae/skills"@,
        r@[7].label@ == "VSCode"@ && r@[7].relative_dir@ == ".github/skills"@,
        r@[8].label@ == "Windsurf"@ && r@[8].relative_dir@ == ".windsurf/skills"@,
{
    let pairs = vec![
        ("Antigravity", ".gemini/antigravity/skills"),
        ("CodeBuddy", ".codebuddy/skills"),
        ("Codex", ".codex/skills"),
        ("Cursor", ".cursor/skills"),
        ("Kiro", ".kiro/skills"),
        ("Qoder", ".qoder/skills"),
        ("Trae", ".trae/skills"),
        ("VSCode", ".github/skills"),
        ("Windsurf", ".windsurf/skills"),
    ];
    dir_specs(&pairs)
}

/// The IDE skill directories a project is searched for, each with the label
/// it is shown under.
pub fn project_ide_patterns() -> (r: Vec<IdeDirSpec>)
    ensures
        r.len() == 11,
        r@[0].label@ == "Antigravity"@ && r@[0].relative_dir@ == ".gemini/antigravity/skills"@,
        r@[1].label@ == "CodeBuddy"@ && r@[1].relative_dir@ == ".codebuddy/skills"@,
        r@[2].label@ == "Codex"@ && r@[2].relative_dir@ == ".codex/skills"@,
        r@[3].label@ == "Cursor"@ && r@[3].relative_dir@ == ".cursor/skills"@,
        r@[4].label@ == "Kiro"@ && r@[4].relative_dir@ == ".kiro/skills"@,
        r@[5].label@ == "OpenClaw"@ && r@[5].relative_dir@ == ".openclaw/skills"@,
        r@[6].label@ == "OpenCode"@ && r@[6].relative_dir@ == ".opencode/skills"@,
        r@[7].label@ == "Qoder"@ && r@[7].relative_dir@ == ".qoder/skills"@,
        r@[8].label@ == "Trae"@ && r@[8].relative_dir@ == ".trae/skills"@,
        r@[9].label@ == "VSCode"@ && r@[9].relative_dir@ == ".github/skills"@,
        r@[10].label@ == "Windsurf"@ && r@[10].relative_dir@ == ".windsurf/skills"@,
{
    let pairs = vec![
        ("Antigravity", ".gemini/antigravity/skills"),
        ("CodeBuddy", ".codebuddy/skills"),
        ("Codex", ".codex/skills"),
        ("Cursor", ".cursor/skills"),
        ("Kiro", ".kiro/skills"),
        ("OpenClaw", ".openclaw/skills"),
        ("OpenCode", ".opencode/skills"),
        ("Qoder", ".qoder/skills"),
        ("Trae", ".trae/skills"),
        ("VSCode", ".github/skills"),
        ("Windsurf", ".windsurf/skills"),
    ];
    dir_specs(&pairs)
}

/// The directories inside a project from which an uninstall may remove
/// skills.
pub fn project_uninstall_dirs() -> (r: Vec<String>)
    ensures
        string_views(r@) == seq![
            ".codex/skills"@,
            ".trae/skills"@,
            ".opencode/skills"@,
            ".skills-manager/skills"@,
        ],
{
    let r = vec![
        String::from_str(".codex/skills"),
        String::from_str(".trae/skills"),
        String::from_str(".opencode/skills"),
        String::from_str(".skills-manager/skills"),
    ];
    assert(string_views(r@) =~= seq![
        ".codex/skills"@,
        ".trae/skills"@,
        ".opencode/skills"@,
        ".skills-manager/skills"@,
    ]);
    r
}

fn dir_specs(pairs: &Vec<(&str, &str)>) -> (r: Vec<IdeDirSpec>)
    ensures
        r.len() == pairs.len(),
        forall|i: int|
            0 <= i < pairs.len() ==> (#[trigger] r@[i]).label@ == pairs@[i].0@
                && r@[i].relative_dir@ == pairs@[i].1@,
{
    let mut r: Vec<IdeDirSpec> = Vec::new();
    let mut i: usize = 0;
    while i < pairs.len()
        invariant
            i <= pairs.len(),
            r.len() == i,
            forall|k: int|
                0 <= k < i ==> (#[trigger] r@[k]).label@ == pairs@[k].0@ && r@[k].relative_dir@
                    == pairs@[k].1@,
        decreases pairs.len() - i,
    {
        let (label, dir) = pairs[i];
        r.push(IdeDirSpec { label: String::from_str(label), relative_dir: String::from_str(dir) });
        i += 1;
    }
    r
}

/// Recording that an IDE uses a skill lists that IDE once: a list without
/// repeats stays without repeats, holds the IDE afterwards, and recording it
/// again changes nothing.
pub proof fn law_used_by_lists_each_ide_once(used_by: Seq<Seq<char>>, label: Seq<char>)
    requires
        used_by.no_duplicates(),
    ensures
        with_user(used_by, label).no_duplicates(),
        with_user(used_by, label).contains(label),
        with_user(with_user(used_by, label), label) == with_user(used_by, label),
{
    let w = with_user(used_by, label);
    if !used_by.contains(label) {
        assert(w[w.len() - 1] == label);
        assert forall|i: int, j: int| 0 <= i < w.len() && 0 <= j < w.len() && i != j implies w[i]
            != w[j] by {
            if i == w.len() - 1 {
                assert(used_by[j] == w[j]);
            } else if j == w.len() - 1 {
                assert(used_by[i] == w[i]);
            } else {
                assert(used_by[i] == w[i] && used_by[j] == w[j]);
            }
        }
    }
}

/// Whether a path, given by its components, lies inside one of `roots`
/// (each given by its components): some root is a prefix of it.
pub open spec fn within_any_root(path: Seq<Seq<char>>, roots: Seq<Seq<Seq<char>>>) -> bool {
    exists|i: int| 0 <= i < roots.len() && (#[trigger] roots[i]).is_prefix_of(path)
}

pub open spec fn root_views(roots: Seq<Vec<String>>) -> Seq<Seq<Seq<char>>> {
    roots.map_values(|r: Vec<String>| string_views(r@))
}

fn is_component_prefix(root: &Vec<String>, path: &Vec<String>) -> (r: bool)
    ensures
        r == string_views(root@).is_prefix_of(string_views(path@)),
{
    if root.len() > path.len() {
        return false;
    }
    let mut i: usize = 0;
    while i < root.len()
        invariant
            i <= root.len(),
            root.len() <= path.len(),
            forall|k: int| 0 <= k < i ==> root@[k]@ == path@[k]@,
        decreases root.len() - i,
    {
        if !(root[i] == path[i]) {
            assert(string_views(root@)[i as int] != string_views(path@).subrange(
                0,
                root.len() as int,
            )[i as int]);
            return false;
        }
        i += 1;
    }
    assert(string_views(root@) =~= string_views(path@).subrange(0, root.len() as int));
    true
}

/// Whether a path lies inside one of the allowed roots, comparing whole
/// components (as `Path::starts_with` does), after both were normalized.
pub fn path_within_any_root(path: &Vec<String>, roots: &Vec<Vec<String>>) -> (r: bool)
    ensures
        r == within_any_root(string_views(path@), root_views(roots@)),
{
    let ghost rv = root_views(roots@);
    let mut i: usize = 0;
    while i < roots.len()
        invariant
            i <= roots.len(),
            rv == root_views(roots@),
            forall|k: int| 0 <= k < i ==> !(#[trigger] rv[k]).is_prefix_of(string_views(path@)),
        decreases roots.len() - i,
    {
        if is_component_prefix(&roots[i], path) {
            assert(rv[i as int] == string_views(roots@[i as int]@));
            assert(rv[i as int].is_prefix_of(string_views(path@)));
            return true;
        }
        assert(rv[i as int] == string_views(roots@[i as int]@));
        i += 1;
    }
    false
}

/// A path's components normalized without touching the disk: the first
/// `anchor` components (its prefix and root) stay; after them `.` is
/// dropped and `..` removes the component before it where there is one
/// after the anchor, else it is kept.
pub open spec fn normalized_prefix(parts: Seq<Seq<char>>, anchor: int, n: int) -> Seq<Seq<char>>
    decreases n,
{
    if n <= anchor || n <= 0 {
        parts.subrange(0, if n < 0 { 0 } else { n })
    } else {
        let out = normalized_prefix(parts, anchor, n - 1);
        let c = parts[n - 1];
        if c == "."@ {
            out
        } else if c == ".."@ {
            if out.len() > anchor {
                out.drop_last()
            } else {
                out.push(c)
            }
        } else {
            out.push(c)
        }
    }
}

proof fn lemma_normalized_keeps_anchor(parts: Seq<Seq<char>>, anchor: int, n: int)
    requires
        0 <= anchor <= n <= parts.len(),
    ensures
        normalized_prefix(parts, anchor, n).len() >= anchor,
    decreases n,
{
    if n > anchor {
        lemma_normalized_keeps_anchor(parts, anchor, n - 1);
    }
}

/// The normalized components of a path (see `normalized_prefix`).
pub fn normalize_components(parts: &Vec<String>, anchor: usize) -> (r: Vec<String>)
    requires
        anchor <= parts.len(),
    ensures
        string_views(r@) == normalized_prefix(string_views(parts@), anchor as int, parts.len() as int),
{
    let ghost pv = string_views(parts@);
    let dot = String::from_str(".");
    let up = String::from_str("..");
    proof {
        reveal_strlit(".");
        reveal_strlit("..");
    }
    let mut out: Vec<String> = Vec::new();
    let mut i: usize = 0;
    while i < anchor
        invariant
            i <= anchor <= parts.len(),
            pv == string_views(parts@),
            string_views(out@) == pv.subrange(0, i as int),
        decreases anchor - i,
    {
        let ghost before = out@;
        out.push(parts[i].clone());
        assert(string_views(out@) =~= string_views(before).push(pv[i as int]));
        assert(pv.subrange(0, i + 1) =~= pv.subrange(0, i as int).push(pv[i as int]));
        i += 1;
    }
    while i < parts.len()
        invariant
            anchor <= i <= parts.len(),
            pv == string_views(parts@),
            dot@ == "."@,
            up@ == ".."@,
            string_views(out@) == normalized_prefix(pv, anchor as int, i as int),
        decreases parts.len() - i,
    {
        proof {
            lemma_normalized_keeps_anchor(pv, anchor as int, i as int);
        }
        let ghost before = out@;
        if parts[i] == dot {
        } else if parts[i] == up {
            if out.len() > anchor {
                out.pop();
                assert(string_views(out@) =~= string_views(before).drop_last());
            } else {
                out.push(parts[i].clone());
                assert(string_views(out@) =~= string_views(before).push(pv[i as int]));
            }
        } else {
            out.push(parts[i].clone());
            assert(string_views(out@) =~= string_views(before).push(pv[i as int]));
        }
        i += 1;
    }
    out
}

pub open spec fn outside_allowed_message() -> Seq<char> {
    "Target path is outside the allowed directories"@
}

/// What an uninstall removes: refused unless the target's parent lies in an
/// allowed root; then the link alone (`Ok(true)`) where the target is a
/// symbolic link, else the whole directory (`Ok(false)`).
pub fn uninstall_decision(parent: &Vec<String>, roots: &Vec<Vec<String>>, is_symlink: bool) -> (r:
    Result<bool, String>)
    ensures
        within_any_root(string_views(parent@), root_views(roots@)) ==> r == Ok::<bool, String>(
            is_symlink,
        ),
        !within_any_root(string_views(parent@), root_views(roots@)) ==> (r matches Err(e) && e@
            == outside_allowed_message()),
{
    if path_within_any_root(parent, roots) {
        Ok(is_symlink)
    } else {
        Err(String::from_str("Target path is outside the allowed directories"))
    }
}

/// What a link request knows of itself for each target: the skill's name,
/// the target's name and the path of the link to make there, whether the
/// target takes a synced copy first, and whether junctions can be made.
pub struct LinkContext {
    pub skill_name: String,
    pub target_name: String,
    pub link_path: String,
    pub copy_first: bool,
    pub junction_available: bool,
}

/// The next thing a link request does for one target.
pub enum LinkAction {
    /// Check the target directory and what it holds under the skill's name.
    CheckTarget,
    /// Copy the skill there with a marker naming the managed skill.
    TryCopy,
    /// Make a symbolic link, after the errors of the ways tried so far.
    TrySymlink(Vec<String>),
    /// Make a directory junction, after the errors of the ways tried so far.
    TryJunction(Vec<String>),
    /// The skill appears in the target; the note says how.
    Linked(String),
    /// The target is passed over; the note says why.
    Skipped(String),
    /// The request stops with this error.
    Fail(String),
}

/// What the outside work of a link action found.
pub enum LinkEvent {
    /// The target directory: whether it lies in the allowed roots as given
    /// and as resolved, and what already sits under the skill's name.
    Checked { within_allowed: bool, resolved_within_allowed: bool, existing: Option<ExistingEntry> },
    /// The way tried worked.
    Created,
    /// Copying failed with this error.
    CopyFailed(String),
    /// Writing the marker of a copy failed with this error (the copy is
    /// removed again).
    MarkerFailed(String),
    /// Making the symbolic link failed with this error.
    SymlinkFailed(String),
    /// Making the junction failed with this error.
    JunctionFailed(String),
}

/// Whether an event answers an action.
pub open spec fn link_event_fits(done: LinkAction, event: LinkEvent) -> bool {
    match done {
        LinkAction::CheckTarget => event is Checked,
        LinkAction::TryCopy => event is Created || event is CopyFailed || event is MarkerFailed,
        LinkAction::TrySymlink(_) => event is Created || event is SymlinkFailed,
        LinkAction::TryJunction(_) => event is Created || event is JunctionFailed,
        _ => false,
    }
}

/// A link action as plain values.
pub enum LinkActionView {
    CheckTarget,
    TryCopy,
    TrySymlink(Seq<Seq<char>>),
    TryJunction(Seq<Seq<char>>),
    Linked(Seq<char>),
    Skipped(Seq<char>),
    Fail(Seq<char>),
}

pub open spec fn link_action_view(a: LinkAction) -> LinkActionView {
    match a {
        LinkAction::CheckTarget => LinkActionView::CheckTarget,
        LinkAction::TryCopy => LinkActionView::TryCopy,
        LinkAction::TrySymlink(e) => LinkActionView::TrySymlink(string_views(e@)),
        LinkAction::TryJunction(e) => LinkActionView::TryJunction(string_views(e@)),
        LinkAction::Linked(n) => LinkActionView::Linked(n@),
        LinkAction::Skipped(n) => LinkActionView::Skipped(n@),
        LinkAction::Fail(m) => LinkActionView::Fail(m@),
    }
}

/// After a symbolic link failed with the given errors: a junction where
/// one can be made, else the request fails.
pub open spec fn after_symlink(ctx: LinkContext, errors: Seq<Seq<char>>) -> LinkActionView {
    if ctx.junction_available {
        LinkActionView::TryJunction(errors)
    } else {
        LinkActionView::Fail(link_failure_message_of(ctx.skill_name@, ctx.target_name@, errors))
    }
}

/// How linking into one target goes on: a target outside the allowed roots
/// (as given or as resolved) stops the request; an existing entry is
/// skipped with a note; otherwise a synced copy (where the target takes
/// one), then a symbolic link, then a junction (where available) are tried
/// in turn, each failure's error kept, until one works or none is left.
pub open spec fn link_next(ctx: LinkContext, done: LinkAction, event: LinkEvent) -> LinkActionView {
    match done {
        LinkAction::CheckTarget => match event {
            LinkEvent::Checked { within_allowed, resolved_within_allowed, existing } => if !within_allowed {
                LinkActionView::Fail("Target directory is outside the allowed directories: "@
                    + ctx.target_name@)
            } else if !resolved_within_allowed {
                LinkActionView::Fail("Target directory failed the path safety check: "@
                    + ctx.target_name@)
            } else {
                match existing {
                    Some(e) => LinkActionView::Skipped(existing_entry_note_of(ctx.target_name@, e)),
                    None => if ctx.copy_first {
                        LinkActionView::TryCopy
                    } else {
                        LinkActionView::TrySymlink(seq![])
                    },
                }
            },
            _ => LinkActionView::TrySymlink(seq![]),
        },
        LinkAction::TryCopy => match event {
            LinkEvent::Created => LinkActionView::Linked(
                linked_note_of(ctx.target_name@, LinkKind::SyncedCopy, ctx.link_path@),
            ),
            LinkEvent::MarkerFailed(e) => LinkActionView::TrySymlink(seq!["copy marker: "@ + e@]),
            LinkEvent::CopyFailed(e) => LinkActionView::TrySymlink(seq!["copy: "@ + e@]),
            _ => LinkActionView::TrySymlink(seq![]),
        },
        LinkAction::TrySymlink(errors) => match event {
            LinkEvent::Created => LinkActionView::Linked(
                linked_note_of(ctx.target_name@, LinkKind::Symlink, ctx.link_path@),
            ),
            LinkEvent::SymlinkFailed(e) => after_symlink(
                ctx,
                string_views(errors@).push("symlink: "@ + e@),
            ),
            _ => after_symlink(ctx, string_views(errors@)),
        },
        _ => match event {
            LinkEvent::Created => LinkActionView::Linked(
                linked_note_of(ctx.target_name@, LinkKind::Junction, ctx.link_path@),
            ),
            LinkEvent::JunctionFailed(e) => LinkActionView::Fail(
                link_failure_message_of(
                    ctx.skill_name@,
                    ctx.target_name@,
                    (match done {
                        LinkAction::TryJunction(errors) => string_views(errors@),
                        _ => seq![],
                    }).push("junction: "@ + e@),
                ),
            ),
            _ => LinkActionView::Fail(""@),
        },
    }
}

fn push_error(errors: Vec<String>, prefix: &str, e: &str) -> (r: Vec<String>)
    ensures
        string_views(r@) == string_views(errors@).push(prefix@ + e@),
{
    let ghost before = errors@;
    let mut errors = errors;
    errors.push(crate::text::concat2(prefix, e));
    assert(string_views(errors@) =~= string_views(before).push(prefix@ + e@));
    errors
}

/// The next action of a link request for one target (see `link_next`).
pub fn link_step(ctx: &LinkContext, done: LinkAction, event: LinkEvent) -> (r: LinkAction)
    requires
        link_event_fits(done, event),
    ensures
        link_action_view(r) == link_next(*ctx, done, event),
{
    match done {
        LinkAction::CheckTarget => match event {
            LinkEvent::Checked { within_allowed, resolved_within_allowed, existing } => {
                if !within_allowed {
                    LinkAction::Fail(target_outside_message(ctx.target_name.as_str()))
                } else if !resolved_within_allowed {
                    LinkAction::Fail(target_unsafe_message(ctx.target_name.as_str()))
                } else {
                    match existing {
                        Some(e) => LinkAction::Skipped(existing_entry_note(ctx.target_name.as_str(), e)),
                        None => if ctx.copy_first {
                            LinkAction::TryCopy
                        } else {
                            let v: Vec<String> = Vec::new();
                            assert(string_views(v@) =~= Seq::<Seq<char>>::empty());
                            LinkAction::TrySymlink(v)
                        },
                    }
                }
            },
            _ => {
                let v: Vec<String> = Vec::new();
                assert(string_views(v@) =~= Seq::<Seq<char>>::empty());
                LinkAction::TrySymlink(v)
            },
        },
        LinkAction::TryCopy => match event {
            LinkEvent::Created => LinkAction::Linked(
                linked_note(ctx.target_name.as_str(), LinkKind::SyncedCopy, ctx.link_path.as_str()),
            ),
            LinkEvent::MarkerFailed(e) => {
                let v: Vec<String> = Vec::new();
                assert(string_views(v@) =~= Seq::<Seq<char>>::empty());
                let r = push_error(v, "copy marker: ", e.as_str());
                assert(string_views(r@) =~= seq!["copy marker: "@ + e@]);
                LinkAction::TrySymlink(r)
            },
            LinkEvent::CopyFailed(e) => {
                let v: Vec<String> = Vec::new();
                assert(string_views(v@) =~= Seq::<Seq<char>>::empty());
                let r = push_error(v, "copy: ", e.as_str());
                assert(string_views(r@) =~= seq!["copy: "@ + e@]);
                LinkAction::TrySymlink(r)
            },
            _ => {
                let v: Vec<String> = Vec::new();
                assert(string_views(v@) =~= Seq::<Seq<char>>::empty());
                LinkAction::TrySymlink(v)
            },
        },
        LinkAction::TrySymlink(errors) => match event {
            LinkEvent::Created => LinkAction::Linked(
                linked_note(ctx.target_name.as_str(), LinkKind::Symlink, ctx.link_path.as_str()),
            ),
            LinkEvent::SymlinkFailed(e) => {
                let errors = push_error(errors, "symlink: ", e.as_str());
                if ctx.junction_available {
                    LinkAction::TryJunction(errors)
                } else {
                    LinkAction::Fail(
                        link_failure_message(ctx.skill_name.as_str(), ctx.target_name.as_str(), &errors),
                    )
                }
            },
            _ => {
                if ctx.junction_available {
                    LinkAction::TryJunction(errors)
                } else {
                    LinkAction::Fail(
                        link_failure_message(ctx.skill_name.as_str(), ctx.target_name.as_str(), &errors),
                    )
                }
            },
        },
        LinkAction::TryJunction(errors) => match event {
            LinkEvent::Created => LinkAction::Linked(
                linked_note(ctx.target_name.as_str(), LinkKind::Junction, ctx.link_path.as_str()),
            ),
            LinkEvent::JunctionFailed(e) => {
                let errors = push_error(errors, "junction: ", e.as_str());
                LinkAction::Fail(
                    link_failure_message(ctx.skill_name.as_str(), ctx.target_name.as_str(), &errors),
                )
            },
            _ => LinkAction::Fail(String::new()),
        },
        _ => LinkAction::Fail(String::new()),
    }
}

/// A link request creates something in a target (a copy, a link or a
/// junction) only after the target was found inside the allowed roots, as
/// given and as resolved, with nothing under the skill's name.
pub proof fn law_link_creates_only_in_safe_free_targets(
    ctx: LinkContext,
    within_allowed: bool,
    resolved_within_allowed: bool,
    existing: Option<ExistingEntry>,
)
    ensures
        ({
            let next = link_next(
                ctx,
                LinkAction::CheckTarget,
                LinkEvent::Checked { within_allowed, resolved_within_allowed, existing },
            );
            (next is TryCopy || next is TrySymlink) ==> within_allowed && resolved_within_allowed
                && existing is None
        }),
{
}

/// What an adoption knows of itself: the IDE's label and whether junctions
/// can be made.
pub struct AdoptContext {
    pub ide_label: String,
    pub junction_available: bool,
}

/// The next thing an adoption of an IDE skill does.
pub enum AdoptAction {
    /// Look at the IDE entry and at the managed directory of its name.
    Inspect,
    /// Copy the IDE skill (named as given) into the store.
    CopyIn(String),
    /// Remove the IDE entry.
    RemoveOriginal(String),
    /// Put a symbolic link to the managed skill in the entry's place.
    Link(String),
    /// Put a junction there, after the errors of the ways tried so far.
    LinkJunction(String, Vec<String>),
    /// Put a copy of the managed skill back in the entry's place, after the
    /// errors of the ways of linking tried.
    RestoreCopy(String, Vec<String>),
    /// The adoption ends with this reply.
    Done(Result<String, String>),
}

/// What the outside work of an adoption action found.
pub enum AdoptEvent {
    /// The IDE entry: whether it lies inside the home directory and exists,
    /// its resolved path, whether it holds a `SKILL.md`, the skill's name;
    /// whether the managed directory of that name exists, with its resolved
    /// path; and whether the entry's files are those of that managed skill
    /// (its UUID line aside).
    Inspected {
        within_home: bool,
        present: bool,
        resolved: Option<String>,
        has_skill_file: bool,
        name: String,
        managed_present: bool,
        managed_resolved: Option<String>,
        same_as_managed: bool,
    },
    /// The step worked.
    Succeeded,
    /// The step failed with this error.
    Failed(String),
}

pub open spec fn adopt_event_fits(done: AdoptAction, event: AdoptEvent) -> bool {
    match done {
        AdoptAction::Inspect => event is Inspected,
        AdoptAction::Done(_) => false,
        _ => event is Succeeded || event is Failed,
    }
}

/// An adoption action as plain values.
pub enum AdoptActionView {
    Inspect,
    CopyIn(Seq<char>),
    RemoveOriginal(Seq<char>),
    Link(Seq<char>),
    LinkJunction(Seq<char>, Seq<Seq<char>>),
    RestoreCopy(Seq<char>, Seq<Seq<char>>),
    Done(Result<Seq<char>, Seq<char>>),
}

pub open spec fn adopt_action_view(a: AdoptAction) -> AdoptActionView {
    match a {
        AdoptAction::Inspect => AdoptActionView::Inspect,
        AdoptAction::CopyIn(n) => AdoptActionView::CopyIn(n@),
        AdoptAction::RemoveOriginal(n) => AdoptActionView::RemoveOriginal(n@),
        AdoptAction::Link(n) => AdoptActionView::Link(n@),
        AdoptAction::LinkJunction(n, e) => AdoptActionView::LinkJunction(n@, string_views(e@)),
        AdoptAction::RestoreCopy(n, e) => AdoptActionView::RestoreCopy(n@, string_views(e@)),
        AdoptAction::Done(r) => AdoptActionView::Done(
            match r {
                Ok(m) => Ok(m@),
                Err(m) => Err(m@),
            },
        ),
    }
}

pub open spec fn adopt_fail(m: Seq<char>) -> AdoptActionView {
    AdoptActionView::Done(Err(m))
}

/// After the symbolic link failed with the given errors: a junction where
/// one can be made, else the copy is put back.
pub open spec fn after_adopt_symlink(ctx: AdoptContext, name: Seq<char>, errors: Seq<Seq<char>>) -> AdoptActionView {
    if ctx.junction_available {
        AdoptActionView::LinkJunction(name, errors)
    } else {
        AdoptActionView::RestoreCopy(name, errors)
    }
}

/// How an adoption goes on: the entry must lie inside the home directory
/// and exist; where the managed directory of its name exists it must
/// resolve, an entry that already resolves to it is reported as managed, and
/// an entry with other files than it is refused (a dangling entry holds no
/// files); otherwise the entry must resolve and hold a `SKILL.md`, and is
/// copied in.
/// Then the entry is removed and a symbolic link (or else a junction) to the
/// managed skill takes its place; where no link can be made a copy is put
/// back and the errors are reported.
pub open spec fn adopt_next(ctx: AdoptContext, done: AdoptAction, event: AdoptEvent) -> AdoptActionView {
    match done {
        AdoptAction::Inspect => match event {
            AdoptEvent::Inspected {
                within_home,
                present,
                resolved,
                has_skill_file,
                name,
                managed_present,
                managed_resolved,
                same_as_managed,
            } => if !within_home {
                adopt_fail("IDE skill path must stay inside the home directory"@)
            } else if !present {
                adopt_fail("IDE skill path does not exist"@)
            } else if managed_present {
                match managed_resolved {
                    None => adopt_fail("Managed skill path does not exist"@),
                    Some(m) => if crate::importing::opt_view(resolved) == Some(m@) {
                        AdoptActionView::Done(Ok(name@ + " is already managed"@))
                    } else if resolved is None || same_as_managed {
                        AdoptActionView::RemoveOriginal(name@)
                    } else {
                        adopt_fail(name@ + " is already managed with different contents"@)
                    },
                }
            } else if resolved is None {
                adopt_fail("IDE skill path does not exist"@)
            } else if !has_skill_file {
                adopt_fail("Target directory does not contain SKILL.md"@)
            } else {
                AdoptActionView::CopyIn(name@)
            },
            _ => adopt_fail(""@),
        },
        AdoptAction::CopyIn(name) => match event {
            AdoptEvent::Failed(e) => adopt_fail(e@),
            _ => AdoptActionView::RemoveOriginal(name@),
        },
        AdoptAction::RemoveOriginal(name) => match event {
            AdoptEvent::Failed(e) => adopt_fail(e@),
            _ => AdoptActionView::Link(name@),
        },
        AdoptAction::Link(name) => match event {
            AdoptEvent::Failed(e) => after_adopt_symlink(ctx, name@, seq!["symlink: "@ + e@]),
            _ => AdoptActionView::Done(
                Ok("Managed "@ + name@ + " and re-linked it to "@ + ctx.ide_label@),
            ),
        },
        AdoptAction::LinkJunction(name, errors) => match event {
            AdoptEvent::Failed(e) => AdoptActionView::RestoreCopy(
                name@,
                string_views(errors@).push("junction: "@ + e@),
            ),
            _ => AdoptActionView::Done(
                Ok("Managed "@ + name@ + " and re-linked it to "@ + ctx.ide_label@),
            ),
        },
        AdoptAction::RestoreCopy(name, errors) => match event {
            AdoptEvent::Failed(e) => adopt_fail(e@),
            _ => adopt_fail(adopt_copy_restored_of(name@, ctx.ide_label@, string_views(errors@))),
        },
        AdoptAction::Done(_) => adopt_fail(""@),
    }
}

fn adopt_failure(message: &str) -> (r: AdoptAction)
    ensures
        adopt_action_view(r) == adopt_fail(message@),
{
    AdoptAction::Done(Err(String::from_str(message)))
}

/// The next action of an adoption (see `adopt_next`).
pub fn adopt_step(ctx: &AdoptContext, done: AdoptAction, event: AdoptEvent) -> (r: AdoptAction)
    requires
        adopt_event_fits(done, event),
    ensures
        adopt_action_view(r) == adopt_next(*ctx, done, event),
{
    match done {
        AdoptAction::Inspect => match event {
            AdoptEvent::Inspected {
                within_home,
                present,
                resolved,
                has_skill_file,
                name,
                managed_present,
                managed_resolved,
                same_as_managed,
            } => {
                if !within_home {
                    adopt_failure("IDE skill path must stay inside the home directory")
                } else if !present {
                    adopt_failure("IDE skill path does not exist")
                } else if managed_present {
                    match managed_resolved {
                        None => adopt_failure("Managed skill path does not exist"),
                        Some(m) => {
                            let same = match &resolved {
                                Some(t) => *t == m,
                                None => false,
                            };
                            if same {
                                AdoptAction::Done(Ok(adopt_already_managed(name.as_str())))
                            } else if resolved.is_none() || same_as_managed {
                                AdoptAction::RemoveOriginal(name)
                            } else {
                                AdoptAction::Done(Err(adopt_conflict(name.as_str())))
                            }
                        },
                    }
                } else if resolved.is_none() {
                    adopt_failure("IDE skill path does not exist")
                } else if !has_skill_file {
                    adopt_failure("Target directory does not contain SKILL.md")
                } else {
                    AdoptAction::CopyIn(name)
                }
            },
            _ => adopt_failure(""),
        },
        AdoptAction::CopyIn(name) => match event {
            AdoptEvent::Failed(e) => AdoptAction::Done(Err(e)),
            _ => AdoptAction::RemoveOriginal(name),
        },
        AdoptAction::RemoveOriginal(name) => match event {
            AdoptEvent::Failed(e) => AdoptAction::Done(Err(e)),
            _ => AdoptAction::Link(name),
        },
        AdoptAction::Link(name) => match event {
            AdoptEvent::Failed(e) => {
                let v: Vec<String> = Vec::new();
                assert(string_views(v@) =~= Seq::<Seq<char>>::empty());
                let errors = push_error(v, "symlink: ", e.as_str());
                assert(string_views(errors@) =~= seq!["symlink: "@ + e@]);
                if ctx.junction_available {
                    AdoptAction::LinkJunction(name, errors)
                } else {
                    AdoptAction::RestoreCopy(name, errors)
                }
            },
            _ => AdoptAction::Done(Ok(adopt_relinked(name.as_str(), ctx.ide_label.as_str()))),
        },
        AdoptAction::LinkJunction(name, errors) => match event {
            AdoptEvent::Failed(e) => {
                let errors = push_error(errors, "junction: ", e.as_str());
                AdoptAction::RestoreCopy(name, errors)
            },
            _ => AdoptAction::Done(Ok(adopt_relinked(name.as_str(), ctx.ide_label.as_str()))),
        },
        AdoptAction::RestoreCopy(name, errors) => match event {
            AdoptEvent::Failed(e) => AdoptAction::Done(Err(e)),
            _ => AdoptAction::Done(
                Err(adopt_copy_restored(name.as_str(), ctx.ide_label.as_str(), &errors)),
            ),
        },
        AdoptAction::Done(_) => adopt_failure(""),
    }
}

/// An adoption never loses the files of the IDE entry: it removes the entry
/// right after inspecting it only where the entry lies inside the home
/// directory and the managed skill of its name exists and already holds the
/// same files (or the entry is dangling and holds none); otherwise the entry
/// is removed only after being copied into the store, which needs a
/// `SKILL.md` and a free name.
pub proof fn law_adopt_removes_only_after_checks(
    ctx: AdoptContext,
    within_home: bool,
    present: bool,
    resolved: Option<String>,
    has_skill_file: bool,
    name: String,
    managed_present: bool,
    managed_resolved: Option<String>,
    same_as_managed: bool,
)
    ensures
        ({
            let next = adopt_next(
                ctx,
                AdoptAction::Inspect,
                AdoptEvent::Inspected {
                    within_home,
                    present,
                    resolved,
                    has_skill_file,
                    name,
                    managed_present,
                    managed_resolved,
                    same_as_managed,
                },
            );
            &&& next is RemoveOriginal ==> within_home && present && managed_present
                && managed_resolved is Some && (resolved is None || same_as_managed)
            &&& next is CopyIn ==> within_home && present && !managed_present && resolved is Some
                && has_skill_file
        }),
{
}

/// Where a skill to be linked comes from: it must exist (`resolved`, its
/// resolved path by components) and lie inside one of the manager's roots.
pub fn check_link_source(resolved: Option<&Vec<String>>, manager_roots: &Vec<Vec<String>>) -> (r:
    Result<(), String>)
    ensures
        match resolved {
            None => r matches Err(e) && e@ == "Local skill path does not exist"@,
            Some(p) => if within_any_root(string_views(p@), root_views(manager_roots@)) {
                r is Ok
            } else {
                r matches Err(e) && e@ == "Local skill path must stay inside Skills Manager storage"@
            },
        },
{
    match resolved {
        None => Err(String::from_str("Local skill path does not exist")),
        Some(p) => if path_within_any_root(p, manager_roots) {
            Ok(())
        } else {
            Err(String::from_str("Local skill path must stay inside Skills Manager storage"))
        },
    }
}

/// An IDE directory named for an uninstall: the components of its trimmed
/// text (as `Path::components` gives them) and whether it is absolute.
pub struct IdeDirPath {
    pub components: Vec<String>,
    pub absolute: bool,
}

pub open spec fn ide_dir_views(dirs: Seq<IdeDirPath>) -> Seq<(Seq<Seq<char>>, bool)> {
    dirs.map_values(|d: IdeDirPath| (string_views(d.components@), d.absolute))
}

/// An IDE directory is usable when it names something and never climbs out
/// with `..`.
pub open spec fn ide_dir_valid(d: Seq<Seq<char>>) -> bool {
    d.len() > 0 && !d.contains(".."@)
}

/// The root an IDE directory stands for: itself where absolute, else under
/// the home directory.
pub open spec fn ide_root_of(home: Seq<Seq<char>>, d: Seq<Seq<char>>, absolute: bool) -> Seq<
    Seq<char>,
> {
    if absolute {
        d
    } else {
        home + d
    }
}

/// The directories of a project from which an uninstall may remove skills.
pub open spec fn project_root_dirs() -> Seq<Seq<Seq<char>>> {
    seq![
        seq![".codex"@, "skills"@],
        seq![".trae"@, "skills"@],
        seq![".opencode"@, "skills"@],
        seq![".skills-manager"@, "skills"@],
    ]
}

/// Whether an IDE directory is usable (see `ide_dir_valid`).
pub fn ide_dir_usable(dir: &IdeDirPath) -> (r: bool)
    ensures
        r == ide_dir_valid(string_views(dir.components@)),
{
    let up = String::from_str("..");
    proof {
        reveal_strlit("..");
    }
    dir.components.len() > 0 && !strings_contain(&dir.components, &up)
}

pub open spec fn invalid_ide_dir_message() -> Seq<char> {
    "Invalid IDE directory"@
}

/// The roots an uninstall may remove from: the manager's roots, each IDE
/// directory (under the home directory unless absolute), and the project's
/// skill directories; refused where an IDE directory is unusable.
pub open spec fn uninstall_roots_of(
    manager: Seq<Seq<Seq<char>>>,
    dirs: Seq<(Seq<Seq<char>>, bool)>,
    home: Seq<Seq<char>>,
    project: Option<Seq<Seq<char>>>,
) -> Result<Seq<Seq<Seq<char>>>, Seq<char>> {
    if exists|i: int| 0 <= i < dirs.len() && !ide_dir_valid(#[trigger] dirs[i].0) {
        Err(invalid_ide_dir_message())
    } else {
        Ok(
            manager + dirs.map_values(
                |d: (Seq<Seq<char>>, bool)| ide_root_of(home, d.0, d.1),
            ) + match project {
                Some(p) => project_root_dirs().map_values(|q: Seq<Seq<char>>| p + q),
                None => Seq::<Seq<Seq<char>>>::empty(),
            },
        )
    }
}

fn joined(a: &Vec<String>, b: &Vec<String>) -> (r: Vec<String>)
    ensures
        string_views(r@) == string_views(a@) + string_views(b@),
{
    let mut r = crate::packages::copy_strings(a);
    let mut i: usize = 0;
    while i < b.len()
        invariant
            i <= b.len(),
            string_views(r@) == string_views(a@) + string_views(b@).subrange(0, i as int),
        decreases b.len() - i,
    {
        let ghost before = r@;
        r.push(b[i].clone());
        assert(string_views(r@) =~= string_views(before).push(b@[i as int]@));
        assert(string_views(b@).subrange(0, i + 1) =~= string_views(b@).subrange(0, i as int).push(
            b@[i as int]@,
        ));
        i += 1;
    }
    assert(string_views(b@).subrange(0, b.len() as int) =~= string_views(b@));
    r
}

fn path_of(parts: &[&str]) -> (r: Vec<String>)
    ensures
        r@.len() == parts@.len(),
        forall|i: int| 0 <= i < parts@.len() ==> (#[trigger] r@[i])@ == parts@[i]@,
{
    let mut r: Vec<String> = Vec::new();
    let mut i: usize = 0;
    while i < parts.len()
        invariant
            i <= parts@.len(),
            r@.len() == i,
            forall|k: int| 0 <= k < i ==> (#[trigger] r@[k])@ == parts@[k]@,
        decreases parts@.len() - i,
    {
        r.push(String::from_str(parts[i]));
        i += 1;
    }
    r
}

/// The roots an uninstall may remove from (see `uninstall_roots_of`); each
/// path is given by its components, the manager's roots and the home
/// directory resolved.
pub fn uninstall_roots(
    manager_roots: &Vec<Vec<String>>,
    ide_dirs: &Vec<IdeDirPath>,
    home: &Vec<String>,
    project: Option<&Vec<String>>,
) -> (r: Result<Vec<Vec<String>>, String>)
    ensures
        match r {
            Ok(v) => uninstall_roots_of(
                root_views(manager_roots@),
                ide_dir_views(ide_dirs@),
                string_views(home@),
                match project {
                    Some(p) => Some(string_views(p@)),
                    None => None,
                },
            ) == Ok::<Seq<Seq<Seq<char>>>, Seq<char>>(root_views(v@)),
            Err(e) => uninstall_roots_of(
                root_views(manager_roots@),
                ide_dir_views(ide_dirs@),
                string_views(home@),
                match project {
                    Some(p) => Some(string_views(p@)),
                    None => None,
                },
            ) == Err::<Seq<Seq<Seq<char>>>, Seq<char>>(e@),
        },
{
    let ghost dv = ide_dir_views(ide_dirs@);
    let mut i: usize = 0;
    while i < ide_dirs.len()
        invariant
            i <= ide_dirs.len(),
            dv == ide_dir_views(ide_dirs@),
            forall|k: int| 0 <= k < i ==> ide_dir_valid(#[trigger] dv[k].0),
        decreases ide_dirs.len() - i,
    {
        let d = &ide_dirs[i];
        assert(dv[i as int].0 == string_views(d.components@));
        if !ide_dir_usable(d) {
            assert(!ide_dir_valid(dv[i as int].0));
            return Err(String::from_str("Invalid IDE directory"));
        }
        i += 1;
    }
    let mut out: Vec<Vec<String>> = Vec::new();
    let mut j: usize = 0;
    while j < manager_roots.len()
        invariant
            j <= manager_roots.len(),
            root_views(out@) == root_views(manager_roots@).subrange(0, j as int),
        decreases manager_roots.len() - j,
    {
        let ghost before = out@;
        out.push(crate::packages::copy_strings(&manager_roots[j]));
        assert(root_views(out@) =~= root_views(before).push(string_views(manager_roots@[j as int]@)));
        assert(root_views(manager_roots@).subrange(0, j + 1) =~= root_views(manager_roots@).subrange(
            0,
            j as int,
        ).push(string_views(manager_roots@[j as int]@)));
        j += 1;
    }
    assert(root_views(manager_roots@).subrange(0, manager_roots.len() as int) =~= root_views(
        manager_roots@,
    ));
    let ghost ide_part = dv.map_values(
        |d: (Seq<Seq<char>>, bool)| ide_root_of(string_views(home@), d.0, d.1),
    );
    let mut k: usize = 0;
    while k < ide_dirs.len()
        invariant
            k <= ide_dirs.len(),
            dv == ide_dir_views(ide_dirs@),
            ide_part == dv.map_values(
                |d: (Seq<Seq<char>>, bool)| ide_root_of(string_views(home@), d.0, d.1),
            ),
            root_views(out@) == root_views(manager_roots@) + ide_part.subrange(0, k as int),
        decreases ide_dirs.len() - k,
    {
        let d = &ide_dirs[k];
        let root = if d.absolute {
            crate::packages::copy_strings(&d.components)
        } else {
            joined(home, &d.components)
        };
        assert(string_views(root@) == ide_part[k as int]);
        let ghost before = out@;
        out.push(root);
        assert(root_views(out@) =~= root_views(before).push(ide_part[k as int]));
        assert(ide_part.subrange(0, k + 1) =~= ide_part.subrange(0, k as int).push(
            ide_part[k as int],
        ));
        k += 1;
    }
    assert(ide_part.subrange(0, ide_dirs.len() as int) =~= ide_part);
    if let Some(p) = project {
        let ghost before = out@;
        let a = joined(p, &path_of(&[".codex", "skills"]));
        let b = joined(p, &path_of(&[".trae", "skills"]));
        let c = joined(p, &path_of(&[".opencode", "skills"]));
        let e = joined(p, &path_of(&[".skills-manager", "skills"]));
        proof {
            reveal_strlit(".codex");
            reveal_strlit(".trae");
            reveal_strlit(".opencode");
            reveal_strlit(".skills-manager");
            reveal_strlit("skills");
        }
        out.push(a);
        out.push(b);
        out.push(c);
        out.push(e);
        let ghost pr = project_root_dirs().map_values(|q: Seq<Seq<char>>| string_views(p@) + q);
        assert(string_views(a@) =~= pr[0]);
        assert(string_views(b@) =~= pr[1]);
        assert(string_views(c@) =~= pr[2]);
        assert(string_views(e@) =~= pr[3]);
        assert(root_views(out@) =~= root_views(before) + pr);
    } else {
        assert(root_views(out@) =~= root_views(out@) + Seq::<Seq<Seq<char>>>::empty());
    }
    Ok(out)
}


} // verus!
