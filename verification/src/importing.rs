//! What importing a skill directory into the manager's store decides at each
//! step, the reports it gives, and the index of past imports.
use crate::identity::{unquote, unquote_chars};
use crate::text::{chars_of, concat2, decimal_chars, decimal_text, string_of, trim, trim_chars};
use crate::types::{BatchImportResult, SkillImportItemResult};
use vstd::prelude::*;

verus! {

pub open spec fn imported_status() -> Seq<char> {
    "imported"@
}

pub open spec fn skipped_status() -> Seq<char> {
    "skipped"@
}

pub open spec fn failed_status() -> Seq<char> {
    "failed"@
}

/// A report of one import, as plain text.
pub struct ImportItemView {
    pub source_path: Seq<char>,
    pub name: Seq<char>,
    pub target_path: Option<Seq<char>>,
    pub status: Seq<char>,
    pub message: Seq<char>,
}

pub open spec fn item_view(r: SkillImportItemResult) -> ImportItemView {
    ImportItemView {
        source_path: r.source_path@,
        name: r.name@,
        target_path: match r.target_path {
            Some(t) => Some(t@),
            None => None,
        },
        status: r.status@,
        message: r.message@,
    }
}

pub open spec fn failed_view(source: Seq<char>, name: Seq<char>, message: Seq<char>) -> ImportItemView {
    ImportItemView {
        source_path: source,
        name,
        target_path: None,
        status: failed_status(),
        message,
    }
}

pub open spec fn skipped_view(
    source: Seq<char>,
    name: Seq<char>,
    target: Seq<char>,
    message: Seq<char>,
) -> ImportItemView {
    ImportItemView {
        source_path: source,
        name,
        target_path: Some(target),
        status: skipped_status(),
        message,
    }
}

/// A YAML scalar without its surrounding whitespace and one pair of
/// matching quotes (with the whitespace inside them).
pub fn unquote_yaml_scalar(value: &str) -> (r: String)
    ensures
        r@ == unquote(value@),
{
    let v = chars_of(value);
    let u = unquote_chars(&v);
    string_of(&u)
}

/// A failed import: it has no target.
pub fn import_failed(source_path: &str, name: &str, message: &str) -> (r: SkillImportItemResult)
    ensures
        item_view(r) == failed_view(source_path@, name@, message@),
{
    SkillImportItemResult {
        source_path: String::from_str(source_path),
        name: String::from_str(name),
        target_path: None,
        status: String::from_str("failed"),
        message: String::from_str(message),
    }
}

/// An import that was not needed: the skill is at `target_path` already.
pub fn import_skipped(source_path: &str, name: &str, target_path: &str, message: &str) -> (r:
    SkillImportItemResult)
    ensures
        item_view(r) == skipped_view(source_path@, name@, target_path@, message@),
{
    SkillImportItemResult {
        source_path: String::from_str(source_path),
        name: String::from_str(name),
        target_path: Some(String::from_str(target_path)),
        status: String::from_str("skipped"),
        message: String::from_str(message),
    }
}

/// What was found of a source directory before anything is copied.
pub struct SourceInspection {
    /// The canonical path of the source, where it exists.
    pub canonical: Option<String>,
    pub is_directory: bool,
    pub has_skill_file: bool,
    /// Whether the source lies inside the manager's own skills directory.
    pub inside_manager: bool,
    /// The error met while listing the source's files, if any.
    pub listing_error: Option<String>,
    /// The skill's name, as its `SKILL.md` (or else its directory) gives it.
    pub name: String,
}

pub open spec fn missing_source_message() -> Seq<char> {
    "Source path does not exist"@
}

pub open spec fn not_directory_message() -> Seq<char> {
    "Source path must be a directory"@
}

pub open spec fn no_skill_file_message() -> Seq<char> {
    "The selected directory does not contain SKILL.md"@
}

pub open spec fn already_managed_message() -> Seq<char> {
    "Skill is already managed"@
}

/// The report an inspection ends the import with, in the order the checks
/// are made; `None` where the import goes on.
pub open spec fn inspection_outcome(
    source: Seq<char>,
    fallback_name: Seq<char>,
    canonical: Option<Seq<char>>,
    is_directory: bool,
    has_skill_file: bool,
    inside_manager: bool,
    listing_error: Option<Seq<char>>,
    name: Seq<char>,
) -> Option<ImportItemView> {
    match canonical {
        None => Some(failed_view(source, fallback_name, missing_source_message())),
        Some(c) => if !is_directory {
            Some(failed_view(source, fallback_name, not_directory_message()))
        } else if !has_skill_file {
            Some(failed_view(source, fallback_name, no_skill_file_message()))
        } else if inside_manager {
            Some(skipped_view(c, name, c, already_managed_message()))
        } else {
            match listing_error {
                Some(e) => Some(failed_view(source, fallback_name, e)),
                None => None,
            }
        },
    }
}

pub open spec fn opt_view(o: Option<String>) -> Option<Seq<char>> {
    match o {
        Some(s) => Some(s@),
        None => None,
    }
}

pub open spec fn opt_item_view(o: Option<SkillImportItemResult>) -> Option<ImportItemView> {
    match o {
        Some(r) => Some(item_view(r)),
        None => None,
    }
}

/// Ends the import of `source_path` early where the inspection of the source
/// calls for it: a missing source, one that is no directory or has no
/// `SKILL.md`, one the manager holds already, or one whose files cannot be
/// listed.
pub fn inspection_verdict(source_path: &str, fallback_name: &str, facts: SourceInspection) -> (r:
    Option<SkillImportItemResult>)
    ensures
        opt_item_view(r) == inspection_outcome(
            source_path@,
            fallback_name@,
            opt_view(facts.canonical),
            facts.is_directory,
            facts.has_skill_file,
            facts.inside_manager,
            opt_view(facts.listing_error),
            facts.name@,
        ),
{
    match facts.canonical {
        None => Some(import_failed(source_path, fallback_name, "Source path does not exist")),
        Some(c) => {
            if !facts.is_directory {
                Some(import_failed(source_path, fallback_name, "Source path must be a directory"))
            } else if !facts.has_skill_file {
                Some(
                    import_failed(
                        source_path,
                        fallback_name,
                        "The selected directory does not contain SKILL.md",
                    ),
                )
            } else if facts.inside_manager {
                Some(import_skipped(c.as_str(), facts.name.as_str(), c.as_str(), "Skill is already managed"))
            } else {
                match facts.listing_error {
                    Some(e) => Some(import_failed(source_path, fallback_name, e.as_str())),
                    None => None,
                }
            }
        },
    }
}

/// The UUID to keep on a directory an earlier import made from the same
/// source: the source's own, or else the recorded one where it is not blank.
pub open spec fn preferred_uuid_of(source_uuid: Option<Seq<char>>, record_uuid: Seq<char>) -> Option<
    Seq<char>,
> {
    match source_uuid {
        Some(u) => Some(u),
        None => if trim(record_uuid).len() > 0 {
            Some(record_uuid)
        } else {
            None
        },
    }
}

pub fn preferred_uuid(source_uuid: &Option<String>, record_uuid: &str) -> (r: Option<String>)
    ensures
        opt_view(r) == preferred_uuid_of(opt_view(*source_uuid), record_uuid@),
{
    match source_uuid {
        Some(u) => Some(String::from_str(u.as_str())),
        None => {
            let t = trim_chars(&chars_of(record_uuid));
            if t.len() > 0 {
                Some(String::from_str(record_uuid))
            } else {
                None
            }
        },
    }
}

/// Whether the directory an earlier import made holds this source's skill:
/// it carries the source's UUID, or, for a source without one, the same
/// files.
pub open spec fn same_managed_skill(
    source_uuid: Option<Seq<char>>,
    target_uuid: Seq<char>,
    same_files: bool,
) -> bool {
    match source_uuid {
        Some(u) => u == target_uuid,
        None => same_files,
    }
}

pub fn record_matches_source(source_uuid: &Option<String>, target_uuid: &str, same_files: bool) -> (r:
    bool)
    ensures
        r == same_managed_skill(opt_view(*source_uuid), target_uuid@, same_files),
{
    match source_uuid {
        Some(u) => {
            let a = chars_of(u.as_str());
            let b = chars_of(target_uuid);
            crate::text::chars_eq(&a, &b)
        },
        None => same_files,
    }
}

pub open spec fn imported_before_message() -> Seq<char> {
    "Skill from this source is already managed"@
}

pub open spec fn same_uuid_message() -> Seq<char> {
    "A skill with the same UUID is already managed"@
}

pub open spec fn identical_message() -> Seq<char> {
    "An identical skill is already managed"@
}

/// The report for a source an earlier import already brought in.
pub fn imported_before(source_path: &str, name: &str, target_path: &str) -> (r: SkillImportItemResult)
    ensures
        item_view(r) == skipped_view(source_path@, name@, target_path@, imported_before_message()),
{
    import_skipped(source_path, name, target_path, "Skill from this source is already managed")
}

/// The report for a source whose UUID a managed skill carries already.
pub fn same_uuid_managed(source_path: &str, name: &str, existing_path: &str) -> (r:
    SkillImportItemResult)
    ensures
        item_view(r) == skipped_view(source_path@, name@, existing_path@, same_uuid_message()),
{
    import_skipped(source_path, name, existing_path, "A skill with the same UUID is already managed")
}

/// The report for a source whose files the first target holds already.
pub fn identical_managed(source_path: &str, name: &str, target_path: &str) -> (r:
    SkillImportItemResult)
    ensures
        item_view(r) == skipped_view(source_path@, name@, target_path@, identical_message()),
{
    import_skipped(source_path, name, target_path, "An identical skill is already managed")
}

/// A source that passed inspection: the path as given, its canonical path,
/// the skill's name and the UUID its `SKILL.md` records.
pub struct ImportSource {
    pub source_path: String,
    pub canonical: String,
    pub name: String,
    pub uuid: Option<String>,
}

/// The next thing an import does after inspecting its source.
pub enum ImportAction {
    /// Look at the import record at this position: whether it was made from
    /// this source and still holds a `SKILL.md`; if so, the UUID its target
    /// carries (written first where it has none) and, for a source without a
    /// UUID, whether the target holds the same files.
    CheckRecord(usize),
    /// Look for a managed skill that carries this UUID.
    FindByUuid(String),
    /// Where the first target directory exists, compare it with the source.
    CompareFirstTarget,
    /// Copy the source into the store.
    Install,
    /// The import ends with this report.
    Report(SkillImportItemResult),
}

/// What the outside work of an action found.
pub enum ImportEvent {
    /// The record was not made from this source, or its target has no
    /// `SKILL.md`.
    RecordUnrelated,
    /// Reading or writing the record's target failed with this error.
    RecordFailed(String),
    /// The record's target, the UUID it carries, and whether its files are
    /// the source's (asked only for a source without a UUID).
    RecordTarget { target_path: String, target_uuid: String, same_files: bool },
    /// There are no more records.
    NoRecordsLeft,
    /// The managed skill found with the UUID, if any.
    UuidOwner(Option<String>),
    /// The first target directory does not exist.
    FirstTargetFree,
    /// The first target exists: its path, and whether it holds the source's
    /// files (or the error met comparing them).
    FirstTarget { path: String, comparison: Result<bool, String> },
}

/// Whether an event answers an action.
pub open spec fn event_fits(done: ImportAction, event: ImportEvent) -> bool {
    match done {
        ImportAction::CheckRecord(_) => event is RecordUnrelated || event is RecordFailed
            || event is RecordTarget || event is NoRecordsLeft,
        ImportAction::FindByUuid(_) => event is UuidOwner,
        ImportAction::CompareFirstTarget => event is FirstTargetFree || event is FirstTarget,
        _ => false,
    }
}

/// An action as plain values.
pub enum ActionView {
    CheckRecord(int),
    FindByUuid(Seq<char>),
    CompareFirstTarget,
    Install,
    Report(ImportItemView),
}

pub open spec fn action_view(a: ImportAction) -> ActionView {
    match a {
        ImportAction::CheckRecord(i) => ActionView::CheckRecord(i as int),
        ImportAction::FindByUuid(u) => ActionView::FindByUuid(u@),
        ImportAction::CompareFirstTarget => ActionView::CompareFirstTarget,
        ImportAction::Install => ActionView::Install,
        ImportAction::Report(r) => ActionView::Report(item_view(r)),
    }
}

/// The step after the records: a source with a UUID is looked for among
/// the managed skills; one without is compared with its first target.
pub open spec fn after_records(source: ImportSource) -> ActionView {
    match source.uuid {
        Some(u) => ActionView::FindByUuid(u@),
        None => ActionView::CompareFirstTarget,
    }
}

/// How an import goes on once an action's outside work is done: records
/// are checked one after the other until one holds this source's skill;
/// then a managed skill with the source's UUID, then an identical first
/// target, end the import as already managed; otherwise the source is
/// installed. Errors end it as failed.
pub open spec fn import_next(source: ImportSource, done: ImportAction, event: ImportEvent) -> ActionView {
    let failed = |e: Seq<char>| ActionView::Report(failed_view(source.source_path@, source.name@, e));
    match done {
        ImportAction::CheckRecord(i) => match event {
            ImportEvent::RecordUnrelated => ActionView::CheckRecord(i + 1),
            ImportEvent::RecordFailed(e) => failed(e@),
            ImportEvent::RecordTarget { target_path, target_uuid, same_files } => if same_managed_skill(
                opt_view(source.uuid),
                target_uuid@,
                same_files,
            ) {
                ActionView::Report(
                    skipped_view(source.canonical@, source.name@, target_path@, imported_before_message()),
                )
            } else {
                ActionView::CheckRecord(i + 1)
            },
            _ => after_records(source),
        },
        ImportAction::FindByUuid(_) => match event {
            ImportEvent::UuidOwner(Some(p)) => ActionView::Report(
                skipped_view(source.canonical@, source.name@, p@, same_uuid_message()),
            ),
            _ => ActionView::CompareFirstTarget,
        },
        _ => match event {
            ImportEvent::FirstTarget { path, comparison } => match comparison {
                Ok(true) => ActionView::Report(
                    skipped_view(source.canonical@, source.name@, path@, identical_message()),
                ),
                Ok(false) => ActionView::Install,
                Err(e) => failed(e@),
            },
            _ => ActionView::Install,
        },
    }
}

/// The next action of an import (see `import_next`).
pub fn import_step(source: &ImportSource, done: ImportAction, event: ImportEvent) -> (r: ImportAction)
    requires
        event_fits(done, event),
        done matches ImportAction::CheckRecord(i) ==> i < usize::MAX,
    ensures
        action_view(r) == import_next(*source, done, event),
{
    match done {
        ImportAction::CheckRecord(i) => match event {
            ImportEvent::RecordUnrelated => ImportAction::CheckRecord(i + 1),
            ImportEvent::RecordFailed(e) => ImportAction::Report(
                import_failed(source.source_path.as_str(), source.name.as_str(), e.as_str()),
            ),
            ImportEvent::RecordTarget { target_path, target_uuid, same_files } => {
                if record_matches_source(&source.uuid, target_uuid.as_str(), same_files) {
                    ImportAction::Report(
                        imported_before(
                            source.canonical.as_str(),
                            source.name.as_str(),
                            target_path.as_str(),
                        ),
                    )
                } else {
                    ImportAction::CheckRecord(i + 1)
                }
            },
            _ => match &source.uuid {
                Some(u) => ImportAction::FindByUuid(u.clone()),
                None => ImportAction::CompareFirstTarget,
            },
        },
        ImportAction::FindByUuid(_) => match event {
            ImportEvent::UuidOwner(Some(p)) => ImportAction::Report(
                same_uuid_managed(source.canonical.as_str(), source.name.as_str(), p.as_str()),
            ),
            _ => ImportAction::CompareFirstTarget,
        },
        _ => match event {
            ImportEvent::FirstTarget { path, comparison } => match comparison {
                Ok(true) => ImportAction::Report(
                    identical_managed(source.canonical.as_str(), source.name.as_str(), path.as_str()),
                ),
                Ok(false) => ImportAction::Install,
                Err(e) => ImportAction::Report(
                    import_failed(source.source_path.as_str(), source.name.as_str(), e.as_str()),
                ),
            },
            _ => ImportAction::Install,
        },
    }
}

/// `base`, a hyphen and `n` in decimal.
pub open spec fn numbered(base: Seq<char>, n: nat) -> Seq<char> {
    base + "-"@ + decimal_chars(n)
}

pub fn numbered_name(base: &str, n: u128) -> (r: String)
    ensures
        r@ == numbered(base@, n as nat),
{
    let with_hyphen = concat2(base, "-");
    let digits = decimal_text(n);
    concat2(with_hyphen.as_str(), digits.as_str())
}

/// The directory name tried at the given attempt when choosing where an
/// import goes: the skill's own name first, then the name with `-2`, `-3`
/// and so on.
pub open spec fn candidate_target(base: Seq<char>, attempt: nat) -> Seq<char> {
    if attempt <= 1 {
        base
    } else {
        numbered(base, attempt)
    }
}

pub fn candidate_target_name(base: &str, attempt: u128) -> (r: String)
    ensures
        r@ == candidate_target(base@, attempt as nat),
{
    if attempt <= 1 {
        String::from_str(base)
    } else {
        numbered_name(base, attempt)
    }
}

/// The step of the copy into the store that failed.
pub enum InstallFailure {
    /// Copying into the staging directory failed, with this error.
    Copy(String),
    /// The copy has no `SKILL.md`.
    MissingSkillFile,
    /// The UUID could not be written into the copy, with this error.
    Uuid(String),
    /// Moving the copy into place failed, with this error.
    Finalize(String),
}

pub open spec fn install_failure_message(f: InstallFailure) -> Seq<char> {
    match f {
        InstallFailure::Copy(e) => e@,
        InstallFailure::MissingSkillFile => "Copied skill is missing SKILL.md"@,
        InstallFailure::Uuid(e) => "Failed to assign skill UUID: "@ + e@,
        InstallFailure::Finalize(e) => "Failed to finalize import: "@ + e@,
    }
}

/// The report of an import whose copy into the store failed.
pub fn install_failed(source_path: &str, name: &str, failure: InstallFailure) -> (r:
    SkillImportItemResult)
    ensures
        item_view(r) == failed_view(source_path@, name@, install_failure_message(failure)),
{
    let message = match failure {
        InstallFailure::Copy(e) => e,
        InstallFailure::MissingSkillFile => String::from_str("Copied skill is missing SKILL.md"),
        InstallFailure::Uuid(e) => concat2("Failed to assign skill UUID: ", e.as_str()),
        InstallFailure::Finalize(e) => concat2("Failed to finalize import: ", e.as_str()),
    };
    import_failed(source_path, name, message.as_str())
}

pub open spec fn imported_message(record_error: Option<Seq<char>>) -> Seq<char> {
    match record_error {
        None => "Imported into Skill Manager"@,
        Some(e) => "Imported, but metadata could not be saved: "@ + e,
    }
}

/// The report of a completed import; `record_error` is the error met while
/// saving the import index, if any.
pub fn import_done(source_path: &str, name: &str, target_path: &str, record_error: Option<String>) -> (r:
    SkillImportItemResult)
    ensures
        item_view(r) == (ImportItemView {
            source_path: source_path@,
            name: name@,
            target_path: Some(target_path@),
            status: imported_status(),
            message: imported_message(opt_view(record_error)),
        }),
{
    let message = match record_error {
        None => String::from_str("Imported into Skill Manager"),
        Some(e) => concat2("Imported, but metadata could not be saved: ", e.as_str()),
    };
    SkillImportItemResult {
        source_path: String::from_str(source_path),
        name: String::from_str(name),
        target_path: Some(String::from_str(target_path)),
        status: String::from_str("imported"),
        message,
    }
}

/// The reply to a single import: its message, as an error where it failed.
pub fn import_reply(result: SkillImportItemResult) -> (r: Result<String, String>)
    ensures
        (result.status@ == imported_status() || result.status@ == skipped_status()) ==> (r
            matches Ok(m) && m@ == result.message@),
        !(result.status@ == imported_status() || result.status@ == skipped_status()) ==> (r
            matches Err(m) && m@ == result.message@),
{
    let imported = String::from_str("imported");
    let skipped = String::from_str("skipped");
    if result.status == imported || result.status == skipped {
        Ok(result.message)
    } else {
        Err(result.message)
    }
}

pub open spec fn empty_batch_message() -> Seq<char> {
    "No skills were selected for import"@
}

/// A batch import needs at least one source.
pub fn check_batch(source_paths: &Vec<String>) -> (r: Result<(), String>)
    ensures
        r is Ok <==> source_paths.len() > 0,
        r matches Err(m) ==> m@ == empty_batch_message(),
{
    if source_paths.len() == 0 {
        Err(String::from_str("No skills were selected for import"))
    } else {
        Ok(())
    }
}

/// How many reports of `items` have the given status.
pub open spec fn count_status(items: Seq<SkillImportItemResult>, status: Seq<char>) -> nat
    decreases items.len(),
{
    if items.len() == 0 {
        0
    } else {
        count_status(items.drop_last(), status) + if items.last().status@ == status {
            1nat
        } else {
            0nat
        }
    }
}

proof fn lemma_count_status_bound(items: Seq<SkillImportItemResult>, status: Seq<char>)
    ensures
        count_status(items, status) <= items.len(),
    decreases items.len(),
{
    if items.len() > 0 {
        lemma_count_status_bound(items.drop_last(), status);
    }
}

/// The reports of a batch import, with how many were imported, skipped and
/// failed.
pub fn summarize_imports(items: Vec<SkillImportItemResult>) -> (r: BatchImportResult)
    ensures
        r.items@ == items@,
        r.imported == count_status(items@, imported_status()),
        r.skipped == count_status(items@, skipped_status()),
        r.failed == count_status(items@, failed_status()),
{
    let imported_text = String::from_str("imported");
    let skipped_text = String::from_str("skipped");
    let failed_text = String::from_str("failed");
    let mut imported: usize = 0;
    let mut skipped: usize = 0;
    let mut failed: usize = 0;
    let mut i: usize = 0;
    while i < items.len()
        invariant
            i <= items.len(),
            imported_text@ == imported_status(),
            skipped_text@ == skipped_status(),
            failed_text@ == failed_status(),
            imported == count_status(items@.take(i as int), imported_status()),
            skipped == count_status(items@.take(i as int), skipped_status()),
            failed == count_status(items@.take(i as int), failed_status()),
        decreases items.len() - i,
    {
        let ghost pre = items@.take(i as int);
        let ghost next = items@.take(i + 1);
        assert(next.drop_last() =~= pre);
        assert(next.last() == items@[i as int]);
        proof {
            lemma_count_status_bound(pre, imported_status());
            lemma_count_status_bound(pre, skipped_status());
            lemma_count_status_bound(pre, failed_status());
        }
        if items[i].status == imported_text {
            imported += 1;
        }
        if items[i].status == skipped_text {
            skipped += 1;
        }
        if items[i].status == failed_text {
            failed += 1;
        }
        i += 1;
    }
    assert(items@.take(items.len() as int) =~= items@);
    BatchImportResult { items, imported, skipped, failed }
}

/// One entry of the index of imports: which skill was imported, from where,
/// to where and when (seconds since the Unix epoch).
#[derive(Debug)]
pub struct ManagedSkillRecord {
    pub uuid: String,
    pub name: String,
    pub source_path: String,
    pub target_path: String,
    pub imported_at_unix: u64,
}

/// The entries of `records` that neither carry `uuid` nor point at `target`.
pub open spec fn records_kept(records: Seq<ManagedSkillRecord>, uuid: Seq<char>, target: Seq<char>) -> Seq<
    ManagedSkillRecord,
>
    decreases records.len(),
{
    if records.len() == 0 {
        records
    } else {
        let rest = records_kept(records.drop_last(), uuid, target);
        let last = records.last();
        if last.uuid@ != uuid && last.target_path@ != target {
            rest.push(last)
        } else {
            rest
        }
    }
}

/// The index after an import: earlier entries for the same UUID or the same
/// target give way to the new one, which comes last.
pub open spec fn recorded_after(records: Seq<ManagedSkillRecord>, entry: ManagedSkillRecord) -> Seq<
    ManagedSkillRecord,
> {
    records_kept(records, entry.uuid@, entry.target_path@).push(entry)
}

/// Adds the entry of a completed import to the index.
pub fn record_import(records: Vec<ManagedSkillRecord>, entry: ManagedSkillRecord) -> (r: Vec<
    ManagedSkillRecord,
>)
    ensures
        r@ == recorded_after(records@, entry),
{
    let ghost all = records@;
    let mut rest = records;
    let mut out: Vec<ManagedSkillRecord> = Vec::new();
    let mut i: usize = 0;
    assert(all.len() == rest.len());
    while rest.len() > 0
        invariant
            i + rest.len() == all.len(),
            all.len() <= usize::MAX,
            rest@ == all.skip(i as int),
            out@ == records_kept(all.take(i as int), entry.uuid@, entry.target_path@),
        decreases rest.len(),
    {
        let r = rest.remove(0);
        let ghost next = all.take(i + 1);
        assert(next.drop_last() =~= all.take(i as int));
        assert(r == all[i as int]);
        assert(all.skip(i + 1) =~= all.skip(i as int).drop_first());
        let keep = r.uuid != entry.uuid && r.target_path != entry.target_path;
        if keep {
            out.push(r);
        }
        i += 1;
    }
    assert(all.take(i as int) =~= all);
    out.push(entry);
    out
}

/// Removes the quotes that older versions left around the names in the
/// index. Returns the index and whether a name changed.
pub fn normalize_record_names(records: Vec<ManagedSkillRecord>) -> (r: (
    Vec<ManagedSkillRecord>,
    bool,
))
    ensures
        r.0.len() == records.len(),
        forall|i: int|
            0 <= i < records.len() ==> {
                &&& (#[trigger] r.0@[i]).name@ == unquote(records@[i].name@)
                &&& r.0@[i].uuid == records@[i].uuid
                &&& r.0@[i].source_path == records@[i].source_path
                &&& r.0@[i].target_path == records@[i].target_path
                &&& r.0@[i].imported_at_unix == records@[i].imported_at_unix
            },
        r.1 <==> exists|i: int|
            0 <= i < records.len() && unquote((#[trigger] records@[i]).name@) != records@[i].name@,
{
    let ghost all = records@;
    let mut rest = records;
    let mut out: Vec<ManagedSkillRecord> = Vec::new();
    let mut changed = false;
    let mut i: usize = 0;
    assert(all.len() == rest.len());
    while rest.len() > 0
        invariant
            i + rest.len() == all.len(),
            all.len() <= usize::MAX,
            rest@ == all.skip(i as int),
            out.len() == i,
            forall|k: int|
                0 <= k < i ==> {
                    &&& (#[trigger] out@[k]).name@ == unquote(all[k].name@)
                    &&& out@[k].uuid == all[k].uuid
                    &&& out@[k].source_path == all[k].source_path
                    &&& out@[k].target_path == all[k].target_path
                    &&& out@[k].imported_at_unix == all[k].imported_at_unix
                },
            changed <==> exists|k: int| 0 <= k < i && unquote((#[trigger] all[k]).name@) != all[k].name@,
        decreases rest.len(),
    {
        let r = rest.remove(0);
        assert(r == all[i as int]);
        assert(all.skip(i + 1) =~= all.skip(i as int).drop_first());
        let name_chars = chars_of(r.name.as_str());
        let unquoted = unquote_chars(&name_chars);
        let same = crate::text::chars_eq(&unquoted, &name_chars);
        if !same {
            changed = true;
        }
        let ManagedSkillRecord { uuid, name, source_path, target_path, imported_at_unix } = r;
        out.push(
            ManagedSkillRecord {
                uuid,
                name: string_of(&unquoted),
                source_path,
                target_path,
                imported_at_unix,
            },
        );
        proof {
            if !same {
                assert(unquote(all[i as int].name@) != all[i as int].name@);
            }
        }
        i += 1;
    }
    (out, changed)
}

/// No two entries of the index share a UUID or a target.
pub open spec fn index_unique(records: Seq<ManagedSkillRecord>) -> bool {
    forall|i: int, j: int|
        0 <= i < j < records.len() ==> (#[trigger] records[i]).uuid@ != (#[trigger] records[j]).uuid@
            && records[i].target_path@ != records[j].target_path@
}

proof fn lemma_records_kept(records: Seq<ManagedSkillRecord>, uuid: Seq<char>, target: Seq<char>)
    ensures
        forall|k: int|
            0 <= k < records_kept(records, uuid, target).len() ==> {
                let e = #[trigger] records_kept(records, uuid, target)[k];
                &&& e.uuid@ != uuid
                &&& e.target_path@ != target
                &&& records.contains(e)
            },
        index_unique(records) ==> index_unique(records_kept(records, uuid, target)),
    decreases records.len(),
{
    if records.len() > 0 {
        let dl = records.drop_last();
        lemma_records_kept(dl, uuid, target);
        let rest = records_kept(dl, uuid, target);
        let kept = records_kept(records, uuid, target);
        assert forall|k: int| 0 <= k < kept.len() implies records.contains(#[trigger] kept[k]) by {
            if k < rest.len() {
                let e = kept[k];
                assert(rest[k] == e);
                let w = choose|w: int| 0 <= w < dl.len() && dl[w] == e;
                assert(records[w] == e);
            } else {
                assert(records[records.len() - 1] == kept[k]);
            }
        }
        if index_unique(records) {
            assert(index_unique(dl)) by {
                assert forall|i: int, j: int| 0 <= i < j < dl.len() implies (#[trigger] dl[i]).uuid@
                    != (#[trigger] dl[j]).uuid@ && dl[i].target_path@ != dl[j].target_path@ by {
                    assert(dl[i] == records[i] && dl[j] == records[j]);
                }
            }
            let last = records.last();
            if last.uuid@ != uuid && last.target_path@ != target {
                assert forall|i: int, j: int| 0 <= i < j < kept.len() implies (#[trigger] kept[i]).uuid@
                    != (#[trigger] kept[j]).uuid@ && kept[i].target_path@
                    != kept[j].target_path@ by {
                    if j == kept.len() - 1 {
                        let e = rest[i];
                        assert(kept[i] == e);
                        let w = choose|w: int| 0 <= w < dl.len() && dl[w] == e;
                        assert(records[w] == e);
                        assert(records[records.len() - 1] == last);
                    } else {
                        assert(kept[i] == rest[i] && kept[j] == rest[j]);
                    }
                }
            }
        }
    }
}

/// Recording an import keeps the index free of two entries for one UUID or
/// one target: the new entry comes last, and no earlier entry shares its UUID
/// or its target.
pub proof fn law_import_index_stays_unique(records: Seq<ManagedSkillRecord>, entry: ManagedSkillRecord)
    requires
        index_unique(records),
    ensures
        index_unique(recorded_after(records, entry)),
        recorded_after(records, entry).last() == entry,
        forall|k: int|
            0 <= k < recorded_after(records, entry).len() - 1 ==> (#[trigger] recorded_after(
                records,
                entry,
            )[k]).uuid@ != entry.uuid@ && recorded_after(records, entry)[k].target_path@
                != entry.target_path@,
{
    let kept = records_kept(records, entry.uuid@, entry.target_path@);
    lemma_records_kept(records, entry.uuid@, entry.target_path@);
    let r = recorded_after(records, entry);
    assert forall|k: int| 0 <= k < r.len() - 1 implies (#[trigger] r[k]).uuid@ != entry.uuid@
        && r[k].target_path@ != entry.target_path@ by {
        assert(r[k] == kept[k]);
    }
    assert forall|i: int, j: int| 0 <= i < j < r.len() implies (#[trigger] r[i]).uuid@
        != (#[trigger] r[j]).uuid@ && r[i].target_path@ != r[j].target_path@ by {
        assert(r[i] == kept[i]);
        if j < r.len() - 1 {
            assert(r[j] == kept[j]);
        }
    }
}

/// Whether a report has one of the three statuses an import can end with.
pub open spec fn has_known_status(item: SkillImportItemResult) -> bool {
    item.status@ == imported_status() || item.status@ == skipped_status() || item.status@
        == failed_status()
}

/// Every report of a batch whose statuses are the three an import ends with
/// is counted exactly once: as imported, skipped or failed.
pub proof fn law_batch_counts_every_item(items: Seq<SkillImportItemResult>)
    requires
        forall|i: int| 0 <= i < items.len() ==> has_known_status(#[trigger] items[i]),
    ensures
        count_status(items, imported_status()) + count_status(items, skipped_status())
            + count_status(items, failed_status()) == items.len(),
    decreases items.len(),
{
    reveal_strlit("imported");
    reveal_strlit("skipped");
    reveal_strlit("failed");
    if items.len() > 0 {
        let dl = items.drop_last();
        assert forall|i: int| 0 <= i < dl.len() implies has_known_status(#[trigger] dl[i]) by {
            assert(dl[i] == items[i]);
        }
        law_batch_counts_every_item(dl);
        assert(has_known_status(items[items.len() - 1]));
        assert(imported_status().len() == 8 && skipped_status().len() == 7 && failed_status().len()
            == 6);
    }
}

/// Where checking the import records one after the other leads, from the
/// record at `i`, given what the check of each record found.
pub open spec fn check_records(source: ImportSource, i: nat, events: Seq<ImportEvent>) -> ActionView
    decreases events.len(),
{
    if events.len() == 0 {
        ActionView::CheckRecord(i as int)
    } else {
        match import_next(source, ImportAction::CheckRecord(i as usize), events[0]) {
            ActionView::CheckRecord(_) => check_records(source, i + 1, events.drop_first()),
            other => other,
        }
    }
}

/// Importing a source again is skipped: once its first import is in the
/// index (its entry comes last there), a second import that checks the
/// records without an error, up to that entry whose target still holds the
/// source's skill, ends as skipped because the source is already managed;
/// where no earlier record holds the source's skill, the report names the
/// first import's target.
pub proof fn law_reimport_is_skipped(
    records: Seq<ManagedSkillRecord>,
    entry: ManagedSkillRecord,
    source: ImportSource,
    events: Seq<ImportEvent>,
    target_uuid: String,
    same_files: bool,
)
    requires
        events.len() == recorded_after(records, entry).len(),
        events.len() < usize::MAX,
        forall|j: int|
            0 <= j < events.len() - 1 ==> (#[trigger] events[j] is RecordUnrelated
                || events[j] is RecordTarget),
        events.last() == (ImportEvent::RecordTarget {
            target_path: entry.target_path,
            target_uuid,
            same_files,
        }),
        same_managed_skill(opt_view(source.uuid), target_uuid@, same_files),
    ensures
        recorded_after(records, entry).last() == entry,
        exists|t: Seq<char>|
            check_records(source, 0, events) == ActionView::Report(
                skipped_view(source.canonical@, source.name@, t, imported_before_message()),
            ),
        (forall|j: int| 0 <= j < events.len() - 1 ==> #[trigger] events[j] is RecordUnrelated)
            ==> check_records(source, 0, events) == ActionView::Report(
            skipped_view(
                source.canonical@,
                source.name@,
                entry.target_path@,
                imported_before_message(),
            ),
        ),
{
    lemma_reimport_run(source, 0, events, entry.target_path, target_uuid, same_files);
}

proof fn lemma_reimport_run(
    source: ImportSource,
    i: nat,
    events: Seq<ImportEvent>,
    target_path: String,
    target_uuid: String,
    same_files: bool,
)
    requires
        events.len() > 0,
        i + events.len() <= usize::MAX,
        forall|j: int|
            0 <= j < events.len() - 1 ==> (#[trigger] events[j] is RecordUnrelated
                || events[j] is RecordTarget),
        events.last() == (ImportEvent::RecordTarget { target_path, target_uuid, same_files }),
        same_managed_skill(opt_view(source.uuid), target_uuid@, same_files),
    ensures
        exists|t: Seq<char>|
            check_records(source, i, events) == ActionView::Report(
                skipped_view(source.canonical@, source.name@, t, imported_before_message()),
            ),
        (forall|j: int| 0 <= j < events.len() - 1 ==> #[trigger] events[j] is RecordUnrelated)
            ==> check_records(source, i, events) == ActionView::Report(
            skipped_view(source.canonical@, source.name@, target_path@, imported_before_message()),
        ),
    decreases events.len(),
{
    let e = events[0];
    let rest = events.drop_first();
    if events.len() == 1 {
        assert(e == events.last());
        let v = skipped_view(source.canonical@, source.name@, target_path@, imported_before_message());
        assert(check_records(source, i, events) == ActionView::Report(v));
    } else {
        assert(e is RecordUnrelated || e is RecordTarget);
        assert(rest.last() == events.last());
        assert forall|j: int| 0 <= j < rest.len() - 1 implies (#[trigger] rest[j] is RecordUnrelated
            || rest[j] is RecordTarget) by {
            assert(rest[j] == events[j + 1]);
        }
        lemma_reimport_run(source, i + 1, rest, target_path, target_uuid, same_files);
        if (forall|j: int| 0 <= j < events.len() - 1 ==> #[trigger] events[j] is RecordUnrelated) {
            assert(events[0] is RecordUnrelated);
            assert forall|j: int| 0 <= j < rest.len() - 1 implies #[trigger] rest[j] is RecordUnrelated by {
                assert(rest[j] == events[j + 1]);
            }
        }
        match e {
            ImportEvent::RecordTarget { target_path: tp, target_uuid: tu, same_files: sf } => {
                if same_managed_skill(opt_view(source.uuid), tu@, sf) {
                    let v = skipped_view(source.canonical@, source.name@, tp@, imported_before_message());
                    assert(check_records(source, i, events) == ActionView::Report(v));
                }
            },
            _ => {},
        }
    }
}


} // verus!
