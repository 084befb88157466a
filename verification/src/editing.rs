//! The rules an edit of a managed `SKILL.md` must follow before it is
//! written: bounded size, no concurrent change, identity and name kept, a
//! valid description and a non-empty body.
use crate::document::{
    body_has_content, doc_fields, doc_has_frontmatter, is_standard_name, is_standard_name_chars,
    parse_skill_document, skill_body_has_content,
};
use crate::text::{chars_eq, chars_of, trim, trim_chars};
use crate::types::LocalSkillPreview;
use vstd::prelude::*;

verus! {

/// What saving an edit amounts to.
#[derive(Debug, Clone, Copy, PartialEq, Eq, Structural)]
pub enum SkillEdit {
    /// The content is what is on disk already: nothing to write.
    Unchanged,
    /// The new content is to replace the document.
    Replace,
}

/// The largest `SKILL.md` the editor saves, in bytes.
pub const MAX_SKILL_DOCUMENT_BYTES: usize = 1048576;

pub open spec fn too_large_message() -> Seq<char> {
    "SKILL.md 不能超过 1 MiB / SKILL.md exceeds 1 MiB"@
}

pub open spec fn changed_externally_message() -> Seq<char> {
    "检测到外部修改，请重新打开后再编辑 / File changed externally; reopen before saving"@
}

pub open spec fn frontmatter_required_message() -> Seq<char> {
    "必须保留完整的 YAML frontmatter / YAML frontmatter is required"@
}

pub open spec fn existing_uuid_missing_message() -> Seq<char> {
    "当前 Skill 缺少有效 UUID，请先刷新管理库 / Existing Skill has no valid UUID"@
}

pub open spec fn uuid_changed_message() -> Seq<char> {
    "不允许修改或删除 UUID / UUID cannot be changed or removed"@
}

pub open spec fn existing_name_missing_message() -> Seq<char> {
    "当前 Skill 缺少名称 / Existing Skill has no name"@
}

pub open spec fn name_required_message() -> Seq<char> {
    "名称不能为空 / Name is required"@
}

pub open spec fn rename_message() -> Seq<char> {
    "编辑器暂不允许重命名；名称须保持原值 / Renaming is not supported in the editor"@
}

pub open spec fn description_required_message() -> Seq<char> {
    "描述不能为空 / Description is required"@
}

pub open spec fn description_length_message() -> Seq<char> {
    "描述需为 1–1024 个字符 / Description must contain 1–1024 characters"@
}

pub open spec fn empty_body_message() -> Seq<char> {
    "正文不能为空 / Skill body cannot be empty"@
}

/// Whether an edit may be written, in the order the checks are made: the
/// document on disk (`current`) must be the one the editor opened
/// (`expected`); an unchanged document needs no write; otherwise the new
/// `content` keeps a frontmatter, the existing UUID and name, and has a
/// description of 1 to 1024 characters and a non-blank body.
pub open spec fn edit_outcome(current: Seq<char>, expected: Seq<char>, content: Seq<char>) -> Result<
    SkillEdit,
    Seq<char>,
> {
    let old = doc_fields(current);
    let new = doc_fields(content);
    if current != expected {
        Err(changed_externally_message())
    } else if content == current {
        Ok(SkillEdit::Unchanged)
    } else if !doc_has_frontmatter(content) {
        Err(frontmatter_required_message())
    } else if old.uuid is None {
        Err(existing_uuid_missing_message())
    } else if new.uuid != old.uuid {
        Err(uuid_changed_message())
    } else if old.name is None {
        Err(existing_name_missing_message())
    } else if new.name is None {
        Err(name_required_message())
    } else if trim(new.name->0) != trim(old.name->0) || !is_standard_name(trim(new.name->0)) {
        Err(rename_message())
    } else if new.description is None {
        Err(description_required_message())
    } else if trim(new.description->0).len() == 0 || trim(new.description->0).len() > 1024 {
        Err(description_length_message())
    } else if !body_has_content(content) {
        Err(empty_body_message())
    } else {
        Ok(SkillEdit::Replace)
    }
}

pub open spec fn edit_result_view(r: Result<SkillEdit, String>) -> Result<SkillEdit, Seq<char>> {
    match r {
        Ok(e) => Ok(e),
        Err(m) => Err(m@),
    }
}

fn fail(message: &str) -> (r: Result<SkillEdit, String>)
    ensures
        edit_result_view(r) == Err::<SkillEdit, Seq<char>>(message@),
{
    Err(String::from_str(message))
}

/// Rejects a `SKILL.md` edit of more than 1 MiB (counted in UTF-8 bytes).
pub fn check_edit_size(content: &str) -> (r: Result<(), String>)
    ensures
        r is Ok <==> content.len() <= MAX_SKILL_DOCUMENT_BYTES,
        r matches Err(m) ==> m@ == too_large_message(),
{
    if content.len() > MAX_SKILL_DOCUMENT_BYTES {
        Err(String::from_str("SKILL.md 不能超过 1 MiB / SKILL.md exceeds 1 MiB"))
    } else {
        Ok(())
    }
}

/// Decides an edit of a managed `SKILL.md`: `current` is the document on
/// disk, `expected` the one the editor opened and `content` the edit.
pub fn check_skill_edit(current: &str, expected: &str, content: &str) -> (r: Result<
    SkillEdit,
    String,
>)
    ensures
        edit_result_view(r) == edit_outcome(current@, expected@, content@),
{
    let cur = chars_of(current);
    let exp = chars_of(expected);
    let new_chars = chars_of(content);
    if !chars_eq(&cur, &exp) {
        return fail(
            "检测到外部修改，请重新打开后再编辑 / File changed externally; reopen before saving",
        );
    }
    if chars_eq(&new_chars, &cur) {
        return Ok(SkillEdit::Unchanged);
    }
    let old = parse_skill_document(current);
    let edited = parse_skill_document(content);
    if !edited.has_frontmatter {
        return fail("必须保留完整的 YAML frontmatter / YAML frontmatter is required");
    }
    let old_uuid = match &old.uuid {
        Some(u) => u,
        None => {
            return fail("当前 Skill 缺少有效 UUID，请先刷新管理库 / Existing Skill has no valid UUID");
        },
    };
    let same_uuid = match &edited.uuid {
        Some(u) => *u == *old_uuid,
        None => false,
    };
    if !same_uuid {
        return fail("不允许修改或删除 UUID / UUID cannot be changed or removed");
    }
    let old_name = match &old.name {
        Some(n) => trim_chars(&chars_of(n.as_str())),
        None => {
            return fail("当前 Skill 缺少名称 / Existing Skill has no name");
        },
    };
    let name = match &edited.name {
        Some(n) => trim_chars(&chars_of(n.as_str())),
        None => {
            return fail("名称不能为空 / Name is required");
        },
    };
    if !chars_eq(&name, &old_name) || !is_standard_name_chars(&name) {
        return fail("编辑器暂不允许重命名；名称须保持原值 / Renaming is not supported in the editor");
    }
    let description = match &edited.description {
        Some(d) => trim_chars(&chars_of(d.as_str())),
        None => {
            return fail("描述不能为空 / Description is required");
        },
    };
    if description.len() == 0 || description.len() > 1024 {
        return fail("描述需为 1–1024 个字符 / Description must contain 1–1024 characters");
    }
    if !skill_body_has_content(content) {
        return fail("正文不能为空 / Skill body cannot be empty");
    }
    Ok(SkillEdit::Replace)
}

/// The preview of a managed `SKILL.md` as it stands, untranslated: its
/// description is the one its frontmatter gives.
pub fn original_preview(skill_md_path: &str, content: String) -> (r: LocalSkillPreview)
    ensures
        r.skill_md_path@ == skill_md_path@,
        r.skill_md_content@ == content@,
        crate::document::opt_string_view(r.display_description) == doc_fields(content@).description,
        r.translation_status@ == "original"@,
{
    let meta = parse_skill_document(content.as_str());
    LocalSkillPreview {
        skill_md_path: String::from_str(skill_md_path),
        skill_md_content: content,
        display_description: meta.description,
        translation_status: String::from_str("original"),
    }
}

/// An edit that is accepted keeps the skill's identity: the UUID read from
/// the new content is the one read from the document on disk, and so is
/// the (trimmed) name; a document that is written has a frontmatter, a
/// description of 1 to 1024 characters and a body; a changed document whose UUID is not the current one
/// (changed or removed) is refused with the UUID message, once it was the
/// document the editor opened, keeps a frontmatter and the document on disk
/// has a UUID.
pub proof fn law_accepted_edit_keeps_identity(current: Seq<char>, expected: Seq<char>, content: Seq<char>)
    ensures
        edit_outcome(current, expected, content) is Ok ==> doc_fields(content).uuid == doc_fields(
            current,
        ).uuid,
        edit_outcome(current, expected, content) == Ok::<SkillEdit, Seq<char>>(SkillEdit::Replace)
            ==> doc_fields(current).uuid is Some && doc_fields(content).name is Some
            && doc_fields(current).name is Some && trim(doc_fields(content).name->0) == trim(
            doc_fields(current).name->0,
        ) && content != current && doc_has_frontmatter(content) && doc_fields(content).description is Some
            && 1 <= trim(doc_fields(content).description->0).len() <= 1024 && body_has_content(
            content,
        ),
        current == expected && content != current && doc_has_frontmatter(content) && doc_fields(
            current,
        ).uuid is Some && doc_fields(content).uuid != doc_fields(current).uuid ==> edit_outcome(
            current,
            expected,
            content,
        ) == Err::<SkillEdit, Seq<char>>(uuid_changed_message()),
        edit_outcome(current, expected, content) is Ok ==> current == expected,
{
}


} // verus!
