//! Installing and updating marketplace skills: which requests are accepted,
//! and when an update is refused because the target is another skill.
use crate::identity::{normalize_skill_uuid, normalized_uuid};
use crate::importing::opt_view;
use crate::text::{chars_eq, chars_of, trim, trim_chars};
use vstd::prelude::*;

verus! {

pub open spec fn empty_install_dir_message() -> Seq<char> {
    "安装目录不能为空"@
}

pub open spec fn missing_source_message() -> Seq<char> {
    "缺少有效的源码地址 (Source URL)，无法更新"@
}

/// An install or update names the directory it goes into.
pub fn check_install_dir(install_base_dir: &str) -> (r: Result<(), String>)
    ensures
        r is Ok <==> trim(install_base_dir@).len() > 0,
        r matches Err(e) ==> e@ == empty_install_dir_message(),
{
    if trim_chars(&chars_of(install_base_dir)).len() == 0 {
        Err(String::from_str("安装目录不能为空"))
    } else {
        Ok(())
    }
}

/// An update names the directory and the source it is updated from.
pub fn check_update_request(install_base_dir: &str, source_url: &str) -> (r: Result<(), String>)
    ensures
        r is Ok <==> trim(install_base_dir@).len() > 0 && trim(source_url@).len() > 0,
        trim(install_base_dir@).len() == 0 ==> (r matches Err(e) && e@ == empty_install_dir_message()),
        trim(install_base_dir@).len() > 0 && trim(source_url@).len() == 0 ==> (r matches Err(e) && e@
            == missing_source_message()),
{
    check_install_dir(install_base_dir)?;
    if trim_chars(&chars_of(source_url)).len() == 0 {
        Err(String::from_str("缺少有效的源码地址 (Source URL)，无法更新"))
    } else {
        Ok(())
    }
}

pub open spec fn missing_target_message() -> Seq<char> {
    "指定的 Skill 更新目标不存在"@
}

pub open spec fn name_mismatch_message() -> Seq<char> {
    "Skill 名称不匹配，已拒绝更新错误的 Skill"@
}

pub open spec fn uuid_mismatch_message() -> Seq<char> {
    "Skill UUID 不匹配，已拒绝更新错误的 Skill"@
}

/// The UUID an update keeps, or why it is refused, in the order the checks
/// are made: an explicit target must hold a `SKILL.md`; the installed
/// skill's name must be the requested one (both trimmed); where both the
/// request and the installed skill carry a UUID they must agree. The UUID
/// kept is the installed one, or else the requested one (normalized).
pub open spec fn update_identity_of(
    skill_name: Seq<char>,
    requested_uuid: Option<Seq<char>>,
    explicit_target: bool,
    target_has_skill_file: bool,
    existing_name: Option<Seq<char>>,
    existing_uuid: Option<Seq<char>>,
) -> Result<Option<Seq<char>>, Seq<char>> {
    let requested = match requested_uuid {
        Some(u) => normalized_uuid(u),
        None => None,
    };
    if explicit_target && !target_has_skill_file {
        Err(missing_target_message())
    } else if existing_name matches Some(n) && trim(n) != trim(skill_name) {
        Err(name_mismatch_message())
    } else if requested is Some && existing_uuid is Some && requested != existing_uuid {
        Err(uuid_mismatch_message())
    } else if existing_uuid is Some {
        Ok(existing_uuid)
    } else {
        Ok(requested)
    }
}

pub fn update_identity(
    skill_name: &str,
    requested_uuid: &Option<String>,
    explicit_target: bool,
    target_has_skill_file: bool,
    existing_name: &Option<String>,
    existing_uuid: &Option<String>,
) -> (r: Result<Option<String>, String>)
    ensures
        match update_identity_of(
            skill_name@,
            opt_view(*requested_uuid),
            explicit_target,
            target_has_skill_file,
            opt_view(*existing_name),
            opt_view(*existing_uuid),
        ) {
            Ok(o) => r matches Ok(x) && opt_view(x) == o,
            Err(m) => r matches Err(e) && e@ == m,
        },
{
    let requested = match requested_uuid {
        Some(u) => normalize_skill_uuid(u.as_str()),
        None => None,
    };
    if explicit_target && !target_has_skill_file {
        return Err(String::from_str("指定的 Skill 更新目标不存在"));
    }
    match existing_name {
        Some(n) => {
            let a = trim_chars(&chars_of(n.as_str()));
            let b = trim_chars(&chars_of(skill_name));
            if !chars_eq(&a, &b) {
                return Err(String::from_str("Skill 名称不匹配，已拒绝更新错误的 Skill"));
            }
        },
        None => {},
    }
    match (&requested, existing_uuid) {
        (Some(expected), Some(actual)) => {
            if !(*expected == *actual) {
                return Err(String::from_str("Skill UUID 不匹配，已拒绝更新错误的 Skill"));
            }
        },
        _ => {},
    }
    match existing_uuid {
        Some(u) => Ok(Some(u.clone())),
        None => Ok(requested),
    }
}

/// A fresh install does not go into a directory that exists already.
pub fn check_target_free(occupied: bool, overwrite: bool) -> (r: Result<(), String>)
    ensures
        r is Ok <==> (!occupied || overwrite),
        r matches Err(e) ==> e@ == "目标目录已存在，请更换名称或先清理"@,
{
    if occupied && !overwrite {
        Err(String::from_str("目标目录已存在，请更换名称或先清理"))
    } else {
        Ok(())
    }
}

} // verus!
