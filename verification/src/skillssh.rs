//! skills.sh search: the request rules, the sources it may name, and the
//! reading of its results.
use crate::market::{
    all_safe_pieces, has_control, inspect_query, is_safe_piece, remote_spec, remote_specs,
    split_chars, split_on, RemoteSpec,
};
use crate::text::{chars_of, concat2, string_of, views};
use crate::types::{RemoteSkillView, RemoteSkillsViewResponse};
use vstd::prelude::*;

verus! {

/// One skills.sh result.
#[derive(Debug)]
pub struct SearchSkill {
    pub id: String,
    pub name: String,
    pub installs: u64,
    pub source: String,
}

pub open spec fn query_message() -> Seq<char> {
    "skills.sh：请输入 2–200 个字符的搜索词 / Enter at least 2 characters"@
}

pub open spec fn page_message() -> Seq<char> {
    "skills.sh：匿名搜索不支持继续翻页 / Anonymous search pagination is unavailable"@
}

/// Why a skills.sh search is refused before any request: the trimmed query
/// must have 2 to 200 characters and no control character; only the first
/// page, of 1 to 50 results, can be asked for.
pub open spec fn request_error(query: Seq<char>, limit: u64, offset: u64) -> Option<Seq<char>> {
    let q = crate::text::trim(query);
    if q.len() < 2 || q.len() > 200 || has_control(q) {
        Some(query_message())
    } else if !(1 <= limit <= 50) || offset != 0 {
        Some(page_message())
    } else {
        None
    }
}

/// Checks a skills.sh search request (see `request_error`).
pub fn validate_request(query: &str, limit: u64, offset: u64) -> (r: Result<(), String>)
    ensures
        match r {
            Ok(()) => request_error(query@, limit, offset) is None,
            Err(e) => request_error(query@, limit, offset) == Some(e@),
        },
{
    let (q, control, _) = inspect_query(query);
    if q.len() < 2 || q.len() > 200 || control {
        return Err(
            String::from_str("skills.sh：请输入 2–200 个字符的搜索词 / Enter at least 2 characters"),
        );
    }
    if !(1 <= limit && limit <= 50) || offset != 0 {
        return Err(
            String::from_str(
                "skills.sh：匿名搜索不支持继续翻页 / Anonymous search pagination is unavailable",
            ),
        );
    }
    Ok(())
}

/// Whether a source is `owner/repo` with both pieces safe.
pub open spec fn is_valid_source(source: Seq<char>) -> bool {
    let parts = split_on(source, '/');
    parts.len() == 2 && forall|k: int| 0 <= k < parts.len() ==> is_safe_piece(#[trigger] parts[k])
}

/// Whether a source is `owner/repo` with both pieces safe.
pub fn valid_source(source: &str) -> (r: bool)
    ensures
        r == is_valid_source(source@),
{
    let parts = split_chars(&chars_of(source), '/');
    parts.len() == 2 && all_safe_pieces(&parts)
}

/// A skills.sh result as a search result.
pub open spec fn skillssh_result(item: SearchSkill) -> RemoteSpec {
    RemoteSpec {
        id: "skillssh:"@ + item.id@,
        name: item.name@,
        namespace: Seq::<char>::empty(),
        source_url: "https://github.com/"@ + item.source@,
        description: "Skill published from "@ + item.source@,
        detail_url: "https://skills.sh/"@ + item.id@,
        description_zh: Seq::<char>::empty(),
        author: split_on(item.source@, '/')[0],
        installs: item.installs,
        stars: 0,
        market_id: "skillssh"@,
        market_label: "skills.sh"@,
    }
}

/// The results with a valid source, at most `limit` of them, in order.
pub open spec fn selected(items: Seq<SearchSkill>, limit: u64) -> Seq<SearchSkill>
    decreases items.len(),
{
    if items.len() == 0 {
        seq![]
    } else {
        let prefix = selected(items.drop_last(), limit);
        if prefix.len() < limit && is_valid_source(items.last().source@) {
            prefix.push(items.last())
        } else {
            prefix
        }
    }
}

/// One skills.sh result as a search result.
pub fn map_item(item: &SearchSkill) -> (r: RemoteSkillView)
    ensures
        remote_spec(r) == skillssh_result(*item),
{
    let parts = split_chars(&chars_of(item.source.as_str()), '/');
    let ghost pv = views(parts@);
    assert(pv.len() >= 1);
    assert(pv[0] == parts@[0]@);
    let author = string_of(&parts[0]);
    RemoteSkillView {
        id: concat2("skillssh:", item.id.as_str()),
        name: item.name.clone(),
        namespace: String::new(),
        source_url: concat2("https://github.com/", item.source.as_str()),
        description: concat2("Skill published from ", item.source.as_str()),
        detail_url: concat2("https://skills.sh/", item.id.as_str()),
        description_zh: String::new(),
        author,
        installs: item.installs,
        stars: 0,
        market_id: String::from_str("skillssh"),
        market_label: String::from_str("skills.sh"),
    }
}

/// The skills.sh results a search shows: those with a valid source, at most
/// `limit`, all on one page.
pub fn map_results(items: &Vec<SearchSkill>, limit: u64) -> (r: RemoteSkillsViewResponse)
    ensures
        remote_specs(r.skills@) == selected(items@, limit).map_values(
            |i: SearchSkill| skillssh_result(i),
        ),
        r.total == r.skills@.len(),
        r.limit == limit,
        r.offset == 0,
        !r.has_next,
        r.daily_remaining is None,
{
    let mut skills: Vec<RemoteSkillView> = Vec::new();
    let mut i: usize = 0;
    assert(items@.subrange(0, 0) =~= Seq::<SearchSkill>::empty());
    while i < items.len()
        invariant
            i <= items.len(),
            remote_specs(skills@) == selected(items@.subrange(0, i as int), limit).map_values(
                |x: SearchSkill| skillssh_result(x),
            ),
            skills@.len() == selected(items@.subrange(0, i as int), limit).len(),
            skills@.len() <= limit,
        decreases items.len() - i,
    {
        let ghost pre = items@.subrange(0, i as int);
        assert(items@.subrange(0, i + 1).drop_last() =~= pre);
        assert(items@.subrange(0, i + 1).last() == items@[i as int]);
        if (skills.len() as u64) < limit && valid_source(items[i].source.as_str()) {
            let mapped = map_item(&items[i]);
            proof {
                crate::market::lemma_remote_specs_push(skills@, mapped);
                let sel = selected(pre, limit);
                assert(sel.push(items@[i as int]).map_values(|x: SearchSkill| skillssh_result(x))
                    =~= sel.map_values(|x: SearchSkill| skillssh_result(x)).push(
                    skillssh_result(items@[i as int]),
                ));
            }
            skills.push(mapped);
        }
        i += 1;
    }
    assert(items@.subrange(0, items.len() as int) =~= items@);
    let total = skills.len() as u64;
    RemoteSkillsViewResponse {
        skills,
        total,
        limit,
        offset: 0,
        has_next: false,
        daily_remaining: None,
    }
}

} // verus!
