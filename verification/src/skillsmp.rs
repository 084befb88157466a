//! SkillsMP search: the request rules, the download links it may offer, and
//! the reading of its paged results.
use crate::market::{
    all_safe_pieces, has_char, has_control, inspect_query, is_safe_piece, remote_spec,
    remote_specs, split_chars, split_on, trim_trailing_slashes, RemoteSpec,
};
use crate::text::{chars_of, chars_starts_with, concat2, slice_chars, starts_with, views};
use crate::types::RemoteSkillView;
use vstd::prelude::*;

verus! {

/// A page of SkillsMP results.
#[derive(Debug)]
pub struct SkillsMpResponse {
    pub skills: Vec<RemoteSkillView>,
    pub total: u64,
    pub limit: u64,
    pub offset: u64,
    pub has_next: bool,
    pub daily_remaining: Option<u64>,
}

/// One SkillsMP result.
#[derive(Debug)]
pub struct OnlineSkill {
    pub id: String,
    pub name: String,
    pub author: String,
    pub description: String,
    pub github_url: String,
    pub stars: u64,
}

/// The paging SkillsMP reports.
#[derive(Debug)]
pub struct Pagination {
    pub page: u64,
    pub limit: u64,
    pub total: u64,
    pub has_next: bool,
}

/// The results and paging of a search.
#[derive(Debug)]
pub struct SearchData {
    pub skills: Vec<OnlineSkill>,
    pub pagination: Pagination,
}

/// A SkillsMP answer.
#[derive(Debug)]
pub struct Envelope {
    pub success: bool,
    pub data: Option<SearchData>,
}

pub open spec fn query_message() -> Seq<char> {
    "SkillsMP：请输入 1–200 个字符的搜索词，不支持通配符 * / Enter a keyword, not a wildcard"@
}

pub open spec fn page_message() -> Seq<char> {
    "SkillsMP：分页参数无效（最多 50 页）/ Invalid pagination"@
}

pub open spec fn failed_message() -> Seq<char> {
    "SkillsMP 未能完成搜索，请稍后重试 / Search failed"@
}

pub open spec fn missing_data_message() -> Seq<char> {
    "SkillsMP 响应缺少数据 / Missing response data"@
}

pub open spec fn paging_message() -> Seq<char> {
    "SkillsMP 分页响应不一致，请刷新重试 / Unexpected pagination"@
}

/// Why a SkillsMP search is refused before any request: the trimmed query
/// must have 1 to 200 characters, no `*` and no control character; pages
/// hold 1 to 50 results, the offset is a whole page, and at most 50 pages
/// are reachable.
pub open spec fn request_error(query: Seq<char>, limit: u64, offset: u64) -> Option<Seq<char>> {
    let q = crate::text::trim(query);
    if q.len() == 0 || q.len() > 200 || has_char(q, '*') || has_control(q) {
        Some(query_message())
    } else if !(1 <= limit <= 50) || offset % limit != 0 || offset / limit >= 50 {
        Some(page_message())
    } else {
        None
    }
}

/// Checks a SkillsMP search request (see `request_error`).
pub fn validate_request(query: &str, limit: u64, offset: u64) -> (r: Result<(), String>)
    ensures
        match r {
            Ok(()) => request_error(query@, limit, offset) is None,
            Err(e) => request_error(query@, limit, offset) == Some(e@),
        },
{
    let (q, control, star) = inspect_query(query);
    if q.len() == 0 || q.len() > 200 || star || control {
        return Err(
            String::from_str(
                "SkillsMP：请输入 1–200 个字符的搜索词，不支持通配符 * / Enter a keyword, not a wildcard",
            ),
        );
    }
    if !(1 <= limit && limit <= 50) || offset % limit != 0 || offset / limit >= 50 {
        return Err(String::from_str("SkillsMP：分页参数无效（最多 50 页）/ Invalid pagination"));
    }
    Ok(())
}

/// Whether a link may be offered for download: a `https://github.com/`
/// link without query, fragment or backslash, naming a repository
/// (`owner/repo`) or a directory of one (`owner/repo/tree/...`), every
/// piece safe (see `is_safe_piece`); trailing `/` aside.
pub open spec fn is_supported_github_url(url: Seq<char>) -> bool {
    let prefix = "https://github.com/"@;
    let path = url.subrange(prefix.len() as int, url.len() as int);
    let parts = split_on(trim_trailing_slashes(path), '/');
    &&& starts_with(url, prefix)
    &&& !has_char(path, '?') && !has_char(path, '#') && !has_char(path, '\\')
    &&& (parts.len() == 2 || (parts.len() >= 5 && parts[2] == "tree"@))
    &&& forall|k: int| 0 <= k < parts.len() ==> is_safe_piece(#[trigger] parts[k])
}

fn has_any(v: &Vec<char>) -> (r: bool)
    ensures
        r == (has_char(v@, '?') || has_char(v@, '#') || has_char(v@, '\\')),
{
    let mut i: usize = 0;
    while i < v.len()
        invariant
            i <= v.len(),
            forall|k: int| 0 <= k < i ==> v@[k] != '?' && v@[k] != '#' && v@[k] != '\\',
        decreases v.len() - i,
    {
        if v[i] == '?' || v[i] == '#' || v[i] == '\\' {
            assert(v@[i as int] == v[i as int]);
            return true;
        }
        i += 1;
    }
    false
}

fn trim_slashes_end(v: &Vec<char>) -> (r: Vec<char>)
    ensures
        r@ == trim_trailing_slashes(v@),
{
    let mut n = v.len();
    assert(v@.subrange(0, n as int) =~= v@);
    while n > 0 && v[n - 1] == '/'
        invariant
            n <= v.len(),
            trim_trailing_slashes(v@) == trim_trailing_slashes(v@.subrange(0, n as int)),
        decreases n,
    {
        assert(v@.subrange(0, n as int).drop_last() =~= v@.subrange(0, n - 1));
        n -= 1;
    }
    assert(trim_trailing_slashes(v@.subrange(0, n as int)) == v@.subrange(0, n as int));
    slice_chars(v, 0, n)
}

/// Whether a link may be offered for download (see
/// `is_supported_github_url`).
pub fn supported_github_url(url: &str) -> (r: bool)
    ensures
        r == is_supported_github_url(url@),
{
    let v = chars_of(url);
    let prefix = chars_of("https://github.com/");
    if !chars_starts_with(&v, &prefix) {
        return false;
    }
    let path = slice_chars(&v, prefix.len(), v.len());
    if has_any(&path) {
        return false;
    }
    let trimmed = trim_slashes_end(&path);
    let parts = split_chars(&trimmed, '/');
    let ghost pv = views(parts@);
    let shape_ok = parts.len() == 2 || (parts.len() >= 5 && {
        let tree = chars_of("tree");
        assert(pv[2] == parts@[2]@);
        crate::text::chars_eq(&parts[2], &tree)
    });
    if !shape_ok {
        return false;
    }
    all_safe_pieces(&parts)
}

/// A SkillsMP result as a search result; a link that may not be offered is
/// left empty.
pub open spec fn skillsmp_result(item: OnlineSkill) -> RemoteSpec {
    RemoteSpec {
        id: "skillsmp:"@ + item.id@,
        name: item.name@,
        namespace: Seq::<char>::empty(),
        source_url: if is_supported_github_url(item.github_url@) {
            item.github_url@
        } else {
            Seq::<char>::empty()
        },
        description: item.description@,
        detail_url: Seq::<char>::empty(),
        description_zh: Seq::<char>::empty(),
        author: item.author@,
        installs: 0,
        stars: item.stars,
        market_id: "skillsmp"@,
        market_label: "SkillsMP · Online"@,
    }
}

/// One SkillsMP result as a search result.
pub fn map_item(item: &OnlineSkill) -> (r: RemoteSkillView)
    ensures
        remote_spec(r) == skillsmp_result(*item),
{
    let source_url = if supported_github_url(item.github_url.as_str()) {
        item.github_url.clone()
    } else {
        String::new()
    };
    RemoteSkillView {
        id: concat2("skillsmp:", item.id.as_str()),
        name: item.name.clone(),
        namespace: String::new(),
        source_url,
        description: item.description.clone(),
        detail_url: String::new(),
        description_zh: String::new(),
        author: item.author.clone(),
        installs: 0,
        stars: item.stars,
        market_id: String::from_str("skillsmp"),
        market_label: String::from_str("SkillsMP · Online"),
    }
}

/// Why a SkillsMP answer is refused: it reports a failure, has no data, or
/// its paging is not the page asked for (page number from 1, same page
/// size, no more results than a page holds).
pub open spec fn answer_error(envelope: Envelope, limit: u64, offset: u64) -> Option<Seq<char>> {
    if !envelope.success {
        Some(failed_message())
    } else {
        match envelope.data {
            None => Some(missing_data_message()),
            Some(data) => if data.pagination.page != offset / limit + 1 || data.pagination.limit
                != limit || data.skills@.len() > limit {
                Some(paging_message())
            } else {
                None
            },
        }
    }
}

/// A SkillsMP page as shown: its results mapped, the reported total, and a
/// next page only when SkillsMP has one and it is within the first 50.
pub fn map_response(envelope: &Envelope, limit: u64, offset: u64, daily_remaining: Option<u64>) -> (r:
    Result<SkillsMpResponse, String>)
    requires
        limit > 0,
        offset / limit < u64::MAX,
    ensures
        match r {
            Err(e) => answer_error(*envelope, limit, offset) == Some(e@),
            Ok(page) => {
                &&& answer_error(*envelope, limit, offset) is None
                &&& remote_specs(page.skills@) == envelope.data->0.skills@.map_values(
                    |i: OnlineSkill| skillsmp_result(i),
                )
                &&& page.total == envelope.data->0.pagination.total
                &&& page.limit == limit
                &&& page.offset == offset
                &&& page.has_next == (envelope.data->0.pagination.has_next && offset / limit + 1
                    < 50)
                &&& page.daily_remaining == daily_remaining
            },
        },
{
    if !envelope.success {
        return Err(String::from_str("SkillsMP 未能完成搜索，请稍后重试 / Search failed"));
    }
    let data = match &envelope.data {
        Some(d) => d,
        None => {
            return Err(String::from_str("SkillsMP 响应缺少数据 / Missing response data"));
        },
    };
    if data.pagination.page != offset / limit + 1 || data.pagination.limit != limit
        || data.skills.len() as u64 > limit {
        return Err(String::from_str("SkillsMP 分页响应不一致，请刷新重试 / Unexpected pagination"));
    }
    let mut skills: Vec<RemoteSkillView> = Vec::new();
    let mut i: usize = 0;
    while i < data.skills.len()
        invariant
            i <= data.skills.len(),
            remote_specs(skills@) == data.skills@.subrange(0, i as int).map_values(
                |x: OnlineSkill| skillsmp_result(x),
            ),
        decreases data.skills.len() - i,
    {
        let mapped = map_item(&data.skills[i]);
        proof {
            crate::market::lemma_remote_specs_push(skills@, mapped);
            assert(data.skills@.subrange(0, i + 1).map_values(|x: OnlineSkill| skillsmp_result(x))
                =~= data.skills@.subrange(0, i as int).map_values(
                |x: OnlineSkill| skillsmp_result(x),
            ).push(skillsmp_result(data.skills@[i as int])));
        }
        skills.push(mapped);
        i += 1;
    }
    assert(data.skills@.subrange(0, data.skills.len() as int) =~= data.skills@);
    Ok(
        SkillsMpResponse {
            skills,
            total: data.pagination.total,
            limit,
            offset,
            has_next: data.pagination.has_next && offset / limit + 1 < 50,
            daily_remaining,
        },
    )
}

} // verus!
