//! ClawHub search: the request rules and the reading of its results.
use crate::download::{percent_encoded, url_encode};
use crate::market::{inspect_query, has_control, remote_spec, remote_specs, RemoteSpec};
use crate::text::{chars_of, concat2, concat_texts, starts_with, string_of, trim, trim_chars};
use crate::types::{RemoteSkillView, RemoteSkillsViewResponse};
use vstd::prelude::*;
use vstd::string::StringSliceAdditionalSpecFns;

verus! {

/// The owner of a ClawHub skill.
#[derive(Debug)]
pub struct ClawHubOwner {
    pub handle: String,
    pub display_name: String,
}

/// What ClawHub knows natively of a skill: its categories and stars.
#[derive(Debug)]
pub struct ClawHubNative {
    pub categories: Vec<String>,
    pub stars: Option<u64>,
}

/// One search result as ClawHub reports it.
#[derive(Debug)]
pub struct ClawHubItem {
    pub id: String,
    pub slug: String,
    pub display_name: String,
    pub summary: String,
    pub downloads: u64,
    pub source: String,
    pub canonical_url: String,
    pub owner_handle: String,
    pub owner: Option<ClawHubOwner>,
    pub native: Option<ClawHubNative>,
}

pub open spec fn query_message() -> Seq<char> {
    "ClawHub：请输入 1–200 个字符的搜索词 / Enter a search keyword"@
}

pub open spec fn page_message() -> Seq<char> {
    "ClawHub：该搜索接口不支持继续翻页 / Search pagination is unavailable"@
}

/// Why a ClawHub search is refused before any request: the trimmed query
/// must have 1 to 200 characters and no control character; only the first
/// page, of 1 to 50 results, can be asked for.
pub open spec fn request_error(query: Seq<char>, limit: u64, offset: u64) -> Option<Seq<char>> {
    let q = trim(query);
    if q.len() == 0 || q.len() > 200 || has_control(q) {
        Some(query_message())
    } else if !(1 <= limit <= 50) || offset != 0 {
        Some(page_message())
    } else {
        None
    }
}

/// Checks a ClawHub search request (see `request_error`).
pub fn validate_request(query: &str, limit: u64, offset: u64) -> (r: Result<(), String>)
    ensures
        match r {
            Ok(()) => request_error(query@, limit, offset) is None,
            Err(e) => request_error(query@, limit, offset) == Some(e@),
        },
{
    let (q, control, _) = inspect_query(query);
    if q.len() == 0 || q.len() > 200 || control {
        return Err(String::from_str("ClawHub：请输入 1–200 个字符的搜索词 / Enter a search keyword"));
    }
    if !(1 <= limit && limit <= 50) || offset != 0 {
        return Err(
            String::from_str("ClawHub：该搜索接口不支持继续翻页 / Search pagination is unavailable"),
        );
    }
    Ok(())
}

/// The author shown for a result: the owner's display name, else the
/// owner's handle, else the item's owner handle.
pub open spec fn author_of(item: ClawHubItem) -> Seq<char> {
    match item.owner {
        Some(o) => {
            let a = if trim(o.display_name@).len() == 0 {
                o.handle@
            } else {
                o.display_name@
            };
            if trim(a).len() == 0 {
                item.owner_handle@
            } else {
                a
            }
        },
        None => item.owner_handle@,
    }
}

/// The page of a result on ClawHub.
pub open spec fn detail_url_of(item: ClawHubItem) -> Seq<char> {
    if starts_with(item.canonical_url@, "/"@) {
        "https://clawhub.ai"@ + item.canonical_url@
    } else {
        "https://clawhub.ai/"@ + item.owner_handle@ + "/skills/"@ + item.slug@
    }
}

/// A ClawHub result as a search result.
pub open spec fn clawhub_result(item: ClawHubItem) -> RemoteSpec {
    RemoteSpec {
        id: "clawhub:"@ + item.id@,
        name: item.display_name@,
        namespace: match item.native {
            Some(n) => if n.categories@.len() > 0 {
                n.categories@[0]@
            } else {
                Seq::<char>::empty()
            },
            None => Seq::<char>::empty(),
        },
        source_url: "https://clawhub.ai/api/v1/download?slug="@ + percent_encoded(
            vstd::utf8::encode_utf8(item.slug@),
        ),
        description: item.summary@,
        detail_url: detail_url_of(item),
        description_zh: Seq::<char>::empty(),
        author: author_of(item),
        installs: item.downloads,
        stars: match item.native {
            Some(n) => match n.stars {
                Some(s) => s,
                None => 0,
            },
            None => 0,
        },
        market_id: "clawhub"@,
        market_label: "ClawHub"@,
    }
}

/// The results that are ClawHub's own, at most `limit` of them, in order.
pub open spec fn selected(items: Seq<ClawHubItem>, limit: u64) -> Seq<ClawHubItem>
    decreases items.len(),
{
    if items.len() == 0 {
        seq![]
    } else {
        let prefix = selected(items.drop_last(), limit);
        if prefix.len() < limit && items.last().source@ == "clawhub"@ {
            prefix.push(items.last())
        } else {
            prefix
        }
    }
}

proof fn lemma_selected(items: Seq<ClawHubItem>, limit: u64)
    ensures
        selected(items, limit).len() <= limit,
        selected(items, limit).len() <= items.len(),
        forall|j: int|
            0 <= j < selected(items, limit).len() ==> exists|i: int|
                0 <= i < items.len() && items[i] == #[trigger] selected(items, limit)[j]
                    && items[i].source@ == "clawhub"@,
        items.len() > 0 && items[0].source@ == "clawhub"@ && limit >= 1 ==> selected(
            items,
            limit,
        ).len() >= 1 && selected(items, limit)[0] == items[0],
    decreases items.len(),
{
    if items.len() > 0 {
        let d = items.drop_last();
        lemma_selected(d, limit);
        let p = selected(d, limit);
        assert forall|j: int| 0 <= j < selected(items, limit).len() implies exists|i: int|
            0 <= i < items.len() && items[i] == #[trigger] selected(items, limit)[j]
                && items[i].source@ == "clawhub"@ by {
            if j < p.len() {
                assert(selected(items, limit)[j] == p[j]);
                let i = choose|i: int| 0 <= i < d.len() && d[i] == p[j] && d[i].source@ == "clawhub"@;
                assert(items[i] == d[i]);
            } else {
                assert(selected(items, limit)[j] == items.last());
                assert(items[items.len() - 1] == items.last());
            }
        }
        if items.len() > 1 && items[0].source@ == "clawhub"@ && limit >= 1 {
            assert(d[0] == items[0]);
        }
    }
}

/// Each ClawHub search result carries the texts of the item it comes from:
/// at most `limit` results, each made from one of ClawHub's own items, with
/// that item's summary as its description, its display name as its name,
/// its id after `clawhub:` and its downloads as its installs; where the first item is ClawHub's own and
/// `limit` admits one, it is the first result.
pub proof fn law_clawhub_results_carry_item_texts(items: Seq<ClawHubItem>, limit: u64)
    ensures
        ({
            let rs = selected(items, limit).map_values(|i: ClawHubItem| clawhub_result(i));
            &&& rs.len() <= limit
            &&& forall|j: int|
                0 <= j < rs.len() ==> exists|i: int|
                    0 <= i < items.len() && items[i].source@ == "clawhub"@ && (
                    #[trigger] rs[j]).description == items[i].summary@ && rs[j].name
                        == items[i].display_name@ && rs[j].id == "clawhub:"@ + items[i].id@
                        && rs[j].installs == items[i].downloads
            &&& items.len() > 0 && items[0].source@ == "clawhub"@ && limit >= 1 ==> rs.len() >= 1
                && rs[0].description == items[0].summary@ && rs[0].name
                == items[0].display_name@
        }),
{
    lemma_selected(items, limit);
    let sel = selected(items, limit);
    let rs = sel.map_values(|i: ClawHubItem| clawhub_result(i));
    assert forall|j: int| 0 <= j < rs.len() implies exists|i: int|
        0 <= i < items.len() && items[i].source@ == "clawhub"@ && (#[trigger] rs[j]).description
            == items[i].summary@ && rs[j].name == items[i].display_name@ && rs[j].id == "clawhub:"@
            + items[i].id@ && rs[j].installs == items[i].downloads by {
        let i = choose|i: int| 0 <= i < items.len() && items[i] == #[trigger] sel[j]
            && items[i].source@ == "clawhub"@;
        assert(rs[j] == clawhub_result(sel[j]));
    }
}

fn text_is(s: &String, t: &str) -> (r: bool)
    ensures
        r == (s@ == t@),
{
    let a = chars_of(s.as_str());
    let b = chars_of(t);
    crate::text::chars_eq(&a, &b)
}

fn is_blank(s: &String) -> (r: bool)
    ensures
        r == (trim(s@).len() == 0),
{
    trim_chars(&chars_of(s.as_str())).len() == 0
}

/// One ClawHub result as a search result.
pub fn map_item(item: &ClawHubItem) -> (r: RemoteSkillView)
    ensures
        remote_spec(r) == clawhub_result(*item),
{
    let author = match &item.owner {
        Some(o) => {
            let a = if is_blank(&o.display_name) {
                o.handle.clone()
            } else {
                o.display_name.clone()
            };
            if is_blank(&a) {
                item.owner_handle.clone()
            } else {
                a
            }
        },
        None => item.owner_handle.clone(),
    };
    let namespace = match &item.native {
        Some(n) => if n.categories.len() > 0 {
            n.categories[0].clone()
        } else {
            String::new()
        },
        None => String::new(),
    };
    let stars = match &item.native {
        Some(n) => match n.stars {
            Some(s) => s,
            None => 0,
        },
        None => 0,
    };
    let canonical = chars_of(item.canonical_url.as_str());
    let slash = chars_of("/");
    let detail_url = if crate::text::chars_starts_with(&canonical, &slash) {
        concat2("https://clawhub.ai", item.canonical_url.as_str())
    } else {
        let parts = vec![
            "https://clawhub.ai/",
            item.owner_handle.as_str(),
            "/skills/",
            item.slug.as_str(),
        ];
        let url = concat_texts(&parts);
        proof {
            reveal_with_fuel(Seq::fold_left, 5);
            assert(parts@.drop_last().drop_last().drop_last().drop_last() =~= Seq::<&str>::empty());
        }
        url
    };
    let encoded = url_encode(item.slug.as_str());
    RemoteSkillView {
        id: concat2("clawhub:", item.id.as_str()),
        name: item.display_name.clone(),
        namespace,
        source_url: concat2("https://clawhub.ai/api/v1/download?slug=", encoded.as_str()),
        description: item.summary.clone(),
        detail_url,
        description_zh: String::new(),
        author,
        installs: item.downloads,
        stars,
        market_id: String::from_str("clawhub"),
        market_label: String::from_str("ClawHub"),
    }
}

/// The ClawHub results a search shows: ClawHub's own results, at most
/// `limit` of them, all on one page.
pub fn map_results(items: &Vec<ClawHubItem>, limit: u64) -> (r: RemoteSkillsViewResponse)
    ensures
        remote_specs(r.skills@) == selected(items@, limit).map_values(
            |i: ClawHubItem| clawhub_result(i),
        ),
        r.total == r.skills@.len(),
        r.limit == limit,
        r.offset == 0,
        !r.has_next,
        r.daily_remaining is None,
{
    let mut skills: Vec<RemoteSkillView> = Vec::new();
    let mut i: usize = 0;
    assert(items@.subrange(0, 0) =~= Seq::<ClawHubItem>::empty());
    while i < items.len()
        invariant
            i <= items.len(),
            remote_specs(skills@) == selected(items@.subrange(0, i as int), limit).map_values(
                |x: ClawHubItem| clawhub_result(x),
            ),
            skills@.len() == selected(items@.subrange(0, i as int), limit).len(),
            skills@.len() <= limit,
        decreases items.len() - i,
    {
        let ghost pre = items@.subrange(0, i as int);
        assert(items@.subrange(0, i + 1).drop_last() =~= pre);
        assert(items@.subrange(0, i + 1).last() == items@[i as int]);
        if (skills.len() as u64) < limit && text_is(&items[i].source, "clawhub") {
            let mapped = map_item(&items[i]);
            proof {
                crate::market::lemma_remote_specs_push(skills@, mapped);
                let sel = selected(pre, limit);
                assert(sel.push(items@[i as int]).map_values(|x: ClawHubItem| clawhub_result(x))
                    =~= sel.map_values(|x: ClawHubItem| clawhub_result(x)).push(
                    clawhub_result(items@[i as int]),
                ));
            }
            skills.push(mapped);
        }
        i += 1;
    }
    assert(items@.subrange(0, items.len() as int) =~= items@);
    let total = skills.len() as u64;
    RemoteSkillsViewResponse {
        skills,
        total,
        limit,
        offset: 0,
        has_next: false,
        daily_remaining: None,
    }
}

} // verus!
