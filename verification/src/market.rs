//! What the marketplace searches share: the query rules, the shape of a
//! safe GitHub link, and the search result as a value.
use crate::text::{
    chars_eq, chars_of, char_is_control, is_ascii_alnum, is_control, starts_with, string_of,
    trim, trim_chars,
};
use crate::types::RemoteSkillView;
use vstd::prelude::*;

verus! {

/// Whether a text holds a control character.
pub open spec fn has_control(s: Seq<char>) -> bool {
    exists|i: int| 0 <= i < s.len() && is_control(#[trigger] s[i])
}

/// Whether a text holds `c`.
pub open spec fn has_char(s: Seq<char>, c: char) -> bool {
    exists|i: int| 0 <= i < s.len() && #[trigger] s[i] == c
}

/// The trimmed query, with whether it holds a control character and
/// whether it holds `*`.
pub fn inspect_query(query: &str) -> (r: (Vec<char>, bool, bool))
    ensures
        r.0@ == trim(query@),
        r.1 == has_control(trim(query@)),
        r.2 == has_char(trim(query@), '*'),
{
    let q = trim_chars(&chars_of(query));
    let mut control = false;
    let mut star = false;
    let mut i: usize = 0;
    while i < q.len()
        invariant
            i <= q.len(),
            control == exists|k: int| 0 <= k < i && is_control(#[trigger] q@[k]),
            star == exists|k: int| 0 <= k < i && #[trigger] q@[k] == '*',
        decreases q.len() - i,
    {
        if char_is_control(q[i]) {
            control = true;
        }
        if q[i] == '*' {
            star = true;
        }
        i += 1;
    }
    (q, control, star)
}

/// Whether a path piece is safe in a GitHub link: not empty, not `.` or
/// `..`, and made of ASCII letters, digits, `-`, `_` and `.`.
pub open spec fn is_safe_piece(p: Seq<char>) -> bool {
    &&& p.len() > 0
    &&& p != "."@
    &&& p != ".."@
    &&& forall|i: int|
        0 <= i < p.len() ==> is_ascii_alnum(#[trigger] p[i]) || p[i] == '-' || p[i] == '_' || p[i]
            == '.'
}

/// The pieces of a text between `c` characters seen so far, and the piece
/// being read (empty pieces kept, as `str::split` keeps them).
pub open spec fn scan_split(s: Seq<char>, c: char) -> (Seq<Seq<char>>, Seq<char>)
    decreases s.len(),
{
    if s.len() == 0 {
        (seq![], seq![])
    } else {
        let (done, cur) = scan_split(s.drop_last(), c);
        if s.last() == c {
            (done.push(cur), seq![])
        } else {
            (done, cur.push(s.last()))
        }
    }
}

/// `str::split` on a character.
pub open spec fn split_on(s: Seq<char>, c: char) -> Seq<Seq<char>> {
    let (done, cur) = scan_split(s, c);
    done.push(cur)
}

/// `s` without its trailing `/` characters.
pub open spec fn trim_trailing_slashes(s: Seq<char>) -> Seq<char>
    decreases s.len(),
{
    if s.len() > 0 && s.last() == '/' {
        trim_trailing_slashes(s.drop_last())
    } else {
        s
    }
}

/// `str::split` on a character.
pub fn split_chars(v: &Vec<char>, c: char) -> (r: Vec<Vec<char>>)
    ensures
        crate::text::views(r@) == split_on(v@, c),
{
    let mut done: Vec<Vec<char>> = Vec::new();
    let mut cur: Vec<char> = Vec::new();
    let mut i: usize = 0;
    assert(v@.subrange(0, 0) =~= Seq::<char>::empty());
    while i < v.len()
        invariant
            i <= v.len(),
            scan_split(v@.subrange(0, i as int), c) == (crate::text::views(done@), cur@),
        decreases v.len() - i,
    {
        assert(v@.subrange(0, i + 1).drop_last() =~= v@.subrange(0, i as int));
        if v[i] == c {
            proof {
                crate::text::lemma_views_push(done@, cur);
            }
            done.push(cur);
            cur = Vec::new();
            assert(cur@ =~= Seq::<char>::empty());
        } else {
            cur.push(v[i]);
        }
        i += 1;
    }
    assert(v@.subrange(0, v.len() as int) =~= v@);
    proof {
        crate::text::lemma_views_push(done@, cur);
    }
    done.push(cur);
    done
}

/// Whether a path piece is safe in a GitHub link.
pub fn safe_piece(p: &Vec<char>) -> (r: bool)
    ensures
        r == is_safe_piece(p@),
{
    if p.len() == 0 {
        return false;
    }
    let dot = chars_of(".");
    let dots = chars_of("..");
    if chars_eq(p, &dot) || chars_eq(p, &dots) {
        return false;
    }
    let mut i: usize = 0;
    while i < p.len()
        invariant
            i <= p.len(),
            forall|k: int|
                0 <= k < i ==> is_ascii_alnum(#[trigger] p@[k]) || p@[k] == '-' || p@[k] == '_'
                    || p@[k] == '.',
        decreases p.len() - i,
    {
        let c = p[i];
        if !(('0' <= c && c <= '9') || ('a' <= c && c <= 'z') || ('A' <= c && c <= 'Z') || c == '-'
            || c == '_' || c == '.') {
            return false;
        }
        i += 1;
    }
    true
}

/// Whether all pieces are safe.
pub fn all_safe_pieces(ps: &Vec<Vec<char>>) -> (r: bool)
    ensures
        r == forall|k: int| 0 <= k < ps@.len() ==> is_safe_piece(#[trigger] crate::text::views(ps@)[k]),
{
    let mut i: usize = 0;
    while i < ps.len()
        invariant
            i <= ps.len(),
            forall|k: int| 0 <= k < i ==> is_safe_piece(#[trigger] crate::text::views(ps@)[k]),
        decreases ps.len() - i,
    {
        assert(crate::text::views(ps@)[i as int] == ps@[i as int]@);
        if !safe_piece(&ps[i]) {
            return false;
        }
        i += 1;
    }
    true
}

/// A search result as a value.
pub struct RemoteSpec {
    pub id: Seq<char>,
    pub name: Seq<char>,
    pub namespace: Seq<char>,
    pub source_url: Seq<char>,
    pub description: Seq<char>,
    pub detail_url: Seq<char>,
    pub description_zh: Seq<char>,
    pub author: Seq<char>,
    pub installs: u64,
    pub stars: u64,
    pub market_id: Seq<char>,
    pub market_label: Seq<char>,
}

pub open spec fn remote_spec(r: RemoteSkillView) -> RemoteSpec {
    RemoteSpec {
        id: r.id@,
        name: r.name@,
        namespace: r.namespace@,
        source_url: r.source_url@,
        description: r.description@,
        detail_url: r.detail_url@,
        description_zh: r.description_zh@,
        author: r.author@,
        installs: r.installs,
        stars: r.stars,
        market_id: r.market_id@,
        market_label: r.market_label@,
    }
}

pub open spec fn remote_specs(v: Seq<RemoteSkillView>) -> Seq<RemoteSpec> {
    v.map_values(|r: RemoteSkillView| remote_spec(r))
}

pub proof fn lemma_remote_specs_push(v: Seq<RemoteSkillView>, r: RemoteSkillView)
    ensures
        remote_specs(v.push(r)) == remote_specs(v).push(remote_spec(r)),
{
    assert(remote_specs(v.push(r)) =~= remote_specs(v).push(remote_spec(r)));
}

} // verus!
