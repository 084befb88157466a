//! Where a skill is downloaded from: a GitHub repository, a directory of
//! one, or a ZIP archive; the archive request made for it; the size limit
//! on what is downloaded; and the choice of the skill directory inside the
//! archive.
use crate::text::{
    ascii_lower, ascii_lower_char, chars_eq, chars_of, chars_ends_with, chars_starts_with,
    char_to_ascii_lower, ends_with, join, join_chars, starts_with, string_of, trim, trim_chars,
    views,
};
use vstd::prelude::*;
use vstd::string::StringSliceAdditionalSpecFns;

verus! {

/// A download source.
#[derive(Debug, PartialEq, Eq)]
pub enum DownloadSource {
    /// The default branch of a repository.
    GitHubRepo { owner: String, repo: String },
    /// A directory (`subpath`, components joined by `/`) of a repository at
    /// a branch or tag.
    GitHubTree { owner: String, repo: String, git_ref: String, subpath: String },
    /// A ZIP archive at a URL.
    ZipUrl { url: String },
}

/// A download source as a value.
pub enum SourceView {
    GitHubRepo { owner: Seq<char>, repo: Seq<char> },
    GitHubTree { owner: Seq<char>, repo: Seq<char>, git_ref: Seq<char>, subpath: Seq<char> },
    ZipUrl { url: Seq<char> },
}

impl View for DownloadSource {
    type V = SourceView;

    open spec fn view(&self) -> SourceView {
        match self {
            DownloadSource::GitHubRepo { owner, repo } => SourceView::GitHubRepo {
                owner: owner@,
                repo: repo@,
            },
            DownloadSource::GitHubTree { owner, repo, git_ref, subpath } => SourceView::GitHubTree {
                owner: owner@,
                repo: repo@,
                git_ref: git_ref@,
                subpath: subpath@,
            },
            DownloadSource::ZipUrl { url } => SourceView::ZipUrl { url: url@ },
        }
    }
}

pub open spec fn missing_source_message() -> Seq<char> {
    "缺少有效的源码地址 (Source URL)"@
}

pub open spec fn unsupported_source_message() -> Seq<char> {
    "仅支持 GitHub 仓库链接、GitHub 子目录链接或 ZIP 下载链接"@
}

pub open spec fn short_github_message() -> Seq<char> {
    "GitHub 链接格式无效，至少需要 owner/repo"@
}

pub open spec fn missing_repo_message() -> Seq<char> {
    "GitHub 链接格式无效，缺少 owner 或 repo"@
}

pub open spec fn short_tree_message() -> Seq<char> {
    "GitHub 子目录链接格式无效，缺少分支或路径"@
}

pub open spec fn blob_message() -> Seq<char> {
    "暂不支持 GitHub 文件链接，请改用仓库、目录或 ZIP 链接"@
}

pub open spec fn invalid_subpath_message() -> Seq<char> {
    "GitHub 子目录路径无效"@
}

pub open spec fn empty_subpath_message() -> Seq<char> {
    "GitHub 子目录路径不能为空"@
}

pub open spec fn too_large_message() -> Seq<char> {
    "下载超过大小限制（仓库压缩包最大 50 MiB），请单独获取所需 Skill 后本地导入 / Download too large"@
}

/// The pieces of `s` between `/` seen so far, and the piece being read.
pub open spec fn scan_pieces(s: Seq<char>) -> (Seq<Seq<char>>, Seq<char>)
    decreases s.len(),
{
    if s.len() == 0 {
        (seq![], seq![])
    } else {
        let (done, cur) = scan_pieces(s.drop_last());
        if s.last() == '/' {
            (if cur.len() > 0 {
                done.push(cur)
            } else {
                done
            }, seq![])
        } else {
            (done, cur.push(s.last()))
        }
    }
}

/// The non-empty pieces of `s` between `/` characters, in order.
pub open spec fn pieces(s: Seq<char>) -> Seq<Seq<char>> {
    let (done, cur) = scan_pieces(s);
    if cur.len() > 0 {
        done.push(cur)
    } else {
        done
    }
}

/// The index of the first `?` or `#` at or after `i`, or the length.
pub open spec fn query_start(s: Seq<char>, i: int) -> int
    decreases s.len() - i,
{
    if i < 0 || i >= s.len() {
        s.len() as int
    } else if s[i] == '?' || s[i] == '#' {
        i
    } else {
        query_start(s, i + 1)
    }
}

/// `s` without its query and fragment.
pub open spec fn without_query(s: Seq<char>) -> Seq<char> {
    s.subrange(0, query_start(s, 0))
}

/// `s` without a final `.git`.
pub open spec fn strip_git(s: Seq<char>) -> Seq<char> {
    if ends_with(s, ".git"@) {
        s.subrange(0, s.len() - 4)
    } else {
        s
    }
}

/// The pieces of `ps` other than `.`.
pub open spec fn without_dots(ps: Seq<Seq<char>>) -> Seq<Seq<char>>
    decreases ps.len(),
{
    if ps.len() == 0 {
        seq![]
    } else if ps.last() == "."@ {
        without_dots(ps.drop_last())
    } else {
        without_dots(ps.drop_last()).push(ps.last())
    }
}

/// A relative directory inside a repository, made of the path's components
/// joined by `/`: `.` components are dropped, and a path that is absolute,
/// climbs with `..` or names nothing is refused.
pub open spec fn sanitized_subpath(raw: Seq<char>) -> Result<Seq<char>, Seq<char>> {
    if (raw.len() > 0 && raw[0] == '/') || pieces(raw).contains(".."@) {
        Err(invalid_subpath_message())
    } else if without_dots(pieces(raw)).len() == 0 {
        Err(empty_subpath_message())
    } else {
        Ok(join(without_dots(pieces(raw)), "/"@))
    }
}

/// What a `https://github.com/` link denotes (`None` for another link).
pub open spec fn github_source(url: Seq<char>) -> Option<Result<SourceView, Seq<char>>> {
    let prefix = "https://github.com/"@;
    if !starts_with(url, prefix) {
        None
    } else {
        let parts = pieces(without_query(url.subrange(prefix.len() as int, url.len() as int)));
        Some(
            if parts.len() < 2 {
                Err(short_github_message())
            } else if strip_git(parts[1]).len() == 0 {
                Err(missing_repo_message())
            } else if parts.len() == 2 {
                Ok(SourceView::GitHubRepo { owner: parts[0], repo: strip_git(parts[1]) })
            } else if parts[2] == "tree"@ {
                if parts.len() < 5 {
                    Err(short_tree_message())
                } else {
                    match sanitized_subpath(join(parts.subrange(4, parts.len() as int), "/"@)) {
                        Err(e) => Err(e),
                        Ok(subpath) => Ok(
                            SourceView::GitHubTree {
                                owner: parts[0],
                                repo: strip_git(parts[1]),
                                git_ref: parts[3],
                                subpath,
                            },
                        ),
                    }
                }
            } else if parts[2] == "blob"@ {
                Err(blob_message())
            } else {
                Ok(SourceView::GitHubRepo { owner: parts[0], repo: strip_git(parts[1]) })
            },
        )
    }
}

/// Whether a link is an `http(s)` link to a `.zip` file (case aside, query
/// and fragment aside).
pub open spec fn is_zip_url(url: Seq<char>) -> bool {
    (starts_with(url, "https://"@) || starts_with(url, "http://"@)) && ends_with(
        ascii_lower(without_query(url)),
        ".zip"@,
    )
}

/// What a source link denotes, the link trimmed first.
pub open spec fn download_source(url: Seq<char>) -> Result<SourceView, Seq<char>> {
    let t = trim(url);
    if t.len() == 0 {
        Err(missing_source_message())
    } else {
        match github_source(t) {
            Some(r) => r,
            None => if is_zip_url(t) {
                Ok(SourceView::ZipUrl { url: t })
            } else {
                Err(unsupported_source_message())
            },
        }
    }
}

/// A text without `?` or `#`.
pub open spec fn free_of_query(s: Seq<char>) -> bool {
    forall|i: int| 0 <= i < s.len() ==> #[trigger] s[i] != '?' && s[i] != '#'
}

proof fn lemma_query_start_bounds(s: Seq<char>, i: int)
    requires
        0 <= i <= s.len(),
    ensures
        i <= query_start(s, i) <= s.len(),
        forall|j: int| i <= j < query_start(s, i) ==> #[trigger] s[j] != '?' && s[j] != '#',
    decreases s.len() - i,
{
    if i < s.len() && s[i] != '?' && s[i] != '#' {
        lemma_query_start_bounds(s, i + 1);
    }
}

proof fn lemma_query_start_at(s: Seq<char>, i: int, k: int)
    requires
        0 <= i <= k <= s.len(),
        forall|j: int| i <= j < k ==> #[trigger] s[j] != '?' && s[j] != '#',
        k == s.len() || s[k] == '?' || s[k] == '#',
    ensures
        query_start(s, i) == k,
    decreases k - i,
{
    if i < k {
        lemma_query_start_at(s, i + 1, k);
    }
}

proof fn lemma_free_concat(a: Seq<char>, b: Seq<char>)
    requires
        free_of_query(a),
        free_of_query(b),
    ensures
        free_of_query(a + b),
{
    assert forall|i: int| 0 <= i < (a + b).len() implies #[trigger] (a + b)[i] != '?' && (a
        + b)[i] != '#' by {
        if i < a.len() {
            assert((a + b)[i] == a[i]);
        } else {
            assert((a + b)[i] == b[i - a.len()]);
        }
    }
}

proof fn lemma_scan_pieces_free(s: Seq<char>)
    requires
        free_of_query(s),
    ensures
        forall|k: int| 0 <= k < scan_pieces(s).0.len() ==> free_of_query(#[trigger] scan_pieces(s).0[k]),
        free_of_query(scan_pieces(s).1),
    decreases s.len(),
{
    if s.len() > 0 {
        let d = s.drop_last();
        assert forall|i: int| 0 <= i < d.len() implies #[trigger] d[i] != '?' && d[i] != '#' by {
            assert(d[i] == s[i]);
        }
        lemma_scan_pieces_free(d);
        let (done, cur) = scan_pieces(d);
        if s.last() != '/' {
            assert(s.last() == s[s.len() - 1]);
            lemma_free_concat(cur, seq![s.last()]);
            assert(cur.push(s.last()) =~= cur + seq![s.last()]);
        } else if cur.len() > 0 {
            assert forall|k: int| 0 <= k < done.push(cur).len() implies free_of_query(
                #[trigger] done.push(cur)[k],
            ) by {
                if k < done.len() {
                    assert(done.push(cur)[k] == done[k]);
                }
            }
        }
    }
}

proof fn lemma_pieces_free(s: Seq<char>)
    requires
        free_of_query(s),
    ensures
        forall|k: int| 0 <= k < pieces(s).len() ==> free_of_query(#[trigger] pieces(s)[k]),
{
    lemma_scan_pieces_free(s);
    let (done, cur) = scan_pieces(s);
    if cur.len() > 0 {
        assert forall|k: int| 0 <= k < done.push(cur).len() implies free_of_query(
            #[trigger] done.push(cur)[k],
        ) by {
            if k < done.len() {
                assert(done.push(cur)[k] == done[k]);
            }
        }
    }
}

proof fn lemma_join_free(ls: Seq<Seq<char>>, sep: Seq<char>)
    requires
        forall|k: int| 0 <= k < ls.len() ==> free_of_query(#[trigger] ls[k]),
        free_of_query(sep),
    ensures
        free_of_query(join(ls, sep)),
    decreases ls.len(),
{
    if ls.len() > 1 {
        let rest = ls.drop_first();
        assert forall|k: int| 0 <= k < rest.len() implies free_of_query(#[trigger] rest[k]) by {
            assert(rest[k] == ls[k + 1]);
        }
        lemma_join_free(rest, sep);
        assert(free_of_query(ls[0]));
        lemma_free_concat(ls[0], sep);
        lemma_free_concat(ls[0] + sep, join(rest, sep));
    } else if ls.len() == 1 {
        assert(free_of_query(ls[0]));
    }
}

proof fn lemma_without_dots_free(ps: Seq<Seq<char>>)
    requires
        forall|k: int| 0 <= k < ps.len() ==> free_of_query(#[trigger] ps[k]),
    ensures
        forall|k: int| 0 <= k < without_dots(ps).len() ==> free_of_query(#[trigger] without_dots(ps)[k]),
    decreases ps.len(),
{
    if ps.len() > 0 {
        let d = ps.drop_last();
        assert forall|k: int| 0 <= k < d.len() implies free_of_query(#[trigger] d[k]) by {
            assert(d[k] == ps[k]);
        }
        lemma_without_dots_free(d);
        let w = without_dots(d);
        if ps.last() != "."@ {
            assert(free_of_query(ps[ps.len() - 1]));
            assert forall|k: int| 0 <= k < w.push(ps.last()).len() implies free_of_query(
                #[trigger] w.push(ps.last())[k],
            ) by {
                if k < w.len() {
                    assert(w.push(ps.last())[k] == w[k]);
                }
            }
        }
    }
}

/// The parts of a GitHub link are read from its text before the first `?`
/// or `#`: no owner, repository, ref or directory of a parsed GitHub source
/// holds a `?` or a `#`.
pub proof fn law_github_parts_hold_no_query(url: Seq<char>)
    ensures
        match download_source(url) {
            Ok(SourceView::GitHubRepo { owner, repo }) => free_of_query(owner) && free_of_query(repo),
            Ok(SourceView::GitHubTree { owner, repo, git_ref, subpath }) => free_of_query(owner)
                && free_of_query(repo) && free_of_query(git_ref) && free_of_query(subpath),
            _ => true,
        },
{
    let t = trim(url);
    let prefix = "https://github.com/"@;
    if t.len() > 0 && starts_with(t, prefix) {
        let rest = t.subrange(prefix.len() as int, t.len() as int);
        let w = without_query(rest);
        lemma_query_start_bounds(rest, 0);
        assert forall|i: int| 0 <= i < w.len() implies #[trigger] w[i] != '?' && w[i] != '#' by {
            assert(w[i] == rest[i]);
        }
        lemma_pieces_free(w);
        let parts = pieces(w);
        if parts.len() >= 2 {
            assert(free_of_query(parts[1]));
            assert(free_of_query(strip_git(parts[1]))) by {
                let p1 = parts[1];
                let sg = strip_git(p1);
                reveal_strlit(".git");
                assert(".git"@.len() == 4);
                assert forall|i: int| 0 <= i < sg.len() implies #[trigger] sg[i] != '?' && sg[i]
                    != '#' by {
                    assert(sg[i] == p1[i]);
                }
            }
            assert(free_of_query(parts[0]));
            if parts.len() >= 5 {
                assert(free_of_query(parts[3]));
                let tail = parts.subrange(4, parts.len() as int);
                assert forall|k: int| 0 <= k < tail.len() implies free_of_query(#[trigger] tail[k]) by {
                    assert(tail[k] == parts[k + 4]);
                }
                reveal_strlit("/");
                lemma_join_free(tail, "/"@);
                let raw = join(tail, "/"@);
                lemma_pieces_free(raw);
                lemma_without_dots_free(pieces(raw));
                lemma_join_free(without_dots(pieces(raw)), "/"@);
            }
        }
    }
}

/// The query and fragment of a link never change what it denotes as a
/// GitHub link: for a link `u` without `?` or `#`, the link followed by `?`
/// or `#` and any text denotes what `u` does; so does a whole source link
/// to GitHub that trimming leaves as it is.
pub proof fn law_link_query_and_fragment_are_ignored(u: Seq<char>, c: char, f: Seq<char>)
    requires
        c == '?' || c == '#',
        free_of_query(u),
    ensures
        github_source(u + seq![c] + f) == github_source(u),
        starts_with(u, "https://github.com/"@) && trim(u) == u && trim(u + seq![c] + f) == u
            + seq![c] + f ==> download_source(u + seq![c] + f) == download_source(u),
{
    let x = u + seq![c] + f;
    let prefix = "https://github.com/"@;
    reveal_strlit("https://github.com/");
    assert(prefix.len() == 19);
    assert forall|i: int| 0 <= i < u.len() implies #[trigger] x[i] == u[i] by {}
    assert(x[u.len() as int] == c);
    if u.len() >= prefix.len() {
        assert(x.subrange(0, 19) =~= u.subrange(0, 19));
        if starts_with(u, prefix) {
            let rx = x.subrange(19, x.len() as int);
            let ru = u.subrange(19, u.len() as int);
            assert forall|j: int| 0 <= j < ru.len() implies #[trigger] rx[j] != '?' && rx[j] != '#' by {
                assert(rx[j] == u[j + 19]);
            }
            assert(rx[ru.len() as int] == c);
            lemma_query_start_at(rx, 0, ru.len() as int);
            lemma_query_start_at(ru, 0, ru.len() as int);
            assert(without_query(rx) =~= without_query(ru)) by {
                assert forall|j: int| 0 <= j < ru.len() implies rx[j] == ru[j] by {
                    assert(rx[j] == u[j + 19]);
                }
            }
        }
    } else {
        assert(!starts_with(u, prefix));
        if starts_with(x, prefix) {
            assert(x.subrange(0, 19)[u.len() as int] == prefix[u.len() as int]);
        }
    }
}

fn err_text(message: &str) -> (r: Result<String, String>)
    ensures
        r matches Err(e) && e@ == message@,
{
    Err(String::from_str(message))
}

/// The non-empty pieces of a text between `/` characters.
pub fn split_pieces(v: &Vec<char>) -> (r: Vec<Vec<char>>)
    ensures
        views(r@) == pieces(v@),
{
    let mut done: Vec<Vec<char>> = Vec::new();
    let mut cur: Vec<char> = Vec::new();
    let mut i: usize = 0;
    assert(v@.subrange(0, 0) =~= Seq::<char>::empty());
    while i < v.len()
        invariant
            i <= v.len(),
            scan_pieces(v@.subrange(0, i as int)) == (views(done@), cur@),
        decreases v.len() - i,
    {
        assert(v@.subrange(0, i + 1).drop_last() =~= v@.subrange(0, i as int));
        if v[i] == '/' {
            if cur.len() > 0 {
                proof {
                    crate::text::lemma_views_push(done@, cur);
                }
                done.push(cur);
            }
            cur = Vec::new();
            assert(cur@ =~= Seq::<char>::empty());
        } else {
            cur.push(v[i]);
        }
        i += 1;
    }
    assert(v@.subrange(0, v.len() as int) =~= v@);
    if cur.len() > 0 {
        proof {
            crate::text::lemma_views_push(done@, cur);
        }
        done.push(cur);
    }
    done
}

/// A text without its query and fragment.
fn cut_query(v: &Vec<char>) -> (r: Vec<char>)
    ensures
        r@ == without_query(v@),
{
    let mut i: usize = 0;
    while i < v.len() && v[i] != '?' && v[i] != '#'
        invariant
            i <= v.len(),
            query_start(v@, 0) == query_start(v@, i as int),
        decreases v.len() - i,
    {
        i += 1;
    }
    crate::text::slice_chars(v, 0, i)
}

fn strip_git_chars(v: &Vec<char>) -> (r: Vec<char>)
    ensures
        r@ == strip_git(v@),
{
    let suffix = chars_of(".git");
    proof {
        reveal_strlit(".git");
    }
    if chars_ends_with(v, &suffix) {
        crate::text::slice_chars(v, 0, v.len() - 4)
    } else {
        v.clone()
    }
}

fn is_text(v: &Vec<char>, t: &str) -> (r: bool)
    ensures
        r == (v@ == t@),
{
    let w = chars_of(t);
    chars_eq(v, &w)
}

/// Checks the directory part of a GitHub directory link (see
/// `sanitized_subpath`).
pub fn sanitize_relative_subpath(raw: &str) -> (r: Result<String, String>)
    ensures
        match r {
            Ok(s) => sanitized_subpath(raw@) == Ok::<Seq<char>, Seq<char>>(s@),
            Err(e) => sanitized_subpath(raw@) == Err::<Seq<char>, Seq<char>>(e@),
        },
{
    let v = chars_of(raw);
    let ps = split_pieces(&v);
    let ghost pv = views(ps@);
    if v.len() > 0 && v[0] == '/' {
        return err_text("GitHub 子目录路径无效");
    }
    let mut kept: Vec<Vec<char>> = Vec::new();
    let mut i: usize = 0;
    assert(pv.subrange(0, 0) =~= Seq::<Seq<char>>::empty());
    while i < ps.len()
        invariant
            i <= ps.len(),
            pv == views(ps@),
            pv == pieces(raw@),
            !(raw@.len() > 0 && raw@[0] == '/'),
            !pv.subrange(0, i as int).contains(".."@),
            views(kept@) == without_dots(pv.subrange(0, i as int)),
        decreases ps.len() - i,
    {
        assert(pv.subrange(0, i + 1).drop_last() =~= pv.subrange(0, i as int));
        assert(pv[i as int] == ps@[i as int]@);
        if is_text(&ps[i], "..") {
            assert(pv.contains(".."@)) by {
                assert(pv[i as int] == ".."@);
            }
            return err_text("GitHub 子目录路径无效");
        }
        if !is_text(&ps[i], ".") {
            let c = ps[i].clone();
            proof {
                crate::text::lemma_views_push(kept@, c);
            }
            kept.push(c);
        }
        assert(!pv.subrange(0, i + 1).contains(".."@)) by {
            let sub = pv.subrange(0, i + 1);
            if sub.contains(".."@) {
                let k = choose|k: int| 0 <= k < sub.len() && sub[k] == ".."@;
                if k < i {
                    assert(pv.subrange(0, i as int)[k] == ".."@);
                }
            }
        }
        i += 1;
    }
    assert(pv.subrange(0, ps.len() as int) =~= pv);
    if kept.len() == 0 {
        return err_text("GitHub 子目录路径不能为空");
    }
    let slash = chars_of("/");
    let joined = join_chars(&kept, &slash);
    Ok(string_of(&joined))
}

pub open spec fn source_result_view(r: Result<DownloadSource, String>) -> Result<SourceView, Seq<char>> {
    match r {
        Ok(s) => Ok(s@),
        Err(e) => Err(e@),
    }
}

fn source_err(message: &str) -> (r: Result<DownloadSource, String>)
    ensures
        source_result_view(r) == Err::<SourceView, Seq<char>>(message@),
{
    Err(String::from_str(message))
}

/// What a `https://github.com/` link denotes, or `None` for another link
/// (see `github_source`).
pub fn parse_github_source(url: &str) -> (r: Option<Result<DownloadSource, String>>)
    ensures
        match r {
            None => github_source(url@) is None,
            Some(x) => github_source(url@) == Some(source_result_view(x)),
        },
{
    let v = chars_of(url);
    let prefix = chars_of("https://github.com/");
    if !chars_starts_with(&v, &prefix) {
        return None;
    }
    let rest = crate::text::slice_chars(&v, prefix.len(), v.len());
    let path = cut_query(&rest);
    let parts = split_pieces(&path);
    let ghost pv = views(parts@);
    if parts.len() < 2 {
        return Some(source_err("GitHub 链接格式无效，至少需要 owner/repo"));
    }
    assert(pv[0] == parts@[0]@ && pv[1] == parts@[1]@);
    let owner = string_of(&parts[0]);
    let repo_chars = strip_git_chars(&parts[1]);
    if repo_chars.len() == 0 {
        return Some(source_err("GitHub 链接格式无效，缺少 owner 或 repo"));
    }
    let repo = string_of(&repo_chars);
    if parts.len() == 2 {
        return Some(Ok(DownloadSource::GitHubRepo { owner, repo }));
    }
    assert(pv[2] == parts@[2]@);
    if is_text(&parts[2], "tree") {
        if parts.len() < 5 {
            return Some(source_err("GitHub 子目录链接格式无效，缺少分支或路径"));
        }
        assert(pv[3] == parts@[3]@);
        let git_ref = string_of(&parts[3]);
        let mut tail: Vec<Vec<char>> = Vec::new();
        let mut k: usize = 4;
        assert(pv.subrange(4, 4) =~= Seq::<Seq<char>>::empty());
        while k < parts.len()
            invariant
                4 <= k <= parts.len(),
                pv == views(parts@),
                views(tail@) == pv.subrange(4, k as int),
            decreases parts.len() - k,
        {
            let c = parts[k].clone();
            proof {
                crate::text::lemma_views_push(tail@, c);
                assert(pv.subrange(4, k + 1) =~= pv.subrange(4, k as int).push(pv[k as int]));
            }
            tail.push(c);
            k += 1;
        }
        let slash = chars_of("/");
        let joined = join_chars(&tail, &slash);
        let joined_text = string_of(&joined);
        return match sanitize_relative_subpath(joined_text.as_str()) {
            Ok(subpath) => Some(Ok(DownloadSource::GitHubTree { owner, repo, git_ref, subpath })),
            Err(e) => Some(Err(e)),
        };
    }
    if is_text(&parts[2], "blob") {
        return Some(source_err("暂不支持 GitHub 文件链接，请改用仓库、目录或 ZIP 链接"));
    }
    Some(Ok(DownloadSource::GitHubRepo { owner, repo }))
}

/// Whether a link is an `http(s)` link to a `.zip` file.
pub fn is_supported_zip_url(url: &str) -> (r: bool)
    ensures
        r == is_zip_url(url@),
{
    let v = chars_of(url);
    let https = chars_of("https://");
    let http = chars_of("http://");
    if !(chars_starts_with(&v, &https) || chars_starts_with(&v, &http)) {
        return false;
    }
    let path = cut_query(&v);
    let mut lower: Vec<char> = Vec::new();
    let mut i: usize = 0;
    while i < path.len()
        invariant
            i <= path.len(),
            lower@ == ascii_lower(path@.subrange(0, i as int)),
        decreases path.len() - i,
    {
        lower.push(char_to_ascii_lower(path[i]));
        assert(path@.subrange(0, i + 1) == path@.subrange(0, i as int).push(path@[i as int]));
        i += 1;
    }
    assert(path@.subrange(0, path.len() as int) =~= path@);
    let zip = chars_of(".zip");
    chars_ends_with(&lower, &zip)
}

/// What a skill source link denotes (see `download_source`).
pub fn parse_download_source(source_url: &str) -> (r: Result<DownloadSource, String>)
    ensures
        source_result_view(r) == download_source(source_url@),
{
    let tv = trim_chars(&chars_of(source_url));
    if tv.len() == 0 {
        return source_err("缺少有效的源码地址 (Source URL)");
    }
    let t = string_of(&tv);
    match parse_github_source(t.as_str()) {
        Some(result) => result,
        None => {
            if is_supported_zip_url(t.as_str()) {
                Ok(DownloadSource::ZipUrl { url: t })
            } else {
                source_err("仅支持 GitHub 仓库链接、GitHub 子目录链接或 ZIP 下载链接")
            }
        },
    }
}

impl DownloadSource {
    /// The directory a GitHub directory link names, if it names one.
    pub fn preferred_subpath(&self) -> (r: Option<String>)
        ensures
            match self@ {
                SourceView::GitHubTree { subpath, .. } => r matches Some(s) && s@ == subpath,
                _ => r is None,
            },
    {
        match self {
            DownloadSource::GitHubTree { subpath, .. } => Some(subpath.clone()),
            _ => None,
        }
    }
}

/// The largest download, in bytes.
pub const MAX_DOWNLOAD_SIZE: u64 = 52428800;

/// A whole download, refused when longer than `limit` bytes.
pub fn read_limited(data: &[u8], limit: u64) -> (r: Result<Vec<u8>, String>)
    ensures
        match r {
            Ok(v) => data@.len() <= limit && v@ == data@,
            Err(e) => data@.len() > limit && e@ == too_large_message(),
        },
{
    if data.len() as u64 > limit {
        return Err(
            String::from_str(
                "下载超过大小限制（仓库压缩包最大 50 MiB），请单独获取所需 Skill 后本地导入 / Download too large",
            ),
        );
    }
    let mut v: Vec<u8> = Vec::new();
    let mut i: usize = 0;
    while i < data.len()
        invariant
            i <= data@.len(),
            v@ == data@.subrange(0, i as int),
        decreases data.len() - i,
    {
        v.push(data[i]);
        assert(data@.subrange(0, i + 1) == data@.subrange(0, i as int).push(data@[i as int]));
        i += 1;
    }
    assert(data@.subrange(0, data@.len() as int) =~= data@);
    Ok(v)
}

/// The bytes `urlencoding` leaves as they are: ASCII letters and digits and
/// `-`, `.`, `_`, `~`.
pub open spec fn is_unreserved(b: u8) -> bool {
    (48 <= b <= 57) || (65 <= b <= 90) || (97 <= b <= 122) || b == 45 || b == 46 || b == 95
        || b == 126
}

/// An uppercase hexadecimal digit.
pub open spec fn hex_digit(n: u8) -> char {
    if n < 10 {
        ((48 + n) as u8) as char
    } else {
        ((55 + n) as u8) as char
    }
}

/// Bytes percent-encoded: every byte but the unreserved ones becomes `%`
/// and two uppercase hexadecimal digits.
pub open spec fn percent_encoded(bs: Seq<u8>) -> Seq<char>
    decreases bs.len(),
{
    if bs.len() == 0 {
        seq![]
    } else {
        let b = bs.last();
        percent_encoded(bs.drop_last()) + if is_unreserved(b) {
            seq![b as char]
        } else {
            seq!['%', hex_digit(b / 16), hex_digit(b % 16)]
        }
    }
}

/// `urlencoding::encode`, made an owned `String`.
///
/// Trusted: the crate percent-encodes every UTF-8 byte of the text except
/// ASCII letters, digits and `-`, `.`, `_`, `~`, writing `%` and two
/// uppercase hexadecimal digits (its `encode_into` and `to_hex_digit`).
#[verifier::external_body]
pub(crate) fn url_encode(s: &str) -> (r: String)
    ensures
        r@ == percent_encoded(s.spec_bytes()),
{
    urlencoding::encode(s).into_owned()
}

/// The request that fetches the archive of a source.
#[derive(Debug)]
pub struct ArchiveRequest {
    pub url: String,
    pub headers: Vec<(String, String)>,
}

pub open spec fn github_api_headers() -> Seq<(Seq<char>, Seq<char>)> {
    seq![
        ("Accept"@, "application/vnd.github+json"@),
        ("X-GitHub-Api-Version"@, "2022-11-28"@),
        ("User-Agent"@, "skills-manager-gui/0.1"@),
    ]
}

pub open spec fn header_views(h: Seq<(String, String)>) -> Seq<(Seq<char>, Seq<char>)> {
    h.map_values(|p: (String, String)| (p.0@, p.1@))
}

/// The archive of a source: a repository's default branch or the named
/// branch (percent-encoded) through the GitHub API, or the ZIP link itself.
pub open spec fn archive_url(source: SourceView) -> Seq<char> {
    match source {
        SourceView::GitHubRepo { owner, repo } => "https://api.github.com/repos/"@ + owner + "/"@
            + repo + "/zipball/HEAD"@,
        SourceView::GitHubTree { owner, repo, git_ref, .. } => "https://api.github.com/repos/"@
            + owner + "/"@ + repo + "/zipball/"@ + percent_encoded(encode_utf8_of(git_ref)),
        SourceView::ZipUrl { url } => url,
    }
}

pub open spec fn encode_utf8_of(s: Seq<char>) -> Seq<u8> {
    vstd::utf8::encode_utf8(s)
}

fn header(name: &str, value: &str) -> (r: (String, String))
    ensures
        r.0@ == name@,
        r.1@ == value@,
{
    (String::from_str(name), String::from_str(value))
}

/// The request that fetches the archive of `source`, with the headers the
/// GitHub API asks for (only a `User-Agent` for a plain ZIP link).
pub fn archive_request(source: &DownloadSource) -> (r: ArchiveRequest)
    ensures
        r.url@ == archive_url(source@),
        header_views(r.headers@) == (match source@ {
            SourceView::ZipUrl { .. } => seq![("User-Agent"@, "skills-manager-gui/0.1"@)],
            _ => github_api_headers(),
        }),
{
    match source {
        DownloadSource::ZipUrl { url } => {
            let headers = vec![header("User-Agent", "skills-manager-gui/0.1")];
            assert(header_views(headers@) =~= seq![("User-Agent"@, "skills-manager-gui/0.1"@)]);
            ArchiveRequest { url: url.clone(), headers }
        },
        DownloadSource::GitHubRepo { owner, repo } => {
            let parts = vec![
                "https://api.github.com/repos/",
                owner.as_str(),
                "/",
                repo.as_str(),
                "/zipball/HEAD",
            ];
            let url = crate::text::concat_texts(&parts);
            proof {
                reveal_with_fuel(Seq::fold_left, 6);
                assert(parts@.drop_last().drop_last().drop_last().drop_last().drop_last() =~= Seq::<&str>::empty());
            }
            let headers = vec![
                header("Accept", "application/vnd.github+json"),
                header("X-GitHub-Api-Version", "2022-11-28"),
                header("User-Agent", "skills-manager-gui/0.1"),
            ];
            assert(header_views(headers@) =~= github_api_headers());
            ArchiveRequest { url, headers }
        },
        DownloadSource::GitHubTree { owner, repo, git_ref, .. } => {
            let encoded = url_encode(git_ref.as_str());
            let parts = vec![
                "https://api.github.com/repos/",
                owner.as_str(),
                "/",
                repo.as_str(),
                "/zipball/",
                encoded.as_str(),
            ];
            let url = crate::text::concat_texts(&parts);
            proof {
                reveal_with_fuel(Seq::fold_left, 7);
                assert(parts@.drop_last().drop_last().drop_last().drop_last().drop_last().drop_last() =~= Seq::<&str>::empty());
            }
            let headers = vec![
                header("Accept", "application/vnd.github+json"),
                header("X-GitHub-Api-Version", "2022-11-28"),
                header("User-Agent", "skills-manager-gui/0.1"),
            ];
            assert(header_views(headers@) =~= github_api_headers());
            ArchiveRequest { url, headers }
        },
    }
}

pub open spec fn no_skill_message() -> Seq<char> {
    "下载内容中未找到 SKILL.md / No SKILL.md found in download"@
}

pub open spec fn opt_name_view(o: Option<String>) -> Option<Seq<char>> {
    match o {
        Some(s) => Some(s@),
        None => None,
    }
}

/// The first index at or after `i` of a name equal to `expected` (ASCII
/// case aside), or -1.
pub open spec fn matching_candidate(names: Seq<Option<Seq<char>>>, expected: Seq<char>, i: int) -> int
    decreases names.len() - i,
{
    if i < 0 || i >= names.len() {
        -1
    } else if names[i] matches Some(n) && ascii_lower(n) == ascii_lower(expected) {
        i
    } else {
        matching_candidate(names, expected, i + 1)
    }
}

fn lower_chars(v: &Vec<char>) -> (r: Vec<char>)
    ensures
        r@ == ascii_lower(v@),
{
    let mut out: Vec<char> = Vec::new();
    let mut i: usize = 0;
    while i < v.len()
        invariant
            i <= v.len(),
            out@ == ascii_lower(v@.subrange(0, i as int)),
        decreases v.len() - i,
    {
        out.push(char_to_ascii_lower(v[i]));
        assert(v@.subrange(0, i + 1) == v@.subrange(0, i as int).push(v@[i as int]));
        i += 1;
    }
    assert(v@.subrange(0, v.len() as int) =~= v@);
    out
}

/// Which directory holding a `SKILL.md` in a downloaded archive is the
/// skill: `names` are the candidates' directory names in the order they
/// were found (`None` where a name is not text); the first named like
/// `expected` (ASCII case aside), else the first found.
pub fn choose_skill_root(names: &Vec<Option<String>>, expected: &str) -> (r: Result<usize, String>)
    ensures
        match r {
            Err(e) => names.len() == 0 && e@ == no_skill_message(),
            Ok(i) => names.len() > 0 && i == (if matching_candidate(
                names@.map_values(|o: Option<String>| opt_name_view(o)),
                expected@,
                0,
            ) >= 0 {
                matching_candidate(names@.map_values(|o: Option<String>| opt_name_view(o)), expected@, 0)
            } else {
                0
            }),
        },
{
    let ghost nv = names@.map_values(|o: Option<String>| opt_name_view(o));
    if names.len() == 0 {
        return Err(String::from_str("下载内容中未找到 SKILL.md / No SKILL.md found in download"));
    }
    let want = lower_chars(&chars_of(expected));
    let mut i: usize = 0;
    while i < names.len()
        invariant
            i <= names.len(),
            nv == names@.map_values(|o: Option<String>| opt_name_view(o)),
            want@ == ascii_lower(expected@),
            matching_candidate(nv, expected@, 0) == matching_candidate(nv, expected@, i as int),
        decreases names.len() - i,
    {
        assert(nv[i as int] == opt_name_view(names@[i as int]));
        match &names[i] {
            Some(n) => {
                let lower = lower_chars(&chars_of(n.as_str()));
                if chars_eq(&lower, &want) {
                    return Ok(i);
                }
            },
            None => {},
        }
        i += 1;
    }
    Ok(0)
}

pub open spec fn linked_without_skill_message() -> Seq<char> {
    "指定目录中没有 SKILL.md，已停止导入 / Linked directory has no SKILL.md"@
}

pub open spec fn linked_missing_message() -> Seq<char> {
    "源码中的指定 Skill 目录不存在，已停止导入 / Linked Skill directory no longer exists"@
}

/// A download that names a directory of its repository takes that directory
/// or nothing: it must be found in the archive and hold a `SKILL.md`.
pub fn check_linked_directory(found: bool, has_skill_file: bool) -> (r: Result<(), String>)
    ensures
        r is Ok <==> found && has_skill_file,
        found && !has_skill_file ==> (r matches Err(e) && e@ == linked_without_skill_message()),
        !found ==> (r matches Err(e) && e@ == linked_missing_message()),
{
    if !found {
        Err(String::from_str("源码中的指定 Skill 目录不存在，已停止导入 / Linked Skill directory no longer exists"))
    } else if !has_skill_file {
        Err(String::from_str("指定目录中没有 SKILL.md，已停止导入 / Linked directory has no SKILL.md"))
    } else {
        Ok(())
    }
}

} // verus!
