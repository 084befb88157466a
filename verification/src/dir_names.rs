//! The directory name a skill is stored under: its name with every
//! character unsafe in a file name replaced, or a name taken from where it
//! came from when nothing usable is left.
use crate::text::{char_is_ascii_alnum, chars_of, is_ascii_alnum, slice_chars, string_of, trim, trim_chars};
use vstd::prelude::*;

verus! {

/// Whether `char::is_alphanumeric` holds of `c` (the Unicode `Alphabetic`
/// property or a numeric general category).
pub uninterp spec fn alphanumeric(c: char) -> bool;

/// `char::is_alphanumeric`.
///
/// Trusted: the result is the named property of `c`; nothing more of the
/// Unicode tables is stated.
#[verifier::external_body]
fn is_alphanumeric(c: char) -> (r: bool)
    ensures
        r == alphanumeric(c),
{
    c.is_alphanumeric()
}

/// A character a directory name keeps: a letter or digit, `-`, `_` or `.`,
/// and never a path separator.
pub open spec fn kept_in_name(c: char) -> bool {
    c != '/' && c != '\\' && (alphanumeric(c) || c == '-' || c == '_' || c == '.')
}

pub open spec fn cleaned_char(c: char) -> char {
    if kept_in_name(c) {
        c
    } else {
        '-'
    }
}

/// The characters stripped from both ends of a cleaned name.
pub open spec fn is_edge(c: char) -> bool {
    c == '-' || c == '.'
}

pub open spec fn first_non_edge(s: Seq<char>, i: int) -> int
    decreases s.len() - i,
{
    if i >= s.len() || i < 0 {
        s.len() as int
    } else if is_edge(s[i]) {
        first_non_edge(s, i + 1)
    } else {
        i
    }
}

pub open spec fn end_non_edge(s: Seq<char>, j: int) -> int
    decreases j,
{
    if j <= 0 {
        0
    } else if is_edge(s[j - 1]) {
        end_non_edge(s, j - 1)
    } else {
        j
    }
}

/// `s` without `-` and `.` at either end.
pub open spec fn strip_edges(s: Seq<char>) -> Seq<char> {
    let a = first_non_edge(s, 0);
    let b = end_non_edge(s, s.len() as int);
    if a < b {
        s.subrange(a, b)
    } else {
        seq![]
    }
}

/// The end of `s[..j]` without trailing slashes.
pub open spec fn end_non_slash(s: Seq<char>, j: int) -> int
    decreases j,
{
    if j <= 0 {
        0
    } else if s[j - 1] == '/' {
        end_non_slash(s, j - 1)
    } else {
        j
    }
}

/// Where the last `/`-separated part of `s[..j]` starts.
pub open spec fn segment_start(s: Seq<char>, j: int) -> int
    decreases j,
{
    if j <= 0 {
        0
    } else if s[j - 1] == '/' {
        j
    } else {
        segment_start(s, j - 1)
    }
}

/// The last part of a path or URL, trailing slashes ignored.
pub open spec fn last_segment(s: Seq<char>) -> Seq<char> {
    let e = end_non_slash(s, s.len() as int);
    s.subrange(segment_start(s, e), e)
}

pub open spec fn fallback_char(c: char) -> bool {
    is_ascii_alnum(c) || c == '-' || c == '_'
}

/// The characters of `s` an ASCII name keeps, in order.
pub open spec fn fallback_chars(s: Seq<char>) -> Seq<char>
    decreases s.len(),
{
    if s.len() == 0 {
        seq![]
    } else if fallback_char(s.last()) {
        fallback_chars(s.drop_last()).push(s.last())
    } else {
        fallback_chars(s.drop_last())
    }
}

/// The directory name of a skill named `name` that came from `fallback`:
/// the trimmed name with unsafe characters as `-` and no `-` or `.` at its
/// ends; else the ASCII letters, digits, `-` and `_` of the last part of
/// `fallback`; else `skill`.
pub open spec fn skill_dir_name(name: Seq<char>, fallback: Seq<char>) -> Seq<char> {
    let cleaned = strip_edges(trim(name).map_values(|c: char| cleaned_char(c)));
    if cleaned.len() > 0 {
        cleaned
    } else {
        let f = fallback_chars(last_segment(fallback));
        if f.len() > 0 {
            f
        } else {
            "skill"@
        }
    }
}

/// A name that is safe as one directory: not empty, no path separator, and
/// neither `.` nor `..`.
pub open spec fn safe_dir_name(s: Seq<char>) -> bool {
    &&& s.len() > 0
    &&& !s.contains('/')
    &&& !s.contains('\\')
    &&& s != "."@
    &&& s != ".."@
}

proof fn lemma_first_non_edge(s: Seq<char>, i: int)
    requires
        0 <= i <= s.len(),
    ensures
        i <= first_non_edge(s, i) <= s.len(),
        first_non_edge(s, i) < s.len() ==> !is_edge(s[first_non_edge(s, i)]),
        forall|k: int| i <= k < first_non_edge(s, i) ==> is_edge(#[trigger] s[k]),
    decreases s.len() - i,
{
    if i < s.len() && is_edge(s[i]) {
        lemma_first_non_edge(s, i + 1);
    }
}

proof fn lemma_end_non_edge(s: Seq<char>, j: int)
    requires
        0 <= j <= s.len(),
    ensures
        0 <= end_non_edge(s, j) <= j,
        end_non_edge(s, j) > 0 ==> !is_edge(s[end_non_edge(s, j) - 1]),
        forall|k: int| end_non_edge(s, j) <= k < j ==> is_edge(#[trigger] s[k]),
    decreases j,
{
    if j > 0 && is_edge(s[j - 1]) {
        lemma_end_non_edge(s, j - 1);
    }
}

proof fn lemma_fallback_chars(s: Seq<char>)
    ensures
        forall|k: int| 0 <= k < fallback_chars(s).len() ==> fallback_char(#[trigger] fallback_chars(s)[k]),
    decreases s.len(),
{
    if s.len() > 0 {
        let p = fallback_chars(s.drop_last());
        lemma_fallback_chars(s.drop_last());
        if fallback_char(s.last()) {
            assert forall|k: int| 0 <= k < p.len() + 1 implies fallback_char(
                #[trigger] p.push(s.last())[k],
            ) by {
                if k < p.len() {
                    assert(p.push(s.last())[k] == p[k]);
                }
            }
        }
    }
}

/// A name is safe when its characters are never separators and it does
/// not start with a dot.
proof fn lemma_safe(s: Seq<char>)
    requires
        s.len() > 0,
        s[0] != '.',
        forall|k: int| 0 <= k < s.len() ==> #[trigger] s[k] != '/' && s[k] != '\\',
    ensures
        safe_dir_name(s),
{
    reveal_strlit(".");
    reveal_strlit("..");
    assert(s != "."@ && s != ".."@) by {
        assert("."@[0] == '.');
        assert(".."@[0] == '.');
    }
}

fn strip_edge_chars(v: &Vec<char>) -> (r: Vec<char>)
    ensures
        r@ == strip_edges(v@),
{
    let mut i: usize = 0;
    while i < v.len() && (v[i] == '-' || v[i] == '.')
        invariant
            i <= v.len(),
            first_non_edge(v@, i as int) == first_non_edge(v@, 0),
        decreases v.len() - i,
    {
        i += 1;
    }
    let mut j: usize = v.len();
    while j > 0 && (v[j - 1] == '-' || v[j - 1] == '.')
        invariant
            j <= v.len(),
            end_non_edge(v@, j as int) == end_non_edge(v@, v.len() as int),
        decreases j,
    {
        j -= 1;
    }
    if i < j {
        slice_chars(v, i, j)
    } else {
        Vec::new()
    }
}

fn last_segment_chars(v: &Vec<char>) -> (r: Vec<char>)
    ensures
        r@ == last_segment(v@),
{
    let mut e: usize = v.len();
    while e > 0 && v[e - 1] == '/'
        invariant
            e <= v.len(),
            end_non_slash(v@, e as int) == end_non_slash(v@, v.len() as int),
        decreases e,
    {
        e -= 1;
    }
    let mut b: usize = e;
    while b > 0 && v[b - 1] != '/'
        invariant
            b <= e <= v.len(),
            e == end_non_slash(v@, v.len() as int),
            segment_start(v@, b as int) == segment_start(v@, e as int),
        decreases b,
    {
        b -= 1;
    }
    slice_chars(v, b, e)
}

fn fallback_chars_of(v: &Vec<char>) -> (r: Vec<char>)
    ensures
        r@ == fallback_chars(v@),
{
    let mut r: Vec<char> = Vec::new();
    let mut i: usize = 0;
    while i < v.len()
        invariant
            i <= v.len(),
            r@ == fallback_chars(v@.subrange(0, i as int)),
        decreases v.len() - i,
    {
        let c = v[i];
        assert(v@.subrange(0, i + 1).drop_last() =~= v@.subrange(0, i as int));
        assert(v@.subrange(0, i + 1).last() == c);
        if char_is_ascii_alnum(c) || c == '-' || c == '_' {
            r.push(c);
        }
        i += 1;
    }
    assert(v@.subrange(0, v.len() as int) =~= v@);
    r
}

/// The directory name a skill is stored under (see `skill_dir_name`); it
/// is always one safe directory name.
pub fn sanitize_skill_dir_name(name: &str, fallback: &str) -> (r: String)
    ensures
        r@ == skill_dir_name(name@, fallback@),
        safe_dir_name(r@),
{
    let chars = chars_of(name);
    let t = trim_chars(&chars);
    let ghost mapped_all = t@.map_values(|c: char| cleaned_char(c));
    let mut mapped: Vec<char> = Vec::new();
    let mut i: usize = 0;
    while i < t.len()
        invariant
            i <= t.len(),
            mapped_all == t@.map_values(|c: char| cleaned_char(c)),
            mapped@ == mapped_all.subrange(0, i as int),
        decreases t.len() - i,
    {
        let c = t[i];
        let keep = c != '/' && c != '\\' && (is_alphanumeric(c) || c == '-' || c == '_' || c
            == '.');
        mapped.push(if keep { c } else { '-' });
        assert(mapped_all.subrange(0, i + 1) =~= mapped_all.subrange(0, i as int).push(
            mapped_all[i as int],
        ));
        i += 1;
    }
    assert(mapped@ =~= mapped_all);
    let cleaned = strip_edge_chars(&mapped);
    if cleaned.len() > 0 {
        proof {
            let s = mapped@;
            lemma_first_non_edge(s, 0);
            lemma_end_non_edge(s, s.len() as int);
            let a = first_non_edge(s, 0);
            assert(cleaned@[0] == s[a]);
            assert forall|k: int| 0 <= k < cleaned@.len() implies #[trigger] cleaned@[k] != '/'
                && cleaned@[k] != '\\' by {
                assert(cleaned@[k] == s[a + k]);
                assert(s[a + k] == cleaned_char(t@[a + k]));
            }
            lemma_safe(cleaned@);
        }
        return string_of(&cleaned);
    }
    let f = chars_of(fallback);
    let tail = last_segment_chars(&f);
    let kept = fallback_chars_of(&tail);
    if kept.len() > 0 {
        proof {
            lemma_fallback_chars(tail@);
            assert forall|k: int| 0 <= k < kept@.len() implies #[trigger] kept@[k] != '/'
                && kept@[k] != '\\' by {
                assert(fallback_char(kept@[k]));
            }
            assert(fallback_char(kept@[0]));
            lemma_safe(kept@);
        }
        return string_of(&kept);
    }
    let r = String::from_str("skill");
    proof {
        reveal_strlit("skill");
        assert(r@[0] == 's');
        assert forall|k: int| 0 <= k < r@.len() implies #[trigger] r@[k] != '/' && r@[k]
            != '\\' by {}
        lemma_safe(r@);
    }
    r
}

} // verus!
