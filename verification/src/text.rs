//! Character-level text primitives shared by the parsers of the library.
//!
//! Texts are handled as vectors of `char`; the mathematical model of a text is
//! its `Seq<char>` view.  The spec functions here describe the behaviour of the
//! `str` methods the parsers rely on (`trim`, `lines`, `split_once`, ...).
use vstd::prelude::*;

verus! {

/// The Unicode `White_Space` property, which is what `char::is_whitespace` tests.
pub open spec fn is_ws(c: char) -> bool {
    let n = c as u32;
    ||| (9 <= n && n <= 13)
    ||| n == 32
    ||| n == 0x85
    ||| n == 0xa0
    ||| n == 0x1680
    ||| (0x2000 <= n && n <= 0x200a)
    ||| n == 0x2028
    ||| n == 0x2029
    ||| n == 0x202f
    ||| n == 0x205f
    ||| n == 0x3000
}

/// Whether `c` is whitespace in the sense of `char::is_whitespace`.
pub fn char_is_ws(c: char) -> (r: bool)
    ensures
        r == is_ws(c),
{
    let n = c as u32;
    (9 <= n && n <= 13) || n == 32 || n == 0x85 || n == 0xa0 || n == 0x1680 || (0x2000 <= n
        && n <= 0x200a) || n == 0x2028 || n == 0x2029 || n == 0x202f || n == 0x205f || n
        == 0x3000
}

/// The Unicode general category `Cc`, which is what `char::is_control` tests.
pub open spec fn is_control(c: char) -> bool {
    let n = c as u32;
    n <= 0x1f || (0x7f <= n && n <= 0x9f)
}

/// Whether `c` is a control character in the sense of `char::is_control`.
pub fn char_is_control(c: char) -> (r: bool)
    ensures
        r == is_control(c),
{
    let n = c as u32;
    n <= 0x1f || (0x7f <= n && n <= 0x9f)
}

pub open spec fn is_ascii_digit(c: char) -> bool {
    '0' <= c && c <= '9'
}

pub open spec fn is_ascii_lower(c: char) -> bool {
    'a' <= c && c <= 'z'
}

pub open spec fn is_ascii_upper(c: char) -> bool {
    'A' <= c && c <= 'Z'
}

pub open spec fn is_ascii_alnum(c: char) -> bool {
    is_ascii_digit(c) || is_ascii_lower(c) || is_ascii_upper(c)
}

/// `char::to_ascii_lowercase`.
pub open spec fn ascii_lower_char(c: char) -> char {
    if is_ascii_upper(c) {
        ((c as u32) + 32) as char
    } else {
        c
    }
}

/// `str::to_ascii_lowercase`.
pub open spec fn ascii_lower(s: Seq<char>) -> Seq<char> {
    s.map_values(|c: char| ascii_lower_char(c))
}

pub fn char_is_ascii_alnum(c: char) -> (r: bool)
    ensures
        r == is_ascii_alnum(c),
{
    ('0' <= c && c <= '9') || ('a' <= c && c <= 'z') || ('A' <= c && c <= 'Z')
}

pub fn char_to_ascii_lower(c: char) -> (r: char)
    ensures
        r == ascii_lower_char(c),
{
    if 'A' <= c && c <= 'Z' {
        let n = c as u32 + 32;
        assert(65 + 32 <= n <= 90 + 32);
        char_from_ascii(n)
    } else {
        c
    }
}

/// An ASCII code point as a `char`.
fn char_from_ascii(n: u32) -> (r: char)
    requires
        n < 128,
    ensures
        r == n as char,
        r as u32 == n,
{
    assert((n as u8) as u32 == n);
    (n as u8) as char
}

/// The characters of `s`, in order.
pub fn chars_of(s: &str) -> (v: Vec<char>)
    ensures
        v@ == s@,
{
    let mut v: Vec<char> = Vec::new();
    for c in it: s.chars()
        invariant
            v@ == it.seq().take(it.index() as int),
            it.seq() == s@,
    {
        v.push(c);
    }
    v
}

/// The `String` made of the characters of `v`: `Iterator::collect` of the
/// characters into a `String`.
///
/// Trusted: the text holds exactly the characters of `v`, in order, as the
/// documentation of `FromIterator<&char> for String` states.
#[verifier::external_body]
pub(crate) fn string_of(v: &Vec<char>) -> (s: String)
    ensures
        s@ == v@,
{
    v.iter().collect::<String>()
}

/// `s` with its leading whitespace removed (`str::trim_start`).
pub open spec fn trim_start(s: Seq<char>) -> Seq<char> {
    s.subrange(first_non_ws(s, 0), s.len() as int)
}

/// `s` with its trailing whitespace removed (`str::trim_end`).
pub open spec fn trim_end(s: Seq<char>) -> Seq<char> {
    s.subrange(0, end_non_ws(s, s.len() as int))
}

/// `s` with leading and trailing whitespace removed (`str::trim`).
pub open spec fn trim(s: Seq<char>) -> Seq<char> {
    trim_end(trim_start(s))
}

/// The first index at or after `i` that does not hold whitespace (or the length).
pub open spec fn first_non_ws(s: Seq<char>, i: int) -> int
    decreases s.len() - i,
{
    if i < 0 || i >= s.len() {
        s.len() as int
    } else if is_ws(s[i]) {
        first_non_ws(s, i + 1)
    } else {
        i
    }
}

/// One past the last index before `j` that does not hold whitespace (or 0).
pub open spec fn end_non_ws(s: Seq<char>, j: int) -> int
    decreases j,
{
    if j <= 0 || j > s.len() {
        0
    } else if is_ws(s[j - 1]) {
        end_non_ws(s, j - 1)
    } else {
        j
    }
}

pub proof fn lemma_first_non_ws_bounds(s: Seq<char>, i: int)
    requires
        0 <= i <= s.len(),
    ensures
        i <= first_non_ws(s, i) <= s.len(),
        forall|k: int| i <= k < first_non_ws(s, i) ==> is_ws(#[trigger] s[k]),
        first_non_ws(s, i) < s.len() ==> !is_ws(s[first_non_ws(s, i)]),
    decreases s.len() - i,
{
    if i < s.len() && is_ws(s[i]) {
        lemma_first_non_ws_bounds(s, i + 1);
    }
}

pub proof fn lemma_end_non_ws_bounds(s: Seq<char>, j: int)
    requires
        0 <= j <= s.len(),
    ensures
        0 <= end_non_ws(s, j) <= j,
        forall|k: int| end_non_ws(s, j) <= k < j ==> is_ws(#[trigger] s[k]),
        end_non_ws(s, j) > 0 ==> !is_ws(s[end_non_ws(s, j) - 1]),
    decreases j,
{
    if j > 0 && is_ws(s[j - 1]) {
        lemma_end_non_ws_bounds(s, j - 1);
    }
}

/// The subrange `[lo, hi)` of `v`.
pub fn slice_chars(v: &Vec<char>, lo: usize, hi: usize) -> (r: Vec<char>)
    requires
        lo <= hi <= v.len(),
    ensures
        r@ == v@.subrange(lo as int, hi as int),
{
    let mut r: Vec<char> = Vec::new();
    let mut i = lo;
    while i < hi
        invariant
            lo <= i <= hi <= v.len(),
            r@ == v@.subrange(lo as int, i as int),
        decreases hi - i,
    {
        r.push(v[i]);
        i += 1;
    }
    r
}

/// `str::trim_start`.
pub fn trim_start_chars(v: &Vec<char>) -> (r: Vec<char>)
    ensures
        r@ == trim_start(v@),
{
    let mut i: usize = 0;
    while i < v.len() && char_is_ws(v[i])
        invariant
            i <= v.len(),
            first_non_ws(v@, i as int) == first_non_ws(v@, 0),
        decreases v.len() - i,
    {
        i += 1;
    }
    slice_chars(v, i, v.len())
}

/// `str::trim_end`.
pub fn trim_end_chars(v: &Vec<char>) -> (r: Vec<char>)
    ensures
        r@ == trim_end(v@),
{
    let mut j: usize = v.len();
    while j > 0 && char_is_ws(v[j - 1])
        invariant
            j <= v.len(),
            end_non_ws(v@, j as int) == end_non_ws(v@, v.len() as int),
        decreases j,
    {
        j -= 1;
    }
    slice_chars(v, 0, j)
}

/// `str::trim`.
pub fn trim_chars(v: &Vec<char>) -> (r: Vec<char>)
    ensures
        r@ == trim(v@),
{
    let s = trim_start_chars(v);
    trim_end_chars(&s)
}

/// Whether two texts are equal.
pub fn chars_eq(a: &Vec<char>, b: &Vec<char>) -> (r: bool)
    ensures
        r == (a@ == b@),
{
    if a.len() != b.len() {
        return false;
    }
    let mut i: usize = 0;
    while i < a.len()
        invariant
            i <= a.len() == b.len(),
            a@.subrange(0, i as int) == b@.subrange(0, i as int),
        decreases a.len() - i,
    {
        if a[i] != b[i] {
            assert(a@[i as int] != b@[i as int]);
            return false;
        }
        assert(a@.subrange(0, i + 1) == a@.subrange(0, i as int).push(a@[i as int]));
        assert(b@.subrange(0, i + 1) == b@.subrange(0, i as int).push(b@[i as int]));
        i += 1;
    }
    assert(a@ == a@.subrange(0, a@.len() as int));
    assert(b@ == b@.subrange(0, b@.len() as int));
    true
}

/// Whether `s` begins with `p`.
pub open spec fn starts_with(s: Seq<char>, p: Seq<char>) -> bool {
    p.len() <= s.len() && s.subrange(0, p.len() as int) == p
}

/// Whether `s` ends with `p`.
pub open spec fn ends_with(s: Seq<char>, p: Seq<char>) -> bool {
    p.len() <= s.len() && s.subrange(s.len() - p.len(), s.len() as int) == p
}

/// Whether `p` occurs in `s` at index `at`.
pub open spec fn occurs_at(s: Seq<char>, p: Seq<char>, at: int) -> bool {
    0 <= at && at + p.len() <= s.len() && s.subrange(at, at + p.len()) == p
}

/// Whether `p` occurs anywhere in `s` (`str::contains`).
pub open spec fn contains_text(s: Seq<char>, p: Seq<char>) -> bool {
    exists|at: int| occurs_at(s, p, at)
}

pub fn chars_occur_at(v: &Vec<char>, p: &Vec<char>, at: usize) -> (r: bool)
    ensures
        r == occurs_at(v@, p@, at as int),
{
    if at > v.len() || p.len() > v.len() - at {
        return false;
    }
    let mut i: usize = 0;
    while i < p.len()
        invariant
            at + p.len() <= v.len(),
            i <= p.len(),
            v@.subrange(at as int, at + i) == p@.subrange(0, i as int),
        decreases p.len() - i,
    {
        if v[at + i] != p[i] {
            assert(v@.subrange(at as int, at + p.len())[i as int] != p@[i as int]);
            return false;
        }
        assert(v@.subrange(at as int, at + i + 1) == v@.subrange(at as int, at + i).push(
            v@[at + i],
        ));
        assert(p@.subrange(0, i + 1) == p@.subrange(0, i as int).push(p@[i as int]));
        i += 1;
    }
    assert(p@ == p@.subrange(0, p@.len() as int));
    true
}

/// `str::starts_with`.
pub fn chars_starts_with(v: &Vec<char>, p: &Vec<char>) -> (r: bool)
    ensures
        r == starts_with(v@, p@),
{
    chars_occur_at(v, p, 0)
}

/// `str::ends_with`.
pub fn chars_ends_with(v: &Vec<char>, p: &Vec<char>) -> (r: bool)
    ensures
        r == ends_with(v@, p@),
{
    if p.len() > v.len() {
        return false;
    }
    chars_occur_at(v, p, v.len() - p.len())
}

/// `str::contains` with a text pattern.
pub fn chars_contains(v: &Vec<char>, p: &Vec<char>) -> (r: bool)
    ensures
        r == contains_text(v@, p@),
{
    let mut at: usize = 0;
    loop
        invariant
            at <= v.len(),
            forall|k: int| 0 <= k < at ==> !occurs_at(v@, p@, k),
        ensures
            forall|k: int| 0 <= k <= v.len() ==> !occurs_at(v@, p@, k),
        decreases v.len() - at,
    {
        if chars_occur_at(v, p, at) {
            return true;
        }
        if at == v.len() {
            break;
        }
        at += 1;
    }
    assert forall|k: int| !occurs_at(v@, p@, k) by {
        if 0 <= k && k <= v.len() {
        }
    }
    false
}

/// The first index at or after `i` holding `c`, or -1.
pub open spec fn index_from(s: Seq<char>, c: char, i: int) -> int
    decreases s.len() - i,
{
    if i < 0 || i >= s.len() {
        -1
    } else if s[i] == c {
        i
    } else {
        index_from(s, c, i + 1)
    }
}

/// The first index holding `c`, or -1 (`str::find` with a `char`).
pub open spec fn index_of(s: Seq<char>, c: char) -> int {
    index_from(s, c, 0)
}

pub proof fn lemma_index_from(s: Seq<char>, c: char, i: int)
    requires
        0 <= i,
    ensures
        index_from(s, c, i) == -1 || (i <= index_from(s, c, i) < s.len() && s[index_from(
            s,
            c,
            i,
        )] == c),
        forall|k: int|
            i <= k < s.len() && (index_from(s, c, i) == -1 || k < index_from(s, c, i)) ==> #[trigger] s[k]
                != c,
    decreases s.len() - i,
{
    if i < s.len() && s[i] != c {
        lemma_index_from(s, c, i + 1);
    }
}

/// Characterises `index_from` by its defining property.
pub proof fn lemma_index_from_unique(s: Seq<char>, c: char, i: int, r: int)
    requires
        0 <= i,
        r == -1 || (i <= r < s.len() && s[r] == c),
        forall|k: int| i <= k < s.len() && (r == -1 || k < r) ==> #[trigger] s[k] != c,
    ensures
        index_from(s, c, i) == r,
    decreases s.len() - i,
{
    if i < s.len() && s[i] != c {
        lemma_index_from_unique(s, c, i + 1, r);
    }
}

/// `str::find` for a `char`, starting at `from`.
pub fn find_char_from(v: &Vec<char>, c: char, from: usize) -> (r: Option<usize>)
    ensures
        match r {
            Some(i) => index_from(v@, c, from as int) == i as int,
            None => index_from(v@, c, from as int) == -1,
        },
{
    let mut i = from;
    while i < v.len()
        invariant
            from <= i,
            forall|k: int| from <= k < i ==> #[trigger] v@[k] != c,
        decreases v.len() - i,
    {
        if v[i] == c {
            proof {
                lemma_index_from_unique(v@, c, from as int, i as int);
            }
            return Some(i);
        }
        i += 1;
    }
    proof {
        lemma_index_from_unique(v@, c, from as int, -1);
    }
    None
}

/// `l` without one trailing carriage return.
pub open spec fn strip_cr(l: Seq<char>) -> Seq<char> {
    if l.len() > 0 && l.last() == '\r' {
        l.drop_last()
    } else {
        l
    }
}

/// The lines of `s` as `str::lines` yields them: split at `\n`, a `\r` just
/// before a `\n` removed, no empty line after a final line ending.
pub open spec fn lines(s: Seq<char>) -> Seq<Seq<char>>
    decreases s.len(),
{
    if s.len() == 0 {
        seq![]
    } else {
        let i = index_of(s, '\n');
        if i < 0 || i >= s.len() {
            seq![s]
        } else {
            seq![strip_cr(s.subrange(0, i))] + lines(s.subrange(i + 1, s.len() as int))
        }
    }
}

/// The views of a vector of texts.
pub open spec fn views(v: Seq<Vec<char>>) -> Seq<Seq<char>> {
    v.map_values(|x: Vec<char>| x@)
}

pub proof fn lemma_views_push(v: Seq<Vec<char>>, x: Vec<char>)
    ensures
        views(v.push(x)) == views(v).push(x@),
{
    assert(views(v.push(x)) =~= views(v).push(x@));
}

pub proof fn lemma_index_of_suffix(s: Seq<char>, c: char, k: int, j: int)
    requires
        0 <= k <= s.len(),
        0 <= j,
    ensures
        index_from(s.subrange(k, s.len() as int), c, j) == (if index_from(s, c, k + j) < 0 {
            -1
        } else {
            index_from(s, c, k + j) - k
        }),
    decreases s.len() - k - j,
{
    let t = s.subrange(k, s.len() as int);
    if k + j < s.len() && s[k + j] != c {
        lemma_index_of_suffix(s, c, k, j + 1);
    }
}

/// `str::lines`.
pub fn split_lines(v: &Vec<char>) -> (r: Vec<Vec<char>>)
    ensures
        views(r@) == lines(v@),
{
    let mut out: Vec<Vec<char>> = Vec::new();
    let mut k: usize = 0;
    let n = v.len();
    assert(views(out@) + lines(v@.subrange(0, n as int)) =~= lines(v@)) by {
        assert(v@.subrange(0, n as int) =~= v@);
    }
    while k < n
        invariant
            k <= n == v.len(),
            views(out@) + lines(v@.subrange(k as int, n as int)) == lines(v@),
        decreases n - k,
    {
        let ghost t = v@.subrange(k as int, n as int);
        proof {
            lemma_index_of_suffix(v@, '\n', k as int, 0);
            lemma_index_from(v@, '\n', k as int);
        }
        match find_char_from(v, '\n', k) {
            None => {
                let piece = slice_chars(v, k, n);
                assert(lines(t) == seq![t]);
                proof {
                    lemma_views_push(out@, piece);
                }
                out.push(piece);
                k = n;
                assert(v@.subrange(k as int, n as int).len() == 0);
                assert(lines(v@.subrange(k as int, n as int)) =~= seq![]);
                assert(views(out@) + lines(v@.subrange(k as int, n as int)) =~= views(out@));
            },
            Some(i) => {
                let raw = slice_chars(v, k, i);
                let piece = if raw.len() > 0 && raw[raw.len() - 1] == '\r' {
                    slice_chars(&raw, 0, raw.len() - 1)
                } else {
                    raw
                };
                assert(t.subrange(0, i - k) =~= v@.subrange(k as int, i as int));
                assert(t.subrange(i - k + 1, t.len() as int) =~= v@.subrange(i + 1, n as int));
                assert(piece@ == strip_cr(v@.subrange(k as int, i as int)));
                assert(lines(t) == seq![piece@] + lines(v@.subrange(i + 1, n as int)));
                proof {
                    lemma_views_push(out@, piece);
                }
                out.push(piece);
                assert(views(out@) + lines(v@.subrange(i + 1, n as int)) =~= (views(out@).drop_last()
                    + lines(t)));
                k = i + 1;
            },
        }
    }
    assert(v@.subrange(k as int, n as int).len() == 0);
    assert(lines(v@.subrange(k as int, n as int)) =~= seq![]);
    assert(views(out@) + lines(v@.subrange(k as int, n as int)) =~= views(out@));
    out
}

/// The texts of `ls` joined with `sep` between consecutive texts (`[T]::join`).
pub open spec fn join(ls: Seq<Seq<char>>, sep: Seq<char>) -> Seq<char>
    decreases ls.len(),
{
    if ls.len() == 0 {
        seq![]
    } else if ls.len() == 1 {
        ls[0]
    } else {
        ls[0] + sep + join(ls.drop_first(), sep)
    }
}

/// `a` followed by `b`.
pub fn concat_chars(a: &Vec<char>, b: &Vec<char>) -> (r: Vec<char>)
    ensures
        r@ == a@ + b@,
{
    let mut r = a.clone();
    let mut i: usize = 0;
    while i < b.len()
        invariant
            i <= b.len(),
            r@ == a@ + b@.subrange(0, i as int),
        decreases b.len() - i,
    {
        r.push(b[i]);
        assert(b@.subrange(0, i + 1) == b@.subrange(0, i as int).push(b@[i as int]));
        i += 1;
    }
    assert(b@ == b@.subrange(0, b@.len() as int));
    r
}

/// Appends `b` to `a`.
pub fn append_chars(a: &mut Vec<char>, b: &Vec<char>)
    ensures
        final(a)@ == old(a)@ + b@,
{
    let ghost start = a@;
    let mut i: usize = 0;
    while i < b.len()
        invariant
            i <= b.len(),
            a@ == start + b@.subrange(0, i as int),
        decreases b.len() - i,
    {
        a.push(b[i]);
        assert(b@.subrange(0, i + 1) == b@.subrange(0, i as int).push(b@[i as int]));
        i += 1;
    }
    assert(b@ == b@.subrange(0, b@.len() as int));
}

pub proof fn lemma_join_push(ls: Seq<Seq<char>>, x: Seq<char>, sep: Seq<char>)
    requires
        ls.len() > 0,
    ensures
        join(ls.push(x), sep) == join(ls, sep) + sep + x,
    decreases ls.len(),
{
    if ls.len() == 1 {
        assert(ls.push(x).drop_first() =~= seq![x]);
        assert(join(seq![x], sep) == x);
    } else {
        assert(ls.push(x).drop_first() =~= ls.drop_first().push(x));
        lemma_join_push(ls.drop_first(), x, sep);
    }
}

/// `[T]::join` on texts.
pub fn join_chars(ls: &Vec<Vec<char>>, sep: &Vec<char>) -> (r: Vec<char>)
    ensures
        r@ == join(views(ls@), sep@),
{
    let mut r: Vec<char> = Vec::new();
    let mut i: usize = 0;
    while i < ls.len()
        invariant
            i <= ls.len(),
            r@ == join(views(ls@).subrange(0, i as int), sep@),
        decreases ls.len() - i,
    {
        let ghost before = views(ls@).subrange(0, i as int);
        if i > 0 {
            append_chars(&mut r, sep);
        }
        append_chars(&mut r, &ls[i]);
        proof {
            assert(views(ls@).subrange(0, i + 1) =~= before.push(ls@[i as int]@));
            if i > 0 {
                lemma_join_push(before, ls@[i as int]@, sep@);
            } else {
                assert(join(seq![ls@[0]@], sep@) == ls@[0]@);
                assert(before.push(ls@[0]@) =~= seq![ls@[0]@]);
            }
        }
        i += 1;
    }
    assert(views(ls@).subrange(0, ls.len() as int) =~= views(ls@));
    r
}


/// A line that ends with a carriage return.
pub open spec fn ends_cr(l: Seq<char>) -> bool {
    l.len() > 0 && l.last() == '\r'
}

/// A text with no line feed.
pub open spec fn no_lf(l: Seq<char>) -> bool {
    forall|k: int| 0 <= k < l.len() ==> #[trigger] l[k] != '\n'
}

/// A line ending: `\n` or `\r\n`.
pub open spec fn is_line_ending(nl: Seq<char>) -> bool {
    nl == seq!['\n'] || nl == seq!['\r', '\n']
}

/// The first line of `a + nl + rest` is `a`, and the others are the lines of `rest`.
pub proof fn lemma_lines_cons(a: Seq<char>, nl: Seq<char>, rest: Seq<char>)
    requires
        no_lf(a),
        is_line_ending(nl),
        nl == seq!['\n'] ==> !ends_cr(a),
    ensures
        lines(a + nl + rest) == seq![a] + lines(rest),
{
    let s = a + nl + rest;
    let r = a.len() + nl.len() - 1;
    assert forall|k: int| 0 <= k < s.len() && (r == -1 || k < r) implies #[trigger] s[k] != '\n' by {
        if k < a.len() {
            assert(s[k] == a[k]);
        } else {
            assert(s[k] == nl[k - a.len()]);
        }
    }
    assert(s[r] == '\n');
    lemma_index_from_unique(s, '\n', 0, r);
    assert(s.subrange(r + 1, s.len() as int) =~= rest);
    if nl == seq!['\n'] {
        assert(s.subrange(0, r) =~= a);
    } else {
        assert(s.subrange(0, r) =~= a.push('\r'));
        assert(a.push('\r').drop_last() =~= a);
    }
}

/// `lines` undoes `join` with a line ending, followed by that line ending or
/// by nothing, when no text holds a line feed and the texts do not end in
/// carriage returns where a `\n` ending would merge with them.
pub proof fn lemma_lines_join(out: Seq<Seq<char>>, nl: Seq<char>, tail: Seq<char>)
    requires
        out.len() > 0,
        is_line_ending(nl),
        forall|j: int| 0 <= j < out.len() ==> no_lf(#[trigger] out[j]),
        nl == seq!['\n'] ==> forall|j: int| 0 <= j < out.len() - 1 ==> !ends_cr(#[trigger] out[j]),
        tail == nl || tail == Seq::<char>::empty(),
        tail == nl && nl == seq!['\n'] ==> !ends_cr(out.last()),
        tail == Seq::<char>::empty() ==> out.last().len() > 0,
    ensures
        lines(join(out, nl) + tail) == out,
    decreases out.len(),
{
    if out.len() == 1 {
        assert(join(out, nl) == out[0]);
        if tail == nl {
            lemma_lines_cons(out[0], nl, seq![]);
            assert(out[0] + nl + Seq::<char>::empty() =~= out[0] + tail);
            assert(lines(Seq::<char>::empty()) =~= Seq::<Seq<char>>::empty());
            assert(seq![out[0]] + Seq::<Seq<char>>::empty() =~= out);
        } else {
            let s = out[0];
            assert(join(out, nl) + tail =~= s);
            lemma_index_from_unique(s, '\n', 0, -1);
            assert(seq![s] =~= out);
        }
    } else {
        let rest = out.drop_first();
        assert forall|j: int| 0 <= j < rest.len() implies no_lf(#[trigger] rest[j]) by {
            assert(rest[j] == out[j + 1]);
        }
        if nl == seq!['\n'] {
            assert forall|j: int| 0 <= j < rest.len() - 1 implies !ends_cr(#[trigger] rest[j]) by {
                assert(rest[j] == out[j + 1]);
            }
            assert(!ends_cr(out[0]));
        }
        assert(rest.last() == out.last());
        lemma_lines_join(rest, nl, tail);
        assert(join(out, nl) + tail =~= out[0] + nl + (join(rest, nl) + tail));
        lemma_lines_cons(out[0], nl, join(rest, nl) + tail);
        assert(seq![out[0]] + rest =~= out);
    }
}

/// The lines of a text hold no line feed; without `\r\n` in the text, no line
/// followed by a line feed ends in a carriage return; a text that does not end
/// with a line feed has a non-empty last line.
pub proof fn lemma_lines_shape(s: Seq<char>)
    requires
        s.len() > 0,
    ensures
        lines(s).len() > 0,
        forall|j: int| 0 <= j < lines(s).len() ==> no_lf(#[trigger] lines(s)[j]),
        !contains_text(s, seq!['\r', '\n']) ==> forall|j: int|
            0 <= j < lines(s).len() - 1 ==> !ends_cr(#[trigger] lines(s)[j]),
        s.last() != '\n' ==> lines(s).last().len() > 0,
        s.last() == '\n' && !contains_text(s, seq!['\r', '\n']) ==> !ends_cr(lines(s).last()),
    decreases s.len(),
{
    let crlf = seq!['\r', '\n'];
    let i = index_of(s, '\n');
    lemma_index_from(s, '\n', 0);
    if i < 0 {
        assert(lines(s) == seq![s]);
        assert forall|k: int| 0 <= k < s.len() implies #[trigger] s[k] != '\n' by {}
    } else {
        let piece = s.subrange(0, i);
        let rest = s.subrange(i + 1, s.len() as int);
        let ls = lines(s);
        assert(ls == seq![strip_cr(piece)] + lines(rest));
        assert(no_lf(piece));
        assert(no_lf(strip_cr(piece)));
        if ends_cr(piece) {
            assert(occurs_at(s, crlf, i - 1)) by {
                assert(s.subrange(i - 1, i + 1) =~= crlf);
            }
        }
        if rest.len() == 0 {
            assert(lines(rest) =~= Seq::<Seq<char>>::empty());
            assert(ls =~= seq![strip_cr(piece)]);
            assert(s.last() == '\n');
        } else {
            lemma_lines_shape(rest);
            let lr = lines(rest);
            assert forall|j: int| 0 <= j < ls.len() implies no_lf(#[trigger] ls[j]) by {
                if j > 0 {
                    assert(ls[j] == lr[j - 1]);
                }
            }
            if contains_text(rest, crlf) {
                let at = choose|at: int| occurs_at(rest, crlf, at);
                assert(occurs_at(s, crlf, at + i + 1)) by {
                    assert(s.subrange(at + i + 1, at + i + 3) =~= rest.subrange(at, at + 2));
                }
            }
            if !contains_text(s, crlf) {
                assert forall|j: int| 0 <= j < ls.len() - 1 implies !ends_cr(#[trigger] ls[j]) by {
                    if j > 0 {
                        assert(ls[j] == lr[j - 1]);
                    }
                }
            }
            assert(ls.last() == lr.last());
            assert(s.last() == rest.last());
        }
    }
}

/// The concatenation of texts.
pub fn concat_texts(parts: &Vec<&str>) -> (r: String)
    ensures
        r@ == parts@.fold_left(Seq::<char>::empty(), |acc: Seq<char>, p: &str| acc + p@),
{
    let mut out: Vec<char> = Vec::new();
    let mut i: usize = 0;
    while i < parts.len()
        invariant
            i <= parts.len(),
            out@ == parts@.subrange(0, i as int).fold_left(
                Seq::<char>::empty(),
                |acc: Seq<char>, p: &str| acc + p@,
            ),
        decreases parts.len() - i,
    {
        let piece = chars_of(parts[i]);
        crate::text::append_chars(&mut out, &piece);
        proof {
            let f = |acc: Seq<char>, p: &str| acc + p@;
            let pre = parts@.subrange(0, i as int);
            let next = parts@.subrange(0, i + 1);
            assert(next.drop_last() =~= pre);
            assert(next.last() == parts@[i as int]);
            assert(next.fold_left(Seq::<char>::empty(), f) == f(
                pre.fold_left(Seq::<char>::empty(), f),
                parts@[i as int],
            ));
        }
        i += 1;
    }
    assert(parts@.subrange(0, parts.len() as int) =~= parts@);
    string_of(&out)
}

/// Two texts one after the other.
pub fn concat2(a: &str, b: &str) -> (r: String)
    ensures
        r@ == a@ + b@,
{
    let mut v = chars_of(a);
    let w = chars_of(b);
    crate::text::append_chars(&mut v, &w);
    string_of(&v)
}

/// The ASCII digit for a number below 10.
pub open spec fn digit_char(d: nat) -> char {
    ((48 + d) as u8) as char
}

/// The decimal digits of a number.
pub open spec fn decimal_chars(n: nat) -> Seq<char>
    decreases n,
{
    if n < 10 {
        seq![digit_char(n)]
    } else {
        decimal_chars(n / 10).push(digit_char(n % 10))
    }
}

fn decimal_digits(n: u128) -> (r: Vec<char>)
    ensures
        r@ == decimal_chars(n as nat),
    decreases n,
{
    if n < 10 {
        let c = ((48 + n) as u8) as char;
        vec![c]
    } else {
        let mut v = decimal_digits(n / 10);
        let c = ((48 + n % 10) as u8) as char;
        v.push(c);
        v
    }
}

/// A number written in decimal.
pub fn decimal_text(n: u128) -> (r: String)
    ensures
        r@ == decimal_chars(n as nat),
{
    let v = decimal_digits(n);
    string_of(&v)
}

/// A text with its ASCII letters in lowercase (`str::to_ascii_lowercase`).
pub fn ascii_lowercase_text(s: &str) -> (r: String)
    ensures
        r@ == ascii_lower(s@),
{
    let v = chars_of(s);
    let mut w: Vec<char> = Vec::new();
    let mut i: usize = 0;
    while i < v.len()
        invariant
            i <= v.len(),
            w@ == ascii_lower(v@.subrange(0, i as int)),
        decreases v.len() - i,
    {
        w.push(char_to_ascii_lower(v[i]));
        assert(ascii_lower(v@.subrange(0, i + 1)) =~= ascii_lower(v@.subrange(0, i as int)).push(
            ascii_lower_char(v@[i as int]),
        ));
        i += 1;
    }
    assert(v@.subrange(0, v.len() as int) =~= v@);
    string_of(&w)
}

} // verus!
